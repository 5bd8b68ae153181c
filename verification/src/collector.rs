//! Building port entries from socket and process snapshots, and ordering
//! them by port.

use vstd::prelude::*;
use crate::types::{PortEntry, Protocol, State};

verus! {

broadcast use vstd::seq_lib::group_seq_properties;

/// What the operating system reports of one open socket.
pub struct ListenerSnapshot {
    pub port: u16,
    /// The local address in its usual textual form.
    pub local_addr: String,
    pub protocol: Protocol,
    pub pid: u32,
    pub process_name: String,
}

/// What is known of the process that owns a socket.
pub struct ProcessSnapshot {
    /// The name of the owning user, when its id and the user could be
    /// looked up.
    pub user_name: Option<String>,
    /// Start time in seconds since the Unix epoch; 0 when unknown.
    pub start_time: u64,
}

/// The state shown for a protocol: TCP sockets listen, UDP has no state.
pub open spec fn state_for(protocol: Protocol) -> State {
    match protocol {
        Protocol::Tcp => State::Listen,
        Protocol::Udp => State::NotApplicable,
    }
}

/// The user shown for a process: its user's name, or `-` when the process,
/// its user id or the user is unknown.
pub open spec fn user_text(process: Option<ProcessSnapshot>) -> Seq<char> {
    match process {
        Some(p) => match p.user_name {
            Some(name) => name@,
            None => seq!['-'],
        },
        None => seq!['-'],
    }
}

/// Resolves the owning user's name as `user_text` describes.
pub fn resolve_user(process: Option<&ProcessSnapshot>) -> (user: String)
    ensures
        user@ == user_text(
            match process {
                Some(p) => Some(*p),
                None => None,
            },
        ),
{
    match process {
        Some(p) => match &p.user_name {
            Some(name) => name.clone(),
            None => {
                let mut s = String::new();
                crate::text::push_char(&mut s, '-');
                s
            },
        },
        None => {
            let mut s = String::new();
            crate::text::push_char(&mut s, '-');
            s
        },
    }
}

/// How long a process has run at `now_epoch`: known only when its start
/// time is known (non-zero) and lies before `now_epoch`.
pub open spec fn uptime_for(process: Option<ProcessSnapshot>, now_epoch: u64) -> Option<u64> {
    match process {
        Some(p) => if p.start_time > 0 && now_epoch > p.start_time {
            Some((now_epoch - p.start_time) as u64)
        } else {
            None
        },
        None => None,
    }
}

/// `entry` is the entry of a socket as `build_entry` makes it: the socket's
/// port, address, protocol, PID and process name; the state its protocol
/// implies; the owner's name; the container's name as project when a
/// container publishes the port, else the project root's name; the app
/// label; and the uptime at `now_epoch`.
pub open spec fn built_from(
    entry: PortEntry,
    listener: ListenerSnapshot,
    process: Option<ProcessSnapshot>,
    container_name: Option<String>,
    project_root_name: Option<String>,
    app: Option<String>,
    now_epoch: u64,
) -> bool {
    &&& entry.port == listener.port
    &&& entry.local_addr@ == listener.local_addr@
    &&& entry.proto == listener.protocol
    &&& entry.state == state_for(listener.protocol)
    &&& entry.pid == listener.pid
    &&& entry.process@ == listener.process_name@
    &&& entry.user@ == user_text(process)
    &&& entry.project == (if container_name.is_some() {
        container_name
    } else {
        project_root_name
    })
    &&& entry.app == app
    &&& entry.uptime_secs == uptime_for(process, now_epoch)
}

/// Builds the entry of one socket. The project is the name of the
/// container that publishes the port when there is one, and otherwise the
/// name of the project root found for the process; `app` is the detected
/// application label.
pub fn build_entry(
    listener: &ListenerSnapshot,
    process: Option<&ProcessSnapshot>,
    container_name: Option<String>,
    project_root_name: Option<String>,
    app: Option<String>,
    now_epoch: u64,
) -> (entry: PortEntry)
    ensures
        built_from(
            entry,
            *listener,
            match process {
                Some(p) => Some(*p),
                None => None,
            },
            container_name,
            project_root_name,
            app,
            now_epoch,
        ),
{
    let proto = listener.protocol;
    let state = match proto {
        Protocol::Tcp => State::Listen,
        Protocol::Udp => State::NotApplicable,
    };
    let user = resolve_user(process);
    let project = match container_name {
        Some(name) => Some(name),
        None => project_root_name,
    };
    let uptime_secs = match process {
        Some(p) => {
            let start = p.start_time;
            if start > 0 && now_epoch > start {
                Some(now_epoch - start)
            } else {
                None
            }
        },
        None => None,
    };
    PortEntry {
        port: listener.port,
        local_addr: listener.local_addr.clone(),
        proto,
        state,
        pid: listener.pid,
        process: listener.process_name.clone(),
        user,
        project,
        app,
        uptime_secs,
    }
}

/// Rank of a protocol in the ordering: TCP before UDP.
pub open spec fn protocol_rank(p: Protocol) -> int {
    match p {
        Protocol::Tcp => 0,
        Protocol::Udp => 1,
    }
}

/// The ordering key of an entry: by port, and on equal ports TCP before
/// UDP.
pub open spec fn sort_key(e: PortEntry) -> int {
    e.port as int * 2 + protocol_rank(e.proto)
}

/// Entries whose ordering key is `k`.
pub open spec fn has_key(k: int) -> spec_fn(PortEntry) -> bool {
    |e: PortEntry| sort_key(e) == k
}

/// Entries in order of their keys.
pub open spec fn sorted_by_key(s: Seq<PortEntry>) -> bool {
    forall|i: int, j: int| 0 <= i < j < s.len() ==> sort_key(#[trigger] s[i]) <= sort_key(#[trigger] s[j])
}

/// `result` holds, for every key, exactly the entries of `original` with
/// that key, in their original order: a stable rearrangement.
pub open spec fn same_entries_per_key(result: Seq<PortEntry>, original: Seq<PortEntry>) -> bool {
    forall|k: int| #[trigger] result.filter(has_key(k)) == original.filter(has_key(k))
}

/// The ordering key orders entries exactly by port, and on equal ports
/// puts TCP before UDP: one key is below another precisely when its port is
/// lower, or the ports are equal and it is the TCP one of a TCP/UDP pair.
pub proof fn lemma_sort_key_order(a: PortEntry, b: PortEntry)
    ensures
        sort_key(a) < sort_key(b) <==> (a.port < b.port || (a.port == b.port && a.proto
            == Protocol::Tcp && b.proto == Protocol::Udp)),
        sort_key(a) == sort_key(b) <==> (a.port == b.port && a.proto == b.proto),
{
}

/// Entries in key order have non-decreasing ports, and on equal ports no
/// UDP entry precedes a TCP one.
pub proof fn lemma_sorted_ports_ascend(s: Seq<PortEntry>)
    requires
        sorted_by_key(s),
    ensures
        forall|i: int, j: int|
            0 <= i < j < s.len() ==> {
                let a = #[trigger] s[i];
                let b = #[trigger] s[j];
                a.port < b.port || (a.port == b.port && !(a.proto == Protocol::Udp && b.proto
                    == Protocol::Tcp))
            },
{
    assert forall|i: int, j: int| 0 <= i < j < s.len() implies {
        let a = #[trigger] s[i];
        let b = #[trigger] s[j];
        a.port < b.port || (a.port == b.port && !(a.proto == Protocol::Udp && b.proto
            == Protocol::Tcp))
    } by {
        lemma_sort_key_order(s[i], s[j]);
        lemma_sort_key_order(s[j], s[i]);
    }
}

/// Uptime of a built entry: a process with a known start time (non-zero)
/// before `now_epoch` has run for exactly `now_epoch - start_time` seconds,
/// however short; otherwise, and for an unknown process, there is none.
pub proof fn lemma_built_entry_uptime(
    entry: PortEntry,
    listener: ListenerSnapshot,
    process: Option<ProcessSnapshot>,
    container_name: Option<String>,
    project_root_name: Option<String>,
    app: Option<String>,
    now_epoch: u64,
)
    requires
        built_from(entry, listener, process, container_name, project_root_name, app, now_epoch),
    ensures
        process is None ==> entry.uptime_secs is None,
        process matches Some(p) ==> (p.start_time > 0 && now_epoch > p.start_time ==> entry.uptime_secs
            == Some((now_epoch - p.start_time) as u64)),
        process matches Some(p) ==> (!(p.start_time > 0 && now_epoch > p.start_time)
            ==> entry.uptime_secs is None),
        entry.uptime_secs matches Some(u) ==> process matches Some(p) && u + p.start_time
            == now_epoch && u > 0,
{
}

fn entry_key(e: &PortEntry) -> (k: u32)
    ensures
        k as int == sort_key(*e),
{
    let rank: u32 = match e.proto {
        Protocol::Tcp => 0,
        Protocol::Udp => 1,
    };
    e.port as u32 * 2 + rank
}

proof fn lemma_insert_keeps_groups(prefix: Seq<PortEntry>, p: int, x: PortEntry, k: int)
    requires
        0 <= p <= prefix.len(),
        forall|q: int| p <= q < prefix.len() ==> sort_key(#[trigger] prefix[q]) > sort_key(x),
    ensures
        prefix.insert(p, x).filter(has_key(k)) == prefix.push(x).filter(has_key(k)),
{
    let a = prefix.take(p);
    let b = prefix.skip(p);
    assert(prefix =~= a + b);
    assert(prefix.insert(p, x) =~= a + seq![x] + b);
    Seq::filter_distributes_over_add(a + seq![x], b, has_key(k));
    Seq::filter_distributes_over_add(a, seq![x], has_key(k));
    Seq::filter_distributes_over_add(a, b, has_key(k));
    prefix.lemma_filter_push(x, has_key(k));
    seq![x].lemma_filter_push(x, has_key(k));
    assert(seq![x] =~= Seq::<PortEntry>::empty().push(x));
    Seq::<PortEntry>::empty().lemma_filter_push(x, has_key(k));
    reveal(Seq::filter);
    assert(Seq::<PortEntry>::empty().filter(has_key(k)) =~= Seq::<PortEntry>::empty());
    if sort_key(x) == k {
        assert forall|q: int| 0 <= q < b.len() implies !has_key(k)(b[q]) by {
            assert(b[q] == prefix[p + q]);
        }
        b.lemma_all_neg_filter_empty(has_key(k));
        assert(a.filter(has_key(k)) + b.filter(has_key(k)) =~= a.filter(has_key(k)));
        assert((a.filter(has_key(k)) + seq![x]) =~= a.filter(has_key(k)).push(x));
    } else {
        assert(a.filter(has_key(k)) + Seq::<PortEntry>::empty() =~= a.filter(has_key(k)));
    }
}

/// Orders the entries by port, TCP before UDP on equal ports, keeping the
/// original order of entries with equal port and protocol (a stable sort).
pub fn sort_entries(entries: &mut Vec<PortEntry>)
    ensures
        sorted_by_key(final(entries)@),
        forall|i: int, j: int|
            0 <= i < j < final(entries)@.len() ==> {
                let a = #[trigger] final(entries)@[i];
                let b = #[trigger] final(entries)@[j];
                a.port < b.port || (a.port == b.port && !(a.proto == Protocol::Udp && b.proto
                    == Protocol::Tcp))
            },
        same_entries_per_key(final(entries)@, old(entries)@),
        final(entries)@.len() == old(entries)@.len(),
{
    let ghost original = entries@;
    let n = entries.len();
    let mut i: usize = 0;
    while i < n
        invariant
            i <= n,
            n == original.len(),
            entries@.len() == n,
            entries@.skip(i as int) == original.skip(i as int),
            sorted_by_key(entries@.take(i as int)),
            forall|k: int| #[trigger] entries@.take(i as int).filter(has_key(k)) == original.take(
                i as int,
            ).filter(has_key(k)),
        decreases n - i,
    {
        let ghost before = entries@;
        let ghost prefix = before.take(i as int);
        let x = entries.remove(i);
        proof {
            assert(x == original[i as int]) by {
                assert(before.skip(i as int)[0] == original.skip(i as int)[0]);
            }
            assert(entries@.take(i as int) =~= prefix);
        }
        let kx = entry_key(&x);
        let mut p: usize = i;
        while p > 0 && entry_key(&entries[p - 1]) > kx
            invariant
                p <= i,
                i < n,
                entries@ == before.remove(i as int),
                before.len() == n,
                prefix == before.take(i as int),
                kx as int == sort_key(x),
                forall|q: int| p <= q < i ==> sort_key(#[trigger] prefix[q]) > sort_key(x),
            decreases p,
        {
            p = p - 1;
        }
        proof {
            assert forall|q: int| 0 <= q < p implies sort_key(#[trigger] prefix[q]) <= sort_key(x) by {
                if p > 0 {
                    assert(sort_key(prefix[p - 1]) <= sort_key(x));
                    assert(sorted_by_key(prefix));
                    if q < p - 1 {
                        assert(sort_key(prefix[q]) <= sort_key(prefix[p - 1]));
                    }
                }
            }
        }
        entries.insert(p, x);
        proof {
            let new_prefix = prefix.insert(p as int, x);
            assert(entries@.take(i + 1) =~= new_prefix);
            assert(entries@.skip(i + 1) =~= original.skip(i + 1)) by {
                assert forall|q: int| 0 <= q < entries@.skip(i + 1).len() implies #[trigger] entries@.skip(
                    i + 1,
                )[q] == original.skip(i + 1)[q] by {
                    assert(before.skip(i as int)[q + 1] == original.skip(i as int)[q + 1]);
                }
            }
            assert forall|a: int, b: int|
                0 <= a < b < new_prefix.len() implies sort_key(#[trigger] new_prefix[a]) <= sort_key(
                #[trigger] new_prefix[b],
            ) by {
                prefix.insert_ensures(p as int, x);
                let ia = if a < p { a } else if a == p { -1 } else { a - 1 };
                let ib = if b < p { b } else if b == p { -1 } else { b - 1 };
                if ia >= 0 && ib >= 0 {
                    assert(sort_key(prefix[ia]) <= sort_key(prefix[ib]));
                }
            }
            assert(original.take(i + 1) =~= original.take(i as int).push(x));
            assert forall|k: int| #[trigger] entries@.take(i + 1).filter(has_key(k)) == original.take(
                i + 1,
            ).filter(has_key(k)) by {
                lemma_insert_keeps_groups(prefix, p as int, x, k);
                prefix.lemma_filter_push(x, has_key(k));
                original.take(i as int).lemma_filter_push(x, has_key(k));
            }
        }
        i = i + 1;
    }
    assert(entries@.take(n as int) =~= entries@);
    assert(original.take(n as int) =~= original);
    proof {
        lemma_sorted_ports_ascend(entries@);
    }
}

/// Everything gathered about one open socket.
pub struct SocketSnapshot {
    pub listener: ListenerSnapshot,
    /// The owning process, when it could be looked up.
    pub process: Option<ProcessSnapshot>,
    /// The container publishing the port, if any.
    pub container_name: Option<String>,
    /// The name of the project root found for the process, if any.
    pub project_root_name: Option<String>,
    /// The detected application label, if any.
    pub app: Option<String>,
}

/// `entry` is built from `snapshot` at `now_epoch`.
pub open spec fn built_from_snapshot(entry: PortEntry, snapshot: SocketSnapshot, now_epoch: u64) -> bool {
    built_from(
        entry,
        snapshot.listener,
        snapshot.process,
        snapshot.container_name,
        snapshot.project_root_name,
        snapshot.app,
        now_epoch,
    )
}

/// Builds one entry per socket and orders them with `sort_entries`: the
/// result is the stable sort, by port and then protocol, of the entries
/// built from the snapshots in their given order.
pub fn collect_entries(snapshots: Vec<SocketSnapshot>, now_epoch: u64) -> (entries: Vec<PortEntry>)
    ensures
        exists|built: Seq<PortEntry>|
            {
                &&& built.len() == snapshots@.len()
                &&& forall|i: int|
                    0 <= i < built.len() ==> built_from_snapshot(
                        #[trigger] built[i],
                        snapshots@[i],
                        now_epoch,
                    )
                &&& same_entries_per_key(entries@, built)
            },
        sorted_by_key(entries@),
        forall|i: int, j: int|
            0 <= i < j < entries@.len() ==> (#[trigger] entries@[i]).port <= (
            #[trigger] entries@[j]).port,
        entries@.len() == snapshots@.len(),
{
    let ghost input = snapshots@;
    let mut entries: Vec<PortEntry> = Vec::new();
    for snapshot in iter: snapshots.into_iter()
        invariant
            iter.seq() == input,
            entries@.len() == iter.index(),
            forall|i: int|
                0 <= i < entries@.len() ==> built_from_snapshot(
                    #[trigger] entries@[i],
                    input[i],
                    now_epoch,
                ),
    {
        let entry = build_entry(
            &snapshot.listener,
            snapshot.process.as_ref(),
            snapshot.container_name,
            snapshot.project_root_name,
            snapshot.app,
            now_epoch,
        );
        entries.push(entry);
    }
    let ghost built = entries@;
    sort_entries(&mut entries);
    entries
}

} // verus!
