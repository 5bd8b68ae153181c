use portlens::collector::{
    build_entry, collect_entries, resolve_user, sort_entries, ListenerSnapshot, ProcessSnapshot,
    SocketSnapshot,
};
use portlens::types::{PortEntry, Protocol, State};

fn listener(port: u16, protocol: Protocol, name: &str) -> ListenerSnapshot {
    ListenerSnapshot {
        port,
        local_addr: "0.0.0.0".to_string(),
        protocol,
        pid: 42,
        process_name: name.to_string(),
    }
}

fn entry(port: u16, proto: Protocol, process: &str) -> PortEntry {
    PortEntry {
        port,
        local_addr: "::1".to_string(),
        proto,
        state: State::Listen,
        pid: 1,
        process: process.to_string(),
        user: "-".to_string(),
        project: None,
        app: None,
        uptime_secs: None,
    }
}

#[test]
fn user_falls_back_to_dash() {
    assert_eq!(resolve_user(None), "-");
    let unknown = ProcessSnapshot { user_name: None, start_time: 0 };
    assert_eq!(resolve_user(Some(&unknown)), "-");
    let known = ProcessSnapshot { user_name: Some("alice".to_string()), start_time: 0 };
    assert_eq!(resolve_user(Some(&known)), "alice");
}

#[test]
fn entry_fields_follow_the_rules() {
    let process = ProcessSnapshot { user_name: Some("bob".to_string()), start_time: 1000 };
    let tcp = build_entry(
        &listener(3000, Protocol::Tcp, "node"),
        Some(&process),
        Some("web-1".to_string()),
        Some("frontend".to_string()),
        Some("Next.js".to_string()),
        4600,
    );
    assert_eq!(tcp.port, 3000);
    assert_eq!(tcp.state, State::Listen);
    assert_eq!(tcp.user, "bob");
    assert_eq!(tcp.project.as_deref(), Some("web-1"));
    assert_eq!(tcp.app.as_deref(), Some("Next.js"));
    assert_eq!(tcp.uptime_secs, Some(3600));
    assert_eq!(tcp.process, "node");
    assert_eq!(tcp.pid, 42);
    assert_eq!(tcp.local_addr, "0.0.0.0");

    let udp = build_entry(
        &listener(53, Protocol::Udp, "dnsmasq"),
        None,
        None,
        Some("infra".to_string()),
        None,
        4600,
    );
    assert_eq!(udp.state, State::NotApplicable);
    assert_eq!(udp.user, "-");
    assert_eq!(udp.project.as_deref(), Some("infra"));
    assert_eq!(udp.uptime_secs, None);

    let not_started = ProcessSnapshot { user_name: None, start_time: 0 };
    let e = build_entry(&listener(1, Protocol::Tcp, "x"), Some(&not_started), None, None, None, 10);
    assert_eq!(e.uptime_secs, None);
    let future = ProcessSnapshot { user_name: None, start_time: 20 };
    let e = build_entry(&listener(1, Protocol::Tcp, "x"), Some(&future), None, None, None, 20);
    assert_eq!(e.uptime_secs, None);
}

#[test]
fn sort_is_by_port_then_protocol_and_stable() {
    let mut entries = vec![
        entry(8080, Protocol::Udp, "a"),
        entry(22, Protocol::Tcp, "b"),
        entry(8080, Protocol::Tcp, "c"),
        entry(22, Protocol::Tcp, "d"),
        entry(8080, Protocol::Udp, "e"),
        entry(1, Protocol::Udp, "f"),
    ];
    sort_entries(&mut entries);
    let order: Vec<(u16, Protocol, &str)> = entries
        .iter()
        .map(|e| (e.port, e.proto, e.process.as_str()))
        .collect();
    assert_eq!(
        order,
        vec![
            (1, Protocol::Udp, "f"),
            (22, Protocol::Tcp, "b"),
            (22, Protocol::Tcp, "d"),
            (8080, Protocol::Tcp, "c"),
            (8080, Protocol::Udp, "a"),
            (8080, Protocol::Udp, "e"),
        ]
    );
    let mut empty: Vec<PortEntry> = Vec::new();
    sort_entries(&mut empty);
    assert!(empty.is_empty());
}

#[test]
fn collect_builds_and_orders() {
    let snapshots = vec![
        SocketSnapshot {
            listener: listener(9000, Protocol::Tcp, "late"),
            process: None,
            container_name: None,
            project_root_name: None,
            app: None,
        },
        SocketSnapshot {
            listener: listener(80, Protocol::Tcp, "nginx"),
            process: Some(ProcessSnapshot { user_name: Some("www".to_string()), start_time: 5 }),
            container_name: None,
            project_root_name: None,
            app: Some("Nginx".to_string()),
        },
    ];
    let entries = collect_entries(snapshots, 65);
    assert_eq!(entries.len(), 2);
    assert_eq!(entries[0].port, 80);
    assert_eq!(entries[0].user, "www");
    assert_eq!(entries[0].uptime_secs, Some(60));
    assert_eq!(entries[1].process, "late");
}
