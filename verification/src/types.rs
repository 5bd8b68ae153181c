//! The data model of one open socket and the textual forms of its fields.

use vstd::prelude::*;
use crate::text::{self, push_char, push_decimal};

verus! {

/// Transport protocol of a socket.
#[derive(Clone, Copy, Debug, PartialEq, Eq, Structural)]
pub enum Protocol {
    Tcp,
    Udp,
}

/// Connection state shown for a socket.
#[derive(Clone, Copy, Debug, PartialEq, Eq, Structural)]
pub enum State {
    /// A TCP socket accepting connections.
    Listen,
    /// No connection state applies (UDP).
    NotApplicable,
}

/// One open socket, enriched with process, project, app and uptime data.
#[derive(Clone, Debug)]
pub struct PortEntry {
    pub port: u16,
    /// The local address in its usual textual form (`127.0.0.1`, `::1`).
    pub local_addr: String,
    pub proto: Protocol,
    pub state: State,
    pub pid: u32,
    pub process: String,
    pub user: String,
    pub project: Option<String>,
    pub app: Option<String>,
    pub uptime_secs: Option<u64>,
}

/// Text of a protocol: `TCP` or `UDP`.
pub open spec fn protocol_text(p: Protocol) -> Seq<char> {
    match p {
        Protocol::Tcp => seq!['T', 'C', 'P'],
        Protocol::Udp => seq!['U', 'D', 'P'],
    }
}

/// Text of a state: `LISTEN`, or `-` where no state applies.
pub open spec fn state_text(s: State) -> Seq<char> {
    match s {
        State::Listen => seq!['L', 'I', 'S', 'T', 'E', 'N'],
        State::NotApplicable => seq!['-'],
    }
}

impl Protocol {
    /// The protocol's text, as shown in tables.
    pub fn as_str(&self) -> (s: &'static str)
        ensures
            s@ == protocol_text(*self),
    {
        match self {
            Protocol::Tcp => {
                proof {
                    reveal_strlit("TCP");
                }
                "TCP"
            },
            Protocol::Udp => {
                proof {
                    reveal_strlit("UDP");
                }
                "UDP"
            },
        }
    }
}

impl State {
    /// The state's text, as shown in tables.
    pub fn as_str(&self) -> (s: &'static str)
        ensures
            s@ == state_text(*self),
    {
        match self {
            State::Listen => {
                proof {
                    reveal_strlit("LISTEN");
                }
                "LISTEN"
            },
            State::NotApplicable => {
                proof {
                    reveal_strlit("-");
                }
                "-"
            },
        }
    }
}

/// Human-readable uptime: `-` when unknown, `< 1m` under a minute, `Xm`
/// under an hour, `Xh Ym` under a day and `Xd Yh` from a day on.
pub open spec fn uptime_text(secs: Option<u64>) -> Seq<char> {
    match secs {
        None => seq!['-'],
        Some(s) => if s < 60 {
            seq!['<', ' ', '1', 'm']
        } else if s < 3600 {
            text::decimal((s / 60) as nat).push('m')
        } else if s < 86400 {
            text::decimal((s / 3600) as nat) + seq!['h', ' '] + text::decimal(((s % 3600) / 60) as nat).push(
                'm',
            )
        } else {
            text::decimal((s / 86400) as nat) + seq!['d', ' '] + text::decimal(((s % 86400) / 3600) as nat).push(
                'h',
            )
        },
    }
}

/// Formats an uptime in seconds as `uptime_text` describes.
pub fn format_uptime(secs: Option<u64>) -> (out: String)
    ensures
        out@ == uptime_text(secs),
{
    let mut out = String::new();
    match secs {
        None => {
            push_char(&mut out, '-');
        },
        Some(s) => {
            if s < 60 {
                push_char(&mut out, '<');
                push_char(&mut out, ' ');
                push_char(&mut out, '1');
                push_char(&mut out, 'm');
            } else if s < 3600 {
                push_decimal(&mut out, s / 60);
                push_char(&mut out, 'm');
            } else if s < 86400 {
                push_decimal(&mut out, s / 3600);
                push_char(&mut out, 'h');
                push_char(&mut out, ' ');
                push_decimal(&mut out, (s % 3600) / 60);
                push_char(&mut out, 'm');
            } else {
                push_decimal(&mut out, s / 86400);
                push_char(&mut out, 'd');
                push_char(&mut out, ' ');
                push_decimal(&mut out, (s % 86400) / 3600);
                push_char(&mut out, 'h');
            }
        },
    }
    assert(out@ =~= uptime_text(secs));
    out
}

} // verus!
