use portlens::types::{format_uptime, Protocol, State};

#[test]
fn uptime_formats() {
    assert_eq!(format_uptime(None), "-");
    assert_eq!(format_uptime(Some(0)), "< 1m");
    assert_eq!(format_uptime(Some(59)), "< 1m");
    assert_eq!(format_uptime(Some(60)), "1m");
    assert_eq!(format_uptime(Some(3599)), "59m");
    assert_eq!(format_uptime(Some(3600)), "1h 0m");
    assert_eq!(format_uptime(Some(3600 + 25 * 60 + 7)), "1h 25m");
    assert_eq!(format_uptime(Some(86_399)), "23h 59m");
    assert_eq!(format_uptime(Some(86_400)), "1d 0h");
    assert_eq!(format_uptime(Some(10 * 86_400 + 3 * 3600 + 5)), "10d 3h");
    assert_eq!(
        format_uptime(Some(u64::MAX)),
        format!("{}d {}h", u64::MAX / 86_400, (u64::MAX % 86_400) / 3600)
    );
}

#[test]
fn protocol_and_state_names() {
    assert_eq!(Protocol::Tcp.as_str(), "TCP");
    assert_eq!(Protocol::Udp.as_str(), "UDP");
    assert_eq!(State::Listen.as_str(), "LISTEN");
    assert_eq!(State::NotApplicable.as_str(), "-");
}
