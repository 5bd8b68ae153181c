use portlens::display::terminal::{console_window_width, env_terminal_width, winsize_width};

#[test]
fn columns_variable_is_parsed() {
    assert_eq!(env_terminal_width(Some("80")), Some(80));
    assert_eq!(env_terminal_width(Some("+120")), Some(120));
    assert_eq!(env_terminal_width(Some("007")), Some(7));
    assert_eq!(env_terminal_width(Some("0")), None);
    assert_eq!(env_terminal_width(Some("-1")), None);
    assert_eq!(env_terminal_width(Some(" 80")), None);
    assert_eq!(env_terminal_width(Some("80x")), None);
    assert_eq!(env_terminal_width(Some("")), None);
    assert_eq!(env_terminal_width(Some("+")), None);
    assert_eq!(env_terminal_width(Some("99999999999999999999999")), None);
    assert_eq!(env_terminal_width(None), None);
}

#[test]
fn platform_widths() {
    assert_eq!(winsize_width(0, 132), Some(132));
    assert_eq!(winsize_width(0, 0), None);
    assert_eq!(winsize_width(-1, 132), None);
    assert_eq!(console_window_width(1, 0, 79), Some(80));
    assert_eq!(console_window_width(1, 5, 4), None);
    assert_eq!(console_window_width(1, 5, 3), None);
    assert_eq!(console_window_width(0, 0, 79), None);
    assert_eq!(console_window_width(1, i16::MIN, i16::MAX), Some(65536));
}

#[test]
fn decimal_text_reads_back() {
    for n in [1usize, 9, 10, 80, 12345, usize::MAX] {
        assert_eq!(env_terminal_width(Some(&n.to_string())), Some(n));
    }
}
