use portlens::display::render::{
    ascii_border_style, format_cell as clipped_cell, pad_value, render_border_line,
    render_bordered_cells, rendered_table_width, truncate_to_width, utf8_border_style, Alignment,
    display_width,
};
use portlens::display::{
    build_rows, format_cell, measure_column_widths, render_compact_header, render_compact_row,
    render_data_row, render_header_row, render_tip_box, render_tip_row, table_columns,
    truncate_process_name, write_compact_table, write_table, write_tips, Column, DisplayOptions,
    MAX_PROCESS_NAME_LEN,
};
use portlens::types::{PortEntry, Protocol, State};

fn sample_entry() -> PortEntry {
    PortEntry {
        port: 8080,
        local_addr: "127.0.0.1".to_string(),
        proto: Protocol::Tcp,
        state: State::Listen,
        pid: 1234,
        process: "node".to_string(),
        user: "user".to_string(),
        project: Some("my-app".to_string()),
        app: Some("Next.js".to_string()),
        uptime_secs: Some(3600),
    }
}

#[test]
fn short_name_unchanged() {
    assert_eq!(truncate_process_name("sshd"), "sshd");
}

#[test]
fn exact_length_unchanged() {
    let name = "a".repeat(MAX_PROCESS_NAME_LEN);
    assert_eq!(truncate_process_name(&name), name);
}

#[test]
fn long_name_truncated() {
    let name = "a".repeat(MAX_PROCESS_NAME_LEN + 5);
    let result = truncate_process_name(&name);
    assert_eq!(
        result.chars().count(),
        MAX_PROCESS_NAME_LEN,
        "truncated name should be exactly MAX_PROCESS_NAME_LEN chars"
    );
    assert!(
        result.ends_with('\u{2026}'),
        "truncated name should end with ellipsis"
    );
}

#[test]
fn multibyte_name_does_not_panic() {
    // CJK characters are 3 bytes each in UTF-8
    let name = "\u{4e16}\u{754c}".repeat(MAX_PROCESS_NAME_LEN);
    let result = truncate_process_name(&name);
    assert_eq!(
        result.chars().count(),
        MAX_PROCESS_NAME_LEN,
        "truncated multi-byte name should be exactly MAX_PROCESS_NAME_LEN chars"
    );
    assert!(
        result.ends_with('\u{2026}'),
        "truncated multi-byte name should end with ellipsis"
    );
}

#[test]
fn write_table_default_columns_include_expected_headers() {
    let entries = vec![sample_entry()];
    let opts = DisplayOptions {
        show_header: true,
        full: false,
        compact: false,
    };
    let mut output = String::new();
    write_table(&mut output, &entries, &opts, true);

    for header in [
        "PORT", "PROTO", "ADDRESS", "PROCESS", "PID", "PROJECT", "APP", "UPTIME",
    ] {
        assert!(
            output.contains(header),
            "default table should contain {header} header"
        );
    }
    assert!(
        !output.contains("STATE"),
        "default table should not contain STATE column"
    );
    assert!(
        !output.contains("USER"),
        "default table should not contain USER column"
    );
}

#[test]
fn write_table_full_columns_include_state_and_user() {
    let entries = vec![sample_entry()];
    let opts = DisplayOptions {
        show_header: true,
        full: true,
        compact: false,
    };
    let mut output = String::new();
    write_table(&mut output, &entries, &opts, true);

    assert!(
        output.contains("STATE"),
        "full table should contain STATE column"
    );
    assert!(
        output.contains("USER"),
        "full table should contain USER column"
    );
}

#[test]
fn write_table_no_header_omits_column_names() {
    let entries = vec![sample_entry()];
    let opts = DisplayOptions {
        show_header: false,
        full: false,
        compact: false,
    };
    let mut output = String::new();
    write_table(&mut output, &entries, &opts, true);

    assert!(
        !output.contains("PROTO"),
        "no-header should omit column names"
    );
}

#[test]
fn write_table_renders_entry_values() {
    let entries = vec![sample_entry()];
    let opts = DisplayOptions {
        show_header: false,
        full: false,
        compact: true,
    };
    let mut output = String::new();
    write_table(&mut output, &entries, &opts, true);

    assert!(output.contains("8080"), "table should contain port number");
    assert!(output.contains("TCP"), "table should contain protocol");
    assert!(output.contains("node"), "table should contain process name");
    assert!(
        output.contains("my-app"),
        "table should contain project name"
    );
    assert!(output.contains("Next.js"), "table should contain app label");
    assert!(output.contains("1h"), "table should contain uptime");
}

#[test]
fn write_tips_renders_shortcut_box() {
    let mut output = String::new();
    write_tips(&mut output, "0.1.0", true);

    assert!(
        output.contains("portview v"),
        "tips should include the version title"
    );
    assert!(
        output.contains("filter  -p PORT"),
        "tips should include the port filter shortcut"
    );
    assert!(
        output.contains("details --full"),
        "tips should include the details shortcut"
    );
    assert!(
        output.contains("json    --json"),
        "tips should include the JSON shortcut"
    );
    assert!(
        output.contains("help    -h"),
        "tips should include the help shortcut"
    );
}

// ── Further cases ───────────────────────────────────────────────────

#[test]
fn name_of_twenty_one_chars_is_truncated() {
    let name = "abcdefghijklmnopqrstu";
    assert_eq!(truncate_process_name(name), "abcdefghijklmnopqrs\u{2026}");
}

#[test]
fn bordered_table_exact_text() {
    let entries = vec![sample_entry()];
    let opts = DisplayOptions {
        show_header: true,
        full: false,
        compact: false,
    };
    let mut output = String::new();
    write_table(&mut output, &entries, &opts, false);
    let expected = "\
+------+-------+-----------+---------+------+---------+---------+--------+
| PORT | PROTO | ADDRESS   | PROCESS | PID  | PROJECT | APP     | UPTIME |
+------+-------+-----------+---------+------+---------+---------+--------+
| 8080 | TCP   | 127.0.0.1 | node    | 1234 | my-app  | Next.js | 1h 0m  |
+------+-------+-----------+---------+------+---------+---------+--------+
";
    assert_eq!(output, expected);
}

#[test]
fn bordered_table_lines_share_one_width() {
    let mut second = sample_entry();
    second.port = 5432;
    second.process = "postgres-with-a-very-long-name".to_string();
    second.project = None;
    second.app = None;
    second.uptime_secs = None;
    let entries = vec![sample_entry(), second];
    for full in [false, true] {
        for compact in [false, true] {
            for show_header in [false, true] {
                let opts = DisplayOptions { show_header, full, compact };
                let mut output = String::new();
                write_table(&mut output, &entries, &opts, true);
                let widths: Vec<usize> = output.lines().map(|l| l.chars().count()).collect();
                assert!(widths.iter().all(|w| *w == widths[0]), "{output}");
                let columns = table_columns(full);
                let rows = build_rows(&entries, &columns);
                let measured = measure_column_widths(&columns, &rows, show_header);
                assert_eq!(widths[0], rendered_table_width(&measured, compact));
            }
        }
    }
}

#[test]
fn utf8_table_uses_box_drawing() {
    let entries = vec![sample_entry()];
    let opts = DisplayOptions {
        show_header: false,
        full: false,
        compact: false,
    };
    let mut output = String::new();
    write_table(&mut output, &entries, &opts, true);
    assert!(output.starts_with('\u{256d}'));
    assert!(output.ends_with("\u{256f}\n"));
    assert_eq!(output.lines().count(), 3);
}

#[test]
fn compact_table_without_entries_or_header_is_one_newline() {
    let opts = DisplayOptions {
        show_header: false,
        full: false,
        compact: true,
    };
    let mut output = String::new();
    write_table(&mut output, &[], &opts, true);
    assert_eq!(output, "\n");
    let mut again = String::new();
    write_compact_table(&mut again, &[Column::Port], &[], &[4], false);
    assert_eq!(again, "\n");
}

#[test]
fn compact_table_exact_text() {
    let entries = vec![sample_entry()];
    let opts = DisplayOptions {
        show_header: true,
        full: true,
        compact: true,
    };
    let mut output = String::new();
    write_table(&mut output, &entries, &opts, true);
    let expected = "\
PORT  PROTO  ADDRESS    STATE   PROCESS  PID   USER  PROJECT  APP      UPTIME
8080  TCP    127.0.0.1  LISTEN  node     1234  user  my-app   Next.js  1h 0m \n";
    assert_eq!(output, expected);
}

#[test]
fn missing_project_and_app_show_dash() {
    let mut entry = sample_entry();
    entry.project = None;
    entry.app = None;
    entry.uptime_secs = None;
    entry.proto = Protocol::Udp;
    entry.state = State::NotApplicable;
    assert_eq!(Column::Project.value(&entry), "-");
    assert_eq!(Column::App.value(&entry), "-");
    assert_eq!(Column::Uptime.value(&entry), "-");
    assert_eq!(Column::Proto.value(&entry), "UDP");
    assert_eq!(Column::State.value(&entry), "-");
    assert_eq!(Column::Pid.value(&entry), "1234");
}

#[test]
fn headings_and_alignment() {
    assert_eq!(Column::Address.heading(), "ADDRESS");
    assert_eq!(Column::Uptime.heading(), "UPTIME");
    assert_eq!(Column::Port.alignment(), Alignment::Right);
    assert_eq!(Column::Pid.alignment(), Alignment::Right);
    assert_eq!(Column::User.alignment(), Alignment::Left);
    assert_eq!(table_columns(false).len(), 8);
    assert_eq!(table_columns(true).len(), 10);
}

#[test]
fn measure_counts_headers_only_when_shown() {
    let columns = vec![Column::Port, Column::Address];
    let rows = vec![vec!["1".to_string(), "a".to_string()], vec!["22".to_string()]];
    assert_eq!(measure_column_widths(&columns, &rows, false), vec![2, 1]);
    assert_eq!(measure_column_widths(&columns, &rows, true), vec![4, 7]);
    assert_eq!(measure_column_widths(&columns, &[], false), vec![0, 0]);
}

#[test]
fn header_and_data_rows() {
    let columns = vec![Column::Port, Column::Proto];
    let widths = vec![5, 6];
    assert_eq!(render_header_row(&columns, &widths, '|'), "| PORT  | PROTO  |");
    let row = vec!["80".to_string(), "TCP".to_string()];
    assert_eq!(render_data_row(&row, &columns, &widths, '|'), "|    80 | TCP    |");
    assert_eq!(render_compact_header(&columns, &widths), "PORT   PROTO ");
    assert_eq!(render_compact_row(&row, &columns, &widths), "   80  TCP   ");
    // A row shorter than the columns renders only the cells it has.
    let short = vec!["80".to_string()];
    assert_eq!(render_data_row(&short, &columns, &widths, '|'), "|    80 |");
}

#[test]
fn plain_cell_keeps_long_values() {
    assert_eq!(format_cell("abcdef", 3, Alignment::Left), " abcdef ");
    assert_eq!(format_cell("ab", 4, Alignment::Right), "   ab ");
}

#[test]
fn tip_row_and_box() {
    assert_eq!(render_tip_row(&[("a", "b"), ("long-lab", "x")]), "a       b   long-lab x");
    assert_eq!(render_tip_row(&[]), "");
    let lines = vec!["abc".to_string(), "a".to_string()];
    let tip_box = render_tip_box("T", &lines, ascii_border_style());
    assert_eq!(tip_box, "+ T --+\n| abc |\n| a   |\n+-----+");
    let wide_title = render_tip_box("long title", &lines, ascii_border_style());
    assert_eq!(
        wide_title,
        "+ long title +\n| abc        |\n| a          |\n+------------+"
    );
    for line in wide_title.lines() {
        assert_eq!(line.chars().count(), 14);
    }
}

#[test]
fn tips_box_lines_share_one_width() {
    let mut output = String::new();
    write_tips(&mut output, "1.2.3", false);
    assert!(output.starts_with("\n+ portview v1.2.3 "));
    assert!(output.ends_with("+\n"));
    let widths: Vec<usize> = output.trim().lines().map(|l| l.chars().count()).collect();
    assert_eq!(widths.len(), 4);
    assert!(widths.iter().all(|w| *w == widths[0]));
    let mut utf8 = String::new();
    write_tips(&mut utf8, "1.2.3", true);
    assert!(utf8.contains('\u{256d}'));
}

#[test]
fn render_primitives() {
    assert_eq!(display_width("\u{4e16}\u{754c}x"), 3);
    assert_eq!(truncate_to_width("hello", 10), "hello");
    assert_eq!(truncate_to_width("hello", 5), "hello");
    assert_eq!(truncate_to_width("hello", 0), "");
    assert_eq!(truncate_to_width("hello", 1), "\u{2026}");
    assert_eq!(truncate_to_width("hello", 3), "he\u{2026}");
    assert_eq!(pad_value("ab", 4, Alignment::Left), "ab  ");
    assert_eq!(pad_value("ab", 4, Alignment::Right), "  ab");
    assert_eq!(pad_value("abcdef", 4, Alignment::Right), "abcdef");
    assert_eq!(clipped_cell("abcdef", 4, Alignment::Left), " abc\u{2026} ");
    assert_eq!(clipped_cell("ab", 4, Alignment::Right), "   ab ");
    assert_eq!(render_border_line(&[1, 2], '+', '*', '#', '-'), "+---*----#");
    assert_eq!(render_border_line(&[], '+', '*', '#', '-'), "+#");
    let cells = vec![" a ".to_string(), " bb ".to_string()];
    assert_eq!(render_bordered_cells(&cells, '|'), "| a | bb |");
    assert_eq!(rendered_table_width(&[1, 2], false), 10);
    assert_eq!(rendered_table_width(&[1, 2], true), 5);
    assert_eq!(rendered_table_width(&[], true), 0);
    assert_eq!(rendered_table_width(&[], false), 1);
    assert_eq!(utf8_border_style().vertical, '\u{2502}');
    assert_eq!(ascii_border_style().top_left, '+');
}

#[test]
fn full_columns_are_default_plus_state_and_user() {
    let full: Vec<Column> = table_columns(true)
        .into_iter()
        .filter(|c| *c != Column::State && *c != Column::User)
        .collect();
    assert_eq!(full, table_columns(false));
    assert_eq!(table_columns(true)[3], Column::State);
    assert_eq!(table_columns(true)[6], Column::User);
}

#[test]
fn truncated_names_keep_their_prefix() {
    let name = "x".repeat(19) + "yyyy";
    let short = truncate_process_name(&name);
    assert_eq!(short, "x".repeat(19) + "\u{2026}");
    assert_eq!(truncate_process_name(""), "");
}
