//! Rendering of port entries: an aligned table, bordered or compact, and
//! the tips box.

pub mod render;
pub mod terminal;

use vstd::prelude::*;
use crate::text::{self, push_char, push_decimal, push_joined, push_repeat, push_str};
use crate::types::{self, PortEntry, format_uptime};
use self::render::{Alignment, BorderStyle, ascii_border_style, render_border_line, utf8_border_style, display_width, pad_value, render_bordered_cells};

verus! {

broadcast use vstd::string::group_string_axioms;

/// Maximum display width of the process name column before truncation.
pub const MAX_PROCESS_NAME_LEN: usize = 20;

/// Options controlling how entries are rendered.
pub struct DisplayOptions {
    /// Show the header row.
    pub show_header: bool,
    /// Show all columns (adds STATE and USER).
    pub full: bool,
    /// Use compact (borderless) table style.
    pub compact: bool,
}

/// A table column and the entry field it shows.
#[derive(Clone, Copy, Debug, PartialEq, Eq, Structural)]
pub enum Column {
    Port,
    Proto,
    Address,
    State,
    Process,
    Pid,
    User,
    Project,
    App,
    Uptime,
}

/// A process name as the table shows it: unchanged up to
/// `MAX_PROCESS_NAME_LEN` characters, otherwise its first
/// `MAX_PROCESS_NAME_LEN - 1` characters and an ellipsis.
pub open spec fn short_process_name(name: Seq<char>) -> Seq<char> {
    if name.len() <= MAX_PROCESS_NAME_LEN {
        name
    } else {
        name.take(MAX_PROCESS_NAME_LEN - 1).push(render::ellipsis())
    }
}

/// Truncates a process name as `short_process_name` describes. It reads at
/// most `MAX_PROCESS_NAME_LEN + 1` characters of the name.
pub fn truncate_process_name(name: &str) -> (out: String)
    ensures
        out@ == short_process_name(name@),
{
    let mut chars = name.chars();
    let mut count: usize = 0;
    let mut prefix = String::new();
    let mut needs_truncation = false;
    while count <= MAX_PROCESS_NAME_LEN
        invariant
            count <= MAX_PROCESS_NAME_LEN + 1,
            count <= name@.len(),
            vstd::std_specs::iter::IteratorSpec::remaining(&chars) == name@.skip(count as int),
            prefix@ == name@.take(if count < MAX_PROCESS_NAME_LEN { count as int } else { MAX_PROCESS_NAME_LEN - 1 }),
            needs_truncation == (count > MAX_PROCESS_NAME_LEN),
        ensures
            needs_truncation ==> prefix@ == name@.take(MAX_PROCESS_NAME_LEN - 1) && name@.len()
                > MAX_PROCESS_NAME_LEN,
            !needs_truncation ==> name@.len() <= MAX_PROCESS_NAME_LEN,
        decreases MAX_PROCESS_NAME_LEN + 1 - count,
    {
        match chars.next() {
            None => {
                break;
            },
            Some(c) => {
                if count < MAX_PROCESS_NAME_LEN - 1 {
                    push_char(&mut prefix, c);
                }
                count = count + 1;
                if count > MAX_PROCESS_NAME_LEN {
                    needs_truncation = true;
                }
            },
        }
    }
    if !needs_truncation {
        return name.to_owned();
    }
    push_char(&mut prefix, '\u{2026}');
    prefix
}

/// The heading of a column.
pub open spec fn heading_text(column: Column) -> Seq<char> {
    match column {
        Column::Port => seq!['P', 'O', 'R', 'T'],
        Column::Proto => seq!['P', 'R', 'O', 'T', 'O'],
        Column::Address => seq!['A', 'D', 'D', 'R', 'E', 'S', 'S'],
        Column::State => seq!['S', 'T', 'A', 'T', 'E'],
        Column::Process => seq!['P', 'R', 'O', 'C', 'E', 'S', 'S'],
        Column::Pid => seq!['P', 'I', 'D'],
        Column::User => seq!['U', 'S', 'E', 'R'],
        Column::Project => seq!['P', 'R', 'O', 'J', 'E', 'C', 'T'],
        Column::App => seq!['A', 'P', 'P'],
        Column::Uptime => seq!['U', 'P', 'T', 'I', 'M', 'E'],
    }
}

/// Numeric columns (port and PID) are right-aligned, all others left.
pub open spec fn column_alignment(column: Column) -> Alignment {
    match column {
        Column::Port | Column::Pid => Alignment::Right,
        _ => Alignment::Left,
    }
}

/// The text an entry shows in a column: numbers in decimal, the protocol
/// and state by name, the process name shortened, `-` for a missing
/// project or app, and the uptime in human form.
pub open spec fn cell_text(column: Column, entry: PortEntry) -> Seq<char> {
    match column {
        Column::Port => text::decimal(entry.port as nat),
        Column::Proto => types::protocol_text(entry.proto),
        Column::Address => entry.local_addr@,
        Column::State => types::state_text(entry.state),
        Column::Process => short_process_name(entry.process@),
        Column::Pid => text::decimal(entry.pid as nat),
        Column::User => entry.user@,
        Column::Project => match entry.project {
            Some(p) => p@,
            None => seq!['-'],
        },
        Column::App => match entry.app {
            Some(a) => a@,
            None => seq!['-'],
        },
        Column::Uptime => types::uptime_text(entry.uptime_secs),
    }
}

fn dash() -> (s: String)
    ensures
        s@ == seq!['-'],
{
    let mut s = String::new();
    push_char(&mut s, '-');
    s
}

impl Column {
    /// The column's heading.
    pub fn heading(self) -> (h: &'static str)
        ensures
            h@ == heading_text(self),
    {
        match self {
            Column::Port => {
                proof {
                    reveal_strlit("PORT");
                }
                "PORT"
            },
            Column::Proto => {
                proof {
                    reveal_strlit("PROTO");
                }
                "PROTO"
            },
            Column::Address => {
                proof {
                    reveal_strlit("ADDRESS");
                }
                "ADDRESS"
            },
            Column::State => {
                proof {
                    reveal_strlit("STATE");
                }
                "STATE"
            },
            Column::Process => {
                proof {
                    reveal_strlit("PROCESS");
                }
                "PROCESS"
            },
            Column::Pid => {
                proof {
                    reveal_strlit("PID");
                }
                "PID"
            },
            Column::User => {
                proof {
                    reveal_strlit("USER");
                }
                "USER"
            },
            Column::Project => {
                proof {
                    reveal_strlit("PROJECT");
                }
                "PROJECT"
            },
            Column::App => {
                proof {
                    reveal_strlit("APP");
                }
                "APP"
            },
            Column::Uptime => {
                proof {
                    reveal_strlit("UPTIME");
                }
                "UPTIME"
            },
        }
    }

    /// The column's alignment.
    pub fn alignment(self) -> (a: Alignment)
        ensures
            a == column_alignment(self),
    {
        match self {
            Column::Port | Column::Pid => Alignment::Right,
            Column::Proto
            | Column::Address
            | Column::State
            | Column::Process
            | Column::User
            | Column::Project
            | Column::App
            | Column::Uptime => Alignment::Left,
        }
    }

    /// The text `entry` shows in this column.
    pub fn value(self, entry: &PortEntry) -> (v: String)
        ensures
            v@ == cell_text(self, *entry),
    {
        match self {
            Column::Port => {
                let mut s = String::new();
                push_decimal(&mut s, entry.port as u64);
                s
            },
            Column::Proto => entry.proto.as_str().to_owned(),
            Column::Address => entry.local_addr.clone(),
            Column::State => entry.state.as_str().to_owned(),
            Column::Process => truncate_process_name(entry.process.as_str()),
            Column::Pid => {
                let mut s = String::new();
                push_decimal(&mut s, entry.pid as u64);
                s
            },
            Column::User => entry.user.clone(),
            Column::Project => match &entry.project {
                Some(p) => p.clone(),
                None => dash(),
            },
            Column::App => match &entry.app {
                Some(a) => a.clone(),
                None => dash(),
            },
            Column::Uptime => format_uptime(entry.uptime_secs),
        }
    }
}

/// The default columns, and with `full` the STATE and USER columns too.
pub open spec fn columns_for(full: bool) -> Seq<Column> {
    if full {
        seq![
            Column::Port,
            Column::Proto,
            Column::Address,
            Column::State,
            Column::Process,
            Column::Pid,
            Column::User,
            Column::Project,
            Column::App,
            Column::Uptime,
        ]
    } else {
        seq![
            Column::Port,
            Column::Proto,
            Column::Address,
            Column::Process,
            Column::Pid,
            Column::Project,
            Column::App,
            Column::Uptime,
        ]
    }
}

/// The columns to show, in order.
pub fn table_columns(full: bool) -> (columns: Vec<Column>)
    ensures
        columns@ == columns_for(full),
{
    if full {
        let v = vec![
            Column::Port,
            Column::Proto,
            Column::Address,
            Column::State,
            Column::Process,
            Column::Pid,
            Column::User,
            Column::Project,
            Column::App,
            Column::Uptime,
        ];
        assert(v@ =~= columns_for(full));
        v
    } else {
        let v = vec![
            Column::Port,
            Column::Proto,
            Column::Address,
            Column::Process,
            Column::Pid,
            Column::Project,
            Column::App,
            Column::Uptime,
        ];
        assert(v@ =~= columns_for(full));
        v
    }
}

/// The cell texts of one entry, one per column.
pub open spec fn row_for(entry: PortEntry, columns: Seq<Column>) -> Seq<Seq<char>> {
    Seq::new(columns.len(), |j: int| cell_text(columns[j], entry))
}

/// The cell texts of each entry, one row per entry.
pub open spec fn rows_for(entries: Seq<PortEntry>, columns: Seq<Column>) -> Seq<Seq<Seq<char>>> {
    Seq::new(entries.len(), |i: int| row_for(entries[i], columns))
}

/// The character sequences of rows of strings.
pub open spec fn row_views(rows: Seq<Vec<String>>) -> Seq<Seq<Seq<char>>> {
    rows.map_values(|r: Vec<String>| text::views(r@))
}

/// Renders the cells of each entry.
pub fn build_rows(entries: &[PortEntry], columns: &[Column]) -> (rows: Vec<Vec<String>>)
    ensures
        row_views(rows@) == rows_for(entries@, columns@),
        rows@.len() == entries@.len(),
        forall|i: int, j: int|
            0 <= i < entries@.len() && 0 <= j < columns@.len() ==> #[trigger] row_views(rows@)[i][j]
                == cell_text(columns@[j], entries@[i]),
{
    let mut rows: Vec<Vec<String>> = Vec::new();
    let mut i: usize = 0;
    while i < entries.len()
        invariant
            i <= entries.len(),
            rows@.len() == i,
            row_views(rows@) == rows_for(entries@.take(i as int), columns@),
        decreases entries.len() - i,
    {
        let mut row: Vec<String> = Vec::new();
        let mut j: usize = 0;
        while j < columns.len()
            invariant
                i < entries.len(),
                j <= columns.len(),
                row@.len() == j,
                text::views(row@) == row_for(entries@[i as int], columns@.take(j as int)),
            decreases columns.len() - j,
        {
            let cell = columns[j].value(&entries[i]);
            let ghost before = row@;
            row.push(cell);
            proof {
                assert(row@ == before.push(cell));
                assert(row@[j as int] == cell);
                assert(row@.len() == j + 1);
                assert(text::views(row@)[j as int] == cell@);
                assert(cell@ == cell_text(columns@[j as int], entries@[i as int]));
                assert forall|k: int| 0 <= k < j implies text::views(row@)[k] == row_for(
                    entries@[i as int],
                    columns@.take(j + 1),
                )[k] by {
                    assert(row@[k] == before[k]);
                    assert(text::views(before)[k] == row_for(entries@[i as int], columns@.take(j as int))[k]);
                }
            }
            j = j + 1;
            assert(text::views(row@) =~= row_for(entries@[i as int], columns@.take(j as int)));
        }
        assert(columns@.take(columns.len() as int) =~= columns@);
        let ghost before_rows = rows@;
        rows.push(row);
        proof {
            assert(rows@ == before_rows.push(row));
            assert forall|k: int| 0 <= k < rows@.len() implies row_views(rows@)[k] == (if k < i {
                row_views(before_rows)[k]
            } else {
                text::views(row@)
            }) by {}
        }
        i = i + 1;
        assert(row_views(rows@) =~= rows_for(entries@.take(i as int), columns@));
    }
    assert(entries@.take(entries.len() as int) =~= entries@);
    proof {
        lemma_rows_follow_entries(entries@, columns@);
    }
    rows
}

/// Width of the cell at `index` of a row, 0 where the row is shorter.
pub open spec fn cell_width_at(row: Seq<Seq<char>>, index: int) -> nat {
    if 0 <= index < row.len() {
        row[index].len()
    } else {
        0
    }
}

/// The widest cell at `index` over all rows, 0 when there are none.
pub open spec fn max_cell_width(rows: Seq<Seq<Seq<char>>>, index: int) -> nat
    decreases rows.len(),
{
    if rows.len() == 0 {
        0
    } else {
        let before = max_cell_width(rows.drop_last(), index);
        let here = cell_width_at(rows.last(), index);
        if here > before {
            here
        } else {
            before
        }
    }
}

/// Width of column `index`: its widest cell, and at least its heading when
/// the header is shown.
pub open spec fn column_width(
    column: Column,
    rows: Seq<Seq<Seq<char>>>,
    index: int,
    show_header: bool,
) -> nat {
    let header = if show_header { heading_text(column).len() } else { 0 };
    let cells = max_cell_width(rows, index);
    if header > cells {
        header
    } else {
        cells
    }
}

/// The measured width of every column.
pub open spec fn measured_widths(
    columns: Seq<Column>,
    rows: Seq<Seq<Seq<char>>>,
    show_header: bool,
) -> Seq<usize> {
    Seq::new(columns.len(), |j: int| column_width(columns[j], rows, j, show_header) as usize)
}

/// A column is at least as wide as each of its cells.
pub proof fn lemma_max_cell_width_bounds(rows: Seq<Seq<Seq<char>>>, index: int, r: int)
    requires
        0 <= r < rows.len(),
    ensures
        cell_width_at(rows[r], index) <= max_cell_width(rows, index),
    decreases rows.len(),
{
    if r < rows.len() - 1 {
        lemma_max_cell_width_bounds(rows.drop_last(), index, r);
    }
}

/// Measures each column as `column_width` describes.
pub fn measure_column_widths(columns: &[Column], rows: &[Vec<String>], show_header: bool) -> (widths:
    Vec<usize>)
    ensures
        widths@ == measured_widths(columns@, row_views(rows@), show_header),
        widths@.len() == columns@.len(),
        forall|j: int|
            0 <= j < columns@.len() ==> widths@[j] as nat == column_width(
                columns@[j],
                row_views(rows@),
                j,
                show_header,
            ) && widths@[j] <= isize::MAX,
{
    let ghost all = row_views(rows@);
    let mut widths: Vec<usize> = Vec::new();
    let mut j: usize = 0;
    while j < columns.len()
        invariant
            j <= columns.len(),
            all == row_views(rows@),
            widths@.len() == j,
            forall|k: int|
                0 <= k < j ==> widths@[k] as nat == column_width(columns@[k], all, k, show_header)
                    && widths@[k] <= isize::MAX,
        decreases columns.len() - j,
    {
        let header_width: usize = if show_header {
            display_width(columns[j].heading())
        } else {
            0
        };
        let mut row_width: usize = 0;
        let mut r: usize = 0;
        while r < rows.len()
            invariant
                j < columns.len(),
                r <= rows.len(),
                all == row_views(rows@),
                row_width as nat == max_cell_width(all.take(r as int), j as int),
                row_width <= isize::MAX,
            decreases rows.len() - r,
        {
            let row = &rows[r];
            let here: usize = if j < row.len() {
                display_width(row[j].as_str())
            } else {
                0
            };
            proof {
                assert(all.take(r + 1).drop_last() =~= all.take(r as int));
                assert(all.take(r + 1).last() == all[r as int]);
                assert(all[r as int] == text::views(rows@[r as int]@));
                assert(here as nat == cell_width_at(all[r as int], j as int));
            }
            if here > row_width {
                row_width = here;
            }
            r = r + 1;
        }
        assert(all.take(rows.len() as int) =~= all);
        let width = if header_width > row_width {
            header_width
        } else {
            row_width
        };
        widths.push(width);
        j = j + 1;
    }
    assert(widths@ =~= measured_widths(columns@, row_views(rows@), show_header));
    widths
}

/// A bordered cell without clipping: one space, the value padded to
/// `width`, one space.
pub open spec fn plain_cell(value: Seq<char>, width: nat, alignment: Alignment) -> Seq<char> {
    seq![' '] + render::padded(value, width, alignment) + seq![' ']
}

/// Renders a cell as `plain_cell` describes; a value wider than `width`
/// is kept whole.
pub fn format_cell(value: &str, width: usize, alignment: Alignment) -> (out: String)
    ensures
        out@ == plain_cell(value@, width as nat, alignment),
{
    let inner = pad_value(value, width, alignment);
    let mut out = String::new();
    push_char(&mut out, ' ');
    push_str(&mut out, inner.as_str());
    push_char(&mut out, ' ');
    assert(out@ =~= plain_cell(value@, width as nat, alignment));
    out
}

/// The smaller of two lengths.
pub open spec fn min_len(a: nat, b: nat) -> nat {
    if a < b {
        a
    } else {
        b
    }
}

/// The header cells of a bordered table, one per column that has a width.
pub open spec fn header_cells(columns: Seq<Column>, widths: Seq<usize>) -> Seq<Seq<char>> {
    Seq::new(
        min_len(columns.len(), widths.len()),
        |i: int| plain_cell(heading_text(columns[i]), widths[i] as nat, Alignment::Left),
    )
}

/// The header row of a bordered table.
pub open spec fn header_row(columns: Seq<Column>, widths: Seq<usize>, vertical: char) -> Seq<char> {
    render::bordered_cells(header_cells(columns, widths), vertical)
}

/// Renders the header row as `header_row` describes.
pub fn render_header_row(columns: &[Column], widths: &[usize], vertical: char) -> (out: String)
    ensures
        out@ == header_row(columns@, widths@, vertical),
{
    let n = if columns.len() < widths.len() {
        columns.len()
    } else {
        widths.len()
    };
    let ghost target = header_cells(columns@, widths@);
    let mut cells: Vec<String> = Vec::new();
    let mut i: usize = 0;
    while i < n
        invariant
            i <= n,
            n == min_len(columns@.len(), widths@.len()),
            target == header_cells(columns@, widths@),
            cells@.len() == i,
            forall|k: int| 0 <= k < i ==> #[trigger] cells@[k]@ == target[k],
        decreases n - i,
    {
        let cell = format_cell(columns[i].heading(), widths[i], Alignment::Left);
        cells.push(cell);
        i = i + 1;
    }
    assert(text::views(cells@) =~= target);
    render_bordered_cells(&cells, vertical)
}

/// The cells of one data row of a bordered table, as far as the row, the
/// columns and the widths all reach.
pub open spec fn data_cells(row: Seq<Seq<char>>, columns: Seq<Column>, widths: Seq<usize>) -> Seq<
    Seq<char>,
> {
    Seq::new(
        min_len(min_len(row.len(), columns.len()), widths.len()),
        |i: int| plain_cell(row[i], widths[i] as nat, column_alignment(columns[i])),
    )
}

/// One data row of a bordered table.
pub open spec fn data_row(
    row: Seq<Seq<char>>,
    columns: Seq<Column>,
    widths: Seq<usize>,
    vertical: char,
) -> Seq<char> {
    render::bordered_cells(data_cells(row, columns, widths), vertical)
}

/// Renders a data row as `data_row` describes.
pub fn render_data_row(row: &[String], columns: &[Column], widths: &[usize], vertical: char) -> (out:
    String)
    ensures
        out@ == data_row(text::views(row@), columns@, widths@, vertical),
{
    let n0 = if row.len() < columns.len() {
        row.len()
    } else {
        columns.len()
    };
    let n = if n0 < widths.len() {
        n0
    } else {
        widths.len()
    };
    let ghost target = data_cells(text::views(row@), columns@, widths@);
    let mut cells: Vec<String> = Vec::new();
    let mut i: usize = 0;
    while i < n
        invariant
            i <= n,
            n == min_len(min_len(row@.len(), columns@.len()), widths@.len()),
            target == data_cells(text::views(row@), columns@, widths@),
            cells@.len() == i,
            forall|k: int| 0 <= k < i ==> #[trigger] cells@[k]@ == target[k],
        decreases n - i,
    {
        let cell = format_cell(row[i].as_str(), widths[i], columns[i].alignment());
        cells.push(cell);
        i = i + 1;
    }
    assert(text::views(cells@) =~= target);
    render_bordered_cells(&cells, vertical)
}

/// The cells of the compact header.
pub open spec fn compact_header_cells(columns: Seq<Column>, widths: Seq<usize>) -> Seq<Seq<char>> {
    Seq::new(
        min_len(columns.len(), widths.len()),
        |i: int| render::padded(heading_text(columns[i]), widths[i] as nat, Alignment::Left),
    )
}

/// The compact header: padded headings separated by two spaces.
pub open spec fn compact_header(columns: Seq<Column>, widths: Seq<usize>) -> Seq<char> {
    text::join(compact_header_cells(columns, widths), text::spaces(2))
}

fn two_spaces() -> (s: String)
    ensures
        s@ == text::spaces(2),
{
    let mut s = String::new();
    push_repeat(&mut s, ' ', 2);
    s
}

/// Renders the compact header as `compact_header` describes.
pub fn render_compact_header(columns: &[Column], widths: &[usize]) -> (out: String)
    ensures
        out@ == compact_header(columns@, widths@),
{
    let n = if columns.len() < widths.len() {
        columns.len()
    } else {
        widths.len()
    };
    let ghost target = compact_header_cells(columns@, widths@);
    let mut cells: Vec<String> = Vec::new();
    let mut i: usize = 0;
    while i < n
        invariant
            i <= n,
            n == min_len(columns@.len(), widths@.len()),
            target == compact_header_cells(columns@, widths@),
            cells@.len() == i,
            forall|k: int| 0 <= k < i ==> #[trigger] cells@[k]@ == target[k],
        decreases n - i,
    {
        let cell = pad_value(columns[i].heading(), widths[i], Alignment::Left);
        cells.push(cell);
        i = i + 1;
    }
    assert(text::views(cells@) =~= target);
    let separator = two_spaces();
    let mut out = String::new();
    push_joined(&mut out, &cells, separator.as_str());
    out
}

/// The cells of one compact row.
pub open spec fn compact_cells(row: Seq<Seq<char>>, columns: Seq<Column>, widths: Seq<usize>) -> Seq<
    Seq<char>,
> {
    Seq::new(
        min_len(min_len(row.len(), columns.len()), widths.len()),
        |i: int| render::padded(row[i], widths[i] as nat, column_alignment(columns[i])),
    )
}

/// One compact row: padded cells separated by two spaces.
pub open spec fn compact_row(row: Seq<Seq<char>>, columns: Seq<Column>, widths: Seq<usize>) -> Seq<
    char,
> {
    text::join(compact_cells(row, columns, widths), text::spaces(2))
}

/// Renders a compact row as `compact_row` describes.
pub fn render_compact_row(row: &[String], columns: &[Column], widths: &[usize]) -> (out: String)
    ensures
        out@ == compact_row(text::views(row@), columns@, widths@),
{
    let n0 = if row.len() < columns.len() {
        row.len()
    } else {
        columns.len()
    };
    let n = if n0 < widths.len() {
        n0
    } else {
        widths.len()
    };
    let ghost target = compact_cells(text::views(row@), columns@, widths@);
    let mut cells: Vec<String> = Vec::new();
    let mut i: usize = 0;
    while i < n
        invariant
            i <= n,
            n == min_len(min_len(row@.len(), columns@.len()), widths@.len()),
            target == compact_cells(text::views(row@), columns@, widths@),
            cells@.len() == i,
            forall|k: int| 0 <= k < i ==> #[trigger] cells@[k]@ == target[k],
        decreases n - i,
    {
        let cell = pad_value(row[i].as_str(), widths[i], columns[i].alignment());
        cells.push(cell);
        i = i + 1;
    }
    assert(text::views(cells@) =~= target);
    let separator = two_spaces();
    let mut out = String::new();
    push_joined(&mut out, &cells, separator.as_str());
    out
}

/// Lines joined by newlines, with a final newline.
pub open spec fn lines_text(lines: Seq<Seq<char>>) -> Seq<char> {
    text::join(lines, seq!['\n']).push('\n')
}

/// The lines of a bordered table: the top border; with the header, the
/// header row and a middle border; one row per entry; the bottom border.
pub open spec fn bordered_lines(
    columns: Seq<Column>,
    rows: Seq<Seq<Seq<char>>>,
    widths: Seq<usize>,
    show_header: bool,
    style: BorderStyle,
) -> Seq<Seq<char>> {
    let top = render::border_line(widths, style.top_left, style.top_join, style.top_right, style.horizontal);
    let head = if show_header {
        seq![
            header_row(columns, widths, style.vertical),
            render::border_line(
                widths,
                style.middle_left,
                style.middle_join,
                style.middle_right,
                style.horizontal,
            ),
        ]
    } else {
        Seq::empty()
    };
    let body = Seq::new(rows.len(), |i: int| data_row(rows[i], columns, widths, style.vertical));
    let bottom = render::border_line(
        widths,
        style.bottom_left,
        style.bottom_join,
        style.bottom_right,
        style.horizontal,
    );
    seq![top] + head + body + seq![bottom]
}

fn newline() -> (s: String)
    ensures
        s@ == seq!['\n'],
{
    let mut s = String::new();
    push_char(&mut s, '\n');
    s
}

/// Appends the lines, each followed by a newline.
fn push_lines(writer: &mut String, lines: &Vec<String>)
    ensures
        final(writer)@ == old(writer)@ + lines_text(text::views(lines@)),
{
    let separator = newline();
    push_joined(writer, lines, separator.as_str());
    push_char(writer, '\n');
    assert(writer@ =~= old(writer)@ + lines_text(text::views(lines@)));
}

/// Writes a bordered table as `bordered_lines` describes.
pub fn write_bordered_table(
    writer: &mut String,
    columns: &[Column],
    rows: &[Vec<String>],
    widths: &[usize],
    show_header: bool,
    style: BorderStyle,
)
    requires
        forall|i: int| 0 <= i < widths.len() ==> widths[i] + 2 <= usize::MAX,
    ensures
        final(writer)@ == old(writer)@ + lines_text(
            bordered_lines(columns@, row_views(rows@), widths@, show_header, style),
        ),
{
    let ghost target = bordered_lines(columns@, row_views(rows@), widths@, show_header, style);
    let mut lines: Vec<String> = Vec::new();
    lines.push(
        render_border_line(
            widths,
            style.top_left,
            style.top_join,
            style.top_right,
            style.horizontal,
        ),
    );
    if show_header {
        lines.push(render_header_row(columns, widths, style.vertical));
        lines.push(
            render_border_line(
                widths,
                style.middle_left,
                style.middle_join,
                style.middle_right,
                style.horizontal,
            ),
        );
    }
    let start = lines.len();
    let mut r: usize = 0;
    while r < rows.len()
        invariant
            r <= rows.len(),
            start == (if show_header { 3usize } else { 1usize }),
            lines@.len() == start + r,
            target == bordered_lines(columns@, row_views(rows@), widths@, show_header, style),
            forall|k: int| 0 <= k < start + r ==> #[trigger] lines@[k]@ == target[k],
        decreases rows.len() - r,
    {
        let line = render_data_row(rows[r].as_slice(), columns, widths, style.vertical);
        proof {
            assert(row_views(rows@)[r as int] == text::views(rows@[r as int]@));
        }
        lines.push(line);
        r = r + 1;
    }
    lines.push(
        render_border_line(
            widths,
            style.bottom_left,
            style.bottom_join,
            style.bottom_right,
            style.horizontal,
        ),
    );
    assert(text::views(lines@) =~= target);
    push_lines(writer, &lines);
}

/// The lines of a compact table: the header when shown, then one row per
/// entry.
pub open spec fn compact_lines(
    columns: Seq<Column>,
    rows: Seq<Seq<Seq<char>>>,
    widths: Seq<usize>,
    show_header: bool,
) -> Seq<Seq<char>> {
    let head = if show_header {
        seq![compact_header(columns, widths)]
    } else {
        Seq::empty()
    };
    head + Seq::new(rows.len(), |i: int| compact_row(rows[i], columns, widths))
}

/// Writes a compact table as `compact_lines` describes; with no lines at
/// all it writes one newline.
pub fn write_compact_table(
    writer: &mut String,
    columns: &[Column],
    rows: &[Vec<String>],
    widths: &[usize],
    show_header: bool,
)
    ensures
        final(writer)@ == old(writer)@ + lines_text(
            compact_lines(columns@, row_views(rows@), widths@, show_header),
        ),
{
    let ghost target = compact_lines(columns@, row_views(rows@), widths@, show_header);
    let mut lines: Vec<String> = Vec::new();
    if show_header {
        lines.push(render_compact_header(columns, widths));
    }
    let start = lines.len();
    let mut r: usize = 0;
    while r < rows.len()
        invariant
            r <= rows.len(),
            start == (if show_header { 1usize } else { 0usize }),
            lines@.len() == start + r,
            target == compact_lines(columns@, row_views(rows@), widths@, show_header),
            forall|k: int| 0 <= k < start + r ==> #[trigger] lines@[k]@ == target[k],
        decreases rows.len() - r,
    {
        let line = render_compact_row(rows[r].as_slice(), columns, widths);
        proof {
            assert(row_views(rows@)[r as int] == text::views(rows@[r as int]@));
        }
        lines.push(line);
        r = r + 1;
    }
    assert(text::views(lines@) =~= target);
    push_lines(writer, &lines);
}

/// The border style: rounded UTF-8 box drawing, or ASCII.
pub open spec fn style_for(utf8_borders: bool) -> BorderStyle {
    if utf8_borders {
        render::utf8_style()
    } else {
        render::ascii_style()
    }
}

/// The lines of the table for `entries` under `opts`.
pub open spec fn table_lines(entries: Seq<PortEntry>, opts: DisplayOptions, utf8_borders: bool) -> Seq<
    Seq<char>,
> {
    let columns = columns_for(opts.full);
    let rows = rows_for(entries, columns);
    let widths = measured_widths(columns, rows, opts.show_header);
    if opts.compact {
        compact_lines(columns, rows, widths, opts.show_header)
    } else {
        bordered_lines(columns, rows, widths, opts.show_header, style_for(utf8_borders))
    }
}

/// The width every line of the table for `entries` under `opts` has.
pub open spec fn table_line_width(entries: Seq<PortEntry>, opts: DisplayOptions) -> nat {
    let columns = columns_for(opts.full);
    render::table_width(measured_widths(columns, rows_for(entries, columns), opts.show_header), opts.compact)
}

/// Rows whose cells all fit the widths, one cell per column.
pub open spec fn cells_fit(rows: Seq<Seq<Seq<char>>>, columns: Seq<Column>, widths: Seq<usize>) -> bool {
    forall|r: int, j: int|
        0 <= r < rows.len() && 0 <= j < columns.len() ==> rows[r].len() == columns.len()
            && #[trigger] rows[r][j].len() <= widths[j]
}

/// Headings that all fit the widths.
pub open spec fn headings_fit(columns: Seq<Column>, widths: Seq<usize>) -> bool {
    forall|j: int| 0 <= j < columns.len() ==> #[trigger] heading_text(columns[j]).len() <= widths[j]
}

/// Alignment of a bordered table: when every cell (and every heading, if
/// shown) fits its column's width, every line of the table, borders and
/// rows alike, has the width `table_width` predicts; there is one line per
/// row plus the borders and the header.
pub proof fn lemma_bordered_table_aligned(
    columns: Seq<Column>,
    rows: Seq<Seq<Seq<char>>>,
    widths: Seq<usize>,
    show_header: bool,
    style: BorderStyle,
)
    requires
        columns.len() == widths.len(),
        widths.len() > 0,
        cells_fit(rows, columns, widths),
        show_header ==> headings_fit(columns, widths),
    ensures
        bordered_lines(columns, rows, widths, show_header, style).len() == rows.len() + if show_header {
            4int
        } else {
            2int
        },
        forall|i: int|
            0 <= i < bordered_lines(columns, rows, widths, show_header, style).len() ==> (
            #[trigger] bordered_lines(columns, rows, widths, show_header, style)[i]).len()
                == render::table_width(widths, false),
{
    let lines = bordered_lines(columns, rows, widths, show_header, style);
    render::lemma_border_line_width(widths, style.top_left, style.top_join, style.top_right, style.horizontal);
    render::lemma_border_line_width(widths, style.middle_left, style.middle_join, style.middle_right, style.horizontal);
    render::lemma_border_line_width(widths, style.bottom_left, style.bottom_join, style.bottom_right, style.horizontal);
    if show_header {
        let cells = header_cells(columns, widths);
        assert forall|k: int| 0 <= k < cells.len() implies #[trigger] cells[k].len() == widths[k] + 2 by {
            render::lemma_padded_len(heading_text(columns[k]), widths[k] as nat, Alignment::Left);
        }
        render::lemma_bordered_cells_width(cells, widths, style.vertical);
    }
    assert forall|r: int| 0 <= r < rows.len() implies #[trigger] data_row(
        rows[r],
        columns,
        widths,
        style.vertical,
    ).len() == render::table_width(widths, false) by {
        let cells = data_cells(rows[r], columns, widths);
        assert(rows[r][0].len() <= widths[0]);
        assert forall|k: int| 0 <= k < cells.len() implies #[trigger] cells[k].len() == widths[k] + 2 by {
            assert(rows[r][k].len() <= widths[k]);
            render::lemma_padded_len(rows[r][k], widths[k] as nat, column_alignment(columns[k]));
        }
        render::lemma_bordered_cells_width(cells, widths, style.vertical);
    }
    let head_len: int = if show_header { 3 } else { 1 };
    assert forall|i: int| 0 <= i < lines.len() implies #[trigger] lines[i].len() == render::table_width(widths, false) by {
        if head_len <= i < lines.len() - 1 {
            assert(lines[i] == data_row(rows[i - head_len], columns, widths, style.vertical));
        }
    }
}

/// Alignment of a compact table: when every cell (and every heading, if
/// shown) fits its column's width, every line has the width `table_width`
/// predicts for the compact style, and there is one line per row plus the
/// header.
pub proof fn lemma_compact_table_aligned(
    columns: Seq<Column>,
    rows: Seq<Seq<Seq<char>>>,
    widths: Seq<usize>,
    show_header: bool,
)
    requires
        columns.len() == widths.len(),
        cells_fit(rows, columns, widths),
        show_header ==> headings_fit(columns, widths),
    ensures
        compact_lines(columns, rows, widths, show_header).len() == rows.len() + if show_header {
            1int
        } else {
            0int
        },
        forall|i: int|
            0 <= i < compact_lines(columns, rows, widths, show_header).len() ==> (
            #[trigger] compact_lines(columns, rows, widths, show_header)[i]).len() == render::table_width(
                widths,
                true,
            ),
{
    let lines = compact_lines(columns, rows, widths, show_header);
    if show_header {
        let cells = compact_header_cells(columns, widths);
        assert forall|k: int| 0 <= k < cells.len() implies #[trigger] cells[k].len() == widths[k] by {
            render::lemma_padded_len(heading_text(columns[k]), widths[k] as nat, Alignment::Left);
        }
        render::lemma_compact_cells_width(cells, widths);
    }
    assert forall|r: int| 0 <= r < rows.len() implies #[trigger] compact_row(rows[r], columns, widths).len()
        == render::table_width(widths, true) by {
        let cells = compact_cells(rows[r], columns, widths);
        if columns.len() > 0 {
            assert(rows[r][0].len() <= widths[0]);
        }
        assert forall|k: int| 0 <= k < cells.len() implies #[trigger] cells[k].len() == widths[k] by {
            assert(rows[r][k].len() <= widths[k]);
            render::lemma_padded_len(rows[r][k], widths[k] as nat, column_alignment(columns[k]));
        }
        render::lemma_compact_cells_width(cells, widths);
    }
    let head_len: int = if show_header { 1 } else { 0 };
    assert forall|i: int| 0 <= i < lines.len() implies #[trigger] lines[i].len() == render::table_width(widths, true) by {
        if head_len <= i {
            assert(lines[i] == compact_row(rows[i - head_len], columns, widths));
        }
    }
}

/// Writes the entries as a table: the columns chosen by `opts.full`, each
/// as wide as its widest cell (and heading, when shown), compact or
/// bordered with the UTF-8 or ASCII style.
pub fn write_table(
    writer: &mut String,
    entries: &[PortEntry],
    opts: &DisplayOptions,
    utf8_borders: bool,
)
    ensures
        final(writer)@ == old(writer)@ + lines_text(table_lines(entries@, *opts, utf8_borders)),
        forall|i: int|
            0 <= i < table_lines(entries@, *opts, utf8_borders).len() ==> (#[trigger] table_lines(
                entries@,
                *opts,
                utf8_borders,
            )[i]).len() == table_line_width(entries@, *opts),
{
    let columns = table_columns(opts.full);
    let rows = build_rows(entries, columns.as_slice());
    let widths = measure_column_widths(columns.as_slice(), rows.as_slice(), opts.show_header);
    proof {
        let rs = row_views(rows@);
        assert forall|r: int, j: int|
            0 <= r < rs.len() && 0 <= j < columns@.len() implies rs[r].len() == columns@.len()
            && #[trigger] rs[r][j].len() <= widths@[j] by {
            lemma_max_cell_width_bounds(rs, j, r);
        }
        assert(cells_fit(rs, columns@, widths@));
        if opts.compact {
            lemma_compact_table_aligned(columns@, rs, widths@, opts.show_header);
        } else {
            lemma_bordered_table_aligned(
                columns@,
                rs,
                widths@,
                opts.show_header,
                style_for(utf8_borders),
            );
        }
    }
    if opts.compact {
        write_compact_table(
            writer,
            columns.as_slice(),
            rows.as_slice(),
            widths.as_slice(),
            opts.show_header,
        );
    } else {
        let style = if utf8_borders {
            utf8_border_style()
        } else {
            ascii_border_style()
        };
        write_bordered_table(
            writer,
            columns.as_slice(),
            rows.as_slice(),
            widths.as_slice(),
            opts.show_header,
            style,
        );
    }
}

/// One tip: the label padded to seven characters, a space, the value.
pub open spec fn tip_item(label: Seq<char>, value: Seq<char>) -> Seq<char> {
    render::padded(label, 7, Alignment::Left) + seq![' '] + value
}

/// The label and value texts of tip items.
pub open spec fn tip_pairs(items: Seq<(&str, &str)>) -> Seq<(Seq<char>, Seq<char>)> {
    items.map_values(|p: (&str, &str)| (p.0@, p.1@))
}

/// A row of tips separated by three spaces.
pub open spec fn tip_row(items: Seq<(Seq<char>, Seq<char>)>) -> Seq<char> {
    text::join(Seq::new(items.len(), |i: int| tip_item(items[i].0, items[i].1)), text::spaces(3))
}

/// Renders a row of tips as `tip_row` describes.
pub fn render_tip_row(items: &[(&str, &str)]) -> (out: String)
    ensures
        out@ == tip_row(tip_pairs(items@)),
{
    let ghost pairs = tip_pairs(items@);
    let ghost target = Seq::new(pairs.len(), |i: int| tip_item(pairs[i].0, pairs[i].1));
    let mut parts: Vec<String> = Vec::new();
    let mut i: usize = 0;
    while i < items.len()
        invariant
            i <= items.len(),
            pairs == tip_pairs(items@),
            target == Seq::new(pairs.len(), |i: int| tip_item(pairs[i].0, pairs[i].1)),
            parts@.len() == i,
            forall|k: int| 0 <= k < i ==> #[trigger] parts@[k]@ == target[k],
        decreases items.len() - i,
    {
        let (label, value) = items[i];
        let mut part = pad_value(label, 7, Alignment::Left);
        push_char(&mut part, ' ');
        push_str(&mut part, value);
        proof {
            assert(pairs[i as int] == (label@, value@));
            assert(part@ =~= target[i as int]);
        }
        parts.push(part);
        i = i + 1;
    }
    assert(text::views(parts@) =~= target);
    let mut separator = String::new();
    push_repeat(&mut separator, ' ', 3);
    let mut out = String::new();
    push_joined(&mut out, &parts, separator.as_str());
    out
}

/// The widest of the lines, 0 when there are none.
pub open spec fn max_line_width(lines: Seq<Seq<char>>) -> nat
    decreases lines.len(),
{
    if lines.len() == 0 {
        0
    } else {
        let before = max_line_width(lines.drop_last());
        if lines.last().len() > before {
            lines.last().len()
        } else {
            before
        }
    }
}

/// Inner width of the tips box: the widest line, and at least the title.
pub open spec fn tip_content_width(title: Seq<char>, lines: Seq<Seq<char>>) -> nat {
    let widest = max_line_width(lines);
    if widest > title.len() {
        widest
    } else {
        title.len()
    }
}

/// The lines of the tips box: the top border with the title set in it
/// between two spaces, one framed and padded line per tip line, and the
/// bottom border; all of them `tip_content_width + 4` characters wide.
pub open spec fn tip_box_lines(title: Seq<char>, lines: Seq<Seq<char>>, style: BorderStyle) -> Seq<
    Seq<char>,
> {
    let width = tip_content_width(title, lines);
    let framed_title = seq![' '] + title + seq![' '];
    let top = seq![style.top_left] + framed_title + text::repeat_char(
        style.horizontal,
        (width - title.len()) as nat,
    ) + seq![style.top_right];
    let body = Seq::new(
        lines.len(),
        |i: int|
            seq![style.vertical, ' '] + lines[i] + text::spaces((width - lines[i].len()) as nat) + seq![
                ' ',
                style.vertical,
            ],
    );
    let bottom = seq![style.bottom_left] + text::repeat_char(style.horizontal, width + 2) + seq![
        style.bottom_right,
    ];
    seq![top] + body + seq![bottom]
}

/// Every line is at most as wide as the widest.
pub proof fn lemma_max_line_width_bounds(lines: Seq<Seq<char>>, i: int)
    requires
        0 <= i < lines.len(),
    ensures
        lines[i].len() <= max_line_width(lines),
    decreases lines.len(),
{
    if i < lines.len() - 1 {
        lemma_max_line_width_bounds(lines.drop_last(), i);
    }
}

/// Renders the tips box: its lines as `tip_box_lines` describes, joined by
/// newlines.
pub fn render_tip_box(title: &str, lines: &Vec<String>, style: BorderStyle) -> (out: String)
    ensures
        out@ == text::join(tip_box_lines(title@, text::views(lines@), style), seq!['\n']),
{
    let ghost ls = text::views(lines@);
    let title_width = display_width(title);
    let mut widest: usize = 0;
    let mut i: usize = 0;
    while i < lines.len()
        invariant
            i <= lines.len(),
            ls == text::views(lines@),
            widest as nat == max_line_width(ls.take(i as int)),
            widest <= isize::MAX,
        decreases lines.len() - i,
    {
        let w = display_width(lines[i].as_str());
        proof {
            assert(ls.take(i + 1).drop_last() =~= ls.take(i as int));
            assert(ls.take(i + 1).last() == lines@[i as int]@);
        }
        if w > widest {
            widest = w;
        }
        i = i + 1;
    }
    assert(ls.take(lines.len() as int) =~= ls);
    let content_width = if widest > title_width {
        widest
    } else {
        title_width
    };
    let ghost target = tip_box_lines(title@, ls, style);
    let mut rendered: Vec<String> = Vec::new();
    let mut top = String::new();
    push_char(&mut top, style.top_left);
    push_char(&mut top, ' ');
    push_str(&mut top, title);
    push_char(&mut top, ' ');
    push_repeat(&mut top, style.horizontal, content_width - title_width);
    push_char(&mut top, style.top_right);
    assert(top@ =~= target[0]);
    rendered.push(top);
    let mut k: usize = 0;
    while k < lines.len()
        invariant
            k <= lines.len(),
            ls == text::views(lines@),
            target == tip_box_lines(title@, ls, style),
            content_width as nat == tip_content_width(title@, ls),
            rendered@.len() == k + 1,
            forall|m: int| 0 <= m < k + 1 ==> #[trigger] rendered@[m]@ == target[m],
        decreases lines.len() - k,
    {
        let line = lines[k].as_str();
        let w = display_width(line);
        proof {
            lemma_max_line_width_bounds(ls, k as int);
        }
        let mut framed = String::new();
        push_char(&mut framed, style.vertical);
        push_char(&mut framed, ' ');
        push_str(&mut framed, line);
        push_repeat(&mut framed, ' ', content_width - w);
        push_char(&mut framed, ' ');
        push_char(&mut framed, style.vertical);
        assert(framed@ =~= target[k + 1]);
        rendered.push(framed);
        k = k + 1;
    }
    let mut bottom = String::new();
    push_char(&mut bottom, style.bottom_left);
    push_repeat(&mut bottom, style.horizontal, content_width + 2);
    push_char(&mut bottom, style.bottom_right);
    assert(bottom@ =~= target[lines.len() + 1]);
    rendered.push(bottom);
    assert(text::views(rendered@) =~= target);
    let separator = newline();
    let mut out = String::new();
    push_joined(&mut out, &rendered, separator.as_str());
    out
}

/// The tip rows of the footer: filtering, showing all ports and details
/// on the first; JSON output and help on the second.
pub open spec fn tip_lines() -> Seq<Seq<char>> {
    seq![
        tip_row(seq![("filter"@, "-p PORT"@), ("all"@, "-a"@), ("details"@, "--full"@)]),
        tip_row(seq![("json"@, "--json"@), ("help"@, "-h"@)]),
    ]
}

/// The tips footer text: a newline, the box titled `portview v` and the
/// version around the tip lines, and a newline.
pub open spec fn tips_text(version: Seq<char>, utf8_borders: bool) -> Seq<char> {
    seq!['\n'] + text::join(
        tip_box_lines("portview v"@ + version, tip_lines(), style_for(utf8_borders)),
        seq!['\n'],
    ) + seq!['\n']
}

/// Writes the tips footer as `tips_text` describes.
pub fn write_tips(writer: &mut String, version: &str, utf8_borders: bool)
    ensures
        final(writer)@ == old(writer)@ + tips_text(version@, utf8_borders),
{
    let mut title = String::new();
    push_str(&mut title, "portview v");
    push_str(&mut title, version);
    let first_items = [("filter", "-p PORT"), ("all", "-a"), ("details", "--full")];
    let second_items = [("json", "--json"), ("help", "-h")];
    let first = render_tip_row(&first_items);
    let second = render_tip_row(&second_items);
    proof {
        assert(tip_pairs(first_items@) =~= seq![
            ("filter"@, "-p PORT"@),
            ("all"@, "-a"@),
            ("details"@, "--full"@),
        ]);
        assert(tip_pairs(second_items@) =~= seq![("json"@, "--json"@), ("help"@, "-h"@)]);
    }
    let mut lines: Vec<String> = Vec::new();
    lines.push(first);
    lines.push(second);
    assert(text::views(lines@) =~= tip_lines());
    let style = if utf8_borders {
        utf8_border_style()
    } else {
        ascii_border_style()
    };
    let tip_box = render_tip_box(title.as_str(), &lines, style);
    push_char(writer, '\n');
    push_str(writer, tip_box.as_str());
    push_char(writer, '\n');
    assert(writer@ =~= old(writer)@ + tips_text(version@, utf8_borders));
}

/// A shortened process name never exceeds `MAX_PROCESS_NAME_LEN`
/// characters; a name that fits is kept, and a longer one keeps its first
/// `MAX_PROCESS_NAME_LEN - 1` characters and ends with an ellipsis, for
/// exactly `MAX_PROCESS_NAME_LEN` characters.
pub proof fn lemma_short_process_name(name: Seq<char>)
    ensures
        short_process_name(name).len() <= MAX_PROCESS_NAME_LEN,
        name.len() <= MAX_PROCESS_NAME_LEN ==> short_process_name(name) == name,
        name.len() > MAX_PROCESS_NAME_LEN ==> {
            &&& short_process_name(name).len() == MAX_PROCESS_NAME_LEN
            &&& short_process_name(name).last() == render::ellipsis()
            &&& short_process_name(name).take(MAX_PROCESS_NAME_LEN - 1) == name.take(
                MAX_PROCESS_NAME_LEN - 1,
            )
        },
{
    if name.len() > MAX_PROCESS_NAME_LEN {
        assert(short_process_name(name).take(MAX_PROCESS_NAME_LEN - 1) =~= name.take(
            MAX_PROCESS_NAME_LEN - 1,
        ));
    }
}

/// The full column set is the default one with STATE added after ADDRESS
/// and USER added after PID; leaving those two out gives back the default
/// columns.
pub proof fn lemma_full_columns_extend_default()
    ensures
        columns_for(true) == columns_for(false).insert(3, Column::State).insert(6, Column::User),
        columns_for(true).filter(|c: Column| c != Column::State && c != Column::User)
            == columns_for(false),
{
    assert(columns_for(true) =~= columns_for(false).insert(3, Column::State).insert(6, Column::User));
    reveal_with_fuel(Seq::filter, 11);
    assert(columns_for(true).filter(|c: Column| c != Column::State && c != Column::User)
        =~= columns_for(false));
}

/// Alignment of the tips box: every line, the titled top border, each tip
/// line and the bottom border, is `tip_content_width + 4` characters wide,
/// and there is one line per tip line plus the two borders.
pub proof fn lemma_tip_box_aligned(title: Seq<char>, lines: Seq<Seq<char>>, style: BorderStyle)
    ensures
        tip_box_lines(title, lines, style).len() == lines.len() + 2,
        forall|i: int|
            0 <= i < tip_box_lines(title, lines, style).len() ==> (#[trigger] tip_box_lines(
                title,
                lines,
                style,
            )[i]).len() == tip_content_width(title, lines) + 4,
{
    let all = tip_box_lines(title, lines, style);
    assert forall|i: int| 0 <= i < all.len() implies (#[trigger] all[i]).len() == tip_content_width(
        title,
        lines,
    ) + 4 by {
        if 1 <= i <= lines.len() {
            lemma_max_line_width_bounds(lines, i - 1);
        }
    }
}

/// The rows follow the entries: there is one row per entry, in the
/// entries' order, and cell `j` of row `i` is what entry `i` shows in
/// column `j`.
pub proof fn lemma_rows_follow_entries(entries: Seq<PortEntry>, columns: Seq<Column>)
    ensures
        rows_for(entries, columns).len() == entries.len(),
        forall|i: int, j: int|
            0 <= i < entries.len() && 0 <= j < columns.len() ==> rows_for(entries, columns)[i].len()
                == columns.len() && #[trigger] rows_for(entries, columns)[i][j] == cell_text(
                columns[j],
                entries[i],
            ),
{
}

/// The data lines of the table follow the entries: after the header lines
/// (and the top border, when bordered), line `i` is the row of `entries[i]`,
/// made of the cells that entry shows in the chosen columns.
pub proof fn lemma_table_lines_follow_entries(
    entries: Seq<PortEntry>,
    opts: DisplayOptions,
    utf8_borders: bool,
    i: int,
)
    requires
        0 <= i < entries.len(),
    ensures
        ({
            let columns = columns_for(opts.full);
            let cells = Seq::new(columns.len(), |j: int| cell_text(columns[j], entries[i]));
            let widths = measured_widths(columns, rows_for(entries, columns), opts.show_header);
            let lines = table_lines(entries, opts, utf8_borders);
            if opts.compact {
                let first = if opts.show_header { 1int } else { 0int };
                lines[first + i] == compact_row(cells, columns, widths)
            } else {
                let first = if opts.show_header { 3int } else { 1int };
                lines[first + i] == data_row(
                    cells,
                    columns,
                    widths,
                    style_for(utf8_borders).vertical,
                )
            }
        }),
{
    let columns = columns_for(opts.full);
    let cells = Seq::new(columns.len(), |j: int| cell_text(columns[j], entries[i]));
    assert(rows_for(entries, columns)[i] =~= cells);
}

/// The text the PROCESS column shows never exceeds `MAX_PROCESS_NAME_LEN`
/// characters: a name that fits is shown whole, a longer one as its first
/// `MAX_PROCESS_NAME_LEN - 1` characters followed by an ellipsis.
pub proof fn lemma_process_cell_is_short(e: PortEntry)
    ensures
        cell_text(Column::Process, e).len() <= MAX_PROCESS_NAME_LEN,
        e.process@.len() <= MAX_PROCESS_NAME_LEN ==> cell_text(Column::Process, e) == e.process@,
        e.process@.len() > MAX_PROCESS_NAME_LEN ==> cell_text(Column::Process, e) == e.process@.take(
            MAX_PROCESS_NAME_LEN - 1,
        ).push('\u{2026}'),
{
}

/// The footer's tip rows, as literal text: the filter, all and details
/// shortcuts on the first row, the JSON and help shortcuts on the second.
pub proof fn lemma_tip_lines_text()
    ensures
        tip_lines().len() == 2,
        tip_lines()[0] == "filter  -p PORT   all     -a   details --full"@,
        tip_lines()[1] == "json    --json   help    -h"@,
{
    reveal_strlit("filter");
    reveal_strlit("-p PORT");
    reveal_strlit("all");
    reveal_strlit("-a");
    reveal_strlit("details");
    reveal_strlit("--full");
    reveal_strlit("json");
    reveal_strlit("--json");
    reveal_strlit("help");
    reveal_strlit("-h");
    reveal_strlit("filter  -p PORT   all     -a   details --full");
    reveal_strlit("json    --json   help    -h");
    reveal_strlit("filter  -p PORT");
    reveal_strlit("all     -a");
    reveal_strlit("details --full");
    reveal_strlit("json    --json");
    reveal_strlit("help    -h");
    let first = seq![("filter"@, "-p PORT"@), ("all"@, "-a"@), ("details"@, "--full"@)];
    let second = seq![("json"@, "--json"@), ("help"@, "-h"@)];
    let p1 = Seq::new(first.len(), |i: int| tip_item(first[i].0, first[i].1));
    let p2 = Seq::new(second.len(), |i: int| tip_item(second[i].0, second[i].1));
    assert(p1[0] =~= "filter  -p PORT"@);
    assert(p1[1] =~= "all     -a"@) by {
        reveal_strlit("all     -a");
    }
    assert(p1[2] =~= "details --full"@) by {
        reveal_strlit("details --full");
    }
    assert(p2[0] =~= "json    --json"@) by {
        reveal_strlit("json    --json");
    }
    assert(p2[1] =~= "help    -h"@) by {
        reveal_strlit("help    -h");
    }
    assert(p1.drop_last().drop_last() =~= seq![p1[0]]);
    assert(p1.drop_last().len() == 2);
    assert(p2.drop_last() =~= seq![p2[0]]);
    let sep = text::spaces(3);
    assert(sep =~= seq![' ', ' ', ' ']);
    assert(text::join(p1.drop_last().drop_last(), sep) == p1[0]);
    assert(text::join(p1.drop_last(), sep) == p1[0] + sep + p1[1]);
    assert(text::join(p1, sep) == p1[0] + sep + p1[1] + sep + p1[2]);
    assert(text::join(p1, sep) =~= "filter  -p PORT   all     -a   details --full"@);
    assert(text::join(p2.drop_last(), sep) == p2[0]);
    assert(text::join(p2, sep) == p2[0] + sep + p2[1]);
    assert(text::join(p2, sep) =~= "json    --json   help    -h"@);
}

/// The PORT and PID cells are decimal numerals that read back as the
/// entry's port and PID.
pub proof fn lemma_number_cells_read_back(e: PortEntry)
    ensures
        terminal::parsed_usize(cell_text(Column::Port, e)) == Some(e.port as usize),
        terminal::parsed_usize(cell_text(Column::Pid, e)) == Some(e.pid as usize),
{
    terminal::lemma_parse_decimal_round_trip(e.port as usize);
    terminal::lemma_parse_decimal_round_trip(e.pid as usize);
}

/// A measured column is no wider than it must be: its width is that of
/// one of its cells, or 0 when it has no cells.
pub proof fn lemma_max_cell_width_attained(rows: Seq<Seq<Seq<char>>>, index: int)
    ensures
        max_cell_width(rows, index) == 0 || exists|r: int|
            0 <= r < rows.len() && #[trigger] cell_width_at(rows[r], index) == max_cell_width(
                rows,
                index,
            ),
    decreases rows.len(),
{
    if rows.len() > 0 {
        let before = rows.drop_last();
        lemma_max_cell_width_attained(before, index);
        if max_cell_width(rows, index) != 0 {
            if cell_width_at(rows.last(), index) > max_cell_width(before, index) {
                assert(cell_width_at(rows[rows.len() - 1], index) == max_cell_width(rows, index));
            } else {
                let r = choose|r: int|
                    0 <= r < before.len() && #[trigger] cell_width_at(before[r], index)
                        == max_cell_width(before, index);
                assert(rows[r] == before[r]);
                assert(cell_width_at(rows[r], index) == max_cell_width(rows, index));
            }
        }
    }
}

/// Each measured width is exactly the widest of the column's cells and,
/// when the header is shown, its heading: at least each of them, and equal
/// to one of them (or 0 for an empty column without header).
pub proof fn lemma_column_width_is_widest(
    column: Column,
    rows: Seq<Seq<Seq<char>>>,
    index: int,
    show_header: bool,
)
    ensures
        forall|r: int|
            0 <= r < rows.len() ==> #[trigger] cell_width_at(rows[r], index) <= column_width(
                column,
                rows,
                index,
                show_header,
            ),
        show_header ==> heading_text(column).len() <= column_width(column, rows, index, show_header),
        column_width(column, rows, index, show_header) == 0 || (show_header && column_width(
            column,
            rows,
            index,
            show_header,
        ) == heading_text(column).len()) || exists|r: int|
            0 <= r < rows.len() && #[trigger] cell_width_at(rows[r], index) == column_width(
                column,
                rows,
                index,
                show_header,
            ),
{
    assert forall|r: int| 0 <= r < rows.len() implies #[trigger] cell_width_at(rows[r], index)
        <= column_width(column, rows, index, show_header) by {
        lemma_max_cell_width_bounds(rows, index, r);
    }
    lemma_max_cell_width_attained(rows, index);
}

/// The inner width of the tips box is the widest of its lines and its
/// title: at least each of them and equal to one of them.
pub proof fn lemma_tip_content_width_is_widest(title: Seq<char>, lines: Seq<Seq<char>>)
    ensures
        title.len() <= tip_content_width(title, lines),
        forall|i: int| 0 <= i < lines.len() ==> (#[trigger] lines[i]).len() <= tip_content_width(title, lines),
        tip_content_width(title, lines) == title.len() || exists|i: int|
            0 <= i < lines.len() && (#[trigger] lines[i]).len() == tip_content_width(title, lines),
    decreases lines.len(),
{
    assert forall|i: int| 0 <= i < lines.len() implies (#[trigger] lines[i]).len() <= tip_content_width(
        title,
        lines,
    ) by {
        lemma_max_line_width_bounds(lines, i);
    }
    if lines.len() > 0 && tip_content_width(title, lines) != title.len() {
        let before = lines.drop_last();
        lemma_tip_content_width_is_widest(title, before);
        if lines.last().len() <= max_line_width(before) {
            assert(max_line_width(lines) == max_line_width(before));
            let i = choose|i: int| 0 <= i < before.len() && (#[trigger] before[i]).len() == tip_content_width(title, before);
            assert(lines[i] == before[i]);
        } else {
            assert(lines[lines.len() - 1].len() == tip_content_width(title, lines));
        }
    }
}

} // verus!
