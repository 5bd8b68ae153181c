//! Rendering primitives shared by the table and the tips box: display
//! width, clipping and padding of cells, border lines and border styles.

use vstd::prelude::*;
use crate::text::{self, push_char, push_joined, push_repeat, push_str};

verus! {

/// Side on which a cell's value sits; the padding goes to the other side.
#[derive(Clone, Copy, Debug, PartialEq, Eq, Structural)]
pub enum Alignment {
    Left,
    Right,
}

/// The characters that draw a table's frame.
#[derive(Clone, Copy, Debug, PartialEq, Eq, Structural)]
pub struct BorderStyle {
    pub vertical: char,
    pub horizontal: char,
    pub top_left: char,
    pub top_join: char,
    pub top_right: char,
    pub middle_left: char,
    pub middle_join: char,
    pub middle_right: char,
    pub bottom_left: char,
    pub bottom_join: char,
    pub bottom_right: char,
}

/// Every `char` takes at least one byte in UTF-8.
pub proof fn lemma_utf8_len_at_least_char_count(chars: Seq<char>)
    ensures
        vstd::utf8::encode_utf8(chars).len() >= chars.len(),
    decreases chars.len(),
{
    if chars.len() > 0 {
        lemma_utf8_len_at_least_char_count(chars.drop_first());
    }
}

/// `str::len`: the number of bytes of the UTF-8 encoding of `s`. A string
/// slice lies in one allocation, and Rust documents that no allocation
/// exceeds `isize::MAX` bytes, so neither does the result.
#[verifier::external_body]
fn utf8_byte_len(s: &str) -> (n: usize)
    ensures
        n as nat == vstd::utf8::encode_utf8(s@).len(),
        n <= isize::MAX,
{
    s.len()
}

/// The display width of `value`: its number of characters. The width
/// never exceeds `isize::MAX`.
pub fn display_width(value: &str) -> (w: usize)
    ensures
        w as nat == value@.len(),
        w <= isize::MAX,
{
    let _bytes = utf8_byte_len(value);
    proof {
        lemma_utf8_len_at_least_char_count(value@);
    }
    value.unicode_len()
}

/// The horizontal ellipsis that marks a clipped value.
pub open spec fn ellipsis() -> char {
    '\u{2026}'
}

/// `value` clipped to at most `width` characters: unchanged when it fits,
/// empty for width 0, otherwise its first `width - 1` characters and an
/// ellipsis.
pub open spec fn clipped(value: Seq<char>, width: nat) -> Seq<char> {
    if value.len() <= width {
        value
    } else if width == 0 {
        Seq::empty()
    } else {
        value.take(width - 1).push(ellipsis())
    }
}

/// Clips `value` to `width` characters as `clipped` describes.
pub fn truncate_to_width(value: &str, width: usize) -> (out: String)
    ensures
        out@ == clipped(value@, width as nat),
{
    if display_width(value) <= width {
        return value.to_owned();
    }
    if width == 0 {
        return String::new();
    }
    let mut out = value.substring_char(0, width - 1).to_owned();
    push_char(&mut out, '\u{2026}');
    out
}

/// `value` padded with spaces up to `width` characters, on the right for
/// left alignment and on the left for right alignment; a value at least
/// `width` long is unchanged.
pub open spec fn padded(value: Seq<char>, width: nat, alignment: Alignment) -> Seq<char> {
    let padding = if width > value.len() { (width - value.len()) as nat } else { 0nat };
    match alignment {
        Alignment::Left => value + text::spaces(padding),
        Alignment::Right => text::spaces(padding) + value,
    }
}

/// Pads `value` to `width` as `padded` describes.
pub fn pad_value(value: &str, width: usize, alignment: Alignment) -> (out: String)
    ensures
        out@ == padded(value@, width as nat, alignment),
{
    let w = display_width(value);
    let padding: usize = if width > w { width - w } else { 0 };
    let mut out = String::new();
    match alignment {
        Alignment::Left => {
            push_str(&mut out, value);
            push_repeat(&mut out, ' ', padding);
        },
        Alignment::Right => {
            push_repeat(&mut out, ' ', padding);
            push_str(&mut out, value);
        },
    }
    assert(out@ =~= padded(value@, width as nat, alignment));
    out
}

/// A bordered cell: one space, the value clipped and padded to `width`,
/// one space.
pub open spec fn bordered_cell(value: Seq<char>, width: nat, alignment: Alignment) -> Seq<char> {
    seq![' '] + padded(clipped(value, width), width, alignment) + seq![' ']
}

/// Renders a bordered cell as `bordered_cell` describes.
pub fn format_cell(value: &str, width: usize, alignment: Alignment) -> (out: String)
    ensures
        out@ == bordered_cell(value@, width as nat, alignment),
{
    let clipped_value = truncate_to_width(value, width);
    let inner = pad_value(clipped_value.as_str(), width, alignment);
    let mut out = String::new();
    push_char(&mut out, ' ');
    push_str(&mut out, inner.as_str());
    push_char(&mut out, ' ');
    assert(out@ =~= bordered_cell(value@, width as nat, alignment));
    out
}

/// One horizontal segment per column, `width + 2` fill characters long.
pub open spec fn border_segments(widths: Seq<usize>, horizontal: char) -> Seq<Seq<char>> {
    Seq::new(widths.len(), |i: int| text::repeat_char(horizontal, (widths[i] + 2) as nat))
}

/// A border line: the left corner, the segments separated by the join
/// character, the right corner.
pub open spec fn border_line(
    widths: Seq<usize>,
    left: char,
    join_char: char,
    right: char,
    horizontal: char,
) -> Seq<char> {
    seq![left] + text::join(border_segments(widths, horizontal), seq![join_char]) + seq![right]
}

/// Renders a border line as `border_line` describes.
pub fn render_border_line(
    widths: &[usize],
    left: char,
    join_char: char,
    right: char,
    horizontal: char,
) -> (out: String)
    requires
        forall|i: int| 0 <= i < widths.len() ==> widths[i] + 2 <= usize::MAX,
    ensures
        out@ == border_line(widths@, left, join_char, right, horizontal),
{
    let ghost segs = border_segments(widths@, horizontal);
    let mut body = String::new();
    let n = widths.len();
    let mut i: usize = 0;
    while i < n
        invariant
            i <= n,
            n == widths.len(),
            segs == border_segments(widths@, horizontal),
            forall|k: int| 0 <= k < widths.len() ==> widths[k] + 2 <= usize::MAX,
            body@ == text::join(segs.take(i as int), seq![join_char]),
        decreases n - i,
    {
        if i > 0 {
            push_char(&mut body, join_char);
        }
        push_repeat(&mut body, horizontal, widths[i] + 2);
        proof {
            if i == 0 {
                assert(segs.take(1) =~= seq![segs[0]]);
                assert(body@ =~= text::join(segs.take(1), seq![join_char]));
            } else {
                crate::text::lemma_join_step(segs, seq![join_char], i as int);
                assert(body@ =~= text::join(segs.take(i + 1), seq![join_char]));
            }
        }
        i = i + 1;
    }
    assert(segs.take(n as int) =~= segs);
    let mut out = String::new();
    push_char(&mut out, left);
    push_str(&mut out, body.as_str());
    push_char(&mut out, right);
    assert(out@ =~= border_line(widths@, left, join_char, right, horizontal));
    out
}

/// Cells framed by the vertical character on both ends and between each two.
pub open spec fn bordered_cells(cells: Seq<Seq<char>>, vertical: char) -> Seq<char> {
    seq![vertical] + text::join(cells, seq![vertical]) + seq![vertical]
}

/// Renders framed cells as `bordered_cells` describes.
pub fn render_bordered_cells(cells: &Vec<String>, vertical: char) -> (out: String)
    ensures
        out@ == bordered_cells(text::views(cells@), vertical),
{
    let mut separator = String::new();
    push_char(&mut separator, vertical);
    let mut out = String::new();
    push_char(&mut out, vertical);
    push_joined(&mut out, cells, separator.as_str());
    push_char(&mut out, vertical);
    assert(separator@ =~= seq![vertical]);
    assert(out@ =~= bordered_cells(text::views(cells@), vertical));
    out
}

/// Sum of the column widths.
pub open spec fn sum_widths(widths: Seq<usize>) -> nat
    decreases widths.len(),
{
    if widths.len() == 0 {
        0
    } else {
        sum_widths(widths.drop_last()) + widths.last() as nat
    }
}

/// Width of a rendered table with these column widths: in compact style
/// the columns plus two spaces between each two; bordered, the columns
/// plus three characters per column (two padding spaces and a border)
/// plus the closing border.
pub open spec fn table_width(widths: Seq<usize>, compact: bool) -> nat {
    if compact {
        if widths.len() == 0 {
            sum_widths(widths)
        } else {
            (sum_widths(widths) + (widths.len() - 1) * 2) as nat
        }
    } else {
        sum_widths(widths) + widths.len() * 3 + 1
    }
}

/// Computes `table_width`; the total must fit in `usize`.
pub fn rendered_table_width(widths: &[usize], compact: bool) -> (w: usize)
    requires
        table_width(widths@, compact) <= usize::MAX,
    ensures
        w as nat == table_width(widths@, compact),
{
    let n = widths.len();
    let mut total: usize = 0;
    let mut i: usize = 0;
    proof {
        lemma_sum_widths_bound(widths@, table_width(widths@, compact));
    }
    while i < n
        invariant
            i <= n,
            n == widths.len(),
            total as nat == sum_widths(widths@.take(i as int)),
            sum_widths(widths@) <= table_width(widths@, compact),
            table_width(widths@, compact) <= usize::MAX,
        decreases n - i,
    {
        proof {
            assert(widths@.take(i + 1).drop_last() =~= widths@.take(i as int));
            lemma_sum_widths_prefix(widths@, (i + 1) as int);
        }
        total = total + widths[i];
        i = i + 1;
    }
    assert(widths@.take(n as int) =~= widths@);
    if compact {
        if n == 0 {
            total
        } else {
            total + (n - 1) * 2
        }
    } else {
        total + n * 3 + 1
    }
}

/// The sum of a prefix of the widths is at most the sum of all of them.
pub proof fn lemma_sum_widths_prefix(widths: Seq<usize>, k: int)
    requires
        0 <= k <= widths.len(),
    ensures
        sum_widths(widths.take(k)) <= sum_widths(widths),
    decreases widths.len(),
{
    if k < widths.len() {
        assert(widths.drop_last().take(k) =~= widths.take(k));
        lemma_sum_widths_prefix(widths.drop_last(), k);
    } else {
        assert(widths.take(k) =~= widths);
    }
}

proof fn lemma_sum_widths_bound(widths: Seq<usize>, bound: nat)
    requires
        bound == table_width(widths, true) || bound == table_width(widths, false),
    ensures
        sum_widths(widths) <= bound,
{
}

/// The rounded UTF-8 box-drawing style.
pub open spec fn utf8_style() -> BorderStyle {
    BorderStyle {
        vertical: '\u{2502}',
        horizontal: '\u{2500}',
        top_left: '\u{256d}',
        top_join: '\u{252c}',
        top_right: '\u{256e}',
        middle_left: '\u{251c}',
        middle_join: '\u{253c}',
        middle_right: '\u{2524}',
        bottom_left: '\u{2570}',
        bottom_join: '\u{2534}',
        bottom_right: '\u{256f}',
    }
}

/// The plain ASCII style: `|`, `-` and `+` corners and joins.
pub open spec fn ascii_style() -> BorderStyle {
    BorderStyle {
        vertical: '|',
        horizontal: '-',
        top_left: '+',
        top_join: '+',
        top_right: '+',
        middle_left: '+',
        middle_join: '+',
        middle_right: '+',
        bottom_left: '+',
        bottom_join: '+',
        bottom_right: '+',
    }
}

/// The rounded UTF-8 box-drawing style.
pub fn utf8_border_style() -> (s: BorderStyle)
    ensures
        s == utf8_style(),
{
    BorderStyle {
        vertical: '\u{2502}',
        horizontal: '\u{2500}',
        top_left: '\u{256d}',
        top_join: '\u{252c}',
        top_right: '\u{256e}',
        middle_left: '\u{251c}',
        middle_join: '\u{253c}',
        middle_right: '\u{2524}',
        bottom_left: '\u{2570}',
        bottom_join: '\u{2534}',
        bottom_right: '\u{256f}',
    }
}

/// The plain ASCII style.
pub fn ascii_border_style() -> (s: BorderStyle)
    ensures
        s == ascii_style(),
{
    BorderStyle {
        vertical: '|',
        horizontal: '-',
        top_left: '+',
        top_join: '+',
        top_right: '+',
        middle_left: '+',
        middle_join: '+',
        middle_right: '+',
        bottom_left: '+',
        bottom_join: '+',
        bottom_right: '+',
    }
}

/// A clipped value never exceeds the width, keeps a value that fits, and
/// clipping twice changes nothing more.
pub proof fn lemma_clipped_fits(value: Seq<char>, width: nat)
    ensures
        clipped(value, width).len() <= width,
        value.len() <= width ==> clipped(value, width) == value,
        clipped(clipped(value, width), width) == clipped(value, width),
{
}

/// Padding makes a value exactly `width` long, or leaves a longer one as
/// it is; the value itself stays in place on its side.
pub proof fn lemma_padded_len(value: Seq<char>, width: nat, alignment: Alignment)
    ensures
        padded(value, width, alignment).len() == if value.len() > width {
            value.len()
        } else {
            width
        },
        alignment == Alignment::Left ==> padded(value, width, alignment).take(value.len() as int)
            == value,
        alignment == Alignment::Right ==> padded(value, width, alignment).skip(
            padded(value, width, alignment).len() - value.len(),
        ) == value,
{
    let p = padded(value, width, alignment);
    if alignment == Alignment::Left {
        assert(p.take(value.len() as int) =~= value);
    } else {
        assert(p.skip(p.len() - value.len()) =~= value);
    }
}

/// A bordered cell is always exactly `width + 2` characters wide.
pub proof fn lemma_bordered_cell_width(value: Seq<char>, width: nat, alignment: Alignment)
    ensures
        bordered_cell(value, width, alignment).len() == width + 2,
{
    lemma_clipped_fits(value, width);
    lemma_padded_len(clipped(value, width), width, alignment);
}

proof fn lemma_total_len_segments(widths: Seq<usize>, horizontal: char)
    ensures
        crate::text::total_len(border_segments(widths, horizontal)) == sum_widths(widths) + 2
            * widths.len(),
    decreases widths.len(),
{
    if widths.len() > 0 {
        lemma_total_len_segments(widths.drop_last(), horizontal);
        assert(border_segments(widths, horizontal).drop_last() =~= border_segments(
            widths.drop_last(),
            horizontal,
        ));
    }
}

/// A border line is as wide as the bordered table predicts, for any
/// non-empty list of column widths.
pub proof fn lemma_border_line_width(
    widths: Seq<usize>,
    left: char,
    join_char: char,
    right: char,
    horizontal: char,
)
    requires
        widths.len() > 0,
    ensures
        border_line(widths, left, join_char, right, horizontal).len() == table_width(widths, false),
{
    let segs = border_segments(widths, horizontal);
    crate::text::lemma_join_len(segs, seq![join_char]);
    lemma_total_len_segments(widths, horizontal);
    assert(seq![join_char].len() == 1);
    assert((segs.len() - 1) * 1 == segs.len() - 1);
}

proof fn lemma_total_len_cells(cells: Seq<Seq<char>>, widths: Seq<usize>)
    requires
        cells.len() == widths.len(),
        forall|i: int| 0 <= i < cells.len() ==> #[trigger] cells[i].len() == widths[i] + 2,
    ensures
        crate::text::total_len(cells) == sum_widths(widths) + 2 * widths.len(),
    decreases cells.len(),
{
    if cells.len() > 0 {
        lemma_total_len_cells(cells.drop_last(), widths.drop_last());
    }
}

/// A row of cells that are each `width + 2` wide (as bordered cells are)
/// is as wide as the bordered table predicts.
pub proof fn lemma_bordered_cells_width(cells: Seq<Seq<char>>, widths: Seq<usize>, vertical: char)
    requires
        cells.len() == widths.len(),
        widths.len() > 0,
        forall|i: int| 0 <= i < cells.len() ==> #[trigger] cells[i].len() == widths[i] + 2,
    ensures
        bordered_cells(cells, vertical).len() == table_width(widths, false),
{
    crate::text::lemma_join_len(cells, seq![vertical]);
    lemma_total_len_cells(cells, widths);
    assert(seq![vertical].len() == 1);
    assert((cells.len() - 1) * 1 == cells.len() - 1);
}

proof fn lemma_total_len_fitted(cells: Seq<Seq<char>>, widths: Seq<usize>)
    requires
        cells.len() == widths.len(),
        forall|i: int| 0 <= i < cells.len() ==> #[trigger] cells[i].len() == widths[i],
    ensures
        crate::text::total_len(cells) == sum_widths(widths),
    decreases cells.len(),
{
    if cells.len() > 0 {
        lemma_total_len_fitted(cells.drop_last(), widths.drop_last());
    }
}

/// Cells exactly as wide as their columns, joined by two spaces, are as
/// wide as the compact table predicts.
pub proof fn lemma_compact_cells_width(cells: Seq<Seq<char>>, widths: Seq<usize>)
    requires
        cells.len() == widths.len(),
        forall|i: int| 0 <= i < cells.len() ==> #[trigger] cells[i].len() == widths[i],
    ensures
        text::join(cells, text::spaces(2)).len() == table_width(widths, true),
{
    if cells.len() > 0 {
        crate::text::lemma_join_len(cells, text::spaces(2));
        lemma_total_len_fitted(cells, widths);
    }
}

} // verus!
