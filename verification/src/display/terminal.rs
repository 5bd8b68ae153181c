//! Terminal width rules: the `COLUMNS` override and the widths reported by
//! the platform's terminal queries.

use vstd::prelude::*;

verus! {

/// A decimal digit character.
pub open spec fn is_digit(c: char) -> bool {
    '0' <= c && c <= '9'
}

/// The value of a string of decimal digits.
pub open spec fn digits_value(digits: Seq<char>) -> nat
    decreases digits.len(),
{
    if digits.len() == 0 {
        0
    } else {
        digits_value(digits.drop_last()) * 10 + ((digits.last() as u32) - 48) as nat
    }
}

/// What parsing a `usize` from text yields: an optional `+` followed by
/// one or more decimal digits whose value fits in `usize`; anything else
/// (empty text, other signs, spaces, other characters, overflow) fails.
pub open spec fn parsed_usize(text: Seq<char>) -> Option<usize> {
    let digits = if text.len() > 0 && text[0] == '+' {
        text.skip(1)
    } else {
        text
    };
    if digits.len() > 0 && (forall|i: int| 0 <= i < digits.len() ==> is_digit(#[trigger] digits[i]))
        && digits_value(digits) <= usize::MAX {
        Some(digits_value(digits) as usize)
    } else {
        None
    }
}

/// `str::parse::<usize>`, with the error discarded: Rust documents that an
/// unsigned integer parses from an optional `+` sign followed by decimal
/// digits only, and that a value out of range is an error.
#[verifier::external_body]
fn parse_usize(text: &str) -> (r: Option<usize>)
    ensures
        r == parsed_usize(text@),
{
    text.parse::<usize>().ok()
}

/// The width that the `COLUMNS` variable asks for: its value parsed as a
/// positive number; nothing when unset, unparsable or zero.
pub open spec fn columns_override(columns: Option<Seq<char>>) -> Option<usize> {
    match columns {
        None => None,
        Some(text) => match parsed_usize(text) {
            Some(w) => if w > 0 {
                Some(w)
            } else {
                None
            },
            None => None,
        },
    }
}

/// The terminal width requested by the value of `COLUMNS` (`None` when the
/// variable is unset or not valid Unicode), as `columns_override` says.
pub fn env_terminal_width(columns: Option<&str>) -> (w: Option<usize>)
    ensures
        w == columns_override(
            match columns {
                Some(text) => Some(text@),
                None => None,
            },
        ),
{
    match columns {
        None => None,
        Some(text) => match parse_usize(text) {
            Some(width) => if width > 0 {
                Some(width)
            } else {
                None
            },
            None => None,
        },
    }
}

/// The width from a `TIOCGWINSZ` query: its column count when the query
/// succeeded (status 0) and reported a positive width.
pub fn winsize_width(status: i32, ws_col: u16) -> (w: Option<usize>)
    ensures
        w == (if status == 0 && ws_col > 0 {
            Some(ws_col as usize)
        } else {
            None
        }),
{
    if status != 0 {
        return None;
    }
    let width = ws_col as usize;
    if width > 0 {
        Some(width)
    } else {
        None
    }
}

/// The width of a console window from its left and right columns, both
/// inclusive, when the query succeeded (`ok` non-zero) and the width is
/// positive.
pub fn console_window_width(ok: i32, left: i16, right: i16) -> (w: Option<usize>)
    ensures
        w == (if ok != 0 && right - left + 1 > 0 {
            Some((right - left + 1) as usize)
        } else {
            None
        }),
{
    if ok == 0 {
        return None;
    }
    let width: i32 = right as i32 - left as i32 + 1;
    if width > 0 {
        Some(width as usize)
    } else {
        None
    }
}

proof fn lemma_digit_char(d: nat)
    requires
        d < 10,
    ensures
        is_digit(crate::text::digit_char(d)),
        crate::text::digit_char(d) as u32 == d + 48,
{
}

proof fn lemma_decimal_digits(n: nat)
    ensures
        crate::text::decimal(n).len() > 0,
        forall|i: int|
            0 <= i < crate::text::decimal(n).len() ==> is_digit(#[trigger] crate::text::decimal(n)[i]),
        digits_value(crate::text::decimal(n)) == n,
    decreases n,
{
    let d = crate::text::decimal(n);
    if n >= 10 {
        lemma_decimal_digits(n / 10);
        assert(d.drop_last() =~= crate::text::decimal(n / 10));
        lemma_digit_char((n % 10) as nat);
        assert(d.last() == crate::text::digit_char((n % 10) as nat));
        assert(digits_value(d) == digits_value(d.drop_last()) * 10 + ((d.last() as u32) - 48) as nat);
        assert((n / 10) * 10 + n % 10 == n);
    } else {
        assert(d.drop_last() =~= Seq::<char>::empty());
        lemma_digit_char(n);
        assert(digits_value(d.drop_last()) == 0);
        assert(digits_value(d) == digits_value(d.drop_last()) * 10 + ((d.last() as u32) - 48) as nat);
    }
}

/// Reading back a number's decimal text gives the number: parsing the
/// numeral of any `usize` succeeds with that value.
pub proof fn lemma_parse_decimal_round_trip(n: usize)
    ensures
        parsed_usize(crate::text::decimal(n as nat)) == Some(n),
{
    lemma_decimal_digits(n as nat);
    let d = crate::text::decimal(n as nat);
    assert(d[0] != '+') by {
        assert(is_digit(d[0]));
    }
}

/// `COLUMNS` gives a width only when it is positive, and the decimal text
/// of any positive width gives back that width.
pub proof fn lemma_columns_override(columns: Option<Seq<char>>, n: usize)
    ensures
        columns_override(columns) matches Some(w) ==> w > 0,
        n > 0 ==> columns_override(Some(crate::text::decimal(n as nat))) == Some(n),
        columns_override(Some(crate::text::decimal(0))) is None,
{
    lemma_parse_decimal_round_trip(n);
    lemma_parse_decimal_round_trip(0);
}

} // verus!
