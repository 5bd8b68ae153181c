//! Character-sequence building blocks shared by the renderers: a model of
//! repeated characters, joins and decimal numerals, and the executable
//! routines that append them to a `String`.

use vstd::prelude::*;

verus! {

/// `n` copies of the character `c`.
pub open spec fn repeat_char(c: char, n: nat) -> Seq<char> {
    Seq::new(n, |i: int| c)
}

/// `n` spaces.
pub open spec fn spaces(n: nat) -> Seq<char> {
    repeat_char(' ', n)
}

/// The parts, in order, with `sep` between every two neighbours.
pub open spec fn join(parts: Seq<Seq<char>>, sep: Seq<char>) -> Seq<char>
    decreases parts.len(),
{
    if parts.len() == 0 {
        Seq::empty()
    } else if parts.len() == 1 {
        parts[0]
    } else {
        join(parts.drop_last(), sep) + sep + parts.last()
    }
}

/// The character sequences of a list of strings.
pub open spec fn views(parts: Seq<String>) -> Seq<Seq<char>> {
    parts.map_values(|p: String| p@)
}

/// Total length of the parts.
pub open spec fn total_len(parts: Seq<Seq<char>>) -> nat
    decreases parts.len(),
{
    if parts.len() == 0 {
        0
    } else {
        total_len(parts.drop_last()) + parts.last().len()
    }
}

/// A join is as long as its parts plus one separator between each two.
pub proof fn lemma_join_len(parts: Seq<Seq<char>>, sep: Seq<char>)
    requires
        parts.len() > 0,
    ensures
        join(parts, sep).len() == total_len(parts) + (parts.len() - 1) * sep.len(),
    decreases parts.len(),
{
    if parts.len() == 1 {
        assert(total_len(parts.drop_last()) == 0);
    } else {
        lemma_join_len(parts.drop_last(), sep);
        assert((parts.len() - 1) * sep.len() == (parts.len() - 2) * sep.len() + sep.len())
            by (nonlinear_arith);
    }
}

/// Joining one more part adds the separator and that part.
pub proof fn lemma_join_step(parts: Seq<Seq<char>>, sep: Seq<char>, i: int)
    requires
        0 < i < parts.len(),
    ensures
        join(parts.take(i + 1), sep) == join(parts.take(i), sep) + sep + parts[i],
{
    assert(parts.take(i + 1).drop_last() =~= parts.take(i));
}

/// The ASCII digit of a value below ten.
pub open spec fn digit_char(d: nat) -> char {
    ((48 + d) as u8) as char
}

/// The decimal numeral of `n`, without sign or leading zeros.
pub open spec fn decimal(n: nat) -> Seq<char>
    decreases n,
{
    if n < 10 {
        seq![digit_char(n)]
    } else {
        decimal(n / 10).push(digit_char(n % 10))
    }
}

/// `String::push`: appends one character at the end.
#[verifier::external_body]
pub(crate) fn push_char(s: &mut String, c: char)
    ensures
        final(s)@ == old(s)@.push(c),
{
    s.push(c);
}

/// Appends the characters of `t`.
pub fn push_str(s: &mut String, t: &str)
    ensures
        final(s)@ == old(s)@ + t@,
{
    s.append(t);
}

/// Appends the parts, with `sep` between each two.
pub fn push_joined(s: &mut String, parts: &Vec<String>, sep: &str)
    ensures
        final(s)@ == old(s)@ + join(views(parts@), sep@),
{
    let ghost ps = views(parts@);
    let n = parts.len();
    let mut i: usize = 0;
    while i < n
        invariant
            i <= n,
            n == parts.len(),
            ps == views(parts@),
            s@ == old(s)@ + join(ps.take(i as int), sep@),
        decreases n - i,
    {
        if i > 0 {
            push_str(s, sep);
        }
        push_str(s, parts[i].as_str());
        proof {
            if i == 0 {
                assert(ps.take(1) =~= seq![ps[0]]);
            } else {
                lemma_join_step(ps, sep@, i as int);
            }
        }
        i = i + 1;
        assert(s@ =~= old(s)@ + join(ps.take(i as int), sep@));
    }
    assert(ps.take(n as int) =~= ps);
}

/// Appends `n` copies of `c`.
pub fn push_repeat(s: &mut String, c: char, n: usize)
    ensures
        final(s)@ == old(s)@ + repeat_char(c, n as nat),
{
    let mut i: usize = 0;
    while i < n
        invariant
            i <= n,
            s@ == old(s)@ + repeat_char(c, i as nat),
        decreases n - i,
    {
        push_char(s, c);
        i = i + 1;
        assert(s@ =~= old(s)@ + repeat_char(c, i as nat));
    }
}

/// Appends the decimal numeral of `n`.
pub fn push_decimal(s: &mut String, n: u64)
    ensures
        final(s)@ == old(s)@ + decimal(n as nat),
    decreases n,
{
    if n >= 10 {
        push_decimal(s, n / 10);
    }
    let d: u8 = (n % 10) as u8;
    push_char(s, (48u8 + d) as char);
    assert(s@ =~= old(s)@ + decimal(n as nat));
}

} // verus!
