//! Text building blocks shared by the log renderers: decimal and hexadecimal
//! digits, string appends, and their mathematical descriptions.

use vstd::prelude::*;

verus! {

/// The character of a digit below sixteen, lower-case for the letters.
pub open spec fn digit_char(d: nat) -> char {
    if d == 0 { '0' }
    else if d == 1 { '1' }
    else if d == 2 { '2' }
    else if d == 3 { '3' }
    else if d == 4 { '4' }
    else if d == 5 { '5' }
    else if d == 6 { '6' }
    else if d == 7 { '7' }
    else if d == 8 { '8' }
    else if d == 9 { '9' }
    else if d == 10 { 'a' }
    else if d == 11 { 'b' }
    else if d == 12 { 'c' }
    else if d == 13 { 'd' }
    else if d == 14 { 'e' }
    else { 'f' }
}

/// The decimal notation of `n`, without sign or leading zeros.
pub open spec fn decimal(n: nat) -> Seq<char>
    decreases n,
{
    if n < 10 {
        seq![digit_char(n)]
    } else {
        decimal(n / 10).push(digit_char(n % 10))
    }
}

/// Two lower-case hexadecimal digits of a byte, zero-padded.
pub open spec fn hex2(b: u8) -> Seq<char> {
    seq![digit_char((b / 16) as nat), digit_char((b % 16) as nat)]
}

/// Appends one character (std's `String::push`).
#[verifier::external_body]
pub(crate) fn push_char(s: &mut String, c: char)
    ensures
        final(s)@ == old(s)@.push(c),
{
    s.push(c);
}

/// The character of the digit `d`.
pub fn digit(d: u8) -> (c: char)
    requires
        d < 16,
    ensures
        c == digit_char(d as nat),
{
    if d == 0 { '0' }
    else if d == 1 { '1' }
    else if d == 2 { '2' }
    else if d == 3 { '3' }
    else if d == 4 { '4' }
    else if d == 5 { '5' }
    else if d == 6 { '6' }
    else if d == 7 { '7' }
    else if d == 8 { '8' }
    else if d == 9 { '9' }
    else if d == 10 { 'a' }
    else if d == 11 { 'b' }
    else if d == 12 { 'c' }
    else if d == 13 { 'd' }
    else if d == 14 { 'e' }
    else { 'f' }
}

/// Appends the decimal notation of `n`.
pub fn push_decimal(s: &mut String, n: u64)
    ensures
        final(s)@ == old(s)@ + decimal(n as nat),
    decreases n,
{
    if n >= 10 {
        push_decimal(s, n / 10);
    }
    let d: u8 = (n % 10) as u8;
    push_char(s, digit(d));
    assert(n >= 10 ==> decimal(n as nat) == decimal((n / 10) as nat).push(digit_char((n % 10) as nat)));
    assert(n < 10 ==> decimal(n as nat) == seq![digit_char(n as nat)]);
}

/// Appends the decimal notation of a length or count.
pub fn push_decimal_usize(s: &mut String, n: usize)
    ensures
        final(s)@ == old(s)@ + decimal(n as nat),
{
    push_decimal(s, n as u64);
}

/// Appends the two hexadecimal digits of `b`.
pub fn push_hex2(s: &mut String, b: u8)
    ensures
        final(s)@ == old(s)@ + hex2(b),
{
    push_char(s, digit(b / 16));
    push_char(s, digit(b % 16));
    assert(s@ =~= old(s)@ + hex2(b));
}

/// Parts joined with a separator between each two.
pub open spec fn joined(parts: Seq<Seq<char>>, sep: Seq<char>) -> Seq<char>
    decreases parts.len(),
{
    if parts.len() == 0 {
        Seq::empty()
    } else if parts.len() == 1 {
        parts[0]
    } else {
        joined(parts.drop_last(), sep) + sep + parts.last()
    }
}

/// Joining puts every part in, in order, and the separator between each two
/// parts and nowhere else: the result is the first part followed, for each
/// later part, by the separator and that part, however many parts there are.
pub proof fn lemma_joined_is_every_part_with_separators(parts: Seq<Seq<char>>, sep: Seq<char>)
    ensures
        joined(parts, sep) == Seq::new(parts.len(), |i: int| if i == 0 { parts[i] } else { sep + parts[i] }).flatten_alt(),
    decreases parts.len(),
{
    let pieces = Seq::new(parts.len(), |i: int| if i == 0 { parts[i] } else { sep + parts[i] });
    if parts.len() == 0 {
        assert(pieces =~= Seq::<Seq<char>>::empty());
    } else {
        let front = parts.drop_last();
        lemma_joined_is_every_part_with_separators(front, sep);
        let front_pieces = Seq::new(front.len(), |i: int| if i == 0 { front[i] } else { sep + front[i] });
        assert(pieces.drop_last() =~= front_pieces);
        if parts.len() == 1 {
            assert(front_pieces =~= Seq::<Seq<char>>::empty());
            assert(Seq::<char>::empty() + parts[0] =~= parts[0]);
        } else {
            assert(pieces.last() == sep + parts.last());
            assert(joined(front, sep) + sep + parts.last() =~= joined(front, sep) + (sep + parts.last()));
        }
    }
}

/// Lines joined by line breaks.
pub open spec fn join_lines(lines: Seq<Seq<char>>) -> Seq<char> {
    joined(lines, "\n"@)
}

/// Joins strings with `sep` between each two.
pub fn join_strings(parts: &Vec<String>, sep: &str) -> (out: String)
    ensures
        out@ == joined(parts@.map_values(|l: String| l@), sep@),
{
    let ghost views = parts@.map_values(|l: String| l@);
    let mut out = String::new();
    let n = parts.len();
    let mut i: usize = 0;
    proof {
        assert(views.take(0) =~= Seq::<Seq<char>>::empty());
    }
    while i < n
        invariant
            n == parts@.len(),
            views == parts@.map_values(|l: String| l@),
            0 <= i <= n,
            out@ == joined(views.take(i as int), sep@),
        decreases n - i,
    {
        let ghost before = out@;
        if i > 0 {
            out.append(sep);
        }
        out.append(parts[i].as_str());
        proof {
            let prefix = views.take(i + 1);
            assert(prefix.drop_last() =~= views.take(i as int));
            assert(prefix.last() == parts@[i as int]@);
            if i == 0 {
                assert(before =~= Seq::<char>::empty());
                assert(out@ =~= prefix[0]);
            }
        }
        i = i + 1;
    }
    proof {
        assert(views.take(n as int) =~= views);
    }
    out
}

/// Joins strings with line breaks between them.
pub fn join_with_newlines(lines: &Vec<String>) -> (joined_text: String)
    ensures
        joined_text@ == join_lines(lines@.map_values(|l: String| l@)),
{
    join_strings(lines, "\n")
}

} // verus!
