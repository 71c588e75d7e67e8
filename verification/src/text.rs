//! Characters, and decimal numbers written in them.
//!
//! Text is handled as a sequence of characters: a `&str` is turned into a
//! `Vec<char>` once, scanned, and turned back into a `String` at the end.

use vstd::prelude::*;

verus! {

/// An ASCII decimal digit.
pub open spec fn is_digit(c: char) -> bool {
    '0' <= c <= '9'
}

/// A lowercase ASCII letter.
pub open spec fn is_letter(c: char) -> bool {
    'a' <= c <= 'z'
}

/// A character with the Unicode property `White_Space`.
pub open spec fn is_space(c: char) -> bool {
    ||| '\u{9}' <= c <= '\u{d}'
    ||| c == ' '
    ||| c == '\u{85}'
    ||| c == '\u{a0}'
    ||| c == '\u{1680}'
    ||| '\u{2000}' <= c <= '\u{200a}'
    ||| c == '\u{2028}'
    ||| c == '\u{2029}'
    ||| c == '\u{202f}'
    ||| c == '\u{205f}'
    ||| c == '\u{3000}'
}

/// Every character of `s` is a decimal digit.
pub open spec fn all_digits(s: Seq<char>) -> bool {
    forall|i: int| 0 <= i < s.len() ==> is_digit(#[trigger] s[i])
}

/// The number that the digits of `s` write in base ten; zero for no digits.
pub open spec fn decimal_value(s: Seq<char>) -> nat
    decreases s.len(),
{
    if s.len() == 0 {
        0
    } else {
        10 * decimal_value(s.drop_last()) + (s.last() as int - '0' as int) as nat
    }
}

/// What `s` says as a sixteen-bit number: it must be one digit or more, and
/// the value must fit.
pub open spec fn number_of(s: Seq<char>) -> Option<u16> {
    if s.len() > 0 && all_digits(s) && decimal_value(s) <= u16::MAX {
        Some(decimal_value(s) as u16)
    } else {
        None
    }
}

/// The digit that writes `d`, for `d` below ten.
pub open spec fn digit_of(d: nat) -> char {
    (d + '0' as nat) as char
}

/// The digits that write `n` in base ten, without leading zeros.
pub open spec fn digits_of(n: nat) -> Seq<char>
    decreases n,
{
    if n < 10 {
        seq![digit_of(n)]
    } else {
        digits_of(n / 10).push(digit_of(n % 10))
    }
}

/// The text of the integer `i` in base ten, with a minus sign if it is negative.
pub open spec fn decimal_of(i: int) -> Seq<char> {
    if i < 0 {
        seq!['-'] + digits_of((-i) as nat)
    } else {
        digits_of(i as nat)
    }
}

/// `s` without its white space.
pub open spec fn without_spaces(s: Seq<char>) -> Seq<char> {
    s.filter(|c: char| !is_space(c))
}

/// `s` with `to` in the place of every `from`.
pub open spec fn replaced(s: Seq<char>, from: char, to: char) -> Seq<char> {
    s.map_values(|c: char| if c == from { to } else { c })
}

/// Whether `c` parts a text: the end of a line where `lines` is set, and
/// else one of the four signs of arithmetic.
pub open spec fn separates(c: char, lines: bool) -> bool {
    if lines {
        c == '\n'
    } else {
        c == '+' || c == '-' || c == '*' || c == '/'
    }
}

/// The pieces of `s` between the characters that part it, empty ones
/// included: one piece more than there are such characters.
pub open spec fn fields(s: Seq<char>, lines: bool) -> Seq<Seq<char>>
    decreases s.len(),
{
    if s.len() == 0 {
        seq![Seq::empty()]
    } else {
        let before = fields(s.drop_last(), lines);
        if separates(s.last(), lines) {
            before.push(Seq::empty())
        } else {
            before.drop_last().push(before.last().push(s.last()))
        }
    }
}

/// The texts `parts` in a row, with `sep` between each two of them.
pub open spec fn join(parts: Seq<Seq<char>>, sep: Seq<char>) -> Seq<char>
    decreases parts.len(),
{
    if parts.len() == 0 {
        Seq::empty()
    } else if parts.len() == 1 {
        parts[0]
    } else {
        join(parts.drop_last(), sep) + sep + parts.last()
    }
}

/// The lowercase form of a text as Unicode defines it, which may be longer
/// than the text.
pub uninterp spec fn lowercased(s: Seq<char>) -> Seq<char>;

/// Calls `str::to_lowercase`. The result is the lowercase form of the whole
/// text, a function of the text alone; nothing more is claimed of it.
#[verifier::external_body]
pub(crate) fn lowercase(s: &str) -> (r: String)
    ensures
        r@ == lowercased(s@),
{
    s.to_lowercase()
}

/// Calls `String::from_iter` on the characters of `v`: the string made of
/// exactly these characters, in order.
#[verifier::external_body]
pub(crate) fn string_of(v: &Vec<char>) -> (s: String)
    ensures
        s@ == v@,
{
    String::from_iter(v)
}

/// The characters of `s`, in order.
pub fn chars_of(s: &str) -> (v: Vec<char>)
    ensures
        v@ == s@,
{
    let mut v: Vec<char> = Vec::new();
    for c in it: s.chars()
        invariant
            v@ == it.seq().take(it.index() as int),
            it.seq() == s@,
    {
        v.push(c);
    }
    v
}

/// Whether `c` is a decimal digit.
pub fn digit(c: char) -> (b: bool)
    ensures
        b == is_digit(c),
{
    '0' <= c && c <= '9'
}

/// Whether `c` is a lowercase letter.
pub fn letter(c: char) -> (b: bool)
    ensures
        b == is_letter(c),
{
    'a' <= c && c <= 'z'
}

/// Whether `c` is white space.
pub fn space(c: char) -> (b: bool)
    ensures
        b == is_space(c),
{
    ('\u{9}' <= c && c <= '\u{d}') || c == ' ' || c == '\u{85}' || c == '\u{a0}' || c
        == '\u{1680}' || ('\u{2000}' <= c && c <= '\u{200a}') || c == '\u{2028}' || c
        == '\u{2029}' || c == '\u{202f}' || c == '\u{205f}' || c == '\u{3000}'
}

/// A value only grows when a digit is written behind it.
pub proof fn lemma_decimal_value_grows(s: Seq<char>, n: int)
    requires
        all_digits(s),
        0 <= n <= s.len(),
    ensures
        decimal_value(s.take(n)) <= decimal_value(s),
    decreases s.len() - n,
{
    if n < s.len() {
        let t = s.take(n + 1);
        assert(t.drop_last() == s.take(n));
        assert(is_digit(t.last()));
        lemma_decimal_value_grows(s, n + 1);
    } else {
        assert(s.take(n) == s);
    }
}

/// Reads the digits `v[from..to]` as a sixteen-bit number.
pub fn read_number(v: &Vec<char>, from: usize, to: usize) -> (r: Option<u16>)
    requires
        from <= to <= v.len(),
    ensures
        r == number_of(v@.subrange(from as int, to as int)),
{
    let ghost s = v@.subrange(from as int, to as int);
    if from == to {
        return None;
    }
    let mut value: u32 = 0;
    let mut i: usize = from;
    while i < to
        invariant
            from <= i <= to <= v.len(),
            s == v@.subrange(from as int, to as int),
            all_digits(s.take(i - from)),
            value == decimal_value(s.take(i - from)),
            value <= u16::MAX,
        decreases to - i,
    {
        let c = v[i];
        let ghost t = s.take(i - from + 1);
        assert(t.drop_last() == s.take(i - from));
        assert(t.last() == c);
        if !digit(c) {
            assert(!is_digit(s[i - from]));
            return None;
        }
        value = 10 * value + (c as u32 - '0' as u32);
        assert(all_digits(t)) by {
            assert forall|k: int| 0 <= k < t.len() implies is_digit(#[trigger] t[k]) by {
                if k < t.len() - 1 {
                    assert(t[k] == s.take(i - from)[k]);
                }
            }
        }
        if value > 65535 {
            proof {
                if all_digits(s) {
                    lemma_decimal_value_grows(s, i - from + 1);
                }
            }
            return None;
        }
        i += 1;
    }
    assert(s.take(to - from) == s);
    Some(value as u16)
}

/// Writes the digits of `n` behind `out`.
pub fn push_natural(out: &mut Vec<char>, n: u64)
    ensures
        final(out)@ == old(out)@ + digits_of(n as nat),
    decreases n,
{
    if n >= 10 {
        push_natural(out, n / 10);
    }
    let d = (n % 10) as u8;
    out.push((d + 48u8) as char);
}

/// Writes the integer `i` behind `out`, with a minus sign if it is negative.
pub fn push_integer(out: &mut Vec<char>, i: i64)
    ensures
        final(out)@ == old(out)@ + decimal_of(i as int),
{
    if i < 0 {
        out.push('-');
        let magnitude: u64 = if i == i64::MIN {
            9223372036854775808u64
        } else {
            (-i) as u64
        };
        push_natural(out, magnitude);
        assert(out@ == old(out)@ + (seq!['-'] + digits_of((-i) as nat)));
    } else {
        push_natural(out, i as u64);
    }
}

/// Writes the characters of `s` behind `out`.
pub fn push_text(out: &mut Vec<char>, s: &str)
    ensures
        final(out)@ == old(out)@ + s@,
{
    let v = chars_of(s);
    let mut i: usize = 0;
    while i < v.len()
        invariant
            i <= v.len(),
            out@ == old(out)@ + v@.take(i as int),
        decreases v.len() - i,
    {
        out.push(v[i]);
        assert(v@.take(i + 1) == v@.take(i as int).push(v@[i as int]));
        i += 1;
    }
    assert(v@.take(v.len() as int) == v@);
}

/// A number is read as it is written: the digits that write `n` are
/// digits, and their value is `n`.
pub proof fn law_written_number(n: nat)
    ensures
        digits_of(n).len() > 0,
        all_digits(digits_of(n)),
        decimal_value(digits_of(n)) == n,
        n <= u16::MAX ==> number_of(digits_of(n)) == Some(n as u16),
    decreases n,
{
    let s = digits_of(n);
    if n < 10 {
        assert(s.drop_last() == Seq::<char>::empty());
        assert(decimal_value(s.drop_last()) == 0);
        assert(s.last() == digit_of(n));
    } else {
        law_written_number(n / 10);
        assert(s.drop_last() == digits_of(n / 10));
        assert(s.last() == digit_of(n % 10));
        assert forall|i: int| 0 <= i < s.len() implies is_digit(#[trigger] s[i]) by {
            if i < s.len() - 1 {
                assert(s[i] == digits_of(n / 10)[i]);
            }
        }
    }
}

/// A text has one piece at least.
pub proof fn lemma_fields_len(s: Seq<char>, lines: bool)
    ensures
        fields(s, lines).len() >= 1,
    decreases s.len(),
{
    if s.len() > 0 {
        lemma_fields_len(s.drop_last(), lines);
    }
}

/// Whether `c` parts a text. See [`separates`].
pub fn parts(c: char, lines: bool) -> (b: bool)
    ensures
        b == separates(c, lines),
{
    if lines {
        c == '\n'
    } else {
        c == '+' || c == '-' || c == '*' || c == '/'
    }
}

/// The places of the pieces of `v`: for each piece, where it begins and
/// where it ends. See [`fields`].
pub fn split(v: &Vec<char>, lines: bool) -> (spans: Vec<(usize, usize)>)
    ensures
        spans.len() == fields(v@, lines).len(),
        spans.len() >= 1,
        forall|k: int|
            0 <= k < spans.len() ==> {
                &&& (#[trigger] spans[k]).0 <= spans[k].1 <= v.len()
                &&& fields(v@, lines)[k] == v@.subrange(spans[k].0 as int, spans[k].1 as int)
            },
{
    let mut spans: Vec<(usize, usize)> = Vec::new();
    spans.push((0, 0));
    let mut i: usize = 0;
    assert(v@.take(0) == Seq::<char>::empty());
    assert(v@.subrange(0, 0) == Seq::<char>::empty());
    while i < v.len()
        invariant
            i <= v.len(),
            spans.len() == fields(v@.take(i as int), lines).len(),
            spans.len() >= 1,
            forall|k: int|
                0 <= k < spans.len() ==> {
                    &&& (#[trigger] spans[k]).0 <= spans[k].1 <= i
                    &&& fields(v@.take(i as int), lines)[k] == v@.subrange(
                        spans[k].0 as int,
                        spans[k].1 as int,
                    )
                },
            spans[spans.len() - 1].1 == i,
        decreases v.len() - i,
    {
        let c = v[i];
        let ghost before = fields(v@.take(i as int), lines);
        assert(v@.take(i + 1).drop_last() == v@.take(i as int));
        if parts(c, lines) {
            spans.push((i + 1, i + 1));
            assert(v@.subrange(i + 1, i + 1) == Seq::<char>::empty());
        } else {
            let last = spans.len() - 1;
            let from = spans[last].0;
            spans.set(last, (from, i + 1));
            assert(before.last().push(c) == v@.subrange(from as int, i + 1));
        }
        i += 1;
    }
    assert(v@.take(v.len() as int) == v@);
    spans
}

/// The characters `v[from..to]`.
pub fn slice(v: &Vec<char>, from: usize, to: usize) -> (out: Vec<char>)
    requires
        from <= to <= v.len(),
    ensures
        out@ == v@.subrange(from as int, to as int),
{
    let mut out: Vec<char> = Vec::new();
    let mut i: usize = from;
    while i < to
        invariant
            from <= i <= to <= v.len(),
            out@ == v@.subrange(from as int, i as int),
        decreases to - i,
    {
        out.push(v[i]);
        i += 1;
    }
    out
}

} // verus!
