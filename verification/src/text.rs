//! Character-level building blocks: decimal and hexadecimal digits,
//! appending to strings, and the lowercase hex encoding of byte strings.
use vstd::prelude::*;

verus! {

broadcast use vstd::string::group_string_axioms;

/// The ASCII character with the given code (`code < 128`).
pub open spec fn ascii_char(code: int) -> char {
    code as char
}

/// The decimal digit character for `d` in `0..10`.
pub open spec fn decimal_digit(d: int) -> char {
    ascii_char(48 + d)
}

/// The lowercase hexadecimal digit character for `d` in `0..16`.
pub open spec fn lower_hex_digit(d: int) -> char {
    if d < 10 {
        ascii_char(48 + d)
    } else {
        ascii_char(87 + d)
    }
}

/// The uppercase hexadecimal digit character for `d` in `0..16`.
pub open spec fn upper_hex_digit(d: int) -> char {
    if d < 10 {
        ascii_char(48 + d)
    } else {
        ascii_char(55 + d)
    }
}

/// The decimal representation of `n`, without leading zeros (`"0"` for zero).
pub open spec fn decimal_text(n: nat) -> Seq<char>
    decreases n,
{
    if n < 10 {
        seq![decimal_digit(n as int)]
    } else {
        decimal_text(n / 10).push(decimal_digit((n % 10) as int))
    }
}

/// The lowercase hexadecimal representation of `n`, without leading zeros
/// (`"0"` for zero), as `{:x}` writes it.
pub open spec fn lower_hex_text(n: nat) -> Seq<char>
    decreases n,
{
    if n < 16 {
        seq![lower_hex_digit(n as int)]
    } else {
        lower_hex_text(n / 16).push(lower_hex_digit((n % 16) as int))
    }
}

/// Two lowercase hex digits per byte, high nibble first.
pub open spec fn lower_hex_of_bytes(bytes: Seq<u8>) -> Seq<char>
    decreases bytes.len(),
{
    if bytes.len() == 0 {
        Seq::empty()
    } else {
        lower_hex_of_bytes(bytes.drop_last()).push(
            lower_hex_digit(bytes.last() as int / 16),
        ).push(lower_hex_digit(bytes.last() as int % 16))
    }
}

/// Whether `t` occurs in `s` as a contiguous run of characters.
pub open spec fn contains_text(s: Seq<char>, t: Seq<char>) -> bool {
    exists|i: int| 0 <= i && i + t.len() <= s.len() && #[trigger] s.subrange(i, i + t.len()) == t
}

/// A text occurs in anything written around it.
pub proof fn lemma_contains_between(a: Seq<char>, t: Seq<char>, b: Seq<char>)
    ensures
        contains_text(a + t + b, t),
{
    let s = a + t + b;
    assert(s.subrange(a.len() as int, (a.len() + t.len()) as int) =~= t);
}

/// A text occurs where it is found.
pub proof fn lemma_contains_at(s: Seq<char>, t: Seq<char>, i: int)
    requires
        0 <= i,
        i + t.len() <= s.len(),
        s.subrange(i, i + t.len()) == t,
    ensures
        contains_text(s, t),
{
}

/// What occurs in a text occurs in anything written around that text.
pub proof fn lemma_contains_within(a: Seq<char>, x: Seq<char>, b: Seq<char>, t: Seq<char>)
    requires
        contains_text(x, t),
    ensures
        contains_text(a + x + b, t),
{
    let i = choose|i: int| 0 <= i && i + t.len() <= x.len() && #[trigger] x.subrange(i, i + t.len()) == t;
    let s = a + x + b;
    assert(s.subrange(a.len() + i, a.len() + i + t.len()) =~= x.subrange(i, i + t.len()));
}

/// Appends one character to a string.
///
/// Calls std's `String::push`, which appends the character at the end.
#[verifier::external_body]
pub(crate) fn push_char(s: &mut String, c: char)
    ensures
        final(s)@ == old(s)@.push(c),
{
    s.push(c);
}

/// Appends a sequence of characters to a string.
pub(crate) fn push_chars(s: &mut String, chars: &Vec<char>)
    ensures
        final(s)@ == old(s)@ + chars@,
{
    let n = chars.len();
    for i in 0..n
        invariant
            n == chars@.len(),
            s@ == old(s)@ + chars@.subrange(0, i as int),
    {
        push_char(s, chars[i]);
        assert(chars@.subrange(0, i + 1) == chars@.subrange(0, i as int).push(chars@[i as int]));
    }
    assert(chars@.subrange(0, n as int) == chars@);
}

/// Appends a string slice to a string.
pub(crate) fn push_str(s: &mut String, t: &str)
    ensures
        final(s)@ == old(s)@ + t@,
{
    s.append(t);
}

/// The characters of a string slice, in order.
pub(crate) fn chars_of(s: &str) -> (v: Vec<char>)
    ensures
        v@ == s@,
{
    let mut v: Vec<char> = Vec::new();
    for c in it: s.chars()
        invariant
            v@ == it.seq().take(it.index()),
    {
        v.push(c);
    }
    v
}

/// A string holding exactly the given characters.
pub(crate) fn string_of_chars(chars: &Vec<char>) -> (s: String)
    ensures
        s@ == chars@,
{
    let mut s = String::new();
    push_chars(&mut s, chars);
    s
}

/// The decimal digit character for `d`.
pub(crate) fn decimal_digit_char(d: u8) -> (c: char)
    requires
        d < 10,
    ensures
        c == decimal_digit(d as int),
{
    (48 + d) as char
}

/// The lowercase hexadecimal digit character for `d`.
pub(crate) fn lower_hex_digit_char(d: u8) -> (c: char)
    requires
        d < 16,
    ensures
        c == lower_hex_digit(d as int),
{
    if d < 10 {
        (48 + d) as char
    } else {
        (87 + d) as char
    }
}

/// Appends the decimal representation of `n`.
pub(crate) fn push_decimal(s: &mut String, n: u64)
    ensures
        final(s)@ == old(s)@ + decimal_text(n as nat),
    decreases n,
{
    if n >= 10 {
        push_decimal(s, n / 10);
    }
    push_char(s, decimal_digit_char((n % 10) as u8));
    proof {
        if n >= 10 {
            assert(old(s)@ + decimal_text(n as nat) == old(s)@ + decimal_text((n / 10) as nat)
                + seq![decimal_digit((n % 10) as int)]);
        }
    }
}

/// Appends the lowercase hexadecimal representation of `n`.
pub(crate) fn push_lower_hex(s: &mut String, n: u16)
    ensures
        final(s)@ == old(s)@ + lower_hex_text(n as nat),
    decreases n,
{
    if n >= 16 {
        push_lower_hex(s, n / 16);
    }
    push_char(s, lower_hex_digit_char((n % 16) as u8));
    proof {
        if n >= 16 {
            assert(old(s)@ + lower_hex_text(n as nat) == old(s)@ + lower_hex_text((n / 16) as nat)
                + seq![lower_hex_digit((n % 16) as int)]);
        }
    }
}

/// Encodes bytes as lowercase hexadecimal: two digits per byte, high nibble first.
pub fn to_lower_hex(bytes: &[u8]) -> (out: String)
    ensures
        out@ == lower_hex_of_bytes(bytes@),
        out@.len() == 2 * bytes@.len(),
{
    let mut out = String::new();
    let n = bytes.len();
    for i in 0..n
        invariant
            n == bytes@.len(),
            out@ == lower_hex_of_bytes(bytes@.subrange(0, i as int)),
            out@.len() == 2 * i,
    {
        let byte = bytes[i];
        push_char(&mut out, lower_hex_digit_char(byte / 16));
        push_char(&mut out, lower_hex_digit_char(byte % 16));
        assert(bytes@.subrange(0, i + 1).drop_last() == bytes@.subrange(0, i as int));
    }
    assert(bytes@.subrange(0, n as int) == bytes@);
    out
}

} // verus!
