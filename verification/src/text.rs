//! Building the text of tokens and diagnostics.

use vstd::prelude::*;

verus! {

/// The character of a decimal digit `d` (`0 <= d < 10`).
pub open spec fn digit_char(d: nat) -> char {
    if d == 0 { '0' }
    else if d == 1 { '1' }
    else if d == 2 { '2' }
    else if d == 3 { '3' }
    else if d == 4 { '4' }
    else if d == 5 { '5' }
    else if d == 6 { '6' }
    else if d == 7 { '7' }
    else if d == 8 { '8' }
    else { '9' }
}

/// The decimal representation of `n`, without leading zeros, as `Display`
/// writes an unsigned integer.
pub open spec fn decimal(n: nat) -> Seq<char>
    decreases n,
{
    if n < 10 {
        seq![digit_char(n)]
    } else {
        decimal(n / 10).push(digit_char(n % 10))
    }
}

/// Appends one character to a `String` (`String::push`).
#[verifier::external_body]
pub(crate) fn push_char(s: &mut String, c: char)
    ensures
        final(s)@ == old(s)@.push(c),
{
    s.push(c);
}

fn digit_to_char(d: u64) -> (c: char)
    requires
        d < 10,
    ensures
        c == digit_char(d as nat),
{
    if d == 0 { '0' }
    else if d == 1 { '1' }
    else if d == 2 { '2' }
    else if d == 3 { '3' }
    else if d == 4 { '4' }
    else if d == 5 { '5' }
    else if d == 6 { '6' }
    else if d == 7 { '7' }
    else if d == 8 { '8' }
    else { '9' }
}

/// Appends the decimal representation of `n`.
pub(crate) fn push_decimal(s: &mut String, n: u64)
    ensures
        final(s)@ == old(s)@ + decimal(n as nat),
    decreases n,
{
    if n >= 10 {
        push_decimal(s, n / 10);
    }
    push_char(s, digit_to_char(n % 10));
    proof {
        assert(old(s)@ + decimal(n as nat) =~= s@);
    }
}

} // verus!

verus! {

/// Whether `c` has the Unicode `Alphabetic` property, as `char::is_alphabetic`
/// decides it from the tables of the standard library.
pub uninterp spec fn char_is_alphabetic(c: char) -> bool;

/// Whether `c` is alphabetic or numeric, as `char::is_alphanumeric` decides
/// it from the tables of the standard library.
pub uninterp spec fn char_is_alphanumeric(c: char) -> bool;

/// Whether `c` is an ASCII letter.
pub open spec fn is_ascii_letter(c: char) -> bool {
    ('a' <= c <= 'z') || ('A' <= c <= 'Z')
}

/// `char::is_alphabetic`: the result is the named property of `c`. Its
/// documentation defines it as the Unicode `Alphabetic` property, which
/// among ASCII characters (below `0x80`) holds exactly of the letters; for
/// other characters nothing is stated of the Unicode tables behind it.
#[verifier::external_body]
pub(crate) fn is_alphabetic(c: char) -> (r: bool)
    ensures
        r == char_is_alphabetic(c),
        (c as u32) < 0x80 ==> (r <==> is_ascii_letter(c)),
{
    c.is_alphabetic()
}

/// `char::is_alphanumeric`: the result is the named property of `c`. Its
/// documentation defines it as `is_alphabetic() || is_numeric()`, so every
/// alphabetic character is alphanumeric; among ASCII characters it holds
/// exactly of the letters and the digits `0`..`9` (the Unicode `Alphabetic`
/// and numeric properties there); for other characters nothing more is
/// stated.
#[verifier::external_body]
pub(crate) fn is_alphanumeric(c: char) -> (r: bool)
    ensures
        r == char_is_alphanumeric(c),
        char_is_alphabetic(c) ==> r,
        (c as u32) < 0x80 ==> (r <==> (is_ascii_letter(c) || ('0' <= c <= '9'))),
{
    c.is_alphanumeric()
}

} // verus!

verus! {

/// The decimal representation of `n`, with a `-` before a negative number,
/// as `Debug` and `Display` write a signed integer.
pub open spec fn signed_decimal(n: int) -> Seq<char> {
    if n < 0 {
        seq!['-'] + decimal((-n) as nat)
    } else {
        decimal(n as nat)
    }
}

/// Appends the signed decimal representation of `n`.
pub(crate) fn push_signed_decimal(s: &mut String, n: i64)
    ensures
        final(s)@ == old(s)@ + signed_decimal(n as int),
{
    if n < 0 {
        push_char(s, '-');
        let magnitude: u64 = (0i128 - n as i128) as u64;
        push_decimal(s, magnitude);
        proof {
            assert(final(s)@ =~= old(s)@ + signed_decimal(n as int));
        }
    } else {
        push_decimal(s, n as u64);
    }
}

/// The text that `Debug` writes for a string: the characters between double
/// quotes, escaped as the standard library escapes them.
pub uninterp spec fn str_debug_text(s: Seq<char>) -> Seq<char>;

/// The text that `Debug` writes for a character: the character between
/// single quotes, escaped as the standard library escapes it.
pub uninterp spec fn char_debug_text(c: char) -> Seq<char>;

/// `<str as Debug>::fmt`, through `format!("{:?}")`: its result is the named
/// text of `s`; the escaping rules behind it are not stated.
#[verifier::external_body]
pub(crate) fn str_debug(s: &String) -> (r: String)
    ensures
        r@ == str_debug_text(s@),
{
    format!("{:?}", s)
}

/// `<char as Debug>::fmt`, through `format!("{:?}")`: its result is the
/// named text of `c`; the escaping rules behind it are not stated.
#[verifier::external_body]
pub(crate) fn char_debug(c: char) -> (r: String)
    ensures
        r@ == char_debug_text(c),
{
    format!("{:?}", c)
}

} // verus!

verus! {

/// The characters of `s`, in order.
pub(crate) fn chars_of(s: &str) -> (r: Vec<char>)
    ensures
        r@ == s@,
{
    let mut chars: Vec<char> = Vec::new();
    for c in it: s.chars()
        invariant
            chars@ == it.seq().take(it.index()),
    {
        chars.push(c);
    }
    proof {
        broadcast use vstd::string::group_string_axioms;
        assert(chars@ =~= s@);
    }
    chars
}

/// A `String` holding the characters `chars[from..to]`.
pub(crate) fn string_of(chars: &Vec<char>, from: usize, to: usize) -> (r: String)
    requires
        from <= to <= chars@.len(),
    ensures
        r@ == chars@.subrange(from as int, to as int),
{
    let mut s = String::new();
    let mut i = from;
    while i < to
        invariant
            from <= i <= to <= chars@.len(),
            s@ == chars@.subrange(from as int, i as int),
        decreases to - i,
    {
        push_char(&mut s, chars[i]);
        i = i + 1;
        proof {
            assert(s@ =~= chars@.subrange(from as int, i as int));
        }
    }
    s
}

} // verus!
