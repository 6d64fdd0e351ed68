//! Characters and strings: what the library asks of the standard library,
//! and the few notions of its own that it states about text.

use vstd::prelude::*;

verus! {

/// `String::push` of the standard library appends the given character to the
/// end of the string. The contract is taken from its documentation, not
/// proved.
pub assume_specification[ String::push ](s: &mut String, ch: char)
    ensures
        final(s)@ == old(s)@.push(ch),
;

/// The lowercase equivalent of the text `s`, as `str::to_lowercase` of the
/// standard library gives it. Nothing more is stated of it here.
pub uninterp spec fn lowercase_of(s: Seq<char>) -> Seq<char>;

/// `str::to_lowercase` of the standard library returns the lowercase
/// equivalent of a string slice as a new string. The contract is not proved:
/// it gives the result a name, and so claims that the result depends on the
/// characters of the slice alone.
pub assume_specification[ str::to_lowercase ](s: &str) -> (r: String)
    ensures
        r@ == lowercase_of(s@),
;

/// What each string slice of `v` holds.
pub open spec fn str_views(v: Seq<&str>) -> Seq<Seq<char>> {
    v.map_values(|s: &str| s@)
}

/// What each string of `v` holds.
pub open spec fn string_views(v: Seq<String>) -> Seq<Seq<char>> {
    v.map_values(|s: String| s@)
}

/// The characters of `s`, in order.
pub(crate) fn chars_of(s: &str) -> (v: Vec<char>)
    ensures
        v@ == s@,
{
    let mut v: Vec<char> = Vec::new();
    for c in it: s.chars()
        invariant
            it.seq() == s@,
            v@ == s@.take(it.index()),
    {
        v.push(c);
    }
    v
}

/// Whether `c` is one of the digits `0` to `9`.
pub open spec fn is_digit(c: char) -> bool {
    '0' <= c <= '9'
}

/// Whether `c` is an ASCII letter or digit.
pub open spec fn is_alphanumeric(c: char) -> bool {
    is_digit(c) || 'a' <= c <= 'z' || 'A' <= c <= 'Z'
}

/// The lower-case form of an ASCII capital letter; any other character as it is.
pub open spec fn lower(c: char) -> char {
    if 'A' <= c <= 'Z' {
        (c as u8 + 32) as char
    } else {
        c
    }
}

/// The character of the digit `d`, for `d` below ten.
pub open spec fn digit_char(d: nat) -> char {
    (('0' as u8) + d) as char
}

/// The decimal numeral of `n`, without leading zeros.
pub open spec fn decimal(n: nat) -> Seq<char>
    decreases n,
{
    if n < 10 {
        seq![digit_char(n)]
    } else {
        decimal(n / 10).push(digit_char(n % 10))
    }
}

/// The number that a decimal numeral stands for.
pub open spec fn numeral_value(s: Seq<char>) -> nat
    decreases s.len(),
{
    if s.len() == 0 {
        0
    } else {
        (numeral_value(s.drop_last()) * 10 + (s.last() as nat - '0' as nat)) as nat
    }
}

/// A decimal numeral is not empty and stands for the number it was made of,
/// so two numbers with the same numeral are the same.
pub proof fn lemma_decimal_value(n: nat)
    ensures
        decimal(n).len() > 0,
        numeral_value(decimal(n)) == n,
    decreases n,
{
    if n < 10 {
        assert(numeral_value(decimal(n).drop_last()) == 0);
    } else {
        lemma_decimal_value(n / 10);
        assert(decimal(n).drop_last() =~= decimal(n / 10));
    }
}

/// Whether `c` is an ASCII letter or digit.
pub(crate) fn is_ascii_alphanumeric(c: char) -> (r: bool)
    ensures
        r == is_alphanumeric(c),
{
    (c >= '0' && c <= '9') || (c >= 'a' && c <= 'z') || (c >= 'A' && c <= 'Z')
}

/// The lower-case form of an ASCII capital letter; any other character as it is.
pub(crate) fn to_ascii_lower(c: char) -> (r: char)
    ensures
        r == lower(c),
{
    if c >= 'A' && c <= 'Z' {
        (c as u8 + 32) as char
    } else {
        c
    }
}

/// Appends the decimal numeral of `n` to `s`.
pub(crate) fn push_decimal(s: &mut String, n: u64)
    ensures
        final(s)@ == old(s)@ + decimal(n as nat),
    decreases n,
{
    if n >= 10 {
        push_decimal(s, n / 10);
    }
    let d: u8 = (n % 10) as u8;
    s.push((48u8 + d) as char);
}

} // verus!
