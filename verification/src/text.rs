//! Character-level helpers shared by the codecs and the stream operations.
//!
//! Strings are reasoned about through their view, the sequence of their
//! characters. The few operations of the standard library that have no
//! specification elsewhere are given one here.

use vstd::prelude::*;
use vstd::string::StringExecFns;

verus! {

/// Whether `c` is white space: one of the characters that Unicode gives
/// the property White_Space. These are tab to carriage return, the blank,
/// next line, the no-break blank, the ogham space mark, the blanks of fixed
/// width, the line and paragraph separators, the narrow no-break blank, the
/// medium mathematical blank and the ideographic blank.
pub open spec fn char_is_whitespace(c: char) -> bool {
    let n = c as u32;
    (9 <= n && n <= 13) || n == 32 || n == 0x85 || n == 0xA0 || n == 0x1680 || (0x2000 <= n && n
        <= 0x200A) || n == 0x2028 || n == 0x2029 || n == 0x202F || n == 0x205F || n == 0x3000
}

/// Whether the standard library classifies a character beyond ASCII as
/// alphabetic.
pub uninterp spec fn alphabetic_beyond_ascii(c: char) -> bool;

/// Whether `c` is alphabetic. In ASCII these are the letters `a` to `z`
/// and `A` to `Z`; beyond, what Unicode gives the property Alphabetic.
pub open spec fn char_is_alphabetic(c: char) -> bool {
    if (c as u32) < 128 {
        ('a' <= c && c <= 'z') || ('A' <= c && c <= 'Z')
    } else {
        alphabetic_beyond_ascii(c)
    }
}

/// `needle` occurs in `hay` as a contiguous run of characters.
pub open spec fn occurs_in(needle: Seq<char>, hay: Seq<char>) -> bool {
    exists|i: int|
        0 <= i && i + needle.len() <= hay.len() && #[trigger] hay.subrange(
            i,
            i + needle.len(),
        ) == needle
}

/// `s` without its first and its last character; empty when `s` has fewer
/// than two characters.
pub open spec fn inner(s: Seq<char>) -> Seq<char> {
    if s.len() >= 2 {
        s.subrange(1, s.len() - 1)
    } else {
        Seq::empty()
    }
}

/// The value of the two decimal digits `a` and `b`, if both are digits.
pub open spec fn two_digits(a: char, b: char) -> Option<u8> {
    if '0' <= a && a <= '9' && '0' <= b && b <= '9' {
        Some(((a as u32 - '0' as u32) * 10 + (b as u32 - '0' as u32)) as u8)
    } else {
        None
    }
}

/// `char::is_whitespace`: true exactly of the characters with the Unicode
/// property White_Space, which `char_is_whitespace` lists in full.
#[verifier::external_body]
pub(crate) fn is_whitespace(c: char) -> (r: bool)
    ensures
        r == char_is_whitespace(c),
{
    c.is_whitespace()
}

/// `char::is_alphabetic`: true of the characters with the Unicode
/// property Alphabetic. In ASCII these are exactly the letters; of the
/// characters beyond, the answer depends on the character alone and is
/// known only under the name `alphabetic_beyond_ascii`.
#[verifier::external_body]
pub(crate) fn is_alphabetic(c: char) -> (r: bool)
    ensures
        r == char_is_alphabetic(c),
        (c as u32) >= 128 ==> r == alphabetic_beyond_ascii(c),
{
    c.is_alphabetic()
}

/// `String::push`: appends one character to the end of the string.
#[verifier::external_body]
pub(crate) fn push_char(s: &mut String, c: char)
    ensures
        final(s)@ == old(s)@.push(c),
{
    s.push(c)
}

/// `str::eq`: two string slices are equal exactly when they hold the same
/// characters in the same order.
#[verifier::external_body]
pub(crate) fn str_eq(a: &str, b: &str) -> (r: bool)
    ensures
        r == (a@ == b@),
{
    a == b
}

/// `str::contains` with a string pattern: true exactly when the pattern
/// occurs somewhere in the string as a contiguous run.
#[verifier::external_body]
pub(crate) fn str_contains(hay: &str, needle: &str) -> (r: bool)
    ensures
        r == occurs_in(needle@, hay@),
{
    hay.contains(needle)
}

/// The characters of `s`, in order.
pub fn chars_of(s: &str) -> (v: Vec<char>)
    ensures
        v@ == s@,
{
    let mut v: Vec<char> = Vec::new();
    for c in it: s.chars()
        invariant
            it.seq() == s@,
            v@ == it.seq().take(it.index() as int),
    {
        v.push(c);
    }
    v
}

/// The string made of `chars[from..to]`.
pub fn string_of(chars: &Vec<char>, from: usize, to: usize) -> (s: String)
    requires
        from <= to <= chars.len(),
    ensures
        s@ == chars@.subrange(from as int, to as int),
{
    let mut s = String::new();
    let mut i: usize = from;
    while i < to
        invariant
            from <= i <= to <= chars.len(),
            s@ == chars@.subrange(from as int, i as int),
        decreases to - i,
    {
        push_char(&mut s, chars[i]);
        i += 1;
        assert(chars@.subrange(from as int, i as int) == chars@.subrange(from as int, i - 1).push(
            chars@[i - 1],
        ));
    }
    s
}

/// An owned copy of an optional string.
pub fn clone_opt(s: &Option<String>) -> (r: Option<String>)
    ensures
        r == *s,
{
    match s {
        Some(x) => Some(x.clone()),
        None => None,
    }
}

/// The value of two decimal digits.
pub fn parse_two_digits(a: char, b: char) -> (r: Option<u8>)
    ensures
        r == two_digits(a, b),
{
    if '0' <= a && a <= '9' && '0' <= b && b <= '9' {
        let hi: u32 = a as u32 - '0' as u32;
        let lo: u32 = b as u32 - '0' as u32;
        Some((hi * 10 + lo) as u8)
    } else {
        None
    }
}

/// `p` stands at the start of `s`.
pub open spec fn begins_with(s: Seq<char>, p: Seq<char>) -> bool {
    p.len() <= s.len() && s.subrange(0, p.len() as int) == p
}

/// Whether `p` stands at the start of `s`.
pub fn starts_with(s: &Vec<char>, p: &Vec<char>) -> (r: bool)
    ensures
        r == begins_with(s@, p@),
{
    if p.len() > s.len() {
        return false;
    }
    let mut i: usize = 0;
    while i < p.len()
        invariant
            i <= p.len() <= s.len(),
            s@.subrange(0, i as int) == p@.subrange(0, i as int),
        decreases p.len() - i,
    {
        if s[i] != p[i] {
            proof {
                let whole = s@.subrange(0, p.len() as int);
                assert(whole[i as int] == s@[i as int]);
            }
            return false;
        }
        i += 1;
        proof {
            assert(s@.subrange(0, i as int) =~= s@.subrange(0, i - 1).push(s@[i - 1]));
            assert(p@.subrange(0, i as int) =~= p@.subrange(0, i - 1).push(p@[i - 1]));
        }
    }
    proof {
        assert(p@.subrange(0, p.len() as int) =~= p@);
    }
    true
}

/// An owned copy of a string slice.
pub fn owned(s: &str) -> (r: String)
    ensures
        r@ == s@,
{
    String::from_str(s)
}

} // verus!
