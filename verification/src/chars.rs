//! The character classes of the grammar.
//!
//! Digits are the ten ASCII digits. Letters and blanks follow Unicode: within
//! ASCII both classes are written out here, beyond ASCII the standard library
//! decides.
use vstd::prelude::*;

verus! {

/// What `char::is_alphabetic` answers for `c`: whether `c` has the Unicode
/// property Alphabetic.
pub uninterp spec fn unicode_alphabetic(c: char) -> bool;

/// What `char::is_whitespace` answers for `c`: whether `c` has the Unicode
/// property White_Space.
pub uninterp spec fn unicode_white_space(c: char) -> bool;

/// `c` is one of `0` to `9`.
pub open spec fn spec_is_digit(c: char) -> bool {
    '0' <= c <= '9'
}

/// `c` may stand in a numeral: a digit or the decimal point.
pub open spec fn spec_is_numeral_char(c: char) -> bool {
    spec_is_digit(c) || c == '.'
}

/// `c` is alphabetic: within ASCII one of the 52 letters, beyond ASCII a
/// character with the Unicode property Alphabetic.
pub open spec fn spec_is_letter(c: char) -> bool {
    if c <= '\x7f' {
        'a' <= c <= 'z' || 'A' <= c <= 'Z'
    } else {
        unicode_alphabetic(c)
    }
}

/// `c` is white space: within ASCII the space and the controls U+0009 to
/// U+000D, beyond ASCII a character with the Unicode property White_Space.
pub open spec fn spec_is_blank(c: char) -> bool {
    if c <= '\x7f' {
        c == ' ' || '\x09' <= c <= '\x0d'
    } else {
        unicode_white_space(c)
    }
}

/// Calls `char::is_alphabetic`. Trusted: the answer is a fixed property of
/// the character, named `unicode_alphabetic`.
#[verifier::external_body]
fn char_is_alphabetic(c: char) -> (b: bool)
    ensures
        b == unicode_alphabetic(c),
{
    c.is_alphabetic()
}

/// Calls `char::is_whitespace`. Trusted: the answer is a fixed property of
/// the character, named `unicode_white_space`.
#[verifier::external_body]
fn char_is_whitespace(c: char) -> (b: bool)
    ensures
        b == unicode_white_space(c),
{
    c.is_whitespace()
}

/// Whether `c` is one of `0` to `9`.
#[verifier::when_used_as_spec(spec_is_digit)]
pub fn is_digit(c: char) -> (b: bool)
    ensures
        b == spec_is_digit(c),
{
    '0' <= c && c <= '9'
}

/// Whether `c` is a digit or the decimal point.
#[verifier::when_used_as_spec(spec_is_numeral_char)]
pub fn is_numeral_char(c: char) -> (b: bool)
    ensures
        b == spec_is_numeral_char(c),
{
    is_digit(c) || c == '.'
}

/// Whether `c` is alphabetic.
#[verifier::when_used_as_spec(spec_is_letter)]
pub fn is_letter(c: char) -> (b: bool)
    ensures
        b == spec_is_letter(c),
{
    if c <= '\x7f' {
        ('a' <= c && c <= 'z') || ('A' <= c && c <= 'Z')
    } else {
        char_is_alphabetic(c)
    }
}

/// Whether `c` is white space.
#[verifier::when_used_as_spec(spec_is_blank)]
pub fn is_blank(c: char) -> (b: bool)
    ensures
        b == spec_is_blank(c),
{
    if c <= '\x7f' {
        c == ' ' || ('\x09' <= c && c <= '\x0d')
    } else {
        char_is_whitespace(c)
    }
}

/// The characters of `s`, in order.
pub fn chars_of(s: &str) -> (v: Vec<char>)
    ensures
        v@ == s@,
{
    let mut v: Vec<char> = Vec::new();
    for c in it: s.chars()
        invariant
            v@ == it.seq().take(it.index() as int),
            it.seq() == s@,
    {
        v.push(c);
    }
    v
}

/// Calls `String::push`. Trusted: the string afterwards is the string before
/// with `c` added at its end.
#[verifier::external_body]
pub(crate) fn string_push(s: &mut String, c: char)
    ensures
        final(s)@ == old(s)@.push(c),
{
    s.push(c)
}

/// The characters `chars[from..to]` as a string.
pub(crate) fn string_of(chars: &Vec<char>, from: usize, to: usize) -> (s: String)
    requires
        from <= to <= chars.len(),
    ensures
        s@ == chars@.subrange(from as int, to as int),
{
    let mut s = String::new();
    let mut i: usize = from;
    while i < to
        invariant
            from <= i <= to <= chars.len(),
            s@ == chars@.subrange(from as int, i as int),
        decreases to - i,
    {
        string_push(&mut s, chars[i]);
        i += 1;
    }
    s
}

} // verus!
