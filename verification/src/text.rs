//! Character classification and the mapping from character indices to byte
//! offsets of the input text.
//!
//! The Unicode-aware character predicates of std carry no specification in
//! vstd, so each one is named by an uninterpreted spec function and assumed
//! of the std method itself; every predicate is a property of the character
//! alone.

use vstd::prelude::*;

verus! {

/// Whether the Unicode White_Space property holds of a character beyond the
/// ASCII range.
pub uninterp spec fn is_whitespace_beyond_ascii(c: char) -> bool;

/// Whether std's `char::is_whitespace` holds of `c`. Within ASCII the
/// White_Space characters are a fixed, documented set; beyond ASCII the
/// property is only named.
pub open spec fn is_whitespace_char(c: char) -> bool {
    if (c as u32) < 0x80 {
        c == ' ' || c == '\t' || c == '\n' || c == '\r' || c == '\u{000B}' || c == '\u{000C}'
    } else {
        is_whitespace_beyond_ascii(c)
    }
}

/// Relies on `char::is_whitespace`: the Unicode White_Space property, a
/// property of the character alone; its ASCII members are exactly space,
/// tab, line feed, vertical tab, form feed and carriage return.
pub assume_specification[ char::is_whitespace ](c: char) -> (r: bool)
    ensures
        r == is_whitespace_char(c),
        (c as u32) >= 0x80 ==> r == is_whitespace_beyond_ascii(c),
;

/// Whether a character beyond the ASCII range is Unicode-alphanumeric.
pub uninterp spec fn is_alphanumeric_beyond_ascii(c: char) -> bool;

/// Whether std's `char::is_alphanumeric` holds of `c`. Within ASCII these
/// are exactly the letters and the decimal digits; beyond ASCII the
/// property is only named.
pub open spec fn is_alphanumeric_char(c: char) -> bool {
    if (c as u32) < 0x80 {
        ('a' <= c && c <= 'z') || ('A' <= c && c <= 'Z') || ('0' <= c && c <= '9')
    } else {
        is_alphanumeric_beyond_ascii(c)
    }
}

/// Relies on `char::is_alphanumeric`: a Unicode letter or number, a
/// property of the character alone; its ASCII members are exactly the
/// letters and the decimal digits.
pub assume_specification[ char::is_alphanumeric ](c: char) -> (r: bool)
    ensures
        r == is_alphanumeric_char(c),
        (c as u32) >= 0x80 ==> r == is_alphanumeric_beyond_ascii(c),
;

/// Whether a character beyond the ASCII range has the Unicode Lowercase
/// property.
pub uninterp spec fn is_lowercase_beyond_ascii(c: char) -> bool;

/// Whether std's `char::is_lowercase` holds of `c`. Within ASCII the
/// Lowercase characters are exactly the small letters; beyond ASCII the
/// property is only named.
pub open spec fn is_lowercase_char(c: char) -> bool {
    if (c as u32) < 0x80 {
        'a' <= c && c <= 'z'
    } else {
        is_lowercase_beyond_ascii(c)
    }
}

/// Relies on `char::is_lowercase`: the Unicode Lowercase property, a
/// property of the character alone; its ASCII members are exactly the small
/// letters.
pub assume_specification[ char::is_lowercase ](c: char) -> (r: bool)
    ensures
        r == is_lowercase_char(c),
        (c as u32) >= 0x80 ==> r == is_lowercase_beyond_ascii(c),
;

/// Whether a character beyond the ASCII range has the Unicode Uppercase
/// property.
pub uninterp spec fn is_uppercase_beyond_ascii(c: char) -> bool;

/// Whether std's `char::is_uppercase` holds of `c`. Within ASCII the
/// Uppercase characters are exactly the capital letters; beyond ASCII the
/// property is only named.
pub open spec fn is_uppercase_char(c: char) -> bool {
    if (c as u32) < 0x80 {
        'A' <= c && c <= 'Z'
    } else {
        is_uppercase_beyond_ascii(c)
    }
}

/// Relies on `char::is_uppercase`: the Unicode Uppercase property, a
/// property of the character alone; its ASCII members are exactly the
/// capital letters.
pub assume_specification[ char::is_uppercase ](c: char) -> (r: bool)
    ensures
        r == is_uppercase_char(c),
        (c as u32) >= 0x80 ==> r == is_uppercase_beyond_ascii(c),
;

/// A decimal digit.
pub open spec fn is_digit_char(c: char) -> bool {
    '0' <= c && c <= '9'
}

/// A character that may start a lower identifier.
pub open spec fn is_lower_start(c: char) -> bool {
    is_lowercase_char(c) || c == '_'
}

/// A character that may continue a lower identifier.
pub open spec fn is_lower_continue(c: char) -> bool {
    is_alphanumeric_char(c) || c == '_'
}

/// A character that may start an upper identifier.
pub open spec fn is_upper_start(c: char) -> bool {
    is_uppercase_char(c)
}

/// A character that may continue an upper identifier.
pub open spec fn is_upper_continue(c: char) -> bool {
    is_alphanumeric_char(c)
}

/// A line terminator, which ends a comment.
pub open spec fn is_line_terminator(c: char) -> bool {
    c == '\n' || c == '\r'
}

pub fn digit_char(c: char) -> (r: bool)
    ensures
        r == is_digit_char(c),
{
    '0' <= c && c <= '9'
}

pub fn lower_start_char(c: char) -> (r: bool)
    ensures
        r == is_lower_start(c),
{
    c.is_lowercase() || c == '_'
}

pub fn lower_continue_char(c: char) -> (r: bool)
    ensures
        r == is_lower_continue(c),
{
    c.is_alphanumeric() || c == '_'
}

pub fn upper_start_char(c: char) -> (r: bool)
    ensures
        r == is_upper_start(c),
{
    c.is_uppercase()
}

pub fn upper_continue_char(c: char) -> (r: bool)
    ensures
        r == is_upper_continue(c),
{
    c.is_alphanumeric()
}

/// The number of bytes of the UTF-8 encoding of a character, determined by
/// its scalar value.
pub open spec fn utf8_len_of(c: char) -> int {
    if (c as u32) < 0x80 {
        1
    } else if (c as u32) < 0x800 {
        2
    } else if (c as u32) < 0x10000 {
        3
    } else {
        4
    }
}

/// The byte offset at which the `i`th character of `s` starts: the sum of
/// the UTF-8 lengths of the characters before it.
pub open spec fn byte_offset_of(s: Seq<char>, i: int) -> int
    decreases i,
{
    if i <= 0 {
        0
    } else {
        byte_offset_of(s, i - 1) + utf8_len_of(s[i - 1])
    }
}

/// Byte offsets grow strictly with the character index: every character
/// takes at least one byte, so the span of a lexeme has its start at or
/// before its end also as byte offsets.
pub proof fn lemma_byte_offset_increasing(s: Seq<char>, i: int, j: int)
    requires
        0 <= i <= j,
    ensures
        byte_offset_of(s, i) <= byte_offset_of(s, j),
        i < j ==> byte_offset_of(s, i) < byte_offset_of(s, j),
    decreases j - i,
{
    if i < j {
        lemma_byte_offset_increasing(s, i, j - 1);
    }
}

/// Relies on `str::char_indices`: it yields every character of the string in
/// order, each paired with the byte offset at which its UTF-8 encoding
/// starts, that is, the sum of the UTF-8 lengths of the characters before it.
#[verifier::external_body]
pub fn chars_and_offsets(s: &str) -> (r: (Vec<char>, Vec<usize>))
    ensures
        r.0@ == s@,
        r.1@.len() == r.0@.len(),
        forall|i: int| 0 <= i < r.1@.len() ==> r.1@[i] == byte_offset_of(s@, i),
{
    let mut chars = Vec::new();
    let mut offsets = Vec::new();
    for (offset, c) in s.char_indices() {
        chars.push(c);
        offsets.push(offset);
    }
    (chars, offsets)
}

/// Relies on `String`'s `FromIterator` over characters: the collected
/// string holds exactly the given characters, in order.
#[verifier::external_body]
pub fn string_from_chars(v: &Vec<char>) -> (r: String)
    ensures
        r@ == v@,
{
    v.iter().collect()
}

} // verus!
