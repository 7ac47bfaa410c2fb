//! Character-level rules: the Unicode classes the lexer sorts characters by,
//! and the byte-offset arithmetic that ties character positions to spans.

use vstd::prelude::*;

verus! {

/// What `char::is_whitespace` returns for a character: whether it has the
/// Unicode `White_Space` property. The full table is part of the Unicode
/// character database, so it is left uninterpreted here.
pub uninterp spec fn whitespace_char(c: char) -> bool;

/// What `char::is_alphabetic` returns for a character: whether it has the
/// Unicode `Alphabetic` property. Left uninterpreted, as above.
pub uninterp spec fn alphabetic_char(c: char) -> bool;

/// What `char::is_numeric` returns for a character: whether its Unicode
/// general category is one of `Nd`, `Nl`, `No`. Left uninterpreted, as above.
pub uninterp spec fn numeric_char(c: char) -> bool;

/// Relies on `char::is_whitespace`: true exactly for characters with the
/// Unicode `White_Space` property; it depends on the character alone.
pub assume_specification[ char::is_whitespace ](c: char) -> (b: bool)
    ensures
        b == whitespace_char(c),
;

/// Relies on `char::is_alphabetic`: true exactly for characters with the
/// Unicode `Alphabetic` property; it depends on the character alone.
pub assume_specification[ char::is_alphabetic ](c: char) -> (b: bool)
    ensures
        b == alphabetic_char(c),
;

/// Relies on `char::is_numeric`: true exactly for characters of Unicode
/// general category `Nd`, `Nl` or `No`; it depends on the character alone.
pub assume_specification[ char::is_numeric ](c: char) -> (b: bool)
    ensures
        b == numeric_char(c),
;

/// The number of bytes in the UTF-8 encoding of a character, as a function
/// of its scalar value.
pub open spec fn utf8_len(c: char) -> int {
    if (c as u32) < 0x80 {
        1
    } else if (c as u32) < 0x800 {
        2
    } else if (c as u32) < 0x10000 {
        3
    } else {
        4
    }
}

/// Relies on `char::len_utf8`: the number of bytes the character occupies
/// when encoded in UTF-8, which is 1, 2, 3 or 4 according to the scalar
/// value's magnitude.
pub assume_specification[ char::len_utf8 ](c: char) -> (n: usize)
    ensures
        n == utf8_len(c),
;

/// The byte offset at which the character at index `i` of `s` starts, when
/// `s` is encoded in UTF-8: the sum of the encoded lengths of the characters
/// before it.
pub open spec fn byte_start(s: Seq<char>, i: int) -> int
    decreases i,
{
    if i <= 0 {
        0
    } else {
        byte_start(s, i - 1) + utf8_len(s[i - 1])
    }
}

/// Byte offsets grow with character indices: each character adds between
/// one and four bytes.
pub proof fn lemma_byte_start_mono(s: Seq<char>, i: int, j: int)
    requires
        0 <= i <= j,
    ensures
        byte_start(s, i) + (j - i) <= byte_start(s, j),
        byte_start(s, j) <= byte_start(s, i) + 4 * (j - i),
    decreases j - i,
{
    if i < j {
        lemma_byte_start_mono(s, i, j - 1);
    }
}

/// Relies on `str::len`: the length of a string slice in bytes, which for
/// UTF-8 text is the sum of the encoded lengths of its characters.
#[verifier::external_body]
pub(crate) fn byte_len(s: &str) -> (n: usize)
    ensures
        n == byte_start(s@, s@.len() as int),
{
    s.len()
}

/// A character that may start an identifier: any Unicode alphabetic
/// character, or an underscore.
pub open spec fn identifier_start_char(c: char) -> bool {
    alphabetic_char(c) || c == '_'
}

/// A character that may continue an identifier: any identifier start, or
/// any Unicode numeric character.
pub open spec fn identifier_body_char(c: char) -> bool {
    identifier_start_char(c) || numeric_char(c)
}

/// The start of an identifier. Can be any valid Unicode alphabetic character, or an underscore
pub fn identifier_start(c: char) -> (r: bool)
    ensures
        r == identifier_start_char(c),
{
    c.is_alphabetic() || c == '_'
}

/// The body of an identifier. Can be any valid identifier start, or any valid Unicode numeric character
pub fn identifier_body(c: char) -> (r: bool)
    ensures
        r == identifier_body_char(c),
{
    identifier_start(c) || c.is_numeric()
}

} // verus!
