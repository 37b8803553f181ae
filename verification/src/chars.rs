use vstd::prelude::*;

verus! {

/// Whether `c` has the Unicode `Alphabetic` property.
pub uninterp spec fn unicode_alphabetic(c: char) -> bool;

/// `char::is_alphabetic` reports whether a character has the `Alphabetic`
/// property of the Unicode Character Database. The property is a fixed table,
/// so the answer depends on the character alone: the first clause gives it its
/// name. The table is too long to write down here, but for its ASCII part: of
/// the ASCII characters it lists exactly the Latin letters `A`..=`Z` and
/// `a`..=`z`, which the second clause states. Neither clause is proved.
pub assume_specification[ char::is_alphabetic ](c: char) -> (b: bool)
    ensures
        b == unicode_alphabetic(c),
        c <= '\x7f' ==> b == is_ascii_letter(c),
;

/// The Latin letters of ASCII.
pub open spec fn is_ascii_letter(c: char) -> bool {
    ('a' <= c && c <= 'z') || ('A' <= c && c <= 'Z')
}

/// A letter: a Latin letter within ASCII, and beyond ASCII whatever Unicode
/// calls alphabetic.
pub open spec fn is_letter(c: char) -> bool {
    if c <= '\x7f' {
        is_ascii_letter(c)
    } else {
        unicode_alphabetic(c)
    }
}

/// The digits `0` to `9`, and no digit of another script.
pub open spec fn is_decimal_digit(c: char) -> bool {
    '0' <= c && c <= '9'
}

/// The insignificant characters: space, tab and newline.
pub open spec fn is_whitespace(c: char) -> bool {
    c == ' ' || c == '\t' || c == '\n'
}

/// The characters that end a word without belonging to it.
pub open spec fn is_delimiter(c: char) -> bool {
    is_whitespace(c) || c == ')'
}

/// The characters a word is made of. No delimiter is among them.
pub open spec fn is_word_char(c: char) -> bool {
    is_letter(c) || is_decimal_digit(c) || c == '-' || c == '_'
}

/// The number a decimal digit stands for.
pub open spec fn digit_value(c: char) -> nat
    recommends
        is_decimal_digit(c),
{
    (c as u32 - '0' as u32) as nat
}

/// Tells whether `c` is a letter.
pub fn letter(c: char) -> (b: bool)
    ensures
        b == is_letter(c),
{
    c.is_alphabetic()
}

/// Tells whether `c` is a decimal digit.
pub fn decimal_digit(c: char) -> (b: bool)
    ensures
        b == is_decimal_digit(c),
{
    '0' <= c && c <= '9'
}

/// Tells whether `c` is whitespace.
pub fn whitespace(c: char) -> (b: bool)
    ensures
        b == is_whitespace(c),
{
    c == ' ' || c == '\t' || c == '\n'
}

/// Tells whether `c` ends a word.
pub fn delimiter(c: char) -> (b: bool)
    ensures
        b == is_delimiter(c),
{
    whitespace(c) || c == ')'
}

/// Tells whether `c` may stand in a word.
pub fn word_char(c: char) -> (b: bool)
    ensures
        b == is_word_char(c),
{
    letter(c) || decimal_digit(c) || c == '-' || c == '_'
}

/// The number that the decimal digit `c` stands for.
pub fn digit_of(c: char) -> (d: u64)
    requires
        is_decimal_digit(c),
    ensures
        d == digit_value(c),
        d <= 9,
{
    (c as u32 - '0' as u32) as u64
}

} // verus!
