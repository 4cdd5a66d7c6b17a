//! Unicode character properties, taken from std.
//!
//! The full Unicode tables are not restated here: each property gets a
//! name, the std method that decides it, and the plain ASCII facts its
//! documentation gives.

use vstd::prelude::*;

verus! {

/// Whether `c` has the Unicode `Uppercase` property.
pub uninterp spec fn unicode_uppercase(c: char) -> bool;

/// `char::is_uppercase`: the Unicode `Uppercase` property. Stated: the
/// result is [`unicode_uppercase`] of `c`, and on ASCII it holds
/// exactly of `A`..=`Z`. The table for the rest of Unicode is left
/// unsaid.
#[verifier::external_body]
pub(crate) fn is_uppercase(c: char) -> (b: bool)
    ensures
        b == unicode_uppercase(c),
        (c as u32) < 128 ==> (b <==> ('A' <= c && c <= 'Z')),
{
    c.is_uppercase()
}

/// The characters `char::to_uppercase` yields for `c`.
pub uninterp spec fn unicode_upper(c: char) -> Seq<char>;

/// The characters `char::to_lowercase` yields for `c`.
pub uninterp spec fn unicode_lower(c: char) -> Seq<char>;

/// `char::to_uppercase`, collected. Stated: the result is
/// [`unicode_upper`] of `c`, and an ASCII character maps to its ASCII
/// uppercase form alone. The Unicode case tables are left unsaid.
#[verifier::external_body]
pub(crate) fn to_uppercase(c: char) -> (r: Vec<char>)
    ensures
        r@ == unicode_upper(c),
        (c as u32) < 128 ==> r@ == seq![crate::text::ascii_upper_char(c)],
{
    c.to_uppercase().collect()
}

/// `char::to_lowercase`, collected. Stated: the result is
/// [`unicode_lower`] of `c`, and an ASCII character maps to its ASCII
/// lowercase form alone. The Unicode case tables are left unsaid.
#[verifier::external_body]
pub(crate) fn to_lowercase(c: char) -> (r: Vec<char>)
    ensures
        r@ == unicode_lower(c),
        (c as u32) < 128 ==> r@ == seq![crate::text::ascii_lower_char(c)],
{
    c.to_lowercase().collect()
}

/// Whether `c` has the Unicode `Alphabetic` property.
pub uninterp spec fn unicode_alphabetic(c: char) -> bool;

/// `char::is_alphabetic`: the Unicode `Alphabetic` property. Stated:
/// the result is [`unicode_alphabetic`] of `c`, and on ASCII it holds
/// exactly of the letters. The table for the rest of Unicode is left
/// unsaid.
#[verifier::external_body]
pub(crate) fn is_alphabetic(c: char) -> (b: bool)
    ensures
        b == unicode_alphabetic(c),
        (c as u32) < 128 ==> (b <==> (('A' <= c && c <= 'Z') || ('a' <= c && c <= 'z'))),
{
    c.is_alphabetic()
}

/// Whether `c` is alphanumeric in Unicode's sense.
pub uninterp spec fn unicode_alphanumeric(c: char) -> bool;

/// `char::is_alphanumeric`: Unicode `Alphabetic` or `Numeric`. Stated:
/// the result is [`unicode_alphanumeric`] of `c`, and on ASCII it holds
/// exactly of letters and digits. The tables for the rest of Unicode
/// are left unsaid.
#[verifier::external_body]
pub(crate) fn is_alphanumeric(c: char) -> (b: bool)
    ensures
        b == unicode_alphanumeric(c),
        (c as u32) < 128 ==> (b <==> (('A' <= c && c <= 'Z') || ('a' <= c && c <= 'z') || ('0'
            <= c && c <= '9'))),
{
    c.is_alphanumeric()
}

/// The text `str::to_lowercase` yields.
pub uninterp spec fn lowercase_text(s: Seq<char>) -> Seq<char>;

/// `str::to_lowercase`. Stated: the result is [`lowercase_text`] of
/// `s`, and a text of ASCII characters maps character by character to
/// its ASCII lowercase. Unicode case mapping (context-dependent for a
/// final sigma) is left unsaid.
#[verifier::external_body]
pub(crate) fn str_to_lowercase(s: &str) -> (r: String)
    ensures
        r@ == lowercase_text(s@),
        (forall|i: int| 0 <= i < s@.len() ==> (s@[i] as u32) < 128) ==> r@ == crate::text::ascii_lower(
            s@,
        ),
{
    s.to_lowercase()
}

} // verus!
