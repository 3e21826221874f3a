//! Trimming and case folding of text, as the standard library does them.

use vstd::prelude::*;
use vstd::utf8::is_ascii_chars;

verus! {

/// Whether a character is white space: one of the 25 characters that
/// Unicode gives the property White_Space, which is what the standard
/// library goes by.
pub open spec fn is_space(c: char) -> bool {
    let v = c as int;
    ||| 0x09 <= v <= 0x0d
    ||| v == 0x20
    ||| v == 0x85
    ||| v == 0xa0
    ||| v == 0x1680
    ||| 0x2000 <= v <= 0x200a
    ||| v == 0x2028
    ||| v == 0x2029
    ||| v == 0x202f
    ||| v == 0x205f
    ||| v == 0x3000
}

/// The lowercase form that the standard library gives a text that has a
/// character outside ASCII in it.
pub uninterp spec fn unicode_lowercase(text: Seq<char>) -> Seq<char>;

/// A text with each of the letters `A` to `Z` replaced by its small letter.
pub open spec fn ascii_lowercase(text: Seq<char>) -> Seq<char> {
    text.map_values(
        |c: char|
            if 65 <= c as int <= 90 {
                (c as int + 32) as char
            } else {
                c
            },
    )
}

/// The lowercase form of a text: for a text in ASCII, the text with the
/// letters `A` to `Z` made small; for any other, what the standard library
/// gives.
pub open spec fn lowercase_of(text: Seq<char>) -> Seq<char> {
    if is_ascii_chars(text) {
        ascii_lowercase(text)
    } else {
        unicode_lowercase(text)
    }
}

/// A text without the white space at its two ends.
pub open spec fn trimmed(text: Seq<char>) -> Seq<char>
    decreases text.len(),
{
    if text.len() == 0 {
        text
    } else if is_space(text[0]) {
        trimmed(text.drop_first())
    } else if is_space(text.last()) {
        trimmed(text.drop_last())
    } else {
        text
    }
}

/// Calls `str::trim`. Believed of it: the result is the text without the
/// white space characters at its start and at its end.
#[verifier::external_body]
pub(crate) fn trim<'a>(text: &'a str) -> (inner: &'a str)
    ensures
        inner@ == trimmed(text@),
{
    text.trim()
}

/// Calls `str::to_lowercase`. Believed of it: the result depends on the
/// characters of the text alone, and for a text in ASCII it is the text
/// with the letters `A` to `Z` made small and nothing else changed.
#[verifier::external_body]
pub(crate) fn to_lowercase(text: &str) -> (lower: String)
    ensures
        lower@ == if is_ascii_chars(text@) {
            ascii_lowercase(text@)
        } else {
            unicode_lowercase(text@)
        },
        lower@ == lowercase_of(text@),
{
    text.to_lowercase()
}

} // verus!
