//! UTF-8 decoding and display widths of characters.

use vstd::prelude::*;
use vstd::utf8::*;
use unicode_width::{UnicodeWidthChar, UnicodeWidthStr};

verus! {

/// Display width, in terminal columns, that the Unicode width tables give to a
/// character at or above U+00A0.
pub uninterp spec fn unicode_column_width(c: char) -> nat;

/// Display width of a character: none for the control characters
/// (below U+0020 and U+007F to U+009F), one column for the other ASCII
/// characters, and the Unicode width tables' value for the rest.
pub open spec fn char_columns(c: char) -> Option<nat> {
    if (c as u32) < 0x20 || (0x7f <= (c as u32) && (c as u32) < 0xa0) {
        None
    } else if (c as u32) < 0x7f {
        Some(1)
    } else {
        Some(unicode_column_width(c))
    }
}

/// `std::str::from_utf8`: claims that it succeeds exactly on well-formed UTF-8,
/// and that the string it then gives holds the characters those bytes encode.
#[verifier::external_body]
pub(crate) fn utf8_str(bytes: &[u8]) -> (r: Option<&str>)
    ensures
        r is Some <==> valid_utf8(bytes@),
        r matches Some(s) ==> s@ == decode_utf8(bytes@),
{
    std::str::from_utf8(bytes).ok()
}

/// `UnicodeWidthChar::width` of unicode-width: claims `None` for control
/// characters, 1 for printable ASCII, and otherwise the table value, which
/// the crate stores in a `u8`.
#[verifier::external_body]
pub(crate) fn char_width(c: char) -> (r: Option<usize>)
    ensures
        r is None <==> ((c as u32) < 0x20 || (0x7f <= (c as u32) && (c as u32) < 0xa0)),
        r matches Some(w) ==> ((c as u32) < 0x7f ==> w == 1) && (0xa0 <= (c as u32) ==> w
            == unicode_column_width(c) && w <= 255),
{
    c.width()
}

/// Display width, in terminal columns, that unicode-width gives to a whole
/// string.
pub uninterp spec fn text_width(s: Seq<char>) -> nat;

/// `UnicodeWidthStr::width` of unicode-width: claims only that the width
/// of a string depends on its characters alone.
#[verifier::external_body]
pub(crate) fn str_width(s: &str) -> (r: usize)
    ensures
        r == text_width(s@),
{
    s.width()
}

/// The length in bytes of the UTF-8 form of a string (`str::len`).
pub open spec fn byte_len(s: Seq<char>) -> usize {
    encode_utf8(s).len() as usize
}

/// The length in bytes of a string.
pub fn str_byte_len(s: &str) -> (r: usize)
    ensures
        r == byte_len(s@),
{
    s.len()
}

/// What `String::from_utf8_lossy` makes of a byte sequence: its decoding,
/// with each ill-formed part replaced by U+FFFD.
pub uninterp spec fn lossy_utf8(bytes: Seq<u8>) -> Seq<char>;

/// `String::from_utf8_lossy`, made owned: claims that the result is the
/// lossy decoding of the bytes, and the plain decoding when they are
/// well-formed UTF-8, as std documents.
#[verifier::external_body]
pub(crate) fn utf8_lossy(bytes: &[u8]) -> (r: String)
    ensures
        r@ == lossy_utf8(bytes@),
        valid_utf8(bytes@) ==> r@ == decode_utf8(bytes@),
{
    String::from_utf8_lossy(bytes).into_owned()
}

} // verus!
