//! Bytes as text.

use vstd::prelude::*;

verus! {

/// The text of bytes that are UTF-8.
pub open spec fn as_text(bytes: Seq<u8>) -> Option<Seq<char>> {
    if vstd::utf8::valid_utf8(bytes) {
        Some(vstd::utf8::decode_utf8(bytes))
    } else {
        None
    }
}

/// The text of any bytes, with replacement characters where they are not
/// UTF-8.
pub uninterp spec fn lossy(bytes: Seq<u8>) -> Seq<char>;

/// The text of any bytes: the text that they encode, where they are UTF-8.
pub open spec fn shown(bytes: Seq<u8>) -> Seq<char> {
    match as_text(bytes) {
        Some(s) => s,
        None => lossy(bytes),
    }
}

/// `String::from_utf8`: succeeds exactly on UTF-8 and gives the text that the
/// bytes encode.
#[verifier::external_body]
fn from_utf8(bytes: &[u8]) -> (r: Option<String>)
    ensures
        match r {
            Some(s) => as_text(bytes@) == Some(s@),
            None => as_text(bytes@) is None,
        },
{
    String::from_utf8(bytes.to_vec()).ok()
}

/// `String::from_utf8_lossy`: the result is a function of the bytes; bytes
/// that are UTF-8 give the text that they encode. Where the replacement
/// characters stand is not stated.
#[verifier::external_body]
fn from_utf8_lossy(bytes: &[u8]) -> (r: String)
    ensures
        r@ == lossy(bytes@),
        vstd::utf8::valid_utf8(bytes@) ==> r@ == vstd::utf8::decode_utf8(bytes@),
{
    String::from_utf8_lossy(bytes).to_string()
}

/// The text of bytes, where they are UTF-8.
pub fn text_of_bytes(bytes: &[u8]) -> (r: Option<String>)
    ensures
        match r {
            Some(s) => as_text(bytes@) == Some(s@),
            None => as_text(bytes@) is None,
        },
{
    from_utf8(bytes)
}

/// The text of any bytes.
pub fn lossy_text(bytes: &[u8]) -> (r: String)
    ensures
        r@ == shown(bytes@),
{
    from_utf8_lossy(bytes)
}

/// The bytes of a text, read back as a text, give the text.
pub proof fn law_text_read_back(s: Seq<char>)
    ensures
        as_text(vstd::utf8::encode_utf8(s)) == Some(s),
{
    broadcast use vstd::utf8::group_utf8_lib;

}

/// Bytes are a text exactly where a text is encoded by them, and then they are
/// that text, also where replacement characters would be allowed.
pub proof fn law_as_text(bytes: Seq<u8>, s: Seq<char>)
    ensures
        as_text(bytes) == Some(s) ==> vstd::utf8::encode_utf8(s) == bytes,
        vstd::utf8::encode_utf8(s) == bytes ==> as_text(bytes) == Some(s) && shown(bytes) == s,
{
    broadcast use vstd::utf8::group_utf8_lib;

    if as_text(bytes) == Some(s) {
        vstd::utf8::decode_utf8_encode_utf8(bytes);
    }
}

} // verus!
