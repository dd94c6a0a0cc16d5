//! Characters and bytes.
use std::borrow::Cow;
use vstd::prelude::*;
use vstd::utf8::*;
use crate::error::Utf8Error;

verus! {

/// The text that ASCII bytes stand for.
pub open spec fn ascii_text(bytes: Seq<u8>) -> Seq<char> {
    Seq::new(bytes.len(), |i: int| bytes[i] as char)
}

/// Whether every byte is an ASCII character.
pub open spec fn is_ascii_bytes(bytes: Seq<u8>) -> bool {
    forall|i: int| 0 <= i < bytes.len() ==> #[trigger] bytes[i] < 0x80
}

/// ASCII bytes are UTF-8, and decode byte by byte.
pub proof fn lemma_ascii_text(bytes: Seq<u8>)
    requires
        is_ascii_bytes(bytes),
    ensures
        valid_utf8(bytes),
        decode_utf8(bytes) == ascii_text(bytes),
{
    let chars = ascii_text(bytes);
    assert(is_ascii_chars(chars));
    is_ascii_chars_encode_utf8(chars);
    assert forall|i: int| 0 <= i < bytes.len() implies encode_utf8(chars)[i] == bytes[i] by {
        assert(chars[i] as u8 == bytes[i]);
    }
    assert(encode_utf8(chars) =~= bytes);
    encode_utf8_valid_utf8(chars);
    encode_utf8_decode_utf8(chars);
}

/// How many bytes from the start are well-formed UTF-8.
pub open spec fn valid_prefix_len(bytes: Seq<u8>) -> int
    decreases bytes.len(),
{
    if bytes.len() == 0 || !valid_first_scalar(bytes) {
        0
    } else {
        length_of_first_scalar(bytes) + valid_prefix_len(pop_first_scalar(bytes))
    }
}

/// How many bytes are ill-formed after the longest well-formed prefix, as
/// `std::str::Utf8Error::error_len` reports it.
pub uninterp spec fn utf8_error_len(bytes: Seq<u8>) -> Option<usize>;

/// What reading the bytes as UTF-8 gives: their text, or what is wrong with them.
pub open spec fn utf8_text(bytes: Seq<u8>) -> Result<Seq<char>, Utf8Error> {
    if valid_utf8(bytes) {
        Ok(decode_utf8(bytes))
    } else {
        Err(
            Utf8Error {
                valid_up_to: valid_prefix_len(bytes) as usize,
                error_len: utf8_error_len(bytes),
            },
        )
    }
}

/// `std::str::from_utf8`: the text of well-formed bytes, and of others the length of the longest
/// well-formed prefix. How long the ill-formed sequence after it is has a name only.
#[verifier::external_body]
pub(crate) fn text_from_utf8<'a>(bytes: &'a [u8]) -> (text: Result<&'a str, Utf8Error>)
    ensures
        match text {
            Ok(text) => utf8_text(bytes@) == Ok::<Seq<char>, Utf8Error>(text@),
            Err(cause) => utf8_text(bytes@) == Err::<Seq<char>, Utf8Error>(cause),
        },
        text matches Err(cause) ==> cause.error_len == utf8_error_len(bytes@),
{
    match std::str::from_utf8(bytes) {
        Ok(text) => Ok(text),
        Err(e) => Err(Utf8Error { valid_up_to: e.valid_up_to(), error_len: e.error_len() }),
    }
}

/// The bytes as text, U+FFFD standing for each ill-formed sequence. One that the input ends inside
/// of is the last.
pub open spec fn lossy_text(bytes: Seq<u8>) -> Seq<char>
    decreases bytes.len(),
{
    if bytes.len() == 0 {
        seq![]
    } else if valid_first_scalar(bytes) {
        seq![decode_first_scalar(bytes) as char] + lossy_text(pop_first_scalar(bytes))
    } else {
        seq!['\u{FFFD}'] + (match utf8_error_len(bytes) {
            Some(len) => if 0 < len <= bytes.len() {
                lossy_text(bytes.skip(len as int))
            } else {
                seq![]
            },
            None => seq![],
        })
    }
}

/// Well-formed bytes are read as the text that they are.
pub proof fn lemma_lossy_text(bytes: Seq<u8>)
    requires
        valid_utf8(bytes),
    ensures
        lossy_text(bytes) == decode_utf8(bytes),
    decreases bytes.len(),
{
    if bytes.len() > 0 {
        lemma_lossy_text(pop_first_scalar(bytes));
    }
}

/// `String::from_utf8_lossy`: the text of well-formed bytes as it is, borrowed; of others an owned
/// text in which U+FFFD stands for each ill-formed sequence, decoding being resumed after it. How
/// long such a sequence is has the name that `std::str::from_utf8` reports it by.
#[verifier::external_body]
pub(crate) fn text_from_utf8_lossy(bytes: &[u8]) -> (text: Cow<'_, str>)
    ensures
        text@ == lossy_text(bytes@),
        text is Borrowed <==> valid_utf8(bytes@),
{
    String::from_utf8_lossy(bytes)
}

/// `char::from_u32`: the character with this scalar value, where there is one.
#[verifier::external_body]
pub(crate) fn char_from_u32(value: u32) -> (found: Option<char>)
    ensures
        found == (if is_scalar(value) {
            Some(value as char)
        } else {
            None
        }),
{
    char::from_u32(value)
}

/// Appends a character's UTF-8 encoding.
pub(crate) fn push_char(bytes: &mut Vec<u8>, c: char)
    ensures
        final(bytes)@ == old(bytes)@ + encode_scalar(c as u32),
{
    let v: u32 = c as u32;
    proof {
        char_is_scalar(c);
    }
    if v <= 0x7F {
        bytes.push((v & 0x7F) as u8);
    } else if v <= 0x7FF {
        bytes.push(0xC0 | ((v >> 6) & 0x1F) as u8);
        bytes.push(0x80 | (v & 0x3F) as u8);
    } else if v <= 0xFFFF {
        bytes.push(0xE0 | ((v >> 12) & 0x0F) as u8);
        bytes.push(0x80 | ((v >> 6) & 0x3F) as u8);
        bytes.push(0x80 | (v & 0x3F) as u8);
    } else {
        bytes.push(0xF0 | ((v >> 18) & 0x7) as u8);
        bytes.push(0x80 | ((v >> 12) & 0x3F) as u8);
        bytes.push(0x80 | ((v >> 6) & 0x3F) as u8);
        bytes.push(0x80 | (v & 0x3F) as u8);
    }
    assert(bytes@ =~= old(bytes)@ + encode_scalar(c as u32));
}

/// Whether two byte strings are equal.
pub(crate) fn same_bytes(a: &[u8], b: &[u8]) -> (same: bool)
    ensures
        same == (a@ == b@),
{
    if a.len() != b.len() {
        return false;
    }
    let mut i: usize = 0;
    while i < a.len()
        invariant
            i <= a.len(),
            a@.len() == b@.len(),
            forall|j: int| 0 <= j < i ==> a@[j] == b@[j],
        decreases a.len() - i,
    {
        if a[i] != b[i] {
            return false;
        }
        i = i + 1;
    }
    assert(a@ =~= b@);
    true
}

/// Whether two texts are equal.
pub(crate) fn same_text(a: &str, b: &str) -> (same: bool)
    ensures
        same == (a@ == b@),
{
    proof {
        encode_utf8_decode_utf8(a@);
        encode_utf8_decode_utf8(b@);
    }
    same_bytes(a.as_bytes(), b.as_bytes())
}

} // verus!
