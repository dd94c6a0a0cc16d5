//! Values that hold no others.
use vstd::prelude::*;
use vstd::utf8::*;
use crate::de::{DeView, Deserializer};
use crate::error::{outcome, Base64Error, Error, ErrorView};
use crate::parse::ident::ascii_str;
use crate::parse::literal::{lemma_string, ParsedStr};
use crate::text::ascii_text;

verus! {

/// What `base64::decode` makes of a text.
pub uninterp spec fn base64_decoded(text: Seq<char>) -> Result<Seq<u8>, Base64Error>;

/// `base64::decode` with its standard alphabet: the bytes that a text encodes, or why it encodes
/// none. What the bytes are has a name only. The length limit is the one that every Rust object
/// has; beyond it the sizes that the decoder computes could overflow, which it panics on.
#[verifier::external_body]
fn decode_base64(text: &str) -> (decoded: Result<Vec<u8>, Base64Error>)
    requires
        encode_utf8(text@).len() <= isize::MAX,
    ensures
        match decoded {
            Ok(bytes) => base64_decoded(text@) == Ok::<Seq<u8>, Base64Error>(bytes@),
            Err(cause) => base64_decoded(text@) == Err::<Seq<u8>, Base64Error>(cause),
        },
{
    match base64::decode(text) {
        Ok(bytes) => Ok(bytes),
        Err(base64::DecodeError::InvalidByte(at, byte)) => Err(Base64Error::InvalidByte(at, byte)),
        Err(base64::DecodeError::InvalidLength) => Err(Base64Error::InvalidLength),
        Err(base64::DecodeError::InvalidLastSymbol(at, byte)) => {
            Err(Base64Error::InvalidLastSymbol(at, byte))
        },
    }
}

/// What a byte buffer comes to once its text was decoded.
pub open spec fn byte_buf_outcome(decoded: Result<Seq<u8>, Base64Error>) -> Result<
    Seq<u8>,
    ErrorView,
> {
    match decoded {
        Ok(bytes) => Ok(bytes),
        Err(cause) => Err(ErrorView::Base64Error(cause)),
    }
}

/// What a byte buffer comes to once its text was decoded.
pub fn byte_buf_from(decoded: Result<Vec<u8>, Base64Error>) -> (bytes: Result<Vec<u8>, Error>)
    ensures
        outcome(bytes) == byte_buf_outcome(
            match decoded {
                Ok(bytes) => Ok(bytes@),
                Err(cause) => Err(cause),
            },
        ),
{
    match decoded {
        Ok(bytes) => Ok(bytes),
        Err(cause) => Err(Error::Base64Error(cause)),
    }
}

impl DeView {
    /// Reading a byte buffer: a string in Base64.
    pub open spec fn byte_buf(self) -> (DeView, Result<Seq<u8>, ErrorView>) {
        let (after, text) = self.bytes.string();
        (
            self.reading(after),
            match text {
                Err(e) => Err(e),
                Ok(text) => byte_buf_outcome(base64_decoded(text.text())),
            },
        )
    }

    /// Reading an identifier, which is kept as the last one.
    pub open spec fn identifier(self) -> (DeView, Result<Seq<char>, ErrorView>) {
        let (after, ident) = self.bytes.identifier();
        match ident {
            Err(e) => (self.reading(after), Err(e)),
            Ok(ident) => (
                DeView {
                    bytes: after,
                    last_identifier: Some(ascii_text(ident)),
                    ..self
                },
                Ok(ascii_text(ident)),
            ),
        }
    }
}

impl<'de> Deserializer<'de> {
    /// Reads `true` or `false`.
    pub fn deserialize_bool(&mut self) -> (found: Result<bool, Error>)
        requires
            old(self)@.wf(),
        ensures
            final(self)@.wf(),
            (final(self)@, outcome(found)) == old(self)@.step(old(self)@.bytes.bool()),
    {
        self.bytes.bool()
    }

    /// Reads an `i8`.
    pub fn deserialize_i8(&mut self) -> (found: Result<i8, Error>)
        requires
            old(self)@.wf(),
        ensures
            final(self)@.wf(),
            ({
                let (after, number) = old(self)@.bytes.signed_integer(
                    -(i8::MIN as int),
                    i8::MAX as int,
                );
                &&& final(self)@ == old(self)@.reading(after)
                &&& match number {
                    Ok(value) => found matches Ok(n) && n == value,
                    Err(e) => found matches Err(error) && error@ == e,
                }
            }),
    {
        let value = self.bytes.signed_integer(0x80, i8::MAX as u128)?;
        Ok(value as i8)
    }

    /// Reads an `i16`.
    pub fn deserialize_i16(&mut self) -> (found: Result<i16, Error>)
        requires
            old(self)@.wf(),
        ensures
            final(self)@.wf(),
            ({
                let (after, number) = old(self)@.bytes.signed_integer(
                    -(i16::MIN as int),
                    i16::MAX as int,
                );
                &&& final(self)@ == old(self)@.reading(after)
                &&& match number {
                    Ok(value) => found matches Ok(n) && n == value,
                    Err(e) => found matches Err(error) && error@ == e,
                }
            }),
    {
        let value = self.bytes.signed_integer(0x8000, i16::MAX as u128)?;
        Ok(value as i16)
    }

    /// Reads an `i32`.
    pub fn deserialize_i32(&mut self) -> (found: Result<i32, Error>)
        requires
            old(self)@.wf(),
        ensures
            final(self)@.wf(),
            ({
                let (after, number) = old(self)@.bytes.signed_integer(
                    -(i32::MIN as int),
                    i32::MAX as int,
                );
                &&& final(self)@ == old(self)@.reading(after)
                &&& match number {
                    Ok(value) => found matches Ok(n) && n == value,
                    Err(e) => found matches Err(error) && error@ == e,
                }
            }),
    {
        let value = self.bytes.signed_integer(0x8000_0000, i32::MAX as u128)?;
        Ok(value as i32)
    }

    /// Reads an `i64`.
    pub fn deserialize_i64(&mut self) -> (found: Result<i64, Error>)
        requires
            old(self)@.wf(),
        ensures
            final(self)@.wf(),
            ({
                let (after, number) = old(self)@.bytes.signed_integer(
                    -(i64::MIN as int),
                    i64::MAX as int,
                );
                &&& final(self)@ == old(self)@.reading(after)
                &&& match number {
                    Ok(value) => found matches Ok(n) && n == value,
                    Err(e) => found matches Err(error) && error@ == e,
                }
            }),
    {
        let value = self.bytes.signed_integer(0x8000_0000_0000_0000, i64::MAX as u128)?;
        Ok(value as i64)
    }

    /// Reads an `i128`.
    pub fn deserialize_i128(&mut self) -> (found: Result<i128, Error>)
        requires
            old(self)@.wf(),
        ensures
            final(self)@.wf(),
            ({
                let (after, number) = old(self)@.bytes.signed_integer(
                    -(i128::MIN as int),
                    i128::MAX as int,
                );
                &&& final(self)@ == old(self)@.reading(after)
                &&& match number {
                    Ok(value) => found matches Ok(n) && n == value,
                    Err(e) => found matches Err(error) && error@ == e,
                }
            }),
    {
        let value = self.bytes.signed_integer(0x8000_0000_0000_0000_0000_0000_0000_0000, i128::MAX as u128)?;
        Ok(value)
    }

    /// Reads a `u8`.
    pub fn deserialize_u8(&mut self) -> (found: Result<u8, Error>)
        requires
            old(self)@.wf(),
        ensures
            final(self)@.wf(),
            ({
                let (after, number) = old(self)@.bytes.unsigned_integer(u8::MAX as int);
                &&& final(self)@ == old(self)@.reading(after)
                &&& match number {
                    Ok(value) => found matches Ok(n) && n == value,
                    Err(e) => found matches Err(error) && error@ == e,
                }
            }),
    {
        let value = self.bytes.unsigned_integer(u8::MAX as u128)?;
        Ok(value as u8)
    }

    /// Reads a `u16`.
    pub fn deserialize_u16(&mut self) -> (found: Result<u16, Error>)
        requires
            old(self)@.wf(),
        ensures
            final(self)@.wf(),
            ({
                let (after, number) = old(self)@.bytes.unsigned_integer(u16::MAX as int);
                &&& final(self)@ == old(self)@.reading(after)
                &&& match number {
                    Ok(value) => found matches Ok(n) && n == value,
                    Err(e) => found matches Err(error) && error@ == e,
                }
            }),
    {
        let value = self.bytes.unsigned_integer(u16::MAX as u128)?;
        Ok(value as u16)
    }

    /// Reads a `u32`.
    pub fn deserialize_u32(&mut self) -> (found: Result<u32, Error>)
        requires
            old(self)@.wf(),
        ensures
            final(self)@.wf(),
            ({
                let (after, number) = old(self)@.bytes.unsigned_integer(u32::MAX as int);
                &&& final(self)@ == old(self)@.reading(after)
                &&& match number {
                    Ok(value) => found matches Ok(n) && n == value,
                    Err(e) => found matches Err(error) && error@ == e,
                }
            }),
    {
        let value = self.bytes.unsigned_integer(u32::MAX as u128)?;
        Ok(value as u32)
    }

    /// Reads a `u64`.
    pub fn deserialize_u64(&mut self) -> (found: Result<u64, Error>)
        requires
            old(self)@.wf(),
        ensures
            final(self)@.wf(),
            ({
                let (after, number) = old(self)@.bytes.unsigned_integer(u64::MAX as int);
                &&& final(self)@ == old(self)@.reading(after)
                &&& match number {
                    Ok(value) => found matches Ok(n) && n == value,
                    Err(e) => found matches Err(error) && error@ == e,
                }
            }),
    {
        let value = self.bytes.unsigned_integer(u64::MAX as u128)?;
        Ok(value as u64)
    }

    /// Reads a `u128`.
    pub fn deserialize_u128(&mut self) -> (found: Result<u128, Error>)
        requires
            old(self)@.wf(),
        ensures
            final(self)@.wf(),
            ({
                let (after, number) = old(self)@.bytes.unsigned_integer(u128::MAX as int);
                &&& final(self)@ == old(self)@.reading(after)
                &&& match number {
                    Ok(value) => found matches Ok(n) && n == value,
                    Err(e) => found matches Err(error) && error@ == e,
                }
            }),
    {
        let value = self.bytes.unsigned_integer(u128::MAX)?;
        Ok(value)
    }

    /// Reads a floating point number: its text, which `f32::from_str` accepts.
    pub fn deserialize_f32(&mut self) -> (found: Result<&'de str, Error>)
        requires
            old(self)@.wf(),
        ensures
            final(self)@.wf(),
            (final(self)@, outcome(found)) == old(self)@.step(old(self)@.bytes.float()),
    {
        self.bytes.float()
    }

    /// Reads a floating point number: its text, which `f64::from_str` accepts.
    pub fn deserialize_f64(&mut self) -> (found: Result<&'de str, Error>)
        requires
            old(self)@.wf(),
        ensures
            final(self)@.wf(),
            (final(self)@, outcome(found)) == old(self)@.step(old(self)@.bytes.float()),
    {
        self.bytes.float()
    }

    /// Reads a character.
    pub fn deserialize_char(&mut self) -> (found: Result<char, Error>)
        requires
            old(self)@.wf(),
        ensures
            final(self)@.wf(),
            (final(self)@, outcome(found)) == old(self)@.step(old(self)@.bytes.char()),
    {
        self.bytes.char()
    }

    /// Reads a string, borrowed from the input where it holds no escape.
    pub fn deserialize_str(&mut self) -> (found: Result<ParsedStr<'de>, Error>)
        requires
            old(self)@.wf(),
        ensures
            final(self)@.wf(),
            (final(self)@, outcome(found)) == old(self)@.step(old(self)@.bytes.string()),
    {
        self.bytes.string()
    }

    /// Reads a string, borrowed from the input where it holds no escape.
    pub fn deserialize_string(&mut self) -> (found: Result<ParsedStr<'de>, Error>)
        requires
            old(self)@.wf(),
        ensures
            final(self)@.wf(),
            (final(self)@, outcome(found)) == old(self)@.step(old(self)@.bytes.string()),
    {
        self.deserialize_str()
    }

    /// Reads a byte buffer: a string in Base64.
    pub fn deserialize_bytes(&mut self) -> (found: Result<Vec<u8>, Error>)
        requires
            old(self)@.wf(),
            old(self)@.bytes.input.len() <= isize::MAX,
        ensures
            final(self)@.wf(),
            (final(self)@, outcome(found)) == old(self)@.byte_buf(),
    {
        self.deserialize_byte_buf()
    }

    /// Reads a byte buffer: a string in Base64.
    pub fn deserialize_byte_buf(&mut self) -> (found: Result<Vec<u8>, Error>)
        requires
            old(self)@.wf(),
            old(self)@.bytes.input.len() <= isize::MAX,
        ensures
            final(self)@.wf(),
            (final(self)@, outcome(found)) == old(self)@.byte_buf(),
    {
        proof {
            lemma_string(self@.bytes);
        }
        let string = self.bytes.string()?;
        byte_buf_from(decode_base64(string.as_str()))
    }

    /// Reads an identifier, which is kept as the last one.
    pub fn deserialize_identifier(&mut self) -> (found: Result<&'de str, Error>)
        requires
            old(self)@.wf(),
        ensures
            final(self)@.wf(),
            (final(self)@, outcome(found)) == old(self)@.identifier(),
    {
        let identifier = ascii_str(self.bytes.identifier()?);
        self.last_identifier = Some(identifier);
        Ok(identifier)
    }
}

} // verus!
