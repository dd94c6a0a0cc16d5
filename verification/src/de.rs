//! The RON deserializer: it reads a document value by value.
//!
//! A value that holds others is read in two steps. The first, `deserialize_seq` and its like, reads
//! up to the content and says what comes; whoever asked then reads the content with the same
//! deserializer and hands the result to the second step, `end_seq` and its like, which reads the
//! rest.
use std::borrow::Cow;
use vstd::prelude::*;
use vstd::utf8::*;
use crate::error::{
    borrowed_text, outcome, passed, Error, ErrorView, SpannedError, SpannedErrorView,
};
use crate::extensions::Extensions;
use crate::options::Options;
use crate::parse::attribute::document;
use crate::parse::{Bytes, BytesView};
use crate::text::{lemma_lossy_text, lossy_text, text_from_utf8_lossy};

pub mod any;
pub mod compound;
pub mod ignored;
pub mod laws;
pub mod list;
pub mod names;
pub mod newtype;
pub mod scalar;

verus! {

/// The RON deserializer.
///
/// If you just want to simply deserialize a value, use a convenience function such as `from_str`.
pub struct Deserializer<'de> {
    bytes: Bytes<'de>,
    newtype_variant: bool,
    last_identifier: Option<&'de str>,
    any_newtype: bool,
}

/// The mathematical value of a [`Deserializer`].
pub struct DeView {
    /// The input and how much of it was read.
    pub bytes: BytesView,
    /// Whether the content of a newtype variant comes next without parentheses of its own.
    pub newtype_variant: bool,
    /// The identifier that was read last.
    pub last_identifier: Option<Seq<char>>,
    /// Whether parentheses around a single value of unknown type can belong to a newtype.
    pub any_newtype: bool,
}

impl<'de> View for Deserializer<'de> {
    type V = DeView;

    closed spec fn view(&self) -> DeView {
        DeView {
            bytes: self.bytes@,
            newtype_variant: self.newtype_variant,
            last_identifier: borrowed_text(self.last_identifier),
            any_newtype: self.any_newtype,
        }
    }
}

impl DeView {
    /// Whether the deserializer is inside its input, or at its end.
    pub open spec fn wf(self) -> bool {
        self.bytes.wf()
    }

    /// The same deserializer with another reader.
    pub open spec fn reading(self, bytes: BytesView) -> DeView {
        DeView { bytes, ..self }
    }

    /// The same deserializer some bytes further on.
    pub open spec fn past(self, count: int) -> DeView {
        self.reading(self.bytes.moved(self.bytes.at + count))
    }

    /// The same deserializer with no newtype variant to unwrap.
    pub open spec fn plain(self) -> DeView {
        DeView { newtype_variant: false, ..self }
    }

    /// What a step of the reader does to the deserializer.
    pub open spec fn step<T>(self, read: (BytesView, Result<T, ErrorView>)) -> (
        DeView,
        Result<T, ErrorView>,
    ) {
        (self.reading(read.0), read.1)
    }

    /// Whether `later` is this deserializer further on in the same input.
    pub open spec fn leads_to(self, later: DeView) -> bool {
        self.bytes.leads_to(later.bytes)
    }

    /// An error at the place that the deserializer has come to.
    pub open spec fn spanned(self, code: ErrorView) -> SpannedErrorView {
        SpannedErrorView { code, position: self.bytes.position() }
    }

    /// Checking that only space is left.
    pub open spec fn end(self) -> (DeView, Result<(), ErrorView>) {
        let (after, result) = self.bytes.skip_ws();
        match result {
            Err(e) => (self.reading(after), Err(e)),
            Ok(_) => (
                self.reading(after),
                if after.at == after.input.len() {
                    Ok(())
                } else {
                    Err(ErrorView::TrailingCharacters)
                },
            ),
        }
    }
}

/// The deserializer that a document is read with: its attributes are read, and their extensions and
/// those of the options are on.
pub open spec fn opened(input: Seq<u8>, options: Options) -> DeView {
    DeView {
        bytes: document(input).0.enabling(options.default_extensions),
        newtype_variant: false,
        last_identifier: None,
        any_newtype: false,
    }
}

/// What opening a document gives: the deserializer, or what is wrong with the attributes and where.
pub open spec fn opens(
    input: Seq<u8>,
    options: Options,
    result: Result<Deserializer, SpannedError>,
) -> bool {
    match document(input).1 {
        Ok(_) => result matches Ok(de) && de@ == opened(input, options) && de@.wf(),
        Err(e) => result matches Err(error) && error.code@ == e && error.position == document(
            input,
        ).0.position(),
    }
}

/// Settings that switch nothing on.
pub open spec fn no_options() -> Options {
    Options { default_extensions: Extensions::none() }
}

impl<'de> Deserializer<'de> {
    /// Opens a document that is a text.
    pub fn from_str(input: &'de str) -> (result: Result<Deserializer<'de>, SpannedError>)
        ensures
            opens(encode_utf8(input@), no_options(), result),
    {
        Self::from_str_with_options(input, Options::default())
    }

    /// Opens a document that is bytes.
    pub fn from_bytes(input: &'de [u8]) -> (result: Result<Deserializer<'de>, SpannedError>)
        ensures
            opens(input@, no_options(), result),
    {
        Self::from_bytes_with_options(input, Options::default())
    }

    /// Opens a document that is a text, with settings.
    pub fn from_str_with_options(input: &'de str, options: Options) -> (result: Result<
        Deserializer<'de>,
        SpannedError,
    >)
        ensures
            opens(encode_utf8(input@), options, result),
    {
        Self::from_bytes_with_options(input.as_bytes(), options)
    }

    /// Opens a document that is bytes, with settings.
    pub fn from_bytes_with_options(input: &'de [u8], options: Options) -> (result: Result<
        Deserializer<'de>,
        SpannedError,
    >)
        ensures
            opens(input@, options, result),
    {
        let mut bytes = match Bytes::new(input) {
            Ok(bytes) => bytes,
            Err(e) => {
                return Err(e);
            },
        };
        bytes.enable(options.default_extensions);
        Ok(
            Deserializer {
                bytes,
                newtype_variant: false,
                last_identifier: None,
                any_newtype: false,
            },
        )
    }

    /// What was not read yet, as text: U+FFFD stands for each sequence of bytes that is none.
    pub fn remainder(&self) -> (rest: Cow<'_, str>)
        requires
            self@.wf(),
        ensures
            rest@ == lossy_text(self@.bytes.rest()),
            valid_utf8(self@.bytes.rest()) ==> rest@ == decode_utf8(self@.bytes.rest()),
            rest is Borrowed <==> valid_utf8(self@.bytes.rest()),
    {
        proof {
            if valid_utf8(self@.bytes.rest()) {
                lemma_lossy_text(self@.bytes.rest());
            }
        }
        text_from_utf8_lossy(self.bytes.bytes())
    }

    /// The error with the place that the deserializer has come to.
    pub fn span_error(&self, code: Error) -> (error: SpannedError)
        requires
            self@.wf(),
        ensures
            error == (SpannedError { code, position: self@.bytes.position() }),
    {
        self.bytes.span_error(code)
    }

    /// Check if the remaining bytes are whitespace only,
    /// otherwise return an error.
    pub fn end(&mut self) -> (done: Result<(), Error>)
        requires
            old(self)@.wf(),
        ensures
            final(self)@.wf(),
            (final(self)@, outcome(done)) == old(self)@.end(),
    {
        self.bytes.skip_ws()?;
        if self.bytes.bytes().is_empty() {
            Ok(())
        } else {
            Err(Error::TrailingCharacters)
        }
    }

    /// Ends reading a document whose value was read to `visited`: nothing but space may follow it.
    /// An error comes with the place at which it was noticed.
    pub fn finish<T>(&mut self, visited: Result<T, Error>) -> (result: Result<T, SpannedError>)
        requires
            old(self)@.wf(),
        ensures
            final(self)@.wf(),
            match passed(visited) {
                Err(e) => {
                    &&& final(self)@ == old(self)@
                    &&& result matches Err(error) && error@ == old(self)@.spanned(e)
                },
                Ok(value) => {
                    let (after, ended) = old(self)@.end();
                    &&& final(self)@ == after
                    &&& match ended {
                        Ok(_) => result == Ok::<T, SpannedError>(value),
                        Err(e) => result matches Err(error) && error@ == after.spanned(e),
                    }
                },
            },
    {
        match visited {
            Err(e) => Err(self.span_error(e)),
            Ok(value) => match self.end() {
                Ok(()) => Ok(value),
                Err(e) => Err(self.span_error(e)),
            },
        }
    }
}

} // verus!
