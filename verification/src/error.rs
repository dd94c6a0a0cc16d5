//! What can go wrong while reading RON, and where it went wrong.
use vstd::prelude::*;

verus! {

/// A place in the input, counted from one. Columns count bytes.
#[derive(Clone, Copy, Debug, PartialEq, Eq, Structural)]
pub struct Position {
    pub line: usize,
    pub col: usize,
}

/// Why a text is no Base64.
#[derive(Clone, Copy, Debug, PartialEq, Eq, Structural)]
pub enum Base64Error {
    /// A byte outside the alphabet, with its offset.
    InvalidByte(usize, u8),
    /// The text has a length that no encoding has.
    InvalidLength,
    /// The last symbol, at this offset, holds bits that would be dropped.
    InvalidLastSymbol(usize, u8),
}

/// Why some bytes are no UTF-8.
#[derive(Clone, Copy, Debug, PartialEq, Eq)]
pub struct Utf8Error {
    /// How many bytes from the start are well-formed.
    pub valid_up_to: usize,
    /// How many bytes from there on are ill-formed; `None` where the input ends inside a character.
    pub error_len: Option<usize>,
}

/// Everything that reading a RON document can fail with.
#[allow(inconsistent_fields)]
#[derive(Clone, Debug, PartialEq, Eq)]
pub enum Error {
    Io(String),
    Message(String),
    Base64Error(Base64Error),
    Eof,
    ExpectedArray,
    ExpectedArrayEnd,
    ExpectedAttribute,
    ExpectedAttributeEnd,
    ExpectedBoolean,
    ExpectedComma,
    ExpectedChar,
    ExpectedFloat,
    ExpectedInteger,
    ExpectedOption,
    ExpectedOptionEnd,
    ExpectedMap,
    ExpectedMapColon,
    ExpectedMapEnd,
    ExpectedDifferentStructName { expected: &'static str, found: String },
    ExpectedStructLike,
    ExpectedNamedStructLike(&'static str),
    ExpectedStructLikeEnd,
    ExpectedUnit,
    ExpectedString,
    ExpectedStringEnd,
    ExpectedIdentifier,
    ExpectedRawValue,
    InvalidEscape(&'static str),
    IntegerOutOfBounds,
    NoSuchExtension(String),
    UnclosedBlockComment,
    UnderscoreAtBeginning,
    UnexpectedByte(char),
    Utf8Error(Utf8Error),
    TrailingCharacters,
    InvalidValueForType { expected: String, found: String },
    ExpectedDifferentLength { expected: String, found: usize },
    NoSuchEnumVariant {
        expected: &'static [&'static str],
        found: String,
        outer: Option<String>,
    },
    NoSuchStructField {
        expected: &'static [&'static str],
        found: String,
        outer: Option<String>,
    },
    MissingStructField { field: &'static str, outer: Option<String> },
    DuplicateStructField { field: &'static str, outer: Option<String> },
    SuggestRawIdentifier(String),
}

/// The mathematical value of an [`Error`]: strings are sequences of characters.
#[allow(inconsistent_fields)]
pub enum ErrorView {
    Io(Seq<char>),
    Message(Seq<char>),
    Base64Error(Base64Error),
    Eof,
    ExpectedArray,
    ExpectedArrayEnd,
    ExpectedAttribute,
    ExpectedAttributeEnd,
    ExpectedBoolean,
    ExpectedComma,
    ExpectedChar,
    ExpectedFloat,
    ExpectedInteger,
    ExpectedOption,
    ExpectedOptionEnd,
    ExpectedMap,
    ExpectedMapColon,
    ExpectedMapEnd,
    ExpectedDifferentStructName { expected: Seq<char>, found: Seq<char> },
    ExpectedStructLike,
    ExpectedNamedStructLike(Seq<char>),
    ExpectedStructLikeEnd,
    ExpectedUnit,
    ExpectedString,
    ExpectedStringEnd,
    ExpectedIdentifier,
    ExpectedRawValue,
    InvalidEscape(Seq<char>),
    IntegerOutOfBounds,
    NoSuchExtension(Seq<char>),
    UnclosedBlockComment,
    UnderscoreAtBeginning,
    UnexpectedByte(char),
    Utf8Error(Utf8Error),
    TrailingCharacters,
    InvalidValueForType { expected: Seq<char>, found: Seq<char> },
    ExpectedDifferentLength { expected: Seq<char>, found: usize },
    NoSuchEnumVariant {
        expected: Seq<&'static str>,
        found: Seq<char>,
        outer: Option<Seq<char>>,
    },
    NoSuchStructField {
        expected: Seq<&'static str>,
        found: Seq<char>,
        outer: Option<Seq<char>>,
    },
    MissingStructField { field: Seq<char>, outer: Option<Seq<char>> },
    DuplicateStructField { field: Seq<char>, outer: Option<Seq<char>> },
    SuggestRawIdentifier(Seq<char>),
}

/// The characters of an optional owned string.
pub open spec fn owned_text(name: Option<String>) -> Option<Seq<char>> {
    match name {
        Some(text) => Some(text@),
        None => None,
    }
}

/// The characters of an optional borrowed string.
pub open spec fn borrowed_text(name: Option<&str>) -> Option<Seq<char>> {
    match name {
        Some(text) => Some(text@),
        None => None,
    }
}

impl View for Error {
    type V = ErrorView;

    open spec fn view(&self) -> ErrorView {
        match *self {
            Error::Io(text) => ErrorView::Io(text@),
            Error::Message(text) => ErrorView::Message(text@),
            Error::Base64Error(cause) => ErrorView::Base64Error(cause),
            Error::Eof => ErrorView::Eof,
            Error::ExpectedArray => ErrorView::ExpectedArray,
            Error::ExpectedArrayEnd => ErrorView::ExpectedArrayEnd,
            Error::ExpectedAttribute => ErrorView::ExpectedAttribute,
            Error::ExpectedAttributeEnd => ErrorView::ExpectedAttributeEnd,
            Error::ExpectedBoolean => ErrorView::ExpectedBoolean,
            Error::ExpectedComma => ErrorView::ExpectedComma,
            Error::ExpectedChar => ErrorView::ExpectedChar,
            Error::ExpectedFloat => ErrorView::ExpectedFloat,
            Error::ExpectedInteger => ErrorView::ExpectedInteger,
            Error::ExpectedOption => ErrorView::ExpectedOption,
            Error::ExpectedOptionEnd => ErrorView::ExpectedOptionEnd,
            Error::ExpectedMap => ErrorView::ExpectedMap,
            Error::ExpectedMapColon => ErrorView::ExpectedMapColon,
            Error::ExpectedMapEnd => ErrorView::ExpectedMapEnd,
            Error::ExpectedDifferentStructName { expected, found } =>
                ErrorView::ExpectedDifferentStructName { expected: expected@, found: found@ },
            Error::ExpectedStructLike => ErrorView::ExpectedStructLike,
            Error::ExpectedNamedStructLike(name) => ErrorView::ExpectedNamedStructLike(name@),
            Error::ExpectedStructLikeEnd => ErrorView::ExpectedStructLikeEnd,
            Error::ExpectedUnit => ErrorView::ExpectedUnit,
            Error::ExpectedString => ErrorView::ExpectedString,
            Error::ExpectedStringEnd => ErrorView::ExpectedStringEnd,
            Error::ExpectedIdentifier => ErrorView::ExpectedIdentifier,
            Error::ExpectedRawValue => ErrorView::ExpectedRawValue,
            Error::InvalidEscape(reason) => ErrorView::InvalidEscape(reason@),
            Error::IntegerOutOfBounds => ErrorView::IntegerOutOfBounds,
            Error::NoSuchExtension(name) => ErrorView::NoSuchExtension(name@),
            Error::UnclosedBlockComment => ErrorView::UnclosedBlockComment,
            Error::UnderscoreAtBeginning => ErrorView::UnderscoreAtBeginning,
            Error::UnexpectedByte(byte) => ErrorView::UnexpectedByte(byte),
            Error::Utf8Error(cause) => ErrorView::Utf8Error(cause),
            Error::TrailingCharacters => ErrorView::TrailingCharacters,
            Error::InvalidValueForType { expected, found } => ErrorView::InvalidValueForType {
                expected: expected@,
                found: found@,
            },
            Error::ExpectedDifferentLength { expected, found } =>
                ErrorView::ExpectedDifferentLength { expected: expected@, found },
            Error::NoSuchEnumVariant { expected, found, outer } => ErrorView::NoSuchEnumVariant {
                expected: expected@,
                found: found@,
                outer: owned_text(outer),
            },
            Error::NoSuchStructField { expected, found, outer } => ErrorView::NoSuchStructField {
                expected: expected@,
                found: found@,
                outer: owned_text(outer),
            },
            Error::MissingStructField { field, outer } => ErrorView::MissingStructField {
                field: field@,
                outer: owned_text(outer),
            },
            Error::DuplicateStructField { field, outer } => ErrorView::DuplicateStructField {
                field: field@,
                outer: owned_text(outer),
            },
            Error::SuggestRawIdentifier(text) => ErrorView::SuggestRawIdentifier(text@),
        }
    }
}

/// An [`Error`] with the place in the input at which it was noticed.
#[derive(Clone, Debug, PartialEq, Eq)]
pub struct SpannedError {
    pub code: Error,
    pub position: Position,
}

/// The mathematical value of a [`SpannedError`].
pub struct SpannedErrorView {
    pub code: ErrorView,
    pub position: Position,
}

impl View for SpannedError {
    type V = SpannedErrorView;

    open spec fn view(&self) -> SpannedErrorView {
        SpannedErrorView { code: self.code@, position: self.position }
    }
}

/// The mathematical value of what a reading operation returned.
pub open spec fn outcome<T: View>(result: Result<T, Error>) -> Result<T::V, ErrorView> {
    match result {
        Ok(value) => Ok(value@),
        Err(error) => Err(error@),
    }
}

/// What an operation that hands a value through returned: the value itself, or the error's value.
pub open spec fn passed<T>(result: Result<T, Error>) -> Result<T, ErrorView> {
    match result {
        Ok(value) => Ok(value),
        Err(error) => Err(error@),
    }
}

} // verus!
