//! Newtype structs, and values that are kept as the text they are written as.
use vstd::prelude::*;
use crate::de::compound::closed;
use crate::de::ignored::lemma_ignored;
use crate::de::{DeView, Deserializer};
use crate::error::{outcome, passed, Error, ErrorView};
use crate::parse::space::lemma_skip_ws;
use crate::text::{same_text, text_from_utf8, utf8_text};

verus! {

/// The name of the newtype struct that asks for the text of a value.
pub const RAW_VALUE_TOKEN: &'static str = "$ron::private::RawValue";

/// How a newtype struct is written.
#[derive(Clone, Copy, Debug, PartialEq, Eq)]
pub enum NewtypeForm<'de> {
    /// As any value, whose text is asked for.
    Raw(&'de str),
    /// Its content alone.
    Bare,
    /// In parentheses, one of which is to follow.
    Enclosed,
}

/// The mathematical value of a [`NewtypeForm`].
pub enum NewtypeFormView {
    Raw(Seq<char>),
    Bare,
    Enclosed,
}

impl<'de> View for NewtypeForm<'de> {
    type V = NewtypeFormView;

    open spec fn view(&self) -> NewtypeFormView {
        match *self {
            NewtypeForm::Raw(text) => NewtypeFormView::Raw(text@),
            NewtypeForm::Bare => NewtypeFormView::Bare,
            NewtypeForm::Enclosed => NewtypeFormView::Enclosed,
        }
    }
}

impl DeView {
    /// Reading over a value and the space around it: the text that was read over.
    pub open spec fn raw_value(self) -> (DeView, Result<Seq<char>, ErrorView>) {
        let (spaced, result) = self.bytes.skip_ws();
        match result {
            Err(e) => (self.reading(spaced), Err(e)),
            Ok(_) => {
                let (ignored, result) = self.reading(spaced).ignored();
                match result {
                    Err(e) => (ignored, Err(e)),
                    Ok(_) => {
                        let (after, result) = ignored.bytes.skip_ws();
                        (
                            ignored.reading(after),
                            match result {
                                Err(e) => Err(e),
                                Ok(_) => match utf8_text(self.bytes.upto(after.at)) {
                                    Err(cause) => Err(ErrorView::Utf8Error(cause)),
                                    Ok(text) => Ok(text),
                                },
                            },
                        )
                    },
                }
            },
        }
    }

    /// Reading a newtype struct that is written with parentheses up to its content.
    pub open spec fn enclosed_newtype(self, name: Seq<char>) -> (
        DeView,
        Result<NewtypeFormView, ErrorView>,
    ) {
        let (named, result) = self.bytes.struct_name(name);
        match result {
            Err(e) => (self.reading(named), Err(e)),
            Ok(_) => {
                let (spaced, result) = named.skip_ws();
                match result {
                    Err(e) => (self.reading(spaced), Err(e)),
                    Ok(_) => if spaced.peek() == Some('(' as u8) {
                        let (inner, result) = spaced.moved(spaced.at + 1).skip_ws();
                        match result {
                            Err(e) => (self.reading(inner), Err(e)),
                            Ok(_) => (self.reading(inner), Ok(NewtypeFormView::Enclosed)),
                        }
                    } else if name.len() == 0 {
                        (self.reading(spaced), Err(ErrorView::ExpectedStructLike))
                    } else {
                        (self.reading(spaced), Err(ErrorView::ExpectedNamedStructLike(name)))
                    },
                }
            },
        }
    }

    /// Reading a newtype struct up to its content.
    pub open spec fn newtype_struct(self, name: Seq<char>) -> (
        DeView,
        Result<NewtypeFormView, ErrorView>,
    ) {
        if name == RAW_VALUE_TOKEN@ {
            let (after, text) = self.raw_value();
            match text {
                Err(e) => (after, Err(e)),
                Ok(text) => (after, Ok(NewtypeFormView::Raw(text))),
            }
        } else if self.bytes.exts.unwrap_newtypes || self.newtype_variant {
            (self.plain(), Ok(NewtypeFormView::Bare))
        } else {
            self.enclosed_newtype(name)
        }
    }

    /// Reading the rest of a newtype struct.
    pub open spec fn end_newtype_struct<T>(
        self,
        form: NewtypeFormView,
        visited: Result<T, ErrorView>,
    ) -> (DeView, Result<T, ErrorView>) {
        match form {
            NewtypeFormView::Raw(_) => (
                self,
                match visited {
                    Err(_) => Err(ErrorView::ExpectedRawValue),
                    Ok(value) => Ok(value),
                },
            ),
            NewtypeFormView::Bare => (self, visited),
            NewtypeFormView::Enclosed => closed(
                self,
                true,
                ')',
                ErrorView::ExpectedStructLikeEnd,
                visited,
            ),
        }
    }
}

impl<'de> Deserializer<'de> {
    /// Reads over a value and the space around it: the text that was read over.
    pub fn raw_value(&mut self) -> (found: Result<&'de str, Error>)
        requires
            old(self)@.wf(),
        ensures
            final(self)@.wf(),
            (final(self)@, outcome(found)) == old(self)@.raw_value(),
    {
        proof {
            lemma_skip_ws(self@.bytes);
        }
        let before = self.bytes.offset();
        self.bytes.skip_ws()?;
        proof {
            lemma_ignored(self@);
            lemma_skip_ws(self@.ignored().0.bytes);
        }
        self.ignore_any()?;
        self.bytes.skip_ws()?;
        let after = self.bytes.offset();
        match text_from_utf8(self.bytes.part(before, after)) {
            Ok(text) => Ok(text),
            Err(cause) => Err(Error::Utf8Error(cause)),
        }
    }

    /// Reads a newtype struct up to its content. [`Deserializer::end_newtype_struct`] reads the
    /// rest.
    pub fn deserialize_newtype_struct(&mut self, name: &'static str) -> (found: Result<
        NewtypeForm<'de>,
        Error,
    >)
        requires
            old(self)@.wf(),
        ensures
            final(self)@.wf(),
            (final(self)@, outcome(found)) == old(self)@.newtype_struct(name@),
    {
        if same_text(name, RAW_VALUE_TOKEN) {
            return Ok(NewtypeForm::Raw(self.raw_value()?));
        }
        if self.bytes.exts().unwrap_newtypes || self.newtype_variant {
            self.newtype_variant = false;
            return Ok(NewtypeForm::Bare);
        }
        self.bytes.consume_struct_name(name)?;
        self.bytes.skip_ws()?;
        if self.bytes.consume_byte('(' as u8) {
            self.bytes.skip_ws()?;
            Ok(NewtypeForm::Enclosed)
        } else if name.is_empty() {
            Err(Error::ExpectedStructLike)
        } else {
            Err(Error::ExpectedNamedStructLike(name))
        }
    }

    /// Reads the rest of a newtype struct.
    pub fn end_newtype_struct<T>(&mut self, form: NewtypeForm, visited: Result<T, Error>) -> (result:
        Result<T, Error>)
        requires
            old(self)@.wf(),
        ensures
            final(self)@.wf(),
            (final(self)@, passed(result)) == old(self)@.end_newtype_struct(form@, passed(visited)),
    {
        match form {
            NewtypeForm::Raw(_) => match visited {
                Ok(value) => Ok(value),
                Err(_) => Err(Error::ExpectedRawValue),
            },
            NewtypeForm::Bare => visited,
            NewtypeForm::Enclosed => self.close(
                true,
                ')',
                Error::ExpectedStructLikeEnd,
                visited,
            ),
        }
    }
}

} // verus!
