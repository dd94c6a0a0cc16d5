//! The content of sequences, tuples, maps and structs: elements and entries with commas between
//! them.
use vstd::prelude::*;
use crate::de::{DeView, Deserializer};
use crate::error::{outcome, passed, Error, ErrorView};
use crate::parse::space::lemma_skip_ws;
use crate::text::{text_from_utf8, utf8_text};

verus! {

/// How far a list of elements or entries has been read: which byte ends it, and whether an element
/// may come next, which a comma or the start of the list allows.
#[derive(Clone, Copy, Debug, PartialEq, Eq, Structural)]
pub struct CommaSeparated {
    pub terminator: u8,
    pub had_comma: bool,
}

/// How the key of a map's entry is written.
#[derive(Clone, Copy, Debug, PartialEq, Eq, Structural)]
pub enum KeyForm {
    /// As an identifier: the name of a field.
    Identifier,
    /// As any value.
    Value,
}

impl CommaSeparated {
    /// The list before its first element.
    pub open spec fn fresh(terminator: u8) -> CommaSeparated {
        CommaSeparated { terminator, had_comma: true }
    }

    /// The list after an element that a comma followed, or did not.
    pub open spec fn after(self, comma: bool) -> CommaSeparated {
        CommaSeparated { had_comma: comma, ..self }
    }

    /// How the keys of this list are written.
    pub open spec fn key_form(self) -> KeyForm {
        if self.terminator == ')' as u8 {
            KeyForm::Identifier
        } else {
            KeyForm::Value
        }
    }
}

impl DeView {
    /// Reading up to the next element of a list: whether there is one.
    pub open spec fn has_element(self, list: CommaSeparated) -> (DeView, Result<bool, ErrorView>) {
        let (spaced, result) = self.bytes.skip_ws();
        (
            self.reading(spaced),
            match result {
                Err(e) => Err(e),
                Ok(_) => match spaced.peek() {
                    None => Err(ErrorView::Eof),
                    Some(c) => if c == list.terminator {
                        Ok(false)
                    } else if list.had_comma {
                        Ok(true)
                    } else {
                        Err(ErrorView::ExpectedComma)
                    },
                },
            },
        )
    }

    /// Reading on after an element that was read to `visited`: the list, and the element.
    pub open spec fn end_element<T>(self, list: CommaSeparated, visited: Result<T, ErrorView>) -> (
        DeView,
        CommaSeparated,
        Result<T, ErrorView>,
    ) {
        match visited {
            Err(e) => (self, list, Err(e)),
            Ok(value) => {
                let (after, comma) = self.bytes.comma();
                match comma {
                    Err(e) => (self.reading(after), list, Err(e)),
                    Ok(comma) => (self.reading(after), list.after(comma), Ok(value)),
                }
            },
        }
    }

    /// Reading up to the key of the next entry of a list: how it is written, if there is one.
    pub open spec fn next_key(self, list: CommaSeparated) -> (
        DeView,
        Result<Option<KeyForm>, ErrorView>,
    ) {
        let (de, more) = self.has_element(list);
        match more {
            Err(e) => (de, Err(e)),
            Ok(more) => (
                de,
                Ok(
                    if more {
                        Some(list.key_form())
                    } else {
                        None
                    },
                ),
            ),
        }
    }

    /// Reading the colon between a key and its value.
    pub open spec fn colon(self) -> (DeView, Result<(), ErrorView>) {
        let (spaced, result) = self.bytes.skip_ws();
        match result {
            Err(e) => (self.reading(spaced), Err(e)),
            Ok(_) => if spaced.peek() == Some(':' as u8) {
                self.step(spaced.moved(spaced.at + 1).skip_ws())
            } else {
                (self.reading(spaced), Err(ErrorView::ExpectedMapColon))
            },
        }
    }

    /// Reading up to the value of a map that has one entry, with newtypes of any kind allowed.
    pub open spec fn singleton_value(self) -> (DeView, Result<bool, ErrorView>) {
        let (spaced, result) = self.bytes.skip_ws();
        match result {
            Err(e) => (self.reading(spaced), Err(e)),
            Ok(_) => (DeView { bytes: spaced, any_newtype: true, ..self }, Ok(self.any_newtype)),
        }
    }

    /// The same deserializer with newtypes of any kind allowed or not.
    pub open spec fn allowing(self, any_newtype: bool) -> DeView {
        DeView { any_newtype, ..self }
    }
}

/// Reading up to an element only moves forward and touches the reader alone.
pub proof fn lemma_has_element(de: DeView, list: CommaSeparated)
    requires
        de.wf(),
    ensures
        de.leads_to(de.has_element(list).0),
        de.has_element(list).0 == de.reading(de.has_element(list).0.bytes),
{
    lemma_skip_ws(de.bytes);
}

impl CommaSeparated {
    /// Starts a list before its first element.
    pub fn new(terminator: u8) -> (list: CommaSeparated)
        ensures
            list == CommaSeparated::fresh(terminator),
    {
        CommaSeparated { terminator, had_comma: true }
    }

    /// Reads up to the next element: whether there is one.
    pub fn has_element(&self, de: &mut Deserializer) -> (more: Result<bool, Error>)
        requires
            old(de)@.wf(),
        ensures
            final(de)@.wf(),
            (final(de)@, outcome(more)) == old(de)@.has_element(*self),
    {
        de.bytes.skip_ws()?;
        let next = de.bytes.peek_or_eof()?;
        match (self.had_comma, next != self.terminator) {
            // Trailing comma, maybe has a next element
            (true, has_element) => Ok(has_element),
            // No trailing comma but terminator
            (false, false) => Ok(false),
            // No trailing comma or terminator
            (false, true) => Err(Error::ExpectedComma),
        }
    }

    /// Reads up to the next element: whether there is one. [`CommaSeparated::end_element`] reads on
    /// after it.
    pub fn next_element_seed(&self, de: &mut Deserializer) -> (more: Result<bool, Error>)
        requires
            old(de)@.wf(),
        ensures
            final(de)@.wf(),
            (final(de)@, outcome(more)) == old(de)@.has_element(*self),
    {
        self.has_element(de)
    }

    /// Reads on after an element that was read to `visited`: a comma, or the end of the list.
    pub fn end_element<T>(&mut self, de: &mut Deserializer, visited: Result<T, Error>) -> (result:
        Result<T, Error>)
        requires
            old(de)@.wf(),
        ensures
            final(de)@.wf(),
            (final(de)@, *final(self), passed(result)) == old(de)@.end_element(
                *old(self),
                passed(visited),
            ),
    {
        let value = visited?;
        let had_comma = de.bytes.comma()?;
        self.had_comma = had_comma;
        Ok(value)
    }

    /// Reads up to the key of the next entry: how it is written, if there is one.
    pub fn next_key_seed(&self, de: &mut Deserializer) -> (key: Result<Option<KeyForm>, Error>)
        requires
            old(de)@.wf(),
        ensures
            final(de)@.wf(),
            (final(de)@, passed(key)) == old(de)@.next_key(*self),
    {
        if self.has_element(de)? {
            if self.terminator == ')' as u8 {
                Ok(Some(KeyForm::Identifier))
            } else {
                Ok(Some(KeyForm::Value))
            }
        } else {
            Ok(None)
        }
    }

    /// Reads the colon between a key and its value. [`CommaSeparated::end_element`] reads on after
    /// the value.
    pub fn next_value_seed(&self, de: &mut Deserializer) -> (done: Result<(), Error>)
        requires
            old(de)@.wf(),
        ensures
            final(de)@.wf(),
            (final(de)@, outcome(done)) == old(de)@.colon(),
    {
        de.bytes.skip_ws()?;
        if de.bytes.consume_byte(':' as u8) {
            de.bytes.skip_ws()
        } else {
            Err(Error::ExpectedMapColon)
        }
    }
}

/// A map with one entry, whose key was read: what a name with parentheses after it comes to.
#[derive(Clone, Copy, Debug, PartialEq, Eq)]
pub struct SingletonMap<'de> {
    pub key: Option<&'de [u8]>,
}

/// The mathematical value of a [`SingletonMap`].
pub struct SingletonMapView {
    pub key: Option<Seq<u8>>,
}

impl<'de> View for SingletonMap<'de> {
    type V = SingletonMapView;

    open spec fn view(&self) -> SingletonMapView {
        SingletonMapView {
            key: match self.key {
                Some(key) => Some(key@),
                None => None,
            },
        }
    }
}

impl<'de> SingletonMap<'de> {
    /// Hands the key out, once.
    pub fn next_key_seed(&mut self) -> (key: Result<Option<&'de str>, Error>)
        ensures
            final(self)@.key is None,
            match old(self)@.key {
                None => key matches Ok(None),
                Some(bytes) => match utf8_text(bytes) {
                    Ok(text) => key matches Ok(Some(found)) && found@ == text,
                    Err(cause) => key == Err::<Option<&'de str>, Error>(Error::Utf8Error(cause)),
                },
            },
    {
        let key = self.key;
        self.key = None;
        match key {
            None => Ok(None),
            Some(bytes) => match text_from_utf8(bytes) {
                Ok(text) => Ok(Some(text)),
                Err(cause) => Err(Error::Utf8Error(cause)),
            },
        }
    }

    /// Reads up to the value, with newtypes of any kind allowed: whether they were before.
    /// [`SingletonMap::end_value`] puts that back.
    pub fn next_value_seed(&self, de: &mut Deserializer) -> (before: Result<bool, Error>)
        requires
            old(de)@.wf(),
        ensures
            final(de)@.wf(),
            (final(de)@, outcome(before)) == old(de)@.singleton_value(),
    {
        de.bytes.skip_ws()?;
        let old_any_newtype = de.any_newtype;
        de.any_newtype = true;
        Ok(old_any_newtype)
    }

    /// Ends reading the value, whatever it was read to.
    pub fn end_value<T>(
        &self,
        de: &mut Deserializer,
        old_any_newtype: bool,
        visited: Result<T, Error>,
    ) -> (result: Result<T, Error>)
        ensures
            final(de)@ == old(de)@.allowing(old_any_newtype),
            result == visited,
    {
        de.any_newtype = old_any_newtype;
        visited
    }
}

} // verus!
