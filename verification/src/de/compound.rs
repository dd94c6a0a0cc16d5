//! Values that hold others: options, sequences, tuples, maps, structs and enums.
use vstd::prelude::*;
use crate::de::names::{
    enum_error_name, name_if_any, struct_error_name, tuple_error_name, with_enum_name,
    with_struct_name, with_tuple_name,
};
use crate::de::{DeView, Deserializer};
use crate::error::{borrowed_text, outcome, passed, Error, ErrorView};
use crate::parse::space::{lemma_comma, lemma_skip_ws};

verus! {

/// How an optional value is written.
#[derive(Clone, Copy, Debug, PartialEq, Eq, Structural)]
pub enum OptionForm {
    /// `None`.
    Absent,
    /// `Some(` and the value; a parenthesis is to follow.
    Enclosed,
    /// The value alone.
    Bare,
}

/// Reading the end of something that `missing` says is not closed: an optional comma and the
/// closing byte, after content that was read to `visited`. Where nothing was opened, nothing is
/// closed; where the content is wrong, nothing is read.
pub open spec fn closed<T>(
    de: DeView,
    enclosed: bool,
    close: char,
    missing: ErrorView,
    visited: Result<T, ErrorView>,
) -> (DeView, Result<T, ErrorView>) {
    match visited {
        Err(e) => (de, Err(e)),
        Ok(value) => {
            let (after, comma) = de.bytes.comma();
            match comma {
                Err(e) => (de.reading(after), Err(e)),
                Ok(_) => if !enclosed {
                    (de.reading(after), Ok(value))
                } else if after.peek() == Some(close as u8) {
                    (de.reading(after).past(1), Ok(value))
                } else {
                    (de.reading(after), Err(missing))
                },
            }
        },
    }
}

impl DeView {
    /// Reading an opening byte that has to be there.
    pub open spec fn open(self, open: char, missing: ErrorView) -> (
        DeView,
        Result<(), ErrorView>,
    ) {
        if self.bytes.peek() == Some(open as u8) {
            (self.past(1), Ok(()))
        } else {
            (self, Err(missing))
        }
    }

    /// An optional value that is not written as one.
    pub open spec fn bare_option(self) -> (DeView, Result<OptionForm, ErrorView>) {
        (
            self,
            if self.bytes.exts.implicit_some {
                Ok(OptionForm::Bare)
            } else {
                Err(ErrorView::ExpectedOption)
            },
        )
    }

    /// Reading an optional value up to the value.
    pub open spec fn option(self) -> (DeView, Result<OptionForm, ErrorView>) {
        if self.bytes.sees("None"@) {
            (self.past(4), Ok(OptionForm::Absent))
        } else if self.bytes.sees("Some"@) {
            let (spaced, result) = self.past(4).bytes.skip_ws();
            match result {
                Err(e) => (self.reading(spaced), Err(e)),
                Ok(_) => if spaced.peek() == Some('(' as u8) {
                    let (inner, result) = spaced.moved(spaced.at + 1).skip_ws();
                    match result {
                        Err(e) => (self.reading(inner), Err(e)),
                        Ok(_) => (self.reading(inner), Ok(OptionForm::Enclosed)),
                    }
                } else {
                    self.reading(spaced).bare_option()
                },
            }
        } else {
            self.bare_option()
        }
    }

    /// Reading the rest of an optional value.
    pub open spec fn end_option<T>(self, form: OptionForm, visited: Result<T, ErrorView>) -> (
        DeView,
        Result<T, ErrorView>,
    ) {
        match visited {
            Err(e) => (self, Err(e)),
            Ok(value) => if form != OptionForm::Enclosed {
                (self, Ok(value))
            } else {
                let (spaced, result) = self.bytes.skip_ws();
                match result {
                    Err(e) => (self.reading(spaced), Err(e)),
                    Ok(_) => if spaced.peek() == Some(')' as u8) {
                        (self.reading(spaced).past(1), Ok(value))
                    } else {
                        (self.reading(spaced), Err(ErrorView::ExpectedOptionEnd))
                    },
                }
            },
        }
    }

    /// Reading a unit.
    pub open spec fn unit(self) -> (DeView, Result<(), ErrorView>) {
        if self.newtype_variant {
            (self.plain(), Ok(()))
        } else if self.bytes.sees("()"@) {
            (self.past(2).plain(), Ok(()))
        } else {
            (self, Err(ErrorView::ExpectedUnit))
        }
    }

    /// Reading a unit struct: its name, or a unit.
    pub open spec fn unit_struct(self, name: Seq<char>) -> (DeView, Result<(), ErrorView>) {
        if self.newtype_variant {
            (self.plain(), Ok(()))
        } else {
            let (after, named) = self.bytes.struct_name(name);
            match named {
                Err(e) => (self.reading(after), Err(e)),
                Ok(named) => if named {
                    (self.reading(after).plain(), Ok(()))
                } else {
                    self.reading(after).unit()
                },
            }
        }
    }

    /// Reading a sequence up to its first element.
    pub open spec fn seq(self) -> (DeView, Result<(), ErrorView>) {
        self.plain().open('[', ErrorView::ExpectedArray)
    }

    /// Reading the rest of a sequence.
    pub open spec fn end_seq<T>(self, visited: Result<T, ErrorView>) -> (
        DeView,
        Result<T, ErrorView>,
    ) {
        closed(self, true, ']', ErrorView::ExpectedArrayEnd, visited)
    }

    /// Reading a map up to its first entry.
    pub open spec fn map(self) -> (DeView, Result<(), ErrorView>) {
        self.plain().open('{', ErrorView::ExpectedMap)
    }

    /// Reading the rest of a map.
    pub open spec fn end_map<T>(self, visited: Result<T, ErrorView>) -> (
        DeView,
        Result<T, ErrorView>,
    ) {
        closed(self, true, '}', ErrorView::ExpectedMapEnd, visited)
    }

    /// Reading an opening parenthesis, which the content of an unwrapped newtype variant does not
    /// have: whether there is one to close.
    pub open spec fn parenthesis(self, missing: ErrorView) -> (DeView, Result<bool, ErrorView>) {
        if self.newtype_variant {
            (self.plain(), Ok(false))
        } else if self.bytes.peek() == Some('(' as u8) {
            (self.past(1), Ok(true))
        } else {
            (self, Err(missing))
        }
    }

    /// Reading a tuple up to its first element: whether there is a parenthesis to close.
    pub open spec fn tuple(self) -> (DeView, Result<bool, ErrorView>) {
        self.parenthesis(ErrorView::ExpectedStructLike)
    }

    /// Reading the rest of a tuple.
    pub open spec fn end_tuple<T>(self, enclosed: bool, visited: Result<T, ErrorView>) -> (
        DeView,
        Result<T, ErrorView>,
    ) {
        closed(self, enclosed, ')', ErrorView::ExpectedStructLikeEnd, visited)
    }

    /// Reading the name of a struct, which the content of an unwrapped newtype variant does not
    /// have.
    pub open spec fn name_of_struct(self, name: Seq<char>) -> (DeView, Result<(), ErrorView>) {
        if self.newtype_variant {
            (self, Ok(()))
        } else {
            let (after, named) = self.bytes.struct_name(name);
            match named {
                Err(e) => (self.reading(after), Err(e)),
                Ok(_) => (self.reading(after), Ok(())),
            }
        }
    }

    /// Reading a tuple struct up to its first element.
    pub open spec fn tuple_struct(self, name: Seq<char>) -> (DeView, Result<bool, ErrorView>) {
        let (named, result) = self.name_of_struct(name);
        match result {
            Err(e) => (named, Err(e)),
            Ok(_) => {
                let (inner, opened) = named.tuple();
                match opened {
                    Err(e) => (inner, Err(with_tuple_name(e, name))),
                    Ok(enclosed) => (inner, Ok(enclosed)),
                }
            },
        }
    }

    /// Reading the rest of a tuple struct.
    pub open spec fn end_tuple_struct<T>(
        self,
        name: Seq<char>,
        enclosed: bool,
        visited: Result<T, ErrorView>,
    ) -> (DeView, Result<T, ErrorView>) {
        let (after, result) = self.end_tuple(enclosed, visited);
        match result {
            Err(e) => (after, Err(with_tuple_name(e, name))),
            Ok(value) => (after, Ok(value)),
        }
    }

    /// Reading a struct whose name was read up to its first field.
    pub open spec fn struct_after_name(self, name: Seq<char>) -> (DeView, Result<bool, ErrorView>) {
        self.parenthesis(
            if name.len() == 0 {
                ErrorView::ExpectedStructLike
            } else {
                ErrorView::ExpectedNamedStructLike(name)
            },
        )
    }

    /// Reading the rest of a struct. An error about a field gets the struct's name.
    pub open spec fn end_struct<T>(
        self,
        name: Seq<char>,
        enclosed: bool,
        visited: Result<T, ErrorView>,
    ) -> (DeView, Result<T, ErrorView>) {
        let named = if enclosed {
            name_if_any(name)
        } else {
            None
        };
        closed(
            self,
            enclosed,
            ')',
            ErrorView::ExpectedStructLikeEnd,
            match visited {
                Err(e) => Err(with_struct_name(e, named)),
                Ok(value) => Ok(value),
            },
        )
    }

    /// Reading a struct up to its first field.
    pub open spec fn struct_(self, name: Seq<char>) -> (DeView, Result<bool, ErrorView>) {
        let (named, result) = self.name_of_struct(name);
        match result {
            Err(e) => (named, Err(e)),
            Ok(_) => {
                let (spaced, result) = named.bytes.skip_ws();
                match result {
                    Err(e) => (named.reading(spaced), Err(e)),
                    Ok(_) => named.reading(spaced).struct_after_name(name),
                }
            },
        }
    }

    /// Reading a newtype variant up to its content: the variant's name.
    pub open spec fn newtype_variant_start(self) -> (
        DeView,
        Result<Option<Seq<char>>, ErrorView>,
    ) {
        let (spaced, result) = self.bytes.skip_ws();
        match result {
            Err(e) => (self.reading(spaced), Err(e)),
            Ok(_) => if spaced.peek() != Some('(' as u8) {
                (self.reading(spaced), Err(ErrorView::ExpectedStructLike))
            } else {
                let (inner, result) = spaced.moved(spaced.at + 1).skip_ws();
                match result {
                    Err(e) => (self.reading(inner), Err(e)),
                    Ok(_) => (
                        DeView {
                            bytes: inner,
                            newtype_variant: self.bytes.exts.unwrap_variant_newtypes,
                            ..self
                        },
                        Ok(self.last_identifier),
                    ),
                }
            },
        }
    }

    /// Reading the rest of a newtype variant. An error about a field gets the variant's name.
    pub open spec fn end_newtype_variant<T>(
        self,
        name: Option<Seq<char>>,
        visited: Result<T, ErrorView>,
    ) -> (DeView, Result<T, ErrorView>) {
        match visited {
            Err(e) => (self, Err(with_struct_name(e, name))),
            Ok(_) => closed(self.plain(), true, ')', ErrorView::ExpectedStructLikeEnd, visited),
        }
    }

    /// Reading a tuple variant up to its first element.
    pub open spec fn tuple_variant(self) -> (DeView, Result<bool, ErrorView>) {
        let (spaced, result) = self.bytes.skip_ws();
        match result {
            Err(e) => (self.reading(spaced), Err(e)),
            Ok(_) => self.reading(spaced).tuple(),
        }
    }

    /// Reading a struct variant up to its first field: the variant's name, and whether there is a
    /// parenthesis to close.
    pub open spec fn struct_variant_start(self) -> (
        DeView,
        Result<(Option<Seq<char>>, bool), ErrorView>,
    ) {
        let (spaced, result) = self.bytes.skip_ws();
        match result {
            Err(e) => (self.reading(spaced), Err(e)),
            Ok(_) => {
                let (inner, opened) = self.reading(spaced).struct_after_name(Seq::empty());
                match opened {
                    Err(e) => (inner, Err(e)),
                    Ok(enclosed) => (inner, Ok((self.last_identifier, enclosed))),
                }
            },
        }
    }

    /// Reading the rest of a struct variant. An error about a field gets the variant's name.
    pub open spec fn end_struct_variant<T>(
        self,
        name: Option<Seq<char>>,
        enclosed: bool,
        visited: Result<T, ErrorView>,
    ) -> (DeView, Result<T, ErrorView>) {
        let (after, result) = self.end_struct(Seq::empty(), enclosed, visited);
        match result {
            Err(e) => (after, Err(with_struct_name(e, name))),
            Ok(value) => (after, Ok(value)),
        }
    }
}

/// What an enum comes to: an error about a variant gets the enum's name.
pub open spec fn enum_outcome<T>(name: Seq<char>, visited: Result<T, ErrorView>) -> Result<
    T,
    ErrorView,
> {
    match visited {
        Err(e) => Err(with_enum_name(e, name)),
        Ok(value) => Ok(value),
    }
}

/// Reading an optional value only moves forward, over the four letters at least where it is written
/// as one.
pub proof fn lemma_option(de: DeView)
    requires
        de.wf(),
    ensures
        de.leads_to(de.option().0),
        de.bytes.sees("None"@) || de.bytes.sees("Some"@) ==> de.bytes.at + 4
            <= de.option().0.bytes.at,
        de.option().0 == de.reading(de.option().0.bytes),
{
    reveal_strlit("None");
    reveal_strlit("Some");
    if de.bytes.sees("Some"@) {
        let b = de.past(4).bytes;
        lemma_skip_ws(b);
        let spaced = b.skip_ws().0;
        if spaced.at < spaced.input.len() {
            lemma_skip_ws(spaced.moved(spaced.at + 1));
        }
    }
}

/// Reading the end of something only moves forward and touches the reader alone.
pub proof fn lemma_closed<T>(
    de: DeView,
    enclosed: bool,
    close: char,
    missing: ErrorView,
    visited: Result<T, ErrorView>,
)
    requires
        de.wf(),
    ensures
        de.leads_to(closed(de, enclosed, close, missing, visited).0),
        closed(de, enclosed, close, missing, visited).0 == de.reading(
            closed(de, enclosed, close, missing, visited).0.bytes,
        ),
{
    lemma_comma(de.bytes);
}

impl<'de> Deserializer<'de> {
    /// Reads an optional comma and a closing byte after content that was read to `visited`.
    pub(crate) fn close<T>(
        &mut self,
        enclosed: bool,
        close: char,
        missing: Error,
        visited: Result<T, Error>,
    ) -> (result: Result<T, Error>)
        requires
            old(self)@.wf(),
        ensures
            final(self)@.wf(),
            (final(self)@, passed(result)) == closed(
                old(self)@,
                enclosed,
                close,
                missing@,
                passed(visited),
            ),
    {
        let value = visited?;
        self.bytes.comma()?;
        if !enclosed || self.bytes.consume_byte(close as u8) {
            Ok(value)
        } else {
            Err(missing)
        }
    }

    /// An optional value that is not written as one.
    fn bare_option(&self) -> (found: Result<OptionForm, Error>)
        ensures
            (self@, passed(found)) == self@.bare_option(),
    {
        if self.bytes.exts().implicit_some {
            Ok(OptionForm::Bare)
        } else {
            Err(Error::ExpectedOption)
        }
    }

    /// Reads an optional value up to the value. [`Deserializer::end_option`] reads the rest.
    pub fn deserialize_option(&mut self) -> (found: Result<OptionForm, Error>)
        requires
            old(self)@.wf(),
        ensures
            final(self)@.wf(),
            (final(self)@, passed(found)) == old(self)@.option(),
    {
        proof {
            reveal_strlit("None");
            reveal_strlit("Some");
        }
        if self.bytes.consume("None") {
            return Ok(OptionForm::Absent);
        }
        if self.bytes.consume("Some") {
            self.bytes.skip_ws()?;
            if self.bytes.consume_byte('(' as u8) {
                self.bytes.skip_ws()?;
                return Ok(OptionForm::Enclosed);
            }
        }
        self.bare_option()
    }

    /// Reads the rest of an optional value.
    pub fn end_option<T>(&mut self, form: OptionForm, visited: Result<T, Error>) -> (result: Result<
        T,
        Error,
    >)
        requires
            old(self)@.wf(),
        ensures
            final(self)@.wf(),
            (final(self)@, passed(result)) == old(self)@.end_option(form, passed(visited)),
    {
        let value = visited?;
        match form {
            OptionForm::Enclosed => {
                self.bytes.skip_ws()?;
                if self.bytes.consume_byte(')' as u8) {
                    Ok(value)
                } else {
                    Err(Error::ExpectedOptionEnd)
                }
            },
            _ => Ok(value),
        }
    }

    /// Reads a unit: an anonymous value that holds no data.
    pub fn deserialize_unit(&mut self) -> (found: Result<(), Error>)
        requires
            old(self)@.wf(),
        ensures
            final(self)@.wf(),
            (final(self)@, outcome(found)) == old(self)@.unit(),
    {
        proof {
            reveal_strlit("()");
        }
        if self.newtype_variant || self.bytes.consume("()") {
            self.newtype_variant = false;
            Ok(())
        } else {
            Err(Error::ExpectedUnit)
        }
    }

    /// Reads a unit struct: its name, or a unit.
    pub fn deserialize_unit_struct(&mut self, name: &'static str) -> (found: Result<(), Error>)
        requires
            old(self)@.wf(),
        ensures
            final(self)@.wf(),
            (final(self)@, outcome(found)) == old(self)@.unit_struct(name@),
    {
        if self.newtype_variant || self.bytes.consume_struct_name(name)? {
            self.newtype_variant = false;
            Ok(())
        } else {
            self.deserialize_unit()
        }
    }

    /// Reads a sequence up to its first element. [`Deserializer::end_seq`] reads the rest.
    pub fn deserialize_seq(&mut self) -> (found: Result<(), Error>)
        requires
            old(self)@.wf(),
        ensures
            final(self)@.wf(),
            (final(self)@, outcome(found)) == old(self)@.seq(),
    {
        self.newtype_variant = false;
        if self.bytes.consume_byte('[' as u8) {
            Ok(())
        } else {
            Err(Error::ExpectedArray)
        }
    }

    /// Reads the rest of a sequence.
    pub fn end_seq<T>(&mut self, visited: Result<T, Error>) -> (result: Result<T, Error>)
        requires
            old(self)@.wf(),
        ensures
            final(self)@.wf(),
            (final(self)@, passed(result)) == old(self)@.end_seq(passed(visited)),
    {
        self.close(true, ']', Error::ExpectedArrayEnd, visited)
    }

    /// Reads a map up to its first entry. [`Deserializer::end_map`] reads the rest.
    pub fn deserialize_map(&mut self) -> (found: Result<(), Error>)
        requires
            old(self)@.wf(),
        ensures
            final(self)@.wf(),
            (final(self)@, outcome(found)) == old(self)@.map(),
    {
        self.newtype_variant = false;
        if self.bytes.consume_byte('{' as u8) {
            Ok(())
        } else {
            Err(Error::ExpectedMap)
        }
    }

    /// Reads the rest of a map.
    pub fn end_map<T>(&mut self, visited: Result<T, Error>) -> (result: Result<T, Error>)
        requires
            old(self)@.wf(),
        ensures
            final(self)@.wf(),
            (final(self)@, passed(result)) == old(self)@.end_map(passed(visited)),
    {
        self.close(true, '}', Error::ExpectedMapEnd, visited)
    }

    /// Reads an opening parenthesis, which the content of an unwrapped newtype variant does not
    /// have: whether there is one to close.
    fn parenthesis(&mut self, missing: Error) -> (found: Result<bool, Error>)
        requires
            old(self)@.wf(),
        ensures
            final(self)@.wf(),
            (final(self)@, passed(found)) == old(self)@.parenthesis(missing@),
    {
        if self.newtype_variant || self.bytes.consume_byte('(' as u8) {
            let enclosed = !self.newtype_variant;
            self.newtype_variant = false;
            Ok(enclosed)
        } else {
            Err(missing)
        }
    }

    /// Reads a tuple up to its first element: whether there is a parenthesis to close.
    /// [`Deserializer::end_tuple`] reads the rest.
    pub fn deserialize_tuple(&mut self, _len: usize) -> (found: Result<bool, Error>)
        requires
            old(self)@.wf(),
        ensures
            final(self)@.wf(),
            (final(self)@, passed(found)) == old(self)@.tuple(),
    {
        self.parenthesis(Error::ExpectedStructLike)
    }

    /// Reads the rest of a tuple.
    pub fn end_tuple<T>(&mut self, enclosed: bool, visited: Result<T, Error>) -> (result: Result<
        T,
        Error,
    >)
        requires
            old(self)@.wf(),
        ensures
            final(self)@.wf(),
            (final(self)@, passed(result)) == old(self)@.end_tuple(enclosed, passed(visited)),
    {
        self.close(enclosed, ')', Error::ExpectedStructLikeEnd, visited)
    }

    /// Reads a tuple struct up to its first element: whether there is a parenthesis to close.
    /// [`Deserializer::end_tuple_struct`] reads the rest.
    pub fn deserialize_tuple_struct(&mut self, name: &'static str, len: usize) -> (found: Result<
        bool,
        Error,
    >)
        requires
            old(self)@.wf(),
        ensures
            final(self)@.wf(),
            (final(self)@, passed(found)) == old(self)@.tuple_struct(name@),
    {
        if !self.newtype_variant {
            self.bytes.consume_struct_name(name)?;
        }
        match self.deserialize_tuple(len) {
            Ok(enclosed) => Ok(enclosed),
            Err(e) => Err(tuple_error_name(e, name)),
        }
    }

    /// Reads the rest of a tuple struct.
    pub fn end_tuple_struct<T>(
        &mut self,
        name: &'static str,
        enclosed: bool,
        visited: Result<T, Error>,
    ) -> (result: Result<T, Error>)
        requires
            old(self)@.wf(),
        ensures
            final(self)@.wf(),
            (final(self)@, passed(result)) == old(self)@.end_tuple_struct(
                name@,
                enclosed,
                passed(visited),
            ),
    {
        match self.end_tuple(enclosed, visited) {
            Ok(value) => Ok(value),
            Err(e) => Err(tuple_error_name(e, name)),
        }
    }

    /// Reads a struct whose name was read up to its first field: whether there is a parenthesis to
    /// close. [`Deserializer::end_struct`] reads the rest.
    ///
    /// This method assumes there is no struct name identifier left.
    pub fn handle_struct_after_name(&mut self, name_for_pretty_errors_only: &'static str) -> (found:
        Result<bool, Error>)
        requires
            old(self)@.wf(),
        ensures
            final(self)@.wf(),
            (final(self)@, passed(found)) == old(self)@.struct_after_name(
                name_for_pretty_errors_only@,
            ),
    {
        if name_for_pretty_errors_only.is_empty() {
            self.parenthesis(Error::ExpectedStructLike)
        } else {
            self.parenthesis(Error::ExpectedNamedStructLike(name_for_pretty_errors_only))
        }
    }

    /// Reads a struct up to its first field: whether there is a parenthesis to close.
    /// [`Deserializer::end_struct`] reads the rest.
    pub fn deserialize_struct(&mut self, name: &'static str) -> (found: Result<bool, Error>)
        requires
            old(self)@.wf(),
        ensures
            final(self)@.wf(),
            (final(self)@, passed(found)) == old(self)@.struct_(name@),
    {
        if !self.newtype_variant {
            self.bytes.consume_struct_name(name)?;
        }
        self.bytes.skip_ws()?;
        self.handle_struct_after_name(name)
    }

    /// Reads the rest of a struct. An error about a field gets the struct's name.
    pub fn end_struct<T>(
        &mut self,
        name_for_pretty_errors_only: &'static str,
        enclosed: bool,
        visited: Result<T, Error>,
    ) -> (result: Result<T, Error>)
        requires
            old(self)@.wf(),
        ensures
            final(self)@.wf(),
            (final(self)@, passed(result)) == old(self)@.end_struct(
                name_for_pretty_errors_only@,
                enclosed,
                passed(visited),
            ),
    {
        let visited = match visited {
            Ok(value) => Ok(value),
            Err(e) => {
                let name = if enclosed && !name_for_pretty_errors_only.is_empty() {
                    Some(name_for_pretty_errors_only)
                } else {
                    None
                };
                Err(struct_error_name(e, name))
            },
        };
        self.close(enclosed, ')', Error::ExpectedStructLikeEnd, visited)
    }

    /// Starts reading an enum: its variant comes next.
    pub fn deserialize_enum(&mut self)
        ensures
            final(self)@ == old(self)@.plain(),
    {
        self.newtype_variant = false;
    }

    /// Ends reading an enum. An error about a variant gets the enum's name.
    pub fn end_enum<T>(name: &'static str, visited: Result<T, Error>) -> (result: Result<T, Error>)
        ensures
            passed(result) == enum_outcome(name@, passed(visited)),
    {
        match visited {
            Ok(value) => Ok(value),
            Err(e) => Err(enum_error_name(e, name)),
        }
    }

    /// Reads up to the name of a variant.
    pub fn variant_seed(&mut self) -> (done: Result<(), Error>)
        requires
            old(self)@.wf(),
        ensures
            final(self)@.wf(),
            (final(self)@, outcome(done)) == old(self)@.step(old(self)@.bytes.skip_ws()),
    {
        self.bytes.skip_ws()
    }

    /// Reads a newtype variant up to its content: the variant's name.
    /// [`Deserializer::end_newtype_variant`] reads the rest.
    pub fn newtype_variant_seed(&mut self) -> (found: Result<Option<&'de str>, Error>)
        requires
            old(self)@.wf(),
        ensures
            final(self)@.wf(),
            final(self)@ == old(self)@.newtype_variant_start().0,
            match old(self)@.newtype_variant_start().1 {
                Ok(name) => found matches Ok(variant) && borrowed_text(variant) == name,
                Err(e) => found matches Err(error) && error@ == e,
            },
    {
        let newtype_variant = self.last_identifier;
        self.bytes.skip_ws()?;
        if self.bytes.consume_byte('(' as u8) {
            self.bytes.skip_ws()?;
            self.newtype_variant = self.bytes.exts().unwrap_variant_newtypes;
            Ok(newtype_variant)
        } else {
            Err(Error::ExpectedStructLike)
        }
    }

    /// Reads the rest of a newtype variant. An error about a field gets the variant's name.
    pub fn end_newtype_variant<T>(
        &mut self,
        newtype_variant: Option<&str>,
        visited: Result<T, Error>,
    ) -> (result: Result<T, Error>)
        requires
            old(self)@.wf(),
        ensures
            final(self)@.wf(),
            (final(self)@, passed(result)) == old(self)@.end_newtype_variant(
                borrowed_text(newtype_variant),
                passed(visited),
            ),
    {
        match visited {
            Err(e) => Err(struct_error_name(e, newtype_variant)),
            Ok(value) => {
                self.newtype_variant = false;
                self.close(true, ')', Error::ExpectedStructLikeEnd, Ok(value))
            },
        }
    }

    /// Reads a tuple variant up to its first element: whether there is a parenthesis to close.
    /// [`Deserializer::end_tuple`] reads the rest.
    pub fn tuple_variant(&mut self, len: usize) -> (found: Result<bool, Error>)
        requires
            old(self)@.wf(),
        ensures
            final(self)@.wf(),
            (final(self)@, passed(found)) == old(self)@.tuple_variant(),
    {
        self.bytes.skip_ws()?;
        self.deserialize_tuple(len)
    }

    /// Reads a struct variant up to its first field: the variant's name, and whether there is a
    /// parenthesis to close. [`Deserializer::end_struct_variant`] reads the rest.
    pub fn struct_variant(&mut self) -> (found: Result<(Option<&'de str>, bool), Error>)
        requires
            old(self)@.wf(),
        ensures
            final(self)@.wf(),
            final(self)@ == old(self)@.struct_variant_start().0,
            match old(self)@.struct_variant_start().1 {
                Ok((name, enclosed)) => found matches Ok(start) && borrowed_text(start.0) == name
                    && start.1 == enclosed,
                Err(e) => found matches Err(error) && error@ == e,
            },
    {
        proof {
            reveal_strlit("");
            assert(""@ =~= Seq::<char>::empty());
        }
        let struct_variant = self.last_identifier;
        self.bytes.skip_ws()?;
        let enclosed = self.handle_struct_after_name("")?;
        Ok((struct_variant, enclosed))
    }

    /// Reads the rest of a struct variant. An error about a field gets the variant's name.
    pub fn end_struct_variant<T>(
        &mut self,
        struct_variant: Option<&str>,
        enclosed: bool,
        visited: Result<T, Error>,
    ) -> (result: Result<T, Error>)
        requires
            old(self)@.wf(),
        ensures
            final(self)@.wf(),
            (final(self)@, passed(result)) == old(self)@.end_struct_variant(
                borrowed_text(struct_variant),
                enclosed,
                passed(visited),
            ),
    {
        proof {
            reveal_strlit("");
            assert(""@ =~= Seq::<char>::empty());
        }
        match self.end_struct("", enclosed, visited) {
            Ok(value) => Ok(value),
            Err(e) => Err(struct_error_name(e, struct_variant)),
        }
    }
}

} // verus!
