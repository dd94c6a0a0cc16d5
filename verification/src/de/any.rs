//! Values of unknown type: the input says what they are.
use vstd::prelude::*;
use crate::de::compound::{lemma_option, OptionForm};
use crate::de::list::{SingletonMap, SingletonMapView};
use crate::de::{DeView, Deserializer};
use crate::error::{outcome, passed, Error, ErrorView};
use crate::parse::ident::{ascii_str, lemma_identifier};
use crate::parse::literal::{lemma_char, lemma_string, ParsedStr, ParsedStrView};
use crate::parse::number::{lemma_any_num, lemma_float, AnyNum, AnyNumView};
use crate::parse::space::lemma_skip_ws;
use crate::parse::{Bytes, BytesView};
use crate::text::ascii_text;

verus! {

/// What a value of unknown type turned out to be. The content of one that holds others comes next.
#[derive(Clone, Debug, PartialEq, Eq)]
pub enum Event<'de> {
    Bool(bool),
    Infinity,
    NegInfinity,
    NotANumber,
    Num(AnyNum<'de>),
    /// A floating point number, as its text.
    Float(&'de str),
    Char(char),
    Str(ParsedStr<'de>),
    /// A name with no content, such as a unit variant.
    Name(&'de str),
    Unit,
    /// An optional value: `end_option` reads the rest.
    Option(OptionForm),
    /// A name with content, such as a newtype variant.
    Singleton(SingletonMap<'de>),
    /// A sequence: `end_seq` reads the rest.
    Sequence,
    /// A map: `end_map` reads the rest.
    Mapping,
    /// A struct: `end_struct` reads the rest.
    Struct,
    /// A tuple: `end_tuple` reads the rest.
    Tuple,
    /// A newtype, whose content is to be read as a value of unknown type again: `end_any_newtype`
    /// reads the rest.
    Newtype,
}

/// The mathematical value of an [`Event`].
pub enum EventView {
    Bool(bool),
    Infinity,
    NegInfinity,
    NotANumber,
    Num(AnyNumView),
    Float(Seq<char>),
    Char(char),
    Str(ParsedStrView),
    Name(Seq<char>),
    Unit,
    Option(OptionForm),
    Singleton(SingletonMapView),
    Sequence,
    Mapping,
    Struct,
    Tuple,
    Newtype,
}

impl<'de> View for Event<'de> {
    type V = EventView;

    open spec fn view(&self) -> EventView {
        match *self {
            Event::Bool(x) => EventView::Bool(x),
            Event::Infinity => EventView::Infinity,
            Event::NegInfinity => EventView::NegInfinity,
            Event::NotANumber => EventView::NotANumber,
            Event::Num(x) => EventView::Num(x@),
            Event::Float(text) => EventView::Float(text@),
            Event::Char(c) => EventView::Char(c),
            Event::Str(text) => EventView::Str(text@),
            Event::Name(name) => EventView::Name(name@),
            Event::Unit => EventView::Unit,
            Event::Option(form) => EventView::Option(form),
            Event::Singleton(map) => EventView::Singleton(map@),
            Event::Sequence => EventView::Sequence,
            Event::Mapping => EventView::Mapping,
            Event::Struct => EventView::Struct,
            Event::Tuple => EventView::Tuple,
            Event::Newtype => EventView::Newtype,
        }
    }
}

impl EventView {
    /// Whether other values come next.
    pub open spec fn has_content(self) -> bool {
        match self {
            EventView::Option(form) => form != OptionForm::Absent,
            EventView::Singleton(_) | EventView::Sequence | EventView::Mapping | EventView::Struct
            | EventView::Tuple | EventView::Newtype => true,
            _ => false,
        }
    }
}

/// Whether a byte opens a bracket of any kind.
pub open spec fn opens_bracket(c: u8) -> bool {
    c == '(' as u8 || c == '[' as u8 || c == '{' as u8
}

/// Whether a byte closes a bracket of any kind.
pub open spec fn closes_bracket(c: u8) -> bool {
    c == ')' as u8 || c == ']' as u8 || c == '}' as u8
}

/// Whether a comma stands between the brackets that are `depth` deep at `at`, not counting those
/// inside further brackets; `None` where the input ends first.
pub open spec fn comma_inside(s: Seq<u8>, at: int, depth: int) -> Option<bool>
    decreases s.len() - at,
{
    if !(0 <= at < s.len()) {
        None
    } else if opens_bracket(s[at]) {
        comma_inside(s, at + 1, depth + 1)
    } else if closes_bracket(s[at]) {
        if depth <= 1 {
            Some(false)
        } else {
            comma_inside(s, at + 1, depth - 1)
        }
    } else if s[at] == ',' as u8 && depth == 1 {
        Some(true)
    } else {
        comma_inside(s, at + 1, depth)
    }
}

/// What parentheses hold.
#[derive(Clone, Copy, Debug, PartialEq, Eq, Structural)]
pub enum Parenthesised {
    /// Nothing but space: a unit.
    Nothing,
    /// Fields with names.
    Fields,
    /// Elements.
    Elements,
    /// One value.
    Value,
}

impl BytesView {
    /// What the parentheses that come next hold, which takes reading ahead. Only where newtypes of
    /// any kind are allowed can it be one value.
    pub open spec fn parenthesised(self, any_newtype: bool) -> Result<Parenthesised, ErrorView> {
        if self.peek() is None {
            Err(ErrorView::Eof)
        } else {
            let (inner, spaced) = self.moved(self.at + 1).skip_ws();
            match spaced {
                Err(e) => Err(e),
                Ok(_) => if self.peek() == Some('(' as u8) && inner.peek() == Some(')' as u8) {
                    Ok(Parenthesised::Nothing)
                } else {
                    let (named, ident) = inner.identifier();
                    let (after, spaced) = named.skip_ws();
                    match spaced {
                        Err(e) => Err(e),
                        Ok(_) => if ident is Ok && after.peek() == Some(':' as u8) {
                            Ok(Parenthesised::Fields)
                        } else if !any_newtype {
                            Ok(Parenthesised::Elements)
                        } else {
                            match comma_inside(after.input, after.at, 1) {
                                None => Err(ErrorView::Eof),
                                Some(comma) => Ok(
                                    if comma {
                                        Parenthesised::Elements
                                    } else {
                                        Parenthesised::Value
                                    },
                                ),
                            }
                        },
                    }
                },
            }
        }
    }
}

/// A result with its value mapped to an event.
pub open spec fn as_event<T>(
    read: (DeView, Result<T, ErrorView>),
    event: spec_fn(T) -> EventView,
) -> (DeView, Result<EventView, ErrorView>) {
    (
        read.0,
        match read.1 {
            Ok(value) => Ok(event(value)),
            Err(e) => Err(e),
        },
    )
}

impl DeView {
    /// Reading a value in parentheses: all of it where they hold nothing but space, and up to its
    /// content elsewhere.
    pub open spec fn any_struct(self) -> (DeView, Result<EventView, ErrorView>) {
        match self.bytes.parenthesised(self.any_newtype) {
            Err(e) => (self, Err(e)),
            Ok(Parenthesised::Nothing) => (
                self.reading(self.bytes.moved(self.bytes.at + 1).skip_ws().0).past(1),
                Ok(EventView::Unit),
            ),
            Ok(Parenthesised::Fields) => as_event(
                self.struct_(Seq::empty()),
                |enclosed: bool| EventView::Struct,
            ),
            Ok(Parenthesised::Elements) => as_event(
                self.tuple(),
                |enclosed: bool| EventView::Tuple,
            ),
            Ok(Parenthesised::Value) => {
                let opened = if self.bytes.peek() == Some('(' as u8) {
                    self.past(1)
                } else {
                    self
                };
                as_event(opened.step(opened.bytes.skip_ws()), |done: ()| EventView::Newtype)
            },
        }
    }

    /// Reading the rest of a newtype. Its closing parenthesis may be missing.
    pub open spec fn end_any_newtype<T>(self, visited: Result<T, ErrorView>) -> (
        DeView,
        Result<T, ErrorView>,
    ) {
        let (spaced, result) = self.bytes.skip_ws();
        match result {
            Err(e) => (self.reading(spaced), Err(e)),
            Ok(_) => (
                if spaced.peek() == Some(')' as u8) {
                    self.reading(spaced).past(1)
                } else {
                    self.reading(spaced)
                },
                visited,
            ),
        }
    }

    /// Reading what follows a name: the content, if it has any.
    pub open spec fn after_name(self, ident: Seq<u8>) -> (DeView, Result<EventView, ErrorView>) {
        let (spaced, result) = self.bytes.skip_ws();
        (
            self.reading(spaced),
            match result {
                Err(e) => Err(e),
                Ok(_) => Ok(
                    if spaced.peek() == Some('(' as u8) {
                        EventView::Singleton(SingletonMapView { key: Some(ident) })
                    } else {
                        EventView::Name(ascii_text(ident))
                    },
                ),
            },
        )
    }

    /// Reading a value whose first byte tells what it is.
    pub open spec fn any_by_byte(self) -> (DeView, Result<EventView, ErrorView>) {
        match self.bytes.peek() {
            None => (self, Err(ErrorView::Eof)),
            Some(c) => if c == '(' as u8 {
                self.any_struct()
            } else if c == '[' as u8 {
                as_event(self.seq(), |done: ()| EventView::Sequence)
            } else if c == '{' as u8 {
                as_event(self.map(), |done: ()| EventView::Mapping)
            } else if '0' as u8 <= c <= '9' as u8 || c == '+' as u8 || c == '-' as u8 {
                as_event(
                    self.step(self.bytes.any_num()),
                    |number: AnyNumView| EventView::Num(number),
                )
            } else if c == '.' as u8 {
                as_event(self.step(self.bytes.float()), |text: Seq<char>| EventView::Float(text))
            } else if c == '"' as u8 || c == 'r' as u8 {
                as_event(
                    self.step(self.bytes.string()),
                    |text: ParsedStrView| EventView::Str(text),
                )
            } else if c == '\'' as u8 {
                as_event(self.step(self.bytes.char()), |found: char| EventView::Char(found))
            } else {
                (self, Err(ErrorView::UnexpectedByte(c as char)))
            },
        }
    }

    /// Reading a value of unknown type, up to its content where it holds others. A newtype variant
    /// is not unwrapped: that takes knowing the type.
    pub open spec fn any(self) -> (DeView, Result<EventView, ErrorView>) {
        let de = self.plain();
        if de.bytes.sees_word("true"@) {
            (de.past(4), Ok(EventView::Bool(true)))
        } else if de.bytes.sees_word("false"@) {
            (de.past(5), Ok(EventView::Bool(false)))
        } else if de.bytes.sees_word("Some"@) {
            as_event(de.option(), |form: OptionForm| EventView::Option(form))
        } else if de.bytes.sees_word("None"@) {
            (de.past(4), Ok(EventView::Option(OptionForm::Absent)))
        } else if de.bytes.sees("()"@) {
            (de.past(2), Ok(EventView::Unit))
        } else if de.bytes.sees_word("inf"@) {
            (de.past(3), Ok(EventView::Infinity))
        } else if de.bytes.sees_word("-inf"@) {
            (de.past(4), Ok(EventView::NegInfinity))
        } else if de.bytes.sees_word("NaN"@) {
            (de.past(3), Ok(EventView::NotANumber))
        } else {
            let (named, ident) = de.bytes.identifier();
            match ident {
                Ok(ident) => de.reading(named).after_name(ident),
                Err(_) => de.any_by_byte(),
            }
        }
    }
}

/// Reading a value of unknown type only moves forward, past at least one byte where there is one. It
/// unwraps no newtype variant, and what is allowed for newtypes of any kind stays.
pub proof fn lemma_any(de: DeView)
    requires
        de.wf(),
    ensures
        de.leads_to(de.any().0),
        de.any().1 is Ok ==> de.bytes.at < de.any().0.bytes.at,
        !de.any().0.newtype_variant,
        de.any().0.any_newtype == de.any_newtype,
        de.any().0.last_identifier == de.last_identifier,
{
    reveal_strlit("true");
    reveal_strlit("false");
    reveal_strlit("Some");
    reveal_strlit("None");
    reveal_strlit("()");
    reveal_strlit("inf");
    reveal_strlit("-inf");
    reveal_strlit("NaN");
    let plain = de.plain();
    lemma_identifier(plain.bytes);
    lemma_skip_ws(plain.bytes.identifier().0);
    lemma_any_by_byte(plain);
    lemma_option(plain);
}

/// Reading a value in parentheses only moves forward, past the parenthesis where there is one.
proof fn lemma_any_struct(de: DeView)
    requires
        de.wf(),
        !de.newtype_variant,
        de.bytes.peek() == Some('(' as u8),
    ensures
        reads_event(de, de.any_struct()),
{
    let b = de.bytes;
    lemma_skip_ws(b);
    lemma_skip_ws(b.moved(b.at + 1));
}

/// Reading a value whose first byte tells what it is only moves forward.
proof fn lemma_any_by_byte(de: DeView)
    requires
        de.wf(),
        !de.newtype_variant,
    ensures
        reads_event(de, de.any_by_byte()),
{
    let b = de.bytes;
    if b.peek() == Some('(' as u8) {
        lemma_any_struct(de);
    } else {
        lemma_any_num(b);
        lemma_float(b);
        lemma_string(b);
        lemma_char(b);
    }
}

/// What reading a value of unknown type does to a deserializer that has no newtype variant to
/// unwrap: it moves forward, past at least one byte where there is a value, and touches the reader
/// alone.
spec fn reads_event(de: DeView, read: (DeView, Result<EventView, ErrorView>)) -> bool {
    &&& de.leads_to(read.0)
    &&& read.1 is Ok ==> de.bytes.at < read.0.bytes.at
    &&& read.0 == de.reading(read.0.bytes)
}

impl<'de> Deserializer<'de> {
    /// What the parentheses that come next hold. Nothing is read.
    fn parenthesised(&self) -> (found: Result<Parenthesised, Error>)
        requires
            self@.wf(),
        ensures
            match self@.bytes.parenthesised(self@.any_newtype) {
                Ok(kind) => found == Ok::<Parenthesised, Error>(kind),
                Err(e) => found matches Err(error) && error@ == e,
            },
    {
        // Create a working copy
        let mut bytes: Bytes<'de> = self.bytes;
        // The caller checks for a brace before calling this
        bytes.advance_single()?;
        proof {
            lemma_skip_ws(bytes@);
            lemma_identifier(bytes@.skip_ws().0);
            lemma_skip_ws(bytes@.skip_ws().0.identifier().0);
        }
        bytes.skip_ws()?;
        if self.bytes.peek() == Some('(' as u8) && bytes.peek() == Some(')' as u8) {
            return Ok(Parenthesised::Nothing);
        }
        let id = bytes.identifier();
        bytes.skip_ws()?;
        if id.is_ok() && bytes.peek() == Some(':' as u8) {
            return Ok(Parenthesised::Fields);
        }
        if !self.any_newtype {
            return Ok(Parenthesised::Elements);
        }
        let ghost start = bytes@;
        let mut braces: usize = 1;
        loop
            invariant
                bytes@.wf(),
                bytes@.input == start.input,
                1 <= braces <= bytes@.at,
                comma_inside(start.input, start.at, 1) == comma_inside(
                    bytes@.input,
                    bytes@.at,
                    braces as int,
                ),
                self@.wf(),
                self@.any_newtype,
                match self@.bytes.parenthesised(true) {
                    Ok(kind) => match comma_inside(start.input, start.at, 1) {
                        Some(true) => kind == Parenthesised::Elements,
                        Some(false) => kind == Parenthesised::Value,
                        None => false,
                    },
                    Err(e) => comma_inside(start.input, start.at, 1) is None && e == ErrorView::Eof,
                },
            decreases bytes@.input.len() - bytes@.at,
        {
            let c = bytes.eat_byte()?;
            if c == '(' as u8 || c == '[' as u8 || c == '{' as u8 {
                braces = braces + 1;
            } else if c == ')' as u8 || c == ']' as u8 || c == '}' as u8 {
                braces = braces - 1;
                if braces == 0 {
                    return Ok(Parenthesised::Value);
                }
            } else if c == ',' as u8 && braces == 1 {
                return Ok(Parenthesised::Elements);
            }
        }
    }

    /// Called from `deserialize_any` when a struct was detected. Decides if
    /// there is a unit, tuple or usual struct, or a newtype where those are allowed, and reads
    /// it: a unit as a whole, the others up to their content.
    ///
    /// This method assumes there is no identifier left.
    pub fn handle_any_struct(&mut self) -> (found: Result<Event<'de>, Error>)
        requires
            old(self)@.wf(),
        ensures
            final(self)@.wf(),
            (final(self)@, outcome(found)) == old(self)@.any_struct(),
    {
        proof {
            reveal_strlit("");
            assert(""@ =~= Seq::<char>::empty());
        }
        match self.parenthesised()? {
            Parenthesised::Nothing => {
                self.bytes.consume_byte('(' as u8);
                self.bytes.skip_ws()?;
                self.bytes.consume_byte(')' as u8);
                Ok(Event::Unit)
            },
            Parenthesised::Fields => {
                self.deserialize_struct("")?;
                Ok(Event::Struct)
            },
            Parenthesised::Elements => {
                self.deserialize_tuple(0)?;
                Ok(Event::Tuple)
            },
            Parenthesised::Value => {
                self.bytes.consume_byte('(' as u8);
                self.bytes.skip_ws()?;
                Ok(Event::Newtype)
            },
        }
    }

    /// Reads the rest of a newtype whose content was read to `visited`. Its closing parenthesis may
    /// be missing.
    pub fn end_any_newtype<T>(&mut self, visited: Result<T, Error>) -> (result: Result<T, Error>)
        requires
            old(self)@.wf(),
        ensures
            final(self)@.wf(),
            (final(self)@, passed(result)) == old(self)@.end_any_newtype(passed(visited)),
    {
        self.bytes.skip_ws()?;
        self.bytes.consume_byte(')' as u8);
        visited
    }

    /// Reads a value of unknown type, up to its content where it holds others.
    pub fn deserialize_any(&mut self) -> (found: Result<Event<'de>, Error>)
        requires
            old(self)@.wf(),
        ensures
            final(self)@.wf(),
            (final(self)@, outcome(found)) == old(self)@.any(),
    {
        proof {
            reveal_strlit("true");
            reveal_strlit("false");
            reveal_strlit("Some");
            reveal_strlit("None");
            reveal_strlit("()");
            reveal_strlit("inf");
            reveal_strlit("-inf");
            reveal_strlit("NaN");
            lemma_identifier(self@.bytes);
        }
        // Newtype variants can only be unwrapped if we receive information
        //  about the wrapped type - with `deserialize_any` we don't
        self.newtype_variant = false;
        if self.bytes.consume_ident("true") {
            return Ok(Event::Bool(true));
        } else if self.bytes.consume_ident("false") {
            return Ok(Event::Bool(false));
        } else if self.bytes.check_ident("Some") {
            let form = self.deserialize_option()?;
            return Ok(Event::Option(form));
        } else if self.bytes.consume_ident("None") {
            return Ok(Event::Option(OptionForm::Absent));
        } else if self.bytes.consume("()") {
            return Ok(Event::Unit);
        } else if self.bytes.consume_ident("inf") {
            return Ok(Event::Infinity);
        } else if self.bytes.consume_ident("-inf") {
            return Ok(Event::NegInfinity);
        } else if self.bytes.consume_ident("NaN") {
            return Ok(Event::NotANumber);
        }
        // `identifier` does not change state if it fails
        let ident = self.bytes.identifier();
        if let Ok(ident) = ident {
            self.bytes.skip_ws()?;
            return Ok(
                if self.bytes.peek() == Some('(' as u8) {
                    Event::Singleton(SingletonMap { key: Some(ident) })
                } else {
                    Event::Name(ascii_str(ident))
                },
            );
        }
        let c = self.bytes.peek_or_eof()?;
        if c == '(' as u8 {
            self.handle_any_struct()
        } else if c == '[' as u8 {
            self.deserialize_seq()?;
            Ok(Event::Sequence)
        } else if c == '{' as u8 {
            self.deserialize_map()?;
            Ok(Event::Mapping)
        } else if ('0' as u8 <= c && c <= '9' as u8) || c == '+' as u8 || c == '-' as u8 {
            Ok(Event::Num(self.bytes.any_num()?))
        } else if c == '.' as u8 {
            Ok(Event::Float(self.deserialize_f64()?))
        } else if c == '"' as u8 || c == 'r' as u8 {
            Ok(Event::Str(self.deserialize_string()?))
        } else if c == '\'' as u8 {
            Ok(Event::Char(self.deserialize_char()?))
        } else {
            Err(Error::UnexpectedByte(c as char))
        }
    }
}

} // verus!
