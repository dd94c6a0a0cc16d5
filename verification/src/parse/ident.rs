//! Identifiers and struct names.
use vstd::prelude::*;
use crate::error::{outcome, Error, ErrorView};
use crate::parse::{lemma_run_end, run_end, Bytes, BytesView, CharClass};
use crate::text::{ascii_text, is_ascii_bytes, lemma_ascii_text, same_text, text_from_utf8};

verus! {

impl BytesView {
    /// The bytes from here up to an offset.
    pub open spec fn upto(self, end: int) -> Seq<u8> {
        self.input.subrange(self.at, end)
    }

    /// Whether a raw identifier starts here: `r#` and a character that it can hold.
    pub open spec fn sees_raw_ident(self) -> bool {
        &&& self.byte(0) == Some('r' as u8)
        &&& self.byte(1) == Some('#' as u8)
        &&& self.byte(2) matches Some(c) && CharClass::IdentRaw.has(c)
    }

    /// Whether a raw string starts here, or what would be a raw identifier without its first
    /// character.
    pub open spec fn sees_raw_string(self) -> bool {
        &&& self.byte(0) == Some('r' as u8)
        &&& self.byte(1) == Some('"' as u8) || (self.byte(1) == Some('#' as u8)
            && !self.sees_raw_ident())
    }

    /// Reading an identifier. Nothing is read where there is none.
    pub open spec fn identifier(self) -> (BytesView, Result<Seq<u8>, ErrorView>) {
        let plain_end = run_end(self.input, self.at, CharClass::IdentOther);
        let raw_end = run_end(self.input, self.at, CharClass::IdentRaw);
        match self.peek() {
            None => (self, Err(ErrorView::Eof)),
            Some(c) => if !CharClass::IdentRaw.has(c) {
                (self, Err(ErrorView::ExpectedIdentifier))
            } else if !CharClass::IdentFirst.has(c) {
                (self, Err(ErrorView::SuggestRawIdentifier(ascii_text(self.upto(raw_end)))))
            } else if c == 'r' as u8 && self.byte(1) is None {
                (self, Err(ErrorView::Eof))
            } else if self.sees_raw_string() {
                (self, Err(ErrorView::ExpectedIdentifier))
            } else if self.sees_raw_ident() {
                let name = self.moved(self.at + 2);
                let end = run_end(self.input, name.at, CharClass::IdentRaw);
                (self.moved(end), Ok(name.upto(end)))
            } else if raw_end > plain_end {
                (self, Err(ErrorView::SuggestRawIdentifier(ascii_text(self.upto(raw_end)))))
            } else {
                (self.moved(plain_end), Ok(self.upto(plain_end)))
            },
        }
    }

    /// Reading the name of a struct where one is written: whether it was.
    pub open spec fn struct_name(self, name: Seq<char>) -> (BytesView, Result<bool, ErrorView>) {
        if !(self.peek() matches Some(c) && CharClass::IdentOther.has(c)) {
            (self, Ok(false))
        } else {
            let (after, found) = self.identifier();
            match found {
                Ok(ident) => if name.len() == 0 {
                    (after, Err(ErrorView::ExpectedNamedStructLike(name)))
                } else if ascii_text(ident) != name {
                    (
                        after,
                        Err(
                            ErrorView::ExpectedDifferentStructName {
                                expected: name,
                                found: ascii_text(ident),
                            },
                        ),
                    )
                } else {
                    (after, Ok(true))
                },
                Err(e) => if e == ErrorView::SuggestRawIdentifier(name) {
                    (self, Err(e))
                } else {
                    (self, Err(ErrorView::ExpectedNamedStructLike(name)))
                },
            }
        }
    }
}

/// A run of identifier characters is ASCII.
proof fn lemma_run_ascii(s: Seq<u8>, at: int, class: CharClass)
    requires
        0 <= at <= s.len(),
        class == CharClass::IdentRaw || class == CharClass::IdentOther || class
            == CharClass::Float,
    ensures
        is_ascii_bytes(s.subrange(at, run_end(s, at, class))),
{
    lemma_run_end(s, at, class);
    let part = s.subrange(at, run_end(s, at, class));
    assert forall|i: int| 0 <= i < part.len() implies #[trigger] part[i] < 0x80 by {
        assert(class.has(s[at + i]));
    }
}

/// An identifier is made of ASCII characters, at least one, and reading it moves forward over it.
/// Where there is none, nothing is read.
pub proof fn lemma_identifier(b: BytesView)
    requires
        b.wf(),
    ensures
        b.leads_to(b.identifier().0),
        match b.identifier().1 {
            Ok(ident) => b.at < b.identifier().0.at && is_ascii_bytes(ident) && ident.len() > 0,
            Err(_) => b.identifier().0 == b,
        },
{
    lemma_run_end(b.input, b.at, CharClass::IdentOther);
    lemma_run_end(b.input, b.at, CharClass::IdentRaw);
    lemma_run_ascii(b.input, b.at, CharClass::IdentOther);
    if b.sees_raw_ident() {
        lemma_run_end(b.input, b.at + 2, CharClass::IdentRaw);
        lemma_run_ascii(b.input, b.at + 2, CharClass::IdentRaw);
    }
}

/// Reading a struct name only moves forward.
pub proof fn lemma_struct_name(b: BytesView, name: Seq<char>)
    requires
        b.wf(),
    ensures
        b.leads_to(b.struct_name(name).0),
{
    lemma_identifier(b);
}

/// The text of ASCII bytes, as an owned string.
fn owned_ascii(bytes: &[u8]) -> (text: String)
    requires
        is_ascii_bytes(bytes@),
    ensures
        text@ == ascii_text(bytes@),
{
    ascii_str(bytes).to_owned()
}

/// The text of ASCII bytes.
pub(crate) fn ascii_str<'b>(bytes: &'b [u8]) -> (text: &'b str)
    requires
        is_ascii_bytes(bytes@),
    ensures
        text@ == ascii_text(bytes@),
{
    proof {
        lemma_ascii_text(bytes@);
    }
    match text_from_utf8(bytes) {
        Ok(text) => text,
        Err(_) => "",
    }
}

impl<'a> Bytes<'a> {
    /// The error that suggests a raw identifier for what comes next.
    fn suggest_raw(&self, end: usize) -> (error: Error)
        requires
            self@.wf(),
            end == run_end(self@.input, self@.at, CharClass::IdentRaw),
        ensures
            error@ == ErrorView::SuggestRawIdentifier(ascii_text(self@.upto(end as int))),
    {
        proof {
            lemma_run_end(self@.input, self@.at, CharClass::IdentRaw);
            lemma_run_ascii(self@.input, self@.at, CharClass::IdentRaw);
        }
        Error::SuggestRawIdentifier(owned_ascii(self.part(self.offset(), end)))
    }

    /// Reads an identifier. Nothing is read where there is none.
    pub fn identifier(&mut self) -> (found: Result<&'a [u8], Error>)
        requires
            old(self)@.wf(),
        ensures
            final(self)@.wf(),
            (final(self)@, outcome(found)) == old(self)@.identifier(),
            found matches Ok(ident) ==> is_ascii_bytes(ident@),
    {
        proof {
            lemma_identifier(self@);
            lemma_run_end(self@.input, self@.at, CharClass::IdentOther);
            lemma_run_end(self@.input, self@.at, CharClass::IdentRaw);
        }
        let next = self.peek_or_eof()?;
        let start = self.offset();
        if !CharClass::IdentFirst.contains(next) {
            if CharClass::IdentRaw.contains(next) {
                let end = self.run_from(start, CharClass::IdentRaw);
                return Err(self.suggest_raw(end));
            }
            return Err(Error::ExpectedIdentifier);
        }
        if next == 'r' as u8 {
            match self.peek_at(1) {
                None => {
                    return Err(Error::Eof);
                },
                Some(c) => {
                    if c == '"' as u8 {
                        return Err(Error::ExpectedIdentifier);
                    }
                    if c == '#' as u8 {
                        let raw = match self.peek_at(2) {
                            Some(after) => CharClass::IdentRaw.contains(after),
                            None => false,
                        };
                        if !raw {
                            return Err(Error::ExpectedIdentifier);
                        }
                        let end = self.run_from(start + 2, CharClass::IdentRaw);
                        let ident = self.part(start + 2, end);
                        self.set_offset(end);
                        return Ok(ident);
                    }
                },
            }
        }
        let plain_end = self.run_from(start, CharClass::IdentOther);
        let raw_end = self.run_from(start, CharClass::IdentRaw);
        if raw_end > plain_end {
            return Err(self.suggest_raw(raw_end));
        }
        let ident = self.part(start, plain_end);
        self.set_offset(plain_end);
        Ok(ident)
    }

    /// Reads the name of a struct where one is written: whether it was.
    pub fn consume_struct_name(&mut self, name: &'static str) -> (found: Result<bool, Error>)
        requires
            old(self)@.wf(),
        ensures
            final(self)@.wf(),
            (final(self)@, outcome(found)) == old(self)@.struct_name(name@),
    {
        proof {
            lemma_identifier(self@);
        }
        if !self.check_ident_other_char(0) {
            return Ok(false);
        }
        match self.identifier() {
            Ok(ident) => {
                if name.is_empty() {
                    return Err(Error::ExpectedNamedStructLike(name));
                }
                let found = ascii_str(ident);
                if !same_text(found, name) {
                    return Err(
                        Error::ExpectedDifferentStructName {
                            expected: name,
                            found: found.to_owned(),
                        },
                    );
                }
                Ok(true)
            },
            Err(e) => match e {
                Error::SuggestRawIdentifier(text) => {
                    if same_text(text.as_str(), name) {
                        Err(Error::SuggestRawIdentifier(text))
                    } else {
                        Err(Error::ExpectedNamedStructLike(name))
                    }
                },
                _ => Err(Error::ExpectedNamedStructLike(name)),
            },
        }
    }
}

} // verus!
