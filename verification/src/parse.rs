//! The lexical side of RON: a position in the input and the tokens that can be read from it.
use vstd::prelude::*;
use vstd::slice::slice_subrange;
use vstd::string::is_ascii;
use crate::error::{Error, Position, SpannedError};
use crate::extensions::Extensions;

pub mod attribute;
pub mod ident;
pub mod laws;
pub mod literal;
pub mod number;
pub mod space;

verus! {

/// The classes of bytes that tokens are made of.
#[derive(Clone, Copy, Debug, PartialEq, Eq, Structural)]
pub enum CharClass {
    /// `\t`, `\n`, `\r` and the space.
    Space,
    /// Everything that a line comment can hold.
    NotNewline,
    /// `0` to `9`.
    Digit,
    /// Hexadecimal digits and `_`.
    Int,
    /// Digits, `.`, `E`, `e`, `+` and `-`.
    Float,
    /// What an identifier can start with: ASCII letters and `_`.
    IdentFirst,
    /// What an identifier can go on with: ASCII letters, digits and `_`.
    IdentOther,
    /// What a raw identifier is made of: as above, and `.`, `+` and `-`.
    IdentRaw,
    /// Everything inside a string but `"` and `\`.
    Plain,
    /// `#`.
    Hash,
}

pub open spec fn is_digit(c: u8) -> bool {
    '0' as u8 <= c <= '9' as u8
}

pub open spec fn is_letter(c: u8) -> bool {
    ('a' as u8 <= c <= 'z' as u8) || ('A' as u8 <= c <= 'Z' as u8)
}

impl CharClass {
    /// Whether a byte belongs to the class.
    pub open spec fn has(self, c: u8) -> bool {
        match self {
            CharClass::Space => c == 9 || c == 10 || c == 13 || c == 32,
            CharClass::NotNewline => c != 10,
            CharClass::Digit => is_digit(c),
            CharClass::Int => is_digit(c) || ('a' as u8 <= c <= 'f' as u8) || ('A' as u8 <= c
                <= 'F' as u8) || c == '_' as u8,
            CharClass::Float => is_digit(c) || c == '.' as u8 || c == 'e' as u8 || c == 'E' as u8
                || c == '+' as u8 || c == '-' as u8,
            CharClass::IdentFirst => is_letter(c) || c == '_' as u8,
            CharClass::IdentOther => is_letter(c) || c == '_' as u8 || is_digit(c),
            CharClass::IdentRaw => is_letter(c) || c == '_' as u8 || is_digit(c) || c == '.' as u8
                || c == '+' as u8 || c == '-' as u8,
            CharClass::Plain => c != '"' as u8 && c != '\\' as u8,
            CharClass::Hash => c == '#' as u8,
        }
    }

    /// Tests whether a byte belongs to the class.
    pub fn contains(self, c: u8) -> (found: bool)
        ensures
            found == self.has(c),
    {
        let digit: bool = '0' as u8 <= c && c <= '9' as u8;
        let letter: bool = ('a' as u8 <= c && c <= 'z' as u8) || ('A' as u8 <= c && c <= 'Z' as u8);
        match self {
            CharClass::Space => c == 9 || c == 10 || c == 13 || c == 32,
            CharClass::NotNewline => c != 10,
            CharClass::Digit => digit,
            CharClass::Int => digit || ('a' as u8 <= c && c <= 'f' as u8) || ('A' as u8 <= c && c
                <= 'F' as u8) || c == '_' as u8,
            CharClass::Float => digit || c == '.' as u8 || c == 'e' as u8 || c == 'E' as u8 || c
                == '+' as u8 || c == '-' as u8,
            CharClass::IdentFirst => letter || c == '_' as u8,
            CharClass::IdentOther => letter || c == '_' as u8 || digit,
            CharClass::IdentRaw => letter || c == '_' as u8 || digit || c == '.' as u8 || c
                == '+' as u8 || c == '-' as u8,
            CharClass::Plain => c != '"' as u8 && c != '\\' as u8,
            CharClass::Hash => c == '#' as u8,
        }
    }
}

/// Where the longest run of bytes of one class that starts at `at` ends.
pub open spec fn run_end(s: Seq<u8>, at: int, class: CharClass) -> int
    decreases s.len() - at,
{
    if 0 <= at < s.len() && class.has(s[at]) {
        run_end(s, at + 1, class)
    } else {
        at
    }
}

/// A run stays inside the input, holds bytes of its class only, and cannot be longer.
pub proof fn lemma_run_end(s: Seq<u8>, at: int, class: CharClass)
    ensures
        at <= run_end(s, at, class),
        at <= s.len() ==> run_end(s, at, class) <= s.len(),
        forall|i: int| at <= i < run_end(s, at, class) ==> class.has(#[trigger] s[i]),
        0 <= run_end(s, at, class) < s.len() ==> !class.has(s[run_end(s, at, class)]),
    decreases s.len() - at,
{
    if 0 <= at < s.len() && class.has(s[at]) {
        lemma_run_end(s, at + 1, class);
    }
}

/// A run is where it was found to be.
pub proof fn lemma_run_is(s: Seq<u8>, at: int, class: CharClass, end: int)
    requires
        0 <= at <= end <= s.len(),
        forall|i: int| at <= i < end ==> class.has(#[trigger] s[i]),
        end < s.len() ==> !class.has(s[end]),
    ensures
        run_end(s, at, class) == end,
    decreases end - at,
{
    if at < end {
        lemma_run_is(s, at + 1, class, end);
    }
}

/// Whether the ASCII text `token` stands at `at`.
pub open spec fn looking_at(s: Seq<u8>, at: int, token: Seq<char>) -> bool {
    &&& at + token.len() <= s.len()
    &&& forall|i: int| 0 <= i < token.len() ==> #[trigger] token[i] == s[at + i] as char
}

/// How many line breaks stand before `at`.
pub open spec fn line_breaks(s: Seq<u8>, at: int) -> int
    decreases at,
{
    if at <= 0 {
        0
    } else {
        line_breaks(s, at - 1) + (if s[at - 1] == 10 {
            1int
        } else {
            0
        })
    }
}

/// Where the line that holds `at` starts.
pub open spec fn line_start(s: Seq<u8>, at: int) -> int
    decreases at,
{
    if at <= 0 {
        0
    } else if s[at - 1] == 10 {
        at
    } else {
        line_start(s, at - 1)
    }
}

/// A count as far as a `usize` can hold it.
pub open spec fn capped(count: int) -> usize {
    if count <= usize::MAX {
        count as usize
    } else {
        usize::MAX
    }
}

/// The place that an offset in the input is at: lines and columns count from one.
pub open spec fn position_at(s: Seq<u8>, at: int) -> Position {
    Position {
        line: capped(line_breaks(s, at) + 1),
        col: capped(at - line_start(s, at) + 1),
    }
}

/// The mathematical value of a [`Bytes`]: the whole input, how much of it was read, and the
/// extensions that are on.
pub struct BytesView {
    pub input: Seq<u8>,
    pub at: int,
    pub exts: Extensions,
}

impl BytesView {
    /// Whether the reader is inside its input, or at its end.
    pub open spec fn wf(self) -> bool {
        0 <= self.at <= self.input.len() <= usize::MAX
    }

    /// The same input, read up to another offset.
    pub open spec fn moved(self, at: int) -> BytesView {
        BytesView { at, ..self }
    }

    /// The byte `ahead` bytes after the next one.
    pub open spec fn byte(self, ahead: int) -> Option<u8> {
        if self.at + ahead < self.input.len() {
            Some(self.input[self.at + ahead])
        } else {
            None
        }
    }

    /// The next byte.
    pub open spec fn peek(self) -> Option<u8> {
        self.byte(0)
    }

    /// What was not read yet.
    pub open spec fn rest(self) -> Seq<u8> {
        self.input.skip(self.at)
    }

    /// Whether the ASCII text `token` comes next.
    pub open spec fn sees(self, token: Seq<char>) -> bool {
        looking_at(self.input, self.at, token)
    }

    /// Whether the ASCII word comes next and ends there.
    pub open spec fn sees_word(self, word: Seq<char>) -> bool {
        &&& self.sees(word)
        &&& !(self.byte(word.len() as int) matches Some(c) && CharClass::IdentOther.has(c))
    }

    /// Whether `later` is this reader further on in the same input.
    pub open spec fn leads_to(self, later: BytesView) -> bool {
        &&& later.input == self.input
        &&& later.exts == self.exts
        &&& self.at <= later.at <= self.input.len()
    }

    /// Where this reader is in its input.
    pub open spec fn position(self) -> Position {
        position_at(self.input, self.at)
    }
}

/// A reader of an input: which bytes, how far it has come, and the extensions that are on.
#[derive(Clone, Copy, Debug)]
pub struct Bytes<'a> {
    input: &'a [u8],
    at: usize,
    exts: Extensions,
}

impl<'a> View for Bytes<'a> {
    type V = BytesView;

    closed spec fn view(&self) -> BytesView {
        BytesView { input: self.input@, at: self.at as int, exts: self.exts }
    }
}

impl<'a> Bytes<'a> {
    /// Starts at the first byte, with no extension on.
    pub fn start(input: &'a [u8]) -> (bytes: Bytes<'a>)
        ensures
            bytes@ == (BytesView { input: input@, at: 0, exts: Extensions::none() }),
            bytes@.wf(),
    {
        assert(input.len() == input@.len());
        Bytes { input, at: 0, exts: Extensions::empty() }
    }

    /// The extensions that are on.
    pub fn exts(&self) -> (exts: Extensions)
        ensures
            exts == self@.exts,
    {
        self.exts
    }

    /// Switches extensions on.
    pub fn enable(&mut self, exts: Extensions)
        ensures
            final(self)@ == (BytesView { exts: old(self)@.exts.with(exts), ..old(self)@ }),
    {
        self.exts = self.exts.union(exts);
    }

    /// What was not read yet.
    pub fn bytes(&self) -> (rest: &'a [u8])
        requires
            self@.wf(),
        ensures
            rest@ == self@.rest(),
    {
        proof {
            assert(self@.rest() =~= self.input@.subrange(self@.at, self@.input.len() as int));
        }
        slice_subrange(self.input, self.at, self.input.len())
    }

    /// The offset of the next byte.
    pub fn offset(&self) -> (at: usize)
        ensures
            at == self@.at,
    {
        self.at
    }

    /// Whether everything was read.
    pub fn is_at_end(&self) -> (end: bool)
        requires
            self@.wf(),
        ensures
            end == (self@.at == self@.input.len()),
    {
        self.at == self.input.len()
    }

    /// The byte at an offset of the input.
    pub fn byte_at(&self, at: usize) -> (found: Option<u8>)
        ensures
            found == (if at < self@.input.len() {
                Some(self@.input[at as int])
            } else {
                None
            }),
    {
        if at < self.input.len() {
            Some(self.input[at])
        } else {
            None
        }
    }

    /// A part of the input.
    pub fn part(&self, from: usize, to: usize) -> (part: &'a [u8])
        requires
            from <= to <= self@.input.len(),
        ensures
            part@ == self@.input.subrange(from as int, to as int),
    {
        slice_subrange(self.input, from, to)
    }

    /// Goes to an offset of the input.
    pub fn set_offset(&mut self, at: usize)
        requires
            at <= old(self)@.input.len(),
        ensures
            final(self)@ == old(self)@.moved(at as int),
    {
        self.at = at;
    }

    /// The byte `ahead` bytes after the next one.
    pub fn peek_at(&self, ahead: usize) -> (found: Option<u8>)
        requires
            self@.wf(),
        ensures
            found == self@.byte(ahead as int),
    {
        if ahead < self.input.len() - self.at {
            Some(self.input[self.at + ahead])
        } else {
            None
        }
    }

    /// The next byte.
    pub fn peek(&self) -> (found: Option<u8>)
        requires
            self@.wf(),
        ensures
            found == self@.peek(),
    {
        self.peek_at(0)
    }

    /// The next byte, which has to be there.
    pub fn peek_or_eof(&self) -> (found: Result<u8, Error>)
        requires
            self@.wf(),
        ensures
            match self@.peek() {
                Some(c) => found == Ok::<u8, Error>(c),
                None => found == Err::<u8, Error>(Error::Eof),
            },
    {
        match self.peek() {
            Some(c) => Ok(c),
            None => Err(Error::Eof),
        }
    }

    /// Reads over some bytes.
    pub fn advance(&mut self, count: usize)
        requires
            old(self)@.wf(),
            old(self)@.at + count <= old(self)@.input.len(),
        ensures
            final(self)@ == old(self)@.moved(old(self)@.at + count),
            final(self)@.wf(),
    {
        self.at = self.at + count;
    }

    /// Reads over the next byte, which has to be there.
    pub fn advance_single(&mut self) -> (done: Result<(), Error>)
        requires
            old(self)@.wf(),
        ensures
            final(self)@.wf(),
            match old(self)@.peek() {
                Some(_) => done is Ok && final(self)@ == old(self)@.moved(old(self)@.at + 1),
                None => done == Err::<(), Error>(Error::Eof) && final(self)@ == old(self)@,
            },
    {
        match self.peek() {
            Some(_) => {
                self.advance(1);
                Ok(())
            },
            None => Err(Error::Eof),
        }
    }

    /// Reads the next byte, which has to be there.
    pub fn eat_byte(&mut self) -> (eaten: Result<u8, Error>)
        requires
            old(self)@.wf(),
        ensures
            final(self)@.wf(),
            match old(self)@.peek() {
                Some(c) => eaten == Ok::<u8, Error>(c) && final(self)@ == old(self)@.moved(
                    old(self)@.at + 1,
                ),
                None => eaten == Err::<u8, Error>(Error::Eof) && final(self)@ == old(self)@,
            },
    {
        match self.peek() {
            Some(c) => {
                self.advance(1);
                Ok(c)
            },
            None => Err(Error::Eof),
        }
    }

    /// Where the longest run of bytes of one class from an offset on ends.
    pub fn run_from(&self, at: usize, class: CharClass) -> (end: usize)
        requires
            at <= self@.input.len(),
        ensures
            end == run_end(self@.input, at as int, class),
            at <= end <= self@.input.len(),
    {
        let mut end = at;
        while end < self.input.len() && class.contains(self.input[end])
            invariant
                at <= end <= self@.input.len(),
                run_end(self@.input, at as int, class) == run_end(self@.input, end as int, class),
            decreases self.input.len() - end,
        {
            end = end + 1;
        }
        end
    }

    /// How many of the next bytes are of one class.
    pub fn next_bytes_contained_in(&self, class: CharClass) -> (count: usize)
        requires
            self@.wf(),
        ensures
            count == run_end(self@.input, self@.at, class) - self@.at,
            self@.at + count <= self@.input.len(),
    {
        self.run_from(self.at, class) - self.at
    }

    /// Whether a token comes next.
    pub fn test_for(&self, token: &str) -> (found: bool)
        requires
            self@.wf(),
            is_ascii(token),
        ensures
            found == self@.sees(token@),
    {
        let bytes = token.as_bytes();
        if bytes.len() > self.input.len() - self.at {
            return false;
        }
        let mut i: usize = 0;
        while i < bytes.len()
            invariant
                i <= bytes.len(),
                self@.wf(),
                bytes.len() <= self.input.len() - self.at,
                bytes@ == Seq::new(token@.len(), |i: int| token@[i] as u8),
                is_ascii(token),
                forall|j: int|
                    0 <= j < i ==> #[trigger] token@[j] == self@.input[self@.at + j] as char,
            decreases bytes.len() - i,
        {
            if bytes[i] != self.input[self.at + i] {
                assert(token@[i as int] != self@.input[self@.at + i] as char);
                return false;
            }
            i = i + 1;
        }
        true
    }

    /// Reads a token where it comes next.
    pub fn consume(&mut self, token: &str) -> (found: bool)
        requires
            old(self)@.wf(),
            is_ascii(token),
        ensures
            final(self)@.wf(),
            found == old(self)@.sees(token@),
            final(self)@ == (if found {
                old(self)@.moved(old(self)@.at + token@.len())
            } else {
                old(self)@
            }),
    {
        if self.test_for(token) {
            self.advance(token.as_bytes().len());
            true
        } else {
            false
        }
    }

    /// Reads one byte where it comes next.
    pub fn consume_byte(&mut self, byte: u8) -> (found: bool)
        requires
            old(self)@.wf(),
        ensures
            final(self)@.wf(),
            found == (old(self)@.peek() == Some(byte)),
            final(self)@ == (if found {
                old(self)@.moved(old(self)@.at + 1)
            } else {
                old(self)@
            }),
    {
        match self.peek() {
            Some(c) => if c == byte {
                self.advance(1);
                true
            } else {
                false
            },
            None => false,
        }
    }

    /// Whether a word comes next: a token that no identifier character follows.
    pub fn check_ident(&self, ident: &str) -> (found: bool)
        requires
            self@.wf(),
            is_ascii(ident),
        ensures
            found == self@.sees_word(ident@),
    {
        self.test_for(ident) && !self.check_ident_other_char(ident.as_bytes().len())
    }

    /// Whether the byte `ahead` bytes after the next one can belong to an identifier.
    pub fn check_ident_other_char(&self, ahead: usize) -> (found: bool)
        requires
            self@.wf(),
        ensures
            found == (self@.byte(ahead as int) matches Some(c) && CharClass::IdentOther.has(c)),
    {
        match self.peek_at(ahead) {
            Some(c) => CharClass::IdentOther.contains(c),
            None => false,
        }
    }

    /// Reads a word where it comes next.
    pub fn consume_ident(&mut self, ident: &str) -> (found: bool)
        requires
            old(self)@.wf(),
            is_ascii(ident),
        ensures
            final(self)@.wf(),
            found == old(self)@.sees_word(ident@),
            final(self)@ == (if found {
                old(self)@.moved(old(self)@.at + ident@.len())
            } else {
                old(self)@
            }),
    {
        if self.check_ident(ident) {
            self.advance(ident.as_bytes().len());
            true
        } else {
            false
        }
    }

    /// The place of the next byte.
    pub fn position(&self) -> (position: Position)
        requires
            self@.wf(),
        ensures
            position == self@.position(),
    {
        let mut breaks: usize = 0;
        let mut start: usize = 0;
        let mut i: usize = 0;
        while i < self.at
            invariant
                i <= self.at <= self.input.len(),
                breaks <= i,
                start <= i,
                breaks == line_breaks(self@.input, i as int),
                start == line_start(self@.input, i as int),
            decreases self.at - i,
        {
            if self.input[i] == 10 {
                breaks = breaks + 1;
                start = i + 1;
            }
            i = i + 1;
        }
        Position { line: one_more(breaks), col: one_more(self.at - start) }
    }

    /// The error with the place of the next byte.
    pub fn span_error(&self, code: Error) -> (error: SpannedError)
        requires
            self@.wf(),
        ensures
            error == (SpannedError { code, position: self@.position() }),
    {
        SpannedError { code, position: self.position() }
    }
}

/// The next count, as far as a `usize` can hold it.
fn one_more(count: usize) -> (next: usize)
    ensures
        next == capped(count + 1),
{
    if count < usize::MAX {
        count + 1
    } else {
        count
    }
}

} // verus!
