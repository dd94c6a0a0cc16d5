//! Character and string literals.
use vstd::prelude::*;
use vstd::slice::slice_to_vec;
use vstd::utf8::*;
use crate::error::{outcome, Error, ErrorView};
use crate::parse::number::{decode_hex, hex_value};
use crate::parse::{lemma_run_end, run_end, Bytes, BytesView, CharClass};
use crate::text::{char_from_u32, push_char, text_from_utf8, utf8_text};

verus! {

/// What an escape of one letter stands for.
pub open spec fn simple_escape(c: u8) -> Option<char> {
    if c == '\'' as u8 {
        Some('\'')
    } else if c == '"' as u8 {
        Some('"')
    } else if c == '\\' as u8 {
        Some('\\')
    } else if c == 'n' as u8 {
        Some('\n')
    } else if c == 'r' as u8 {
        Some('\r')
    } else if c == 't' as u8 {
        Some('\t')
    } else if c == '0' as u8 {
        Some('\0')
    } else {
        None
    }
}

/// The mathematical value of a [`ParsedStr`].
pub enum ParsedStrView {
    Allocated(Seq<char>),
    Slice(Seq<char>),
}

impl ParsedStrView {
    /// The text, wherever it is kept.
    pub open spec fn text(self) -> Seq<char> {
        match self {
            ParsedStrView::Allocated(text) => text,
            ParsedStrView::Slice(text) => text,
        }
    }
}

/// A string: a part of the input, or a text of its own where the input holds escapes.
#[derive(Clone, Debug, PartialEq, Eq)]
pub enum ParsedStr<'a> {
    Allocated(String),
    Slice(&'a str),
}

impl<'a> View for ParsedStr<'a> {
    type V = ParsedStrView;

    open spec fn view(&self) -> ParsedStrView {
        match *self {
            ParsedStr::Allocated(text) => ParsedStrView::Allocated(text@),
            ParsedStr::Slice(text) => ParsedStrView::Slice(text@),
        }
    }
}

impl<'a> ParsedStr<'a> {
    /// The text, wherever it is kept.
    pub fn as_str(&self) -> (text: &str)
        ensures
            text@ == self@.text(),
    {
        match self {
            ParsedStr::Allocated(text) => text.as_str(),
            ParsedStr::Slice(text) => text,
        }
    }
}

/// Where the end of a raw string, a quote and `hashes` hashes, is first found from `at` on.
pub open spec fn raw_string_end(s: Seq<u8>, at: int, hashes: int) -> Option<int>
    decreases s.len() - at - hashes,
{
    if at + 1 + hashes > s.len() {
        None
    } else if closes_raw_string(s, at, hashes) {
        Some(at)
    } else {
        raw_string_end(s, at + 1, hashes)
    }
}

/// Whether a quote and `hashes` hashes stand at `at`.
pub open spec fn closes_raw_string(s: Seq<u8>, at: int, hashes: int) -> bool {
    &&& 0 <= at
    &&& at + 1 + hashes <= s.len()
    &&& s[at] == '"' as u8
    &&& forall|i: int| at < i <= at + hashes ==> #[trigger] s[i] == '#' as u8
}

/// The end of a raw string is inside the input.
pub proof fn lemma_raw_string_end(s: Seq<u8>, at: int, hashes: int)
    requires
        0 <= at,
    ensures
        raw_string_end(s, at, hashes) matches Some(end) ==> at <= end && end + 1 + hashes
            <= s.len(),
    decreases s.len() - at - hashes,
{
    if at + 1 + hashes <= s.len() && !closes_raw_string(s, at, hashes) {
        lemma_raw_string_end(s, at + 1, hashes);
    }
}

/// Where the first quote from `from` on stands, before `to`.
pub open spec fn quote_before(s: Seq<u8>, from: int, to: int) -> Option<int>
    decreases to - from,
{
    if from >= to {
        None
    } else if s[from] == '\'' as u8 {
        Some(from)
    } else {
        quote_before(s, from + 1, to)
    }
}

/// The quote is where it was looked for.
pub proof fn lemma_quote_before(s: Seq<u8>, from: int, to: int)
    ensures
        quote_before(s, from, to) matches Some(end) ==> from <= end < to && s[end] == '\'' as u8,
    decreases to - from,
{
    if from < to && s[from] != '\'' as u8 {
        lemma_quote_before(s, from + 1, to);
    }
}

impl BytesView {
    /// Reading a hexadecimal digit.
    pub open spec fn hex_digit(self) -> (BytesView, Result<int, ErrorView>) {
        match self.peek() {
            None => (self, Err(ErrorView::Eof)),
            Some(c) => (
                self.moved(self.at + 1),
                match hex_value(c) {
                    Some(v) => Ok(v),
                    None => Err(ErrorView::InvalidEscape("Non-hex digit found"@)),
                },
            ),
        }
    }

    /// Reading the two digits of a `\x` escape.
    pub open spec fn ascii_escape(self) -> (BytesView, Result<char, ErrorView>) {
        let (between, high) = self.hex_digit();
        match high {
            Err(e) => (between, Err(e)),
            Ok(high) => {
                let (after, low) = between.hex_digit();
                match low {
                    Err(e) => (after, Err(e)),
                    Ok(low) => (after, Ok((high * 16 + low) as char)),
                }
            },
        }
    }

    /// Reading the digits of a `\u` escape, at most `left` more: how many there are left that could
    /// have followed, and the number they make.
    pub open spec fn unicode_digits(self, left: nat, so_far: int) -> (
        BytesView,
        Result<(nat, int), ErrorView>,
    )
        decreases left,
    {
        if left == 0 {
            (self, Ok((left, so_far)))
        } else {
            match self.peek() {
                None => (self, Err(ErrorView::Eof)),
                Some(c) => if c == '}' as u8 {
                    (self, Ok((left, so_far)))
                } else {
                    let (after, digit) = self.hex_digit();
                    match digit {
                        Err(e) => (after, Err(e)),
                        Ok(v) => after.unicode_digits((left - 1) as nat, so_far * 16 + v),
                    }
                },
            }
        }
    }

    /// Reading the braces of a `\u` escape and what is between them.
    pub open spec fn unicode_escape(self) -> (BytesView, Result<char, ErrorView>) {
        match self.peek() {
            None => (self, Err(ErrorView::Eof)),
            Some(c) => {
                let open = self.moved(self.at + 1);
                if c != '{' as u8 {
                    (open, Err(ErrorView::InvalidEscape("Missing { in Unicode escape"@)))
                } else {
                    let (close, digits) = open.unicode_digits(6, 0);
                    match digits {
                        Err(e) => (close, Err(e)),
                        Ok((left, value)) => if left == 6 {
                            (
                                close,
                                Err(
                                    ErrorView::InvalidEscape(
                                        "Expected 1-6 digits, got 0 digits in Unicode escape"@,
                                    ),
                                ),
                            )
                        } else {
                            match close.peek() {
                                None => (close, Err(ErrorView::Eof)),
                                Some(c) => (
                                    close.moved(close.at + 1),
                                    if c != '}' as u8 {
                                        Err(
                                            ErrorView::InvalidEscape(
                                                "No } at the end of Unicode escape"@,
                                            ),
                                        )
                                    } else if !is_scalar(value as u32) {
                                        Err(ErrorView::InvalidEscape("Not a valid char"@))
                                    } else {
                                        Ok(value as u32 as char)
                                    },
                                ),
                            }
                        },
                    }
                }
            },
        }
    }

    /// Reading an escape, the backslash being read already.
    pub open spec fn escape(self) -> (BytesView, Result<char, ErrorView>) {
        match self.peek() {
            None => (self, Err(ErrorView::Eof)),
            Some(c) => {
                let after = self.moved(self.at + 1);
                match simple_escape(c) {
                    Some(escaped) => (after, Ok(escaped)),
                    None => if c == 'x' as u8 {
                        after.ascii_escape()
                    } else if c == 'u' as u8 {
                        after.unicode_escape()
                    } else {
                        (after, Err(ErrorView::InvalidEscape("Unknown escape character"@)))
                    },
                }
            },
        }
    }

    /// Reading a character that is no escape: what stands before the quote, which is at most four
    /// bytes away, has to be one character.
    pub open spec fn plain_char(self) -> (BytesView, Result<char, ErrorView>) {
        let to = if self.at + 5 <= self.input.len() {
            self.at + 5
        } else {
            self.input.len() as int
        };
        match quote_before(self.input, self.at, to) {
            None => (self, Err(ErrorView::ExpectedChar)),
            Some(end) => match utf8_text(self.upto(end)) {
                Err(e) => (self, Err(ErrorView::Utf8Error(e))),
                Ok(text) => if text.len() == 1 {
                    (self.moved(end), Ok(text[0]))
                } else {
                    (self, Err(ErrorView::ExpectedChar))
                },
            },
        }
    }

    /// Reading a character literal.
    pub open spec fn char(self) -> (BytesView, Result<char, ErrorView>) {
        if self.peek() != Some('\'' as u8) {
            (self, Err(ErrorView::ExpectedChar))
        } else {
            let open = self.moved(self.at + 1);
            match open.peek() {
                None => (open, Err(ErrorView::Eof)),
                Some(c) => {
                    let (close, found) = if c == '\\' as u8 {
                        open.moved(open.at + 1).escape()
                    } else {
                        open.plain_char()
                    };
                    match found {
                        Err(e) => (close, Err(e)),
                        Ok(found) => if close.peek() == Some('\'' as u8) {
                            (close.moved(close.at + 1), Ok(found))
                        } else {
                            (close, Err(ErrorView::ExpectedChar))
                        },
                    }
                },
            }
        }
    }

    /// Reading a string from an escape in it on, the backslash being read already; `before` is what
    /// the string holds before it.
    pub open spec fn after_escape(self, before: Seq<u8>) -> (BytesView, Result<Seq<u8>, ErrorView>)
        decreases self.input.len() - self.at,
        when self.wf()
    {
        let (escaped, found) = self.escape();
        match found {
            Err(e) => (escaped, Err(e)),
            Ok(c) => {
                let end = run_end(self.input, escaped.at, CharClass::Plain);
                let bytes = before + encode_scalar(c as u32) + escaped.upto(end);
                if end >= self.input.len() {
                    (escaped, Err(ErrorView::Eof))
                } else if self.input[end] == '"' as u8 {
                    (self.moved(end + 1), Ok(bytes))
                } else {
                    proof {
                        lemma_escape(self);
                        lemma_run_end(self.input, escaped.at, CharClass::Plain);
                    }
                    self.moved(end + 1).after_escape(bytes)
                }
            },
        }
    }

    /// Reading a string with escapes, the opening quote being read already.
    pub open spec fn escaped_string(self) -> (BytesView, Result<ParsedStrView, ErrorView>) {
        let end = run_end(self.input, self.at, CharClass::Plain);
        if end >= self.input.len() {
            (self, Err(ErrorView::ExpectedStringEnd))
        } else if self.input[end] == '"' as u8 {
            match utf8_text(self.upto(end)) {
                Err(e) => (self, Err(ErrorView::Utf8Error(e))),
                Ok(text) => (self.moved(end + 1), Ok(ParsedStrView::Slice(text))),
            }
        } else {
            let (after, found) = self.moved(end + 1).after_escape(self.upto(end));
            match found {
                Err(e) => (after, Err(e)),
                Ok(bytes) => (
                    after,
                    match utf8_text(bytes) {
                        Err(e) => Err(ErrorView::Utf8Error(e)),
                        Ok(text) => Ok(ParsedStrView::Allocated(text)),
                    },
                ),
            }
        }
    }

    /// Reading a raw string, the `r` being read already.
    pub open spec fn raw_string(self) -> (BytesView, Result<ParsedStrView, ErrorView>) {
        let quote = run_end(self.input, self.at, CharClass::Hash);
        let hashes = quote - self.at;
        if self.moved(quote).peek() != Some('"' as u8) {
            (self.moved(quote), Err(ErrorView::ExpectedString))
        } else {
            let open = self.moved(quote + 1);
            match raw_string_end(self.input, open.at, hashes) {
                None => (open, Err(ErrorView::ExpectedStringEnd)),
                Some(end) => match utf8_text(open.upto(end)) {
                    Err(e) => (open, Err(ErrorView::Utf8Error(e))),
                    Ok(text) => (open.moved(end + 1 + hashes), Ok(ParsedStrView::Slice(text))),
                },
            }
        }
    }

    /// Reading a string.
    pub open spec fn string(self) -> (BytesView, Result<ParsedStrView, ErrorView>) {
        if self.peek() == Some('"' as u8) {
            self.moved(self.at + 1).escaped_string()
        } else if self.peek() == Some('r' as u8) {
            self.moved(self.at + 1).raw_string()
        } else {
            (self, Err(ErrorView::ExpectedString))
        }
    }
}

/// A hexadecimal digit is below sixteen, and reading it moves over one byte.
proof fn lemma_hex_digit(b: BytesView)
    requires
        b.wf(),
    ensures
        b.leads_to(b.hex_digit().0),
        b.hex_digit().1 matches Ok(v) ==> 0 <= v < 16 && b.hex_digit().0 == b.moved(b.at + 1)
            && b.at < b.input.len(),
{
}

/// The digits of a `\u` escape make a number of at most six of them, each read over.
proof fn lemma_unicode_digits(b: BytesView, left: nat, so_far: int)
    requires
        b.wf(),
        left <= 6,
        0 <= so_far < pow16(6 - left),
    ensures
        b.leads_to(b.unicode_digits(left, so_far).0),
        b.unicode_digits(left, so_far).1 matches Ok((rest, value)) ==> rest <= left && 0 <= value
            < pow16(6 - rest) && b.unicode_digits(left, so_far).0.at == b.at + left - rest,
    decreases left,
{
    if left > 0 && b.at < b.input.len() && b.peek() != Some('}' as u8) {
        lemma_hex_digit(b);
        if let Ok(v) = b.hex_digit().1 {
            assert(pow16(6 - (left - 1)) == 16 * pow16(6 - left));
            lemma_unicode_digits(b.moved(b.at + 1), (left - 1) as nat, so_far * 16 + v);
        }
    }
}

/// Sixteen to the power of a small number.
spec fn pow16(n: int) -> int {
    if n <= 0 {
        1
    } else if n == 1 {
        0x10
    } else if n == 2 {
        0x100
    } else if n == 3 {
        0x1000
    } else if n == 4 {
        0x10000
    } else if n == 5 {
        0x100000
    } else {
        0x1000000
    }
}

/// Reading an escape only moves forward, over at least as many bytes as the character's encoding
/// takes without the backslash.
pub proof fn lemma_escape(b: BytesView)
    requires
        b.wf(),
    ensures
        b.leads_to(b.escape().0),
        b.escape().1 matches Ok(c) ==> b.at < b.escape().0.at && encode_scalar(c as u32).len()
            <= b.escape().0.at - b.at,
{
    if b.at < b.input.len() {
        let after = b.moved(b.at + 1);
        lemma_hex_digit(after);
        if let Ok(high) = after.hex_digit().1 {
            lemma_hex_digit(after.hex_digit().0);
        }
        if after.at < after.input.len() {
            lemma_unicode_digits(after.moved(after.at + 1), 6, 0);
        }
    }
}

/// Reading a character literal only moves forward.
pub proof fn lemma_char(b: BytesView)
    requires
        b.wf(),
    ensures
        b.leads_to(b.char().0),
        b.char().1 is Ok ==> b.at < b.char().0.at,
{
    if b.at + 1 < b.input.len() {
        let open = b.moved(b.at + 1);
        lemma_escape(b.moved(b.at + 2));
        let to = if open.at + 5 <= open.input.len() {
            open.at + 5
        } else {
            open.input.len() as int
        };
        lemma_quote_before(open.input, open.at, to);
    }
}

/// Reading on after an escape only moves forward, and adds no more bytes than it reads over.
pub proof fn lemma_after_escape(b: BytesView, before: Seq<u8>)
    requires
        b.wf(),
    ensures
        b.leads_to(b.after_escape(before).0),
        b.after_escape(before).1 matches Ok(bytes) ==> b.at < b.after_escape(before).0.at
            && bytes.len() - before.len() <= b.after_escape(before).0.at - b.at,
    decreases b.input.len() - b.at,
{
    lemma_escape(b);
    let (escaped, found) = b.escape();
    if let Ok(c) = found {
        let end = run_end(b.input, escaped.at, CharClass::Plain);
        lemma_run_end(b.input, escaped.at, CharClass::Plain);
        if end < b.input.len() && b.input[end] != '"' as u8 {
            lemma_after_escape(
                b.moved(end + 1),
                before + encode_scalar(c as u32) + escaped.upto(end),
            );
        }
    }
}

/// A text encodes to the bytes that it was read from.
proof fn lemma_text_encodes(bytes: Seq<u8>)
    ensures
        utf8_text(bytes) matches Ok(text) ==> encode_utf8(text) == bytes,
{
    if valid_utf8(bytes) {
        decode_utf8_encode_utf8(bytes);
    }
}

/// Reading a string only moves forward, and its text takes no more bytes than were read.
pub proof fn lemma_string(b: BytesView)
    requires
        b.wf(),
    ensures
        b.leads_to(b.string().0),
        b.string().1 matches Ok(found) ==> b.at < b.string().0.at && encode_utf8(
            found.text(),
        ).len() <= b.string().0.at - b.at,
{
    if b.at < b.input.len() {
        let open = b.moved(b.at + 1);
        let end = run_end(b.input, open.at, CharClass::Plain);
        lemma_run_end(b.input, open.at, CharClass::Plain);
        if b.peek() == Some('"' as u8) {
            lemma_text_encodes(open.upto(end));
            if end < b.input.len() {
                lemma_after_escape(open.moved(end + 1), open.upto(end));
                if let Ok(bytes) = open.moved(end + 1).after_escape(open.upto(end)).1 {
                    lemma_text_encodes(bytes);
                }
            }
        } else if b.peek() == Some('r' as u8) {
            let quote = run_end(b.input, open.at, CharClass::Hash);
            lemma_run_end(b.input, open.at, CharClass::Hash);
            lemma_raw_string_end(b.input, quote + 1, quote - open.at);
            if let Some(end) = raw_string_end(b.input, quote + 1, quote - open.at) {
                lemma_text_encodes(open.moved(quote + 1).upto(end));
            }
        }
    }
}

impl<'a> Bytes<'a> {
    /// Reads a hexadecimal digit.
    fn hex_digit(&mut self) -> (found: Result<u8, Error>)
        requires
            old(self)@.wf(),
        ensures
            final(self)@.wf(),
            final(self)@ == old(self)@.hex_digit().0,
            match old(self)@.hex_digit().1 {
                Ok(v) => found matches Ok(digit) && digit == v && digit < 16,
                Err(e) => found matches Err(error) && error@ == e,
            },
    {
        let c = self.eat_byte()?;
        match decode_hex(c) {
            Some(digit) => Ok(digit),
            None => Err(Error::InvalidEscape("Non-hex digit found")),
        }
    }

    /// Reads the two digits of a `\x` escape.
    fn decode_ascii_escape(&mut self) -> (found: Result<char, Error>)
        requires
            old(self)@.wf(),
        ensures
            final(self)@.wf(),
            (final(self)@, outcome(found)) == old(self)@.ascii_escape(),
    {
        let high = self.hex_digit()?;
        let low = self.hex_digit()?;
        let value: u8 = high * 16 + low;
        Ok(value as char)
    }

    /// Reads the braces of a `\u` escape and what is between them.
    fn decode_unicode_escape(&mut self) -> (found: Result<char, Error>)
        requires
            old(self)@.wf(),
        ensures
            final(self)@.wf(),
            (final(self)@, outcome(found)) == old(self)@.unicode_escape(),
    {
        let c = self.eat_byte()?;
        if c != '{' as u8 {
            return Err(Error::InvalidEscape("Missing { in Unicode escape"));
        }
        let ghost open = self@;
        let mut left: usize = 6;
        let mut value: u32 = 0;
        while left > 0
            invariant_except_break
                open.unicode_digits(6, 0) == self@.unicode_digits(left as nat, value as int),
            invariant
                self@.wf(),
                open == old(self)@.moved(old(self)@.at + 1),
                old(self)@.peek() == Some('{' as u8),
                left <= 6,
                value < pow16(6 - left),
            ensures
                open.unicode_digits(6, 0) == (
                    self@,
                    Ok::<(nat, int), ErrorView>((left as nat, value as int)),
                ),
            decreases left,
        {
            let c = self.peek_or_eof()?;
            if c == '}' as u8 {
                break;
            }
            let digit = self.hex_digit()?;
            value = value * 16 + digit as u32;
            left = left - 1;
        }
        if left == 6 {
            return Err(
                Error::InvalidEscape("Expected 1-6 digits, got 0 digits in Unicode escape"),
            );
        }
        let c = self.eat_byte()?;
        if c != '}' as u8 {
            return Err(Error::InvalidEscape("No } at the end of Unicode escape"));
        }
        match char_from_u32(value) {
            Some(c) => Ok(c),
            None => Err(Error::InvalidEscape("Not a valid char")),
        }
    }

    /// Reads an escape, the backslash being read already.
    pub fn parse_escape(&mut self) -> (found: Result<char, Error>)
        requires
            old(self)@.wf(),
        ensures
            final(self)@.wf(),
            (final(self)@, outcome(found)) == old(self)@.escape(),
    {
        let c = self.eat_byte()?;
        if c == '\'' as u8 {
            Ok('\'')
        } else if c == '"' as u8 {
            Ok('"')
        } else if c == '\\' as u8 {
            Ok('\\')
        } else if c == 'n' as u8 {
            Ok('\n')
        } else if c == 'r' as u8 {
            Ok('\r')
        } else if c == 't' as u8 {
            Ok('\t')
        } else if c == '0' as u8 {
            Ok('\0')
        } else if c == 'x' as u8 {
            self.decode_ascii_escape()
        } else if c == 'u' as u8 {
            self.decode_unicode_escape()
        } else {
            Err(Error::InvalidEscape("Unknown escape character"))
        }
    }

    /// Reads a character that is no escape.
    fn plain_char(&mut self) -> (found: Result<char, Error>)
        requires
            old(self)@.wf(),
        ensures
            final(self)@.wf(),
            (final(self)@, outcome(found)) == old(self)@.plain_char(),
    {
        let start = self.offset();
        let ghost to = if start + 5 <= self@.input.len() {
            start + 5
        } else {
            self@.input.len() as int
        };
        proof {
            lemma_quote_before(self@.input, self@.at, to);
        }
        let mut end = start;
        while end - start < 5
            invariant
                self@.wf(),
                self@ == old(self)@,
                start == self@.at,
                start <= end <= to <= start + 5,
                to == (if start + 5 <= self@.input.len() {
                    start + 5
                } else {
                    self@.input.len() as int
                }),
                quote_before(self@.input, start as int, to) == quote_before(
                    self@.input,
                    end as int,
                    to,
                ),
            decreases to - end,
        {
            match self.byte_at(end) {
                None => {
                    return Err(Error::ExpectedChar);
                },
                Some(c) => {
                    if c == '\'' as u8 {
                        return match text_from_utf8(self.part(start, end)) {
                            Err(e) => Err(Error::Utf8Error(e)),
                            Ok(text) => if text.unicode_len() == 1 {
                                self.set_offset(end);
                                Ok(text.get_char(0))
                            } else {
                                Err(Error::ExpectedChar)
                            },
                        };
                    }
                },
            }
            end = end + 1;
        }
        Err(Error::ExpectedChar)
    }

    /// Reads a character literal.
    pub fn char(&mut self) -> (found: Result<char, Error>)
        requires
            old(self)@.wf(),
        ensures
            final(self)@.wf(),
            (final(self)@, outcome(found)) == old(self)@.char(),
    {
        if !self.consume_byte('\'' as u8) {
            return Err(Error::ExpectedChar);
        }
        let c = self.peek_or_eof()?;
        let found = if c == '\\' as u8 {
            self.advance(1);
            self.parse_escape()?
        } else {
            self.plain_char()?
        };
        if !self.consume_byte('\'' as u8) {
            return Err(Error::ExpectedChar);
        }
        Ok(found)
    }

    /// Reads a string with escapes, the opening quote being read already.
    fn escaped_string(&mut self) -> (found: Result<ParsedStr<'a>, Error>)
        requires
            old(self)@.wf(),
        ensures
            final(self)@.wf(),
            (final(self)@, outcome(found)) == old(self)@.escaped_string(),
    {
        proof {
            lemma_run_end(self@.input, self@.at, CharClass::Plain);
        }
        let start = self.offset();
        let end = self.run_from(start, CharClass::Plain);
        let stop = match self.byte_at(end) {
            Some(c) => c,
            None => {
                return Err(Error::ExpectedStringEnd);
            },
        };
        if stop == '"' as u8 {
            return match text_from_utf8(self.part(start, end)) {
                Err(e) => Err(Error::Utf8Error(e)),
                Ok(text) => {
                    self.set_offset(end + 1);
                    Ok(ParsedStr::Slice(text))
                },
            };
        }
        let mut bytes: Vec<u8> = slice_to_vec(self.part(start, end));
        self.set_offset(end + 1);
        let ghost first = self@;
        let ghost held = bytes@;
        loop
            invariant
                self@.wf(),
                first == old(self)@.moved(end + 1),
                held == old(self)@.upto(end as int),
                end == run_end(old(self)@.input, old(self)@.at, CharClass::Plain),
                end < old(self)@.input.len(),
                old(self)@.input[end as int] != '"' as u8,
                self@.input == first.input,
                self@.exts == first.exts,
                first.after_escape(held) == self@.after_escape(bytes@),
            decreases self@.input.len() - self@.at,
        {
            proof {
                lemma_escape(self@);
            }
            let ghost before = bytes@;
            let c = self.parse_escape()?;
            let start = self.offset();
            let end = self.run_from(start, CharClass::Plain);
            let stop = match self.byte_at(end) {
                Some(c) => c,
                None => {
                    return Err(Error::Eof);
                },
            };
            push_char(&mut bytes, c);
            push_bytes(&mut bytes, self.part(start, end));
            self.set_offset(end + 1);
            if stop == '"' as u8 {
                return match text_from_utf8(bytes.as_slice()) {
                    Err(e) => Err(Error::Utf8Error(e)),
                    Ok(text) => Ok(ParsedStr::Allocated(text.to_owned())),
                };
            }
        }
    }

    /// Whether a quote and as many hashes as given stand at an offset.
    fn closes_raw_string(&self, at: usize, hashes: usize) -> (closes: bool)
        requires
            at + 1 + hashes <= self@.input.len() <= usize::MAX,
        ensures
            closes == closes_raw_string(self@.input, at as int, hashes as int),
    {
        if self.byte_at(at) != Some('"' as u8) {
            return false;
        }
        let mut i: usize = 0;
        while i < hashes
            invariant
                i <= hashes,
                at + 1 + hashes <= self@.input.len() <= usize::MAX,
                forall|j: int| at < j <= at + i ==> #[trigger] self@.input[j] == '#' as u8,
            decreases hashes - i,
        {
            if self.byte_at(at + 1 + i) != Some('#' as u8) {
                assert(self@.input[at + 1 + i] != '#' as u8);
                return false;
            }
            i = i + 1;
        }
        true
    }

    /// Reads a raw string, the `r` being read already.
    fn raw_string(&mut self) -> (found: Result<ParsedStr<'a>, Error>)
        requires
            old(self)@.wf(),
        ensures
            final(self)@.wf(),
            (final(self)@, outcome(found)) == old(self)@.raw_string(),
    {
        let hashes = self.next_bytes_contained_in(CharClass::Hash);
        proof {
            lemma_run_end(self@.input, self@.at, CharClass::Hash);
        }
        self.advance(hashes);
        if !self.consume_byte('"' as u8) {
            return Err(Error::ExpectedString);
        }
        let start = self.offset();
        let len = start + self.bytes().len();
        proof {
            lemma_raw_string_end(self@.input, start as int, hashes as int);
        }
        let mut end = start;
        while hashes < len - end
            invariant
                self@.wf(),
                start == self@.at,
                len == self@.input.len(),
                start <= end <= len,
                raw_string_end(self@.input, start as int, hashes as int) == raw_string_end(
                    self@.input,
                    end as int,
                    hashes as int,
                ),
                self@ == old(self)@.moved(start as int),
                start == run_end(old(self)@.input, old(self)@.at, CharClass::Hash) + 1,
                hashes == start - 1 - old(self)@.at,
                old(self)@.moved(start - 1).peek() == Some('"' as u8),
            decreases len - end,
        {
            if self.closes_raw_string(end, hashes) {
                return match text_from_utf8(self.part(start, end)) {
                    Err(e) => Err(Error::Utf8Error(e)),
                    Ok(text) => {
                        self.set_offset(end + 1 + hashes);
                        Ok(ParsedStr::Slice(text))
                    },
                };
            }
            end = end + 1;
        }
        Err(Error::ExpectedStringEnd)
    }

    /// Reads a string.
    pub fn string(&mut self) -> (found: Result<ParsedStr<'a>, Error>)
        requires
            old(self)@.wf(),
        ensures
            final(self)@.wf(),
            (final(self)@, outcome(found)) == old(self)@.string(),
    {
        if self.consume_byte('"' as u8) {
            self.escaped_string()
        } else if self.consume_byte('r' as u8) {
            self.raw_string()
        } else {
            Err(Error::ExpectedString)
        }
    }
}

/// Appends bytes.
fn push_bytes(bytes: &mut Vec<u8>, more: &[u8])
    ensures
        final(bytes)@ == old(bytes)@ + more@,
{
    let mut i: usize = 0;
    while i < more.len()
        invariant
            i <= more.len(),
            bytes@ == old(bytes)@ + more@.take(i as int),
        decreases more.len() - i,
    {
        bytes.push(more[i]);
        i = i + 1;
        assert(bytes@ =~= old(bytes)@ + more@.take(i as int));
    }
    assert(more@.take(i as int) =~= more@);
}

} // verus!
