//! The attributes at the start of a document, which switch extensions on.
use vstd::prelude::*;
use vstd::string::is_ascii;
use crate::error::{outcome, Error, ErrorView, SpannedError};
use crate::extensions::Extensions;
use crate::parse::ident::{ascii_str, lemma_identifier};
use crate::parse::space::{lemma_comma, lemma_skip_ws};
use crate::parse::{Bytes, BytesView, CharClass};
use crate::text::ascii_text;

verus! {

impl BytesView {
    /// Reading tokens with space after each: whether all were there. The first that is not ends the
    /// reading.
    pub open spec fn spaced_tokens(self, tokens: Seq<Seq<char>>) -> (
        BytesView,
        Result<bool, ErrorView>,
    )
        decreases tokens.len(),
    {
        if tokens.len() == 0 {
            (self, Ok(true))
        } else if !self.sees(tokens[0]) {
            (self, Ok(false))
        } else {
            let (after, result) = self.moved(self.at + tokens[0].len()).skip_ws();
            match result {
                Err(e) => (after, Err(e)),
                Ok(_) => after.spaced_tokens(tokens.drop_first()),
            }
        }
    }

    /// Reading names of extensions with commas between them, `so_far` being on already.
    pub open spec fn extension_names(self, so_far: Extensions) -> (
        BytesView,
        Result<Extensions, ErrorView>,
    )
        decreases self.input.len() - self.at,
        when self.wf()
    {
        let (named, ident) = self.identifier();
        match ident {
            Err(e) => (named, Err(e)),
            Ok(ident) => match Extensions::named(ascii_text(ident)) {
                None => (named, Err(ErrorView::NoSuchExtension(ascii_text(ident)))),
                Some(extension) => {
                    let (after, comma) = named.comma();
                    match comma {
                        Err(e) => (after, Err(e)),
                        Ok(comma) => if !(after.peek() matches Some(c)
                            && CharClass::IdentOther.has(c)) {
                            (after, Ok(so_far.with(extension)))
                        } else if !comma {
                            (after, Err(ErrorView::ExpectedComma))
                        } else {
                            proof {
                                lemma_identifier(self);
                                lemma_comma(named);
                            }
                            after.extension_names(so_far.with(extension))
                        },
                    }
                },
            },
        }
    }

    /// Reading one attribute, `#![enable(..)]`: the extensions that it names.
    pub open spec fn attribute(self) -> (BytesView, Result<Extensions, ErrorView>) {
        let (open, opened) = self.spaced_tokens(seq!["#"@, "!"@, "["@, "enable"@, "("@]);
        match opened {
            Err(e) => (open, Err(e)),
            Ok(opened) => if !opened {
                (open, Err(ErrorView::ExpectedAttribute))
            } else {
                let (close, names) = open.extension_names(Extensions::none());
                match names {
                    Err(e) => (close, Err(e)),
                    Ok(extensions) => {
                        let (after, closed) = close.spaced_tokens(seq![")"@, "]"@]);
                        match closed {
                            Err(e) => (after, Err(e)),
                            Ok(closed) => (
                                after,
                                if closed {
                                    Ok(extensions)
                                } else {
                                    Err(ErrorView::ExpectedAttributeEnd)
                                },
                            ),
                        }
                    },
                }
            },
        }
    }

    /// The same reader with more extensions on.
    pub open spec fn enabling(self, extensions: Extensions) -> BytesView {
        BytesView { exts: self.exts.with(extensions), ..self }
    }

    /// Reading over space and attributes, each of which switches its extensions on.
    pub open spec fn attributes(self) -> (BytesView, Result<(), ErrorView>)
        decreases self.input.len() - self.at,
        when self.wf()
    {
        let (spaced, result) = self.skip_ws();
        match result {
            Err(e) => (spaced, Err(e)),
            Ok(_) => if spaced.peek() != Some('#' as u8) {
                (spaced, Ok(()))
            } else {
                let (after, found) = spaced.attribute();
                match found {
                    Err(e) => (after, Err(e)),
                    Ok(extensions) => {
                        proof {
                            lemma_skip_ws(self);
                            lemma_attribute(spaced);
                        }
                        after.enabling(extensions).attributes()
                    },
                }
            },
        }
    }
}

/// Where a document is read from: after its attributes, with their extensions on.
pub open spec fn document(input: Seq<u8>) -> (BytesView, Result<(), ErrorView>) {
    BytesView { input, at: 0, exts: Extensions::none() }.attributes()
}

/// Reading tokens only moves forward, past the first where they were all there.
proof fn lemma_spaced_tokens(b: BytesView, tokens: Seq<Seq<char>>)
    requires
        b.wf(),
    ensures
        b.leads_to(b.spaced_tokens(tokens).0),
        b.spaced_tokens(tokens).1 == Ok::<bool, ErrorView>(true) && tokens.len() > 0 ==> b.at
            + tokens[0].len() <= b.spaced_tokens(tokens).0.at,
    decreases tokens.len(),
{
    if tokens.len() > 0 && b.sees(tokens[0]) {
        let moved = b.moved(b.at + tokens[0].len());
        lemma_skip_ws(moved);
        lemma_spaced_tokens(moved.skip_ws().0, tokens.drop_first());
    }
}

/// Reading names of extensions only moves forward.
proof fn lemma_extension_names(b: BytesView, so_far: Extensions)
    requires
        b.wf(),
    ensures
        b.leads_to(b.extension_names(so_far).0),
    decreases b.input.len() - b.at,
{
    lemma_identifier(b);
    let (named, ident) = b.identifier();
    lemma_comma(named);
    if let Ok(ident) = ident {
        if let Some(extension) = Extensions::named(ascii_text(ident)) {
            let (after, comma) = named.comma();
            if comma == Ok::<bool, ErrorView>(true) {
                lemma_extension_names(after, so_far.with(extension));
            }
        }
    }
}

/// Reading an attribute only moves forward, past at least one byte where there is one.
pub proof fn lemma_attribute(b: BytesView)
    requires
        b.wf(),
    ensures
        b.leads_to(b.attribute().0),
        b.attribute().1 is Ok ==> b.at < b.attribute().0.at,
{
    reveal_strlit("#");
    let opening = seq!["#"@, "!"@, "["@, "enable"@, "("@];
    lemma_spaced_tokens(b, opening);
    let open = b.spaced_tokens(opening).0;
    lemma_extension_names(open, Extensions::none());
    let close = open.extension_names(Extensions::none()).0;
    lemma_spaced_tokens(close, seq![")"@, "]"@]);
}

/// Reading attributes only moves forward and switches nothing off.
pub proof fn lemma_attributes(b: BytesView)
    requires
        b.wf(),
    ensures
        b.attributes().0.wf(),
        b.attributes().0.input == b.input,
        b.at <= b.attributes().0.at,
        b.attributes().0.exts.with(b.exts) == b.attributes().0.exts,
    decreases b.input.len() - b.at,
{
    lemma_skip_ws(b);
    let (spaced, result) = b.skip_ws();
    if result is Ok && spaced.peek() == Some('#' as u8) {
        lemma_attribute(spaced);
        let (after, found) = spaced.attribute();
        if let Ok(extensions) = found {
            lemma_attributes(after.enabling(extensions));
        }
    }
}

impl<'a> Bytes<'a> {
    /// Reads one token and the space after it: whether it was there.
    fn consume_spaced(&mut self, token: &str) -> (found: Result<bool, Error>)
        requires
            old(self)@.wf(),
            is_ascii(token),
        ensures
            final(self)@.wf(),
            ({
                let (after, result) = old(self)@.moved(old(self)@.at + token@.len()).skip_ws();
                if !old(self)@.sees(token@) {
                    found == Ok::<bool, Error>(false) && final(self)@ == old(self)@
                } else {
                    &&& final(self)@ == after
                    &&& match result {
                        Ok(_) => found == Ok::<bool, Error>(true),
                        Err(e) => found matches Err(error) && error@ == e,
                    }
                }
            }),
    {
        if self.consume(token) {
            self.skip_ws()?;
            Ok(true)
        } else {
            Ok(false)
        }
    }

    /// Reads what an attribute starts with: whether it was there.
    fn attribute_start(&mut self) -> (found: Result<bool, Error>)
        requires
            old(self)@.wf(),
        ensures
            final(self)@.wf(),
            (final(self)@, outcome(found)) == old(self)@.spaced_tokens(
                seq!["#"@, "!"@, "["@, "enable"@, "("@],
            ),
    {
        proof {
            reveal_strlit("#");
            reveal_strlit("!");
            reveal_strlit("[");
            reveal_strlit("enable");
            reveal_strlit("(");
            reveal_with_fuel(BytesView::spaced_tokens, 6);
            let tokens = seq!["#"@, "!"@, "["@, "enable"@, "("@];
            let t1 = tokens.drop_first();
            let t2 = t1.drop_first();
            let t3 = t2.drop_first();
            let t4 = t3.drop_first();
            assert(t1 =~= seq!["!"@, "["@, "enable"@, "("@]);
            assert(t2 =~= seq!["["@, "enable"@, "("@]);
            assert(t3 =~= seq!["enable"@, "("@]);
            assert(t4 =~= seq!["("@]);
            assert(t4.drop_first() =~= seq![]);
        }
        if !self.consume_spaced("#")? {
            return Ok(false);
        }
        if !self.consume_spaced("!")? {
            return Ok(false);
        }
        if !self.consume_spaced("[")? {
            return Ok(false);
        }
        if !self.consume_spaced("enable")? {
            return Ok(false);
        }
        self.consume_spaced("(")
    }

    /// Reads what an attribute ends with: whether it was there.
    fn attribute_end(&mut self) -> (found: Result<bool, Error>)
        requires
            old(self)@.wf(),
        ensures
            final(self)@.wf(),
            (final(self)@, outcome(found)) == old(self)@.spaced_tokens(seq![")"@, "]"@]),
    {
        proof {
            reveal_strlit(")");
            reveal_strlit("]");
            reveal_with_fuel(BytesView::spaced_tokens, 3);
            let tokens = seq![")"@, "]"@];
            assert(tokens.drop_first() =~= seq!["]"@]);
            assert(tokens.drop_first().drop_first() =~= seq![]);
        }
        if !self.consume_spaced(")")? {
            return Ok(false);
        }
        self.consume_spaced("]")
    }

    /// Reads names of extensions with commas between them.
    fn extension_names(&mut self) -> (found: Result<Extensions, Error>)
        requires
            old(self)@.wf(),
        ensures
            final(self)@.wf(),
            (final(self)@, outcome(found)) == old(self)@.extension_names(Extensions::none()),
    {
        let mut extensions = Extensions::empty();
        loop
            invariant
                self@.wf(),
                self@.input == old(self)@.input,
                self@.extension_names(extensions) == old(self)@.extension_names(
                    Extensions::none(),
                ),
            decreases self@.input.len() - self@.at,
        {
            proof {
                lemma_identifier(self@);
                lemma_comma(self@.identifier().0);
            }
            let ident = self.identifier()?;
            let extension = match Extensions::from_ident(ident) {
                Some(extension) => extension,
                None => {
                    return Err(Error::NoSuchExtension(ascii_str(ident).to_owned()));
                },
            };
            extensions = extensions.union(extension);
            let comma = self.comma()?;
            if !self.check_ident_other_char(0) {
                return Ok(extensions);
            }
            if !comma {
                return Err(Error::ExpectedComma);
            }
        }
    }

    /// Reads one attribute: the extensions that it names.
    fn attribute(&mut self) -> (found: Result<Extensions, Error>)
        requires
            old(self)@.wf(),
        ensures
            final(self)@.wf(),
            (final(self)@, outcome(found)) == old(self)@.attribute(),
    {
        if !self.attribute_start()? {
            return Err(Error::ExpectedAttribute);
        }
        let extensions = self.extension_names()?;
        if self.attribute_end()? {
            Ok(extensions)
        } else {
            Err(Error::ExpectedAttributeEnd)
        }
    }

    /// Reads over space and attributes, each of which switches its extensions on.
    fn attributes(&mut self) -> (done: Result<(), Error>)
        requires
            old(self)@.wf(),
        ensures
            final(self)@.wf(),
            (final(self)@, outcome(done)) == old(self)@.attributes(),
    {
        loop
            invariant
                self@.wf(),
                self@.input == old(self)@.input,
                self@.attributes() == old(self)@.attributes(),
            decreases self@.input.len() - self@.at,
        {
            proof {
                lemma_skip_ws(self@);
                lemma_attribute(self@.skip_ws().0);
            }
            self.skip_ws()?;
            if self.peek() != Some('#' as u8) {
                return Ok(());
            }
            let extensions = self.attribute()?;
            self.enable(extensions);
        }
    }

    /// Starts reading a document: its attributes are read and their extensions are on.
    pub fn new(input: &'a [u8]) -> (opened: Result<Bytes<'a>, SpannedError>)
        ensures
            ({
                let (start, result) = document(input@);
                match result {
                    Ok(_) => opened matches Ok(bytes) && bytes@ == start && bytes@.wf(),
                    Err(e) => opened matches Err(error) && error.code@ == e && error.position
                        == start.position(),
                }
            }),
    {
        let mut bytes = Bytes::start(input);
        match bytes.attributes() {
            Ok(()) => Ok(bytes),
            Err(e) => Err(bytes.span_error(e)),
        }
    }
}

} // verus!
