//! White space, comments and commas.
use vstd::prelude::*;
use crate::error::{outcome, Error, ErrorView};
use crate::parse::{lemma_run_end, run_end, Bytes, BytesView, CharClass};

verus! {

/// Whether two bytes stand at `at`.
pub open spec fn pair_at(s: Seq<u8>, at: int, first: char, second: char) -> bool {
    0 <= at && at + 1 < s.len() && s[at] == first as u8 && s[at + 1] == second as u8
}

/// Where a block comment that is `level` deep at `at` ends, if it does.
pub open spec fn block_end(s: Seq<u8>, at: int, level: int) -> Option<int>
    decreases s.len() - at,
{
    if at >= s.len() {
        None
    } else if pair_at(s, at, '/', '*') {
        block_end(s, at + 2, level + 1)
    } else if pair_at(s, at, '*', '/') {
        if level <= 1 {
            Some(at + 2)
        } else {
            block_end(s, at + 2, level - 1)
        }
    } else {
        block_end(s, at + 1, level)
    }
}

/// A block comment ends after it starts and inside the input.
pub proof fn lemma_block_end(s: Seq<u8>, at: int, level: int)
    ensures
        block_end(s, at, level) matches Some(end) ==> at < end <= s.len(),
    decreases s.len() - at,
{
    if at < s.len() {
        if pair_at(s, at, '/', '*') {
            lemma_block_end(s, at + 2, level + 1);
        } else if pair_at(s, at, '*', '/') {
            lemma_block_end(s, at + 2, level - 1);
        } else {
            lemma_block_end(s, at + 1, level);
        }
    }
}

/// What reading over white space and comments from `at` on comes to: the offset that is reached,
/// and whether every comment on the way is one.
pub open spec fn space_end(s: Seq<u8>, at: int) -> (int, Result<(), ErrorView>)
    decreases s.len() - at,
{
    let slash = run_end(s, at, CharClass::Space);
    if !(0 <= slash < s.len()) || s[slash] != '/' as u8 {
        (slash, Ok(()))
    } else if slash + 1 >= s.len() {
        (slash + 1, Err(ErrorView::Eof))
    } else if s[slash + 1] == '/' as u8 {
        proof {
            lemma_run_end(s, at, CharClass::Space);
            lemma_run_end(s, slash + 2, CharClass::NotNewline);
        }
        space_end(s, run_end(s, slash + 2, CharClass::NotNewline))
    } else if s[slash + 1] == '*' as u8 {
        match block_end(s, slash + 2, 1) {
            Some(end) => {
                proof {
                    lemma_run_end(s, at, CharClass::Space);
                    lemma_block_end(s, slash + 2, 1);
                }
                space_end(s, end)
            },
            None => (s.len() as int, Err(ErrorView::UnclosedBlockComment)),
        }
    } else {
        (slash + 2, Err(ErrorView::UnexpectedByte(s[slash + 1] as char)))
    }
}

/// White space ends at or after where it starts, inside the input.
pub proof fn lemma_space_end(s: Seq<u8>, at: int)
    requires
        0 <= at <= s.len(),
    ensures
        at <= space_end(s, at).0 <= s.len(),
    decreases s.len() - at,
{
    let slash = run_end(s, at, CharClass::Space);
    lemma_run_end(s, at, CharClass::Space);
    if slash + 1 < s.len() && s[slash] == '/' as u8 {
        if s[slash + 1] == '/' as u8 {
            lemma_run_end(s, slash + 2, CharClass::NotNewline);
            lemma_space_end(s, run_end(s, slash + 2, CharClass::NotNewline));
        } else if s[slash + 1] == '*' as u8 {
            lemma_block_end(s, slash + 2, 1);
            if let Some(end) = block_end(s, slash + 2, 1) {
                lemma_space_end(s, end);
            }
        }
    }
}

impl BytesView {
    /// Reading over white space and comments.
    pub open spec fn skip_ws(self) -> (BytesView, Result<(), ErrorView>) {
        let (end, result) = space_end(self.input, self.at);
        (self.moved(end), result)
    }

    /// Reading a comma with the space around it: whether there was one.
    pub open spec fn comma(self) -> (BytesView, Result<bool, ErrorView>) {
        let (spaced, result) = self.skip_ws();
        match result {
            Err(e) => (spaced, Err(e)),
            Ok(_) => if spaced.peek() == Some(',' as u8) {
                let (after, result) = spaced.moved(spaced.at + 1).skip_ws();
                match result {
                    Err(e) => (after, Err(e)),
                    Ok(_) => (after, Ok(true)),
                }
            } else {
                (spaced, Ok(false))
            },
        }
    }
}

/// Reading over white space only moves forward.
pub proof fn lemma_skip_ws(b: BytesView)
    requires
        b.wf(),
    ensures
        b.leads_to(b.skip_ws().0),
{
    lemma_space_end(b.input, b.at);
}

/// Reading a comma only moves forward.
pub proof fn lemma_comma(b: BytesView)
    requires
        b.wf(),
    ensures
        b.leads_to(b.comma().0),
{
    lemma_skip_ws(b);
    let spaced = b.skip_ws().0;
    if spaced.at < spaced.input.len() {
        lemma_skip_ws(spaced.moved(spaced.at + 1));
    }
}

impl<'a> Bytes<'a> {
    /// Reads over white space and comments.
    pub fn skip_ws(&mut self) -> (done: Result<(), Error>)
        requires
            old(self)@.wf(),
        ensures
            final(self)@.wf(),
            (final(self)@, outcome(done)) == old(self)@.skip_ws(),
    {
        proof {
            lemma_space_end(self@.input, self@.at);
        }
        loop
            invariant
                self@.wf(),
                self@.input == old(self)@.input,
                self@.exts == old(self)@.exts,
                space_end(self@.input, self@.at) == space_end(old(self)@.input, old(self)@.at),
            decreases self@.input.len() - self@.at,
        {
            let ghost before = self@;
            proof {
                lemma_run_end(before.input, before.at, CharClass::Space);
            }
            let count = self.next_bytes_contained_in(CharClass::Space);
            self.advance(count);
            if !self.consume_byte('/' as u8) {
                return Ok(());
            }
            let c = self.eat_byte()?;
            if c == '/' as u8 {
                proof {
                    lemma_run_end(self@.input, self@.at, CharClass::NotNewline);
                }
                let count = self.next_bytes_contained_in(CharClass::NotNewline);
                self.advance(count);
            } else if c == '*' as u8 {
                self.block_comment()?;
            } else {
                return Err(Error::UnexpectedByte(c as char));
            }
        }
    }

    /// Whether two bytes come next.
    fn see_pair(&self, first: char, second: char) -> (found: bool)
        requires
            self@.wf(),
        ensures
            found == pair_at(self@.input, self@.at, first, second),
    {
        match (self.peek(), self.peek_at(1)) {
            (Some(a), Some(b)) => a == first as u8 && b == second as u8,
            _ => false,
        }
    }

    /// Reads the rest of a block comment, nested comments with it.
    fn block_comment(&mut self) -> (done: Result<(), Error>)
        requires
            old(self)@.wf(),
        ensures
            final(self)@.wf(),
            match block_end(old(self)@.input, old(self)@.at, 1) {
                Some(end) => done is Ok && final(self)@ == old(self)@.moved(end),
                None => done == Err::<(), Error>(Error::UnclosedBlockComment) && final(self)@
                    == old(self)@.moved(old(self)@.input.len() as int),
            },
            done is Ok ==> old(self)@.at < final(self)@.at,
    {
        let ghost start = self@;
        let mut level: usize = 1;
        while !self.is_at_end()
            invariant
                self@.wf(),
                start == old(self)@,
                start.leads_to(self@),
                1 <= level <= self@.at - start.at + 1,
                block_end(start.input, start.at, 1) == block_end(
                    self@.input,
                    self@.at,
                    level as int,
                ),
            decreases self@.input.len() - self@.at,
        {
            if self.see_pair('/', '*') {
                self.advance(2);
                level = level + 1;
            } else if self.see_pair('*', '/') {
                self.advance(2);
                level = level - 1;
                if level == 0 {
                    return Ok(());
                }
            } else {
                self.advance(1);
            }
        }
        Err(Error::UnclosedBlockComment)
    }

    /// Reads a comma with the space around it: whether there was one.
    pub fn comma(&mut self) -> (found: Result<bool, Error>)
        requires
            old(self)@.wf(),
        ensures
            final(self)@.wf(),
            (final(self)@, outcome(found)) == old(self)@.comma(),
    {
        self.skip_ws()?;
        if self.consume_byte(',' as u8) {
            self.skip_ws()?;
            Ok(true)
        } else {
            Ok(false)
        }
    }
}

} // verus!
