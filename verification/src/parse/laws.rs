//! What holds of the tokens, stated over the bytes that they are written with.
use vstd::prelude::*;
use vstd::utf8::*;
use crate::error::ErrorView;
use crate::extensions::Extensions;
use crate::parse::{looking_at, run_end, BytesView, CharClass};

pub mod attribute;
pub mod ident;
pub mod literal;
pub mod number;
pub mod position;
pub mod space;

verus! {

/// Whether a byte is a tab, a line feed, a carriage return or a space.
pub open spec fn blank_byte(c: u8) -> bool {
    c == 9 || c == 10 || c == 13 || c == 32
}

/// Whether nothing but tabs, line feeds, carriage returns and spaces stands between two offsets.
pub open spec fn blank(s: Seq<u8>, from: int, to: int) -> bool {
    &&& 0 <= from <= to <= s.len()
    &&& forall|i: int| from <= i < to ==> blank_byte(#[trigger] s[i])
}

/// Whether neither white space nor a comment can start at an offset.
pub open spec fn solid(s: Seq<u8>, at: int) -> bool {
    &&& 0 <= at <= s.len()
    &&& at < s.len() ==> !blank_byte(s[at]) && s[at] != 47
}

/// Whether white space and comments go from one offset to another, and neither can go on there.
pub open spec fn space(s: Seq<u8>, from: int, to: int) -> bool {
    let start = BytesView { input: s, at: from, exts: Extensions::none() };
    &&& 0 <= from <= to <= s.len()
    &&& start.skip_ws() == (start.moved(to), Ok::<(), ErrorView>(()))
}

/// Whether a byte stands at an offset.
pub open spec fn byte_at(s: Seq<u8>, at: int, c: u8) -> bool {
    0 <= at < s.len() && s[at] == c
}

/// Whether space, with a comma in it or not, goes from one offset to another.
pub open spec fn gap(s: Seq<u8>, from: int, comma: Option<int>, to: int) -> bool {
    match comma {
        None => space(s, from, to),
        Some(comma) => space(s, from, comma) && byte_at(s, comma, 44) && space(s, comma + 1, to),
    }
}

/// Whether the bytes from an offset on spell an ASCII text.
pub open spec fn spells(s: Seq<u8>, at: int, text: Seq<char>) -> bool {
    &&& 0 <= at
    &&& at + text.len() <= s.len()
    &&& forall|i: int| 0 <= i < text.len() ==> s[at + i] == #[trigger] text[i] as u8
}

/// Whether given bytes stand at an offset.
pub open spec fn holds(s: Seq<u8>, at: int, bytes: Seq<u8>) -> bool {
    &&& 0 <= at
    &&& at + bytes.len() <= s.len()
    &&& s.subrange(at, at + bytes.len()) == bytes
}

/// Whether a byte is an ASCII letter or `_`.
pub open spec fn name_start(c: u8) -> bool {
    (65 <= c <= 90) || (97 <= c <= 122) || c == 95
}

/// Whether a byte is an ASCII letter, a digit or `_`.
pub open spec fn name_part(c: u8) -> bool {
    name_start(c) || (48 <= c <= 57)
}

/// Whether a byte is an ASCII letter, a digit, `_`, `.`, `+` or `-`.
pub open spec fn raw_part(c: u8) -> bool {
    name_part(c) || c == 46 || c == 43 || c == 45
}

/// Whether a word ends at an offset.
pub open spec fn word_ends(s: Seq<u8>, at: int) -> bool {
    at >= s.len() || !name_part(s[at])
}

/// A token comes next exactly where the bytes spell it.
pub proof fn lemma_spells(s: Seq<u8>, at: int, text: Seq<char>)
    requires
        0 <= at,
        is_ascii_chars(text),
    ensures
        looking_at(s, at, text) <==> spells(s, at, text),
{
    if looking_at(s, at, text) {
        assert forall|i: int| 0 <= i < text.len() implies s[at + i] == #[trigger] text[i] as u8 by {
            assert(text[i] == s[at + i] as char);
        }
    }
    if spells(s, at, text) {
        assert forall|i: int| 0 <= i < text.len() implies #[trigger] text[i] == s[at
            + i] as char by {
            assert('\0' <= text[i] <= '\u{7f}');
            assert(s[at + i] == text[i] as u8);
        }
    }
}

/// A run goes on where bytes of its class have been found.
pub proof fn lemma_run_from(s: Seq<u8>, at: int, class: CharClass, to: int)
    requires
        0 <= at <= to <= s.len(),
        forall|i: int| at <= i < to ==> class.has(#[trigger] s[i]),
    ensures
        run_end(s, at, class) == run_end(s, to, class),
    decreases to - at,
{
    if at < to {
        assert(class.has(s[at]));
        lemma_run_from(s, at + 1, class, to);
    }
}

} // verus!
