//! What holds of white space, comments and commas.
use vstd::prelude::*;
use crate::error::ErrorView;
use crate::extensions::Extensions;
use crate::parse::laws::{blank, byte_at, gap, lemma_run_from, solid, space};
use crate::parse::space::{block_end, lemma_block_end, pair_at};
use crate::parse::{lemma_run_end, lemma_run_is, run_end, BytesView, CharClass};

verus! {

/// White space in front of anything makes no difference to where reading over space ends.
pub proof fn law_leading_blank(b: BytesView, to: int)
    requires
        b.wf(),
        blank(b.input, b.at, to),
    ensures
        b.skip_ws() == b.moved(to).skip_ws(),
{
    lemma_run_from(b.input, b.at, CharClass::Space, to);
}

/// White space is read over up to what is none.
pub proof fn law_blank_is_read_over(b: BytesView, to: int)
    requires
        b.wf(),
        blank(b.input, b.at, to),
        solid(b.input, to),
    ensures
        b.skip_ws() == (b.moved(to), Ok::<(), ErrorView>(())),
{
    lemma_run_is(b.input, b.at, CharClass::Space, to);
}

/// White space alone is space.
pub proof fn law_blank_is_space(s: Seq<u8>, from: int, to: int)
    requires
        s.len() <= usize::MAX,
        blank(s, from, to),
        solid(s, to),
    ensures
        space(s, from, to),
{
    law_blank_is_read_over(BytesView { input: s, at: from, exts: Extensions::none() }, to);
}

/// Space is read over up to what is none.
pub proof fn law_space_is_read_over(b: BytesView, to: int)
    requires
        b.wf(),
        space(b.input, b.at, to),
    ensures
        b.skip_ws() == (b.moved(to), Ok::<(), ErrorView>(())),
        solid(b.input, to),
        b.at <= to,
        solid(b.input, b.at) ==> b.at == to,
{
    law_no_space_is_left(b);
    if solid(b.input, b.at) {
        law_blank_is_read_over(b, b.at);
    }
}

/// Reading over space leaves none: what comes next starts neither white space nor a comment.
pub proof fn law_no_space_is_left(b: BytesView)
    requires
        b.wf(),
        b.skip_ws().1 is Ok,
    ensures
        b.at <= b.skip_ws().0.at,
        solid(b.input, b.skip_ws().0.at),
    decreases b.input.len() - b.at,
{
    let s = b.input;
    let slash = run_end(s, b.at, CharClass::Space);
    lemma_run_end(s, b.at, CharClass::Space);
    if slash < s.len() && s[slash] == 47 {
        if s[slash + 1] == 47 {
            lemma_run_end(s, slash + 2, CharClass::NotNewline);
            law_no_space_is_left(b.moved(run_end(s, slash + 2, CharClass::NotNewline)));
        } else {
            lemma_block_end(s, slash + 2, 1);
            law_no_space_is_left(b.moved(block_end(s, slash + 2, 1).unwrap()));
        }
    }
}

/// Two slashes start a comment that goes to the end of the line.
pub proof fn law_line_comment(b: BytesView, to: int)
    requires
        b.wf(),
        b.at + 2 <= to <= b.input.len(),
        b.input[b.at] == 47,
        b.input[b.at + 1] == 47,
        forall|i: int| b.at + 2 <= i < to ==> #[trigger] b.input[i] != 10,
        to < b.input.len() ==> b.input[to] == 10,
    ensures
        b.skip_ws() == b.moved(to).skip_ws(),
{
    lemma_run_is(b.input, b.at, CharClass::Space, b.at);
    lemma_run_is(b.input, b.at + 2, CharClass::NotNewline, to);
}

/// Whether a block comment starts at an offset: a slash and an asterisk.
pub open spec fn comment_starts(s: Seq<u8>, at: int) -> bool {
    0 <= at && at + 1 < s.len() && s[at] == 47 && s[at + 1] == 42
}

/// Whether a block comment ends at an offset: an asterisk and a slash.
pub open spec fn comment_ends(s: Seq<u8>, at: int) -> bool {
    0 <= at && at + 1 < s.len() && s[at] == 42 && s[at + 1] == 47
}

/// Whether no block comment starts or ends between two offsets.
pub open spec fn plain_comment(s: Seq<u8>, from: int, to: int) -> bool {
    forall|i: int| from <= i < to ==> !(#[trigger] comment_starts(s, i)) && !comment_ends(s, i)
}

/// Inside a comment, what starts or ends none makes no difference.
proof fn lemma_plain_comment(s: Seq<u8>, from: int, to: int, level: int)
    requires
        0 <= from <= to <= s.len(),
        plain_comment(s, from, to),
    ensures
        block_end(s, from, level) == block_end(s, to, level),
    decreases to - from,
{
    if from < to {
        assert(!comment_starts(s, from));
        lemma_plain_comment(s, from + 1, to, level);
    }
}

/// A slash and an asterisk start a comment that goes to an asterisk and a slash.
pub proof fn law_block_comment(b: BytesView, to: int)
    requires
        b.wf(),
        comment_starts(b.input, b.at),
        b.at + 2 <= to,
        plain_comment(b.input, b.at + 2, to),
        comment_ends(b.input, to),
    ensures
        b.skip_ws() == b.moved(to + 2).skip_ws(),
{
    lemma_run_is(b.input, b.at, CharClass::Space, b.at);
    lemma_plain_comment(b.input, b.at + 2, to, 1);
    assert(pair_at(b.input, to, '*', '/'));
}

/// A block comment inside another ends before the outer one does.
pub proof fn law_nested_comment(b: BytesView, inner: int, inner_end: int, to: int)
    requires
        b.wf(),
        comment_starts(b.input, b.at),
        b.at + 2 <= inner,
        plain_comment(b.input, b.at + 2, inner),
        comment_starts(b.input, inner),
        inner + 2 <= inner_end,
        plain_comment(b.input, inner + 2, inner_end),
        comment_ends(b.input, inner_end),
        inner_end + 2 <= to,
        plain_comment(b.input, inner_end + 2, to),
        comment_ends(b.input, to),
    ensures
        b.skip_ws() == b.moved(to + 2).skip_ws(),
{
    lemma_run_is(b.input, b.at, CharClass::Space, b.at);
    lemma_plain_comment(b.input, b.at + 2, inner, 1);
    lemma_plain_comment(b.input, inner + 2, inner_end, 2);
    lemma_plain_comment(b.input, inner_end + 2, to, 1);
    assert(pair_at(b.input, inner, '/', '*'));
    assert(pair_at(b.input, inner_end, '*', '/'));
    assert(pair_at(b.input, to, '*', '/'));
}

/// Inside a comment, at any depth, a whole comment makes no difference.
pub proof fn law_comment_inside_comment(s: Seq<u8>, inner: int, end: int, level: int)
    requires
        comment_starts(s, inner),
        block_end(s, inner + 2, 1) == Some(end),
        level >= 1,
    ensures
        block_end(s, inner, level) == block_end(s, end, level),
{
    assert(pair_at(s, inner, '/', '*'));
    lemma_deeper(s, inner + 2, 1, end, level);
}

/// What ends a comment of some depth leaves those around it open.
proof fn lemma_deeper(s: Seq<u8>, at: int, depth: int, end: int, level: int)
    requires
        0 <= at,
        depth >= 1,
        level >= 1,
        block_end(s, at, depth) == Some(end),
    ensures
        block_end(s, at, depth + level) == block_end(s, end, level),
    decreases s.len() - at,
{
    if at < s.len() {
        if pair_at(s, at, '/', '*') {
            lemma_deeper(s, at + 2, depth + 1, end, level);
        } else if pair_at(s, at, '*', '/') {
            if depth > 1 {
                lemma_deeper(s, at + 2, depth - 1, end, level);
            }
        } else {
            lemma_deeper(s, at + 1, depth, end, level);
        }
    }
}

/// A comment is read over exactly up to its end.
pub proof fn law_comment_ends_where_it_ends(b: BytesView, end: int)
    requires
        b.wf(),
        comment_starts(b.input, b.at),
        block_end(b.input, b.at + 2, 1) == Some(end),
    ensures
        b.at + 4 <= end <= b.input.len(),
        comment_ends(b.input, end - 2),
        b.skip_ws() == b.moved(end).skip_ws(),
{
    lemma_run_is(b.input, b.at, CharClass::Space, b.at);
    lemma_comment_close(b.input, b.at + 2, 1, end);
}

/// A comment ends with what ends comments.
proof fn lemma_comment_close(s: Seq<u8>, at: int, level: int, end: int)
    requires
        0 <= at,
        block_end(s, at, level) == Some(end),
    ensures
        at + 2 <= end <= s.len(),
        comment_ends(s, end - 2),
    decreases s.len() - at,
{
    if at < s.len() {
        if pair_at(s, at, '/', '*') {
            lemma_comment_close(s, at + 2, level + 1, end);
        } else if pair_at(s, at, '*', '/') {
            if level > 1 {
                lemma_comment_close(s, at + 2, level - 1, end);
            }
        } else {
            lemma_comment_close(s, at + 1, level, end);
        }
    }
}

/// A block comment that nothing ends is an error, noticed at the end of the input.
pub proof fn law_unclosed_comment(b: BytesView)
    requires
        b.wf(),
        comment_starts(b.input, b.at),
        forall|i: int| b.at + 2 <= i < b.input.len() ==> !(#[trigger] comment_ends(b.input, i)),
    ensures
        b.skip_ws() == (
            b.moved(b.input.len() as int),
            Err::<(), ErrorView>(ErrorView::UnclosedBlockComment),
        ),
{
    lemma_run_is(b.input, b.at, CharClass::Space, b.at);
    lemma_never_closed(b.input, b.at + 2, 1);
}

/// A comment that nothing ends has no end.
proof fn lemma_never_closed(s: Seq<u8>, at: int, level: int)
    requires
        0 <= at,
        forall|i: int| at <= i < s.len() ==> !(#[trigger] comment_ends(s, i)),
    ensures
        block_end(s, at, level) is None,
    decreases s.len() - at,
{
    if at < s.len() {
        assert(!comment_ends(s, at));
        if pair_at(s, at, '/', '*') {
            lemma_never_closed(s, at + 2, level + 1);
        } else {
            lemma_never_closed(s, at + 1, level);
        }
    }
}

/// A slash that starts no comment is an error: it names the byte after the slash, if there is one,
/// which is read.
pub proof fn law_stray_slash(b: BytesView)
    requires
        b.wf(),
        b.at < b.input.len(),
        b.input[b.at] == 47,
        b.at + 1 < b.input.len() ==> b.input[b.at + 1] != 47 && b.input[b.at + 1] != 42,
    ensures
        b.skip_ws() == (if b.at + 1 < b.input.len() {
            (
                b.moved(b.at + 2),
                Err::<(), ErrorView>(ErrorView::UnexpectedByte(b.input[b.at + 1] as char)),
            )
        } else {
            (b.moved(b.at + 1), Err::<(), ErrorView>(ErrorView::Eof))
        }),
{
    lemma_run_is(b.input, b.at, CharClass::Space, b.at);
}

/// A comma is read with the space around it.
pub proof fn law_comma_is_read(b: BytesView, comma: int, to: int)
    requires
        b.wf(),
        space(b.input, b.at, comma),
        comma < b.input.len(),
        b.input[comma] == 44,
        space(b.input, comma + 1, to),
    ensures
        b.comma() == (b.moved(to), Ok::<bool, ErrorView>(true)),
{
    law_space_is_read_over(b, comma);
    law_space_is_read_over(b.moved(comma + 1), to);
}

/// Where there is no comma, none is found, and the space is read over.
pub proof fn law_no_comma(b: BytesView, to: int)
    requires
        b.wf(),
        space(b.input, b.at, to),
        to < b.input.len() ==> b.input[to] != 44,
    ensures
        b.comma() == (b.moved(to), Ok::<bool, ErrorView>(false)),
{
    law_space_is_read_over(b, to);
}

/// Reading over space finds the comma in it, if there is one.
pub proof fn law_gap(b: BytesView, comma: Option<int>, to: int)
    requires
        b.wf(),
        gap(b.input, b.at, comma, to),
        comma is None ==> !byte_at(b.input, to, 44),
    ensures
        b.comma() == (b.moved(to), Ok::<bool, ErrorView>(comma is Some)),
{
    match comma {
        None => law_no_comma(b, to),
        Some(comma) => law_comma_is_read(b, comma, to),
    }
}

} // verus!
