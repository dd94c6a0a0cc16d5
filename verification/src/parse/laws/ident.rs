//! What holds of identifiers and struct names.
use vstd::prelude::*;
use crate::error::ErrorView;
use crate::parse::laws::{name_part, name_start, raw_part};
use crate::parse::{lemma_run_end, lemma_run_is, run_end, BytesView, CharClass};
use crate::text::ascii_text;

verus! {

/// The bytes between two offsets, each as the character that it is.
pub open spec fn text_between(s: Seq<u8>, from: int, to: int) -> Seq<char> {
    Seq::new((to - from) as nat, |i: int| s[from + i] as char)
}

/// Whether a plain identifier goes from one offset to another: letters, digits and `_`, no digit
/// first, and nothing after it that a raw identifier could go on with. A lone `r` is none where a
/// raw identifier or a raw string could start.
pub open spec fn plain_name(s: Seq<u8>, from: int, to: int) -> bool {
    &&& 0 <= from < to <= s.len()
    &&& name_start(s[from])
    &&& forall|i: int| from <= i < to ==> name_part(#[trigger] s[i])
    &&& to < s.len() ==> !raw_part(s[to])
    &&& s[from] == 114 && to == from + 1 ==> to < s.len() && s[to] != 34 && s[to] != 35
}

/// A plain identifier is read as it is written, up to its end.
pub proof fn law_identifier_is_read(b: BytesView, to: int)
    requires
        b.wf(),
        plain_name(b.input, b.at, to),
    ensures
        b.identifier() == (
            b.moved(to),
            Ok::<Seq<u8>, ErrorView>(b.input.subrange(b.at, to)),
        ),
{
    lemma_run_is(b.input, b.at, CharClass::IdentOther, to);
    lemma_run_is(b.input, b.at, CharClass::IdentRaw, to);
    if b.at + 1 < to {
        assert(name_part(b.input[b.at + 1]));
    }
}

/// A raw identifier is what stands after `r#`, and may hold `.`, `+` and `-` too.
pub proof fn law_raw_identifier_is_read(b: BytesView, to: int)
    requires
        b.wf(),
        b.at + 2 < to <= b.input.len(),
        b.input[b.at] == 114,
        b.input[b.at + 1] == 35,
        forall|i: int| b.at + 2 <= i < to ==> raw_part(#[trigger] b.input[i]),
        to < b.input.len() ==> !raw_part(b.input[to]),
    ensures
        b.identifier() == (
            b.moved(to),
            Ok::<Seq<u8>, ErrorView>(b.input.subrange(b.at + 2, to)),
        ),
{
    assert(raw_part(b.input[b.at + 2]));
    lemma_run_is(b.input, b.at + 2, CharClass::IdentRaw, to);
}

/// Whether a raw identifier goes from one offset to another: `r#` and what it is made of.
pub open spec fn raw_name(s: Seq<u8>, from: int, to: int) -> bool {
    &&& 0 <= from
    &&& from + 2 < to <= s.len()
    &&& s[from] == 114
    &&& s[from + 1] == 35
    &&& forall|i: int| from + 2 <= i < to ==> raw_part(#[trigger] s[i])
    &&& to < s.len() ==> !raw_part(s[to])
}

/// Whether an identifier, plain or raw, goes from one offset to another.
pub open spec fn name_between(s: Seq<u8>, from: int, to: int) -> bool {
    plain_name(s, from, to) || raw_name(s, from, to)
}

/// Where the name itself starts in an identifier.
pub open spec fn name_from(s: Seq<u8>, from: int, to: int) -> int {
    if raw_name(s, from, to) {
        from + 2
    } else {
        from
    }
}

/// The name that an identifier stands for, plain or raw.
pub open spec fn name_text(s: Seq<u8>, from: int, to: int) -> Seq<char> {
    text_between(s, name_from(s, from, to), to)
}

/// An identifier, plain or raw, is read as the name that it stands for, up to its end.
pub proof fn law_name_is_read(b: BytesView, to: int)
    requires
        b.wf(),
        name_between(b.input, b.at, to),
    ensures
        b.identifier() == (
            b.moved(to),
            Ok::<Seq<u8>, ErrorView>(b.input.subrange(name_from(b.input, b.at, to), to)),
        ),
        ascii_text(b.input.subrange(name_from(b.input, b.at, to), to)) == name_text(
            b.input,
            b.at,
            to,
        ),
        name_part(b.input[b.at]),
{
    if raw_name(b.input, b.at, to) {
        law_raw_identifier_is_read(b, to);
    } else {
        law_identifier_is_read(b, to);
    }
    assert(ascii_text(b.input.subrange(name_from(b.input, b.at, to), to)) =~= name_text(
        b.input,
        b.at,
        to,
    ));
}

/// What starts with no character of an identifier is none.
pub proof fn law_no_identifier(b: BytesView)
    requires
        b.wf(),
        b.at < b.input.len() ==> !raw_part(b.input[b.at]),
    ensures
        b.identifier() == (
            b,
            Err::<Seq<u8>, ErrorView>(
                if b.at < b.input.len() {
                    ErrorView::ExpectedIdentifier
                } else {
                    ErrorView::Eof
                },
            ),
        ),
{
}

/// Where a raw string could start, there is no identifier, nor is there one in a lone `r` at the end
/// of the input.
pub proof fn law_raw_string_is_no_identifier(b: BytesView)
    requires
        b.wf(),
        b.at < b.input.len(),
        b.input[b.at] == 114,
        b.at + 1 < b.input.len() ==> b.input[b.at + 1] == 34 || (b.input[b.at + 1] == 35 && (b.at
            + 2 < b.input.len() ==> !raw_part(b.input[b.at + 2]))),
    ensures
        b.identifier() == (
            b,
            Err::<Seq<u8>, ErrorView>(
                if b.at + 1 < b.input.len() {
                    ErrorView::ExpectedIdentifier
                } else {
                    ErrorView::Eof
                },
            ),
        ),
{
}

/// What is an identifier only with `r#` before it is refused with just that suggestion.
pub proof fn law_raw_identifier_is_suggested(b: BytesView, to: int)
    requires
        b.wf(),
        b.at < to <= b.input.len(),
        forall|i: int| b.at <= i < to ==> raw_part(#[trigger] b.input[i]),
        to < b.input.len() ==> !raw_part(b.input[to]),
        !name_start(b.input[b.at]) || exists|i: int|
            b.at < i < to && !name_part(#[trigger] b.input[i]),
    ensures
        b.identifier() == (
            b,
            Err::<Seq<u8>, ErrorView>(
                ErrorView::SuggestRawIdentifier(text_between(b.input, b.at, to)),
            ),
        ),
{
    lemma_run_is(b.input, b.at, CharClass::IdentRaw, to);
    lemma_run_end(b.input, b.at, CharClass::IdentOther);
    assert(raw_part(b.input[b.at]));
    assert(ascii_text(b.input.subrange(b.at, to)) =~= text_between(b.input, b.at, to));
    if b.at + 1 < to {
        assert(raw_part(b.input[b.at + 1]));
    }
    if name_start(b.input[b.at]) {
        let i = choose|i: int| b.at < i < to && !name_part(#[trigger] b.input[i]);
        let end = run_end(b.input, b.at, CharClass::IdentOther);
        assert(end <= i) by {
            if i < end {
                assert(CharClass::IdentOther.has(b.input[i]));
            }
        }
    }
}

/// The name of a struct is read where it is the one that was asked for. Another name is refused,
/// and so is a name where none was asked for.
pub proof fn law_struct_name_is_compared(b: BytesView, to: int, name: Seq<char>)
    requires
        b.wf(),
        name_between(b.input, b.at, to),
    ensures
        b.struct_name(name) == (
            b.moved(to),
            if name.len() == 0 {
                Err(ErrorView::ExpectedNamedStructLike(name))
            } else if name_text(b.input, b.at, to) == name {
                Ok(true)
            } else {
                Err(
                    ErrorView::ExpectedDifferentStructName {
                        expected: name,
                        found: name_text(b.input, b.at, to),
                    },
                )
            },
        ),
{
    law_name_is_read(b, to);
}

/// What cannot be read as the name of a struct is refused: with the suggestion to write it as a raw
/// identifier where it is the name that was asked for, and with that name elsewhere. Nothing is read.
pub proof fn law_struct_name_is_suggested(b: BytesView, to: int, name: Seq<char>)
    requires
        b.wf(),
        b.at < to <= b.input.len(),
        name_part(b.input[b.at]),
        forall|i: int| b.at <= i < to ==> raw_part(#[trigger] b.input[i]),
        to < b.input.len() ==> !raw_part(b.input[to]),
        !name_start(b.input[b.at]) || exists|i: int|
            b.at < i < to && !name_part(#[trigger] b.input[i]),
    ensures
        b.struct_name(name) == (
            b,
            Err::<bool, ErrorView>(
                if text_between(b.input, b.at, to) == name {
                    ErrorView::SuggestRawIdentifier(name)
                } else {
                    ErrorView::ExpectedNamedStructLike(name)
                },
            ),
        ),
{
    law_raw_identifier_is_suggested(b, to);
}

/// The name of a struct may be left out.
pub proof fn law_struct_name_may_be_missing(b: BytesView, name: Seq<char>)
    requires
        b.wf(),
        b.at < b.input.len() ==> !name_part(b.input[b.at]),
    ensures
        b.struct_name(name) == (b, Ok::<bool, ErrorView>(false)),
{
}

} // verus!
