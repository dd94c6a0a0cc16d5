//! What holds of values that hold others, and of their content, stated over the bytes that they are
//! written with.
use vstd::prelude::*;
use crate::de::compound::{enum_outcome, OptionForm};
use crate::de::list::{CommaSeparated, KeyForm};
use crate::de::newtype::{NewtypeFormView, RAW_VALUE_TOKEN};
use crate::de::scalar::base64_decoded;
use crate::de::{no_options, opened, opens, DeView, Deserializer};
use crate::error::{ErrorView, SpannedError};
use crate::options::Options;
use crate::parse::attribute::document;
use crate::parse::laws::ident::{
    law_name_is_read, law_struct_name_is_compared, law_struct_name_may_be_missing, name_between,
    name_text,
};
use crate::parse::laws::literal::{
    characters, in_string, law_string_is_read_back, written, Pieces,
};
use crate::parse::laws::space::{law_blank_is_space, law_gap, law_space_is_read_over};
use crate::parse::laws::{byte_at, gap, holds, lemma_spells, name_part, solid, space, spells};
use crate::parse::{position_at, BytesView};

verus! {

/// The same deserializer at another offset of its input.
pub open spec fn at_offset(de: DeView, at: int) -> DeView {
    DeView { bytes: BytesView { at, ..de.bytes }, ..de }
}

/// An absent value is `None`, whatever extensions are on.
pub proof fn law_none(de: DeView)
    requires
        de.wf(),
        spells(de.bytes.input, de.bytes.at, seq!['N', 'o', 'n', 'e']),
    ensures
        de.option() == (
            at_offset(de, de.bytes.at + 4),
            Ok::<OptionForm, ErrorView>(OptionForm::Absent),
        ),
{
    lemma_option_words(de.bytes);
}

/// The words that optional values start with.
proof fn lemma_option_words(b: BytesView)
    requires
        b.wf(),
    ensures
        b.sees("None"@) <==> spells(b.input, b.at, seq!['N', 'o', 'n', 'e']),
        b.sees("Some"@) <==> spells(b.input, b.at, seq!['S', 'o', 'm', 'e']),
        b.sees("None"@) ==> !b.sees("Some"@),
{
    reveal_strlit("None");
    reveal_strlit("Some");
    assert("None"@ =~= seq!['N', 'o', 'n', 'e']);
    assert("Some"@ =~= seq!['S', 'o', 'm', 'e']);
    lemma_spells(b.input, b.at, "None"@);
    lemma_spells(b.input, b.at, "Some"@);
    assert("None"@[0] == 'N' && "Some"@[0] == 'S');
}

/// `Some` and a parenthesis, space between and after them or not, enclose a value, whatever
/// extensions are on.
pub proof fn law_some(de: DeView, open: int, inner: int)
    requires
        de.wf(),
        spells(de.bytes.input, de.bytes.at, seq!['S', 'o', 'm', 'e']),
        space(de.bytes.input, de.bytes.at + 4, open),
        byte_at(de.bytes.input, open, 40),
        space(de.bytes.input, open + 1, inner),
        solid(de.bytes.input, inner),
    ensures
        de.option() == (
            at_offset(de, inner),
            Ok::<OptionForm, ErrorView>(OptionForm::Enclosed),
        ),
{
    lemma_option_words(de.bytes);
    law_space_is_read_over(de.bytes.moved(de.bytes.at + 4), open);
    law_space_is_read_over(de.bytes.moved(open + 1), inner);
}

/// `Some(` encloses a value, whatever extensions are on, and where no space follows nothing more is
/// read.
pub proof fn law_some_right_away(de: DeView)
    requires
        de.wf(),
        spells(de.bytes.input, de.bytes.at, seq!['S', 'o', 'm', 'e', '(']),
        de.bytes.at + 5 < de.bytes.input.len() ==> ({
            let c = de.bytes.input[de.bytes.at + 5];
            c != 9 && c != 10 && c != 13 && c != 32 && c != 47
        }),
    ensures
        de.option() == (
            at_offset(de, de.bytes.at + 5),
            Ok::<OptionForm, ErrorView>(OptionForm::Enclosed),
        ),
{
    let s = de.bytes.input;
    let at = de.bytes.at;
    let text = seq!['S', 'o', 'm', 'e', '('];
    assert(s[at + 4] == text[4] as u8);
    let word = seq!['S', 'o', 'm', 'e'];
    assert forall|i: int| 0 <= i < word.len() implies s[at + i] == #[trigger] word[i] as u8 by {
        assert(s[at + i] == text[i] as u8);
    }
    law_blank_is_space(s, at + 4, at + 4);
    law_blank_is_space(s, at + 5, at + 5);
    law_some(de, at + 4, at + 5);
}

/// What is written neither as `None` nor as `Some(..)` is an optional value only where optional
/// values may be written as they are. `Some` without a parenthesis is read over.
pub proof fn law_bare_option(de: DeView, next: int)
    requires
        de.wf(),
        !spells(de.bytes.input, de.bytes.at, seq!['N', 'o', 'n', 'e']),
        if spells(de.bytes.input, de.bytes.at, seq!['S', 'o', 'm', 'e']) {
            space(de.bytes.input, de.bytes.at + 4, next) && solid(de.bytes.input, next) && !byte_at(
                de.bytes.input,
                next,
                40,
            )
        } else {
            next == de.bytes.at
        },
    ensures
        de.option() == (
            at_offset(de, next),
            if de.bytes.exts.implicit_some {
                Ok(OptionForm::Bare)
            } else {
                Err(ErrorView::ExpectedOption)
            },
        ),
{
    lemma_option_words(de.bytes);
    if de.bytes.sees("Some"@) {
        law_space_is_read_over(de.bytes.moved(de.bytes.at + 4), next);
    }
}

/// An enclosed optional value ends with a parenthesis, and the others with themselves.
pub proof fn law_option_ends<T>(de: DeView, to: int, form: OptionForm, value: T)
    requires
        de.wf(),
        space(de.bytes.input, de.bytes.at, to),
        solid(de.bytes.input, to),
    ensures
        de.end_option(form, Ok::<T, ErrorView>(value)) == (if !(form is Enclosed) {
            (de, Ok(value))
        } else if byte_at(de.bytes.input, to, 41) {
            (at_offset(de, to + 1), Ok(value))
        } else {
            (at_offset(de, to), Err(ErrorView::ExpectedOptionEnd))
        }),
{
    law_space_is_read_over(de.bytes, to);
}

/// A unit is two parentheses, which are read. What is none is left as it was.
pub proof fn law_unit(de: DeView)
    requires
        de.wf(),
        !de.newtype_variant,
    ensures
        de.unit() == (if spells(de.bytes.input, de.bytes.at, seq!['(', ')']) {
            (at_offset(de, de.bytes.at + 2), Ok(()))
        } else {
            (de, Err(ErrorView::ExpectedUnit))
        }),
{
    reveal_strlit("()");
    assert("()"@ =~= seq!['(', ')']);
    lemma_spells(de.bytes.input, de.bytes.at, "()"@);
}

/// A unit struct is its name, or a unit.
pub proof fn law_unit_struct(de: DeView, to: int, name: Seq<char>)
    requires
        de.wf(),
        !de.newtype_variant,
    ensures
        name_between(de.bytes.input, de.bytes.at, to) && name_text(
            de.bytes.input,
            de.bytes.at,
            to,
        ) == name ==> de.unit_struct(name) == (at_offset(de, to), Ok::<(), ErrorView>(())),
        spells(de.bytes.input, de.bytes.at, seq!['(', ')']) ==> de.unit_struct(name) == (
            at_offset(de, de.bytes.at + 2),
            Ok::<(), ErrorView>(()),
        ),
{
    if name_between(de.bytes.input, de.bytes.at, to) {
        law_struct_name_is_compared(de.bytes, to, name);
    }
    law_unit(de);
    if spells(de.bytes.input, de.bytes.at, seq!['(', ')']) {
        assert(de.bytes.input[de.bytes.at + 0] == seq!['(', ')'][0] as u8);
        law_struct_name_may_be_missing(de.bytes, name);
    }
}

/// Sequences start with a bracket, maps with a brace and tuples with a parenthesis. What starts with
/// none of them is left as it was.
pub proof fn law_openings(de: DeView)
    requires
        de.wf(),
        !de.newtype_variant,
    ensures
        de.seq() == (if byte_at(de.bytes.input, de.bytes.at, 91) {
            (at_offset(de, de.bytes.at + 1), Ok(()))
        } else {
            (de, Err(ErrorView::ExpectedArray))
        }),
        de.map() == (if byte_at(de.bytes.input, de.bytes.at, 123) {
            (at_offset(de, de.bytes.at + 1), Ok(()))
        } else {
            (de, Err(ErrorView::ExpectedMap))
        }),
        de.tuple() == (if byte_at(de.bytes.input, de.bytes.at, 40) {
            (at_offset(de, de.bytes.at + 1), Ok(true))
        } else {
            (de, Err(ErrorView::ExpectedStructLike))
        }),
{
}

/// In an unwrapped newtype variant, a struct has no name and no parentheses of its own, and a unit is
/// not written at all.
pub proof fn law_unwrapped_struct(de: DeView, to: int, name: Seq<char>)
    requires
        de.wf(),
        de.newtype_variant,
        space(de.bytes.input, de.bytes.at, to),
        solid(de.bytes.input, to),
    ensures
        de.struct_(name) == (
            at_offset(DeView { newtype_variant: false, ..de }, to),
            Ok::<bool, ErrorView>(false),
        ),
        de.tuple_struct(name) == (
            DeView { newtype_variant: false, ..de },
            Ok::<bool, ErrorView>(false),
        ),
        de.tuple() == (DeView { newtype_variant: false, ..de }, Ok::<bool, ErrorView>(false)),
        de.unit_struct(name) == (
            DeView { newtype_variant: false, ..de },
            Ok::<(), ErrorView>(()),
        ),
        de.unit() == (DeView { newtype_variant: false, ..de }, Ok::<(), ErrorView>(())),
{
    law_space_is_read_over(de.bytes, to);
}

/// What is neither a name nor a unit is no unit struct.
pub proof fn law_no_unit_struct(de: DeView, name: Seq<char>)
    requires
        de.wf(),
        !de.newtype_variant,
        de.bytes.at < de.bytes.input.len() ==> !name_part(de.bytes.input[de.bytes.at]),
        !spells(de.bytes.input, de.bytes.at, seq!['(', ')']),
    ensures
        de.unit_struct(name) == (de, Err::<(), ErrorView>(ErrorView::ExpectedUnit)),
{
    law_struct_name_may_be_missing(de.bytes, name);
    law_unit(de);
}

/// A sequence and a map have their brackets also where a newtype variant is unwrapped.
pub proof fn law_brackets_are_not_unwrapped(de: DeView)
    requires
        de.wf(),
    ensures
        de.seq() == de.plain().seq(),
        de.map() == de.plain().map(),
        !de.plain().newtype_variant,
{
}

/// A tuple struct is its name, which may be missing, and a parenthesis right after it. The name that
/// is missing where neither is written is told.
pub proof fn law_tuple_struct(de: DeView, to: int, name: Seq<char>)
    requires
        de.wf(),
        !de.newtype_variant,
        if to == de.bytes.at {
            to < de.bytes.input.len() ==> !name_part(de.bytes.input[to])
        } else {
            name_between(de.bytes.input, de.bytes.at, to) && name_text(
                de.bytes.input,
                de.bytes.at,
                to,
            ) == name
        },
    ensures
        de.tuple_struct(name) == (if byte_at(de.bytes.input, to, 40) {
            (at_offset(de, to + 1), Ok(true))
        } else {
            (
                at_offset(de, to),
                Err(
                    if name.len() == 0 {
                        ErrorView::ExpectedStructLike
                    } else {
                        ErrorView::ExpectedNamedStructLike(name)
                    },
                ),
            )
        }),
{
    if to == de.bytes.at {
        law_struct_name_may_be_missing(de.bytes, name);
    } else {
        law_struct_name_is_compared(de.bytes, to, name);
    }
}

/// A struct is its name, which may be missing, and a parenthesis, with space between them or
/// not. The name that is missing where no parenthesis is written is told.
pub proof fn law_struct(de: DeView, to: int, open: int, name: Seq<char>)
    requires
        de.wf(),
        !de.newtype_variant,
        if to == de.bytes.at {
            to < de.bytes.input.len() ==> !name_part(de.bytes.input[to])
        } else {
            name_between(de.bytes.input, de.bytes.at, to) && name_text(
                de.bytes.input,
                de.bytes.at,
                to,
            ) == name
        },
        space(de.bytes.input, to, open),
        solid(de.bytes.input, open),
    ensures
        de.struct_(name) == (if byte_at(de.bytes.input, open, 40) {
            (at_offset(de, open + 1), Ok(true))
        } else {
            (
                at_offset(de, open),
                Err(
                    if name.len() == 0 {
                        ErrorView::ExpectedStructLike
                    } else {
                        ErrorView::ExpectedNamedStructLike(name)
                    },
                ),
            )
        }),
{
    if to == de.bytes.at {
        law_struct_name_may_be_missing(de.bytes, name);
    } else {
        law_struct_name_is_compared(de.bytes, to, name);
    }
    law_space_is_read_over(de.bytes.moved(to), open);
}

/// A struct or newtype struct of another name is refused, and both names are told.
pub proof fn law_other_name(de: DeView, to: int, name: Seq<char>)
    requires
        de.wf(),
        !de.newtype_variant,
        name_between(de.bytes.input, de.bytes.at, to),
        name.len() > 0,
        name_text(de.bytes.input, de.bytes.at, to) != name,
    ensures
        ({
            let refused = ErrorView::ExpectedDifferentStructName {
                expected: name,
                found: name_text(de.bytes.input, de.bytes.at, to),
            };
            &&& de.struct_(name).1 == Err::<bool, ErrorView>(refused)
            &&& de.tuple_struct(name).1 == Err::<bool, ErrorView>(refused)
            &&& de.unit_struct(name).1 == Err::<(), ErrorView>(refused)
            &&& name != RAW_VALUE_TOKEN@ && !de.bytes.exts.unwrap_newtypes ==> de.newtype_struct(
                name,
            ).1 == Err::<NewtypeFormView, ErrorView>(refused)
        }),
{
    law_struct_name_is_compared(de.bytes, to, name);
}

/// A newtype struct is its name, which may be missing, and parentheses around its content, with
/// space between them or not.
pub proof fn law_newtype_struct(de: DeView, to: int, open: int, inner: int, name: Seq<char>)
    requires
        de.wf(),
        !de.newtype_variant,
        !de.bytes.exts.unwrap_newtypes,
        name != RAW_VALUE_TOKEN@,
        if to == de.bytes.at {
            to < de.bytes.input.len() ==> !name_part(de.bytes.input[to])
        } else {
            name_between(de.bytes.input, de.bytes.at, to) && name_text(
                de.bytes.input,
                de.bytes.at,
                to,
            ) == name
        },
        space(de.bytes.input, to, open),
        solid(de.bytes.input, open),
        byte_at(de.bytes.input, open, 40) ==> space(de.bytes.input, open + 1, inner) && solid(
            de.bytes.input,
            inner,
        ),
    ensures
        de.newtype_struct(name) == (if byte_at(de.bytes.input, open, 40) {
            (at_offset(de, inner), Ok(NewtypeFormView::Enclosed))
        } else {
            (
                at_offset(de, open),
                Err(
                    if name.len() == 0 {
                        ErrorView::ExpectedStructLike
                    } else {
                        ErrorView::ExpectedNamedStructLike(name)
                    },
                ),
            )
        }),
{
    if to == de.bytes.at {
        law_struct_name_may_be_missing(de.bytes, name);
    } else {
        law_struct_name_is_compared(de.bytes, to, name);
    }
    law_space_is_read_over(de.bytes.moved(to), open);
    if byte_at(de.bytes.input, open, 40) {
        law_space_is_read_over(de.bytes.moved(open + 1), inner);
    }
}

/// A newtype struct is its content alone in an unwrapped newtype variant, and everywhere where
/// newtypes are unwrapped: nothing is read before the content or after it.
pub proof fn law_unwrapped_newtype<T>(de: DeView, name: Seq<char>, visited: Result<T, ErrorView>)
    requires
        de.wf(),
        de.newtype_variant || de.bytes.exts.unwrap_newtypes,
        name != RAW_VALUE_TOKEN@,
    ensures
        de.newtype_struct(name) == (
            DeView { newtype_variant: false, ..de },
            Ok::<NewtypeFormView, ErrorView>(NewtypeFormView::Bare),
        ),
        de.end_newtype_struct(NewtypeFormView::Bare, visited) == (de, visited),
{
}

/// A newtype variant is a parenthesis after its name, with space around it or not. Its content
/// is unwrapped exactly where that extension is on, and errors in it are about the name read last.
pub proof fn law_newtype_variant(de: DeView, open: int, inner: int)
    requires
        de.wf(),
        space(de.bytes.input, de.bytes.at, open),
        solid(de.bytes.input, open),
        byte_at(de.bytes.input, open, 40) ==> space(de.bytes.input, open + 1, inner) && solid(
            de.bytes.input,
            inner,
        ),
    ensures
        de.newtype_variant_start() == (if byte_at(de.bytes.input, open, 40) {
            (
                DeView {
                    newtype_variant: de.bytes.exts.unwrap_variant_newtypes,
                    ..at_offset(de, inner)
                },
                Ok(de.last_identifier),
            )
        } else {
            (at_offset(de, open), Err(ErrorView::ExpectedStructLike))
        }),
{
    law_space_is_read_over(de.bytes, open);
    if byte_at(de.bytes.input, open, 40) {
        law_space_is_read_over(de.bytes.moved(open + 1), inner);
    }
}

/// Tuple and struct variants are a parenthesis after their name, with space before it or not.
/// Errors in a struct variant are about the name read last.
pub proof fn law_other_variants(de: DeView, open: int)
    requires
        de.wf(),
        !de.newtype_variant,
        space(de.bytes.input, de.bytes.at, open),
        solid(de.bytes.input, open),
    ensures
        de.tuple_variant() == (if byte_at(de.bytes.input, open, 40) {
            (at_offset(de, open + 1), Ok(true))
        } else {
            (at_offset(de, open), Err(ErrorView::ExpectedStructLike))
        }),
        de.struct_variant_start() == (if byte_at(de.bytes.input, open, 40) {
            (at_offset(de, open + 1), Ok((de.last_identifier, true)))
        } else {
            (at_offset(de, open), Err(ErrorView::ExpectedStructLike))
        }),
{
    law_space_is_read_over(de.bytes, open);
}

/// A value in brackets ends with the bracket that matches, after space and a comma if any.
pub proof fn law_closings<T>(
    de: DeView,
    comma: Option<int>,
    to: int,
    name: Seq<char>,
    variant: Option<Seq<char>>,
    value: T,
)
    requires
        de.wf(),
        gap(de.bytes.input, de.bytes.at, comma, to),
        solid(de.bytes.input, to),
        comma is None ==> !byte_at(de.bytes.input, to, 44),
    ensures
        ({
            let visited = Ok::<T, ErrorView>(value);
            let read = (at_offset(de, to + 1), Ok::<T, ErrorView>(value));
            let refused = (
                at_offset(de, to),
                Err::<T, ErrorView>(ErrorView::ExpectedStructLikeEnd),
            );
            &&& de.end_seq(visited) == if byte_at(de.bytes.input, to, 93) {
                read
            } else {
                (at_offset(de, to), Err(ErrorView::ExpectedArrayEnd))
            }
            &&& de.end_map(visited) == if byte_at(de.bytes.input, to, 125) {
                read
            } else {
                (at_offset(de, to), Err(ErrorView::ExpectedMapEnd))
            }
            &&& byte_at(de.bytes.input, to, 41) ==> {
                &&& de.end_tuple(true, visited) == read
                &&& de.end_tuple_struct(name, true, visited) == read
                &&& de.end_struct(name, true, visited) == read
                &&& de.end_struct_variant(variant, true, visited) == read
                &&& de.end_newtype_struct(NewtypeFormView::Enclosed, visited) == read
                &&& de.end_newtype_variant(variant, visited) == (
                    DeView { newtype_variant: false, ..read.0 },
                    read.1,
                )
            }
            &&& !byte_at(de.bytes.input, to, 41) ==> {
                &&& de.end_tuple(true, visited) == refused
                &&& de.end_tuple_struct(name, true, visited) == refused
                &&& de.end_struct(name, true, visited) == refused
                &&& de.end_struct_variant(variant, true, visited) == refused
                &&& de.end_newtype_struct(NewtypeFormView::Enclosed, visited) == refused
                &&& de.end_newtype_variant(variant, visited) == (
                    DeView { newtype_variant: false, ..refused.0 },
                    refused.1,
                )
            }
        }),
{
    law_gap(de.bytes, comma, to);
}

/// What has no parentheses of its own ends before the one of the variant that it is in.
pub proof fn law_unwrapped_content_ends<T>(
    de: DeView,
    comma: Option<int>,
    to: int,
    name: Seq<char>,
    variant: Option<Seq<char>>,
    value: T,
)
    requires
        de.wf(),
        gap(de.bytes.input, de.bytes.at, comma, to),
        solid(de.bytes.input, to),
        comma is None ==> !byte_at(de.bytes.input, to, 44),
    ensures
        ({
            let visited = Ok::<T, ErrorView>(value);
            let read = (at_offset(de, to), Ok::<T, ErrorView>(value));
            &&& de.end_tuple(false, visited) == read
            &&& de.end_tuple_struct(name, false, visited) == read
            &&& de.end_struct(name, false, visited) == read
            &&& de.end_struct_variant(variant, false, visited) == read
        }),
{
    law_gap(de.bytes, comma, to);
}

/// Another element comes unless the byte that ends the list does. One is owed a comma before it,
/// unless it is the first.
pub proof fn law_elements(de: DeView, list: CommaSeparated, to: int)
    requires
        de.wf(),
        space(de.bytes.input, de.bytes.at, to),
        solid(de.bytes.input, to),
    ensures
        de.has_element(list) == (
            at_offset(de, to),
            if to == de.bytes.input.len() {
                Err(ErrorView::Eof)
            } else if de.bytes.input[to] == list.terminator {
                Ok(false)
            } else if list.had_comma {
                Ok(true)
            } else {
                Err(ErrorView::ExpectedComma)
            },
        ),
        CommaSeparated::fresh(list.terminator).had_comma,
        CommaSeparated::fresh(list.terminator).terminator == list.terminator,
{
    law_space_is_read_over(de.bytes, to);
}

/// Whether a comma follows an element is remembered for the next.
pub proof fn law_after_element<T>(
    de: DeView,
    list: CommaSeparated,
    comma: Option<int>,
    to: int,
    value: T,
)
    requires
        de.wf(),
        gap(de.bytes.input, de.bytes.at, comma, to),
        solid(de.bytes.input, to),
        comma is None ==> !byte_at(de.bytes.input, to, 44),
    ensures
        de.end_element(list, Ok::<T, ErrorView>(value)) == (
            at_offset(de, to),
            CommaSeparated { terminator: list.terminator, had_comma: comma is Some },
            Ok::<T, ErrorView>(value),
        ),
{
    law_gap(de.bytes, comma, to);
}

/// The keys of a struct are identifiers, and those of a map are values.
pub proof fn law_keys(de: DeView, list: CommaSeparated)
    ensures
        de.next_key(list).0 == de.has_element(list).0,
        match de.has_element(list).1 {
            Ok(true) => de.next_key(list).1 == Ok::<Option<KeyForm>, ErrorView>(
                Some(
                    if list.terminator == 41 {
                        KeyForm::Identifier
                    } else {
                        KeyForm::Value
                    },
                ),
            ),
            Ok(false) => de.next_key(list).1 == Ok::<Option<KeyForm>, ErrorView>(None),
            Err(e) => de.next_key(list).1 == Err::<Option<KeyForm>, ErrorView>(e),
        },
{
}

/// A colon stands between a key and its value, with space around it or not.
pub proof fn law_colon(de: DeView, colon: int, to: int)
    requires
        de.wf(),
        space(de.bytes.input, de.bytes.at, colon),
        solid(de.bytes.input, colon),
        byte_at(de.bytes.input, colon, 58) ==> space(de.bytes.input, colon + 1, to) && solid(
            de.bytes.input,
            to,
        ),
    ensures
        de.colon() == (if byte_at(de.bytes.input, colon, 58) {
            (at_offset(de, to), Ok(()))
        } else {
            (at_offset(de, colon), Err(ErrorView::ExpectedMapColon))
        }),
{
    law_space_is_read_over(de.bytes, colon);
    if byte_at(de.bytes.input, colon, 58) {
        law_space_is_read_over(de.bytes.moved(colon + 1), to);
    }
}

/// Newtypes of any kind are allowed for the value of a map with one entry, and what was allowed
/// before is told.
pub proof fn law_single_value(de: DeView, to: int)
    requires
        de.wf(),
        space(de.bytes.input, de.bytes.at, to),
        solid(de.bytes.input, to),
    ensures
        de.singleton_value() == (
            DeView { any_newtype: true, ..at_offset(de, to) },
            Ok::<bool, ErrorView>(de.any_newtype),
        ),
{
    law_space_is_read_over(de.bytes, to);
}

/// An identifier is read as it is written, and is the last one then.
pub proof fn law_last_identifier(de: DeView, to: int)
    requires
        de.wf(),
        name_between(de.bytes.input, de.bytes.at, to),
    ensures
        de.identifier() == (
            DeView {
                last_identifier: Some(name_text(de.bytes.input, de.bytes.at, to)),
                ..at_offset(de, to)
            },
            Ok::<Seq<char>, ErrorView>(name_text(de.bytes.input, de.bytes.at, to)),
        ),
{
    law_name_is_read(de.bytes, to);
}

/// A byte buffer is what the text of a string decodes to.
pub proof fn law_byte_buffer(de: DeView, pieces: Pieces)
    requires
        de.wf(),
        in_string(pieces),
        holds(de.bytes.input, de.bytes.at, seq![34u8] + written(pieces) + seq![34u8]),
    ensures
        de.byte_buf() == (
            at_offset(de, de.bytes.at + written(pieces).len() + 2),
            match base64_decoded(characters(pieces)) {
                Ok(bytes) => Ok(bytes),
                Err(cause) => Err(ErrorView::Base64Error(cause)),
            },
        ),
{
    law_string_is_read_back(de.bytes, pieces);
}

/// A document is opened with nothing to unwrap, no identifier read and no newtype of any kind
/// allowed.
pub proof fn law_opened_afresh(input: Seq<u8>, options: Options)
    ensures
        !opened(input, options).newtype_variant,
        opened(input, options).last_identifier is None,
        !opened(input, options).any_newtype,
        opened(input, no_options()).bytes == document(input).0,
{
}

/// A document that cannot be opened is refused at the place where reading its attributes stopped.
pub proof fn law_refused_where(
    input: Seq<u8>,
    options: Options,
    result: Result<Deserializer, SpannedError>,
)
    requires
        opens(input, options, result),
    ensures
        result is Ok <==> document(input).1 is Ok,
        match result {
            Ok(de) => de@.bytes.input == document(input).0.input && de@.bytes.at == document(
                input,
            ).0.at,
            Err(error) => document(input).1 == Err::<(), ErrorView>(error.code@) && error.position
                == position_at(document(input).0.input, document(input).0.at),
        },
{
}

/// A raw value that was taken is handed through, and one that was not is refused as such. Nothing is
/// read.
pub proof fn law_raw_value_ends<T>(de: DeView, text: Seq<char>, visited: Result<T, ErrorView>)
    ensures
        de.end_newtype_struct(NewtypeFormView::Raw(text), visited) == (
            de,
            if visited is Ok {
                visited
            } else {
                Err(ErrorView::ExpectedRawValue)
            },
        ),
{
}

/// An enum comes to what its variant comes to: an error about a missing variant alone gets the
/// enum's name.
pub proof fn law_enum_ends<T>(name: Seq<char>, visited: Result<T, ErrorView>)
    ensures
        match visited {
            Ok(_) => enum_outcome(name, visited) == visited,
            Err(ErrorView::NoSuchEnumVariant { expected, found, outer: None }) => enum_outcome(
                name,
                visited,
            ) == Err::<T, ErrorView>(
                ErrorView::NoSuchEnumVariant {
                    expected,
                    found,
                    outer: if name == Seq::<char>::empty() {
                        None
                    } else {
                        Some(name)
                    },
                },
            ),
            Err(_) => enum_outcome(name, visited) == visited,
        },
{
    if name.len() == 0 {
        assert(name =~= Seq::<char>::empty());
    }
}

/// An error is spanned with the place that the deserializer has come to.
pub proof fn law_spanned(de: DeView, code: ErrorView)
    ensures
        de.spanned(code).code == code,
        de.spanned(code).position == position_at(de.bytes.input, de.bytes.at),
{
}

/// The last bytes of a document may be space only: whatever else follows is left unread.
pub proof fn law_nothing_may_follow(de: DeView, to: int)
    requires
        de.wf(),
        space(de.bytes.input, de.bytes.at, to),
        solid(de.bytes.input, to),
    ensures
        de.end() == (
            at_offset(de, to),
            if to == de.bytes.input.len() {
                Ok(())
            } else {
                Err(ErrorView::TrailingCharacters)
            },
        ),
{
    law_space_is_read_over(de.bytes, to);
}

} // verus!
