//! What holds of the deserializer across its operations.
use vstd::prelude::*;
use vstd::utf8::*;
use crate::de::any::{lemma_any, EventView};
use crate::de::compound::{lemma_option, OptionForm};
use crate::de::ignored::lemma_ignored;
use crate::de::list::{lemma_has_element, CommaSeparated};
use crate::de::names::{law_no_struct_name, name_if_any, with_struct_name, with_tuple_name};
use crate::de::newtype::{NewtypeFormView, RAW_VALUE_TOKEN};
use crate::de::{opened, opens, DeView, Deserializer};
use crate::error::{ErrorView, SpannedError};
use crate::extensions::Extensions;
use crate::options::Options;
use crate::parse::attribute::{document, lemma_attributes};
use crate::parse::ident::{lemma_identifier, lemma_struct_name};
use crate::parse::literal::{lemma_char, lemma_string, ParsedStrView};
use crate::parse::number::{
    lemma_bool, lemma_float, lemma_signed_integer, lemma_unsigned_integer,
};
use crate::parse::space::{
    block_end, lemma_block_end, lemma_comma, lemma_skip_ws, lemma_space_end, space_end,
};
use crate::parse::laws::blank;
use crate::parse::laws::space::law_blank_is_read_over;
use crate::parse::{lemma_run_end, line_breaks, line_start, run_end, BytesView, CharClass};

pub mod any;
pub mod ignored;
pub mod values;

verus! {

/// Opening a document twice gives the same: what is read next, or the same error at the same place.
pub proof fn law_opening_is_determined(
    input: Seq<u8>,
    options: Options,
    first: Result<Deserializer, SpannedError>,
    second: Result<Deserializer, SpannedError>,
)
    requires
        opens(input, options, first),
        opens(input, options, second),
    ensures
        match (first, second) {
            (Ok(a), Ok(b)) => a@ == b@,
            (Err(a), Err(b)) => a@ == b@,
            _ => false,
        },
{
}

/// Settings decide neither whether a document can be opened nor where its value starts, and every
/// extension that they or the document switch on is on.
pub proof fn law_options_only_add_extensions(input: Seq<u8>, options: Options)
    requires
        input.len() <= usize::MAX,
    ensures
        opened(input, options).wf(),
        opened(input, options).bytes.input == input,
        opened(input, options).bytes.at == document(input).0.at,
        opened(input, options).bytes.exts == document(input).0.exts.with(
            options.default_extensions,
        ),
{
    lemma_attributes(BytesView { input, at: 0, exts: Extensions::none() });
}

/// A document whose rest is tabs, line feeds, carriage returns and spaces has come to its end.
pub proof fn law_white_space_ends(de: DeView)
    requires
        de.wf(),
        forall|i: int|
            de.bytes.at <= i < de.bytes.input.len() ==> (#[trigger] de.bytes.input[i] == 9
                || de.bytes.input[i] == 10 || de.bytes.input[i] == 13 || de.bytes.input[i] == 32),
    ensures
        de.end() == (
            de.reading(de.bytes.moved(de.bytes.input.len() as int)),
            Ok::<(), ErrorView>(()),
        ),
{
    assert(blank(de.bytes.input, de.bytes.at, de.bytes.input.len() as int));
    law_blank_is_read_over(de.bytes, de.bytes.input.len() as int);
}

/// A document has come to its end only if white space and comments reach to the last byte. A byte
/// that is neither is a trailing character, and it stays unread.
pub proof fn law_trailing_characters(de: DeView)
    requires
        de.wf(),
    ensures
        de.end().1 is Ok <==> space_end(de.bytes.input, de.bytes.at).1 is Ok && space_end(
            de.bytes.input,
            de.bytes.at,
        ).0 == de.bytes.input.len(),
        de.bytes.peek() matches Some(c) && !CharClass::Space.has(c) && c != '/' as u8 ==> de.end()
            == (de, Err::<(), ErrorView>(ErrorView::TrailingCharacters)),
{
    lemma_space_end(de.bytes.input, de.bytes.at);
}

/// Asking again whether a document has come to its end changes nothing: neither the answer nor how
/// much was read, unless a comment is broken.
pub proof fn law_end_is_stable(de: DeView)
    requires
        de.wf(),
        de.bytes.skip_ws().1 is Ok,
    ensures
        de.end().0.end() == de.end(),
{
    law_space_is_read_once(de);
}

/// White space and comments that were read over are not found again.
pub proof fn law_space_is_read_once(de: DeView)
    requires
        de.wf(),
        de.bytes.skip_ws().1 is Ok,
    ensures
        de.bytes.skip_ws().0.skip_ws() == de.bytes.skip_ws(),
{
    lemma_space_end_is_stable(de.bytes.input, de.bytes.at);
}

/// Where white space ends, none is left.
proof fn lemma_space_end_is_stable(s: Seq<u8>, at: int)
    requires
        0 <= at <= s.len(),
        space_end(s, at).1 is Ok,
    ensures
        space_end(s, space_end(s, at).0) == space_end(s, at),
    decreases s.len() - at,
{
    let slash = run_end(s, at, CharClass::Space);
    lemma_run_end(s, at, CharClass::Space);
    if slash < s.len() && s[slash] == '/' as u8 {
        if s[slash + 1] == '/' as u8 {
            let end = run_end(s, slash + 2, CharClass::NotNewline);
            lemma_run_end(s, slash + 2, CharClass::NotNewline);
            lemma_space_end_is_stable(s, end);
        } else {
            lemma_block_end(s, slash + 2, 1);
            lemma_space_end_is_stable(s, block_end(s, slash + 2, 1).unwrap());
        }
    }
}

/// A list that has come to its end is closed by what ends it: nothing but space was left to read
/// before it.
pub proof fn law_finished_list_closes<T>(
    de: DeView,
    list: CommaSeparated,
    name: Seq<char>,
    value: T,
)
    requires
        de.wf(),
        de.has_element(list).1 == Ok::<bool, ErrorView>(false),
    ensures
        ({
            let ended = de.has_element(list).0;
            let closed = (ended.past(1), Ok::<T, ErrorView>(value));
            let visited = Ok::<T, ErrorView>(value);
            &&& list.terminator == ']' as u8 ==> ended.end_seq(visited) == closed
            &&& list.terminator == '}' as u8 ==> ended.end_map(visited) == closed
            &&& list.terminator == ')' as u8 ==> {
                &&& ended.end_tuple(true, visited) == closed
                &&& ended.end_tuple_struct(name, true, visited) == closed
                &&& ended.end_struct(name, true, visited) == closed
            }
        }),
{
    lemma_skip_ws(de.bytes);
    lemma_space_end_is_stable(de.bytes.input, de.bytes.at);
}

/// An identifier that is not there leaves everything as it was.
pub proof fn law_missing_identifier_reads_nothing(de: DeView)
    requires
        de.wf(),
        de.identifier().1 is Err,
    ensures
        de.identifier().0 == de,
{
    lemma_identifier(de.bytes);
}

/// Reading a value that holds no others only moves forward in the same input, past at least one byte
/// where there is such a value.
pub proof fn law_scalars_move_forward(de: DeView, lowest: int, highest: int)
    requires
        de.wf(),
        lowest >= 0,
        highest >= 0,
    ensures
        moves_over(de, de.step(de.bytes.bool())),
        moves_over(de, de.step(de.bytes.signed_integer(lowest, highest))),
        moves_over(de, de.step(de.bytes.unsigned_integer(highest))),
        moves_over(de, de.step(de.bytes.float())),
        moves_over(de, de.step(de.bytes.char())),
        moves_over(de, de.step(de.bytes.string())),
        moves_over(de, de.byte_buf()),
        moves_over(de, de.identifier()),
{
    lemma_bool(de.bytes);
    lemma_signed_integer(de.bytes, lowest, highest);
    lemma_unsigned_integer(de.bytes, highest);
    lemma_float(de.bytes);
    lemma_char(de.bytes);
    lemma_string(de.bytes);
    lemma_identifier(de.bytes);
}

/// Whether reading moved forward in the same input, past at least one byte where a value was read.
pub open spec fn moves_over<T>(de: DeView, read: (DeView, Result<T, ErrorView>)) -> bool {
    &&& de.leads_to(read.0)
    &&& read.1 is Ok ==> de.bytes.at < read.0.bytes.at
}

/// Reading up to the content of a value only moves forward in the same input.
pub proof fn law_starts_move_forward(de: DeView, name: Seq<char>)
    requires
        de.wf(),
    ensures
        de.leads_to(de.option().0),
        de.leads_to(de.unit().0),
        de.leads_to(de.unit_struct(name).0),
        de.leads_to(de.seq().0),
        de.leads_to(de.map().0),
        de.leads_to(de.tuple().0),
        de.leads_to(de.tuple_struct(name).0),
        de.leads_to(de.struct_(name).0),
        de.leads_to(de.tuple_variant().0),
        de.leads_to(de.struct_variant_start().0),
        de.leads_to(de.any().0),
{
    reveal_strlit("()");
    lemma_option(de);
    lemma_struct_name(de.bytes, name);
    lemma_skip_ws(de.bytes);
    lemma_skip_ws(de.bytes.struct_name(name).0);
    lemma_any(de);
}

/// Reading up to the content of a newtype only moves forward in the same input.
pub proof fn law_newtypes_move_forward(de: DeView, name: Seq<char>)
    requires
        de.wf(),
    ensures
        de.leads_to(de.newtype_struct(name).0),
        de.leads_to(de.newtype_variant_start().0),
{
    law_raw_value_is_the_input(de);
    lemma_struct_name(de.bytes, name);
    let named = de.bytes.struct_name(name).0;
    lemma_skip_ws(named);
    let spaced = named.skip_ws().0;
    if spaced.at < spaced.input.len() {
        lemma_skip_ws(spaced.moved(spaced.at + 1));
    }
    lemma_skip_ws(de.bytes);
    let spaced = de.bytes.skip_ws().0;
    if spaced.at < spaced.input.len() {
        lemma_skip_ws(spaced.moved(spaced.at + 1));
    }
}

/// Reading the rest of a value only moves forward in the same input.
pub proof fn law_ends_move_forward<T>(
    de: DeView,
    name: Seq<char>,
    variant: Option<Seq<char>>,
    form: OptionForm,
    newtype: NewtypeFormView,
    enclosed: bool,
    visited: Result<T, ErrorView>,
)
    requires
        de.wf(),
    ensures
        de.leads_to(de.end_option(form, visited).0),
        de.leads_to(de.end_seq(visited).0),
        de.leads_to(de.end_map(visited).0),
        de.leads_to(de.end_tuple(enclosed, visited).0),
        de.leads_to(de.end_tuple_struct(name, enclosed, visited).0),
        de.leads_to(de.end_struct(name, enclosed, visited).0),
        de.leads_to(de.end_newtype_struct(newtype, visited).0),
        de.leads_to(de.end_newtype_variant(variant, visited).0),
        de.leads_to(de.end_struct_variant(variant, enclosed, visited).0),
        de.leads_to(de.end_any_newtype(visited).0),
{
    lemma_skip_ws(de.bytes);
    lemma_comma(de.bytes);
}

/// Reading the content of lists only moves forward in the same input.
pub proof fn law_lists_move_forward<T>(
    de: DeView,
    list: CommaSeparated,
    visited: Result<T, ErrorView>,
)
    requires
        de.wf(),
    ensures
        de.leads_to(de.has_element(list).0),
        de.leads_to(de.end_element(list, visited).0),
        de.leads_to(de.next_key(list).0),
        de.leads_to(de.colon().0),
        de.leads_to(de.singleton_value().0),
{
    lemma_has_element(de, list);
    lemma_comma(de.bytes);
    lemma_skip_ws(de.bytes);
    let spaced = de.bytes.skip_ws().0;
    if spaced.at < spaced.input.len() {
        lemma_skip_ws(spaced.moved(spaced.at + 1));
    }
}

/// Whether the name of the last variant and what is allowed for newtypes of any kind are the same.
pub open spec fn keeps_context(de: DeView, later: DeView) -> bool {
    &&& later.last_identifier == de.last_identifier
    &&& later.any_newtype == de.any_newtype
}

/// Reading up to the content of a value keeps the name of the last variant, and what is allowed for
/// newtypes of any kind. Only an identifier gives the first a new value, and only the value of a map
/// with one entry the second.
pub proof fn law_starts_keep_context(de: DeView, name: Seq<char>, list: CommaSeparated)
    requires
        de.wf(),
    ensures
        keeps_context(de, de.option().0),
        keeps_context(de, de.unit().0),
        keeps_context(de, de.unit_struct(name).0),
        keeps_context(de, de.seq().0),
        keeps_context(de, de.map().0),
        keeps_context(de, de.tuple().0),
        keeps_context(de, de.tuple_struct(name).0),
        keeps_context(de, de.struct_(name).0),
        keeps_context(de, de.tuple_variant().0),
        keeps_context(de, de.struct_variant_start().0),
        keeps_context(de, de.newtype_variant_start().0),
        name != RAW_VALUE_TOKEN@ ==> keeps_context(de, de.newtype_struct(name).0),
        keeps_context(de, de.any().0),
        keeps_context(de, de.has_element(list).0),
        keeps_context(de, de.colon().0),
{
    lemma_any(de);
}

/// Reading the rest of a value keeps the name of the last variant, and what is allowed for newtypes
/// of any kind.
pub proof fn law_ends_keep_context<T>(
    de: DeView,
    name: Seq<char>,
    variant: Option<Seq<char>>,
    form: OptionForm,
    newtype: NewtypeFormView,
    enclosed: bool,
    list: CommaSeparated,
    visited: Result<T, ErrorView>,
)
    ensures
        keeps_context(de, de.end_option(form, visited).0),
        keeps_context(de, de.end_seq(visited).0),
        keeps_context(de, de.end_map(visited).0),
        keeps_context(de, de.end_tuple(enclosed, visited).0),
        keeps_context(de, de.end_tuple_struct(name, enclosed, visited).0),
        keeps_context(de, de.end_struct(name, enclosed, visited).0),
        keeps_context(de, de.end_newtype_struct(newtype, visited).0),
        keeps_context(de, de.end_newtype_variant(variant, visited).0),
        keeps_context(de, de.end_struct_variant(variant, enclosed, visited).0),
        keeps_context(de, de.end_any_newtype(visited).0),
        keeps_context(de, de.end_element(list, visited).0),
{
}

/// Reading over a value only moves forward, past at least one byte where there is a value. What is
/// allowed for newtypes of any kind stays, also where reading over it fails.
pub proof fn law_reading_over_a_value(de: DeView)
    requires
        de.wf(),
    ensures
        moves_over(de, de.ignored()),
        de.ignored().0.any_newtype == de.any_newtype,
{
    lemma_ignored(de);
}

/// Content that is wrong ends the reading: nothing more is read, and the error stands, but for a
/// name that it may get. Whoever asks for a raw value is told only that it was refused.
pub proof fn law_wrong_content_reads_nothing<T>(
    de: DeView,
    name: Seq<char>,
    variant: Option<Seq<char>>,
    form: OptionForm,
    newtype: NewtypeFormView,
    enclosed: bool,
    error: ErrorView,
)
    ensures
        de.end_option(form, Err::<T, ErrorView>(error)) == (de, Err::<T, ErrorView>(error)),
        de.end_seq(Err::<T, ErrorView>(error)) == (de, Err::<T, ErrorView>(error)),
        de.end_map(Err::<T, ErrorView>(error)) == (de, Err::<T, ErrorView>(error)),
        de.end_tuple(enclosed, Err::<T, ErrorView>(error)) == (de, Err::<T, ErrorView>(error)),
        de.end_tuple_struct(name, enclosed, Err::<T, ErrorView>(error)) == (
            de,
            Err::<T, ErrorView>(with_tuple_name(error, name)),
        ),
        de.end_struct(name, enclosed, Err::<T, ErrorView>(error)) == (
            de,
            Err::<T, ErrorView>(
                if enclosed {
                    with_struct_name(error, name_if_any(name))
                } else {
                    error
                },
            ),
        ),
        de.end_newtype_struct(newtype, Err::<T, ErrorView>(error)) == (
            de,
            Err::<T, ErrorView>(
                if newtype is Raw {
                    ErrorView::ExpectedRawValue
                } else {
                    error
                },
            ),
        ),
        de.end_newtype_variant(variant, Err::<T, ErrorView>(error)) == (
            de,
            Err::<T, ErrorView>(with_struct_name(error, variant)),
        ),
        de.end_struct_variant(variant, enclosed, Err::<T, ErrorView>(error)) == (
            de,
            Err::<T, ErrorView>(with_struct_name(error, variant)),
        ),
{
    law_no_struct_name(error);
}

/// The parentheses of a newtype variant are unwrapped for one value only: whatever is read first of
/// it, the values inside are read with their own.
pub proof fn law_newtype_variant_unwraps_once(de: DeView, name: Seq<char>)
    requires
        de.wf(),
    ensures
        de.unit().1 is Ok ==> !de.unit().0.newtype_variant,
        de.unit_struct(name).1 is Ok ==> !de.unit_struct(name).0.newtype_variant,
        !de.seq().0.newtype_variant,
        !de.map().0.newtype_variant,
        de.tuple().1 is Ok ==> !de.tuple().0.newtype_variant,
        de.tuple_struct(name).1 is Ok ==> !de.tuple_struct(name).0.newtype_variant,
        de.struct_(name).1 is Ok ==> !de.struct_(name).0.newtype_variant,
        de.newtype_struct(name).1 is Ok ==> !de.newtype_struct(name).0.newtype_variant,
        !de.any().0.newtype_variant,
{
    lemma_any(de);
    lemma_skip_ws(de.bytes);
    lemma_ignored(de.reading(de.bytes.skip_ws().0));
}

/// The content of an unwrapped newtype variant has no parentheses of its own: a tuple or a struct in
/// it opens and closes none.
pub proof fn law_unwrapped_content_has_no_parentheses(de: DeView, name: Seq<char>)
    requires
        de.newtype_variant,
    ensures
        de.unit() == (de.plain(), Ok::<(), ErrorView>(())),
        de.tuple() == (de.plain(), Ok::<bool, ErrorView>(false)),
        de.tuple_struct(name) == (de.plain(), Ok::<bool, ErrorView>(false)),
        de.struct_after_name(name) == (de.plain(), Ok::<bool, ErrorView>(false)),
{
}

/// A comma after the last element is allowed and none is owed; between two elements one is owed.
pub proof fn law_commas(de: DeView, list: CommaSeparated)
    requires
        de.wf(),
        de.bytes.skip_ws().1 is Ok,
        de.bytes.skip_ws().0.peek() is Some,
    ensures
        ({
            let at_end = de.bytes.skip_ws().0.peek() == Some(list.terminator);
            &&& at_end <==> de.has_element(list).1 == Ok::<bool, ErrorView>(false)
            &&& !at_end && list.had_comma ==> de.has_element(list).1 == Ok::<bool, ErrorView>(true)
            &&& !at_end && !list.had_comma ==> de.has_element(list).1 == Err::<bool, ErrorView>(
                ErrorView::ExpectedComma,
            )
        }),
{
}

/// Whatever was read in between, what is allowed for newtypes of any kind is as it was before the
/// value of a map with one entry.
pub proof fn law_singleton_restores(de: DeView, later: DeView)
    ensures
        de.singleton_value().1 matches Ok(before) ==> later.allowing(before).any_newtype
            == de.any_newtype && de.singleton_value().0.any_newtype,
        de.singleton_value().1 is Err ==> de.singleton_value().0.any_newtype == de.any_newtype,
{
}

/// With optional values allowed to be written as they are, every value is an optional one: nothing
/// is read of a value that is not written as one.
pub proof fn law_implicit_some(de: DeView)
    requires
        de.wf(),
        de.bytes.exts.implicit_some,
        !de.bytes.sees("None"@),
        !de.bytes.sees("Some"@),
    ensures
        de.option() == (de, Ok::<OptionForm, ErrorView>(OptionForm::Bare)),
{
}

/// With newtypes unwrapped, a newtype struct is written as its content alone.
pub proof fn law_unwrap_newtypes(de: DeView, name: Seq<char>)
    requires
        de.bytes.exts.unwrap_newtypes,
        name != RAW_VALUE_TOKEN@,
    ensures
        de.newtype_struct(name) == (
            de.plain(),
            Ok::<NewtypeFormView, ErrorView>(NewtypeFormView::Bare),
        ),
{
}

/// A tuple struct without a name is a tuple, where no name is written.
pub proof fn law_unnamed_tuple_struct(de: DeView)
    requires
        !(de.bytes.peek() matches Some(c) && CharClass::IdentOther.has(c)),
    ensures
        de.tuple_struct(Seq::empty()) == de.tuple(),
{
}

/// The text of a raw value is the part of the input that was read: every byte of it and no other.
pub proof fn law_raw_value_is_the_input(de: DeView)
    requires
        de.wf(),
    ensures
        de.leads_to(de.raw_value().0),
        de.raw_value().1 matches Ok(text) ==> {
            &&& encode_utf8(text) == de.bytes.upto(de.raw_value().0.bytes.at)
            &&& de.bytes.at < de.raw_value().0.bytes.at
        },
{
    lemma_skip_ws(de.bytes);
    let spaced = de.reading(de.bytes.skip_ws().0);
    lemma_ignored(spaced);
    let ignored = spaced.ignored().0;
    lemma_skip_ws(ignored.bytes);
    if let Ok(text) = de.raw_value().1 {
        let read = de.bytes.upto(de.raw_value().0.bytes.at);
        decode_utf8_encode_utf8(read);
    }
}

/// A value that holds no others is read over exactly as far as it is read.
pub proof fn law_reading_over_a_scalar(de: DeView)
    requires
        de.wf(),
        de.any().1 matches Ok(event) && !event.has_content(),
    ensures
        de.ignored() == (de.any().0, Ok::<(), ErrorView>(())),
{
}

/// Parentheses around nothing but white space and comments are a unit, also where they can belong to
/// a newtype, and they are read as a whole.
pub proof fn law_empty_parentheses_are_a_unit(de: DeView)
    requires
        de.wf(),
        de.bytes.peek() == Some('(' as u8),
        de.bytes.moved(de.bytes.at + 1).skip_ws().1 is Ok,
        de.bytes.moved(de.bytes.at + 1).skip_ws().0.peek() == Some(')' as u8),
    ensures
        de.any() == (
            de.plain().reading(de.bytes.moved(de.bytes.at + 1).skip_ws().0).past(1),
            Ok::<EventView, ErrorView>(EventView::Unit),
        ),
        de.ignored() == (de.any().0, Ok::<(), ErrorView>(())),
{
    reveal_strlit("true");
    reveal_strlit("false");
    reveal_strlit("Some");
    reveal_strlit("None");
    reveal_strlit("()");
    reveal_strlit("inf");
    reveal_strlit("-inf");
    reveal_strlit("NaN");
    assert("true"@[0] == 't' && "false"@[0] == 'f' && "Some"@[0] == 'S' && "None"@[0] == 'N');
    assert("inf"@[0] == 'i' && "-inf"@[0] == '-' && "NaN"@[0] == 'N' && "()"@[1] == ')');
}

/// Where a value of unknown type turns out to be of a type, it is read just as that type is.
pub proof fn law_any_reads_as_the_type_found(de: DeView)
    requires
        de.wf(),
    ensures
        ({
            let (after, event) = de.any();
            let plain = de.plain();
            match event {
                Ok(EventView::Bool(value)) => plain.step(plain.bytes.bool()) == (
                    after,
                    Ok::<bool, ErrorView>(value),
                ),
                Ok(EventView::Option(form)) => plain.option() == (
                    after,
                    Ok::<OptionForm, ErrorView>(form),
                ),
                Ok(EventView::Unit) => plain.bytes.sees("()"@) ==> plain.unit() == (
                    after,
                    Ok::<(), ErrorView>(()),
                ),
                Ok(EventView::Sequence) => plain.seq() == (after, Ok::<(), ErrorView>(())),
                Ok(EventView::Mapping) => plain.map() == (after, Ok::<(), ErrorView>(())),
                Ok(EventView::Tuple) => plain.tuple() == (after, Ok::<bool, ErrorView>(true)),
                Ok(EventView::Struct) => plain.struct_(Seq::empty()) == (
                    after,
                    Ok::<bool, ErrorView>(true),
                ),
                Ok(EventView::Char(c)) => plain.step(plain.bytes.char()) == (
                    after,
                    Ok::<char, ErrorView>(c),
                ),
                Ok(EventView::Str(text)) => plain.step(plain.bytes.string()) == (
                    after,
                    Ok::<ParsedStrView, ErrorView>(text),
                ),
                Ok(EventView::Infinity) | Ok(EventView::NegInfinity) | Ok(
                    EventView::NotANumber,
                ) => plain.step(plain.bytes.float()).0 == after && plain.bytes.float().1 is Ok,
                Ok(EventView::Float(text)) => plain.step(plain.bytes.float()) == (
                    after,
                    Ok::<Seq<char>, ErrorView>(text),
                ),
                _ => true,
            }
        }),
{
    reveal_strlit("true");
    reveal_strlit("false");
    reveal_strlit("Some");
    reveal_strlit("None");
    reveal_strlit("()");
    reveal_strlit("inf");
    reveal_strlit("-inf");
    reveal_strlit("NaN");
    assert("true"@[0] == 't' && "false"@[0] == 'f' && "Some"@[0] == 'S' && "None"@[0] == 'N');
    assert("inf"@[0] == 'i' && "-inf"@[0] == '-' && "NaN"@[0] == 'N' && "NaN"@[1] == 'a');
    assert("()"@[0] == '(' && "None"@[1] == 'o');
}

/// Lines and columns count from one, and the column from the last line break.
pub proof fn law_positions_count_from_one(b: BytesView)
    requires
        b.wf(),
    ensures
        b.position().line >= 1,
        b.position().col >= 1,
        0 <= line_start(b.input, b.at) <= b.at,
        line_start(b.input, b.at) > 0 ==> b.input[line_start(b.input, b.at) - 1] == 10,
        forall|i: int| line_start(b.input, b.at) <= i < b.at ==> #[trigger] b.input[i] != 10,
{
    lemma_line(b.input, b.at);
}

/// A line starts after a line break, or with the input, and holds none.
proof fn lemma_line(s: Seq<u8>, at: int)
    requires
        0 <= at <= s.len(),
    ensures
        0 <= line_breaks(s, at) <= at,
        0 <= line_start(s, at) <= at,
        line_start(s, at) > 0 ==> s[line_start(s, at) - 1] == 10,
        forall|i: int| line_start(s, at) <= i < at ==> #[trigger] s[i] != 10,
    decreases at,
{
    if at > 0 {
        lemma_line(s, at - 1);
    }
}

} // verus!
