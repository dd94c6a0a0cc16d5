//! What holds of reading over values, stated over the bytes that they are written with and over the
//! reading of what they hold.
use vstd::prelude::*;
use vstd::utf8::*;
use crate::de::any::{lemma_any, EventView};
use crate::de::compound::OptionForm;
use crate::de::ignored::lemma_ignored;
use crate::de::laws::any::{law_any_brackets, law_any_fields, law_newtype_ends};
use crate::de::laws::values::{
    at_offset, law_after_element, law_closings, law_colon, law_elements,
    law_last_identifier, law_option_ends, law_single_value,
};
use crate::de::list::{CommaSeparated, KeyForm, SingletonMapView};
use crate::de::newtype::{NewtypeFormView, RAW_VALUE_TOKEN};
use crate::de::DeView;
use crate::error::{ErrorView, Utf8Error};
use crate::parse::laws::ident::{name_between, name_text};
use crate::parse::laws::space::{law_blank_is_space, law_space_is_read_over};
use crate::parse::laws::{byte_at, gap, solid, space};
use crate::parse::space::lemma_comma;
use crate::text::utf8_text;

verus! {

/// Whether a value is read over from one deserializer to another.
pub open spec fn read_over(from: DeView, to: DeView) -> bool {
    from.wf() && from.ignored() == (to, Ok::<(), ErrorView>(()))
}

/// Whether elements stand one after the other from `states[0]` on, with commas between them and
/// after the last one or not, up to a byte that ends them at `close`: each is read over from its
/// state in `states` to its state in `afters`.
pub open spec fn elements_between(
    states: Seq<DeView>,
    afters: Seq<DeView>,
    commas: Seq<int>,
    last: Option<int>,
    close: int,
    terminator: u8,
) -> bool {
    &&& states.len() == afters.len()
    &&& states.len() > 0
    &&& commas.len() + 1 == states.len()
    &&& forall|i: int|
        0 <= i < states.len() ==> read_over(#[trigger] states[i], afters[i]) && starts_element(
            states[i],
            terminator,
        )
    &&& forall|i: int|
        0 <= i < commas.len() ==> next_after_comma(
            afters[i],
            #[trigger] commas[i],
            states[i + 1],
        )
    &&& list_ends(afters.last(), last, close, terminator)
}

/// Whether an element can start where a deserializer is.
pub open spec fn starts_element(de: DeView, terminator: u8) -> bool {
    &&& solid(de.bytes.input, de.bytes.at)
    &&& de.bytes.at < de.bytes.input.len()
    &&& de.bytes.input[de.bytes.at] != terminator
}

/// Whether a comma leads from the end of one element to the start of the next.
pub open spec fn next_after_comma(after: DeView, comma: int, next: DeView) -> bool {
    &&& gap(after.bytes.input, after.bytes.at, Some(comma), next.bytes.at)
    &&& solid(after.bytes.input, next.bytes.at)
    &&& next == at_offset(after, next.bytes.at)
}

/// Whether a list ends after an element, a comma between them or not.
pub open spec fn list_ends(after: DeView, comma: Option<int>, close: int, terminator: u8) -> bool {
    &&& gap(after.bytes.input, after.bytes.at, comma, close)
    &&& byte_at(after.bytes.input, close, terminator)
}

/// Nothing is left to read over where a list ends.
proof fn lemma_list_ended(de: DeView, list: CommaSeparated)
    requires
        de.wf(),
        solid(de.bytes.input, de.bytes.at),
        byte_at(de.bytes.input, de.bytes.at, list.terminator),
    ensures
        de.ignored_elements(list) == (de, Ok::<(), ErrorView>(())),
        de.ignored_entries(list) == (de, Ok::<(), ErrorView>(())),
{
    law_blank_is_space(de.bytes.input, de.bytes.at, de.bytes.at);
    law_elements(de, list, de.bytes.at);
    assert(at_offset(de, de.bytes.at) == de);
}

/// An element is read over before those after it.
proof fn lemma_element_step(
    de: DeView,
    list: CommaSeparated,
    after: DeView,
    next: DeView,
    rest: CommaSeparated,
)
    requires
        de.wf(),
        de.has_element(list) == (de, Ok::<bool, ErrorView>(true)),
        de.ignored() == (after, Ok::<(), ErrorView>(())),
        after.end_element(list, Ok::<(), ErrorView>(())) == (
            next,
            rest,
            Ok::<(), ErrorView>(()),
        ),
        de.advances_to(next),
    ensures
        de.ignored_elements(list) == next.ignored_elements(rest),
{
}

/// Elements are read over up to what ends them.
proof fn lemma_elements(
    states: Seq<DeView>,
    afters: Seq<DeView>,
    commas: Seq<int>,
    last: Option<int>,
    close: int,
    terminator: u8,
    i: int,
)
    requires
        elements_between(states, afters, commas, last, close, terminator),
        terminator == 93 || terminator == 41,
        0 <= i < states.len(),
    ensures
        states[i].ignored_elements(CommaSeparated { terminator, had_comma: true }) == (
            at_offset(afters.last(), close),
            Ok::<(), ErrorView>(()),
        ),
    decreases states.len() - i,
{
    let list = CommaSeparated { terminator, had_comma: true };
    let de = states[i];
    let after = afters[i];
    assert(read_over(states[i], afters[i]) && starts_element(states[i], terminator));
    law_blank_is_space(de.bytes.input, de.bytes.at, de.bytes.at);
    law_elements(de, list, de.bytes.at);
    assert(at_offset(de, de.bytes.at) == de);
    lemma_ignored(de);
    if i + 1 < states.len() {
        let next = states[i + 1];
        assert(next_after_comma(afters[i], commas[i], states[i + 1]));
        law_after_element(after, list, Some(commas[i]), next.bytes.at, ());
        lemma_element_step(de, list, after, next, list);
        lemma_elements(states, afters, commas, last, close, terminator, i + 1);
    } else {
        assert(after == afters.last());
        law_after_element(after, list, last, close, ());
        let rest = CommaSeparated { terminator, had_comma: last is Some };
        lemma_element_step(de, list, after, at_offset(after, close), rest);
        lemma_list_ended(at_offset(after, close), rest);
    }
}

/// A sequence of values that can each be read over, with commas between them and after the last one
/// or not, is read over up to its closing bracket.
pub proof fn law_sequence_is_read_over(
    de: DeView,
    states: Seq<DeView>,
    afters: Seq<DeView>,
    commas: Seq<int>,
    last: Option<int>,
    close: int,
)
    requires
        de.wf(),
        byte_at(de.bytes.input, de.bytes.at, 91),
        elements_between(states, afters, commas, last, close, 93),
        space(de.bytes.input, de.bytes.at + 1, states[0].bytes.at),
        states[0] == at_offset(DeView { newtype_variant: false, ..de }, states[0].bytes.at),
    ensures
        read_over(de, at_offset(afters.last(), close + 1)),
{
    law_any_brackets(de);
    lemma_from_start(de, states, afters, commas, last, close, 93);
    let ended = at_offset(afters.last(), close);
    lemma_ends_inside(states, afters, commas, last, close, 93);
    law_blank_is_space(ended.bytes.input, close, close);
    law_closings(ended, None, close, Seq::empty(), None, ());
}

/// A tuple of values that can each be read over, with commas between them and after the last one or
/// not, is read over up to its closing parenthesis.
pub proof fn law_tuple_is_read_over(
    de: DeView,
    states: Seq<DeView>,
    afters: Seq<DeView>,
    commas: Seq<int>,
    last: Option<int>,
    close: int,
)
    requires
        de.wf(),
        byte_at(de.bytes.input, de.bytes.at, 40),
        de.any() == (
            at_offset(DeView { newtype_variant: false, ..de }, de.bytes.at + 1),
            Ok::<EventView, ErrorView>(EventView::Tuple),
        ),
        elements_between(states, afters, commas, last, close, 41),
        space(de.bytes.input, de.bytes.at + 1, states[0].bytes.at),
        states[0] == at_offset(DeView { newtype_variant: false, ..de }, states[0].bytes.at),
    ensures
        read_over(de, at_offset(afters.last(), close + 1)),
{
    lemma_from_start(de, states, afters, commas, last, close, 41);
    let ended = at_offset(afters.last(), close);
    lemma_ends_inside(states, afters, commas, last, close, 41);
    law_blank_is_space(ended.bytes.input, close, close);
    law_closings(ended, None, close, Seq::empty(), None, ());
}

/// The last state is in the input that the others are in.
proof fn lemma_ends_inside(
    states: Seq<DeView>,
    afters: Seq<DeView>,
    commas: Seq<int>,
    last: Option<int>,
    close: int,
    terminator: u8,
)
    requires
        elements_between(states, afters, commas, last, close, terminator),
    ensures
        at_offset(afters.last(), close).wf(),
{
    let i = states.len() - 1;
    assert(read_over(states[i], afters[i]));
    lemma_ignored(states[i]);
}

/// The elements are read over from the bracket on, space before the first or not.
proof fn lemma_from_start(
    de: DeView,
    states: Seq<DeView>,
    afters: Seq<DeView>,
    commas: Seq<int>,
    last: Option<int>,
    close: int,
    terminator: u8,
)
    requires
        de.wf(),
        de.bytes.at < de.bytes.input.len(),
        terminator == 93 || terminator == 41,
        elements_between(states, afters, commas, last, close, terminator),
        space(de.bytes.input, de.bytes.at + 1, states[0].bytes.at),
        states[0] == at_offset(DeView { newtype_variant: false, ..de }, states[0].bytes.at),
    ensures
        at_offset(DeView { newtype_variant: false, ..de }, de.bytes.at + 1).ignored_elements(
            CommaSeparated { terminator, had_comma: true },
        ) == (at_offset(afters.last(), close), Ok::<(), ErrorView>(())),
{
    let list = CommaSeparated { terminator, had_comma: true };
    let open = at_offset(DeView { newtype_variant: false, ..de }, de.bytes.at + 1);
    let first = states[0];
    assert(read_over(states[0], afters[0]) && starts_element(states[0], terminator));
    lemma_elements(states, afters, commas, last, close, terminator, 0);
    law_elements(open, list, first.bytes.at);
    law_blank_is_space(first.bytes.input, first.bytes.at, first.bytes.at);
    law_elements(first, list, first.bytes.at);
    assert(at_offset(first, first.bytes.at) == first);
    lemma_ignored(first);
    lemma_step(open, first, list);
}

/// White space before an element makes no difference.
proof fn lemma_step(open: DeView, first: DeView, list: CommaSeparated)
    requires
        open.wf(),
        first.wf(),
        open.bytes.at <= first.bytes.at,
        open.bytes.input == first.bytes.input,
        open.bytes.exts == first.bytes.exts,
        open.has_element(list) == (first, Ok::<bool, ErrorView>(true)),
        first.has_element(list) == (first, Ok::<bool, ErrorView>(true)),
        first.ignored().1 is Ok,
    ensures
        open.ignored_elements(list) == first.ignored_elements(list),
{
    lemma_ignored(first);
    let (after, read) = first.ignored();
    lemma_comma(after.bytes);
}

/// Where the first value of a sequence cannot be read over, neither can the sequence: the error is
/// the value's, and nothing more is read.
pub proof fn law_wrong_element(de: DeView, start: int, after: DeView, error: ErrorView)
    requires
        de.wf(),
        byte_at(de.bytes.input, de.bytes.at, 91),
        space(de.bytes.input, de.bytes.at + 1, start),
        starts_element(at_offset(DeView { newtype_variant: false, ..de }, start), 93),
        at_offset(DeView { newtype_variant: false, ..de }, start).ignored() == (
            after,
            Err::<(), ErrorView>(error),
        ),
    ensures
        de.ignored() == (after, Err::<(), ErrorView>(error)),
{
    law_any_brackets(de);
    let list = CommaSeparated { terminator: 93, had_comma: true };
    let open = at_offset(DeView { newtype_variant: false, ..de }, de.bytes.at + 1);
    law_elements(open, list, start);
    assert(open.ignored_elements(list) == (after, Err::<(), ErrorView>(error)));
}

/// What is no value cannot be read over.
pub proof fn law_no_value_is_read_over(de: DeView)
    requires
        de.wf(),
        de.any().1 is Err,
    ensures
        de.ignored().0 == de.any().0,
        de.ignored().1 == Err::<(), ErrorView>(de.any().1->Err_0),
{
}

/// An empty sequence is read over, and so is an empty map.
pub proof fn law_empty_lists_are_read_over(de: DeView, close: int)
    requires
        de.wf(),
        space(de.bytes.input, de.bytes.at + 1, close),
    ensures
        byte_at(de.bytes.input, de.bytes.at, 91) && byte_at(de.bytes.input, close, 93)
            ==> read_over(de, at_offset(DeView { newtype_variant: false, ..de }, close + 1)),
        byte_at(de.bytes.input, de.bytes.at, 123) && byte_at(de.bytes.input, close, 125)
            ==> read_over(de, at_offset(DeView { newtype_variant: false, ..de }, close + 1)),
{
    law_any_brackets(de);
    let open = at_offset(DeView { newtype_variant: false, ..de }, de.bytes.at + 1);
    let ended = at_offset(open, close);
    if byte_at(de.bytes.input, de.bytes.at, 91) && byte_at(de.bytes.input, close, 93) {
        let list = CommaSeparated { terminator: 93, had_comma: true };
        law_elements(open, list, close);
        assert(open.ignored_elements(list) == (ended, Ok::<(), ErrorView>(())));
        law_blank_is_space(ended.bytes.input, close, close);
        law_closings(ended, None, close, Seq::empty(), None, ());
    }
    if byte_at(de.bytes.input, de.bytes.at, 123) && byte_at(de.bytes.input, close, 125) {
        let list = CommaSeparated { terminator: 125, had_comma: true };
        law_elements(open, list, close);
        assert(open.ignored_entries(list) == (ended, Ok::<(), ErrorView>(())));
        law_blank_is_space(ended.bytes.input, close, close);
        law_closings(ended, None, close, Seq::empty(), None, ());
    }
}

/// Whether the key of an entry is read over from one deserializer to another: a name where the list
/// ends with a parenthesis, and else a value.
pub open spec fn key_between(from: DeView, to: DeView, terminator: u8) -> bool {
    if terminator == 41 {
        &&& from.wf()
        &&& name_between(from.bytes.input, from.bytes.at, to.bytes.at)
        &&& to == (DeView {
            last_identifier: Some(name_text(from.bytes.input, from.bytes.at, to.bytes.at)),
            ..at_offset(from, to.bytes.at)
        })
    } else {
        read_over(from, to)
    }
}

/// Whether a colon leads from the end of a key to the start of its value.
pub open spec fn value_after_colon(key: DeView, colon: int, value: DeView) -> bool {
    &&& space(key.bytes.input, key.bytes.at, colon)
    &&& byte_at(key.bytes.input, colon, 58)
    &&& space(key.bytes.input, colon + 1, value.bytes.at)
    &&& solid(key.bytes.input, value.bytes.at)
    &&& value == at_offset(key, value.bytes.at)
}

/// Where the parts of an entry are: its start, the end of its key, its colon, and the start and the
/// end of its value.
pub struct Entry {
    pub start: DeView,
    pub key: DeView,
    pub colon: int,
    pub value: DeView,
    pub after: DeView,
}

/// Whether an entry can be read over part by part.
pub open spec fn entry_is_read_over(entry: Entry, terminator: u8) -> bool {
    &&& starts_element(entry.start, terminator)
    &&& !entry.start.newtype_variant
    &&& key_between(entry.start, entry.key, terminator)
    &&& value_after_colon(entry.key, entry.colon, entry.value)
    &&& read_over(entry.value, entry.after)
}

/// Whether entries stand one after the other, with commas between them and after the last one or
/// not, up to a byte that ends them at `close`.
pub open spec fn entries_between(
    entries: Seq<Entry>,
    commas: Seq<int>,
    last: Option<int>,
    close: int,
    terminator: u8,
) -> bool {
    &&& entries.len() > 0
    &&& commas.len() + 1 == entries.len()
    &&& forall|i: int|
        0 <= i < entries.len() ==> entry_is_read_over(#[trigger] entries[i], terminator)
    &&& forall|i: int|
        0 <= i < commas.len() ==> next_after_comma(
            entries[i].after,
            #[trigger] commas[i],
            entries[i + 1].start,
        )
    &&& list_ends(entries.last().after, last, close, terminator)
}

/// What the parts of an entry are read to.
proof fn lemma_entry(entry: Entry, terminator: u8)
    requires
        entry_is_read_over(entry, terminator),
        terminator == 125 || terminator == 41,
    ensures
        ({
            let list = CommaSeparated { terminator, had_comma: true };
            let form = list.key_form();
            &&& entry.start.wf() && entry.key.wf() && entry.value.wf() && entry.after.wf()
            &&& entry.start.next_key(list) == (
                entry.start,
                Ok::<Option<KeyForm>, ErrorView>(Some(form)),
            )
            &&& entry.start.ignored_key(form) == (entry.key, Ok::<(), ErrorView>(()))
            &&& entry.key.colon() == (entry.value, Ok::<(), ErrorView>(()))
            &&& entry.value.ignored() == (entry.after, Ok::<(), ErrorView>(()))
            &&& entry.start.advances_to(entry.value)
            &&& entry.value.advances_to(entry.after)
        }),
{
    let list = CommaSeparated { terminator, had_comma: true };
    let start = entry.start;
    law_blank_is_space(start.bytes.input, start.bytes.at, start.bytes.at);
    law_elements(start, list, start.bytes.at);
    assert(at_offset(start, start.bytes.at) == start);
    if terminator == 41 {
        law_last_identifier(start, entry.key.bytes.at);
    } else {
        lemma_ignored(start);
    }
    law_colon(entry.key, entry.colon, entry.value.bytes.at);
    lemma_ignored(entry.value);
}

/// An entry takes at least one byte.
proof fn lemma_entry_moves(entry: Entry, terminator: u8)
    requires
        entry_is_read_over(entry, terminator),
        terminator == 125 || terminator == 41,
    ensures
        entry.after.wf(),
        entry.start.advances_to(entry.after),
{
    lemma_entry(entry, terminator);
}

/// An entry is read over before those after it.
proof fn lemma_entry_step(
    entry: Entry,
    list: CommaSeparated,
    next: DeView,
    rest: CommaSeparated,
)
    requires
        entry_is_read_over(entry, list.terminator),
        list.terminator == 125 || list.terminator == 41,
        list.had_comma,
        entry.after.end_element(list, Ok::<(), ErrorView>(())) == (
            next,
            rest,
            Ok::<(), ErrorView>(()),
        ),
        entry.start.advances_to(next),
    ensures
        entry.start.ignored_entries(list) == next.ignored_entries(rest),
{
    lemma_entry(entry, list.terminator);
}

/// After a comma, the next entry is read over.
proof fn lemma_next_entry(entry: Entry, comma: int, next: DeView, terminator: u8)
    requires
        entry_is_read_over(entry, terminator),
        terminator == 125 || terminator == 41,
        next_after_comma(entry.after, comma, next),
    ensures
        ({
            let list = CommaSeparated { terminator, had_comma: true };
            entry.start.ignored_entries(list) == next.ignored_entries(list)
        }),
{
    let list = CommaSeparated { terminator, had_comma: true };
    lemma_entry_moves(entry, terminator);
    law_after_element(entry.after, list, Some(comma), next.bytes.at, ());
    lemma_entry_step(entry, list, next, list);
}

/// After the last entry, nothing is left to read over.
proof fn lemma_last_entry(entry: Entry, comma: Option<int>, close: int, terminator: u8)
    requires
        entry_is_read_over(entry, terminator),
        terminator == 125 || terminator == 41,
        list_ends(entry.after, comma, close, terminator),
    ensures
        entry.start.ignored_entries(CommaSeparated { terminator, had_comma: true }) == (
            at_offset(entry.after, close),
            Ok::<(), ErrorView>(()),
        ),
        at_offset(entry.after, close).wf(),
{
    let list = CommaSeparated { terminator, had_comma: true };
    let after = entry.after;
    lemma_entry_moves(entry, terminator);
    law_after_element(after, list, comma, close, ());
    let rest = CommaSeparated { terminator, had_comma: comma is Some };
    lemma_entry_step(entry, list, at_offset(after, close), rest);
    lemma_list_ended(at_offset(after, close), rest);
}

/// Entries are read over up to what ends them.
proof fn lemma_entries(
    entries: Seq<Entry>,
    commas: Seq<int>,
    last: Option<int>,
    close: int,
    terminator: u8,
    i: int,
)
    requires
        entries_between(entries, commas, last, close, terminator),
        terminator == 125 || terminator == 41,
        0 <= i < entries.len(),
    ensures
        entries[i].start.ignored_entries(CommaSeparated { terminator, had_comma: true }) == (
            at_offset(entries.last().after, close),
            Ok::<(), ErrorView>(()),
        ),
        at_offset(entries.last().after, close).wf(),
    decreases entries.len() - i,
{
    assert(entry_is_read_over(entries[i], terminator));
    if i + 1 < entries.len() {
        assert(next_after_comma(entries[i].after, commas[i], entries[i + 1].start));
        lemma_next_entry(entries[i], commas[i], entries[i + 1].start, terminator);
        lemma_entries(entries, commas, last, close, terminator, i + 1);
    } else {
        lemma_last_entry(entries[i], last, close, terminator);
    }
}

/// The entries are read over from the bracket on, space before the first or not.
proof fn lemma_entries_from_start(
    open: DeView,
    entries: Seq<Entry>,
    commas: Seq<int>,
    last: Option<int>,
    close: int,
    terminator: u8,
)
    requires
        open.wf(),
        terminator == 125 || terminator == 41,
        entries_between(entries, commas, last, close, terminator),
        space(open.bytes.input, open.bytes.at, entries[0].start.bytes.at),
        entries[0].start == at_offset(open, entries[0].start.bytes.at),
    ensures
        open.ignored_entries(CommaSeparated { terminator, had_comma: true }) == (
            at_offset(entries.last().after, close),
            Ok::<(), ErrorView>(()),
        ),
        at_offset(entries.last().after, close).wf(),
{
    let list = CommaSeparated { terminator, had_comma: true };
    let entry = entries[0];
    assert(entry_is_read_over(entries[0], terminator));
    lemma_entry(entry, terminator);
    lemma_entries(entries, commas, last, close, terminator, 0);
    law_elements(open, list, entry.start.bytes.at);
    lemma_comma(entry.after.bytes);
}

/// A map whose keys and values can each be read over, with a colon between the two of an entry and
/// commas between entries, is read over up to its closing brace.
pub proof fn law_map_is_read_over(
    de: DeView,
    entries: Seq<Entry>,
    commas: Seq<int>,
    last: Option<int>,
    close: int,
)
    requires
        de.wf(),
        byte_at(de.bytes.input, de.bytes.at, 123),
        entries_between(entries, commas, last, close, 125),
        space(de.bytes.input, de.bytes.at + 1, entries[0].start.bytes.at),
        entries[0].start == at_offset(
            DeView { newtype_variant: false, ..de },
            entries[0].start.bytes.at,
        ),
    ensures
        read_over(de, at_offset(entries.last().after, close + 1)),
{
    law_any_brackets(de);
    let open = at_offset(DeView { newtype_variant: false, ..de }, de.bytes.at + 1);
    lemma_entries_from_start(open, entries, commas, last, close, 125);
    law_blank_is_space(at_offset(entries.last().after, close).bytes.input, close, close);
    law_closings(at_offset(entries.last().after, close), None, close, Seq::empty(), None, ());
}

/// A struct whose fields are names and values that can be read over, with a colon between the two of
/// a field and commas between fields, is read over up to its closing parenthesis.
pub proof fn law_struct_is_read_over(
    de: DeView,
    entries: Seq<Entry>,
    commas: Seq<int>,
    last: Option<int>,
    close: int,
)
    requires
        de.wf(),
        byte_at(de.bytes.input, de.bytes.at, 40),
        entries_between(entries, commas, last, close, 41),
        space(de.bytes.input, de.bytes.at + 1, entries[0].start.bytes.at),
        entries[0].start == at_offset(
            DeView { newtype_variant: false, ..de },
            entries[0].start.bytes.at,
        ),
    ensures
        read_over(de, at_offset(entries.last().after, close + 1)),
{
    let entry = entries[0];
    assert(entry_is_read_over(entries[0], 41));
    law_any_fields(
        de,
        entry.start.bytes.at,
        entry.key.bytes.at,
        entry.colon,
    );
    let open = at_offset(DeView { newtype_variant: false, ..de }, de.bytes.at + 1);
    lemma_entries_from_start(open, entries, commas, last, close, 41);
    law_blank_is_space(at_offset(entries.last().after, close).bytes.input, close, close);
    law_closings(at_offset(entries.last().after, close), None, close, Seq::empty(), None, ());
}

/// An optional value is read over with the value that it encloses, up to its parenthesis.
pub proof fn law_some_is_read_over(de: DeView, inner: DeView, after: DeView, close: int)
    requires
        de.wf(),
        de.any() == (inner, Ok::<EventView, ErrorView>(EventView::Option(OptionForm::Enclosed))),
        read_over(inner, after),
        space(after.bytes.input, after.bytes.at, close),
        byte_at(after.bytes.input, close, 41),
    ensures
        read_over(de, at_offset(after, close + 1)),
{
    lemma_ignored(inner);
    law_option_ends(after, close, OptionForm::Enclosed, ());
}

/// A name with content is read over with its content, for which newtypes of any kind are allowed.
pub proof fn law_named_value_is_read_over(
    de: DeView,
    inner: DeView,
    map: SingletonMapView,
    after: DeView,
)
    requires
        de.wf(),
        de.any() == (inner, Ok::<EventView, ErrorView>(EventView::Singleton(map))),
        solid(inner.bytes.input, inner.bytes.at),
        read_over(DeView { any_newtype: true, ..inner }, after),
    ensures
        read_over(de, DeView { any_newtype: de.any_newtype, ..after }),
{
    lemma_any(de);
    law_blank_is_space(inner.bytes.input, inner.bytes.at, inner.bytes.at);
    law_single_value(inner, inner.bytes.at);
    assert(at_offset(inner, inner.bytes.at) == inner);
}

/// A newtype is read over with its content, up to its parenthesis.
pub proof fn law_newtype_is_read_over(de: DeView, inner: DeView, after: DeView, close: int)
    requires
        de.wf(),
        de.any() == (inner, Ok::<EventView, ErrorView>(EventView::Newtype)),
        read_over(inner, after),
        space(after.bytes.input, after.bytes.at, close),
        byte_at(after.bytes.input, close, 41),
    ensures
        read_over(de, at_offset(after, close + 1)),
{
    lemma_ignored(inner);
    law_newtype_ends(after, close, Ok::<(), ErrorView>(()));
}

/// The text of a value is the value's bytes and the space around them.
pub proof fn law_raw_value_is_read_back(
    de: DeView,
    start: int,
    after: DeView,
    to: int,
    text: Seq<char>,
)
    requires
        de.wf(),
        space(de.bytes.input, de.bytes.at, start),
        solid(de.bytes.input, start),
        read_over(at_offset(de, start), after),
        space(after.bytes.input, after.bytes.at, to),
        solid(after.bytes.input, to),
        de.bytes.input.subrange(de.bytes.at, to) == encode_utf8(text),
    ensures
        de.raw_value() == (at_offset(after, to), Ok::<Seq<char>, ErrorView>(text)),
        de.newtype_struct(RAW_VALUE_TOKEN@) == (
            at_offset(after, to),
            Ok::<NewtypeFormView, ErrorView>(NewtypeFormView::Raw(text)),
        ),
{
    law_space_is_read_over(de.bytes, start);
    lemma_ignored(at_offset(de, start));
    law_space_is_read_over(after.bytes, to);
    encode_utf8_valid_utf8(text);
    encode_utf8_decode_utf8(text);
    assert(utf8_text(de.bytes.upto(to)) == Ok::<Seq<char>, Utf8Error>(text));
}

} // verus!
