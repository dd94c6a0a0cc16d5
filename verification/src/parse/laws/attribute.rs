//! What holds of the attributes at the start of a document.
use vstd::prelude::*;
use crate::error::ErrorView;
use crate::extensions::Extensions;
use crate::parse::attribute::{document, lemma_attribute};
use crate::parse::laws::ident::{law_identifier_is_read, plain_name, text_between};
use crate::parse::laws::space::{law_blank_is_read_over, law_gap, law_space_is_read_over};
use crate::parse::laws::{
    blank_byte, byte_at, gap, lemma_spells, name_part, solid, space, spells,
};
use crate::parse::BytesView;
use crate::text::ascii_text;

verus! {

/// Whether a text is the name of an extension.
pub open spec fn extension_name(name: Seq<char>) -> bool {
    name == "unwrap_newtypes"@ || name == "implicit_some"@ || name == "unwrap_variant_newtypes"@
}

/// Whether exactly those extensions are on that are on before or are named.
pub open spec fn adds(before: Extensions, names: Seq<Seq<char>>, after: Extensions) -> bool {
    &&& after.unwrap_newtypes <==> before.unwrap_newtypes || names.contains("unwrap_newtypes"@)
    &&& after.implicit_some <==> before.implicit_some || names.contains("implicit_some"@)
    &&& after.unwrap_variant_newtypes <==> before.unwrap_variant_newtypes || names.contains(
        "unwrap_variant_newtypes"@,
    )
}

/// Where the names of extensions stand, each with a comma after it but for the last, which may have
/// one.
pub struct Names {
    pub names: Seq<Seq<char>>,
    pub starts: Seq<int>,
    pub commas: Seq<int>,
    pub last: Option<int>,
}

/// Where a name ends.
pub open spec fn name_end(list: Names, i: int) -> int {
    list.starts[i] + list.names[i].len()
}

/// Whether names of extensions stand one after the other, with commas between them and space
/// around them or not, up to the parenthesis that closes them.
pub open spec fn names_between(s: Seq<u8>, list: Names, close: int) -> bool {
    let count = list.names.len();
    &&& count > 0
    &&& list.starts.len() == count
    &&& list.commas.len() + 1 == count
    &&& forall|i: int|
        0 <= i < count ==> extension_name(#[trigger] list.names[i]) && spells(
            s,
            list.starts[i],
            list.names[i],
        )
    &&& forall|i: int|
        0 <= i < list.commas.len() ==> gap(
            s,
            name_end(list, i),
            Some(#[trigger] list.commas[i]),
            list.starts[i + 1],
        )
    &&& gap(s, name_end(list, count - 1), list.last, close)
    &&& byte_at(s, close, 41)
}

/// A set of extensions is the union of two exactly where an extension is on in one of them.
pub proof fn law_union(a: Extensions, b: Extensions)
    ensures
        a.with(b).unwrap_newtypes <==> a.unwrap_newtypes || b.unwrap_newtypes,
        a.with(b).implicit_some <==> a.implicit_some || b.implicit_some,
        a.with(b).unwrap_variant_newtypes <==> a.unwrap_variant_newtypes
            || b.unwrap_variant_newtypes,
{
}

/// The name of an extension is a plain identifier.
proof fn lemma_name_is_plain(s: Seq<u8>, at: int, name: Seq<char>)
    requires
        extension_name(name),
        spells(s, at, name),
        at + name.len() < s.len(),
        s[at + name.len()] == 44 || s[at + name.len()] == 41 || blank_byte(
            s[at + name.len()],
        ) || s[at + name.len()] == 47,
    ensures
        plain_name(s, at, at + name.len()),
        text_between(s, at, at + name.len()) == name,
        name.len() > 0,
{
    reveal_strlit("unwrap_newtypes");
    reveal_strlit("implicit_some");
    reveal_strlit("unwrap_variant_newtypes");
    let to = at + name.len();
    assert forall|i: int| at <= i < to implies name_part(#[trigger] s[i]) by {
        assert(s[at + (i - at)] == name[i - at] as u8);
    }
    assert(s[at + 0] == name[0] as u8);
    assert forall|i: int| 0 <= i < name.len() implies text_between(s, at, to)[i] == name[i] by {
        assert(s[at + i] == name[i] as u8);
    }
    assert(text_between(s, at, to) =~= name);
}

/// The names from one on.
spec fn names_from(list: Names, i: int) -> Seq<Seq<char>> {
    list.names.skip(i)
}

/// What a gap starts with.
proof fn lemma_gap_starts(s: Seq<u8>, from: int, comma: Option<int>, to: int)
    requires
        gap(s, from, comma, to),
        to < s.len() <= usize::MAX,
    ensures
        0 <= from < s.len(),
        from == to || s[from] == 44 || s[from] == 47 || blank_byte(s[from]),
{
    let b = BytesView { input: s, at: from, exts: Extensions::none() };
    match comma {
        None => law_space_is_read_over(b, to),
        Some(comma) => law_space_is_read_over(b, comma),
    }
}

/// Names of extensions are read up to the parenthesis, and all of them are on then.
proof fn lemma_names_are_read(b: BytesView, list: Names, close: int, so_far: Extensions, i: int)
    requires
        b.wf(),
        names_between(b.input, list, close),
        0 <= i < list.names.len(),
        b.at == list.starts[i],
    ensures
        b.extension_names(so_far).0 == b.moved(close),
        b.extension_names(so_far).1 matches Ok(found) && adds(so_far, names_from(list, i), found),
    decreases list.names.len() - i,
{
    let s = b.input;
    let name = list.names[i];
    let end = name_end(list, i);
    let names = names_from(list, i);
    let one = Extensions::named(name).unwrap();
    assert(extension_name(list.names[i]) && spells(s, list.starts[i], list.names[i]));
    assert(names[0] == name);
    lemma_distinct_names();
    let named = b.moved(end);
    if i + 1 < list.names.len() {
        let next = list.starts[i + 1];
        assert(gap(s, name_end(list, i), Some(list.commas[i]), list.starts[i + 1]));
        assert(extension_name(list.names[i + 1]) && spells(
            s,
            list.starts[i + 1],
            list.names[i + 1],
        ));
        lemma_starts_with_letter(s, next, list.names[i + 1]);
        lemma_gap_starts(s, end, Some(list.commas[i]), next);
        lemma_name_is_plain(s, b.at, name);
        law_identifier_is_read(b, end);
        assert(ascii_text(s.subrange(b.at, end)) =~= text_between(s, b.at, end));
        law_gap(named, Some(list.commas[i]), next);
        lemma_names_are_read(b.moved(next), list, close, so_far.with(one), i + 1);
        let rest = names_from(list, i + 1);
        assert forall|other: Seq<char>|
            #[trigger] names.contains(other) <==> other == name || rest.contains(other) by {
            if rest.contains(other) {
                let k = choose|k: int| 0 <= k < rest.len() && rest[k] == other;
                assert(names[k + 1] == other);
            }
            if names.contains(other) && other != name {
                let k = choose|k: int| 0 <= k < names.len() && names[k] == other;
                assert(rest[k - 1] == other);
            }
        }
    } else {
        lemma_gap_starts(s, end, list.last, close);
        lemma_name_is_plain(s, b.at, name);
        law_identifier_is_read(b, end);
        assert(ascii_text(s.subrange(b.at, end)) =~= text_between(s, b.at, end));
        law_gap(named, list.last, close);
        assert forall|other: Seq<char>| #[trigger] names.contains(other) implies other == name by {}
    }
}

/// No two extensions have the same name.
proof fn lemma_distinct_names()
    ensures
        "unwrap_newtypes"@ != "implicit_some"@,
        "unwrap_newtypes"@ != "unwrap_variant_newtypes"@,
        "implicit_some"@ != "unwrap_variant_newtypes"@,
{
    reveal_strlit("unwrap_newtypes");
    reveal_strlit("implicit_some");
    reveal_strlit("unwrap_variant_newtypes");
    assert("unwrap_newtypes"@.len() == 15 && "implicit_some"@.len() == 13);
    assert("unwrap_variant_newtypes"@.len() == 23);
}

/// The name of an extension starts with a letter.
proof fn lemma_starts_with_letter(s: Seq<u8>, at: int, name: Seq<char>)
    requires
        extension_name(name),
        spells(s, at, name),
    ensures
        at < s.len(),
        97 <= s[at] <= 122,
{
    reveal_strlit("unwrap_newtypes");
    reveal_strlit("implicit_some");
    reveal_strlit("unwrap_variant_newtypes");
    assert(s[at + 0] == name[0] as u8);
}

/// Where the parts of an attribute stand: `!`, `[`, `enable`, `(`, the names, `)`, `]` and what
/// follows them.
pub struct Attribute {
    pub bang: int,
    pub bracket: int,
    pub word: int,
    pub parenthesis: int,
    pub list: Names,
    pub close: int,
    pub end: int,
    pub next: int,
}

/// Whether an attribute stands at an offset, with space between and after its parts or not.
pub open spec fn attribute_at(s: Seq<u8>, from: int, parts: Attribute) -> bool {
    &&& byte_at(s, from, 35)
    &&& space(s, from + 1, parts.bang)
    &&& byte_at(s, parts.bang, 33)
    &&& space(s, parts.bang + 1, parts.bracket)
    &&& byte_at(s, parts.bracket, 91)
    &&& space(s, parts.bracket + 1, parts.word)
    &&& spells(s, parts.word, seq!['e', 'n', 'a', 'b', 'l', 'e'])
    &&& space(s, parts.word + 6, parts.parenthesis)
    &&& byte_at(s, parts.parenthesis, 40)
    &&& names_between(s, parts.list, parts.close)
    &&& space(s, parts.parenthesis + 1, parts.list.starts[0])
    &&& space(s, parts.close + 1, parts.end)
    &&& byte_at(s, parts.end, 93)
    &&& space(s, parts.end + 1, parts.next)
    &&& solid(s, parts.next)
}

/// A token of one character comes next where its byte stands.
proof fn lemma_sees_byte(b: BytesView, token: Seq<char>, c: u8)
    requires
        b.wf(),
        token.len() == 1,
        token[0] == c as char,
        c < 128,
    ensures
        b.sees(token) <==> byte_at(b.input, b.at, c),
{
    if b.sees(token) {
        assert(token[0] == b.input[b.at + 0] as char);
    }
}

/// What an attribute starts with is read up to the first name.
proof fn lemma_attribute_starts(b: BytesView, parts: Attribute)
    requires
        b.wf(),
        attribute_at(b.input, b.at, parts),
    ensures
        b.spaced_tokens(seq!["#"@, "!"@, "["@, "enable"@, "("@]) == (
            b.moved(parts.list.starts[0]),
            Ok::<bool, ErrorView>(true),
        ),
{
    let s = b.input;
    reveal_strlit("#");
    reveal_strlit("!");
    reveal_strlit("[");
    reveal_strlit("enable");
    reveal_strlit("(");
    assert("enable"@ =~= seq!['e', 'n', 'a', 'b', 'l', 'e']);
    let first = parts.list.starts[0];
    assert(extension_name(parts.list.names[0]) && spells(s, first, parts.list.names[0]));
    lemma_starts_with_letter(s, first, parts.list.names[0]);
    let b1 = b.moved(parts.bang);
    let b2 = b.moved(parts.bracket);
    let b3 = b.moved(parts.word);
    let b4 = b.moved(parts.parenthesis);
    let open = b.moved(first);
    lemma_sees_byte(b, "#"@, 35);
    lemma_sees_byte(b1, "!"@, 33);
    lemma_sees_byte(b2, "["@, 91);
    lemma_spells(s, b3.at, "enable"@);
    lemma_sees_byte(b4, "("@, 40);
    assert(s[parts.word + 0] == seq!['e', 'n', 'a', 'b', 'l', 'e'][0] as u8);
    law_space_is_read_over(b.moved(b.at + 1), parts.bang);
    law_space_is_read_over(b.moved(parts.bang + 1), parts.bracket);
    law_space_is_read_over(b.moved(parts.bracket + 1), parts.word);
    law_space_is_read_over(b.moved(parts.word + 6), parts.parenthesis);
    law_space_is_read_over(b.moved(parts.parenthesis + 1), first);
    let tokens = seq!["#"@, "!"@, "["@, "enable"@, "("@];
    let t1 = tokens.drop_first();
    let t2 = t1.drop_first();
    let t3 = t2.drop_first();
    let t4 = t3.drop_first();
    assert(t1 =~= seq!["!"@, "["@, "enable"@, "("@]);
    assert(t2 =~= seq!["["@, "enable"@, "("@]);
    assert(t3 =~= seq!["enable"@, "("@]);
    assert(t4 =~= seq!["("@]);
    assert(t4.drop_first() =~= seq![]);
    let done = (open, Ok::<bool, ErrorView>(true));
    assert(open.spaced_tokens(t4.drop_first()) == done);
    assert(b4.spaced_tokens(t4) == done);
    assert(b3.spaced_tokens(t3) == done);
    assert(b2.spaced_tokens(t2) == done);
    assert(b1.spaced_tokens(t1) == done);
    assert(b.spaced_tokens(tokens) == done);
}

/// An attribute is read over with the space after it, and gives the extensions that it names.
pub proof fn law_attribute_is_read(b: BytesView, parts: Attribute)
    requires
        b.wf(),
        attribute_at(b.input, b.at, parts),
    ensures
        b.attribute().0 == b.moved(parts.next),
        b.attribute().1 matches Ok(found) && adds(Extensions::none(), parts.list.names, found),
{
    let s = b.input;
    reveal_strlit(")");
    reveal_strlit("]");
    lemma_attribute_starts(b, parts);
    let open = b.moved(parts.list.starts[0]);
    lemma_names_are_read(open, parts.list, parts.close, Extensions::none(), 0);
    assert(names_from(parts.list, 0) =~= parts.list.names);
    let close = open.moved(parts.close);
    let last = open.moved(parts.end);
    let after = open.moved(parts.next);
    lemma_sees_byte(close, ")"@, 41);
    lemma_sees_byte(last, "]"@, 93);
    law_space_is_read_over(open.moved(parts.close + 1), parts.end);
    law_space_is_read_over(open.moved(parts.end + 1), parts.next);
    let ends = seq![")"@, "]"@];
    assert(ends.drop_first() =~= seq!["]"@]);
    assert(ends.drop_first().drop_first() =~= seq![]);
    let done = (after, Ok::<bool, ErrorView>(true));
    assert(after.spaced_tokens(ends.drop_first().drop_first()) == done);
    assert(last.spaced_tokens(ends.drop_first()) == done);
    assert(close.spaced_tokens(ends) == done);
}

/// A hash that no exclamation mark follows starts no attribute.
pub proof fn law_no_attribute(b: BytesView, to: int)
    requires
        b.wf(),
        byte_at(b.input, b.at, 35),
        space(b.input, b.at + 1, to),
        solid(b.input, to),
        !byte_at(b.input, to, 33),
    ensures
        b.attributes().1 == Err::<(), ErrorView>(ErrorView::ExpectedAttribute),
{
    reveal_strlit("#");
    reveal_strlit("!");
    lemma_sees_byte(b, "#"@, 35);
    lemma_sees_byte(b.moved(to), "!"@, 33);
    law_blank_is_read_over(b, b.at);
    law_space_is_read_over(b.moved(b.at + 1), to);
    let tokens = seq!["#"@, "!"@, "["@, "enable"@, "("@];
    assert(tokens.drop_first()[0] == "!"@);
    assert(b.moved(to).spaced_tokens(tokens.drop_first()) == (
        b.moved(to),
        Ok::<bool, ErrorView>(false),
    ));
    assert(b.spaced_tokens(tokens) == (b.moved(to), Ok::<bool, ErrorView>(false)));
}

/// Space before attributes makes no difference.
pub proof fn law_space_before_attributes(b: BytesView, to: int)
    requires
        b.wf(),
        space(b.input, b.at, to),
    ensures
        b.attributes() == b.moved(to).attributes(),
{
    law_space_is_read_over(b, to);
    law_blank_is_read_over(b.moved(to), to);
}

/// Attributes end where there is no hash, and nothing more is read.
pub proof fn law_attributes_end(b: BytesView)
    requires
        b.wf(),
        solid(b.input, b.at),
        !byte_at(b.input, b.at, 35),
    ensures
        b.attributes() == (b, Ok::<(), ErrorView>(())),
{
    law_blank_is_read_over(b, b.at);
}

/// A document without attributes starts with its value, after space, and no extension is on.
pub proof fn law_document_without_attributes(input: Seq<u8>, to: int)
    requires
        input.len() <= usize::MAX,
        space(input, 0, to),
        solid(input, to),
        to < input.len() ==> input[to] != 35,
    ensures
        document(input).1 is Ok,
        document(input).0.input == input,
        document(input).0.at == to,
        document(input).0.exts == (Extensions {
            unwrap_newtypes: false,
            implicit_some: false,
            unwrap_variant_newtypes: false,
        }),
{
    law_space_is_read_over(BytesView { input, at: 0, exts: Extensions::none() }, to);
}

/// Attributes are read one after the other, and each adds the extensions that it names to those that
/// are on already.
pub proof fn law_attributes_add_up(b: BytesView, parts: Attribute)
    requires
        b.wf(),
        attribute_at(b.input, b.at, parts),
    ensures
        exists|exts: Extensions|
            #[trigger] adds(b.exts, parts.list.names, exts) && b.attributes() == (BytesView {
                at: parts.next,
                exts,
                ..b
            }).attributes(),
{
    law_blank_is_read_over(b, b.at);
    law_attribute_is_read(b, parts);
    let found = b.attribute().1->Ok_0;
    let exts = b.exts.with(found);
    lemma_attribute(b);
    assert(b.attribute().0.enabling(found) == (BytesView { at: parts.next, exts, ..b }));
    assert(adds(b.exts, parts.list.names, exts));
}

/// A name that no extension has is refused, and the error tells the name.
pub proof fn law_unknown_extension(b: BytesView, to: int, so_far: Extensions)
    requires
        b.wf(),
        plain_name(b.input, b.at, to),
        !extension_name(text_between(b.input, b.at, to)),
    ensures
        b.extension_names(so_far).1 == Err::<Extensions, ErrorView>(
            ErrorView::NoSuchExtension(text_between(b.input, b.at, to)),
        ),
{
    law_identifier_is_read(b, to);
    assert(ascii_text(b.input.subrange(b.at, to)) =~= text_between(b.input, b.at, to));
}

} // verus!
