//! What holds of values of unknown type, stated over the bytes that they are written with.
use vstd::prelude::*;
use vstd::utf8::*;
use crate::de::any::{comma_inside, EventView};
use crate::de::compound::OptionForm;
use crate::de::laws::values::{at_offset, law_some};
use crate::de::list::SingletonMapView;
use crate::de::DeView;
use crate::error::ErrorView;
use crate::parse::laws::ident::{
    law_name_is_read, name_between, name_from, name_text, plain_name, text_between,
};
use crate::parse::laws::literal::{
    can_spell, characters, in_string, law_char_is_read_back, law_raw_string_is_read_back,
    law_string_is_read_back, spelling, written, Pieces, Spelling,
};
use crate::parse::laws::number::{
    float_between, law_any_float, law_any_signed, law_any_unsigned, law_float_is_read,
    number_between, number_ends, smallest_signed_for, smallest_unsigned_for,
};
use crate::parse::laws::space::{
    law_blank_is_read_over, law_blank_is_space, law_space_is_read_over,
};
use crate::parse::laws::{
    blank, blank_byte, byte_at, holds, lemma_spells, name_part, name_start, solid, space, spells,
    word_ends,
};
use crate::parse::literal::ParsedStrView;
use crate::parse::number::AnyNumView;
use crate::parse::BytesView;

verus! {

/// Whether a word stands at an offset and ends there.
pub open spec fn word_at(s: Seq<u8>, at: int, word: Seq<char>) -> bool {
    spells(s, at, word) && word_ends(s, at + word.len())
}

/// A word comes next exactly where it stands.
proof fn lemma_word(b: BytesView, word: Seq<char>)
    requires
        b.wf(),
        is_ascii_chars(word),
    ensures
        b.sees_word(word) <==> word_at(b.input, b.at, word),
{
    lemma_spells(b.input, b.at, word);
}

/// The words that stand for values, letter by letter.
proof fn lemma_words(b: BytesView)
    requires
        b.wf(),
    ensures
        b.sees_word("true"@) <==> word_at(b.input, b.at, seq!['t', 'r', 'u', 'e']),
        b.sees_word("false"@) <==> word_at(b.input, b.at, seq!['f', 'a', 'l', 's', 'e']),
        b.sees_word("Some"@) <==> word_at(b.input, b.at, seq!['S', 'o', 'm', 'e']),
        b.sees_word("None"@) <==> word_at(b.input, b.at, seq!['N', 'o', 'n', 'e']),
        b.sees_word("inf"@) <==> word_at(b.input, b.at, seq!['i', 'n', 'f']),
        b.sees_word("-inf"@) <==> word_at(b.input, b.at, seq!['-', 'i', 'n', 'f']),
        b.sees_word("NaN"@) <==> word_at(b.input, b.at, seq!['N', 'a', 'N']),
        b.sees("()"@) <==> spells(b.input, b.at, seq!['(', ')']),
{
    reveal_strlit("true");
    reveal_strlit("false");
    reveal_strlit("Some");
    reveal_strlit("None");
    reveal_strlit("()");
    reveal_strlit("inf");
    reveal_strlit("-inf");
    reveal_strlit("NaN");
    assert("true"@ =~= seq!['t', 'r', 'u', 'e']);
    assert("false"@ =~= seq!['f', 'a', 'l', 's', 'e']);
    assert("Some"@ =~= seq!['S', 'o', 'm', 'e']);
    assert("None"@ =~= seq!['N', 'o', 'n', 'e']);
    assert("inf"@ =~= seq!['i', 'n', 'f']);
    assert("-inf"@ =~= seq!['-', 'i', 'n', 'f']);
    assert("NaN"@ =~= seq!['N', 'a', 'N']);
    assert("()"@ =~= seq!['(', ')']);
    lemma_word(b, "true"@);
    lemma_word(b, "false"@);
    lemma_word(b, "Some"@);
    lemma_word(b, "None"@);
    lemma_word(b, "inf"@);
    lemma_word(b, "-inf"@);
    lemma_word(b, "NaN"@);
    lemma_spells(b.input, b.at, "()"@);
}

/// What a text that stands at an offset starts with.
proof fn lemma_first_bytes(s: Seq<u8>, at: int, text: Seq<char>)
    requires
        text.len() >= 2,
    ensures
        spells(s, at, text) ==> at + 1 < s.len() && s[at] == text[0] as u8 && s[at + 1]
            == text[1] as u8,
{
    if spells(s, at, text) {
        assert(s[at + 0] == text[0] as u8);
        assert(s[at + 1] == text[1] as u8);
    }
}

/// What the words that stand for values start with.
proof fn lemma_words_start(s: Seq<u8>, at: int)
    ensures
        spells(s, at, seq!['t', 'r', 'u', 'e']) ==> s[at] == 116,
        spells(s, at, seq!['f', 'a', 'l', 's', 'e']) ==> s[at] == 102,
        spells(s, at, seq!['S', 'o', 'm', 'e']) ==> s[at] == 83,
        spells(s, at, seq!['N', 'o', 'n', 'e']) ==> s[at] == 78 && s[at + 1] == 111,
        spells(s, at, seq!['i', 'n', 'f']) ==> s[at] == 105,
        spells(s, at, seq!['-', 'i', 'n', 'f']) ==> s[at] == 45 && s[at + 1] == 105,
        spells(s, at, seq!['N', 'a', 'N']) ==> s[at] == 78 && s[at + 1] == 97,
        spells(s, at, seq!['(', ')']) ==> s[at] == 40 && s[at + 1] == 41,
{
    lemma_first_bytes(s, at, seq!['t', 'r', 'u', 'e']);
    lemma_first_bytes(s, at, seq!['f', 'a', 'l', 's', 'e']);
    lemma_first_bytes(s, at, seq!['S', 'o', 'm', 'e']);
    lemma_first_bytes(s, at, seq!['N', 'o', 'n', 'e']);
    lemma_first_bytes(s, at, seq!['i', 'n', 'f']);
    lemma_first_bytes(s, at, seq!['-', 'i', 'n', 'f']);
    lemma_first_bytes(s, at, seq!['N', 'a', 'N']);
    lemma_first_bytes(s, at, seq!['(', ')']);
}

/// Each word that stands for a value is read as that value, and two parentheses as a unit.
pub proof fn law_words(de: DeView)
    requires
        de.wf(),
    ensures
        ({
            let s = de.bytes.input;
            let at = de.bytes.at;
            let plain = DeView { newtype_variant: false, ..de };
            &&& word_at(s, at, seq!['t', 'r', 'u', 'e']) ==> de.any() == (
                at_offset(plain, at + 4),
                Ok::<EventView, ErrorView>(EventView::Bool(true)),
            )
            &&& word_at(s, at, seq!['f', 'a', 'l', 's', 'e']) ==> de.any() == (
                at_offset(plain, at + 5),
                Ok::<EventView, ErrorView>(EventView::Bool(false)),
            )
            &&& word_at(s, at, seq!['N', 'o', 'n', 'e']) ==> de.any() == (
                at_offset(plain, at + 4),
                Ok::<EventView, ErrorView>(EventView::Option(OptionForm::Absent)),
            )
            &&& word_at(s, at, seq!['i', 'n', 'f']) ==> de.any() == (
                at_offset(plain, at + 3),
                Ok::<EventView, ErrorView>(EventView::Infinity),
            )
            &&& word_at(s, at, seq!['-', 'i', 'n', 'f']) ==> de.any() == (
                at_offset(plain, at + 4),
                Ok::<EventView, ErrorView>(EventView::NegInfinity),
            )
            &&& word_at(s, at, seq!['N', 'a', 'N']) ==> de.any() == (
                at_offset(plain, at + 3),
                Ok::<EventView, ErrorView>(EventView::NotANumber),
            )
            &&& spells(s, at, seq!['(', ')']) ==> de.any() == (
                at_offset(plain, at + 2),
                Ok::<EventView, ErrorView>(EventView::Unit),
            )
        }),
{
    lemma_words(de.bytes);
    lemma_words_start(de.bytes.input, de.bytes.at);
}

/// `Some` and a parenthesis enclose an optional value.
pub proof fn law_any_some(de: DeView, open: int, inner: int)
    requires
        de.wf(),
        word_at(de.bytes.input, de.bytes.at, seq!['S', 'o', 'm', 'e']),
        space(de.bytes.input, de.bytes.at + 4, open),
        byte_at(de.bytes.input, open, 40),
        space(de.bytes.input, open + 1, inner),
        solid(de.bytes.input, inner),
    ensures
        de.any() == (
            at_offset(DeView { newtype_variant: false, ..de }, inner),
            Ok::<EventView, ErrorView>(EventView::Option(OptionForm::Enclosed)),
        ),
{
    lemma_words(de.bytes);
    lemma_words_start(de.bytes.input, de.bytes.at);
    law_some(de.plain(), open, inner);
}

/// Whether a text is a word that stands for a value.
pub open spec fn reserved(name: Seq<char>) -> bool {
    ||| name == seq!['t', 'r', 'u', 'e']
    ||| name == seq!['f', 'a', 'l', 's', 'e']
    ||| name == seq!['S', 'o', 'm', 'e']
    ||| name == seq!['N', 'o', 'n', 'e']
    ||| name == seq!['i', 'n', 'f']
    ||| name == seq!['N', 'a', 'N']
}

/// A name is the only word that stands where it does.
proof fn lemma_only_word(s: Seq<u8>, at: int, to: int, word: Seq<char>)
    requires
        plain_name(s, at, to),
        forall|i: int| 0 <= i < word.len() ==> name_part((#[trigger] word[i]) as u8),
        forall|i: int| 0 <= i < word.len() ==> (#[trigger] word[i]) as u8 as char == word[i],
        word_at(s, at, word),
    ensures
        text_between(s, at, to) == word,
{
    let end = at + word.len();
    if end < to {
        assert(name_part(s[end]));
    }
    if to < end {
        assert(s[at + (to - at)] == word[to - at] as u8);
    }
    assert forall|i: int| 0 <= i < word.len() implies text_between(s, at, to)[i] == word[i] by {
        assert(s[at + i] == word[i] as u8);
    }
    assert(text_between(s, at, to) =~= word);
}

/// A name that is no word for a value is read as such: with a parenthesis after it, space
/// between them or not, it has content, and else it is all there is.
pub proof fn law_any_name(de: DeView, to: int, next: int)
    requires
        de.wf(),
        name_between(de.bytes.input, de.bytes.at, to),
        plain_name(de.bytes.input, de.bytes.at, to) ==> !reserved(
            name_text(de.bytes.input, de.bytes.at, to),
        ),
        space(de.bytes.input, to, next),
        solid(de.bytes.input, next),
    ensures
        de.any() == (
            at_offset(DeView { newtype_variant: false, ..de }, next),
            Ok::<EventView, ErrorView>(
                if byte_at(de.bytes.input, next, 40) {
                    EventView::Singleton(
                        SingletonMapView {
                            key: Some(
                                de.bytes.input.subrange(
                                    name_from(de.bytes.input, de.bytes.at, to),
                                    to,
                                ),
                            ),
                        },
                    )
                } else {
                    EventView::Name(name_text(de.bytes.input, de.bytes.at, to))
                },
            ),
        ),
{
    let s = de.bytes.input;
    let at = de.bytes.at;
    lemma_words(de.bytes);
    lemma_words_start(s, at);
    if plain_name(s, at, to) && word_at(s, at, seq!['t', 'r', 'u', 'e']) {
        lemma_only_word(s, at, to, seq!['t', 'r', 'u', 'e']);
    }
    if plain_name(s, at, to) && word_at(s, at, seq!['f', 'a', 'l', 's', 'e']) {
        lemma_only_word(s, at, to, seq!['f', 'a', 'l', 's', 'e']);
    }
    if plain_name(s, at, to) && word_at(s, at, seq!['S', 'o', 'm', 'e']) {
        lemma_only_word(s, at, to, seq!['S', 'o', 'm', 'e']);
    }
    if plain_name(s, at, to) && word_at(s, at, seq!['N', 'o', 'n', 'e']) {
        lemma_only_word(s, at, to, seq!['N', 'o', 'n', 'e']);
    }
    if plain_name(s, at, to) && word_at(s, at, seq!['i', 'n', 'f']) {
        lemma_only_word(s, at, to, seq!['i', 'n', 'f']);
    }
    if plain_name(s, at, to) && word_at(s, at, seq!['N', 'a', 'N']) {
        lemma_only_word(s, at, to, seq!['N', 'a', 'N']);
    }
    law_name_is_read(de.plain().bytes, to);
    law_space_is_read_over(de.bytes.moved(to), next);
}

/// What is neither a word nor a name is told by its first byte.
proof fn lemma_by_byte(de: DeView)
    requires
        de.wf(),
        de.bytes.at < de.bytes.input.len(),
        ({
            let s = de.bytes.input;
            let at = de.bytes.at;
            &&& !name_start(s[at]) || (s[at] == 114 && at + 1 < s.len() && (s[at + 1] == 34 || (s[at
                + 1] == 35 && at + 2 < s.len() && (s[at + 2] == 34 || s[at + 2] == 35))))
            &&& s[at] == 40 ==> !byte_at(s, at + 1, 41)
            &&& s[at] == 45 ==> !byte_at(s, at + 1, 105)
        }),
    ensures
        de.any() == de.plain().any_by_byte(),
{
    lemma_words(de.bytes);
    lemma_words_start(de.bytes.input, de.bytes.at);
}

/// A bracket starts a sequence, and a brace a map.
pub proof fn law_any_brackets(de: DeView)
    requires
        de.wf(),
    ensures
        byte_at(de.bytes.input, de.bytes.at, 91) ==> de.any() == (
            at_offset(DeView { newtype_variant: false, ..de }, de.bytes.at + 1),
            Ok::<EventView, ErrorView>(EventView::Sequence),
        ),
        byte_at(de.bytes.input, de.bytes.at, 123) ==> de.any() == (
            at_offset(DeView { newtype_variant: false, ..de }, de.bytes.at + 1),
            Ok::<EventView, ErrorView>(EventView::Mapping),
        ),
{
    if byte_at(de.bytes.input, de.bytes.at, 91) || byte_at(de.bytes.input, de.bytes.at, 123) {
        lemma_by_byte(de);
    }
}

/// An integer is read as the smallest type that holds it: an unsigned one where it has no sign.
pub proof fn law_any_integer(de: DeView, to: int, zeros: nat, n: nat, base: nat, upper: bool)
    requires
        de.wf(),
        number_ends(de.bytes.input, to),
    ensures
        ({
            let s = de.bytes.input;
            let at = de.bytes.at;
            let read = at_offset(DeView { newtype_variant: false, ..de }, to);
            &&& number_between(s, at, to, zeros, n, base, upper) && 48 <= s[at] <= 57 && n
                < 0x1_0000_0000_0000_0000_0000_0000_0000_0000 ==> {
                &&& de.any().0 == read
                &&& de.any().1 matches Ok(EventView::Num(found)) && smallest_unsigned_for(
                    n as int,
                    found,
                )
            }
            &&& byte_at(s, at, 45) && number_between(s, at + 1, to, zeros, n, base, upper) && 48
                <= s[at + 1] <= 57 && n < 0x8000_0000_0000_0000_0000_0000_0000_0000 ==> {
                &&& de.any().0 == read
                &&& de.any().1 matches Ok(EventView::Num(found)) && smallest_signed_for(
                    -(n as int),
                    found,
                )
            }
            &&& byte_at(s, at, 43) && number_between(s, at + 1, to, zeros, n, base, upper) && n
                < 0x8000_0000_0000_0000_0000_0000_0000_0000 ==> {
                &&& de.any().0 == read
                &&& de.any().1 matches Ok(EventView::Num(found)) && smallest_signed_for(
                    n as int,
                    found,
                )
            }
        }),
{
    let s = de.bytes.input;
    let at = de.bytes.at;
    let b = de.plain().bytes;
    if number_between(s, at, to, zeros, n, base, upper) && 48 <= s[at] <= 57 && n
        < 0x1_0000_0000_0000_0000_0000_0000_0000_0000 {
        lemma_by_byte(de);
        law_any_unsigned(b, to, zeros, n, base, upper);
    }
    if (byte_at(s, at, 45) || byte_at(s, at, 43)) && number_between(
        s,
        at + 1,
        to,
        zeros,
        n,
        base,
        upper,
    ) && n < 0x8000_0000_0000_0000_0000_0000_0000_0000 {
        if s[at] == 43 || 48 <= s[at + 1] <= 57 {
            lemma_by_byte(de);
        }
        law_any_signed(b, to, zeros, n, base, upper);
    }
}

/// A digit or a sign starts a number of any type, unless the sign belongs to an infinite one, and a
/// point starts a floating point number.
pub proof fn law_any_number(de: DeView)
    requires
        de.wf(),
        de.bytes.at < de.bytes.input.len(),
    ensures
        ({
            let c = de.bytes.input[de.bytes.at];
            let plain = DeView { newtype_variant: false, ..de };
            let (after, number) = de.bytes.any_num();
            let (past, text) = de.bytes.float();
            &&& 48 <= c <= 57 || c == 43 || (c == 45 && !byte_at(
                de.bytes.input,
                de.bytes.at + 1,
                105,
            )) ==> de.any() == (
                DeView { bytes: after, ..plain },
                match number {
                    Ok(number) => Ok(EventView::Num(number)),
                    Err(e) => Err(e),
                },
            )
            &&& c == 46 ==> de.any() == (
                DeView { bytes: past, ..plain },
                match text {
                    Ok(text) => Ok(EventView::Float(text)),
                    Err(e) => Err(e),
                },
            )
        }),
{
    let c = de.bytes.input[de.bytes.at];
    if 48 <= c <= 57 || c == 43 || c == 46 || (c == 45 && !byte_at(
        de.bytes.input,
        de.bytes.at + 1,
        105,
    )) {
        lemma_by_byte(de);
    }
}

/// The word `Some` starts an optional value, whatever follows.
pub proof fn law_any_option(de: DeView)
    requires
        de.wf(),
        word_at(de.bytes.input, de.bytes.at, seq!['S', 'o', 'm', 'e']),
    ensures
        de.any().0 == (DeView { newtype_variant: false, ..de }).option().0,
        de.any().1 == (match de.option().1 {
            Ok(form) => Ok::<EventView, ErrorView>(EventView::Option(form)),
            Err(e) => Err(e),
        }),
{
    lemma_words(de.bytes);
    lemma_words_start(de.bytes.input, de.bytes.at);
}

/// A number with a point is read as a floating point number, whole.
pub proof fn law_any_floating_point(
    de: DeView,
    to: int,
    point: int,
    exponent: int,
    power: int,
)
    requires
        de.wf(),
        float_between(de.bytes.input, de.bytes.at, to, point, exponent, power),
        number_ends(de.bytes.input, to),
        point != exponent,
    ensures
        ({
            let text = text_between(de.bytes.input, de.bytes.at, to);
            &&& de.any().0 == at_offset(DeView { newtype_variant: false, ..de }, to)
            &&& de.any().1 matches Ok(event) && if de.bytes.input[de.bytes.at] == 46 {
                event == EventView::Float(text)
            } else {
                event matches EventView::Num(number) && number == AnyNumView::Float(text)
            }
        }),
{
    lemma_by_byte(de);
    law_float_is_read(de.plain().bytes, to, point, exponent, power);
    law_any_float(de.plain().bytes, to, point, exponent, power);
}

/// A string is read as its text, and a character as itself.
pub proof fn law_any_text(de: DeView, pieces: Pieces, c: char, way: Spelling)
    requires
        de.wf(),
    ensures
        in_string(pieces) && holds(
            de.bytes.input,
            de.bytes.at,
            seq![34u8] + written(pieces) + seq![34u8],
        ) ==> {
            &&& de.any().0 == at_offset(
                DeView { newtype_variant: false, ..de },
                de.bytes.at + written(pieces).len() + 2,
            )
            &&& de.any().1 matches Ok(EventView::Str(text)) && text.text() == characters(pieces)
        },
        can_spell(c, way) && (way is Plain ==> c != '\'' && c != '\\') && holds(
            de.bytes.input,
            de.bytes.at,
            seq![39u8] + spelling(c, way) + seq![39u8],
        ) ==> de.any() == (
            at_offset(
                DeView { newtype_variant: false, ..de },
                de.bytes.at + spelling(c, way).len() + 2,
            ),
            Ok::<EventView, ErrorView>(EventView::Char(c)),
        ),
{
    let s = de.bytes.input;
    let at = de.bytes.at;
    let text = seq![34u8] + written(pieces) + seq![34u8];
    if in_string(pieces) && holds(s, at, text) {
        assert(s.subrange(at, at + text.len())[0] == text[0]);
        lemma_by_byte(de);
        law_string_is_read_back(de.plain().bytes, pieces);
    }
    let text = seq![39u8] + spelling(c, way) + seq![39u8];
    if can_spell(c, way) && (way is Plain ==> c != '\'' && c != '\\') && holds(s, at, text) {
        assert(s.subrange(at, at + text.len())[0] == text[0]);
        lemma_by_byte(de);
        law_char_is_read_back(de.plain().bytes, c, way);
    }
}

/// A raw string is read as its text.
pub proof fn law_any_raw_string(de: DeView, hashes: nat, text: Seq<char>)
    requires
        de.wf(),
        holds(
            de.bytes.input,
            de.bytes.at,
            seq![114u8] + Seq::new(hashes, |i: int| 35u8) + seq![34u8] + encode_utf8(text)
                + seq![34u8] + Seq::new(hashes, |i: int| 35u8),
        ),
        forall|i: int|
            de.bytes.at + 2 + hashes <= i < de.bytes.at + 2 + hashes + encode_utf8(text).len()
                && #[trigger] de.bytes.input[i] == 34 ==> exists|j: int|
                i < j <= i + hashes && #[trigger] de.bytes.input[j] != 35,
    ensures
        de.any() == (
            at_offset(
                DeView { newtype_variant: false, ..de },
                de.bytes.at + 3 + hashes + encode_utf8(text).len() + hashes,
            ),
            Ok::<EventView, ErrorView>(EventView::Str(ParsedStrView::Slice(text))),
        ),
{
    let s = de.bytes.input;
    let at = de.bytes.at;
    let marks = Seq::new(hashes, |i: int| 35u8);
    let all = seq![114u8] + marks + seq![34u8] + encode_utf8(text) + seq![34u8] + marks;
    let part = s.subrange(at, at + all.len());
    assert(part[0] == all[0] && part[1] == all[1] && part[2] == all[2]);
    if hashes == 0 {
        assert(all[1] == 34);
    } else {
        assert(all[1] == 35);
        assert(all[2] == 35 || all[2] == 34);
    }
    lemma_by_byte(de);
    law_raw_string_is_read_back(de.plain().bytes, hashes, text);
}

/// A byte that no value starts with is named.
pub proof fn law_no_value(de: DeView)
    requires
        de.wf(),
        de.bytes.at < de.bytes.input.len() ==> ({
            let c = de.bytes.input[de.bytes.at];
            &&& !name_part(c)
            &&& c != 40 && c != 91 && c != 123
            &&& c != 43 && c != 45 && c != 46
            &&& c != 34 && c != 39
        }),
    ensures
        de.any() == (
            DeView { newtype_variant: false, ..de },
            Err::<EventView, ErrorView>(
                if de.bytes.at < de.bytes.input.len() {
                    ErrorView::UnexpectedByte(de.bytes.input[de.bytes.at] as char)
                } else {
                    ErrorView::Eof
                },
            ),
        ),
{
    if de.bytes.at < de.bytes.input.len() {
        lemma_by_byte(de);
    } else {
        lemma_words(de.bytes);
    }
}

/// How many brackets of any kind are open at an offset, of those from another on: parentheses,
/// square brackets and braces.
pub open spec fn level(s: Seq<u8>, from: int, to: int) -> int
    decreases to - from,
{
    if to <= from {
        0
    } else {
        let c = s[to - 1];
        level(s, from, to - 1) + if c == 40 || c == 91 || c == 123 {
            1int
        } else if c == 41 || c == 93 || c == 125 {
            -1
        } else {
            0
        }
    }
}

/// Whether what starts at an offset is enclosed up to another, where a bracket closes that was open
/// before.
pub open spec fn enclosed(s: Seq<u8>, from: int, to: int) -> bool {
    &&& 0 <= from <= to < s.len()
    &&& forall|i: int| from <= i <= to ==> #[trigger] level(s, from, i) >= 0
    &&& level(s, from, to) == 0
    &&& s[to] == 41 || s[to] == 93 || s[to] == 125
}

/// Whether a comma stands between two offsets that no bracket encloses which opens between them.
pub open spec fn has_comma(s: Seq<u8>, from: int, to: int) -> bool {
    exists|i: int| from <= i < to && s[i] == 44 && #[trigger] level(s, from, i) == 0
}

/// Looking for a comma finds those that no further bracket encloses.
proof fn lemma_comma_found(s: Seq<u8>, from: int, at: int, to: int)
    requires
        enclosed(s, from, to),
        from <= at <= to,
    ensures
        comma_inside(s, at, level(s, from, at) + 1) == Some(
            exists|i: int| at <= i < to && s[i] == 44 && #[trigger] level(s, from, i) == 0,
        ),
    decreases to - at,
{
    assert(level(s, from, at) >= 0);
    if at < to {
        assert(level(s, from, at + 1) >= 0);
        lemma_comma_found(s, from, at + 1, to);
        if s[at] == 44 && level(s, from, at) == 0 {
            assert(level(s, from, at) == 0);
        } else {
            assert((exists|i: int| at <= i < to && s[i] == 44 && #[trigger] level(s, from, i) == 0)
                ==> (exists|i: int|
                at + 1 <= i < to && s[i] == 44 && #[trigger] level(s, from, i) == 0)) by {
                if exists|i: int| at <= i < to && s[i] == 44 && #[trigger] level(s, from, i) == 0 {
                    let i = choose|i: int|
                        at <= i < to && s[i] == 44 && #[trigger] level(s, from, i) == 0;
                    assert(i != at);
                    assert(level(s, from, i) == 0);
                }
            }
        }
    }
}

/// Whether what stands in parentheses from `inner` on does not start with the name of a field, and
/// `scan` is where it goes on after a name that it starts with.
pub open spec fn no_field(s: Seq<u8>, inner: int, end: int, scan: int) -> bool {
    ||| scan == inner && inner < s.len() && (!name_start(s[inner]) || (s[inner] == 114 && byte_at(
        s,
        inner + 1,
        34,
    )))
    ||| name_between(s, inner, end) && space(s, end, scan) && solid(s, scan) && !byte_at(s, scan, 58)
}

/// Where newtypes of any kind are allowed, parentheses hold one value if no comma stands in them
/// outside of further brackets, and are a tuple if one does. Parentheses, square brackets and braces
/// all count.
pub proof fn law_newtype_or_tuple(de: DeView, inner: int, end: int, scan: int, close: int)
    requires
        de.wf(),
        de.any_newtype,
        byte_at(de.bytes.input, de.bytes.at, 40),
        space(de.bytes.input, de.bytes.at + 1, inner),
        solid(de.bytes.input, inner),
        !byte_at(de.bytes.input, inner, 41),
        no_field(de.bytes.input, inner, end, scan),
        enclosed(de.bytes.input, scan, close),
    ensures
        de.any() == (if has_comma(de.bytes.input, scan, close) {
            (
                at_offset(DeView { newtype_variant: false, ..de }, de.bytes.at + 1),
                Ok::<EventView, ErrorView>(EventView::Tuple),
            )
        } else {
            (
                at_offset(DeView { newtype_variant: false, ..de }, inner),
                Ok::<EventView, ErrorView>(EventView::Newtype),
            )
        }),
{
    let s = de.bytes.input;
    let b = de.plain().bytes;
    law_space_is_read_over(b.moved(b.at + 1), inner);
    lemma_by_byte(de);
    let inside = b.moved(inner);
    if name_between(s, inner, end) && space(s, end, scan) && solid(s, scan) && !byte_at(s, scan, 58) {
        law_name_is_read(inside, end);
        law_space_is_read_over(b.moved(end), scan);
    } else {
        law_blank_is_read_over(inside, inner);
        assert(inside.identifier().1 is Err && inside.identifier().0 == inside);
    }
    lemma_comma_found(s, scan, scan, close);
    assert(level(s, scan, scan) == 0);
}

/// Where newtypes of any kind are allowed, parentheses around one value in brackets of its own are a
/// newtype, whatever commas stand inside those brackets.
pub proof fn law_one_bracketed_value(de: DeView, inner: int, last: int, close: int)
    requires
        de.wf(),
        de.any_newtype,
        byte_at(de.bytes.input, de.bytes.at, 40),
        blank(de.bytes.input, de.bytes.at + 1, inner),
        byte_at(de.bytes.input, inner, 40) || byte_at(de.bytes.input, inner, 91) || byte_at(
            de.bytes.input,
            inner,
            123,
        ),
        inner < last,
        forall|i: int| inner < i <= last ==> #[trigger] level(de.bytes.input, inner, i) >= 1,
        level(de.bytes.input, inner, last + 1) == 0,
        blank(de.bytes.input, last + 1, close),
        byte_at(de.bytes.input, close, 41),
    ensures
        de.any() == (
            at_offset(DeView { newtype_variant: false, ..de }, inner),
            Ok::<EventView, ErrorView>(EventView::Newtype),
        ),
{
    let s = de.bytes.input;
    lemma_level_of_blank(s, inner, last + 1, close);
    assert forall|i: int| inner <= i <= close implies #[trigger] level(s, inner, i) >= 0 by {
        if last < i {
            lemma_level_of_blank(s, inner, last + 1, i);
        }
    }
    assert(!has_comma(s, inner, close)) by {
        if has_comma(s, inner, close) {
            let i = choose|i: int|
                inner <= i < close && s[i] == 44 && #[trigger] level(s, inner, i) == 0;
            if last < i {
                assert(blank_byte(s[i]));
            }
        }
    }
    law_blank_is_space(s, de.bytes.at + 1, inner);
    law_newtype_or_tuple(de, inner, inner, inner, close);
}

/// White space opens and closes no bracket.
proof fn lemma_level_of_blank(s: Seq<u8>, from: int, start: int, to: int)
    requires
        from <= start,
        blank(s, start, to),
    ensures
        level(s, from, to) == level(s, from, start),
    decreases to - start,
{
    if start < to {
        assert(blank_byte(s[to - 1]));
        lemma_level_of_blank(s, from, start, to - 1);
    }
}

/// Where no newtype of any kind is allowed, parentheses that start with no field are a tuple.
pub proof fn law_tuple(de: DeView, inner: int, end: int, scan: int)
    requires
        de.wf(),
        !de.any_newtype,
        byte_at(de.bytes.input, de.bytes.at, 40),
        space(de.bytes.input, de.bytes.at + 1, inner),
        solid(de.bytes.input, inner),
        !byte_at(de.bytes.input, inner, 41),
        no_field(de.bytes.input, inner, end, scan),
    ensures
        de.any() == (
            at_offset(DeView { newtype_variant: false, ..de }, de.bytes.at + 1),
            Ok::<EventView, ErrorView>(EventView::Tuple),
        ),
{
    let s = de.bytes.input;
    let b = de.plain().bytes;
    law_space_is_read_over(b.moved(b.at + 1), inner);
    lemma_by_byte(de);
    let inside = b.moved(inner);
    if name_between(s, inner, end) && space(s, end, scan) && solid(s, scan) && !byte_at(s, scan, 58) {
        law_name_is_read(inside, end);
        law_space_is_read_over(b.moved(end), scan);
    } else {
        law_blank_is_read_over(inside, inner);
        assert(inside.identifier().1 is Err && inside.identifier().0 == inside);
    }
}

/// Parentheses that start with a name and a colon, space around the name or not, are a struct.
pub proof fn law_any_fields(de: DeView, inner: int, end: int, colon: int)
    requires
        de.wf(),
        byte_at(de.bytes.input, de.bytes.at, 40),
        space(de.bytes.input, de.bytes.at + 1, inner),
        name_between(de.bytes.input, inner, end),
        space(de.bytes.input, end, colon),
        byte_at(de.bytes.input, colon, 58),
    ensures
        de.any() == (
            at_offset(DeView { newtype_variant: false, ..de }, de.bytes.at + 1),
            Ok::<EventView, ErrorView>(EventView::Struct),
        ),
{
    let s = de.bytes.input;
    let b = de.plain().bytes;
    law_space_is_read_over(b.moved(b.at + 1), inner);
    lemma_by_byte(de);
    law_name_is_read(b.moved(inner), end);
    law_space_is_read_over(b.moved(end), colon);
    law_blank_is_read_over(b, b.at);
}

/// Parentheses around nothing but white space are a unit, whatever is allowed.
pub proof fn law_blank_parentheses(de: DeView, close: int)
    requires
        de.wf(),
        byte_at(de.bytes.input, de.bytes.at, 40),
        blank(de.bytes.input, de.bytes.at + 1, close),
        byte_at(de.bytes.input, close, 41),
    ensures
        de.any() == (
            at_offset(DeView { newtype_variant: false, ..de }, close + 1),
            Ok::<EventView, ErrorView>(EventView::Unit),
        ),
{
    let b = de.plain().bytes;
    law_blank_is_read_over(b.moved(b.at + 1), close);
    if close == b.at + 1 {
        lemma_words(de.bytes);
        lemma_words_start(de.bytes.input, de.bytes.at);
        assert(spells(de.bytes.input, b.at, seq!['(', ')'])) by {
            assert(seq!['(', ')'][0] == '(' && seq!['(', ')'][1] == ')');
        }
    } else {
        assert(blank_byte(de.bytes.input[b.at + 1]));
        lemma_by_byte(de);
    }
}

/// After the content of a newtype, space and a parenthesis are read, if it is there.
pub proof fn law_newtype_ends<T>(de: DeView, to: int, visited: Result<T, ErrorView>)
    requires
        de.wf(),
        space(de.bytes.input, de.bytes.at, to),
        solid(de.bytes.input, to),
    ensures
        de.end_any_newtype(visited) == (
            if byte_at(de.bytes.input, to, 41) {
                at_offset(de, to + 1)
            } else {
                at_offset(de, to)
            },
            visited,
        ),
{
    law_space_is_read_over(de.bytes, to);
}

} // verus!
