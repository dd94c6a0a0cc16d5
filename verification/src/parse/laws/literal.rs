//! What holds of characters and strings: they are read back as they are written.
use vstd::prelude::*;
use vstd::utf8::*;
use crate::error::ErrorView;
use crate::parse::laws::number::{digit_byte, lemma_padded, padded};
use crate::parse::laws::{byte_at, holds, lemma_run_from};
use crate::parse::literal::{
    closes_raw_string, lemma_after_escape, lemma_char, lemma_escape, lemma_quote_before,
    lemma_raw_string_end, lemma_string, quote_before, raw_string_end, ParsedStrView,
};
use crate::parse::number::{folded, hex_value, lemma_folded};
use crate::parse::{lemma_run_end, lemma_run_is, run_end, BytesView, CharClass};
use crate::text::utf8_text;

verus! {

/// A way to write a character.
pub enum Spelling {
    /// As it is.
    Plain,
    /// With a backslash and a letter or sign.
    Letter,
    /// With its number in two hexadecimal digits, each of which may be an upper case letter.
    Hex(bool, bool),
    /// With its number in hexadecimal digits, some zeros before it, in upper case or not.
    Unicode(nat, bool),
}

/// The letter or sign that stands for a character after a backslash, if there is one.
pub open spec fn letter_for(c: char) -> Option<u8> {
    let n = c as u32;
    if n == 39 || n == 34 || n == 92 {
        Some(n as u8)
    } else if n == 10 {
        Some(110u8)
    } else if n == 13 {
        Some(114u8)
    } else if n == 9 {
        Some(116u8)
    } else if n == 0 {
        Some(48u8)
    } else {
        None
    }
}

/// Whether a character can be written in a way.
pub open spec fn can_spell(c: char, way: Spelling) -> bool {
    match way {
        Spelling::Plain => true,
        Spelling::Letter => letter_for(c) is Some,
        Spelling::Hex(_, _) => (c as u32) < 0x100,
        Spelling::Unicode(zeros, upper) => padded(zeros, c as u32 as nat, 16, upper).len() <= 6,
    }
}

/// How a character is written in a way.
pub open spec fn spelling(c: char, way: Spelling) -> Seq<u8> {
    let n = c as u32;
    match way {
        Spelling::Plain => encode_scalar(n),
        Spelling::Letter => seq![92u8, letter_for(c).unwrap()],
        Spelling::Hex(first, second) => seq![
            92u8,
            120u8,
            digit_byte((n / 16) as int, first),
            digit_byte((n % 16) as int, second),
        ],
        Spelling::Unicode(zeros, upper) => seq![92u8, 117u8, 123u8] + padded(
            zeros,
            n as nat,
            16,
            upper,
        ) + seq![125u8],
    }
}

/// Characters, each with a way to write it.
pub type Pieces = Seq<(char, Spelling)>;

/// How characters are written one after the other.
pub open spec fn written(pieces: Pieces) -> Seq<u8>
    decreases pieces.len(),
{
    if pieces.len() == 0 {
        seq![]
    } else {
        spelling(pieces[0].0, pieces[0].1) + written(pieces.drop_first())
    }
}

/// The characters that are written.
pub open spec fn characters(pieces: Pieces) -> Seq<char> {
    Seq::new(pieces.len(), |i: int| pieces[i].0)
}

/// Whether characters can be written so inside a string: a double quote and a backslash cannot be
/// written as they are.
pub open spec fn in_string(pieces: Pieces) -> bool {
    forall|i: int|
        0 <= i < pieces.len() ==> can_spell((#[trigger] pieces[i]).0, pieces[i].1) && (
        pieces[i].1 is Plain ==> pieces[i].0 != '"' && pieces[i].0 != '\\')
}

/// What stands at an offset can be taken apart.
proof fn lemma_holds_parts(s: Seq<u8>, at: int, first: Seq<u8>, second: Seq<u8>)
    requires
        holds(s, at, first + second),
    ensures
        holds(s, at, first),
        holds(s, at + first.len(), second),
        forall|i: int| 0 <= i < first.len() ==> s[at + i] == #[trigger] first[i],
        forall|i: int| 0 <= i < second.len() ==> s[at + first.len() + i] == #[trigger] second[i],
{
    let all = first + second;
    let part = s.subrange(at, at + all.len());
    assert forall|i: int| 0 <= i < first.len() implies s[at + i] == #[trigger] first[i] by {
        assert(part[i] == all[i]);
    }
    assert forall|i: int| 0 <= i < second.len() implies s[at + first.len() + i]
        == #[trigger] second[i] by {
        assert(part[first.len() + i] == all[first.len() + i]);
    }
    assert(s.subrange(at, at + first.len()) =~= first);
    assert(s.subrange(at + first.len(), at + first.len() + second.len()) =~= second);
}

/// A character beyond ASCII is written without bytes of ASCII, and one of ASCII as itself.
proof fn lemma_encoded(c: char)
    ensures
        c as u32 == 34 ==> c == '"',
        c as u32 == 92 ==> c == '\\',
        0 < encode_scalar(c as u32).len() <= 4,
        (c as u32) < 0x80 ==> encode_scalar(c as u32) == seq![c as u32 as u8],
        (c as u32) >= 0x80 ==> forall|i: int|
            0 <= i < encode_scalar(c as u32).len() ==> #[trigger] encode_scalar(c as u32)[i]
                >= 0x80,
{
    let v = c as u32;
    assert(v < 0x80 ==> (v & 0x7F) as u8 == v as u8) by (bit_vector);
    assert forall|x: u8| #[trigger] (0x80u8 | x) >= 0x80 by {
        assert((0x80u8 | x) >= 0x80) by (bit_vector);
    }
    assert forall|x: u8| #[trigger] (0xC0u8 | x) >= 0x80 by {
        assert((0xC0u8 | x) >= 0x80) by (bit_vector);
    }
    assert forall|x: u8| #[trigger] (0xE0u8 | x) >= 0x80 by {
        assert((0xE0u8 | x) >= 0x80) by (bit_vector);
    }
    assert forall|x: u8| #[trigger] (0xF0u8 | x) >= 0x80 by {
        assert((0xF0u8 | x) >= 0x80) by (bit_vector);
    }
}

/// The digits of a `\u` escape are read up to the brace.
proof fn lemma_unicode_digits_read(b: BytesView, digits: Seq<u8>, left: nat, so_far: int)
    requires
        b.wf(),
        digits.len() <= left,
        holds(b.input, b.at, digits),
        digits.len() < left ==> byte_at(b.input, b.at + digits.len(), 125),
        forall|i: int| 0 <= i < digits.len() ==> hex_value(#[trigger] digits[i]) is Some,
    ensures
        b.unicode_digits(left, so_far) == (
            b.moved(b.at + digits.len()),
            Ok::<(nat, int), ErrorView>(
                ((left - digits.len()) as nat, folded(digits, 16, so_far)),
            ),
        ),
    decreases left,
{
    if digits.len() > 0 {
        let rest = digits.drop_first();
        assert(digits =~= seq![digits[0]] + rest);
        lemma_holds_parts(b.input, b.at, seq![digits[0]], rest);
        assert(b.input[b.at + 0] == seq![digits[0]][0]);
        assert forall|i: int| 0 <= i < rest.len() implies hex_value(#[trigger] rest[i]) is Some by {
            assert(rest[i] == digits[i + 1]);
        }
        let digit = hex_value(digits[0]).unwrap();
        lemma_unicode_digits_read(
            b.moved(b.at + 1),
            rest,
            (left - 1) as nat,
            so_far * 16 + digit,
        );
    }
}

/// An escape is read as the character that it stands for, whole.
pub proof fn law_escape_is_read(b: BytesView, c: char, way: Spelling)
    requires
        b.wf(),
        can_spell(c, way),
        !(way is Plain),
        holds(b.input, b.at - 1, spelling(c, way)),
    ensures
        b.escape() == (
            b.moved(b.at - 1 + spelling(c, way).len()),
            Ok::<char, ErrorView>(c),
        ),
{
    let bytes = spelling(c, way);
    let n = c as u32;
    assert forall|i: int| 0 <= i < bytes.len() implies b.input[b.at - 1 + i]
        == #[trigger] bytes[i] by {
        assert(b.input.subrange(b.at - 1, b.at - 1 + bytes.len())[i] == bytes[i]);
    }
    match way {
        Spelling::Plain => {},
        Spelling::Letter => {
            assert(b.input[b.at] == bytes[1]);
        },
        Spelling::Hex(first, second) => {
            assert(b.input[b.at] == bytes[1]);
            assert(b.input[b.at + 1] == bytes[2]);
            assert(b.input[b.at + 2] == bytes[3]);
            assert(hex_value(bytes[2]) == Some((n / 16) as int));
            assert(hex_value(bytes[3]) == Some((n % 16) as int));
        },
        Spelling::Unicode(zeros, upper) => {
            let digits = padded(zeros, n as nat, 16, upper);
            lemma_padded(zeros, n as nat, 16, upper);
            lemma_folded(digits, 16);
            assert(bytes =~= seq![92u8, 117u8, 123u8] + (digits + seq![125u8]));
            lemma_holds_parts(
                b.input,
                b.at - 1,
                seq![92u8, 117u8, 123u8],
                digits + seq![125u8],
            );
            assert(b.input[b.at] == bytes[1]);
            assert(b.input[b.at + 1] == bytes[2]);
            assert forall|i: int| 0 <= i < digits.len() implies hex_value(
                #[trigger] digits[i],
            ) is Some by {
                assert(CharClass::Int.has(digits[i]));
            }
            let open = b.moved(b.at + 2);
            lemma_holds_parts(b.input, b.at + 2, digits, seq![125u8]);
            assert(b.input[b.at - 1 + (3 + digits.len())] == bytes[3 + digits.len() as int]);
            lemma_unicode_digits_read(open, digits, 6, 0);
            char_is_scalar(c);
        },
    }
}

/// How many characters are written as they are before the first that is not.
spec fn plain_count(pieces: Pieces) -> nat
    decreases pieces.len(),
{
    if pieces.len() == 0 || !(pieces[0].1 is Plain) {
        0
    } else {
        1 + plain_count(pieces.drop_first())
    }
}

/// Encoding goes character by character.
proof fn lemma_encode_concat(a: Seq<char>, b: Seq<char>)
    ensures
        encode_utf8(a + b) == encode_utf8(a) + encode_utf8(b),
    decreases a.len(),
{
    if a.len() == 0 {
        assert(a + b =~= b);
        assert(encode_utf8(a) + encode_utf8(b) =~= encode_utf8(b));
    } else {
        lemma_encode_concat(a.drop_first(), b);
        assert((a + b).drop_first() =~= a.drop_first() + b);
        assert(encode_utf8(a + b) =~= encode_utf8(a) + encode_utf8(b));
    }
}

/// Characters that are written as they are make one run, up to an escape or the closing quote.
proof fn lemma_plain_run(s: Seq<u8>, at: int, pieces: Pieces)
    requires
        in_string(pieces),
        holds(s, at, written(pieces) + seq![34u8]),
    ensures
        ({
            let count = plain_count(pieces) as int;
            let end = run_end(s, at, CharClass::Plain);
            &&& count <= pieces.len()
            &&& at <= end < s.len()
            &&& s.subrange(at, end) == encode_utf8(characters(pieces.take(count)))
            &&& holds(s, end, written(pieces.skip(count)) + seq![34u8])
            &&& end + written(pieces.skip(count)).len() == at + written(pieces).len()
            &&& count < pieces.len() ==> !(pieces[count].1 is Plain)
        }),
    decreases pieces.len(),
{
    let count = plain_count(pieces) as int;
    let quote = seq![34u8];
    lemma_holds_parts(s, at, written(pieces), quote);
    if count == 0 {
        assert(pieces.skip(0) =~= pieces);
        assert(characters(pieces.take(0)) =~= seq![]);
        assert(s.subrange(at, at) =~= seq![]);
        if pieces.len() == 0 {
            assert(s[at] == quote[0]);
        } else {
            let first = spelling(pieces[0].0, pieces[0].1);
            assert(written(pieces)[0] == first[0]);
            assert(first[0] == 92);
            assert(s[at + 0] == written(pieces)[0]);
        }
        assert(run_end(s, at, CharClass::Plain) == at);
    } else {
        let c = pieces[0].0;
        let first = spelling(c, pieces[0].1);
        let rest = pieces.drop_first();
        assert forall|i: int| 0 <= i < rest.len() implies can_spell(
            (#[trigger] rest[i]).0,
            rest[i].1,
        ) && (rest[i].1 is Plain ==> rest[i].0 != '"' && rest[i].0 != '\\') by {
            assert(rest[i] == pieces[i + 1]);
        }
        assert(written(pieces) + quote =~= first + (written(rest) + quote));
        lemma_holds_parts(s, at, first, written(rest) + quote);
        lemma_encoded(c);
        assert forall|i: int| at <= i < at + first.len() implies CharClass::Plain.has(
            #[trigger] s[i],
        ) by {
            assert(s[at + (i - at)] == first[i - at]);
            assert(pieces[0].1 is Plain ==> pieces[0].0 != '"' && pieces[0].0 != '\\');
            assert(first == encode_scalar(c as u32));
            if (c as u32) < 0x80 {
                assert(first[i - at] == c as u32 as u8);
            } else {
                assert(encode_scalar(c as u32)[i - at] >= 0x80);
            }
        }
        lemma_run_from(s, at, CharClass::Plain, at + first.len());
        lemma_plain_run(s, at + first.len(), rest);
        let end = run_end(s, at, CharClass::Plain);
        let before = count - 1;
        assert(pieces.skip(count) =~= rest.skip(before));
        let text = characters(pieces.take(count));
        assert(text.drop_first() =~= characters(rest.take(before)));
        assert(text[0] == c);
        assert(s.subrange(at, end) =~= first + s.subrange(at + first.len(), end)) by {
            assert forall|i: int| 0 <= i < first.len() implies s[at + i] == #[trigger] first[i] by {}
        }
        if count < pieces.len() {
            assert(pieces[count] == rest[before]);
        }
    }
}

/// From an escape on, a string is read up to the closing quote.
proof fn lemma_after_escape_read(b: BytesView, pieces: Pieces, before: Seq<u8>)
    requires
        b.wf(),
        in_string(pieces),
        pieces.len() > 0,
        !(pieces[0].1 is Plain),
        holds(b.input, b.at - 1, written(pieces) + seq![34u8]),
    ensures
        b.after_escape(before) == (
            b.moved(b.at + written(pieces).len()),
            Ok::<Seq<u8>, ErrorView>(before + encode_utf8(characters(pieces))),
        ),
    decreases pieces.len(),
{
    let s = b.input;
    let quote = seq![34u8];
    let c = pieces[0].0;
    let first = spelling(c, pieces[0].1);
    let rest = pieces.drop_first();
    assert forall|i: int| 0 <= i < rest.len() implies can_spell((#[trigger] rest[i]).0, rest[i].1)
        && (rest[i].1 is Plain ==> rest[i].0 != '"' && rest[i].0 != '\\') by {
        assert(rest[i] == pieces[i + 1]);
    }
    assert(written(pieces) + quote =~= first + (written(rest) + quote));
    lemma_holds_parts(s, b.at - 1, first, written(rest) + quote);
    assert(can_spell(pieces[0].0, pieces[0].1));
    law_escape_is_read(b, c, pieces[0].1);
    let escaped = b.escape().0;
    assert(escaped.at == b.at - 1 + first.len());
    lemma_plain_run(s, escaped.at, rest);
    let count = plain_count(rest) as int;
    let end = run_end(s, escaped.at, CharClass::Plain);
    let plain = characters(rest.take(count));
    let bytes = before + encode_scalar(c as u32) + escaped.upto(end);
    let tail = rest.skip(count);
    lemma_holds_parts(s, end, written(tail), quote);
    let all = characters(pieces);
    assert(all =~= seq![c] + (plain + characters(tail)));
    lemma_encode_concat(seq![c], plain + characters(tail));
    lemma_encode_concat(plain, characters(tail));
    assert(encode_utf8(seq![c]) =~= encode_scalar(c as u32)) by {
        assert(seq![c].drop_first() =~= seq![]);
        assert(encode_utf8(seq![c].drop_first()) =~= seq![]);
    }
    if count == rest.len() {
        assert(tail =~= seq![]);
        assert(characters(tail) =~= seq![]);
        assert(encode_utf8(characters(tail)) =~= seq![]);
        assert(s[end] == quote[0]);
        assert(bytes =~= before + encode_utf8(all));
    } else {
        assert(tail[0] == rest[count]);
        let next = spelling(tail[0].0, tail[0].1);
        assert(next[0] == 92);
        assert(written(tail)[0] == next[0]);
        assert(s[end + 0] == written(tail)[0]);
        assert forall|i: int| 0 <= i < tail.len() implies can_spell(
            (#[trigger] tail[i]).0,
            tail[i].1,
        ) && (tail[i].1 is Plain ==> tail[i].0 != '"' && tail[i].0 != '\\') by {
            assert(tail[i] == rest[count + i]);
        }
        lemma_after_escape_read(b.moved(end + 1), tail, bytes);
        assert(bytes + encode_utf8(characters(tail)) =~= before + encode_utf8(all));
    }
}

/// A text reads back from its encoding.
proof fn lemma_text_reads_back(text: Seq<char>)
    ensures
        utf8_text(encode_utf8(text)) == Ok::<Seq<char>, crate::error::Utf8Error>(text),
{
    encode_utf8_valid_utf8(text);
    encode_utf8_decode_utf8(text);
}

/// A string is read back as it was written, whole: whichever way each of its characters is written.
/// Where none is escaped, the text is a part of the input.
pub proof fn law_string_is_read_back(b: BytesView, pieces: Pieces)
    requires
        b.wf(),
        in_string(pieces),
        holds(b.input, b.at, seq![34u8] + written(pieces) + seq![34u8]),
    ensures
        b.string().0 == b.moved(b.at + written(pieces).len() + 2),
        b.string().1 == Ok::<ParsedStrView, ErrorView>(
            if forall|i: int| 0 <= i < pieces.len() ==> (#[trigger] pieces[i]).1 is Plain {
                ParsedStrView::Slice(characters(pieces))
            } else {
                ParsedStrView::Allocated(characters(pieces))
            },
        ),
{
    let s = b.input;
    let quote = seq![34u8];
    assert(quote + written(pieces) + quote =~= quote + (written(pieces) + quote));
    lemma_holds_parts(s, b.at, quote, written(pieces) + quote);
    assert(s[b.at + 0] == quote[0]);
    let open = b.moved(b.at + 1);
    lemma_plain_run(s, open.at, pieces);
    let count = plain_count(pieces) as int;
    let end = run_end(s, open.at, CharClass::Plain);
    let plain = characters(pieces.take(count));
    let tail = pieces.skip(count);
    lemma_holds_parts(s, end, written(tail), quote);
    lemma_text_reads_back(characters(pieces));
    lemma_plain_count(pieces);
    if count == pieces.len() {
        assert(tail =~= seq![]);
        assert(s[end] == quote[0]);
        assert(pieces.take(count) =~= pieces);
    } else {
        assert(tail[0] == pieces[count]);
        let next = spelling(tail[0].0, tail[0].1);
        assert(next[0] == 92);
        assert(written(tail)[0] == next[0]);
        assert(s[end + 0] == written(tail)[0]);
        assert forall|i: int| 0 <= i < tail.len() implies can_spell(
            (#[trigger] tail[i]).0,
            tail[i].1,
        ) && (tail[i].1 is Plain ==> tail[i].0 != '"' && tail[i].0 != '\\') by {
            assert(tail[i] == pieces[count + i]);
        }
        lemma_after_escape_read(open.moved(end + 1), tail, open.upto(end));
        assert(characters(pieces) =~= plain + characters(tail));
        lemma_encode_concat(plain, characters(tail));
    }
}

/// All characters are written as they are exactly where none is before the first that is not.
proof fn lemma_plain_count(pieces: Pieces)
    ensures
        plain_count(pieces) <= pieces.len(),
        plain_count(pieces) == pieces.len() <==> forall|i: int|
            0 <= i < pieces.len() ==> (#[trigger] pieces[i]).1 is Plain,
    decreases pieces.len(),
{
    if pieces.len() > 0 {
        let rest = pieces.drop_first();
        lemma_plain_count(rest);
        assert forall|i: int| 0 <= i < rest.len() implies #[trigger] rest[i] == pieces[i + 1] by {}
        assert forall|i: int| 0 < i < pieces.len() implies #[trigger] pieces[i] == rest[i - 1] by {}
    }
}

/// A raw string is read back as it was written, whole: it ends with the first quote that as many
/// hashes follow as stand before it, and nothing in it is an escape.
pub proof fn law_raw_string_is_read_back(b: BytesView, hashes: nat, text: Seq<char>)
    requires
        b.wf(),
        holds(
            b.input,
            b.at,
            seq![114u8] + Seq::new(hashes, |i: int| 35u8) + seq![34u8] + encode_utf8(text)
                + seq![34u8] + Seq::new(hashes, |i: int| 35u8),
        ),
        forall|i: int|
            b.at + 2 + hashes <= i < b.at + 2 + hashes + encode_utf8(text).len()
                && #[trigger] b.input[i] == 34 ==> exists|j: int|
                i < j <= i + hashes && #[trigger] b.input[j] != 35,
    ensures
        b.string() == (
            b.moved(b.at + 3 + hashes + encode_utf8(text).len() + hashes),
            Ok::<ParsedStrView, ErrorView>(ParsedStrView::Slice(text)),
        ),
{
    let s = b.input;
    let bytes = encode_utf8(text);
    let marks = Seq::new(hashes, |i: int| 35u8);
    let all = seq![114u8] + marks + seq![34u8] + bytes + seq![34u8] + marks;
    assert forall|i: int| 0 <= i < all.len() implies s[b.at + i] == #[trigger] all[i] by {
        assert(s.subrange(b.at, b.at + all.len())[i] == all[i]);
    }
    assert(all[0] == 114 && s[b.at + 0] == all[0]);
    let quote = b.at + 1 + hashes;
    assert(all[1 + hashes as int] == 34 && s[b.at + (1 + hashes)] == all[1 + hashes as int]);
    assert forall|i: int| b.at + 1 <= i < quote implies CharClass::Hash.has(#[trigger] s[i]) by {
        assert(s[b.at + (i - b.at)] == all[i - b.at]);
    }
    lemma_run_is(s, b.at + 1, CharClass::Hash, quote);
    let open = quote + 1;
    let end = open + bytes.len();
    assert(s.subrange(open, end) =~= bytes) by {
        assert forall|i: int| 0 <= i < bytes.len() implies s[open + i] == #[trigger] bytes[i] by {
            assert(s[b.at + (2 + hashes + i)] == all[2 + hashes + i]);
        }
    }
    assert(closes_raw_string(s, end, hashes as int)) by {
        assert(s[b.at + (end - b.at)] == all[end - b.at]);
        assert forall|i: int| end < i <= end + hashes implies #[trigger] s[i] == 35 by {
            assert(s[b.at + (i - b.at)] == all[i - b.at]);
        }
    }
    lemma_first_close(s, open, end, hashes as int);
    lemma_text_reads_back(text);
    assert(b.moved(open).upto(end) =~= bytes);
}

/// The end of a raw string is where it is first found.
proof fn lemma_first_close(s: Seq<u8>, at: int, end: int, hashes: int)
    requires
        0 <= at <= end,
        0 <= hashes,
        closes_raw_string(s, end, hashes),
        forall|i: int|
            at <= i < end && #[trigger] s[i] == 34 ==> exists|j: int|
                i < j <= i + hashes && #[trigger] s[j] != 35,
    ensures
        raw_string_end(s, at, hashes) == Some(end),
    decreases end - at,
{
    if at < end {
        assert(!closes_raw_string(s, at, hashes)) by {
            if s[at] == 34 {
                let j = choose|j: int| at < j <= at + hashes && #[trigger] s[j] != 35;
                assert(s[j] != 35);
            }
        }
        lemma_first_close(s, at + 1, end, hashes);
    }
}

/// A character is read back as it was written between quotes, whole: whichever way it is written. A
/// quote and a backslash cannot be written as they are.
pub proof fn law_char_is_read_back(b: BytesView, c: char, way: Spelling)
    requires
        b.wf(),
        can_spell(c, way),
        way is Plain ==> c != '\'' && c != '\\',
        holds(b.input, b.at, seq![39u8] + spelling(c, way) + seq![39u8]),
    ensures
        b.char() == (
            b.moved(b.at + 2 + spelling(c, way).len()),
            Ok::<char, ErrorView>(c),
        ),
{
    let s = b.input;
    let quote = seq![39u8];
    let bytes = spelling(c, way);
    assert(quote + bytes + quote =~= quote + (bytes + quote));
    lemma_holds_parts(s, b.at, quote, bytes + quote);
    lemma_holds_parts(s, b.at + 1, bytes, quote);
    assert(s[b.at + 0] == quote[0]);
    let open = b.at + 1;
    let end = open + bytes.len();
    assert(s[end + 0] == quote[0]);
    if way is Plain {
        lemma_encoded(c);
        assert(s[open + 0] == bytes[0]);
        assert forall|i: int| open <= i < end implies #[trigger] s[i] != 39 by {
            assert(s[open + (i - open)] == bytes[i - open]);
        }
        let to = if open + 5 <= s.len() {
            open + 5
        } else {
            s.len() as int
        };
        lemma_first_quote(s, open, end, to);
        assert(b.moved(open).upto(end) =~= bytes);
        let text = seq![c];
        assert(encode_utf8(text) =~= bytes) by {
            assert(text.drop_first() =~= seq![]);
            assert(encode_utf8(text.drop_first()) =~= seq![]);
        }
        lemma_text_reads_back(text);
    } else {
        assert(bytes[0] == 92);
        assert(s[open + 0] == bytes[0]);
        law_escape_is_read(b.moved(open + 1), c, way);
    }
}

/// A quote is where it is first found.
proof fn lemma_first_quote(s: Seq<u8>, at: int, end: int, to: int)
    requires
        0 <= at <= end < to,
        s[end] == 39,
        forall|i: int| at <= i < end ==> #[trigger] s[i] != 39,
    ensures
        quote_before(s, at, to) == Some(end),
    decreases end - at,
{
    if at < end {
        lemma_first_quote(s, at + 1, end, to);
    }
}

/// After a backslash, a byte that starts no escape is refused as such, and one that cannot be a
/// digit of a number is refused as no digit.
pub proof fn law_no_escape(b: BytesView)
    requires
        b.wf(),
        b.at < b.input.len(),
    ensures
        ({
            let c = b.input[b.at];
            let reason = b.escape().1;
            &&& c != 39 && c != 34 && c != 92 && c != 110 && c != 114 && c != 116 && c != 48 && c
                != 120 && c != 117 ==> reason == Err::<char, ErrorView>(
                ErrorView::InvalidEscape("Unknown escape character"@),
            )
            &&& c == 120 && b.at + 1 < b.input.len() && !hex_digit_byte(b.input[b.at + 1])
                ==> reason == Err::<char, ErrorView>(
                ErrorView::InvalidEscape("Non-hex digit found"@),
            )
            &&& c == 120 && b.at + 2 < b.input.len() && !hex_digit_byte(b.input[b.at + 2])
                ==> reason == Err::<char, ErrorView>(
                ErrorView::InvalidEscape("Non-hex digit found"@),
            )
            &&& c == 117 && b.at + 1 < b.input.len() && b.input[b.at + 1] != 123 ==> reason
                == Err::<char, ErrorView>(
                ErrorView::InvalidEscape("Missing { in Unicode escape"@),
            )
            &&& c == 117 && b.at + 2 < b.input.len() && b.input[b.at + 1] == 123 && b.input[b.at
                + 2] == 125 ==> reason == Err::<char, ErrorView>(
                ErrorView::InvalidEscape("Expected 1-6 digits, got 0 digits in Unicode escape"@),
            )
        }),
{
    if b.at + 2 < b.input.len() {
        assert(b.moved(b.at + 2).unicode_digits(6, 0) == (if b.input[b.at + 2] == 125 {
            (b.moved(b.at + 2), Ok::<(nat, int), ErrorView>((6nat, 0int)))
        } else {
            b.moved(b.at + 2).unicode_digits(6, 0)
        }));
    }
}

/// Whether a byte is a hexadecimal digit.
pub open spec fn hex_digit_byte(c: u8) -> bool {
    (48 <= c <= 57) || (97 <= c <= 102) || (65 <= c <= 70)
}

/// A number in braces that no character has is refused.
pub proof fn law_no_such_character(b: BytesView, zeros: nat, n: nat, upper: bool)
    requires
        b.wf(),
        padded(zeros, n, 16, upper).len() <= 6,
        n < 0x100_0000,
        n >= 0x11_0000 || 0xD800 <= n < 0xE000,
        holds(
            b.input,
            b.at,
            seq![117u8, 123u8] + padded(zeros, n, 16, upper) + seq![125u8],
        ),
    ensures
        b.escape().1 == Err::<char, ErrorView>(ErrorView::InvalidEscape("Not a valid char"@)),
{
    let digits = padded(zeros, n, 16, upper);
    let all = seq![117u8, 123u8] + digits + seq![125u8];
    lemma_padded(zeros, n, 16, upper);
    lemma_folded(digits, 16);
    assert(all =~= seq![117u8, 123u8] + (digits + seq![125u8]));
    lemma_holds_parts(b.input, b.at, seq![117u8, 123u8], digits + seq![125u8]);
    lemma_holds_parts(b.input, b.at + 2, digits, seq![125u8]);
    assert(b.input[b.at + 0] == seq![117u8, 123u8][0]);
    assert(b.input[b.at + 1] == seq![117u8, 123u8][1]);
    assert(b.input[b.at + 2 + digits.len() + 0] == seq![125u8][0]);
    assert forall|i: int| 0 <= i < digits.len() implies hex_value(#[trigger] digits[i]) is Some by {
        assert(CharClass::Int.has(digits[i]));
    }
    lemma_unicode_digits_read(b.moved(b.at + 2), digits, 6, 0);
    assert(!is_scalar(n as u32));
}

/// Braces around more than six digits are refused.
pub proof fn law_too_many_digits(b: BytesView, digits: Seq<u8>)
    requires
        b.wf(),
        holds(b.input, b.at, seq![117u8, 123u8] + digits),
        digits.len() == 6,
        forall|i: int| 0 <= i < digits.len() ==> hex_digit_byte(#[trigger] digits[i]),
        b.at + 8 < b.input.len(),
        b.input[b.at + 8] != 125,
    ensures
        b.escape().1 == Err::<char, ErrorView>(
            ErrorView::InvalidEscape("No } at the end of Unicode escape"@),
        ),
{
    lemma_holds_parts(b.input, b.at, seq![117u8, 123u8], digits);
    assert(b.input[b.at + 0] == seq![117u8, 123u8][0]);
    assert(b.input[b.at + 1] == seq![117u8, 123u8][1]);
    assert forall|i: int| 0 <= i < digits.len() implies hex_value(#[trigger] digits[i]) is Some by {
        assert(hex_digit_byte(digits[i]));
    }
    lemma_unicode_digits_read(b.moved(b.at + 2), digits, 6, 0);
}

/// A raw string that is not closed with as many hashes as it starts with is refused.
pub proof fn law_unclosed_raw_string(b: BytesView, hashes: nat)
    requires
        b.wf(),
        holds(b.input, b.at, seq![114u8] + Seq::new(hashes, |i: int| 35u8) + seq![34u8]),
        forall|i: int|
            b.at + 2 + hashes <= i && i + hashes < b.input.len() && #[trigger] b.input[i] == 34
                ==> exists|j: int| i < j <= i + hashes && #[trigger] b.input[j] != 35,
    ensures
        b.string().1 == Err::<ParsedStrView, ErrorView>(ErrorView::ExpectedStringEnd),
{
    let s = b.input;
    let marks = Seq::new(hashes, |i: int| 35u8);
    let all = seq![114u8] + marks + seq![34u8];
    assert forall|i: int| 0 <= i < all.len() implies s[b.at + i] == #[trigger] all[i] by {
        assert(s.subrange(b.at, b.at + all.len())[i] == all[i]);
    }
    assert(all[0] == 114 && s[b.at + 0] == all[0]);
    let quote = b.at + 1 + hashes;
    assert(all[1 + hashes as int] == 34 && s[b.at + (1 + hashes)] == all[1 + hashes as int]);
    assert forall|i: int| b.at + 1 <= i < quote implies CharClass::Hash.has(#[trigger] s[i]) by {
        assert(s[b.at + (i - b.at)] == all[i - b.at]);
    }
    lemma_run_is(s, b.at + 1, CharClass::Hash, quote);
    lemma_no_close(s, quote + 1, hashes as int);
}

/// Where nothing closes a raw string, it has no end.
proof fn lemma_no_close(s: Seq<u8>, at: int, hashes: int)
    requires
        0 <= at,
        0 <= hashes,
        forall|i: int|
            at <= i && i + hashes < s.len() && #[trigger] s[i] == 34 ==> exists|j: int|
                i < j <= i + hashes && #[trigger] s[j] != 35,
    ensures
        raw_string_end(s, at, hashes) is None,
    decreases s.len() - at - hashes,
{
    if at + 1 + hashes <= s.len() {
        assert(!closes_raw_string(s, at, hashes)) by {
            if s[at] == 34 {
                let j = choose|j: int| at < j <= at + hashes && #[trigger] s[j] != 35;
                assert(s[j] != 35);
            }
        }
        lemma_no_close(s, at + 1, hashes);
    }
}

/// Quotes around no character, or around several, are no character.
pub proof fn law_not_one_character(b: BytesView, text: Seq<char>)
    requires
        b.wf(),
        text.len() != 1,
        encode_utf8(text).len() <= 4,
        forall|i: int|
            0 <= i < encode_utf8(text).len() ==> #[trigger] encode_utf8(text)[i] != 39,
        text.len() > 0 ==> encode_utf8(text)[0] != 92,
        holds(b.input, b.at, seq![39u8] + encode_utf8(text) + seq![39u8]),
    ensures
        b.char().1 == Err::<char, ErrorView>(ErrorView::ExpectedChar),
{
    let s = b.input;
    let quote = seq![39u8];
    let bytes = encode_utf8(text);
    assert(quote + bytes + quote =~= quote + (bytes + quote));
    lemma_holds_parts(s, b.at, quote, bytes + quote);
    lemma_holds_parts(s, b.at + 1, bytes, quote);
    assert(s[b.at + 0] == quote[0]);
    let open = b.at + 1;
    let end = open + bytes.len();
    assert(s[end + 0] == quote[0]);
    if bytes.len() > 0 {
        assert(s[open + 0] == bytes[0]);
        if text.len() == 0 {
            assert(bytes =~= seq![]);
        }
    }
    assert forall|i: int| open <= i < end implies #[trigger] s[i] != 39 by {
        assert(s[open + (i - open)] == bytes[i - open]);
    }
    let to = if open + 5 <= s.len() {
        open + 5
    } else {
        s.len() as int
    };
    lemma_first_quote(s, open, end, to);
    assert(b.moved(open).upto(end) =~= bytes);
    lemma_text_reads_back(text);
}

/// A character that no quote follows soon enough is none.
pub proof fn law_unclosed_character(b: BytesView)
    requires
        b.wf(),
        b.at + 1 < b.input.len(),
        b.input[b.at] == 39,
        b.input[b.at + 1] != 92,
        forall|i: int| b.at < i < b.input.len() && i <= b.at + 5 ==> #[trigger] b.input[i] != 39,
    ensures
        b.char().1 == Err::<char, ErrorView>(ErrorView::ExpectedChar),
{
    let open = b.at + 1;
    let to = if open + 5 <= b.input.len() {
        open + 5
    } else {
        b.input.len() as int
    };
    lemma_no_quote(b.input, open, to);
}

/// Where there is no quote, none is found.
proof fn lemma_no_quote(s: Seq<u8>, at: int, to: int)
    requires
        forall|i: int| at <= i < to ==> #[trigger] s[i] != 39,
    ensures
        quote_before(s, at, to) is None,
    decreases to - at,
{
    if at < to {
        lemma_no_quote(s, at + 1, to);
    }
}

/// A string and a character end with the quote that they start with. A string that starts with no
/// quote starts with an `r`.
pub proof fn law_literals_are_quoted(b: BytesView)
    requires
        b.wf(),
    ensures
        b.string().1 is Ok ==> {
            &&& b.at + 2 <= b.string().0.at <= b.input.len()
            &&& b.input[b.at] == 34 ==> b.input[b.string().0.at - 1] == 34
            &&& b.input[b.at] == 34 || b.input[b.at] == 114
        },
        b.char().1 is Ok ==> {
            &&& b.at + 2 <= b.char().0.at <= b.input.len()
            &&& b.input[b.at] == 39
            &&& b.input[b.char().0.at - 1] == 39
        },
{
    lemma_string(b);
    lemma_char(b);
    if b.at + 1 < b.input.len() {
        let open = b.moved(b.at + 1);
        lemma_escape(b.moved(b.at + 2));
        let end = run_end(b.input, open.at, CharClass::Plain);
        lemma_run_end(b.input, open.at, CharClass::Plain);
        if end < b.input.len() && b.input[end] != 34 {
            lemma_after_escape(open.moved(end + 1), open.upto(end));
            lemma_ends_with_quote(open.moved(end + 1), open.upto(end));
        }
        let quote = run_end(b.input, open.at, CharClass::Hash);
        lemma_run_end(b.input, open.at, CharClass::Hash);
        lemma_raw_string_end(b.input, quote + 1, quote - open.at);
        let to = if open.at + 5 <= open.input.len() {
            open.at + 5
        } else {
            open.input.len() as int
        };
        lemma_quote_before(open.input, open.at, to);
    }
}

/// A string with escapes ends with a quote.
proof fn lemma_ends_with_quote(b: BytesView, before: Seq<u8>)
    requires
        b.wf(),
    ensures
        b.after_escape(before).1 is Ok ==> 0 < b.after_escape(before).0.at <= b.input.len()
            && b.input[b.after_escape(before).0.at - 1] == 34,
    decreases b.input.len() - b.at,
{
    lemma_escape(b);
    let (escaped, found) = b.escape();
    if let Ok(c) = found {
        let end = run_end(b.input, escaped.at, CharClass::Plain);
        lemma_run_end(b.input, escaped.at, CharClass::Plain);
        if end < b.input.len() && b.input[end] != 34 {
            lemma_ends_with_quote(
                b.moved(end + 1),
                before + encode_scalar(c as u32) + escaped.upto(end),
            );
        }
    }
}

/// What starts with neither a quote nor an `r` is no string, and nothing is read of it.
pub proof fn law_no_string(b: BytesView)
    requires
        b.wf(),
        b.at < b.input.len() ==> b.input[b.at] != 34 && b.input[b.at] != 114,
    ensures
        b.string() == (b, Err::<ParsedStrView, ErrorView>(ErrorView::ExpectedString)),
{
}

/// A string that no quote closes is refused.
pub proof fn law_unclosed_string(b: BytesView)
    requires
        b.wf(),
        b.at < b.input.len(),
        b.input[b.at] == 34,
        forall|i: int|
            b.at < i < b.input.len() ==> #[trigger] b.input[i] != 34 && b.input[i] != 92,
    ensures
        b.string().1 == Err::<ParsedStrView, ErrorView>(ErrorView::ExpectedStringEnd),
{
    lemma_run_is(b.input, b.at + 1, CharClass::Plain, b.input.len() as int);
}

} // verus!
