//! What holds of numbers: they are read back as they are written.
use vstd::prelude::*;
use crate::error::ErrorView;
use crate::parse::laws::ident::text_between;
use crate::parse::laws::{lemma_spells, name_part, raw_part, spells, word_ends};
use crate::parse::number::{hex_value, in_base, law_integers, magnitude, number, AnyNumView};
use crate::parse::{lemma_run_end, lemma_run_is, run_end, BytesView, CharClass};
use crate::text::ascii_text;

verus! {

/// How a digit is written.
pub open spec fn digit_byte(digit: int, upper: bool) -> u8 {
    if digit < 10 {
        (48 + digit) as u8
    } else if upper {
        (55 + digit) as u8
    } else {
        (87 + digit) as u8
    }
}

/// How a number is written in a base, without zeros before it.
pub open spec fn numeral(n: nat, base: nat, upper: bool) -> Seq<u8>
    decreases n,
{
    if base < 2 || n < base {
        seq![digit_byte(n as int, upper)]
    } else {
        proof {
            assert(n / base < n) by (nonlinear_arith)
                requires
                    n >= base,
                    base >= 2,
            ;
        }
        numeral(n / base, base, upper).push(digit_byte((n % base) as int, upper))
    }
}

/// Some zeros.
pub open spec fn zero_digits(count: nat) -> Seq<u8> {
    Seq::new(count, |i: int| 48u8)
}

/// How a number is written in a base, with some zeros before it.
pub open spec fn padded(zeros: nat, n: nat, base: nat, upper: bool) -> Seq<u8> {
    zero_digits(zeros) + numeral(n, base, upper)
}

/// A text without its underscores.
pub open spec fn without_underscores(text: Seq<u8>) -> Seq<u8>
    decreases text.len(),
{
    if text.len() == 0 {
        text
    } else if text.last() == 95 {
        without_underscores(text.drop_last())
    } else {
        without_underscores(text.drop_last()).push(text.last())
    }
}

/// Whether a text writes a number in a base: its digits, zeros before them or not, and underscores
/// anywhere but first.
pub open spec fn writes(text: Seq<u8>, zeros: nat, n: nat, base: nat, upper: bool) -> bool {
    &&& text.len() > 0
    &&& text[0] != 95
    &&& without_underscores(text) == padded(zeros, n, base, upper)
}

/// The text that announces a base.
pub open spec fn prefix(base: nat) -> Seq<char> {
    if base == 2 {
        seq!['0', 'b']
    } else if base == 8 {
        seq!['0', 'o']
    } else if base == 16 {
        seq!['0', 'x']
    } else {
        seq![]
    }
}

/// Whether a number stands between two offsets, its prefix before it, and a word ends there.
pub open spec fn number_between(
    s: Seq<u8>,
    from: int,
    to: int,
    zeros: nat,
    n: nat,
    base: nat,
    upper: bool,
) -> bool {
    let start = from + prefix(base).len();
    &&& base == 2 || base == 8 || base == 10 || base == 16
    &&& spells(s, from, prefix(base))
    &&& start < to <= s.len()
    &&& writes(s.subrange(start, to), zeros, n, base, upper)
    &&& word_ends(s, to)
}

/// Underscores do not count.
proof fn lemma_underscores(text: Seq<u8>, base: int)
    ensures
        number(text, base) == number(without_underscores(text), base),
        in_base(text, base) <==> in_base(without_underscores(text), base),
        (forall|i: int| 0 <= i < text.len() ==> CharClass::Int.has(#[trigger] text[i])) <==> (
        forall|i: int|
            0 <= i < without_underscores(text).len() ==> CharClass::Int.has(
                #[trigger] without_underscores(text)[i],
            )),
    decreases text.len(),
{
    if text.len() > 0 {
        let front = text.drop_last();
        let last = text.last();
        lemma_underscores(front, base);
        let rest = without_underscores(front);
        lemma_push(front, last, base);
        assert(front.push(last) =~= text);
        if last != 95 {
            lemma_push(rest, last, base);
            assert(rest.push(last).drop_last() =~= rest);
        }
    }
}

/// What a last byte adds.
proof fn lemma_push(text: Seq<u8>, last: u8, base: int)
    ensures
        in_base(text.push(last), base) <==> in_base(text, base) && (hex_value(last) matches Some(
            digit,
        ) ==> digit < base),
        (forall|i: int|
            0 <= i < text.push(last).len() ==> CharClass::Int.has(#[trigger] text.push(last)[i]))
            <==> (forall|i: int| 0 <= i < text.len() ==> CharClass::Int.has(#[trigger] text[i]))
            && CharClass::Int.has(last),
{
    let all = text.push(last);
    assert(all[text.len() as int] == last);
    assert forall|i: int| 0 <= i < text.len() implies all[i] == #[trigger] text[i] by {}
    if in_base(all, base) {
        assert forall|i: int| 0 <= i < text.len() implies (hex_value(#[trigger] text[i]) matches Some(
            digit,
        ) ==> digit < base) by {
            assert(all[i] == text[i]);
        }
    }
    if forall|i: int| 0 <= i < all.len() ==> CharClass::Int.has(#[trigger] all[i]) {
        assert forall|i: int| 0 <= i < text.len() implies CharClass::Int.has(
            #[trigger] text[i],
        ) by {
            assert(all[i] == text[i]);
        }
    }
}

/// The digits of a number stand for it, zeros before them or not.
pub proof fn lemma_padded(zeros: nat, n: nat, base: nat, upper: bool)
    requires
        2 <= base <= 16,
    ensures
        number(padded(zeros, n, base, upper), base as int) == n,
        in_base(padded(zeros, n, base, upper), base as int),
        padded(zeros, n, base, upper).len() > 0,
        forall|i: int|
            0 <= i < padded(zeros, n, base, upper).len() ==> CharClass::Int.has(
                #[trigger] padded(zeros, n, base, upper)[i],
            ) && padded(zeros, n, base, upper)[i] != 95,
    decreases n,
{
    let all = padded(zeros, n, base, upper);
    if n < base {
        lemma_zeros(zeros, base);
        let zero = zero_digits(zeros);
        assert(all =~= zero.push(digit_byte(n as int, upper)));
        assert(all.drop_last() =~= zero);
        lemma_push(zero, digit_byte(n as int, upper), base as int);
    } else {
        let front = padded(zeros, n / base, base, upper);
        assert(n / base < n) by (nonlinear_arith)
            requires
                n >= base,
                base >= 2,
        ;
        lemma_padded(zeros, n / base, base, upper);
        let last = digit_byte((n % base) as int, upper);
        assert(all =~= front.push(last));
        assert(all.drop_last() =~= front);
        lemma_push(front, last, base as int);
        assert((n / base) * base + n % base == n) by (nonlinear_arith)
            requires
                base >= 2,
        ;
    }
}

/// Zeros stand for zero.
proof fn lemma_zeros(zeros: nat, base: nat)
    requires
        2 <= base,
    ensures
        number(zero_digits(zeros), base as int) == 0,
        in_base(zero_digits(zeros), base as int),
    decreases zeros,
{
    let all = zero_digits(zeros);
    if zeros > 0 {
        lemma_zeros((zeros - 1) as nat, base);
        assert(all.drop_last() =~= zero_digits((zeros - 1) as nat));
    }
}

/// A number without a sign is read back as it is written, in each base: with its prefix, with zeros
/// before it or not, and with underscores in it or not. One over the limit is out of bounds.
pub proof fn law_unsigned_is_read_back(
    b: BytesView,
    to: int,
    zeros: nat,
    n: nat,
    base: nat,
    upper: bool,
    limit: int,
)
    requires
        b.wf(),
        limit >= 0,
        number_between(b.input, b.at, to, zeros, n, base, upper),
    ensures
        b.unsigned_integer(limit) == (
            b.moved(to),
            if n <= limit {
                Ok(n as int)
            } else {
                Err(ErrorView::IntegerOutOfBounds)
            },
        ),
{
    let start = b.at + prefix(base).len();
    let text = b.input.subrange(start, to);
    lemma_padded(zeros, n, base, upper);
    lemma_underscores(text, base as int);
    assert forall|i: int| start <= i < to implies CharClass::Int.has(#[trigger] b.input[i]) by {
        assert(b.input[i] == text[i - start]);
    }
    lemma_run_is(b.input, start, CharClass::Int, to);
    law_integers(text, base as int, limit);
    assert(b.input[start] == text[0]);
    assert(b.moved(start).upto(to) =~= text);
    if base == 10 {
        assert(b.base() == 10) by {
            assert(CharClass::Int.has(b.input[b.at]));
            if b.at + 1 < to {
                assert(CharClass::Int.has(b.input[b.at + 1]));
            }
            lemma_decimal_second(text, zeros, n, upper);
            if b.at + 1 < to {
                assert(b.input[b.at + 1] == text[1]);
            }
        }
    } else {
        assert(prefix(base)[0] == '0');
        assert(b.input[b.at] == prefix(base)[0] as u8);
        assert(b.input[b.at + 1] == prefix(base)[1] as u8);
        assert(b.base() == base);
        assert(b.moved(b.at + 2) == b.moved(start));
    }
}

/// A decimal number holds decimal digits and underscores only.
proof fn lemma_decimal_second(text: Seq<u8>, zeros: nat, n: nat, upper: bool)
    requires
        writes(text, zeros, n, 10, upper),
    ensures
        forall|i: int| 0 <= i < text.len() ==> 48 <= #[trigger] text[i] <= 57 || text[i] == 95,
{
    lemma_padded(zeros, n, 10, upper);
    lemma_underscores(text, 10);
    assert forall|i: int| 0 <= i < text.len() implies 48 <= #[trigger] text[i] <= 57 || text[i]
        == 95 by {
        assert(in_base(text, 10));
        assert(CharClass::Int.has(text[i]));
        assert(hex_value(text[i]) matches Some(digit) ==> digit < 10);
    }
}

/// A number with a sign is read back as it is written: `+` or no sign before a number that is not
/// negative, `-` before one that is not positive.
pub proof fn law_signed_is_read_back(
    b: BytesView,
    to: int,
    zeros: nat,
    n: nat,
    base: nat,
    upper: bool,
    lowest: int,
    highest: int,
)
    requires
        b.wf(),
        lowest >= 0,
        highest >= 0,
        b.at < b.input.len(),
    ensures
        b.input[b.at] == 45 && number_between(b.input, b.at + 1, to, zeros, n, base, upper)
            ==> b.signed_integer(lowest, highest) == (
            b.moved(to),
            if n <= lowest {
                Ok(-(n as int))
            } else {
                Err(ErrorView::IntegerOutOfBounds)
            },
        ),
        b.input[b.at] == 43 && number_between(b.input, b.at + 1, to, zeros, n, base, upper)
            ==> b.signed_integer(lowest, highest) == (
            b.moved(to),
            if n <= highest {
                Ok(n as int)
            } else {
                Err(ErrorView::IntegerOutOfBounds)
            },
        ),
        number_between(b.input, b.at, to, zeros, n, base, upper) ==> b.signed_integer(
            lowest,
            highest,
        ) == (
            b.moved(to),
            if n <= highest {
                Ok(n as int)
            } else {
                Err(ErrorView::IntegerOutOfBounds)
            },
        ),
{
    let next = b.moved(b.at + 1);
    if number_between(b.input, b.at + 1, to, zeros, n, base, upper) {
        law_unsigned_is_read_back(next, to, zeros, n, base, upper, lowest);
        law_unsigned_is_read_back(next, to, zeros, n, base, upper, highest);
    }
    if number_between(b.input, b.at, to, zeros, n, base, upper) {
        law_unsigned_is_read_back(b, to, zeros, n, base, upper, highest);
        lemma_starts_with_digit(b.input, b.at, to, zeros, n, base, upper);
    }
}

/// A number without a sign starts with a digit.
proof fn lemma_starts_with_digit(
    s: Seq<u8>,
    from: int,
    to: int,
    zeros: nat,
    n: nat,
    base: nat,
    upper: bool,
)
    requires
        number_between(s, from, to, zeros, n, base, upper),
    ensures
        name_part(s[from]),
        forall|i: int| from <= i < to ==> name_part(#[trigger] s[i]),
{
    let start = from + prefix(base).len();
    let text = s.subrange(start, to);
    lemma_padded(zeros, n, base, upper);
    lemma_underscores(text, base as int);
    assert forall|i: int| from <= i < to implies name_part(#[trigger] s[i]) by {
        if i >= start {
            assert(s[i] == text[i - start]);
        } else {
            assert(s[i] == prefix(base)[i - from] as u8);
        }
    }
}

/// What is no digit, or an underscore before any digit, is no number.
pub proof fn law_no_number(b: BytesView, limit: int)
    requires
        b.wf(),
        b.at < b.input.len() ==> !name_part(b.input[b.at]) || b.input[b.at] == 95 || 103
            <= b.input[b.at] <= 122 || 71 <= b.input[b.at] <= 90,
    ensures
        b.unsigned_integer(limit) == (
            b,
            Err::<int, ErrorView>(
                if b.at < b.input.len() && b.input[b.at] == 95 {
                    ErrorView::UnderscoreAtBeginning
                } else {
                    ErrorView::ExpectedInteger
                },
            ),
        ),
{
    lemma_run_end(b.input, b.at, CharClass::Int);
    reveal_with_fuel(run_end, 2);
    if b.at < b.input.len() && b.input[b.at] == 95 {
        lemma_run_end(b.input, b.at + 1, CharClass::Int);
    }
}

/// Whether a number of any type ends at an offset.
pub open spec fn number_ends(s: Seq<u8>, at: int) -> bool {
    at >= s.len() || !raw_part(s[at])
}

/// The smallest unsigned type that holds a number.
pub open spec fn smallest_unsigned_for(n: int, found: AnyNumView) -> bool {
    if n < 0x100 {
        found matches AnyNumView::U8(x) && x == n
    } else if n < 0x1_0000 {
        found matches AnyNumView::U16(x) && x == n
    } else if n < 0x1_0000_0000 {
        found matches AnyNumView::U32(x) && x == n
    } else if n < 0x1_0000_0000_0000_0000 {
        found matches AnyNumView::U64(x) && x == n
    } else {
        found matches AnyNumView::U128(x) && x == n
    }
}

/// The smallest signed type that holds a number.
pub open spec fn smallest_signed_for(n: int, found: AnyNumView) -> bool {
    if -0x80 <= n < 0x80 {
        found matches AnyNumView::I8(x) && x == n
    } else if -0x8000 <= n < 0x8000 {
        found matches AnyNumView::I16(x) && x == n
    } else if -0x8000_0000 <= n < 0x8000_0000 {
        found matches AnyNumView::I32(x) && x == n
    } else if -0x8000_0000_0000_0000 <= n < 0x8000_0000_0000_0000 {
        found matches AnyNumView::I64(x) && x == n
    } else {
        found matches AnyNumView::I128(x) && x == n
    }
}

/// What is written as an integer is taken for no floating point number.
proof fn lemma_integer_is_no_float(
    s: Seq<u8>,
    from: int,
    to: int,
    zeros: nat,
    n: nat,
    base: nat,
    upper: bool,
)
    requires
        number_between(s, from, to, zeros, n, base, upper),
        number_ends(s, to),
        0 <= from,
    ensures
        run_end(s, from, CharClass::Float) <= run_end(s, from, CharClass::Int),
{
    lemma_starts_with_digit(s, from, to, zeros, n, base, upper);
    lemma_run_end(s, from, CharClass::Float);
    lemma_run_end(s, from, CharClass::Int);
    let end = run_end(s, from, CharClass::Int);
    let float = run_end(s, from, CharClass::Float);
    assert(float <= to) by {
        if to < float {
            assert(CharClass::Float.has(s[to]));
        }
    }
    if end < float {
        assert(CharClass::Float.has(s[end]));
        assert(name_part(s[end]));
        assert(48 <= s[end] <= 57 || s[end] == 101 || s[end] == 69);
        assert(CharClass::Int.has(s[end]));
    }
}

/// An integer without a sign is read as the smallest unsigned type that holds it.
pub proof fn law_any_unsigned(
    b: BytesView,
    to: int,
    zeros: nat,
    n: nat,
    base: nat,
    upper: bool,
)
    requires
        b.wf(),
        number_between(b.input, b.at, to, zeros, n, base, upper),
        number_ends(b.input, to),
        n < 0x1_0000_0000_0000_0000_0000_0000_0000_0000,
    ensures
        b.any_num().0 == b.moved(to),
        b.any_num().1 matches Ok(found) && smallest_unsigned_for(n as int, found),
{
    lemma_starts_with_digit(b.input, b.at, to, zeros, n, base, upper);
    lemma_integer_is_no_float(b.input, b.at, to, zeros, n, base, upper);
    law_unsigned_is_read_back(b, to, zeros, n, base, upper, u128::MAX as int);
}

/// An integer with a sign is read as the smallest signed type that holds it.
pub proof fn law_any_signed(
    b: BytesView,
    to: int,
    zeros: nat,
    n: nat,
    base: nat,
    upper: bool,
)
    requires
        b.wf(),
        b.at < b.input.len(),
        b.input[b.at] == 43 || b.input[b.at] == 45,
        number_between(b.input, b.at + 1, to, zeros, n, base, upper),
        number_ends(b.input, to),
        n < 0x8000_0000_0000_0000_0000_0000_0000_0000,
    ensures
        b.any_num().0 == b.moved(to),
        b.any_num().1 matches Ok(found) && smallest_signed_for(
            if b.input[b.at] == 45 {
                -(n as int)
            } else {
                n as int
            },
            found,
        ),
{
    lemma_integer_is_no_float(b.input, b.at + 1, to, zeros, n, base, upper);
    law_signed_is_read_back(
        b,
        to,
        zeros,
        n,
        base,
        upper,
        0x8000_0000_0000_0000_0000_0000_0000_0000,
        i128::MAX as int,
    );
}

/// Whether decimal digits, or nothing, stand between two offsets.
pub open spec fn digits_between(s: Seq<u8>, from: int, to: int) -> bool {
    &&& 0 <= from <= to <= s.len()
    &&& forall|i: int| from <= i < to ==> 48 <= #[trigger] s[i] <= 57
}

/// Whether a floating point number goes from one offset to another: a sign if any, digits up to
/// `point`, a point and more digits up to `exponent` if there is a point, and an `e` with digits
/// from `power` on if there is an exponent. There is at least one digit before the exponent, and one
/// in it.
pub open spec fn float_between(
    s: Seq<u8>,
    from: int,
    to: int,
    point: int,
    exponent: int,
    power: int,
) -> bool {
    let start = if s[from] == 43 || s[from] == 45 {
        from + 1
    } else {
        from
    };
    &&& 0 <= from < to <= s.len()
    &&& digits_between(s, start, point)
    &&& if point == exponent {
        start < point
    } else {
        &&& s[point] == 46
        &&& point < exponent
        &&& digits_between(s, point + 1, exponent)
        &&& start < point || point + 1 < exponent
    }
    &&& if exponent == to {
        true
    } else {
        &&& s[exponent] == 101 || s[exponent] == 69
        &&& power == exponent + 1 || (power == exponent + 2 && (s[exponent + 1] == 43 || s[exponent
            + 1] == 45))
        &&& power < to
        &&& digits_between(s, power, to)
    }
}

/// Where there is a floating point number, it is in the form of one, and all of it was read.
pub proof fn law_float_has_its_form(b: BytesView)
    requires
        b.wf(),
        b.float().1 is Ok,
        b.at < b.input.len() ==> b.input[b.at] != 105 && b.input[b.at] != 78,
        b.at + 1 < b.input.len() && b.input[b.at] == 45 ==> b.input[b.at + 1] != 105,
    ensures
        exists|point: int, exponent: int, power: int|
            #[trigger] float_between(
                b.input,
                b.at,
                b.float().0.at,
                point,
                exponent,
                power,
            ),
        b.float().1 == Ok::<Seq<char>, ErrorView>(
            text_between(b.input, b.at, b.float().0.at),
        ),
{
    let s = b.input;
    let to = run_end(s, b.at, CharClass::Float);
    lemma_run_end(s, b.at, CharClass::Float);
    reveal_strlit("inf");
    reveal_strlit("-inf");
    reveal_strlit("NaN");
    assert("inf"@[0] == 'i' && "NaN"@[0] == 'N' && "-inf"@[0] == '-' && "-inf"@[1] == 'i');
    assert(!b.sees("inf"@) && !b.sees("NaN"@) && !b.sees("-inf"@));
    assert(b.float().0.at == to);
    let text = s.subrange(b.at, to);
    assert(b.upto(to) =~= text);
    assert(ascii_text(text) =~= text_between(s, b.at, to));
    assert forall|i: int| 0 <= i < text.len() implies s[b.at + i] == #[trigger] text[i] by {}
    let start = if text[0] == 43 || text[0] == 45 {
        1int
    } else {
        0
    };
    let point = run_end(text, start, CharClass::Digit);
    lemma_run_end(text, start, CharClass::Digit);
    let has_point = point < text.len() && text[point] == 46;
    let end = if has_point {
        run_end(text, point + 1, CharClass::Digit)
    } else {
        point
    };
    lemma_run_end(text, point + 1, CharClass::Digit);
    let power = if end + 1 < text.len() && (text[end + 1] == 43 || text[end + 1] == 45) {
        end + 2
    } else {
        end + 1
    };
    lemma_run_end(text, power, CharClass::Digit);
    assert(digits_between(s, b.at + start, b.at + point)) by {
        lemma_digits_back(s, b.at, to, start, point);
    }
    if has_point {
        lemma_digits_back(s, b.at, to, point + 1, end);
    }
    if end < text.len() {
        lemma_digits_back(s, b.at, to, power, to - b.at);
    }
    assert(float_between(s, b.at, to, b.at + point, b.at + end, b.at + power));
}

/// Digits in a part of the input are digits in the input.
proof fn lemma_digits_back(s: Seq<u8>, base: int, to: int, from: int, end: int)
    requires
        0 <= base <= to <= s.len(),
        0 <= from <= end <= to - base,
        forall|i: int|
            from <= i < end ==> CharClass::Digit.has(#[trigger] s.subrange(base, to)[i]),
    ensures
        digits_between(s, base + from, base + end),
{
    let text = s.subrange(base, to);
    assert forall|i: int| base + from <= i < base + end implies 48 <= #[trigger] s[i] <= 57 by {
        assert(CharClass::Digit.has(text[i - base]));
    }
}

/// A floating point number is read as its text, whole: with a sign or not, with a point before,
/// between or after digits or none, and with an exponent or not.
pub proof fn law_float_is_read(b: BytesView, to: int, point: int, exponent: int, power: int)
    requires
        b.wf(),
        float_between(b.input, b.at, to, point, exponent, power),
        number_ends(b.input, to),
    ensures
        b.float() == (b.moved(to), Ok::<Seq<char>, ErrorView>(text_between(b.input, b.at, to))),
{
    let s = b.input;
    let start = if s[b.at] == 43 || s[b.at] == 45 {
        b.at + 1
    } else {
        b.at
    };
    assert forall|i: int| b.at <= i < to implies CharClass::Float.has(#[trigger] s[i]) by {
        assert(digits_between(s, start, point));
    }
    lemma_run_is(s, b.at, CharClass::Float, to);
    let text = s.subrange(b.at, to);
    assert(b.upto(to) =~= text);
    assert forall|i: int| 0 <= i < text.len() implies text[i] == #[trigger] s[b.at + i] by {}
    let first = start - b.at;
    lemma_digits_run(s, b.at, to, start, point);
    if point != exponent {
        lemma_digits_run(s, b.at, to, point + 1, exponent);
    }
    if exponent != to {
        lemma_digits_run(s, b.at, to, power, to);
    }
    assert(ascii_text(text) =~= text_between(s, b.at, to));
    reveal_strlit("inf");
    reveal_strlit("-inf");
    reveal_strlit("NaN");
    assert("inf"@[0] == 'i' && "NaN"@[0] == 'N' && "-inf"@[0] == '-' && "-inf"@[1] == 'i');
    assert(CharClass::Float.has(s[b.at]));
    if b.at + 1 < to {
        assert(CharClass::Float.has(s[b.at + 1]));
    }
}

/// Digits in a part of the input are a run in that part.
proof fn lemma_digits_run(s: Seq<u8>, base: int, to: int, from: int, end: int)
    requires
        0 <= base <= from <= end <= to <= s.len(),
        digits_between(s, from, end),
        end < to ==> !(48 <= s[end] <= 57),
    ensures
        run_end(s.subrange(base, to), from - base, CharClass::Digit) == end - base,
{
    let text = s.subrange(base, to);
    assert forall|i: int| from - base <= i < end - base implies CharClass::Digit.has(
        #[trigger] text[i],
    ) by {
        assert(text[i] == s[base + i]);
    }
    lemma_run_is(text, from - base, CharClass::Digit, end - base);
}

/// A number with an exponent and no point is read as a floating point number, whole, though an
/// exponent without a sign could be hexadecimal digits.
pub proof fn law_any_exponent(b: BytesView, to: int, exponent: int, power: int)
    requires
        b.wf(),
        float_between(b.input, b.at, to, exponent, exponent, power),
        number_ends(b.input, to),
        exponent != to,
    ensures
        b.any_num() == (
            b.moved(to),
            Ok::<AnyNumView, ErrorView>(AnyNumView::Float(text_between(b.input, b.at, to))),
        ),
{
    law_float_is_read(b, to, exponent, exponent, power);
    let s = b.input;
    let start = if s[b.at] == 43 || s[b.at] == 45 {
        b.at + 1
    } else {
        b.at
    };
    assert forall|i: int| start <= i < to implies CharClass::Float.has(#[trigger] s[i]) by {}
    lemma_run_is(s, start, CharClass::Float, to);
    if power == exponent + 2 {
        lemma_run_is(s, start, CharClass::Int, exponent + 1);
    } else {
        lemma_run_is(s, start, CharClass::Int, to);
        let text = s.subrange(start, to);
        assert(text[exponent - start] == s[exponent]);
        assert(hex_value(text[exponent - start]) == Some(14int));
        assert(!in_base(text, 10));
        let digits = b.moved(start);
        assert(digits.upto(to) =~= text);
        assert(digits.base() == 10) by {
            if start + 1 < to {
                assert(CharClass::Float.has(s[start + 1]));
            }
        }
        law_integers(text, 10, u128::MAX as int);
        law_integers(text, 10, i128::MAX as int);
        law_integers(text, 10, 0x8000_0000_0000_0000_0000_0000_0000_0000);
    }
}

/// An integer without a sign that no type holds is read as a floating point number, whole.
pub proof fn law_huge_integer(b: BytesView, to: int, zeros: nat, n: nat)
    requires
        b.wf(),
        digits_between(b.input, b.at, to),
        number_between(b.input, b.at, to, zeros, n, 10, false),
        number_ends(b.input, to),
        n >= 0x1_0000_0000_0000_0000_0000_0000_0000_0000,
    ensures
        b.any_num() == (
            b.moved(to),
            Ok::<AnyNumView, ErrorView>(AnyNumView::Float(text_between(b.input, b.at, to))),
        ),
{
    law_float_is_read(b, to, to, to, to);
    lemma_integer_is_no_float(b.input, b.at, to, zeros, n, 10, false);
    law_unsigned_is_read_back(b, to, zeros, n, 10, false, u128::MAX as int);
}

/// After a prefix, a digit has to come.
pub proof fn law_prefix_alone(b: BytesView, base: nat, limit: int)
    requires
        b.wf(),
        base == 2 || base == 8 || base == 16,
        spells(b.input, b.at, prefix(base)),
        b.at + 2 < b.input.len() ==> !name_part(b.input[b.at + 2]) || b.input[b.at + 2] == 95 || 103
            <= b.input[b.at + 2] <= 122 || 71 <= b.input[b.at + 2] <= 90,
    ensures
        b.unsigned_integer(limit) == (
            b.moved(b.at + 2),
            Err::<int, ErrorView>(
                if b.at + 2 < b.input.len() && b.input[b.at + 2] == 95 {
                    ErrorView::UnderscoreAtBeginning
                } else {
                    ErrorView::ExpectedInteger
                },
            ),
        ),
{
    assert(b.input[b.at + 0] == prefix(base)[0] as u8);
    assert(b.input[b.at + 1] == prefix(base)[1] as u8);
    assert(b.base() == base);
    let start = b.at + 2;
    reveal_with_fuel(run_end, 2);
    if start < b.input.len() && b.input[start] == 95 {
        lemma_run_end(b.input, start + 1, CharClass::Int);
    }
}

/// What is read from digits is read from the first of them and then from the rest.
proof fn lemma_magnitude_parts(
    first: Seq<u8>,
    rest: Seq<u8>,
    base: int,
    limit: int,
    so_far: int,
)
    ensures
        magnitude(first + rest, base, limit, so_far) == (match magnitude(
            first,
            base,
            limit,
            so_far,
        ) {
            Ok(value) => magnitude(rest, base, limit, value),
            Err(e) => Err(e),
        }),
    decreases first.len(),
{
    let all = first + rest;
    if first.len() == 0 {
        assert(all =~= rest);
    } else {
        assert(all.drop_first() =~= first.drop_first() + rest);
        assert(all[0] == first[0]);
        match hex_value(first[0]) {
            Some(digit) => {
                lemma_magnitude_parts(
                    first.drop_first(),
                    rest,
                    base,
                    limit,
                    so_far * base + digit,
                );
            },
            None => {
                lemma_magnitude_parts(first.drop_first(), rest, base, limit, so_far);
            },
        }
    }
}

/// A digit that is none in the base is told from a number that is too large: it is refused as no
/// integer wherever the number with one more digit could still be within the limit.
pub proof fn law_foreign_digit_after(
    text: Seq<u8>,
    c: u8,
    rest: Seq<u8>,
    zeros: nat,
    n: nat,
    base: nat,
    upper: bool,
    limit: int,
)
    requires
        base == 2 || base == 8 || base == 10,
        writes(text, zeros, n, base, upper),
        n * base <= limit,
        48 + base <= c <= 57 || 97 <= c <= 102 || 65 <= c <= 70,
    ensures
        magnitude(text + seq![c] + rest, base as int, limit, 0) == Err::<int, ErrorView>(
            ErrorView::ExpectedInteger,
        ),
{
    lemma_padded(zeros, n, base, upper);
    lemma_underscores(text, base as int);
    assert(n <= n * base) by (nonlinear_arith)
        requires
            base >= 2,
    ;
    law_integers(text, base as int, limit);
    assert(text + seq![c] + rest =~= text + (seq![c] + rest));
    lemma_magnitude_parts(text, seq![c] + rest, base as int, limit, 0);
    assert((seq![c] + rest)[0] == c);
}

/// A number whose first digit is none in its base is refused.
pub proof fn law_foreign_digit(b: BytesView, base: nat, limit: int)
    requires
        b.wf(),
        limit >= 0,
        base == 2 || base == 8 || base == 10,
        spells(b.input, b.at, prefix(base)),
        b.at + prefix(base).len() < b.input.len(),
        ({
            let c = b.input[b.at + prefix(base).len() as int];
            48 + base <= c <= 57 || 97 <= c <= 102 || 65 <= c <= 70
        }),
    ensures
        b.unsigned_integer(limit).1 == Err::<int, ErrorView>(ErrorView::ExpectedInteger),
{
    let start = b.at + prefix(base).len();
    if base != 10 {
        assert(b.input[b.at + 0] == prefix(base)[0] as u8);
        assert(b.input[b.at + 1] == prefix(base)[1] as u8);
    }
    assert(b.base() == base);
    lemma_run_end(b.input, start, CharClass::Int);
    let end = run_end(b.input, start, CharClass::Int);
    reveal_with_fuel(run_end, 2);
    lemma_run_end(b.input, start + 1, CharClass::Int);
    let text = b.moved(start).upto(end);
    assert(text[0] == b.input[start]);
}

/// A number with a point is read as a floating point number, whole.
pub proof fn law_any_float(b: BytesView, to: int, point: int, exponent: int, power: int)
    requires
        b.wf(),
        float_between(b.input, b.at, to, point, exponent, power),
        number_ends(b.input, to),
        point != exponent,
    ensures
        b.any_num() == (
            b.moved(to),
            Ok::<AnyNumView, ErrorView>(AnyNumView::Float(text_between(b.input, b.at, to))),
        ),
{
    law_float_is_read(b, to, point, exponent, power);
    let s = b.input;
    let start = if s[b.at] == 43 || s[b.at] == 45 {
        b.at + 1
    } else {
        b.at
    };
    assert forall|i: int| start <= i < to implies CharClass::Float.has(#[trigger] s[i]) by {}
    lemma_run_is(s, start, CharClass::Float, to);
    lemma_run_is(s, start, CharClass::Int, point);
}

/// What holds no digit, and is not infinite or no number by its name, is no floating point number.
pub proof fn law_no_float(b: BytesView, to: int)
    requires
        b.wf(),
        b.at <= to <= b.input.len(),
        forall|i: int|
            b.at <= i < to ==> (#[trigger] b.input[i] == 43 || b.input[i] == 45 || b.input[i] == 46
                || b.input[i] == 69 || b.input[i] == 101),
        to < b.input.len() ==> !raw_part(b.input[to]) || b.input[to] == 95,
    ensures
        b.float().1 == Err::<Seq<char>, ErrorView>(ErrorView::ExpectedFloat),
{
    let s = b.input;
    lemma_run_is(s, b.at, CharClass::Float, to);
    let text = s.subrange(b.at, to);
    assert forall|i: int| 0 <= i < text.len() implies text[i] == #[trigger] s[b.at + i] by {}
    assert forall|at: int| 0 <= at <= text.len() implies run_end(
        text,
        at,
        CharClass::Digit,
    ) == at by {
        if at < text.len() {
            assert(text[at] == s[b.at + at]);
        }
    }
    reveal_strlit("inf");
    reveal_strlit("-inf");
    reveal_strlit("NaN");
    assert("inf"@[0] == 'i' && "NaN"@[0] == 'N' && "-inf"@[0] == '-' && "-inf"@[1] == 'i');
    if b.at < to {
        assert(s[b.at] != 105);
    }
    if b.at + 1 < to {
        assert(s[b.at + 1] != 105);
    }
}

/// The names of the values that are infinite or no number are read as such, each as a word.
pub proof fn law_named_floats(b: BytesView)
    requires
        b.wf(),
    ensures
        spells(b.input, b.at, seq!['i', 'n', 'f']) && word_ends(b.input, b.at + 3) ==> b.float()
            == (b.moved(b.at + 3), Ok::<Seq<char>, ErrorView>(seq!['i', 'n', 'f'])),
        spells(b.input, b.at, seq!['N', 'a', 'N']) && word_ends(b.input, b.at + 3) ==> b.float()
            == (b.moved(b.at + 3), Ok::<Seq<char>, ErrorView>(seq!['N', 'a', 'N'])),
        spells(b.input, b.at, seq!['-', 'i', 'n', 'f']) && word_ends(b.input, b.at + 4)
            ==> b.float() == (
            b.moved(b.at + 4),
            Ok::<Seq<char>, ErrorView>(seq!['-', 'i', 'n', 'f']),
        ),
{
    reveal_strlit("inf");
    reveal_strlit("-inf");
    reveal_strlit("NaN");
    assert("inf"@ =~= seq!['i', 'n', 'f']);
    assert("NaN"@ =~= seq!['N', 'a', 'N']);
    assert("-inf"@ =~= seq!['-', 'i', 'n', 'f']);
    lemma_spells(b.input, b.at, "inf"@);
    lemma_spells(b.input, b.at, "NaN"@);
    lemma_spells(b.input, b.at, "-inf"@);
    if b.sees("inf"@) {
        lemma_ascii_of(b, "inf"@);
    }
    if b.sees("NaN"@) {
        lemma_ascii_of(b, "NaN"@);
    }
    if b.sees("-inf"@) {
        lemma_ascii_of(b, "-inf"@);
        assert("-inf"@[0] == '-' && "inf"@[0] == 'i' && "NaN"@[0] == 'N');
    }
}

/// The text of a token that comes next is the token.
proof fn lemma_ascii_of(b: BytesView, text: Seq<char>)
    requires
        b.wf(),
        b.sees(text),
    ensures
        ascii_text(b.upto(b.at + text.len())) == text,
{
    let found = ascii_text(b.upto(b.at + text.len()));
    assert forall|i: int| 0 <= i < text.len() implies found[i] == text[i] by {
        assert(text[i] == b.input[b.at + i] as char);
    }
    assert(found =~= text);
}

/// `true` and `false` are read as what they say, and nothing else is.
pub proof fn law_booleans(b: BytesView)
    requires
        b.wf(),
    ensures
        b.bool() == (if spells(b.input, b.at, seq!['t', 'r', 'u', 'e']) {
            (b.moved(b.at + 4), Ok(true))
        } else if spells(b.input, b.at, seq!['f', 'a', 'l', 's', 'e']) {
            (b.moved(b.at + 5), Ok(false))
        } else {
            (b, Err(ErrorView::ExpectedBoolean))
        }),
{
    reveal_strlit("true");
    reveal_strlit("false");
    assert("true"@ =~= seq!['t', 'r', 'u', 'e']);
    assert("false"@ =~= seq!['f', 'a', 'l', 's', 'e']);
    lemma_spells(b.input, b.at, "true"@);
    lemma_spells(b.input, b.at, "false"@);
}

} // verus!
