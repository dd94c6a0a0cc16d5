//! Booleans, integers and the text of floating point numbers.
use vstd::prelude::*;
use crate::error::{outcome, Error, ErrorView};
use crate::parse::ident::ascii_str;
use crate::parse::{lemma_run_end, run_end, Bytes, BytesView, CharClass};
use crate::text::ascii_text;

verus! {

/// What a hexadecimal digit stands for.
pub open spec fn hex_value(c: u8) -> Option<int> {
    if '0' as u8 <= c <= '9' as u8 {
        Some(c - '0' as u8)
    } else if 'a' as u8 <= c <= 'f' as u8 {
        Some(c - 'a' as u8 + 10)
    } else if 'A' as u8 <= c <= 'F' as u8 {
        Some(c - 'A' as u8 + 10)
    } else {
        None
    }
}

/// What a hexadecimal digit stands for.
pub fn decode_hex(c: u8) -> (value: Option<u8>)
    ensures
        match hex_value(c) {
            Some(v) => value matches Some(found) && found == v && found < 16,
            None => value is None,
        },
{
    if '0' as u8 <= c && c <= '9' as u8 {
        Some(c - '0' as u8)
    } else if 'a' as u8 <= c && c <= 'f' as u8 {
        Some(c - 'a' as u8 + 10)
    } else if 'A' as u8 <= c && c <= 'F' as u8 {
        Some(c - 'A' as u8 + 10)
    } else {
        None
    }
}

/// The number that digits stand for in a base, `so_far` being what stands before them. Underscores
/// between the digits are ignored. The first digit that takes the number over `limit`, or that is
/// none in this base, decides what is wrong.
pub open spec fn magnitude(
    digits: Seq<u8>,
    base: int,
    limit: int,
    so_far: int,
) -> Result<int, ErrorView>
    decreases digits.len(),
{
    if digits.len() == 0 {
        Ok(so_far)
    } else {
        let rest = digits.drop_first();
        let shifted = so_far * base;
        match hex_value(digits[0]) {
            None => magnitude(rest, base, limit, so_far),
            Some(digit) => if shifted > limit {
                Err(ErrorView::IntegerOutOfBounds)
            } else if digit >= base {
                Err(ErrorView::ExpectedInteger)
            } else if shifted + digit > limit {
                Err(ErrorView::IntegerOutOfBounds)
            } else {
                magnitude(rest, base, limit, shifted + digit)
            },
        }
    }
}

/// A number that is not refused is within the limit.
pub proof fn lemma_magnitude(digits: Seq<u8>, base: int, limit: int, so_far: int)
    requires
        0 <= so_far <= limit,
        base >= 0,
    ensures
        magnitude(digits, base, limit, so_far) matches Ok(value) ==> 0 <= value <= limit,
    decreases digits.len(),
{
    if digits.len() > 0 {
        let rest = digits.drop_first();
        match hex_value(digits[0]) {
            None => {
                lemma_magnitude(rest, base, limit, so_far);
            },
            Some(digit) => {
                let shifted = so_far * base;
                assert(shifted >= 0) by (nonlinear_arith)
                    requires
                        shifted == so_far * base,
                        so_far >= 0,
                        base >= 0,
                ;
                if shifted + digit <= limit {
                    lemma_magnitude(rest, base, limit, shifted + digit);
                }
            },
        }
    }
}

/// The number that digits stand for in a base, underscores between them being ignored.
pub open spec fn number(digits: Seq<u8>, base: int) -> int
    decreases digits.len(),
{
    if digits.len() == 0 {
        0
    } else {
        let before = number(digits.drop_last(), base);
        match hex_value(digits.last()) {
            Some(digit) => before * base + digit,
            None => before,
        }
    }
}

/// Whether every digit is one in this base.
pub open spec fn in_base(digits: Seq<u8>, base: int) -> bool {
    forall|i: int|
        0 <= i < digits.len() ==> (hex_value(#[trigger] digits[i]) matches Some(digit) ==> digit
            < base)
}

/// Digits that are all in the base make the number that they stand for, unless it is over the limit,
/// whatever its length. A digit that is not in the base makes no number.
pub proof fn law_integers(digits: Seq<u8>, base: int, limit: int)
    requires
        base >= 2,
        limit >= 0,
    ensures
        in_base(digits, base) ==> magnitude(digits, base, limit, 0) == (if number(digits, base)
            <= limit {
            Ok::<int, ErrorView>(number(digits, base))
        } else {
            Err::<int, ErrorView>(ErrorView::IntegerOutOfBounds)
        }),
        !in_base(digits, base) ==> magnitude(digits, base, limit, 0) is Err,
{
    lemma_folded(digits, base);
    lemma_magnitude_is_folded(digits, base, limit, 0);
}

/// The number that digits stand for in a base, `so_far` being what stands before them.
pub open spec fn folded(digits: Seq<u8>, base: int, so_far: int) -> int
    decreases digits.len(),
{
    if digits.len() == 0 {
        so_far
    } else {
        match hex_value(digits[0]) {
            Some(digit) => folded(digits.drop_first(), base, so_far * base + digit),
            None => folded(digits.drop_first(), base, so_far),
        }
    }
}

/// More digits make no number smaller.
proof fn lemma_folded_grows(digits: Seq<u8>, base: int, so_far: int)
    requires
        base >= 1,
        so_far >= 0,
    ensures
        folded(digits, base, so_far) >= so_far,
    decreases digits.len(),
{
    if digits.len() > 0 {
        match hex_value(digits[0]) {
            Some(digit) => {
                assert(so_far * base >= so_far) by (nonlinear_arith)
                    requires
                        base >= 1,
                        so_far >= 0,
                ;
                lemma_folded_grows(digits.drop_first(), base, so_far * base + digit);
            },
            None => {
                lemma_folded_grows(digits.drop_first(), base, so_far);
            },
        }
    }
}

/// Reading digits from the first to the last adds the last one in the end.
proof fn lemma_folded_last(digits: Seq<u8>, base: int, so_far: int)
    requires
        digits.len() > 0,
    ensures
        folded(digits, base, so_far) == (match hex_value(digits.last()) {
            Some(digit) => folded(digits.drop_last(), base, so_far) * base + digit,
            None => folded(digits.drop_last(), base, so_far),
        }),
    decreases digits.len(),
{
    let rest = digits.drop_first();
    let front = digits.drop_last();
    reveal_with_fuel(folded, 2);
    if rest.len() > 0 {
        assert(front.drop_first() =~= rest.drop_last());
        assert(front[0] == digits[0] && rest.last() == digits.last());
        match hex_value(digits[0]) {
            Some(digit) => {
                lemma_folded_last(rest, base, so_far * base + digit);
            },
            None => {
                lemma_folded_last(rest, base, so_far);
            },
        }
    }
}

/// Digits stand for the same number whichever end they are read from.
pub proof fn lemma_folded(digits: Seq<u8>, base: int)
    ensures
        folded(digits, base, 0) == number(digits, base),
    decreases digits.len(),
{
    if digits.len() > 0 {
        lemma_folded_last(digits, base, 0);
        lemma_folded(digits.drop_last(), base);
    }
}

/// What is read from digits in a base, after `so_far`, is the number that they stand for.
proof fn lemma_magnitude_is_folded(digits: Seq<u8>, base: int, limit: int, so_far: int)
    requires
        base >= 2,
        0 <= so_far <= limit,
    ensures
        in_base(digits, base) ==> magnitude(digits, base, limit, so_far) == (if folded(
            digits,
            base,
            so_far,
        ) <= limit {
            Ok::<int, ErrorView>(folded(digits, base, so_far))
        } else {
            Err::<int, ErrorView>(ErrorView::IntegerOutOfBounds)
        }),
        !in_base(digits, base) ==> magnitude(digits, base, limit, so_far) is Err,
    decreases digits.len(),
{
    if digits.len() > 0 {
        let rest = digits.drop_first();
        let shifted = so_far * base;
        assert(shifted >= so_far) by (nonlinear_arith)
            requires
                shifted == so_far * base,
                base >= 2,
                so_far >= 0,
        ;
        assert(in_base(digits, base) ==> in_base(rest, base)) by {
            assert forall|i: int| 0 <= i < rest.len() implies rest[i] == digits[i + 1] by {}
        }
        assert((hex_value(digits[0]) matches Some(digit) ==> digit < base) && in_base(rest, base)
            ==> in_base(digits, base)) by {
            assert forall|i: int| 0 < i < digits.len() implies digits[i] == rest[i - 1] by {}
        }
        match hex_value(digits[0]) {
            None => {
                lemma_magnitude_is_folded(rest, base, limit, so_far);
            },
            Some(digit) => {
                lemma_folded_grows(rest, base, shifted + digit);
                if shifted <= limit && digit < base && shifted + digit <= limit {
                    lemma_magnitude_is_folded(rest, base, limit, shifted + digit);
                }
            },
        }
    }
}

/// Where the digits of an exponent, with its sign, end; `None` where there are none.
pub open spec fn exponent_end(text: Seq<u8>, at: int) -> Option<int> {
    let start = if 0 <= at < text.len() && (text[at] == '+' as u8 || text[at] == '-' as u8) {
        at + 1
    } else {
        at
    };
    let end = run_end(text, start, CharClass::Digit);
    if end > start {
        Some(end)
    } else {
        None
    }
}

/// Whether a text is a decimal number as `f64::from_str` documents it: an optional sign, digits
/// with at most one point among or around them, and an optional exponent.
pub open spec fn is_decimal(text: Seq<u8>) -> bool {
    let start = if text.len() > 0 && (text[0] == '+' as u8 || text[0] == '-' as u8) {
        1int
    } else {
        0
    };
    let point = run_end(text, start, CharClass::Digit);
    let has_point = point < text.len() && text[point] == '.' as u8;
    let end = if has_point {
        run_end(text, point + 1, CharClass::Digit)
    } else {
        point
    };
    let digits = if has_point {
        end - start - 1
    } else {
        end - start
    };
    let last = if end < text.len() && (text[end] == 'e' as u8 || text[end] == 'E' as u8) {
        exponent_end(text, end + 1)
    } else {
        Some(end)
    };
    digits > 0 && last == Some(text.len() as int)
}

/// The mathematical value of an [`AnyNum`].
pub enum AnyNumView {
    Float(Seq<char>),
    I8(i8),
    U8(u8),
    I16(i16),
    U16(u16),
    I32(i32),
    U32(u32),
    I64(i64),
    U64(u64),
    I128(i128),
    U128(u128),
}

/// A number in the smallest type that holds it. A floating point number is kept as its text.
#[derive(Clone, Copy, Debug, PartialEq, Eq)]
pub enum AnyNum<'a> {
    Float(&'a str),
    I8(i8),
    U8(u8),
    I16(i16),
    U16(u16),
    I32(i32),
    U32(u32),
    I64(i64),
    U64(u64),
    I128(i128),
    U128(u128),
}

impl<'a> View for AnyNum<'a> {
    type V = AnyNumView;

    open spec fn view(&self) -> AnyNumView {
        match *self {
            AnyNum::Float(text) => AnyNumView::Float(text@),
            AnyNum::I8(x) => AnyNumView::I8(x),
            AnyNum::U8(x) => AnyNumView::U8(x),
            AnyNum::I16(x) => AnyNumView::I16(x),
            AnyNum::U16(x) => AnyNumView::U16(x),
            AnyNum::I32(x) => AnyNumView::I32(x),
            AnyNum::U32(x) => AnyNumView::U32(x),
            AnyNum::I64(x) => AnyNumView::I64(x),
            AnyNum::U64(x) => AnyNumView::U64(x),
            AnyNum::I128(x) => AnyNumView::I128(x),
            AnyNum::U128(x) => AnyNumView::U128(x),
        }
    }
}

/// The smallest signed type for a number.
pub open spec fn smallest_signed(x: int) -> AnyNumView {
    if i8::MIN <= x <= i8::MAX {
        AnyNumView::I8(x as i8)
    } else if i16::MIN <= x <= i16::MAX {
        AnyNumView::I16(x as i16)
    } else if i32::MIN <= x <= i32::MAX {
        AnyNumView::I32(x as i32)
    } else if i64::MIN <= x <= i64::MAX {
        AnyNumView::I64(x as i64)
    } else {
        AnyNumView::I128(x as i128)
    }
}

/// The smallest unsigned type for a number.
pub open spec fn smallest_unsigned(x: int) -> AnyNumView {
    if x <= u8::MAX {
        AnyNumView::U8(x as u8)
    } else if x <= u16::MAX {
        AnyNumView::U16(x as u16)
    } else if x <= u32::MAX {
        AnyNumView::U32(x as u32)
    } else if x <= u64::MAX {
        AnyNumView::U64(x as u64)
    } else {
        AnyNumView::U128(x as u128)
    }
}

impl BytesView {
    /// The base that a prefix announces.
    pub open spec fn base(self) -> int {
        if self.byte(0) != Some('0' as u8) {
            10
        } else if self.byte(1) == Some('x' as u8) {
            16
        } else if self.byte(1) == Some('b' as u8) {
            2
        } else if self.byte(1) == Some('o' as u8) {
            8
        } else {
            10
        }
    }

    /// Reading a number without a sign, no larger than `limit`.
    pub open spec fn unsigned_integer(self, limit: int) -> (BytesView, Result<int, ErrorView>) {
        let digits = if self.base() == 10 {
            self
        } else {
            self.moved(self.at + 2)
        };
        let end = run_end(self.input, digits.at, CharClass::Int);
        if end == digits.at {
            (digits, Err(ErrorView::ExpectedInteger))
        } else if digits.peek() == Some('_' as u8) {
            (digits, Err(ErrorView::UnderscoreAtBeginning))
        } else {
            (digits.moved(end), magnitude(digits.upto(end), self.base(), limit, 0))
        }
    }

    /// Reading a number that may have a sign, from `-lowest` to `highest`.
    pub open spec fn signed_integer(self, lowest: int, highest: int) -> (
        BytesView,
        Result<int, ErrorView>,
    ) {
        match self.peek() {
            None => (self, Err(ErrorView::Eof)),
            Some(c) => if c == '+' as u8 {
                self.moved(self.at + 1).unsigned_integer(highest)
            } else if c == '-' as u8 {
                let (after, found) = self.moved(self.at + 1).unsigned_integer(lowest);
                match found {
                    Ok(value) => (after, Ok(-value)),
                    Err(e) => (after, Err(e)),
                }
            } else {
                self.unsigned_integer(highest)
            },
        }
    }

    /// Reading `true` or `false`.
    pub open spec fn bool(self) -> (BytesView, Result<bool, ErrorView>) {
        if self.sees("true"@) {
            (self.moved(self.at + 4), Ok(true))
        } else if self.sees("false"@) {
            (self.moved(self.at + 5), Ok(false))
        } else {
            (self, Err(ErrorView::ExpectedBoolean))
        }
    }

    /// Reading a floating point number: its text.
    pub open spec fn float(self) -> (BytesView, Result<Seq<char>, ErrorView>) {
        let end = run_end(self.input, self.at, CharClass::Float);
        if self.sees_word("inf"@) || self.sees_word("NaN"@) {
            (self.moved(self.at + 3), Ok(ascii_text(self.upto(self.at + 3))))
        } else if self.sees_word("-inf"@) {
            (self.moved(self.at + 4), Ok(ascii_text(self.upto(self.at + 4))))
        } else if is_decimal(self.upto(end)) {
            (self.moved(end), Ok(ascii_text(self.upto(end))))
        } else {
            (self.moved(end), Err(ErrorView::ExpectedFloat))
        }
    }

    /// Whether what comes next, after a sign, goes on longer as a floating point number than as an
    /// integer.
    pub open spec fn next_bytes_is_float(self) -> bool {
        match self.peek() {
            None => false,
            Some(c) => {
                let start = if c == '+' as u8 || c == '-' as u8 {
                    self.at + 1
                } else {
                    self.at
                };
                run_end(self.input, start, CharClass::Float) > run_end(
                    self.input,
                    start,
                    CharClass::Int,
                )
            },
        }
    }

    /// Reading a floating point number as a number of any type.
    pub open spec fn any_float(self) -> (BytesView, Result<AnyNumView, ErrorView>) {
        let (after, found) = self.float();
        match found {
            Ok(text) => (after, Ok(AnyNumView::Float(text))),
            Err(e) => (after, Err(e)),
        }
    }

    /// Reading a number of any type: an integer where it can be read as one, in the smallest type
    /// that holds it, and a floating point number elsewhere.
    pub open spec fn any_num(self) -> (BytesView, Result<AnyNumView, ErrorView>) {
        match self.peek() {
            None => (self, Err(ErrorView::Eof)),
            Some(c) => if self.next_bytes_is_float() {
                self.any_float()
            } else if c == '+' as u8 || c == '-' as u8 {
                let (after, found) = self.signed_integer(0x8000_0000_0000_0000_0000_0000_0000_0000, i128::MAX as int);
                match found {
                    Ok(x) => (after, Ok(smallest_signed(x))),
                    Err(_) => self.any_float(),
                }
            } else {
                let (after, found) = self.unsigned_integer(u128::MAX as int);
                match found {
                    Ok(x) => (after, Ok(smallest_unsigned(x))),
                    Err(_) => self.any_float(),
                }
            },
        }
    }
}

/// Reading a number only moves forward, and what it finds is within the limit.
pub proof fn lemma_unsigned_integer(b: BytesView, limit: int)
    requires
        b.wf(),
        limit >= 0,
    ensures
        b.leads_to(b.unsigned_integer(limit).0),
        b.unsigned_integer(limit).1 matches Ok(value) ==> 0 <= value <= limit && b.at
            < b.unsigned_integer(limit).0.at,
{
    let start = if b.base() == 10 {
        b.at
    } else {
        b.at + 2
    };
    lemma_run_end(b.input, start, CharClass::Int);
    let end = run_end(b.input, start, CharClass::Int);
    lemma_magnitude(b.moved(start).upto(end), b.base(), limit, 0);
}

/// Reading a number only moves forward, and what it finds is within the limits.
pub proof fn lemma_signed_integer(b: BytesView, lowest: int, highest: int)
    requires
        b.wf(),
        lowest >= 0,
        highest >= 0,
    ensures
        b.leads_to(b.signed_integer(lowest, highest).0),
        b.signed_integer(lowest, highest).1 matches Ok(value) ==> -lowest <= value <= highest
            && b.at < b.signed_integer(lowest, highest).0.at,
{
    if b.at < b.input.len() {
        lemma_unsigned_integer(b.moved(b.at + 1), highest);
        lemma_unsigned_integer(b.moved(b.at + 1), lowest);
        lemma_unsigned_integer(b, highest);
    }
}

/// Reading `true` or `false` only moves forward.
pub proof fn lemma_bool(b: BytesView)
    requires
        b.wf(),
    ensures
        b.leads_to(b.bool().0),
        b.bool().1 is Ok ==> b.at < b.bool().0.at,
{
    reveal_strlit("true");
    reveal_strlit("false");
}

/// Reading a floating point number only moves forward.
pub proof fn lemma_float(b: BytesView)
    requires
        b.wf(),
    ensures
        b.leads_to(b.float().0),
        b.float().1 is Ok ==> b.at < b.float().0.at,
{
    reveal_strlit("inf");
    reveal_strlit("-inf");
    reveal_strlit("NaN");
    lemma_run_end(b.input, b.at, CharClass::Float);
}

/// Reading any number only moves forward.
pub proof fn lemma_any_num(b: BytesView)
    requires
        b.wf(),
    ensures
        b.leads_to(b.any_num().0),
        b.any_num().1 is Ok ==> b.at < b.any_num().0.at,
{
    lemma_float(b);
    lemma_signed_integer(b, 0x8000_0000_0000_0000_0000_0000_0000_0000, i128::MAX as int);
    lemma_unsigned_integer(b, u128::MAX as int);
}

/// Where the digits of a text from an offset on end.
fn digits_end(text: &[u8], at: usize) -> (end: usize)
    requires
        at <= text@.len(),
    ensures
        end == run_end(text@, at as int, CharClass::Digit),
        at <= end <= text@.len(),
{
    let mut end = at;
    while end < text.len() && CharClass::Digit.contains(text[end])
        invariant
            at <= end <= text@.len(),
            run_end(text@, at as int, CharClass::Digit) == run_end(
                text@,
                end as int,
                CharClass::Digit,
            ),
        decreases text.len() - end,
    {
        end = end + 1;
    }
    end
}

/// Whether a byte is a sign.
fn is_sign(c: u8) -> (sign: bool)
    ensures
        sign == (c == '+' as u8 || c == '-' as u8),
{
    c == '+' as u8 || c == '-' as u8
}

/// Whether a text is a decimal number.
fn test_decimal(text: &[u8]) -> (decimal: bool)
    ensures
        decimal == is_decimal(text@),
{
    let start: usize = if text.len() > 0 && is_sign(text[0]) {
        1
    } else {
        0
    };
    let point = digits_end(text, start);
    let has_point = point < text.len() && text[point] == '.' as u8;
    let end = if has_point {
        digits_end(text, point + 1)
    } else {
        point
    };
    let digits = if has_point {
        end - start - 1
    } else {
        end - start
    };
    if digits == 0 {
        return false;
    }
    if end < text.len() && (text[end] == 'e' as u8 || text[end] == 'E' as u8) {
        let from = if end + 1 < text.len() && is_sign(text[end + 1]) {
            end + 2
        } else {
            end + 1
        };
        let last = digits_end(text, from);
        last > from && last == text.len()
    } else {
        end == text.len()
    }
}

/// The number that digits stand for in a base.
fn read_magnitude(digits: &[u8], base: u8, limit: u128) -> (found: Result<u128, Error>)
    requires
        base == 2 || base == 8 || base == 10 || base == 16,
    ensures
        match magnitude(digits@, base as int, limit as int, 0) {
            Ok(value) => found matches Ok(n) && n == value,
            Err(e) => found matches Err(error) && error@ == e,
        },
{
    let mut so_far: u128 = 0;
    let mut i: usize = 0;
    assert(digits@.skip(0) =~= digits@);
    while i < digits.len()
        invariant
            i <= digits@.len(),
            so_far <= limit,
            base == 2 || base == 8 || base == 10 || base == 16,
            magnitude(digits@, base as int, limit as int, 0) == magnitude(
                digits@.skip(i as int),
                base as int,
                limit as int,
                so_far as int,
            ),
        decreases digits@.len() - i,
    {
        let ghost rest = digits@.skip(i as int);
        assert(rest[0] == digits@[i as int]);
        assert(rest.drop_first() =~= digits@.skip(i + 1));
        match decode_hex(digits[i]) {
            None => {},
            Some(digit) => {
                let shifted = match so_far.checked_mul(base as u128) {
                    Some(shifted) => shifted,
                    None => {
                        return Err(Error::IntegerOutOfBounds);
                    },
                };
                if shifted > limit {
                    return Err(Error::IntegerOutOfBounds);
                }
                if digit >= base {
                    return Err(Error::ExpectedInteger);
                }
                if digit as u128 > limit - shifted {
                    return Err(Error::IntegerOutOfBounds);
                }
                so_far = shifted + digit as u128;
            },
        }
        i = i + 1;
    }
    assert(digits@.skip(i as int).len() == 0);
    Ok(so_far)
}

impl<'a> Bytes<'a> {
    /// Reads a number without a sign, no larger than `limit`.
    pub fn unsigned_integer(&mut self, limit: u128) -> (found: Result<u128, Error>)
        requires
            old(self)@.wf(),
        ensures
            final(self)@.wf(),
            final(self)@ == old(self)@.unsigned_integer(limit as int).0,
            match old(self)@.unsigned_integer(limit as int).1 {
                Ok(value) => found matches Ok(n) && n == value,
                Err(e) => found matches Err(error) && error@ == e,
            },
            found matches Ok(n) ==> n <= limit,
    {
        proof {
            lemma_unsigned_integer(self@, limit as int);
        }
        let base: u8 = if self.peek() == Some('0' as u8) {
            match self.peek_at(1) {
                Some(c) => if c == 'x' as u8 {
                    16
                } else if c == 'b' as u8 {
                    2
                } else if c == 'o' as u8 {
                    8
                } else {
                    10
                },
                None => 10,
            }
        } else {
            10
        };
        if base != 10 {
            self.advance(2);
        }
        let start = self.offset();
        let end = self.run_from(start, CharClass::Int);
        if end == start {
            return Err(Error::ExpectedInteger);
        }
        if self.peek() == Some('_' as u8) {
            return Err(Error::UnderscoreAtBeginning);
        }
        let found = read_magnitude(self.part(start, end), base, limit);
        self.set_offset(end);
        found
    }

    /// Reads a number that may have a sign, from `-lowest` to `highest`.
    pub fn signed_integer(&mut self, lowest: u128, highest: u128) -> (found: Result<i128, Error>)
        requires
            old(self)@.wf(),
            lowest <= 0x8000_0000_0000_0000_0000_0000_0000_0000,
            highest <= i128::MAX,
        ensures
            final(self)@.wf(),
            final(self)@ == old(self)@.signed_integer(lowest as int, highest as int).0,
            match old(self)@.signed_integer(lowest as int, highest as int).1 {
                Ok(value) => found matches Ok(n) && n == value,
                Err(e) => found matches Err(error) && error@ == e,
            },
            found matches Ok(n) ==> -lowest <= n <= highest,
    {
        let first = self.peek_or_eof()?;
        if first == '-' as u8 {
            self.advance(1);
            let value = self.unsigned_integer(lowest)?;
            if value == 0x8000_0000_0000_0000_0000_0000_0000_0000 {
                Ok(i128::MIN)
            } else {
                Ok(-(value as i128))
            }
        } else {
            if first == '+' as u8 {
                self.advance(1);
            }
            let value = self.unsigned_integer(highest)?;
            Ok(value as i128)
        }
    }

    /// Reads `true` or `false`.
    pub fn bool(&mut self) -> (found: Result<bool, Error>)
        requires
            old(self)@.wf(),
        ensures
            final(self)@.wf(),
            (final(self)@, outcome(found)) == old(self)@.bool(),
    {
        proof {
            reveal_strlit("true");
            reveal_strlit("false");
        }
        if self.consume("true") {
            Ok(true)
        } else if self.consume("false") {
            Ok(false)
        } else {
            Err(Error::ExpectedBoolean)
        }
    }

    /// Reads a floating point number: its text, which `f64::from_str` accepts.
    pub fn float(&mut self) -> (found: Result<&'a str, Error>)
        requires
            old(self)@.wf(),
        ensures
            final(self)@.wf(),
            (final(self)@, outcome(found)) == old(self)@.float(),
    {
        proof {
            reveal_strlit("inf");
            reveal_strlit("-inf");
            reveal_strlit("NaN");
            lemma_run_end(self@.input, self@.at, CharClass::Float);
        }
        let start = self.offset();
        if self.consume_ident("inf") || self.consume_ident("NaN") || self.consume_ident("-inf") {
            let text = self.part(start, self.offset());
            assert forall|i: int| 0 <= i < text@.len() implies #[trigger] text@[i] < 0x80 by {
                assert(text@[i] == old(self)@.input[old(self)@.at + i]);
                assert("inf"@[i] as u32 >= 0 && "NaN"@[i] as u32 >= 0 && "-inf"@[i] as u32 >= 0);
            }
            return Ok(ascii_str(text));
        }
        let end = self.run_from(start, CharClass::Float);
        let text = self.part(start, end);
        self.set_offset(end);
        if test_decimal(text) {
            assert forall|i: int| 0 <= i < text@.len() implies #[trigger] text@[i] < 0x80 by {
                assert(CharClass::Float.has(old(self)@.input[start + i]));
            }
            Ok(ascii_str(text))
        } else {
            Err(Error::ExpectedFloat)
        }
    }

    /// Whether what comes next, after a sign, goes on longer as a floating point number than as an
    /// integer.
    pub fn next_bytes_is_float(&self) -> (float: bool)
        requires
            self@.wf(),
        ensures
            float == self@.next_bytes_is_float(),
    {
        match self.peek() {
            None => false,
            Some(c) => {
                let start = if is_sign(c) {
                    self.offset() + 1
                } else {
                    self.offset()
                };
                self.run_from(start, CharClass::Float) > self.run_from(start, CharClass::Int)
            },
        }
    }

    /// Reads a number of any type.
    pub fn any_num(&mut self) -> (found: Result<AnyNum<'a>, Error>)
        requires
            old(self)@.wf(),
        ensures
            final(self)@.wf(),
            (final(self)@, outcome(found)) == old(self)@.any_num(),
    {
        let first = self.peek_or_eof()?;
        let start = self.offset();
        if !self.next_bytes_is_float() {
            if is_sign(first) {
                match self.signed_integer(0x8000_0000_0000_0000_0000_0000_0000_0000, i128::MAX as u128) {
                    Ok(x) => {
                        return Ok(
                            if i8::MIN as i128 <= x && x <= i8::MAX as i128 {
                                AnyNum::I8(x as i8)
                            } else if i16::MIN as i128 <= x && x <= i16::MAX as i128 {
                                AnyNum::I16(x as i16)
                            } else if i32::MIN as i128 <= x && x <= i32::MAX as i128 {
                                AnyNum::I32(x as i32)
                            } else if i64::MIN as i128 <= x && x <= i64::MAX as i128 {
                                AnyNum::I64(x as i64)
                            } else {
                                AnyNum::I128(x)
                            },
                        );
                    },
                    Err(_) => {},
                }
            } else {
                match self.unsigned_integer(u128::MAX) {
                    Ok(x) => {
                        return Ok(
                            if x <= u8::MAX as u128 {
                                AnyNum::U8(x as u8)
                            } else if x <= u16::MAX as u128 {
                                AnyNum::U16(x as u16)
                            } else if x <= u32::MAX as u128 {
                                AnyNum::U32(x as u32)
                            } else if x <= u64::MAX as u128 {
                                AnyNum::U64(x as u64)
                            } else {
                                AnyNum::U128(x)
                            },
                        );
                    },
                    Err(_) => {},
                }
            }
            proof {
                lemma_signed_integer(old(self)@, 0x8000_0000_0000_0000_0000_0000_0000_0000, i128::MAX as int);
                lemma_unsigned_integer(old(self)@, u128::MAX as int);
            }
            self.set_offset(start);
            assert(self@ == old(self)@);
        }
        let text = self.float()?;
        Ok(AnyNum::Float(text))
    }
}

} // verus!
