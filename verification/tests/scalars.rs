use ron::de::scalar::byte_buf_from;
use ron::de::Deserializer;
use ron::error::{Base64Error, Error, Utf8Error};
use ron::parse::literal::ParsedStr;
use ron::parse::number::AnyNum;
use ron::parse::{Bytes, CharClass};

fn open(input: &str) -> Deserializer<'_> {
    match Deserializer::from_str(input) {
        Ok(de) => de,
        Err(e) => panic!("{:?}", e),
    }
}

fn number(input: &str) -> Result<AnyNum<'_>, Error> {
    Bytes::start(input.as_bytes()).any_num()
}

#[test]
fn booleans() {
    assert_eq!(open("true").deserialize_bool(), Ok(true));
    assert_eq!(open("false").deserialize_bool(), Ok(false));
    assert_eq!(open("yes").deserialize_bool(), Err(Error::ExpectedBoolean));
}

#[test]
fn signed_integers_at_their_limits() {
    assert_eq!(open("-128").deserialize_i8(), Ok(-128));
    assert_eq!(open("+127").deserialize_i8(), Ok(127));
    assert_eq!(open("128").deserialize_i8(), Err(Error::IntegerOutOfBounds));
    assert_eq!(open("-129").deserialize_i8(), Err(Error::IntegerOutOfBounds));
    assert_eq!(open("-32768").deserialize_i16(), Ok(i16::MIN));
    assert_eq!(open("2147483647").deserialize_i32(), Ok(i32::MAX));
    assert_eq!(open("-0x8000000000000000").deserialize_i64(), Ok(i64::MIN));
    assert_eq!(
        open("-170141183460469231731687303715884105728").deserialize_i128(),
        Ok(i128::MIN)
    );
    assert_eq!(
        open("170141183460469231731687303715884105728").deserialize_i128(),
        Err(Error::IntegerOutOfBounds)
    );
    assert_eq!(open("").deserialize_i8(), Err(Error::Eof));
}

#[test]
fn unsigned_integers_at_their_limits() {
    assert_eq!(open("255").deserialize_u8(), Ok(255));
    assert_eq!(open("256").deserialize_u8(), Err(Error::IntegerOutOfBounds));
    assert_eq!(open("65535").deserialize_u16(), Ok(u16::MAX));
    assert_eq!(open("0xffff_ffff").deserialize_u32(), Ok(u32::MAX));
    assert_eq!(open("18446744073709551615").deserialize_u64(), Ok(u64::MAX));
    assert_eq!(
        open("340282366920938463463374607431768211455").deserialize_u128(),
        Ok(u128::MAX)
    );
    assert_eq!(
        open("340282366920938463463374607431768211456").deserialize_u128(),
        Err(Error::IntegerOutOfBounds)
    );
}

#[test]
fn integers_in_other_bases() {
    assert_eq!(open("0b1010").deserialize_u8(), Ok(10));
    assert_eq!(open("0o17").deserialize_u8(), Ok(15));
    assert_eq!(open("0xFf").deserialize_u8(), Ok(255));
    assert_eq!(open("0b12").deserialize_u8(), Err(Error::ExpectedInteger));
    assert_eq!(open("0x").deserialize_u8(), Err(Error::ExpectedInteger));
}

#[test]
fn underscores_in_integers() {
    assert_eq!(open("1_0").deserialize_u8(), Ok(10));
    assert_eq!(open("_10").deserialize_u8(), Err(Error::UnderscoreAtBeginning));
    assert_eq!(open("-10").deserialize_u8(), Err(Error::ExpectedInteger));
}

#[test]
fn floats_are_texts() {
    assert_eq!(open("1.5e-3,").deserialize_f64(), Ok("1.5e-3"));
    assert_eq!(open("-inf").deserialize_f64(), Ok("-inf"));
    assert_eq!(open("NaN").deserialize_f32(), Ok("NaN"));
    assert_eq!(open(".5").deserialize_f32(), Ok(".5"));
    assert_eq!(open("1e").deserialize_f64(), Err(Error::ExpectedFloat));
    assert_eq!(open(".").deserialize_f64(), Err(Error::ExpectedFloat));
    assert_eq!(open("1.2.3").deserialize_f64(), Err(Error::ExpectedFloat));
}

#[test]
fn accepted_floats_are_those_that_std_reads() {
    let parts = ["", "1", "+", "-", ".", "e", "E", "07", "e-", "e+3", "1.", ".2", "-.", "+1"];
    for a in parts {
        for b in parts {
            for c in parts {
                let text = format!("{}{}{}", a, b, c);
                let read = Bytes::start(text.as_bytes()).float();
                match text.parse::<f64>() {
                    Ok(_) => assert_eq!(read, Ok(text.as_str())),
                    Err(_) => assert_eq!(read, Err(Error::ExpectedFloat)),
                }
            }
        }
    }
}

#[test]
fn numbers_take_the_smallest_type() {
    assert_eq!(number("7"), Ok(AnyNum::U8(7)));
    assert_eq!(number("300"), Ok(AnyNum::U16(300)));
    assert_eq!(number("70000"), Ok(AnyNum::U32(70000)));
    assert_eq!(number("5000000000"), Ok(AnyNum::U64(5000000000)));
    assert_eq!(number("18446744073709551616"), Ok(AnyNum::U128(18446744073709551616)));
    assert_eq!(number("-7"), Ok(AnyNum::I8(-7)));
    assert_eq!(number("+200"), Ok(AnyNum::I16(200)));
    assert_eq!(number("-70000"), Ok(AnyNum::I32(-70000)));
    assert_eq!(number("-5000000000"), Ok(AnyNum::I64(-5000000000)));
    assert_eq!(number("-18446744073709551616"), Ok(AnyNum::I128(-18446744073709551616)));
    assert_eq!(number("1.25"), Ok(AnyNum::Float("1.25")));
    assert_eq!(number("-1e3"), Ok(AnyNum::Float("-1e3")));
    assert_eq!(
        number("340282366920938463463374607431768211456"),
        Ok(AnyNum::Float("340282366920938463463374607431768211456"))
    );
    assert_eq!(number(""), Err(Error::Eof));
}

#[test]
fn characters() {
    assert_eq!(open("'a'").deserialize_char(), Ok('a'));
    assert_eq!(open("'\u{1f600}'").deserialize_char(), Ok('\u{1f600}'));
    assert_eq!(open("'\\n'").deserialize_char(), Ok('\n'));
    assert_eq!(open("'\\''").deserialize_char(), Ok('\''));
    assert_eq!(open("'\\x41'").deserialize_char(), Ok('A'));
    assert_eq!(open("'\\u{e9}'").deserialize_char(), Ok('\u{e9}'));
    assert_eq!(open("'ab'").deserialize_char(), Err(Error::ExpectedChar));
    assert_eq!(open("''").deserialize_char(), Err(Error::ExpectedChar));
    assert_eq!(open("a").deserialize_char(), Err(Error::ExpectedChar));
    assert_eq!(open("'").deserialize_char(), Err(Error::Eof));
}

#[test]
fn escapes_that_are_none() {
    let escape = |text: &str| open(text).deserialize_char();
    assert_eq!(escape("'\\q'"), Err(Error::InvalidEscape("Unknown escape character")));
    assert_eq!(escape("'\\xg0'"), Err(Error::InvalidEscape("Non-hex digit found")));
    assert_eq!(escape("'\\u41'"), Err(Error::InvalidEscape("Missing { in Unicode escape")));
    assert_eq!(
        escape("'\\u{}'"),
        Err(Error::InvalidEscape("Expected 1-6 digits, got 0 digits in Unicode escape"))
    );
    assert_eq!(
        escape("'\\u{1234567}'"),
        Err(Error::InvalidEscape("No } at the end of Unicode escape"))
    );
    assert_eq!(escape("'\\u{d800}'"), Err(Error::InvalidEscape("Not a valid char")));
    assert_eq!(escape("'\\u{10ffff}'"), Ok('\u{10ffff}'));
    assert_eq!(escape("'\\"), Err(Error::Eof));
}

#[test]
fn strings_borrow_where_they_can() {
    assert_eq!(open("\"caf\u{e9}\"").deserialize_str(), Ok(ParsedStr::Slice("caf\u{e9}")));
    assert_eq!(
        open("\"a\\tb\\u{1f600}c\\\\\"").deserialize_string(),
        Ok(ParsedStr::Allocated(String::from("a\tb\u{1f600}c\\")))
    );
    assert_eq!(open("r\"a\\tb\"").deserialize_str(), Ok(ParsedStr::Slice("a\\tb")));
    assert_eq!(open("r##\"a\"#b\"##").deserialize_str(), Ok(ParsedStr::Slice("a\"#b")));
}

#[test]
fn strings_that_are_none() {
    assert_eq!(open("a").deserialize_str(), Err(Error::ExpectedString));
    assert_eq!(open("r#a").deserialize_str(), Err(Error::ExpectedString));
    assert_eq!(open("\"a").deserialize_str(), Err(Error::ExpectedStringEnd));
    assert_eq!(open("r#\"a\"").deserialize_str(), Err(Error::ExpectedStringEnd));
    assert_eq!(open("\"a\\n").deserialize_str(), Err(Error::Eof));
}

#[test]
fn strings_that_are_no_text() {
    match Deserializer::from_bytes(&[b'"', b'a', 0xc3, b'"']) {
        Ok(mut de) => assert_eq!(
            de.deserialize_str(),
            Err(Error::Utf8Error(Utf8Error { valid_up_to: 1, error_len: None }))
        ),
        Err(e) => panic!("{:?}", e),
    }
    match Deserializer::from_bytes(&[b'"', b'a', b'b', 0xff, b'c', b'"']) {
        Ok(mut de) => assert_eq!(
            de.deserialize_str(),
            Err(Error::Utf8Error(Utf8Error { valid_up_to: 2, error_len: Some(1) }))
        ),
        Err(e) => panic!("{:?}", e),
    }
}

#[test]
fn byte_buffers_are_base64() {
    assert_eq!(open("\"aGVsbG8=\"").deserialize_byte_buf(), Ok(b"hello".to_vec()));
    assert_eq!(open("\"aGVs\\u{62}G8=\" ").deserialize_bytes(), Ok(b"hello".to_vec()));
    assert_eq!(open("7").deserialize_bytes(), Err(Error::ExpectedString));
    assert_eq!(
        open("\"a!==\"").deserialize_byte_buf(),
        Err(Error::Base64Error(Base64Error::InvalidByte(1, b'!')))
    );
    assert_eq!(
        open("\"aGVsb\"").deserialize_byte_buf(),
        Err(Error::Base64Error(Base64Error::InvalidLength))
    );
    assert_eq!(
        open("\"aGVsbG9=\"").deserialize_byte_buf(),
        Err(Error::Base64Error(Base64Error::InvalidLastSymbol(6, b'9')))
    );
}

#[test]
fn decoded_buffers_are_handed_on() {
    assert_eq!(byte_buf_from(Ok(vec![1, 2])), Ok(vec![1, 2]));
    assert_eq!(
        byte_buf_from(Err(Base64Error::InvalidLength)),
        Err(Error::Base64Error(Base64Error::InvalidLength))
    );
}

#[test]
fn identifiers() {
    let mut de = open("name_1 : r#a.b-c");
    assert_eq!(de.deserialize_identifier(), Ok("name_1"));
    assert_eq!(de.remainder(), " : r#a.b-c");
    assert_eq!(open("r#a.b-c,").deserialize_identifier(), Ok("a.b-c"));
    assert_eq!(open("").deserialize_identifier(), Err(Error::Eof));
    assert_eq!(open("\"a\"").deserialize_identifier(), Err(Error::ExpectedIdentifier));
}

#[test]
fn missing_identifiers_read_nothing() {
    let mut de = open("a-b");
    assert_eq!(
        de.deserialize_identifier(),
        Err(Error::SuggestRawIdentifier(String::from("a-b")))
    );
    assert_eq!(de.remainder(), "a-b");
    let mut de = open("r\"text\"");
    assert_eq!(de.deserialize_identifier(), Err(Error::ExpectedIdentifier));
    assert_eq!(de.remainder(), "r\"text\"");
}

#[test]
fn classes_of_bytes() {
    assert!(CharClass::IdentRaw.contains(b'-'));
    assert!(!CharClass::IdentOther.contains(b'-'));
    assert!(CharClass::IdentOther.contains(b'9'));
    assert!(!CharClass::IdentFirst.contains(b'9'));
    assert!(CharClass::Float.contains(b'+'));
    assert!(!CharClass::Int.contains(b'g'));
}

#[test]
fn integers_are_the_numbers_their_digits_stand_for() {
    assert_eq!(open("1_2_3").deserialize_u16(), Ok(1 * 100 + 2 * 10 + 3));
    assert_eq!(open("0x1f_f").deserialize_u16(), Ok(1 * 256 + 15 * 16 + 15));
    assert_eq!(open("0000000000000000000255").deserialize_u8(), Ok(255));
    assert_eq!(open("0000000000000000000256").deserialize_u8(), Err(Error::IntegerOutOfBounds));
    assert_eq!(open("0o8").deserialize_u8(), Err(Error::ExpectedInteger));
}

#[test]
fn scalars_are_read_over() {
    let mut de = open("true,");
    assert_eq!(de.deserialize_bool(), Ok(true));
    assert_eq!(de.remainder(), ",");
    let mut de = open("-12,");
    assert_eq!(de.deserialize_i8(), Ok(-12));
    assert_eq!(de.remainder(), ",");
    let mut de = open("\"aGk=\",");
    assert_eq!(de.deserialize_byte_buf(), Ok(b"hi".to_vec()));
    assert_eq!(de.remainder(), ",");
}
