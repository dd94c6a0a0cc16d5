use ron::de::Deserializer;
use ron::error::{Error, Position, SpannedError};
use ron::extensions::Extensions;
use ron::options::Options;
use std::borrow::Cow;

fn open(input: &str) -> Deserializer<'_> {
    match Deserializer::from_str(input) {
        Ok(de) => de,
        Err(e) => panic!("{:?}", e),
    }
}

fn refused(input: &str) -> SpannedError {
    match Deserializer::from_str(input) {
        Ok(_) => panic!("opened"),
        Err(e) => e,
    }
}

fn at(line: usize, col: usize) -> Position {
    Position { line, col }
}

#[test]
fn opens_at_the_value() {
    assert_eq!(open("  // note\n /* a /* b */ c */ 17 ").remainder(), "17 ");
}

#[test]
fn opens_after_attributes() {
    let de = open("#![enable(implicit_some)]\n# ! [ enable ( unwrap_newtypes , ) ]  7");
    assert_eq!(de.remainder(), "7");
}

#[test]
fn attributes_switch_extensions_on() {
    let mut de = open("#![enable(implicit_some, unwrap_variant_newtypes)] 7");
    assert_eq!(de.deserialize_option(), Ok(ron::de::compound::OptionForm::Bare));
    let mut de = open("7");
    assert_eq!(de.deserialize_option(), Err(Error::ExpectedOption));
}

#[test]
fn options_switch_extensions_on() {
    let implicit = Extensions { implicit_some: true, ..Extensions::empty() };
    let options = Options::default().with_default_extension(implicit);
    for opened in [
        Deserializer::from_str_with_options("7", options),
        Deserializer::from_bytes_with_options("7".as_bytes(), options),
    ] {
        match opened {
            Ok(mut de) => {
                assert_eq!(de.deserialize_option(), Ok(ron::de::compound::OptionForm::Bare));
            }
            Err(e) => panic!("{:?}", e),
        }
    }
}

#[test]
fn unknown_extension() {
    let e = refused("#![enable(magic)] 7");
    assert_eq!(e.code, Error::NoSuchExtension(String::from("magic")));
    assert_eq!(e.position, at(1, 16));
}

#[test]
fn extensions_without_comma() {
    assert_eq!(refused("#![enable(implicit_some unwrap_newtypes)]").code, Error::ExpectedComma);
}

#[test]
fn broken_attributes() {
    assert_eq!(refused("#enable").code, Error::ExpectedAttribute);
    assert_eq!(refused("#![enable(implicit_some]").code, Error::ExpectedAttributeEnd);
}

#[test]
fn broken_comments() {
    let e = refused("\n\n /* open");
    assert_eq!(e.code, Error::UnclosedBlockComment);
    assert_eq!(e.position, at(3, 9));
    assert_eq!(refused("/").code, Error::Eof);
    assert_eq!(refused("/x").code, Error::UnexpectedByte('x'));
}

#[test]
fn remainder_of_text_is_borrowed() {
    match Deserializer::from_bytes("\u{e9}t\u{e9}".as_bytes()) {
        Ok(de) => match de.remainder() {
            Cow::Borrowed(text) => assert_eq!(text, "\u{e9}t\u{e9}"),
            Cow::Owned(_) => panic!("owned"),
        },
        Err(e) => panic!("{:?}", e),
    }
}

#[test]
fn remainder_of_other_bytes_is_replaced() {
    match Deserializer::from_bytes(&[0x41, 0xff, 0x42]) {
        Ok(de) => match de.remainder() {
            Cow::Owned(text) => assert_eq!(text, "A\u{fffd}B"),
            Cow::Borrowed(_) => panic!("borrowed"),
        },
        Err(e) => panic!("{:?}", e),
    }
}

#[test]
fn each_ill_formed_sequence_is_replaced_once() {
    let rest = |bytes: &[u8]| match Deserializer::from_bytes(bytes) {
        Ok(de) => de.remainder().into_owned(),
        Err(e) => panic!("{:?}", e),
    };
    assert_eq!(rest(&[0xff]), "\u{fffd}");
    assert_eq!(rest(&[0xff, 0xfe, 0x41]), "\u{fffd}\u{fffd}A");
    assert_eq!(rest(&[0x41, 0xe2, 0x82]), "A\u{fffd}");
    assert_eq!(rest(&[0xf0, 0x90, 0x41]), "\u{fffd}A");
}

#[test]
fn end_repeats_its_answer() {
    let mut de = open("true x");
    assert_eq!(de.deserialize_bool(), Ok(true));
    for _ in 0..2 {
        assert_eq!(de.end(), Err(Error::TrailingCharacters));
        assert_eq!(de.remainder(), "x");
    }
}

#[test]
fn span_error_names_the_place() {
    let mut de = open("true\n  false");
    assert_eq!(de.deserialize_bool(), Ok(true));
    assert_eq!(de.span_error(Error::Eof), SpannedError { code: Error::Eof, position: at(1, 5) });
    assert_eq!(de.end(), Err(Error::TrailingCharacters));
    assert_eq!(de.span_error(Error::Eof).position, at(2, 3));
}

#[test]
fn end_allows_space_only() {
    let mut de = open("true /* done */ // really\n");
    assert_eq!(de.deserialize_bool(), Ok(true));
    assert_eq!(de.end(), Ok(()));
    assert_eq!(de.end(), Ok(()));
    assert_eq!(de.remainder(), "");
}

#[test]
fn end_reports_broken_comments() {
    let mut de = open("true /* done");
    assert_eq!(de.deserialize_bool(), Ok(true));
    assert_eq!(de.end(), Err(Error::UnclosedBlockComment));
}

#[test]
fn finish_spans_errors() {
    let mut de = open("true x");
    let read = de.deserialize_bool();
    assert_eq!(
        de.finish(read),
        Err(SpannedError { code: Error::TrailingCharacters, position: at(1, 6) })
    );
    let mut de = open(" maybe");
    let read = de.deserialize_bool();
    assert_eq!(
        de.finish(read),
        Err(SpannedError { code: Error::ExpectedBoolean, position: at(1, 2) })
    );
    let mut de = open("false ");
    let read = de.deserialize_bool();
    assert_eq!(de.finish(read), Ok(false));
}

#[test]
fn opening_twice_gives_the_same() {
    let text = "#![enable(unwrap_newtypes)] /* a */ Some(1)";
    assert_eq!(open(text).remainder(), open(text).remainder());
    assert_eq!(refused("#![enable(x)]"), refused("#![enable(x)]"));
}

#[test]
fn options_do_not_move_the_start() {
    let all = Extensions {
        unwrap_newtypes: true,
        implicit_some: true,
        unwrap_variant_newtypes: true,
    };
    match Deserializer::from_str_with_options(" x", Options { default_extensions: all }) {
        Ok(de) => assert_eq!(de.remainder(), open(" x").remainder()),
        Err(e) => panic!("{:?}", e),
    }
}
