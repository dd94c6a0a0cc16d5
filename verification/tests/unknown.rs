use ron::de::any::Event;
use ron::de::compound::OptionForm;
use ron::de::list::SingletonMap;
use ron::de::Deserializer;
use ron::error::Error;
use ron::parse::literal::ParsedStr;
use ron::parse::number::AnyNum;

fn open(input: &str) -> Deserializer<'_> {
    match Deserializer::from_str(input) {
        Ok(de) => de,
        Err(e) => panic!("{:?}", e),
    }
}

fn found(input: &str) -> Result<Event<'_>, Error> {
    open(input).deserialize_any()
}

fn over(input: &str) -> (Result<(), Error>, String) {
    let mut de = open(input);
    let done = de.ignore_any();
    (done, de.remainder().into_owned())
}

fn reads_over(input: &str, rest: &str) {
    assert_eq!(over(input), (Ok(()), String::from(rest)), "{}", input);
}

fn stops(input: &str, error: Error) {
    assert_eq!(over(input).0, Err(error), "{}", input);
}

#[test]
fn scalars_of_unknown_type() {
    assert_eq!(found("true"), Ok(Event::Bool(true)));
    assert_eq!(found("false"), Ok(Event::Bool(false)));
    assert_eq!(found("None"), Ok(Event::Option(OptionForm::Absent)));
    assert_eq!(found("()"), Ok(Event::Unit));
    assert_eq!(found("inf"), Ok(Event::Infinity));
    assert_eq!(found("-inf"), Ok(Event::NegInfinity));
    assert_eq!(found("NaN"), Ok(Event::NotANumber));
    assert_eq!(found("-7"), Ok(Event::Num(AnyNum::I8(-7))));
    assert_eq!(found(".5"), Ok(Event::Float(".5")));
    assert_eq!(found("'x'"), Ok(Event::Char('x')));
    assert_eq!(found("\"x\""), Ok(Event::Str(ParsedStr::Slice("x"))));
    assert_eq!(found("r\"x\""), Ok(Event::Str(ParsedStr::Slice("x"))));
    assert_eq!(found("Name"), Ok(Event::Name("Name")));
    assert_eq!(found("truer"), Ok(Event::Name("truer")));
}

#[test]
fn compounds_of_unknown_type() {
    assert_eq!(found("Some(1)"), Ok(Event::Option(OptionForm::Enclosed)));
    assert_eq!(found("Some 1"), Err(Error::ExpectedOption));
    assert_eq!(found("[1]"), Ok(Event::Sequence));
    assert_eq!(found("{1: 2}"), Ok(Event::Mapping));
    assert_eq!(found("(a: 1)"), Ok(Event::Struct));
    assert_eq!(found("(1)"), Ok(Event::Tuple));
    assert_eq!(found("(a)"), Ok(Event::Tuple));
    assert_eq!(
        found("Name (1)"),
        Ok(Event::Singleton(SingletonMap { key: Some("Name".as_bytes()) }))
    );
}

#[test]
fn values_that_are_none() {
    assert_eq!(found(""), Err(Error::Eof));
    assert_eq!(found("!"), Err(Error::UnexpectedByte('!')));
    assert_eq!(found("("), Ok(Event::Tuple));
    assert_eq!(found("(/"), Err(Error::Eof));
}

#[test]
fn parentheses_of_a_newtype() {
    let inside = |text: &'static str| {
        let mut de = open(text);
        let map = SingletonMap { key: None };
        assert_eq!(map.next_value_seed(&mut de), Ok(false));
        let event = de.deserialize_any();
        (event, de.remainder().into_owned())
    };
    assert_eq!(inside("( 1 )"), (Ok(Event::Newtype), String::from("1 )")));
    assert_eq!(inside("(1, 2)"), (Ok(Event::Tuple), String::from("1, 2)")));
    assert_eq!(inside("([1, 2])"), (Ok(Event::Newtype), String::from("[1, 2])")));
    assert_eq!(inside("(a: 1)"), (Ok(Event::Struct), String::from("a: 1)")));
    assert_eq!(inside("(1"), (Err(Error::Eof), String::from("(1")));
}

#[test]
fn space_in_parentheses_is_a_unit() {
    for text in ["( )", "(/* c */)", "(\n// c\n)", "()"] {
        let mut de = open(text);
        assert_eq!(de.deserialize_any(), Ok(Event::Unit), "{}", text);
        assert_eq!(de.remainder(), "");
        if text != "()" {
            let mut de = open(text);
            assert_eq!(de.handle_any_struct(), Ok(Event::Unit), "{}", text);
            assert_eq!(de.remainder(), "");
        }
        reads_over(text, "");
    }
    assert_eq!(open("( )").deserialize_unit(), Err(Error::ExpectedUnit));
    assert_eq!(found("(/* c"), Err(Error::UnclosedBlockComment));
    assert_eq!(found("( , )"), Ok(Event::Tuple));
}

#[test]
fn space_in_the_parentheses_of_a_name_is_a_unit() {
    for text in ["A( )", "A ( /* c */ )", "A()"] {
        let mut de = open(text);
        let map = SingletonMap { key: Some("A".as_bytes()) };
        assert_eq!(de.deserialize_any(), Ok(Event::Singleton(map)), "{}", text);
        assert_eq!(map.next_value_seed(&mut de), Ok(false));
        assert_eq!(de.deserialize_any(), Ok(Event::Unit), "{}", text);
        assert_eq!(de.remainder(), "");
        reads_over(text, "");
    }
}

#[test]
fn newtypes_end_without_a_parenthesis() {
    let mut de = open(" ) rest");
    assert_eq!(de.end_any_newtype(Ok(1)), Ok(1));
    assert_eq!(de.remainder(), " rest");
    let mut de = open(" rest");
    assert_eq!(de.end_any_newtype(Ok(1)), Ok(1));
    assert_eq!(de.remainder(), "rest");
    let mut de = open("1 /* open");
    assert_eq!(de.deserialize_u8(), Ok(1));
    let wrong: Result<u8, Error> = Err(Error::Eof);
    assert_eq!(de.end_any_newtype(wrong), Err(Error::UnclosedBlockComment));
}

#[test]
fn reads_over_values() {
    reads_over("true, x", ", x");
    reads_over("[1, [2, 3], ()] x", " x");
    reads_over("{\"a\": 1, 'b': [2,],} x", " x");
    reads_over("(a: 1, b: Some(Name(2)),) x", " x");
    reads_over("(1, \"two\", 'c') x", " x");
    reads_over("Name(a: 1) x", " x");
    reads_over("Name(1, 2) x", " x");
    reads_over("Name((1)) x", " x");
    reads_over("Name x", "x");
    reads_over("Some(Some(None)) x", " x");
    reads_over("#![enable(implicit_some)] Some [1] x", " x");
    reads_over("[]", "");
    reads_over("{}", "");
}

#[test]
fn stops_at_what_is_no_value() {
    stops("", Error::Eof);
    stops("[1 2]", Error::ExpectedComma);
    stops("[1, 2", Error::Eof);
    stops("{1 2}", Error::ExpectedMapColon);
    stops("(a: 1, \"b\": 2)", Error::ExpectedIdentifier);
    stops("(a: 1, 2)", Error::SuggestRawIdentifier(String::from("2")));
    stops("Some(1 2)", Error::ExpectedOptionEnd);
    stops("[!]", Error::UnexpectedByte('!'));
    stops("\"open", Error::ExpectedStringEnd);
}

#[test]
fn reading_over_leaves_newtypes_as_they_were() {
    let mut de = open("Name((1)) (2)");
    assert_eq!(de.ignore_any(), Ok(()));
    assert_eq!(de.end(), Err(Error::TrailingCharacters));
    assert_eq!(de.deserialize_any(), Ok(Event::Tuple));
    let mut de = open("Name((!)) (2)");
    assert_eq!(de.ignore_any(), Err(Error::UnexpectedByte('!')));
    let map = SingletonMap { key: None };
    assert_eq!(map.next_value_seed(&mut de), Ok(false));
}

#[test]
fn ignored_values_are_any_values() {
    assert_eq!(open("[1]").deserialize_ignored_any(), Ok(Event::Sequence));
    assert_eq!(open("7").deserialize_ignored_any(), Ok(Event::Num(AnyNum::U8(7))));
}

#[test]
fn unknown_types_read_as_the_type_found() {
    for text in ["[1]", "[ ]"] {
        let mut any = open(text);
        let mut typed = open(text);
        assert_eq!(any.deserialize_any(), Ok(Event::Sequence));
        assert_eq!(typed.deserialize_seq(), Ok(()));
        assert_eq!(any.remainder(), typed.remainder());
    }
    let mut any = open("Some(4)");
    let mut typed = open("Some(4)");
    assert_eq!(any.deserialize_any(), Ok(Event::Option(OptionForm::Enclosed)));
    assert_eq!(typed.deserialize_option(), Ok(OptionForm::Enclosed));
    assert_eq!(any.remainder(), typed.remainder());
}
