use ron::de::compound::OptionForm;
use ron::de::list::{CommaSeparated, KeyForm, SingletonMap};
use ron::de::names::{enum_error_name, struct_error_name, tuple_error_name};
use ron::de::newtype::{NewtypeForm, RAW_VALUE_TOKEN};
use ron::de::Deserializer;
use ron::error::{Error, Utf8Error};

fn open(input: &str) -> Deserializer<'_> {
    match Deserializer::from_str(input) {
        Ok(de) => de,
        Err(e) => panic!("{:?}", e),
    }
}

fn missing(outer: Option<&str>) -> Error {
    Error::MissingStructField { field: "x", outer: outer.map(String::from) }
}

#[test]
fn options_in_every_form() {
    let mut de = open("None,");
    assert_eq!(de.deserialize_option(), Ok(OptionForm::Absent));
    assert_eq!(de.remainder(), ",");
    let mut de = open("Some ( 7 )!");
    assert_eq!(de.deserialize_option(), Ok(OptionForm::Enclosed));
    let value = de.deserialize_u8();
    assert_eq!(de.end_option(OptionForm::Enclosed, value), Ok(7));
    assert_eq!(de.remainder(), "!");
    let mut de = open("Some(7, 8)");
    assert_eq!(de.deserialize_option(), Ok(OptionForm::Enclosed));
    let value = de.deserialize_u8();
    assert_eq!(de.end_option(OptionForm::Enclosed, value), Err(Error::ExpectedOptionEnd));
    assert_eq!(open("7").deserialize_option(), Err(Error::ExpectedOption));
}

#[test]
fn wrong_content_of_an_option_stands() {
    let mut de = open(")");
    let wrong: Result<u8, Error> = Err(Error::ExpectedInteger);
    assert_eq!(de.end_option(OptionForm::Enclosed, wrong), Err(Error::ExpectedInteger));
    assert_eq!(de.remainder(), ")");
}

#[test]
fn implicit_options_read_nothing() {
    let mut de = open("#![enable(implicit_some)] 7");
    assert_eq!(de.deserialize_option(), Ok(OptionForm::Bare));
    assert_eq!(de.remainder(), "7");
    assert_eq!(de.end_option(OptionForm::Bare, Ok(7)), Ok(7));
    let mut de = open("#![enable(implicit_some)] Some 7");
    assert_eq!(de.deserialize_option(), Ok(OptionForm::Bare));
    assert_eq!(de.remainder(), "7");
}

#[test]
fn units() {
    assert_eq!(open("()").deserialize_unit(), Ok(()));
    assert_eq!(open("( )").deserialize_unit(), Err(Error::ExpectedUnit));
    assert_eq!(open("Unit").deserialize_unit_struct("Unit"), Ok(()));
    assert_eq!(open("()").deserialize_unit_struct("Unit"), Ok(()));
    assert_eq!(
        open("Other").deserialize_unit_struct("Unit"),
        Err(Error::ExpectedDifferentStructName { expected: "Unit", found: String::from("Other") })
    );
    assert_eq!(open("1").deserialize_unit_struct("Unit"), Err(Error::ExpectedNamedStructLike("Unit")));
    assert_eq!(
        open("Unit-1").deserialize_unit_struct("Unit-1"),
        Err(Error::SuggestRawIdentifier(String::from("Unit-1")))
    );
}

#[test]
fn sequences() {
    let mut de = open("[ 1, 2, ]");
    assert_eq!(de.deserialize_seq(), Ok(()));
    let mut list = CommaSeparated::new(b']');
    assert_eq!(list.next_element_seed(&mut de), Ok(true));
    let one = de.deserialize_u8();
    assert_eq!(list.end_element(&mut de, one), Ok(1));
    assert_eq!(list.next_element_seed(&mut de), Ok(true));
    let two = de.deserialize_u8();
    assert_eq!(list.end_element(&mut de, two), Ok(2));
    assert_eq!(list.next_element_seed(&mut de), Ok(false));
    assert_eq!(de.end_seq(Ok(2)), Ok(2));
    assert_eq!(de.remainder(), "");
    assert_eq!(open("(").deserialize_seq(), Err(Error::ExpectedArray));
}

#[test]
fn sequences_that_do_not_end() {
    assert_eq!(open(", )").end_seq(Ok(())), Err(Error::ExpectedArrayEnd));
    let mut de = open("]");
    assert_eq!(de.end_seq(Err::<(), Error>(Error::Eof)), Err(Error::Eof));
    assert_eq!(de.remainder(), "]");
}

#[test]
fn elements_need_commas_between_them() {
    let mut de = open("1 2]");
    let mut list = CommaSeparated::new(b']');
    let one = de.deserialize_u8();
    assert_eq!(list.end_element(&mut de, one), Ok(1));
    assert_eq!(list, CommaSeparated { terminator: b']', had_comma: false });
    assert_eq!(list.has_element(&mut de), Err(Error::ExpectedComma));
    assert_eq!(CommaSeparated::new(b']').has_element(&mut open(" ]")), Ok(false));
    assert_eq!(CommaSeparated::new(b']').has_element(&mut open(" ")), Err(Error::Eof));
}

#[test]
fn wrong_elements_end_the_list() {
    let mut de = open(", 2");
    let mut list = CommaSeparated::new(b']');
    let wrong: Result<u8, Error> = Err(Error::ExpectedInteger);
    assert_eq!(list.end_element(&mut de, wrong), Err(Error::ExpectedInteger));
    assert_eq!(list, CommaSeparated::new(b']'));
    assert_eq!(de.remainder(), ", 2");
}

#[test]
fn maps() {
    let mut de = open("{ \"a\" : 1 }");
    assert_eq!(de.deserialize_map(), Ok(()));
    let mut list = CommaSeparated::new(b'}');
    assert_eq!(list.next_key_seed(&mut de), Ok(Some(KeyForm::Value)));
    assert!(de.deserialize_str().is_ok());
    assert_eq!(list.next_value_seed(&mut de), Ok(()));
    let value = de.deserialize_u8();
    assert_eq!(list.end_element(&mut de, value), Ok(1));
    assert_eq!(list.next_key_seed(&mut de), Ok(None));
    assert_eq!(de.end_map(Ok(())), Ok(()));
    assert_eq!(open("[").deserialize_map(), Err(Error::ExpectedMap));
    assert_eq!(open("]").end_map(Ok(())), Err(Error::ExpectedMapEnd));
    assert_eq!(list.next_value_seed(&mut open("1")), Err(Error::ExpectedMapColon));
}

#[test]
fn tuples() {
    let mut de = open("(1)");
    assert_eq!(de.deserialize_tuple(1), Ok(true));
    let value = de.deserialize_u8();
    assert_eq!(de.end_tuple(true, value), Ok(1));
    assert_eq!(open("1").deserialize_tuple(1), Err(Error::ExpectedStructLike));
    assert_eq!(open("]").end_tuple(true, Ok(())), Err(Error::ExpectedStructLikeEnd));
    assert_eq!(open("]").end_tuple(false, Ok(())), Ok(()));
}

#[test]
fn tuple_structs() {
    let mut de = open("Pair(1)");
    assert_eq!(de.deserialize_tuple_struct("Pair", 1), Ok(true));
    assert_eq!(de.remainder(), "1)");
    assert_eq!(open("(1)").deserialize_tuple_struct("Pair", 1), Ok(true));
    assert_eq!(
        open("Pair 1").deserialize_tuple_struct("Pair", 1),
        Err(Error::ExpectedNamedStructLike("Pair"))
    );
    assert_eq!(open("1").deserialize_tuple_struct("", 1), Err(Error::ExpectedNamedStructLike("")));
    assert_eq!(open("!").deserialize_tuple_struct("", 1), Err(Error::ExpectedStructLike));
    let inner: Result<(), Error> = Err(Error::ExpectedStructLike);
    assert_eq!(
        open("").end_tuple_struct("Pair", true, inner),
        Err(Error::ExpectedNamedStructLike("Pair"))
    );
    assert_eq!(open(",)").end_tuple_struct("Pair", true, Ok(3)), Ok(3));
}

#[test]
fn structs() {
    let mut de = open("Point ( x: 1 )");
    assert_eq!(de.deserialize_struct("Point"), Ok(true));
    let mut list = CommaSeparated::new(b')');
    assert_eq!(list.next_key_seed(&mut de), Ok(Some(KeyForm::Identifier)));
    assert_eq!(de.deserialize_identifier(), Ok("x"));
    assert_eq!(list.next_value_seed(&mut de), Ok(()));
    let value = de.deserialize_u8();
    assert_eq!(list.end_element(&mut de, value), Ok(1));
    assert_eq!(de.end_struct("Point", true, Ok(1)), Ok(1));
    assert_eq!(open("!").deserialize_struct(""), Err(Error::ExpectedStructLike));
    assert_eq!(open("!").deserialize_struct("P"), Err(Error::ExpectedNamedStructLike("P")));
    assert_eq!(open("!").end_struct("P", true, Ok(())), Err(Error::ExpectedStructLikeEnd));
}

#[test]
fn errors_about_fields_get_the_name_of_the_struct() {
    let wrong = || Err::<(), Error>(missing(None));
    assert_eq!(open("").end_struct("P", true, wrong()), Err(missing(Some("P"))));
    assert_eq!(open("").end_struct("P", false, wrong()), Err(missing(None)));
    assert_eq!(open("").end_struct("", true, wrong()), Err(missing(None)));
}

#[test]
fn names_of_structs() {
    assert_eq!(struct_error_name(missing(None), Some("A")), missing(Some("A")));
    assert_eq!(struct_error_name(missing(Some("A")), Some("B")), missing(Some("A")));
    assert_eq!(struct_error_name(missing(None), None), missing(None));
    assert_eq!(struct_error_name(Error::Eof, Some("A")), Error::Eof);
    let unknown = |outer: Option<String>| Error::NoSuchStructField {
        expected: &["a", "b"],
        found: String::from("c"),
        outer,
    };
    assert_eq!(struct_error_name(unknown(None), Some("A")), unknown(Some(String::from("A"))));
    let twice = |outer: Option<String>| Error::DuplicateStructField { field: "a", outer };
    assert_eq!(struct_error_name(twice(None), Some("A")), twice(Some(String::from("A"))));
}

#[test]
fn names_of_enums_and_tuples() {
    let unknown = |outer: Option<String>| Error::NoSuchEnumVariant {
        expected: &["A"],
        found: String::from("B"),
        outer,
    };
    assert_eq!(enum_error_name(unknown(None), "E"), unknown(Some(String::from("E"))));
    assert_eq!(enum_error_name(unknown(None), ""), unknown(None));
    let named = unknown(Some(String::from("F")));
    assert_eq!(Deserializer::end_enum::<()>("E", Err(named.clone())), Err(named));
    assert_eq!(Deserializer::end_enum("E", Ok(3)), Ok(3));
    assert_eq!(tuple_error_name(Error::ExpectedStructLike, "T"), Error::ExpectedNamedStructLike("T"));
    assert_eq!(tuple_error_name(Error::ExpectedStructLike, ""), Error::ExpectedStructLike);
    assert_eq!(tuple_error_name(Error::Eof, "T"), Error::Eof);
}

#[test]
fn newtype_variants() {
    let mut de = open(" Wrap ( 7 , )");
    de.deserialize_enum();
    assert_eq!(de.variant_seed(), Ok(()));
    assert_eq!(de.deserialize_identifier(), Ok("Wrap"));
    assert_eq!(de.newtype_variant_seed(), Ok(Some("Wrap")));
    let value = de.deserialize_u8();
    assert_eq!(de.end_newtype_variant(Some("Wrap"), value), Ok(7));
    assert_eq!(de.remainder(), "");
    assert_eq!(open("7").newtype_variant_seed(), Err(Error::ExpectedStructLike));
    assert_eq!(
        open("7").end_newtype_variant(Some("Wrap"), Ok(())),
        Err(Error::ExpectedStructLikeEnd)
    );
    assert_eq!(
        open("").end_newtype_variant(Some("Wrap"), Err::<(), Error>(missing(None))),
        Err(missing(Some("Wrap")))
    );
}

#[test]
fn unwrapped_newtype_variants() {
    let head = "#![enable(unwrap_variant_newtypes)] Wrap";
    let text = format!("{}(x: 1)", head);
    let mut de = open(&text);
    assert_eq!(de.deserialize_identifier(), Ok("Wrap"));
    assert_eq!(de.newtype_variant_seed(), Ok(Some("Wrap")));
    assert_eq!(de.deserialize_struct("Inner"), Ok(false));
    assert_eq!(de.remainder(), "x: 1)");
    assert_eq!(de.deserialize_tuple(1), Err(Error::ExpectedStructLike));
    let text = format!("{}(1, 2)", head);
    let mut de = open(&text);
    assert_eq!(de.deserialize_identifier(), Ok("Wrap"));
    assert_eq!(de.newtype_variant_seed(), Ok(Some("Wrap")));
    assert_eq!(de.deserialize_tuple_struct("Inner", 2), Ok(false));
    let text = format!("{}()", head);
    let mut de = open(&text);
    assert_eq!(de.deserialize_identifier(), Ok("Wrap"));
    assert_eq!(de.newtype_variant_seed(), Ok(Some("Wrap")));
    assert_eq!(de.deserialize_unit_struct("Inner"), Ok(()));
    assert_eq!(de.end_newtype_variant(Some("Wrap"), Ok(())), Ok(()));
    assert_eq!(de.remainder(), "");
}

#[test]
fn other_variants() {
    assert_eq!(open(" (1)").tuple_variant(1), Ok(true));
    assert_eq!(open(" 1").tuple_variant(1), Err(Error::ExpectedStructLike));
    let mut de = open("V (x: 1)");
    assert_eq!(de.deserialize_identifier(), Ok("V"));
    assert_eq!(de.struct_variant(), Ok((Some("V"), true)));
    assert_eq!(de.deserialize_identifier(), Ok("x"));
    assert_eq!(
        de.end_struct_variant(Some("V"), true, Err::<(), Error>(missing(None))),
        Err(missing(Some("V")))
    );
    assert_eq!(open(")").end_struct_variant(Some("V"), true, Ok(4)), Ok(4));
    assert_eq!(open("1").struct_variant(), Err(Error::ExpectedStructLike));
}

#[test]
fn newtype_structs() {
    let mut de = open("Meters( 5, )");
    assert_eq!(de.deserialize_newtype_struct("Meters"), Ok(NewtypeForm::Enclosed));
    let value = de.deserialize_u8();
    assert_eq!(de.end_newtype_struct(NewtypeForm::Enclosed, value), Ok(5));
    assert_eq!(de.remainder(), "");
    let mut de = open("#![enable(unwrap_newtypes)] 5");
    assert_eq!(de.deserialize_newtype_struct("Meters"), Ok(NewtypeForm::Bare));
    assert_eq!(de.remainder(), "5");
    assert_eq!(de.end_newtype_struct(NewtypeForm::Bare, Ok(5)), Ok(5));
    assert_eq!(
        open("!").deserialize_newtype_struct("Meters"),
        Err(Error::ExpectedNamedStructLike("Meters"))
    );
    assert_eq!(open("!").deserialize_newtype_struct(""), Err(Error::ExpectedStructLike));
    assert_eq!(
        open("!").end_newtype_struct(NewtypeForm::Enclosed, Ok(5)),
        Err(Error::ExpectedStructLikeEnd)
    );
}

#[test]
fn raw_values_are_the_text_read() {
    let mut de = open("[ ( a: {1: 'x'} ) /* c */ , 2]");
    assert_eq!(de.deserialize_seq(), Ok(()));
    assert_eq!(
        de.deserialize_newtype_struct(RAW_VALUE_TOKEN),
        Ok(NewtypeForm::Raw(" ( a: {1: 'x'} ) /* c */ "))
    );
    assert_eq!(de.remainder(), ", 2]");
    let refused: Result<(), Error> = Err(Error::Eof);
    assert_eq!(
        de.end_newtype_struct(NewtypeForm::Raw(""), refused),
        Err(Error::ExpectedRawValue)
    );
    assert_eq!(open("[1").raw_value(), Err(Error::Eof));
}

#[test]
fn single_entries() {
    let mut map = SingletonMap { key: Some("Wrap".as_bytes()) };
    assert_eq!(map.next_key_seed(), Ok(Some("Wrap")));
    assert_eq!(map.next_key_seed(), Ok(None));
    let mut broken = SingletonMap { key: Some(&[0xff]) };
    assert_eq!(
        broken.next_key_seed(),
        Err(Error::Utf8Error(Utf8Error { valid_up_to: 0, error_len: Some(1) }))
    );
    assert_eq!(broken.next_key_seed(), Ok(None));
    let mut de = open("  ()");
    assert_eq!(map.next_value_seed(&mut de), Ok(false));
    assert_eq!(map.next_value_seed(&mut de), Ok(true));
    assert_eq!(map.end_value(&mut de, false, Ok(3)), Ok(3));
    assert_eq!(map.next_value_seed(&mut de), Ok(false));
}

#[test]
fn finished_lists_close() {
    let mut de = open("[ /* none */ ],");
    assert_eq!(de.deserialize_seq(), Ok(()));
    assert_eq!(CommaSeparated::new(b']').has_element(&mut de), Ok(false));
    assert_eq!(de.remainder(), "],");
    assert_eq!(de.end_seq(Ok(0)), Ok(0));
    assert_eq!(de.remainder(), ",");
}

#[test]
fn variants_keep_their_name_while_options_are_read() {
    let mut de = open("Variant(Some( 1 ))");
    assert_eq!(de.deserialize_identifier(), Ok("Variant"));
    assert_eq!(de.newtype_variant_seed(), Ok(Some("Variant")));
    assert_eq!(de.deserialize_option(), Ok(OptionForm::Enclosed));
    let value = de.deserialize_u8();
    assert_eq!(de.end_option(OptionForm::Enclosed, value), Ok(1));
    assert_eq!(de.end_newtype_variant(Some("Variant"), Ok(1)), Ok(1));
    assert_eq!(open("").newtype_variant_seed(), Err(Error::ExpectedStructLike));
}
