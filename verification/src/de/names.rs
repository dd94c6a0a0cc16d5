//! Naming the struct or enum that an error is about.
use vstd::prelude::*;
use crate::error::{borrowed_text, owned_text, Error, ErrorView};

verus! {

/// An error about a field, with the name of the struct it belongs to where it has none yet.
pub open spec fn with_struct_name(error: ErrorView, name: Option<Seq<char>>) -> ErrorView {
    match error {
        ErrorView::NoSuchStructField { expected, found, outer: None } =>
            ErrorView::NoSuchStructField { expected, found, outer: name },
        ErrorView::MissingStructField { field, outer: None } => ErrorView::MissingStructField {
            field,
            outer: name,
        },
        ErrorView::DuplicateStructField { field, outer: None } =>
            ErrorView::DuplicateStructField { field, outer: name },
        other => other,
    }
}

/// An error about a variant, with the name of the enum it belongs to where it has none yet.
pub open spec fn with_enum_name(error: ErrorView, name: Seq<char>) -> ErrorView {
    match error {
        ErrorView::NoSuchEnumVariant { expected, found, outer: None } => if name.len() > 0 {
            ErrorView::NoSuchEnumVariant { expected, found, outer: Some(name) }
        } else {
            error
        },
        other => other,
    }
}

/// An error about a missing tuple struct, with its name where it has one.
pub open spec fn with_tuple_name(error: ErrorView, name: Seq<char>) -> ErrorView {
    if error == ErrorView::ExpectedStructLike && name.len() > 0 {
        ErrorView::ExpectedNamedStructLike(name)
    } else {
        error
    }
}

/// The name of a struct, where it has one.
pub open spec fn name_if_any(name: Seq<char>) -> Option<Seq<char>> {
    if name.len() > 0 {
        Some(name)
    } else {
        None
    }
}

/// An owned copy of a name.
fn owned_name(name: Option<&str>) -> (owned: Option<String>)
    ensures
        owned_text(owned) == borrowed_text(name),
{
    match name {
        Some(text) => Some(text.to_owned()),
        None => None,
    }
}

/// Gives an error about a field the name of the struct that the field belongs to. An error that has
/// a name keeps it.
pub fn struct_error_name(error: Error, name: Option<&str>) -> (named: Error)
    ensures
        named@ == with_struct_name(error@, borrowed_text(name)),
{
    match error {
        Error::NoSuchStructField { expected, found, outer: None } => Error::NoSuchStructField {
            expected,
            found,
            outer: owned_name(name),
        },
        Error::MissingStructField { field, outer: None } => Error::MissingStructField {
            field,
            outer: owned_name(name),
        },
        Error::DuplicateStructField { field, outer: None } => Error::DuplicateStructField {
            field,
            outer: owned_name(name),
        },
        other => other,
    }
}

/// Gives an error about a variant the name of the enum that the variant is missing from. An error
/// that has a name keeps it.
pub fn enum_error_name(error: Error, name: &str) -> (named: Error)
    ensures
        named@ == with_enum_name(error@, name@),
{
    match error {
        Error::NoSuchEnumVariant { expected, found, outer: None } => if name.is_empty() {
            Error::NoSuchEnumVariant { expected, found, outer: None }
        } else {
            Error::NoSuchEnumVariant { expected, found, outer: Some(name.to_owned()) }
        },
        other => other,
    }
}

/// Gives an error about a missing tuple struct the struct's name.
pub fn tuple_error_name(error: Error, name: &'static str) -> (named: Error)
    ensures
        named@ == with_tuple_name(error@, name@),
{
    match error {
        Error::ExpectedStructLike => if name.is_empty() {
            Error::ExpectedStructLike
        } else {
            Error::ExpectedNamedStructLike(name)
        },
        other => other,
    }
}

/// An error about a field gets the name that was given, unless it has one, and stays the same
/// otherwise. Other errors stay as they are.
pub proof fn law_struct_name_is_given(error: ErrorView, name: Option<Seq<char>>)
    ensures
        match error {
            ErrorView::NoSuchStructField { expected, found, outer } => with_struct_name(error, name)
                == (ErrorView::NoSuchStructField {
                expected,
                found,
                outer: if outer is Some {
                    outer
                } else {
                    name
                },
            }),
            ErrorView::MissingStructField { field, outer } => with_struct_name(error, name) == (
            ErrorView::MissingStructField {
                field,
                outer: if outer is Some {
                    outer
                } else {
                    name
                },
            }),
            ErrorView::DuplicateStructField { field, outer } => with_struct_name(error, name) == (
            ErrorView::DuplicateStructField {
                field,
                outer: if outer is Some {
                    outer
                } else {
                    name
                },
            }),
            _ => with_struct_name(error, name) == error,
        },
{
}

/// An error about a variant gets the name that was given, unless it has one or the name is empty,
/// and stays the same otherwise. Other errors stay as they are.
pub proof fn law_enum_name_is_given(error: ErrorView, name: Seq<char>)
    ensures
        match error {
            ErrorView::NoSuchEnumVariant { expected, found, outer } => with_enum_name(error, name)
                == (ErrorView::NoSuchEnumVariant {
                expected,
                found,
                outer: if outer is Some || name == Seq::<char>::empty() {
                    outer
                } else {
                    Some(name)
                },
            }),
            _ => with_enum_name(error, name) == error,
        },
{
    if name.len() == 0 {
        assert(name =~= Seq::<char>::empty());
    }
}

/// An error about a missing tuple gets the name of the tuple struct, if it has one. Other errors stay
/// as they are.
pub proof fn law_tuple_name_is_given(error: ErrorView, name: Seq<char>)
    ensures
        with_tuple_name(error, name) == (if error is ExpectedStructLike && name
            != Seq::<char>::empty() {
            ErrorView::ExpectedNamedStructLike(name)
        } else {
            error
        }),
        name_if_any(name) == (if name == Seq::<char>::empty() {
            None
        } else {
            Some(name)
        }),
{
    if name.len() == 0 {
        assert(name =~= Seq::<char>::empty());
    }
}

/// The innermost name stands: an error that was given a name keeps it whatever names come after.
pub proof fn law_first_struct_name_stands(error: ErrorView, first: Seq<char>, second: Option<
    Seq<char>,
>)
    ensures
        with_struct_name(with_struct_name(error, Some(first)), second) == with_struct_name(
            error,
            Some(first),
        ),
{
}

/// No name is as good as not asking: an error stays as it is.
pub proof fn law_no_struct_name(error: ErrorView)
    ensures
        with_struct_name(error, None) == error,
{
}

/// The innermost enum's name stands.
pub proof fn law_first_enum_name_stands(error: ErrorView, first: Seq<char>, second: Seq<char>)
    requires
        first.len() > 0,
    ensures
        with_enum_name(with_enum_name(error, first), second) == with_enum_name(error, first),
{
}

} // verus!
