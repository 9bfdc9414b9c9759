//! Field witnesses: type-level references to the fields of a struct.
//!
//! A field witness is a marker type `F` that names one field of a struct `T`.
//! `F: FieldName` gives the name under which the field is stored, and
//! `T: HasField<F>` states that `T` has that field, with type `T::Value`.
//! The builders of this crate only accept fields for which these traits hold,
//! so a misspelt field or a value of the wrong type is a compile-time error.
use vstd::prelude::*;

verus! {

/// Maps a field marker type to the name of the field in the stored document.
pub trait FieldName {
    /// The name of the field, in specifications: what `field_name` returns.
    /// An implementation gives its field's name here; the provided body serves
    /// implementations written outside verified code, which state nothing, and
    /// is never assumed of a field witness that verified code does not know.
    open spec fn spec_field_name() -> Seq<char> {
        Seq::empty()
    }

    /// The name of the field.
    fn field_name() -> (name: &'static str)
        ensures
            name@ == Self::spec_field_name(),
    ;
}

/// Evidence that a struct has the field `F`, of type `Self::Value`.
pub trait HasField<F: FieldName> {
    /// The type of the field.
    type Value;

    /// A reference to the field's value.
    fn get_field(&self) -> &Self::Value;
}

/// Evidence that a type is a struct with at least one field.
pub trait NonEmptyStruct {}

} // verus!
