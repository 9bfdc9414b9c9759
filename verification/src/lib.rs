//! Type-checked builders for MongoDB filter, update and aggregation-expression
//! documents.
//!
//! Fields are named by field witnesses ([`FieldName`], [`HasField`]), so a
//! builder only accepts fields that the document type has, with values of a
//! comparable type ([`MongoComparable`]). Every builder produces a
//! [`document::Doc`], an ordered document whose contract is stated over its
//! model, and which [`document::Doc::to_bson`] turns into a `bson::Document`.
pub mod bson_codec;
pub mod comparable_derive;
pub mod document;
pub mod expr;
pub mod field_filters;
pub mod field_witnesses;
pub mod filters;
pub mod mongo_comparable;
pub mod path;
pub mod updates;

pub use crate::field_filters::FieldFilterBuilder;
pub use crate::field_witnesses::{FieldName, HasField, NonEmptyStruct};
pub use crate::mongo_comparable::{MongoComparable, MongoOrdered};
pub use crate::path::Path;
