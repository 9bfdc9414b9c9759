//! Compile-time evidence about which values may be compared in queries.
use vstd::prelude::*;

verus! {

/// Evidence that a value of type `A` can be compared with a value of type `B`
/// in MongoDB query operators. It is implemented for a document type: a field of
/// type `A` of that document may be compared with values of type `B`.
pub trait MongoComparable<A, B> {}

/// Evidence that a value of type `A` can be used with the ordering operators
/// (`$gt`, `$gte`, `$lt`, `$lte`) against a value of type `B`. It is narrower
/// than [`MongoComparable`].
pub trait MongoOrdered<A, B> {}

} // verus!
