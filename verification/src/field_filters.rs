//! Operations on a single field, built into `{ field: { op: value, ... } }`.
use vstd::prelude::*;
use crate::document::{
    converts_all, converts_to, doc_get, doc_keys, entries_model, is_last_with_key, keys_unique, lemma_entries_model, raw_array, raws, Doc, DocModel,
    Value, ValueModel,
};
use crate::bson_codec::{bson_entries, bson_of_document, encodes, entries_encode, lemma_encoded_entries, lemma_encoded_get};
use crate::field_witnesses::{FieldName, HasField};
use crate::mongo_comparable::MongoComparable;

verus! {

/// The comparison operators of MongoDB filters.
#[derive(Clone, Copy, Debug, PartialEq, Eq, Structural)]
pub enum FilterOperator {
    Eq,
    Ne,
    Gt,
    Gte,
    Lt,
    Lte,
    In,
    Nin,
    Exists,
}

impl FilterOperator {
    /// The operator's name in a filter document.
    pub open spec fn name(self) -> Seq<char> {
        match self {
            FilterOperator::Eq => "$eq"@,
            FilterOperator::Ne => "$ne"@,
            FilterOperator::Gt => "$gt"@,
            FilterOperator::Gte => "$gte"@,
            FilterOperator::Lt => "$lt"@,
            FilterOperator::Lte => "$lte"@,
            FilterOperator::In => "$in"@,
            FilterOperator::Nin => "$nin"@,
            FilterOperator::Exists => "$exists"@,
        }
    }

    /// Different operators have different names, and each name is `$`
    /// followed by at least two letters.
    pub proof fn lemma_names_distinct(self, other: FilterOperator)
        ensures
            self != other ==> self.name() != other.name(),
            self.name().len() >= 3,
            self.name()[0] == '$',
    {
        reveal_strlit("$eq");
        reveal_strlit("$ne");
        reveal_strlit("$gt");
        reveal_strlit("$gte");
        reveal_strlit("$lt");
        reveal_strlit("$lte");
        reveal_strlit("$in");
        reveal_strlit("$nin");
        reveal_strlit("$exists");
        if self != other && self.name().len() == other.name().len() {
            assert(self.name()[1] != other.name()[1] || self.name()[2] != other.name()[2]);
        }
    }

    /// The operator's name in a filter document.
    pub fn as_str(&self) -> (s: &'static str)
        ensures
            s@ == self.name(),
    {
        match self {
            FilterOperator::Eq => "$eq",
            FilterOperator::Ne => "$ne",
            FilterOperator::Gt => "$gt",
            FilterOperator::Gte => "$gte",
            FilterOperator::Lt => "$lt",
            FilterOperator::Lte => "$lte",
            FilterOperator::In => "$in",
            FilterOperator::Nin => "$nin",
            FilterOperator::Exists => "$exists",
        }
    }
}

/// The document that a field filter with operations `ops` builds for the field
/// `name`: empty without operations, otherwise `{ name: { op: value, ... } }`
/// with the operations in the order they were added. Encoded as BSON (see
/// `bson_codec`), a repeated operator keeps its first position and takes its
/// last value, as inserting into a `bson::Document` does.
pub open spec fn field_filter_doc(name: Seq<char>, ops: DocModel) -> DocModel {
    if ops.len() == 0 {
        Seq::empty()
    } else {
        seq![(name, ValueModel::Doc(ops))]
    }
}

/// Reading an encoded field filter: without operations the document is empty;
/// otherwise the field's name holds a document in which each operator reads
/// back the encoding of the value of its last use.
pub proof fn lemma_field_filter_get(
    name: Seq<char>,
    ops: DocModel,
    out: Seq<(Seq<char>, bson::Bson)>,
    op: Seq<char>,
    j: int,
)
    requires
        entries_encode(field_filter_doc(name, ops), out),
    ensures
        ops.len() == 0 ==> out.len() == 0,
        is_last_with_key(ops, op, j) ==> exists|d: bson::Document, b: bson::Bson|
            {
                &&& doc_get(out, name) == Some(bson_of_document(d))
                &&& doc_get(bson_entries(d), op) == Some(b)
                &&& encodes(ops[j].1, b)
            },
{
    let top = field_filter_doc(name, ops);
    if ops.len() == 0 {
        lemma_encoded_entries(top, out);
        assert(doc_keys(out).len() == 0);
    } else if is_last_with_key(ops, op, j) {
        assert(is_last_with_key(top, name, 0));
        lemma_encoded_get(top, out, name, 0);
        let b0 = choose|b: bson::Bson| doc_get(out, name) == Some(b) && encodes(top[0].1, b);
        let d = choose|d: bson::Document|
            #![trigger bson_of_document(d)]
            b0 == bson_of_document(d) && entries_encode(ops, bson_entries(d));
        lemma_encoded_get(ops, bson_entries(d), op, j);
    }
}

/// A builder for the operations on one field `F` of the struct `T`.
pub struct FieldFilterBuilder<F: FieldName, T: HasField<F>> {
    ops: Vec<(String, Value)>,
    _marker: core::marker::PhantomData<(F, T)>,
}

impl<F: FieldName, T: HasField<F>> View for FieldFilterBuilder<F, T> {
    type V = DocModel;

    /// The operations added so far, in order.
    closed spec fn view(&self) -> DocModel {
        entries_model(self.ops@)
    }
}

impl<F: FieldName, T: HasField<F>> Default for FieldFilterBuilder<F, T> {
    fn default() -> (b: Self)
        ensures
            b@ == Seq::<(Seq<char>, ValueModel)>::empty(),
    {
        Self::new()
    }
}

impl<F: FieldName, T: HasField<F>> FieldFilterBuilder<F, T> {
    /// A builder with no operation.
    pub fn new() -> (b: Self)
        ensures
            b@ == Seq::<(Seq<char>, ValueModel)>::empty(),
    {
        let b = FieldFilterBuilder { ops: Vec::new(), _marker: core::marker::PhantomData };
        assert(b@ =~= Seq::<(Seq<char>, ValueModel)>::empty());
        b
    }

    /// Adds the operation `op` with `value`.
    pub fn with_operation(self, op: FilterOperator, value: Value) -> (b: Self)
        ensures
            b@ == self@.push((op.name(), value@)),
    {
        let mut ops = self.ops;
        proof {
            lemma_entries_model(ops@);
        }
        let ghost before = ops@;
        ops.push((op.as_str().to_owned(), value));
        let b = FieldFilterBuilder { ops, _marker: core::marker::PhantomData };
        proof {
            lemma_entries_model(b.ops@);
            assert(b@ =~= entries_model(before).push((op.name(), value@)));
        }
        b
    }

    /// Adds `$eq` with the value.
    pub fn eq<V>(self, value: V) -> (b: Self)
        where
            T: MongoComparable<T::Value, V>,
            V: Into<bson::Bson> + Clone,
        ensures
            exists|v: bson::Bson| converts_to(value, v) && b@ == self@.push(("$eq"@, ValueModel::Raw(v))),
    {
        let v: bson::Bson = value.into();
        assert(converts_to(value, v));
        let b = self.with_operation(FilterOperator::Eq, Value::Raw(v));
        assert(b@ == self@.push(("$eq"@, ValueModel::Raw(v))));
        b
    }

    /// Adds `$gt` with the value.
    pub fn gt<V>(self, value: V) -> (b: Self)
        where
            T: MongoComparable<T::Value, V>,
            V: Into<bson::Bson> + Clone,
        ensures
            exists|v: bson::Bson| converts_to(value, v) && b@ == self@.push(("$gt"@, ValueModel::Raw(v))),
    {
        let v: bson::Bson = value.into();
        assert(converts_to(value, v));
        let b = self.with_operation(FilterOperator::Gt, Value::Raw(v));
        assert(b@ == self@.push(("$gt"@, ValueModel::Raw(v))));
        b
    }

    /// Adds `$gte` with the value.
    pub fn gte<V>(self, value: V) -> (b: Self)
        where
            T: MongoComparable<T::Value, V>,
            V: Into<bson::Bson> + Clone,
        ensures
            exists|v: bson::Bson| converts_to(value, v) && b@ == self@.push(("$gte"@, ValueModel::Raw(v))),
    {
        let v: bson::Bson = value.into();
        assert(converts_to(value, v));
        let b = self.with_operation(FilterOperator::Gte, Value::Raw(v));
        assert(b@ == self@.push(("$gte"@, ValueModel::Raw(v))));
        b
    }

    /// Adds `$lt` with the value.
    pub fn lt<V>(self, value: V) -> (b: Self)
        where
            T: MongoComparable<T::Value, V>,
            V: Into<bson::Bson> + Clone,
        ensures
            exists|v: bson::Bson| converts_to(value, v) && b@ == self@.push(("$lt"@, ValueModel::Raw(v))),
    {
        let v: bson::Bson = value.into();
        assert(converts_to(value, v));
        let b = self.with_operation(FilterOperator::Lt, Value::Raw(v));
        assert(b@ == self@.push(("$lt"@, ValueModel::Raw(v))));
        b
    }

    /// Adds `$lte` with the value.
    pub fn lte<V>(self, value: V) -> (b: Self)
        where
            T: MongoComparable<T::Value, V>,
            V: Into<bson::Bson> + Clone,
        ensures
            exists|v: bson::Bson| converts_to(value, v) && b@ == self@.push(("$lte"@, ValueModel::Raw(v))),
    {
        let v: bson::Bson = value.into();
        assert(converts_to(value, v));
        let b = self.with_operation(FilterOperator::Lte, Value::Raw(v));
        assert(b@ == self@.push(("$lte"@, ValueModel::Raw(v))));
        b
    }

    /// Adds `$in` with the array of the values, in order.
    pub fn in_<V>(self, values: Vec<V>) -> (b: Self)
        where
            T: MongoComparable<T::Value, V>,
            V: Into<bson::Bson> + Clone,
        ensures
            exists|vs: Seq<bson::Bson>|
                converts_all(values@, vs) && b@ == self@.push(("$in"@, ValueModel::Array(raws(vs)))),
    {
        let arr = raw_array(values);
        let b = self.with_operation(FilterOperator::In, arr);
        b
    }

    /// Adds `$nin` with the array of the values, in order.
    pub fn nin<V>(self, values: Vec<V>) -> (b: Self)
        where
            T: MongoComparable<T::Value, V>,
            V: Into<bson::Bson> + Clone,
        ensures
            exists|vs: Seq<bson::Bson>|
                converts_all(values@, vs) && b@ == self@.push(("$nin"@, ValueModel::Array(raws(vs)))),
    {
        let arr = raw_array(values);
        let b = self.with_operation(FilterOperator::Nin, arr);
        b
    }

    /// Adds `$exists` with `exists`.
    pub fn exists_(self, exists: bool) -> (b: Self)
        ensures
            b@ == self@.push(("$exists"@, ValueModel::Bool(exists))),
    {
        self.with_operation(FilterOperator::Exists, Value::Bool(exists))
    }

    /// Builds the operations for the field named `name`: an empty document
    /// without operations, otherwise `{ name: { op: value, ... } }`.
    pub fn build_named(self, name: &str) -> (d: Doc)
        ensures
            d@ == field_filter_doc(name@, self@),
    {
        proof {
            lemma_entries_model(self.ops@);
        }
        let ghost model = self@;
        if self.ops.len() == 0 {
            return Doc::new();
        }
        let operations = Doc { entries: self.ops };
        Doc::single(name.to_owned(), Value::Doc(operations))
    }

    /// Builds the operations for the field `F`: an empty document without
    /// operations, otherwise `{ F's name: { op: value, ... } }`.
    pub fn build(self) -> (d: Doc)
        ensures
            d@ == field_filter_doc(F::spec_field_name(), self@),
    {
        let name = F::field_name();
        let ghost ops = self@;
        let d = self.build_named(name);
        assert(d@ == field_filter_doc(name@, ops));
        d
    }
}

} // verus!
