//! Encoding of the document model as `bson` values.
//!
//! The functions marked `external_body` below are the only places where this
//! crate calls into `bson`; each contract says what the called `bson` function
//! does, in terms of the names declared here.
use vstd::prelude::*;
use crate::document::{
    doc_get, doc_insert, doc_keys, entries_model, has_key, insert_all, is_last_with_key, keys_unique,
    lemma_entries_model, lemma_insert_all_absent, lemma_insert_all_distinct, lemma_insert_all_get,
    lemma_insert_all_unique, lemma_values_model, values_model, Doc, DocModel, Value, ValueModel,
};

verus! {

#[verifier::external_type_specification]
#[verifier::external_body]
pub struct ExBsonDocument(bson::Document);

/// The entries of a `bson::Document`, in the order in which it keeps them.
pub uninterp spec fn bson_entries(d: bson::Document) -> Seq<(Seq<char>, bson::Bson)>;

/// What `bson::Bson::from(String)` returns for a string with these characters.
pub uninterp spec fn bson_of_string(s: Seq<char>) -> bson::Bson;

/// What `bson::Bson::from(bool)` returns.
pub uninterp spec fn bson_of_bool(b: bool) -> bson::Bson;

/// What `bson::Bson::from(i32)` returns.
pub uninterp spec fn bson_of_i32(i: i32) -> bson::Bson;

/// What `bson::Bson::from(Option<bool>)` returns; for `None` it is BSON null.
pub uninterp spec fn bson_of_optional_bool(o: Option<bool>) -> bson::Bson;

/// What `bson::Bson::Array` builds from these items.
pub uninterp spec fn bson_of_array(items: Seq<bson::Bson>) -> bson::Bson;

/// What `bson::Bson::Document` builds from this document.
pub uninterp spec fn bson_of_document(d: bson::Document) -> bson::Bson;

/// Calls `bson::Document::new`, which returns a document with no entry.
#[verifier::external_body]
fn new_bson_document() -> (d: bson::Document)
    ensures
        bson_entries(d) == Seq::<(Seq<char>, bson::Bson)>::empty(),
{
    bson::Document::new()
}

/// Calls `bson::Document::insert`. The document keeps its entries in an
/// `IndexMap`, whose `insert` replaces the value of an existing key where the
/// key stands and appends a new key at the end.
#[verifier::external_body]
fn insert_bson_entry(d: &mut bson::Document, key: String, value: bson::Bson)
    ensures
        bson_entries(*final(d)) == doc_insert(bson_entries(*old(d)), key@, value),
{
    d.insert(key, value);
}

/// Calls `bson::Bson::from(String)`.
#[verifier::external_body]
fn bson_from_string(s: String) -> (b: bson::Bson)
    ensures
        b == bson_of_string(s@),
{
    bson::Bson::from(s)
}

/// Calls `bson::Bson::from(bool)`.
#[verifier::external_body]
fn bson_from_bool(v: bool) -> (b: bson::Bson)
    ensures
        b == bson_of_bool(v),
{
    bson::Bson::from(v)
}

/// Calls `bson::Bson::from(i32)`.
#[verifier::external_body]
pub(crate) fn bson_from_i32(v: i32) -> (b: bson::Bson)
    ensures
        b == bson_of_i32(v),
{
    bson::Bson::from(v)
}

/// Calls `bson::Bson::from(Option<bool>)`.
#[verifier::external_body]
fn bson_from_optional_bool(v: Option<bool>) -> (b: bson::Bson)
    ensures
        b == bson_of_optional_bool(v),
{
    bson::Bson::from(v)
}

/// Builds `bson::Bson::Array` from the items.
#[verifier::external_body]
fn bson_from_items(items: Vec<bson::Bson>) -> (b: bson::Bson)
    ensures
        b == bson_of_array(items@),
{
    bson::Bson::Array(items)
}

/// Builds `bson::Bson::Document` from the document.
#[verifier::external_body]
fn bson_from_document(d: bson::Document) -> (b: bson::Bson)
    ensures
        b == bson_of_document(d),
{
    bson::Bson::Document(d)
}

/// Calls the `Clone` implementation that `bson::Bson` derives, which copies
/// the value.
#[verifier::external_body]
pub(crate) fn clone_bson(b: &bson::Bson) -> (r: bson::Bson)
    ensures
        r == *b,
{
    b.clone()
}

/// Pairs the keys of `es` with the values `vs`.
pub open spec fn zip_keys(es: DocModel, vs: Seq<bson::Bson>) -> Seq<(Seq<char>, bson::Bson)> {
    Seq::new(es.len(), |i: int| (es[i].0, vs[i]))
}

/// `b` is the BSON encoding of `v`.
pub open spec fn encodes(v: ValueModel, b: bson::Bson) -> bool
    decreases v,
{
    match v {
        ValueModel::Null => b == bson_of_optional_bool(None),
        ValueModel::Bool(x) => b == bson_of_bool(x),
        ValueModel::Int32(i) => b == bson_of_i32(i),
        ValueModel::Str(s) => b == bson_of_string(s),
        ValueModel::Raw(r) => b == r,
        ValueModel::Array(items) => exists|bs: Seq<bson::Bson>|
            #![trigger bson_of_array(bs)]
            b == bson_of_array(bs) && bs.len() == items.len() && forall|i: int|
                0 <= i < items.len() ==> encodes(items[i], #[trigger] bs[i]),
        ValueModel::Doc(es) => exists|d: bson::Document|
            #![trigger bson_of_document(d)]
            b == bson_of_document(d) && entries_encode(es, bson_entries(d)),
    }
}

/// `out` holds the entries of `es` with their values encoded, inserted in order.
pub open spec fn entries_encode(es: DocModel, out: Seq<(Seq<char>, bson::Bson)>) -> bool
    decreases es,
{
    exists|vs: Seq<bson::Bson>|
        #![trigger zip_keys(es, vs)]
        vs.len() == es.len() && (forall|i: int| 0 <= i < es.len() ==> encodes(es[i].1, #[trigger] vs[i]))
            && out == insert_all(zip_keys(es, vs))
}

/// Encoding a document never gives a BSON document with a key twice; when the
/// document's keys are all different, the BSON document has the same keys in
/// the same order, each with the encoding of the document's value.
pub proof fn lemma_encoded_entries(es: DocModel, out: Seq<(Seq<char>, bson::Bson)>)
    requires
        entries_encode(es, out),
    ensures
        keys_unique(out),
        keys_unique(es) ==> doc_keys(out) == doc_keys(es),
        keys_unique(es) ==> forall|i: int| 0 <= i < es.len() ==> encodes(es[i].1, #[trigger] out[i].1),
{
    let vs = choose|vs: Seq<bson::Bson>|
        #![trigger zip_keys(es, vs)]
        vs.len() == es.len() && (forall|i: int| 0 <= i < es.len() ==> encodes(es[i].1, #[trigger] vs[i]))
            && out == insert_all(zip_keys(es, vs));
    let z = zip_keys(es, vs);
    lemma_insert_all_unique(z);
    if keys_unique(es) {
        assert(keys_unique(z));
        lemma_insert_all_distinct(z);
        assert(doc_keys(out) =~= doc_keys(es));
        assert forall|i: int| 0 <= i < es.len() implies encodes(es[i].1, #[trigger] out[i].1) by {
            assert(out[i].1 == vs[i]);
        }
    }
}

/// Reading a key of an encoded document: a key that the document holds reads
/// back the encoding of the value of its last entry (a later value replaces an
/// earlier one); a key it does not hold is absent.
pub proof fn lemma_encoded_get(es: DocModel, out: Seq<(Seq<char>, bson::Bson)>, k: Seq<char>, i: int)
    requires
        entries_encode(es, out),
    ensures
        is_last_with_key(es, k, i) ==> exists|b: bson::Bson| doc_get(out, k) == Some(b) && encodes(es[i].1, b),
        !has_key(es, k) ==> doc_get(out, k) is None,
{
    let vs = choose|vs: Seq<bson::Bson>|
        #![trigger zip_keys(es, vs)]
        vs.len() == es.len() && (forall|j: int| 0 <= j < es.len() ==> encodes(es[j].1, #[trigger] vs[j]))
            && out == insert_all(zip_keys(es, vs));
    let z = zip_keys(es, vs);
    if is_last_with_key(es, k, i) {
        assert(is_last_with_key(z, k, i));
        lemma_insert_all_get(z, k, i);
        assert(encodes(es[i].1, vs[i]));
    }
    if !has_key(es, k) {
        assert(!has_key(z, k)) by {
            if has_key(z, k) {
                let w = choose|j: int| 0 <= j < z.len() && z[j].0 == k;
                assert(es[w].0 == k);
            }
        }
        lemma_insert_all_absent(z, k);
    }
}

/// Encodes a value as BSON.
pub fn value_to_bson(v: &Value) -> (b: bson::Bson)
    ensures
        encodes(v@, b),
    decreases v,
{
    match v {
        Value::Null => bson_from_optional_bool(None),
        Value::Bool(x) => bson_from_bool(*x),
        Value::Int32(i) => bson_from_i32(*i),
        Value::Str(s) => bson_from_string(s.clone()),
        Value::Raw(r) => clone_bson(r),
        Value::Array(items) => {
            proof {
                lemma_values_model(items@);
            }
            let ghost model = values_model(items@);
            let mut out: Vec<bson::Bson> = Vec::new();
            let mut i: usize = 0;
            while i < items.len()
                invariant
                    0 <= i <= items.len(),
                    out@.len() == i,
                    *v == Value::Array(*items),
                    model == values_model(items@),
                    model.len() == items@.len(),
                    forall|j: int| 0 <= j < items@.len() ==> #[trigger] model[j] == items@[j]@,
                    forall|j: int| 0 <= j < i ==> encodes(model[j], #[trigger] out@[j]),
                decreases items.len() - i,
            {
                proof {
                    assert(decreases_to!(*v => (*v)->Array_0));
                    assert(decreases_to!((*v)->Array_0 => ((*v)->Array_0)@));
                    assert(decreases_to!(((*v)->Array_0)@ => ((*v)->Array_0)@[i as int]));
                }
                let b = value_to_bson(&items[i]);
                out.push(b);
                i = i + 1;
            }
            let ghost bs = out@;
            let b = bson_from_items(out);
            assert(b == bson_of_array(bs) && bs.len() == model.len() && forall|j: int|
                0 <= j < model.len() ==> encodes(model[j], #[trigger] bs[j]));
            b
        },
        Value::Doc(d) => {
            let inner = doc_to_bson(d);
            let b = bson_from_document(inner);
            assert(b == bson_of_document(inner) && entries_encode(d@, bson_entries(inner)));
            b
        },
    }
}

/// Encodes a document as a `bson::Document`.
pub fn doc_to_bson(d: &Doc) -> (r: bson::Document)
    ensures
        entries_encode(d@, bson_entries(r)),
    decreases d,
{
    proof {
        lemma_entries_model(d.entries@);
    }
    let ghost model = d@;
    let mut out = new_bson_document();
    let ghost mut vs: Seq<bson::Bson> = Seq::empty();
    let mut i: usize = 0;
    while i < d.entries.len()
        invariant
            0 <= i <= d.entries@.len(),
            model == d@,
            model.len() == d.entries@.len(),
            forall|j: int| 0 <= j < d.entries@.len() ==> #[trigger] model[j] == (d.entries@[j].0@, d.entries@[j].1@),
            vs.len() == i,
            forall|j: int| 0 <= j < i ==> encodes(model[j].1, #[trigger] vs[j]),
            bson_entries(out) == insert_all(zip_keys(model.take(i as int), vs)),
        decreases d.entries.len() - i,
    {
        let b = value_to_bson(&d.entries[i].1);
        let key = d.entries[i].0.clone();
        let ghost prev = vs;
        insert_bson_entry(&mut out, key, b);
        proof {
            vs = vs.push(b);
            let z = zip_keys(model.take(i + 1), vs);
            assert(z.drop_last() =~= zip_keys(model.take(i as int), prev));
            assert(z.last() == (model[i as int].0, b));
        }
        i = i + 1;
    }
    proof {
        assert(model.take(model.len() as int) =~= model);
        assert(vs.len() == model.len() && (forall|j: int| 0 <= j < model.len() ==> encodes(model[j].1, #[trigger] vs[j]))
            && bson_entries(out) == insert_all(zip_keys(model, vs)));
    }
    out
}

impl Value {
    /// The BSON encoding of the value.
    pub fn to_bson(&self) -> (b: bson::Bson)
        ensures
            encodes(self@, b),
    {
        value_to_bson(self)
    }
}

impl Doc {
    /// The `bson::Document` with the entries of this document, in order, each
    /// value encoded.
    pub fn to_bson(&self) -> (r: bson::Document)
        ensures
            entries_encode(self@, bson_entries(r)),
    {
        doc_to_bson(self)
    }
}

} // verus!
