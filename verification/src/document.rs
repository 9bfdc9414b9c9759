//! The document model that every builder of this crate produces.
//!
//! A [`Doc`] is an ordered list of `(key, value)` entries. Encoding it (see
//! `bson_codec`) inserts the entries in order into a `bson::Document`, so a
//! repeated key keeps its first position and takes its last value; the laws
//! of this module state what such insertions give. Values that the caller
//! supplies arrive already converted to BSON and are carried unchanged in
//! [`Value::Raw`].
use vstd::prelude::*;
use crate::bson_codec::clone_bson;

verus! {

#[verifier::external_type_specification]
#[verifier::external_body]
pub struct ExBson(bson::Bson);

/// A value held in a [`Doc`].
#[derive(Debug, PartialEq)]
pub enum Value {
    Null,
    Bool(bool),
    Int32(i32),
    Str(String),
    Array(Vec<Value>),
    Doc(Doc),
    /// A BSON value supplied by the caller, carried through unchanged.
    Raw(bson::Bson),
}

/// An ordered document of `(key, value)` entries.
#[derive(Debug, PartialEq)]
pub struct Doc {
    pub entries: Vec<(String, Value)>,
}

/// The mathematical model of a [`Value`].
pub enum ValueModel {
    Null,
    Bool(bool),
    Int32(i32),
    Str(Seq<char>),
    Array(Seq<ValueModel>),
    Doc(Seq<(Seq<char>, ValueModel)>),
    Raw(bson::Bson),
}

/// The model of a [`Doc`]: its entries in order.
pub type DocModel = Seq<(Seq<char>, ValueModel)>;

pub open spec fn value_model(v: Value) -> ValueModel
    decreases v,
{
    match v {
        Value::Null => ValueModel::Null,
        Value::Bool(b) => ValueModel::Bool(b),
        Value::Int32(i) => ValueModel::Int32(i),
        Value::Str(s) => ValueModel::Str(s@),
        Value::Array(items) => ValueModel::Array(values_model(items@)),
        Value::Doc(d) => ValueModel::Doc(entries_model(d.entries@)),
        Value::Raw(b) => ValueModel::Raw(b),
    }
}

pub open spec fn values_model(s: Seq<Value>) -> Seq<ValueModel>
    decreases s,
{
    if s.len() == 0 {
        Seq::empty()
    } else {
        values_model(s.drop_last()).push(value_model(s.last()))
    }
}

pub open spec fn entries_model(s: Seq<(String, Value)>) -> DocModel
    decreases s,
{
    if s.len() == 0 {
        Seq::empty()
    } else {
        entries_model(s.drop_last()).push((s.last().0@, value_model(s.last().1)))
    }
}

/// The model of a sequence of values has one model per value, in order.
pub proof fn lemma_values_model(s: Seq<Value>)
    ensures
        values_model(s).len() == s.len(),
        forall|i: int| 0 <= i < s.len() ==> #[trigger] values_model(s)[i] == value_model(s[i]),
    decreases s.len(),
{
    if s.len() > 0 {
        lemma_values_model(s.drop_last());
    }
}

/// The model of a sequence of entries keeps the keys and models the values, in order.
pub proof fn lemma_entries_model(s: Seq<(String, Value)>)
    ensures
        entries_model(s).len() == s.len(),
        forall|i: int|
            0 <= i < s.len() ==> #[trigger] entries_model(s)[i] == (s[i].0@, value_model(s[i].1)),
    decreases s.len(),
{
    if s.len() > 0 {
        lemma_entries_model(s.drop_last());
    }
}

/// The model of concatenated entries is the concatenation of their models.
pub proof fn lemma_entries_model_append(a: Seq<(String, Value)>, b: Seq<(String, Value)>)
    ensures
        entries_model(a + b) == entries_model(a) + entries_model(b),
{
    lemma_entries_model(a);
    lemma_entries_model(b);
    lemma_entries_model(a + b);
    assert(entries_model(a + b) =~= entries_model(a) + entries_model(b));
}

/// Whether some entry of `d` has the key `k`.
pub open spec fn has_key<V>(d: Seq<(Seq<char>, V)>, k: Seq<char>) -> bool {
    exists|i: int| 0 <= i < d.len() && d[i].0 == k
}

/// The position of the first entry of `d` whose key is `k`.
pub open spec fn key_index<V>(d: Seq<(Seq<char>, V)>, k: Seq<char>) -> int
    recommends
        has_key(d, k),
{
    choose|i: int| 0 <= i < d.len() && d[i].0 == k && forall|j: int| 0 <= j < i ==> d[j].0 != k
}

/// Inserting `(k, v)`: the value of an existing key is replaced where it stands,
/// a new key is appended at the end.
pub open spec fn doc_insert<V>(d: Seq<(Seq<char>, V)>, k: Seq<char>, v: V) -> Seq<(Seq<char>, V)> {
    if has_key(d, k) {
        d.update(key_index(d, k), (k, v))
    } else {
        d.push((k, v))
    }
}

/// Inserting the pairs one after another into an empty document.
pub open spec fn insert_all<V>(pairs: Seq<(Seq<char>, V)>) -> Seq<(Seq<char>, V)>
    decreases pairs.len(),
{
    if pairs.len() == 0 {
        Seq::empty()
    } else {
        doc_insert(insert_all(pairs.drop_last()), pairs.last().0, pairs.last().1)
    }
}

/// The keys of `d`, in order.
pub open spec fn doc_keys<V>(d: Seq<(Seq<char>, V)>) -> Seq<Seq<char>> {
    d.map_values(|e: (Seq<char>, V)| e.0)
}

/// No key occurs twice in `d`.
pub open spec fn keys_unique<V>(d: Seq<(Seq<char>, V)>) -> bool {
    forall|i: int, j: int| 0 <= i < d.len() && 0 <= j < d.len() && i != j ==> d[i].0 != d[j].0
}

/// A key of `d` has a first position, which `key_index` gives.
pub proof fn lemma_key_index<V>(d: Seq<(Seq<char>, V)>, k: Seq<char>)
    requires
        has_key(d, k),
    ensures
        0 <= key_index(d, k) < d.len(),
        d[key_index(d, k)].0 == k,
        forall|j: int| 0 <= j < key_index(d, k) ==> d[j].0 != k,
    decreases d.len(),
{
    let init = d.drop_last();
    if has_key(init, k) {
        lemma_key_index(init, k);
        let w = key_index(init, k);
        assert(d[w] == init[w]);
        assert forall|j: int| 0 <= j < w implies d[j].0 != k by {
            assert(d[j] == init[j]);
        }
        lemma_key_index_first(d, k, w);
    } else {
        let w = d.len() - 1;
        assert(d[w].0 == k) by {
            let i = choose|i: int| 0 <= i < d.len() && d[i].0 == k;
            if i < w {
                assert(init[i].0 == k);
            }
        }
        assert(forall|j: int| 0 <= j < w ==> d[j].0 != k) by {
            assert forall|j: int| 0 <= j < w implies d[j].0 != k by {
                if d[j].0 == k {
                    assert(init[j].0 == k);
                }
            }
        }
        lemma_key_index_first(d, k, w);
    }
}

/// When `i` is a position of key `k` with no earlier occurrence, it is `key_index(d, k)`.
pub proof fn lemma_key_index_first<V>(d: Seq<(Seq<char>, V)>, k: Seq<char>, i: int)
    requires
        0 <= i < d.len(),
        d[i].0 == k,
        forall|j: int| 0 <= j < i ==> d[j].0 != k,
    ensures
        has_key(d, k),
        key_index(d, k) == i,
{
    let w = key_index(d, k);
    assert(0 <= w < d.len() && d[w].0 == k && forall|j: int| 0 <= j < w ==> d[j].0 != k);
    if w < i {
    } else if w > i {
    }
}

/// Inserting into a document keeps its keys unique.
pub proof fn lemma_doc_insert_unique<V>(d: Seq<(Seq<char>, V)>, k: Seq<char>, v: V)
    requires
        keys_unique(d),
    ensures
        keys_unique(doc_insert(d, k, v)),
        has_key(doc_insert(d, k, v), k),
{
    if has_key(d, k) {
        let w = key_index(d, k);
        assert(0 <= w < d.len() && d[w].0 == k);
        assert(doc_insert(d, k, v)[w].0 == k);
    } else {
        assert(doc_insert(d, k, v)[d.len() as int].0 == k);
    }
}

/// The value of the first entry of `d` whose key is `k`, if there is one.
pub open spec fn doc_get<V>(d: Seq<(Seq<char>, V)>, k: Seq<char>) -> Option<V> {
    if has_key(d, k) {
        Some(d[key_index(d, k)].1)
    } else {
        None
    }
}

/// Whether `k` is the key of the pair at position `i` and of no later pair.
pub open spec fn is_last_with_key<V>(pairs: Seq<(Seq<char>, V)>, k: Seq<char>, i: int) -> bool {
    0 <= i < pairs.len() && pairs[i].0 == k && forall|j: int| i < j < pairs.len() ==> pairs[j].0 != k
}

/// Inserting into a document: the inserted key then reads back the inserted
/// value, and every other key reads back what it read before.
pub proof fn lemma_doc_insert_get<V>(d: Seq<(Seq<char>, V)>, k: Seq<char>, v: V, other: Seq<char>)
    ensures
        doc_get(doc_insert(d, k, v), k) == Some(v),
        other != k ==> doc_get(doc_insert(d, k, v), other) == doc_get(d, other),
{
    let n = doc_insert(d, k, v);
    if has_key(d, k) {
        lemma_key_index(d, k);
        let w = key_index(d, k);
        lemma_key_index_first(n, k, w);
        if other != k && has_key(d, other) {
            lemma_key_index(d, other);
            let o = key_index(d, other);
            lemma_key_index_first(n, other, o);
        }
        if other != k && has_key(n, other) {
            lemma_key_index(n, other);
            let o = key_index(n, other);
            assert(d[o].0 == other);
        }
    } else {
        lemma_key_index_first(n, k, d.len() as int);
        if other != k && has_key(d, other) {
            lemma_key_index(d, other);
            let o = key_index(d, other);
            lemma_key_index_first(n, other, o);
        }
        if other != k && has_key(n, other) {
            lemma_key_index(n, other);
            let o = key_index(n, other);
            assert(d[o].0 == other);
        }
    }
}

/// Inserting keeps the keys in place: an existing key leaves the keys as they
/// were, a new key is appended to them.
pub proof fn lemma_doc_insert_keys<V>(d: Seq<(Seq<char>, V)>, k: Seq<char>, v: V)
    ensures
        doc_keys(doc_insert(d, k, v)) == if has_key(d, k) {
            doc_keys(d)
        } else {
            doc_keys(d).push(k)
        },
{
    if has_key(d, k) {
        lemma_key_index(d, k);
        assert(doc_keys(doc_insert(d, k, v)) =~= doc_keys(d));
    } else {
        assert(doc_keys(doc_insert(d, k, v)) =~= doc_keys(d).push(k));
    }
}

/// A document built by insertions never holds a key twice.
pub proof fn lemma_insert_all_unique<V>(pairs: Seq<(Seq<char>, V)>)
    ensures
        keys_unique(insert_all(pairs)),
    decreases pairs.len(),
{
    if pairs.len() > 0 {
        lemma_insert_all_unique(pairs.drop_last());
        lemma_doc_insert_unique(insert_all(pairs.drop_last()), pairs.last().0, pairs.last().1);
    }
}

/// Inserting pairs whose keys are all different gives those pairs, in order.
pub proof fn lemma_insert_all_distinct<V>(pairs: Seq<(Seq<char>, V)>)
    requires
        keys_unique(pairs),
    ensures
        insert_all(pairs) == pairs,
    decreases pairs.len(),
{
    if pairs.len() > 0 {
        let init = pairs.drop_last();
        assert(keys_unique(init));
        lemma_insert_all_distinct(init);
        assert(!has_key(init, pairs.last().0)) by {
            if has_key(init, pairs.last().0) {
                let w = choose|i: int| 0 <= i < init.len() && init[i].0 == pairs.last().0;
                assert(pairs[w].0 == pairs[pairs.len() - 1].0);
            }
        }
        assert(init.push(pairs.last()) =~= pairs);
    }
}

/// In a document built by insertions, a key reads back the value of the last
/// pair inserted with that key: a later value replaces an earlier one.
pub proof fn lemma_insert_all_get<V>(pairs: Seq<(Seq<char>, V)>, k: Seq<char>, i: int)
    requires
        is_last_with_key(pairs, k, i),
    ensures
        doc_get(insert_all(pairs), k) == Some(pairs[i].1),
    decreases pairs.len(),
{
    let init = pairs.drop_last();
    let last = pairs.last();
    if i == pairs.len() - 1 {
        lemma_doc_insert_get(insert_all(init), k, last.1, k);
    } else {
        assert(is_last_with_key(init, k, i));
        lemma_insert_all_get(init, k, i);
        lemma_doc_insert_get(insert_all(init), last.0, last.1, k);
    }
}

/// A key that no pair has is not in the document the pairs build.
pub proof fn lemma_insert_all_absent<V>(pairs: Seq<(Seq<char>, V)>, k: Seq<char>)
    requires
        !has_key(pairs, k),
    ensures
        !has_key(insert_all(pairs), k),
    decreases pairs.len(),
{
    if pairs.len() > 0 {
        let init = pairs.drop_last();
        assert(!has_key(init, k)) by {
            if has_key(init, k) {
                let w = choose|i: int| 0 <= i < init.len() && init[i].0 == k;
                assert(pairs[w].0 == k);
            }
        }
        lemma_insert_all_absent(init, k);
        lemma_doc_insert_get(insert_all(init), pairs.last().0, pairs.last().1, k);
        assert(pairs[pairs.len() - 1].0 != k);
        if has_key(insert_all(pairs), k) {
            assert(doc_get(insert_all(pairs), k) is Some);
        }
    }
}

/// The models of a sequence of documents.
pub open spec fn docs_model(s: Seq<Doc>) -> Seq<DocModel> {
    s.map_values(|d: Doc| d@)
}

/// `b` is what converting the caller's `value` into BSON gives.
pub open spec fn converts_to<V: Into<bson::Bson>>(value: V, b: bson::Bson) -> bool {
    call_ensures(<V as Into<bson::Bson>>::into, (value,), b)
}

/// Each of `bs` is what converting the value at the same position into BSON gives.
pub open spec fn converts_all<V: Into<bson::Bson>>(values: Seq<V>, bs: Seq<bson::Bson>) -> bool {
    values.len() == bs.len() && forall|i: int| 0 <= i < values.len() ==> converts_to(values[i], #[trigger] bs[i])
}

/// Caller-supplied BSON values, each carried as a raw value.
pub open spec fn raws(bs: Seq<bson::Bson>) -> Seq<ValueModel> {
    bs.map_values(|b: bson::Bson| ValueModel::Raw(b))
}

/// Documents used as values.
pub open spec fn doc_values(ds: Seq<DocModel>) -> Seq<ValueModel> {
    ds.map_values(|d: DocModel| ValueModel::Doc(d))
}

impl View for Value {
    type V = ValueModel;

    open spec fn view(&self) -> ValueModel {
        value_model(*self)
    }
}

impl View for Doc {
    type V = DocModel;

    open spec fn view(&self) -> DocModel {
        entries_model(self.entries@)
    }
}

impl Value {
    /// A copy of the value with the same model.
    pub fn deep_clone(&self) -> (r: Value)
        ensures
            r@ == self@,
        decreases self,
    {
        match self {
            Value::Null => Value::Null,
            Value::Bool(b) => Value::Bool(*b),
            Value::Int32(i) => Value::Int32(*i),
            Value::Str(s) => Value::Str(s.clone()),
            Value::Raw(b) => Value::Raw(clone_bson(b)),
            Value::Array(items) => {
                proof {
                    lemma_values_model(items@);
                }
                let mut out: Vec<Value> = Vec::new();
                let mut i: usize = 0;
                while i < items.len()
                    invariant
                        *self == Value::Array(*items),
                        0 <= i <= items.len(),
                        out@.len() == i,
                        values_model(items@).len() == items@.len(),
                        forall|j: int| 0 <= j < items@.len() ==> #[trigger] values_model(items@)[j] == items@[j]@,
                        forall|j: int| 0 <= j < i ==> #[trigger] out@[j]@ == items@[j]@,
                    decreases items.len() - i,
                {
                    proof {
                        assert(decreases_to!(*self => (*self)->Array_0));
                        assert(decreases_to!((*self)->Array_0 => ((*self)->Array_0)@));
                        assert(decreases_to!(((*self)->Array_0)@ => ((*self)->Array_0)@[i as int]));
                    }
                    let c = items[i].deep_clone();
                    out.push(c);
                    i = i + 1;
                }
                proof {
                    lemma_values_model(out@);
                    assert forall|j: int| 0 <= j < out@.len() implies values_model(out@)[j]
                        == values_model(items@)[j] by {
                        assert(out@[j]@ == items@[j]@);
                    }
                    assert(values_model(out@) =~= values_model(items@));
                }
                Value::Array(out)
            },
            Value::Doc(d) => Value::Doc(d.deep_clone()),
        }
    }
}

/// Converts each caller value to BSON and collects the results in an array, in order.
pub fn raw_array<V: Into<bson::Bson>>(values: Vec<V>) -> (r: Value)
    ensures
        exists|bs: Seq<bson::Bson>| converts_all(values@, bs) && r@ == ValueModel::Array(raws(bs)),
{
    let ghost all = values@;
    let mut rest = values;
    let mut out: Vec<Value> = Vec::new();
    let ghost mut bs: Seq<bson::Bson> = Seq::empty();
    while rest.len() > 0
        invariant
            out@.len() + rest@.len() == all.len(),
            rest@ == all.skip(out@.len() as int),
            bs.len() == out@.len(),
            forall|j: int| 0 <= j < out@.len() ==> #[trigger] out@[j]@ == ValueModel::Raw(bs[j]),
            forall|j: int| 0 <= j < out@.len() ==> converts_to(all[j], #[trigger] bs[j]),
        decreases rest.len(),
    {
        let ghost k = out@.len() as int;
        let v = rest.remove(0);
        proof {
            assert(v == all[k]);
            assert(rest@ =~= all.skip(k + 1));
        }
        let b: bson::Bson = v.into();
        proof {
            bs = bs.push(b);
        }
        out.push(Value::Raw(b));
    }
    proof {
        lemma_values_model(out@);
        assert forall|j: int| 0 <= j < out@.len() implies values_model(out@)[j] == raws(bs)[j] by {
            assert(out@[j]@ == ValueModel::Raw(bs[j]));
        }
        assert(values_model(out@) =~= raws(bs));
        assert(converts_all(all, bs));
    }
    Value::Array(out)
}

/// An array of the given documents.
pub fn doc_array(docs: Vec<Doc>) -> (r: Value)
    ensures
        r@ == ValueModel::Array(doc_values(docs_model(docs@))),
{
    let ghost all = docs@;
    let mut rest = docs;
    let mut out: Vec<Value> = Vec::new();
    while rest.len() > 0
        invariant
            out@.len() + rest@.len() == all.len(),
            rest@ == all.skip(out@.len() as int),
            forall|j: int| 0 <= j < out@.len() ==> #[trigger] out@[j] == Value::Doc(all[j]),
        decreases rest.len(),
    {
        let d = rest.remove(0);
        proof {
            assert(rest@ =~= all.skip(out@.len() as int + 1));
        }
        out.push(Value::Doc(d));
    }
    proof {
        lemma_values_model(out@);
        assert(values_model(out@) =~= doc_values(docs_model(all)));
    }
    Value::Array(out)
}

/// A copy of the entries, with the same model.
pub fn clone_entries(entries: &Vec<(String, Value)>) -> (r: Vec<(String, Value)>)
    ensures
        entries_model(r@) == entries_model(entries@),
{
    proof {
        lemma_entries_model(entries@);
    }
    let mut out: Vec<(String, Value)> = Vec::new();
    let mut i: usize = 0;
    while i < entries.len()
        invariant
            0 <= i <= entries@.len(),
            out@.len() == i,
            forall|j: int|
                0 <= j < i ==> #[trigger] out@[j].0@ == entries@[j].0@ && out@[j].1@ == entries@[j].1@,
        decreases entries.len() - i,
    {
        let k = entries[i].0.clone();
        let v = entries[i].1.deep_clone();
        out.push((k, v));
        i = i + 1;
    }
    proof {
        lemma_entries_model(out@);
        assert(entries_model(out@) =~= entries_model(entries@));
    }
    out
}

impl Clone for Value {
    fn clone(&self) -> (r: Self)
        ensures
            r@ == self@,
    {
        self.deep_clone()
    }
}

impl Clone for Doc {
    fn clone(&self) -> (r: Self)
        ensures
            r@ == self@,
    {
        self.deep_clone()
    }
}

impl Doc {
    /// A copy of the document with the same model.
    pub fn deep_clone(&self) -> (r: Doc)
        ensures
            r@ == self@,
        decreases self,
    {
        proof {
            lemma_entries_model(self.entries@);
        }
        let mut out: Vec<(String, Value)> = Vec::new();
        let mut i: usize = 0;
        while i < self.entries.len()
            invariant
                0 <= i <= self.entries@.len(),
                out@.len() == i,
                entries_model(self.entries@).len() == self.entries@.len(),
                forall|j: int|
                    0 <= j < self.entries@.len() ==> #[trigger] entries_model(self.entries@)[j] == (
                        self.entries@[j].0@,
                        self.entries@[j].1@,
                    ),
                forall|j: int|
                    0 <= j < i ==> #[trigger] out@[j].0@ == self.entries@[j].0@ && out@[j].1@
                        == self.entries@[j].1@,
            decreases self.entries.len() - i,
        {
            let k = self.entries[i].0.clone();
            let v = self.entries[i].1.deep_clone();
            out.push((k, v));
            i = i + 1;
        }
        let r = Doc { entries: out };
        proof {
            lemma_entries_model(r.entries@);
            assert(r@ =~= self@);
        }
        r
    }

    /// An empty document.
    pub fn new() -> (d: Doc)
        ensures
            d@ == Seq::<(Seq<char>, ValueModel)>::empty(),
    {
        Doc { entries: Vec::new() }
    }

    /// A document with the single entry `(key, value)`.
    pub fn single(key: String, value: Value) -> (d: Doc)
        ensures
            d@ == seq![(key@, value@)],
    {
        let mut entries: Vec<(String, Value)> = Vec::new();
        entries.push((key, value));
        let d = Doc { entries };
        proof {
            lemma_entries_model(d.entries@);
        }
        assert(d@ =~= seq![(key@, value@)]);
        d
    }

    /// The number of entries.
    pub fn len(&self) -> (n: usize)
        ensures
            n == self@.len(),
    {
        proof {
            lemma_entries_model(self.entries@);
        }
        self.entries.len()
    }

    /// Whether the document has no entry.
    pub fn is_empty(&self) -> (b: bool)
        ensures
            b == (self@.len() == 0),
    {
        proof {
            lemma_entries_model(self.entries@);
        }
        self.entries.len() == 0
    }
}

} // verus!
