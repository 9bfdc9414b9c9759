//! Filter documents: a list of clauses combined with MongoDB's `$and`.
use vstd::prelude::*;
use vstd::std_specs::convert::FromSpecImpl;
use crate::bson_codec::{bson_entries, entries_encode};
use crate::document::{
    converts_all, converts_to, doc_array, doc_values, docs_model, Doc, DocModel, Value, ValueModel, raw_array, raws,
};
use crate::field_filters::{field_filter_doc, FieldFilterBuilder, FilterOperator};
use crate::field_witnesses::{FieldName, HasField};
use crate::mongo_comparable::{MongoComparable, MongoOrdered};
use crate::path::{clone_strings, dotted_field_path, dotted_path, join_segments, lemma_dotted_path_is_join, strings_model, Path};

verus! {

/// The model of a [`FilterBuilder`].
pub struct FilterModel {
    /// The field names that every path of this builder starts with.
    pub prefix: Seq<Seq<char>>,
    /// The clauses added so far, in order.
    pub clauses: Seq<DocModel>,
}

impl FilterModel {
    /// The same builder with `clause` appended.
    pub open spec fn with_clause(self, clause: DocModel) -> FilterModel {
        FilterModel { prefix: self.prefix, clauses: self.clauses.push(clause) }
    }
}

/// The clause comparing the field at `path` with `value` by `op`: `{ path: value }`
/// for equality, `{ path: { op: value } }` for any other operator.
pub open spec fn condition_clause(path: Seq<char>, op: FilterOperator, value: ValueModel) -> DocModel {
    if op == FilterOperator::Eq {
        seq![(path, value)]
    } else {
        seq![(path, ValueModel::Doc(seq![(op.name(), value)]))]
    }
}

/// The clause `{ path: { "$not": operations } }`.
pub open spec fn not_clause(path: Seq<char>, operations: DocModel) -> DocModel {
    seq![(path, ValueModel::Doc(seq![("$not"@, ValueModel::Doc(operations))]))]
}

/// A negation clause has exactly one key, the negated field's path, whatever
/// the operations.
pub proof fn lemma_not_clause_key(path: Seq<char>, operations: DocModel)
    ensures
        not_clause(path, operations).len() == 1,
        not_clause(path, operations)[0].0 == path,
{
}

/// The clause `{ "$or": [clauses...] }`.
pub open spec fn or_clause(clauses: Seq<DocModel>) -> DocModel {
    seq![("$or"@, ValueModel::Array(doc_values(clauses)))]
}

/// The clauses combined by `$and`: no clause gives the empty document, one
/// clause is returned as it is, more are wrapped in `{ "$and": [...] }`.
pub open spec fn and_doc(clauses: Seq<DocModel>) -> DocModel {
    if clauses.len() == 0 {
        Seq::empty()
    } else if clauses.len() == 1 {
        clauses[0]
    } else {
        seq![("$and"@, ValueModel::Array(doc_values(clauses)))]
    }
}

/// Whether `i` is the position of one of `n` steps.
pub open spec fn is_step(n: nat, i: int) -> bool {
    0 <= i < n
}

/// In `or`, when no call of the closure changes the prefix it is given, every
/// call gets a builder with no prefix (and, by the contract of `or`, no
/// clause): a fresh builder.
pub proof fn lemma_or_fresh_builders(prefixes: Seq<Seq<Seq<char>>>)
    requires
        prefixes.len() >= 1,
        prefixes[0] == Seq::<Seq<char>>::empty(),
        forall|i: int| 0 <= i < prefixes.len() - 1 ==> #[trigger] prefixes[i + 1] == prefixes[i],
    ensures
        forall|i: int| 0 <= i < prefixes.len() ==> #[trigger] prefixes[i] == Seq::<Seq<char>>::empty(),
    decreases prefixes.len(),
{
    if prefixes.len() > 1 {
        let init = prefixes.drop_last();
        assert forall|i: int| 0 <= i < init.len() - 1 implies #[trigger] init[i + 1] == init[i] by {
            assert(prefixes[i + 1] == prefixes[i]);
        }
        lemma_or_fresh_builders(init);
        assert forall|i: int| 0 <= i < prefixes.len() implies #[trigger] prefixes[i] == Seq::<Seq<char>>::empty() by {
            if i < init.len() {
                assert(prefixes[i] == init[i]);
            } else {
                let m = i - 1;
                assert(prefixes[m + 1] == prefixes[m]);
                assert(prefixes[m] == init[m]);
            }
        }
    }
}

/// The lists concatenated in order.
pub open spec fn flatten<A>(lists: Seq<Seq<A>>) -> Seq<A>
    decreases lists.len(),
{
    if lists.len() == 0 {
        Seq::empty()
    } else {
        flatten(lists.drop_last()) + lists.last()
    }
}

/// A builder of MongoDB filters on documents of type `T`.
pub struct FilterBuilder<T> {
    /// The field names that the paths of this builder start with.
    pub prefix: Vec<String>,
    clauses: Vec<Doc>,
    _marker: core::marker::PhantomData<T>,
}

impl<T> View for FilterBuilder<T> {
    type V = FilterModel;

    closed spec fn view(&self) -> FilterModel {
        FilterModel { prefix: strings_model(self.prefix@), clauses: docs_model(self.clauses@) }
    }
}

impl<T> Default for FilterBuilder<T> {
    fn default() -> (b: Self)
        ensures
            b@.prefix == Seq::<Seq<char>>::empty(),
            b@.clauses == Seq::<DocModel>::empty(),
    {
        Self::new()
    }
}

impl<T> FilterBuilder<T> {
    /// An empty builder.
    pub fn new() -> (b: Self)
        ensures
            b@.prefix == Seq::<Seq<char>>::empty(),
            b@.clauses == Seq::<DocModel>::empty(),
    {
        let b = FilterBuilder { prefix: Vec::new(), clauses: Vec::new(), _marker: core::marker::PhantomData };
        assert(b@.prefix =~= Seq::<Seq<char>>::empty());
        assert(b@.clauses =~= Seq::<DocModel>::empty());
        b
    }

    /// The dotted path of the field `F` below this builder's prefix.
    pub fn field_path<F: FieldName>(&self) -> (p: String)
        ensures
            p@ == dotted_path(self@.prefix, F::spec_field_name()),
    {
        let name = F::field_name();
        let p = dotted_field_path(&self.prefix, name);
        assert(p@ == dotted_path(self@.prefix, name@));
        p
    }

    /// The clauses added so far.
    pub fn clauses(&self) -> (c: &Vec<Doc>)
        ensures
            docs_model(c@) == self@.clauses,
    {
        &self.clauses
    }

    /// Appends a clause.
    fn push_clause(&mut self, clause: Doc)
        ensures
            final(self)@ == old(self)@.with_clause(clause@),
    {
        self.clauses.push(clause);
        assert(self@.clauses =~= old(self)@.clauses.push(clause@));
    }

    /// Adds the clause comparing the field named `name` (below the prefix) with
    /// `value` by `op`.
    pub fn add_condition(&mut self, name: &str, op: FilterOperator, value: Value) -> (r: &mut Self)
        ensures
            (*r)@ == old(self)@.with_clause(
                condition_clause(dotted_path(old(self)@.prefix, name@), op, value@),
            ),
            (*r)@.prefix == old(self)@.prefix,
            (*r)@.clauses.drop_last() == old(self)@.clauses,
            (*r)@.clauses.last() == if op == FilterOperator::Eq {
                seq![(join_segments(old(self)@.prefix.push(name@)), value@)]
            } else {
                seq![(join_segments(old(self)@.prefix.push(name@)), ValueModel::Doc(seq![(op.name(), value@)]))]
            },
            *final(self) == *final(r),
    {
        proof {
            lemma_dotted_path_is_join(self@.prefix, name@);
        }
        let path = dotted_field_path(&self.prefix, name);
        let clause = match op {
            FilterOperator::Eq => Doc::single(path, value),
            _ => Doc::single(path, Value::Doc(Doc::single(op.as_str().to_owned(), value))),
        };
        self.push_clause(clause);
        self
    }

    /// Adds the clause comparing the field `F` with `value` by equality (`{ path: value }`).
    pub fn eq<F, V>(&mut self, value: V) -> (r: &mut Self)
        where
            F: FieldName,
            T: HasField<F> + MongoComparable<<T as HasField<F>>::Value, V>,
            V: Into<bson::Bson> + Clone,
        ensures
            exists|v: bson::Bson|
                converts_to(value, v) && (*r)@ == old(self)@.with_clause(
                    condition_clause(dotted_path(old(self)@.prefix, F::spec_field_name()), FilterOperator::Eq, ValueModel::Raw(v)),
                ),
            *final(self) == *final(r),
    {
        self.compare_field::<F, V>(FilterOperator::Eq, value)
    }

    /// Adds the clause comparing the field `F` with `value` by `$gt`; the field
    /// type and the value type must be ordered ([`MongoOrdered`]).
    pub fn gt<F, V>(&mut self, value: V) -> (r: &mut Self)
        where
            F: FieldName,
            T: HasField<F> + MongoComparable<<T as HasField<F>>::Value, V> + MongoOrdered<<T as HasField<F>>::Value, V>,
            V: Into<bson::Bson> + Clone,
        ensures
            exists|v: bson::Bson|
                converts_to(value, v) && (*r)@ == old(self)@.with_clause(
                    condition_clause(dotted_path(old(self)@.prefix, F::spec_field_name()), FilterOperator::Gt, ValueModel::Raw(v)),
                ),
            *final(self) == *final(r),
    {
        self.compare_field::<F, V>(FilterOperator::Gt, value)
    }

    /// Adds the clause comparing the field `F` with `value` by `$lt`; the field
    /// type and the value type must be ordered ([`MongoOrdered`]).
    pub fn lt<F, V>(&mut self, value: V) -> (r: &mut Self)
        where
            F: FieldName,
            T: HasField<F> + MongoComparable<<T as HasField<F>>::Value, V> + MongoOrdered<<T as HasField<F>>::Value, V>,
            V: Into<bson::Bson> + Clone,
        ensures
            exists|v: bson::Bson|
                converts_to(value, v) && (*r)@ == old(self)@.with_clause(
                    condition_clause(dotted_path(old(self)@.prefix, F::spec_field_name()), FilterOperator::Lt, ValueModel::Raw(v)),
                ),
            *final(self) == *final(r),
    {
        self.compare_field::<F, V>(FilterOperator::Lt, value)
    }

    /// Adds the clause comparing the field `F` with `value` by `$ne`.
    pub fn ne<F, V>(&mut self, value: V) -> (r: &mut Self)
        where
            F: FieldName,
            T: HasField<F> + MongoComparable<<T as HasField<F>>::Value, V>,
            V: Into<bson::Bson> + Clone,
        ensures
            exists|v: bson::Bson|
                converts_to(value, v) && (*r)@ == old(self)@.with_clause(
                    condition_clause(dotted_path(old(self)@.prefix, F::spec_field_name()), FilterOperator::Ne, ValueModel::Raw(v)),
                ),
            *final(self) == *final(r),
    {
        self.compare_field::<F, V>(FilterOperator::Ne, value)
    }

    /// Adds the clause comparing the field `F` with `value` by `$gte`; the field
    /// type and the value type must be ordered ([`MongoOrdered`]).
    pub fn gte<F, V>(&mut self, value: V) -> (r: &mut Self)
        where
            F: FieldName,
            T: HasField<F> + MongoComparable<<T as HasField<F>>::Value, V> + MongoOrdered<<T as HasField<F>>::Value, V>,
            V: Into<bson::Bson> + Clone,
        ensures
            exists|v: bson::Bson|
                converts_to(value, v) && (*r)@ == old(self)@.with_clause(
                    condition_clause(dotted_path(old(self)@.prefix, F::spec_field_name()), FilterOperator::Gte, ValueModel::Raw(v)),
                ),
            *final(self) == *final(r),
    {
        self.compare_field::<F, V>(FilterOperator::Gte, value)
    }

    /// Adds the clause comparing the field `F` with `value` by `$lte`; the field
    /// type and the value type must be ordered ([`MongoOrdered`]).
    pub fn lte<F, V>(&mut self, value: V) -> (r: &mut Self)
        where
            F: FieldName,
            T: HasField<F> + MongoComparable<<T as HasField<F>>::Value, V> + MongoOrdered<<T as HasField<F>>::Value, V>,
            V: Into<bson::Bson> + Clone,
        ensures
            exists|v: bson::Bson|
                converts_to(value, v) && (*r)@ == old(self)@.with_clause(
                    condition_clause(dotted_path(old(self)@.prefix, F::spec_field_name()), FilterOperator::Lte, ValueModel::Raw(v)),
                ),
            *final(self) == *final(r),
    {
        self.compare_field::<F, V>(FilterOperator::Lte, value)
    }

    /// Adds the clause `{ path: { "$in": [values...] } }` for the field `F`.
    pub fn in_<F, V>(&mut self, values: Vec<V>) -> (r: &mut Self)
        where
            F: FieldName,
            T: HasField<F> + MongoComparable<<T as HasField<F>>::Value, V>,
            V: Into<bson::Bson> + Clone,
        ensures
            exists|vs: Seq<bson::Bson>|
                converts_all(values@, vs) && (*r)@ == old(self)@.with_clause(
                    condition_clause(dotted_path(old(self)@.prefix, F::spec_field_name()), FilterOperator::In, ValueModel::Array(raws(vs))),
                ),
            *final(self) == *final(r),
    {
        let name = F::field_name();
        let arr = raw_array(values);
        self.add_condition(name, FilterOperator::In, arr)
    }

    /// Adds the clause `{ path: { "$nin": [values...] } }` for the field `F`.
    pub fn nin<F, V>(&mut self, values: Vec<V>) -> (r: &mut Self)
        where
            F: FieldName,
            T: HasField<F> + MongoComparable<<T as HasField<F>>::Value, V>,
            V: Into<bson::Bson> + Clone,
        ensures
            exists|vs: Seq<bson::Bson>|
                converts_all(values@, vs) && (*r)@ == old(self)@.with_clause(
                    condition_clause(dotted_path(old(self)@.prefix, F::spec_field_name()), FilterOperator::Nin, ValueModel::Array(raws(vs))),
                ),
            *final(self) == *final(r),
    {
        let name = F::field_name();
        let arr = raw_array(values);
        self.add_condition(name, FilterOperator::Nin, arr)
    }

    /// Adds the clause `{ path: { "$exists": exists } }` for the field `F`.
    pub fn exists_<F>(&mut self, exists: bool) -> (r: &mut Self)
        where
            F: FieldName,
            T: HasField<F>,
        ensures
            (*r)@ == old(self)@.with_clause(
                    condition_clause(dotted_path(old(self)@.prefix, F::spec_field_name()), FilterOperator::Exists, ValueModel::Bool(exists)),
                ),
            *final(self) == *final(r),
    {
        let name = F::field_name();
        self.add_condition(name, FilterOperator::Exists, Value::Bool(exists))
    }

    /// Compares the field `F` with the caller's value by `op`.
    fn compare_field<F: FieldName, V: Into<bson::Bson>>(&mut self, op: FilterOperator, value: V) -> (r: &mut Self)
        ensures
            exists|v: bson::Bson|
                converts_to(value, v) && (*r)@ == old(self)@.with_clause(
                    condition_clause(dotted_path(old(self)@.prefix, F::spec_field_name()), op, ValueModel::Raw(v)),
                ),
            *final(self) == *final(r),
    {
        let name = F::field_name();
        let v: bson::Bson = value.into();
        assert(converts_to(value, v));
        self.add_condition(name, op, Value::Raw(v))
    }

    /// Adds the clauses of a nested builder, in order.
    pub fn append_clauses<U>(&mut self, nested: FilterBuilder<U>) -> (r: &mut Self)
        ensures
            (*r)@ == (FilterModel { prefix: old(self)@.prefix, clauses: old(self)@.clauses + nested@.clauses }),
            *final(self) == *final(r),
    {
        let mut more = nested.clauses;
        let ghost before = self.clauses@;
        let ghost added = more@;
        self.clauses.append(&mut more);
        assert(self.clauses@ == before + added);
        assert(docs_model(self.clauses@) =~= docs_model(before) + docs_model(added));
        self
    }

    /// Filters on fields nested below the field `F`: `lookup` turns the path of
    /// `F` into the path of the target field `G` of the nested struct `U`, and
    /// `f` adds clauses to a builder whose prefix is that path. Those clauses
    /// are appended to this builder's.
    pub fn with_lookup<F: FieldName, L, G: FieldName, U: HasField<G>, N>(&mut self, lookup: L, f: N) -> (r: &mut Self)
        where
            T: HasField<F>,
            L: FnOnce(&Path<F, T, T>) -> Path<G, U, T>,
            N: FnOnce(&mut FilterBuilder<U>) -> &mut FilterBuilder<U>,
        requires
            forall|p: &Path<F, T, T>| call_requires(lookup, (p,)),
            forall|b: &mut FilterBuilder<U>| call_requires(f, (b,)),
        ensures
            exists|base: Path<F, T, T>, resolved: Path<G, U, T>, b: &mut FilterBuilder<U>, out: &mut FilterBuilder<U>|
                {
                    &&& base@ == old(self)@.prefix
                    &&& call_ensures(lookup, (&base,), resolved)
                    &&& (*b)@ == (FilterModel { prefix: resolved@, clauses: Seq::empty() })
                    &&& call_ensures(f, (b,), out)
                    &&& (*r)@ == (FilterModel {
                        prefix: old(self)@.prefix,
                        clauses: old(self)@.clauses + (*final(b))@.clauses,
                    })
                },
            *final(self) == *final(r),
    {
        let base_field: Path<F, T, T> = Path { prefix: clone_strings(&self.prefix), _marker: core::marker::PhantomData };
        let resolved = lookup(&base_field);
        let ghost rp = resolved@;
        let mut nested = FilterBuilder::<U> { prefix: resolved.prefix, clauses: Vec::new(), _marker: core::marker::PhantomData };
        assert(nested@.clauses =~= Seq::<DocModel>::empty());
        let out = f(&mut nested);
        self.append_clauses(nested)
    }

    /// Filters on the field `F` itself: `f` adds clauses to a builder with the
    /// same prefix as this one, and they are appended to this builder's.
    pub fn with_field<F: FieldName, N>(&mut self, f: N) -> (r: &mut Self)
        where
            T: HasField<F>,
            N: FnOnce(&mut FilterBuilder<T>) -> &mut FilterBuilder<T>,
        requires
            forall|b: &mut FilterBuilder<T>| call_requires(f, (b,)),
        ensures
            exists|b: &mut FilterBuilder<T>, out: &mut FilterBuilder<T>|
                {
                    &&& (*b)@ == (FilterModel { prefix: old(self)@.prefix, clauses: Seq::empty() })
                    &&& call_ensures(f, (b,), out)
                    &&& (*r)@ == (FilterModel {
                        prefix: old(self)@.prefix,
                        clauses: old(self)@.clauses + (*final(b))@.clauses,
                    })
                },
            *final(self) == *final(r),
    {
        let same = |path: &Path<F, T, T>| -> (p: Path<F, T, T>)
            ensures
                p@ == path@,
            { path.clone() };
        self.with_lookup::<F, _, F, T, N>(same, f)
    }

    /// Adds `{ "$or": [clauses...] }`.
    pub fn or_clauses(&mut self, clauses: Vec<Doc>) -> (r: &mut Self)
        ensures
            (*r)@ == old(self)@.with_clause(or_clause(docs_model(clauses@))),
            (*r)@.prefix == old(self)@.prefix,
            (*r)@.clauses == old(self)@.clauses.push(seq![("$or"@, ValueModel::Array(doc_values(docs_model(clauses@))))]),
            *final(self) == *final(r),
    {
        let key = "$or".to_owned();
        let arr = doc_array(clauses);
        self.push_clause(Doc::single(key, arr));
        self
    }

    /// Adds `{ "$or": [...] }` holding the clauses that `f` adds for each input
    /// item in turn: `f` is called once per item, in order, on one builder that
    /// starts with no prefix and whose clauses are taken out after each call
    /// (the prefix `f` leaves is the one the next call sees); the clauses of all
    /// items are collected in order.
    pub fn or<F, I, N>(&mut self, input: Vec<I>, f: N) -> (r: &mut Self)
        where
            F: FieldName,
            T: HasField<F>,
            N: Fn(&mut FilterBuilder<T>, I) -> &mut FilterBuilder<T>,
        requires
            forall|b: &mut FilterBuilder<T>, x: I| call_requires(f, (b, x)),
        ensures
            exists|parts: Seq<Seq<DocModel>>, prefixes: Seq<Seq<Seq<char>>>|
                {
                    &&& parts.len() == input@.len()
                    &&& prefixes.len() == input@.len() + 1
                    &&& prefixes[0] == Seq::<Seq<char>>::empty()
                    &&& forall|i: int|
                        #[trigger] is_step(parts.len(), i) ==> exists|b: &mut FilterBuilder<T>, out: &mut FilterBuilder<T>|
                            {
                                &&& (*b)@ == (FilterModel { prefix: prefixes[i], clauses: Seq::empty() })
                                &&& call_ensures(f, (b, input@[i]), out)
                                &&& (*final(b))@ == (FilterModel { prefix: prefixes[i + 1], clauses: parts[i] })
                            }
                    &&& (*r)@ == old(self)@.with_clause(or_clause(flatten(parts)))
                },
            *final(self) == *final(r),
    {
        let ghost all = input@;
        let mut nested = empty::<T>();
        let mut collected: Vec<Doc> = Vec::new();
        let mut rest = input;
        let ghost mut parts: Seq<Seq<DocModel>> = Seq::empty();
        let ghost mut prefixes: Seq<Seq<Seq<char>>> = seq![Seq::<Seq<char>>::empty()];
        assert(docs_model(collected@) =~= flatten(parts));
        assert(nested@.clauses =~= Seq::<DocModel>::empty());
        while rest.len() > 0
            invariant
                forall|b: &mut FilterBuilder<T>, x: I| call_requires(f, (b, x)),
                parts.len() <= all.len(),
                prefixes.len() == parts.len() + 1,
                prefixes[0] == Seq::<Seq<char>>::empty(),
                rest@ == all.skip(parts.len() as int),
                nested@ == (FilterModel { prefix: prefixes[parts.len() as int], clauses: Seq::empty() }),
                forall|i: int|
                    #[trigger] is_step(parts.len(), i) ==> exists|b: &mut FilterBuilder<T>, out: &mut FilterBuilder<T>|
                        {
                            &&& (*b)@ == (FilterModel { prefix: prefixes[i], clauses: Seq::empty() })
                            &&& call_ensures(f, (b, all[i]), out)
                            &&& (*final(b))@ == (FilterModel { prefix: prefixes[i + 1], clauses: parts[i] })
                        },
                docs_model(collected@) == flatten(parts),
            decreases rest.len(),
        {
            let ghost k = parts.len() as int;
            let ghost old_parts = parts;
            let ghost old_prefixes = prefixes;
            let ghost old_collected = docs_model(collected@);
            let value = rest.remove(0);
            proof {
                assert(value == all[k]);
                assert(rest@ =~= all.skip(k + 1));
            }
            f(&mut nested, value);
            let ghost after = nested@;
            proof {
                assert(exists|b: &mut FilterBuilder<T>, out: &mut FilterBuilder<T>|
                    {
                        &&& (*b)@ == (FilterModel { prefix: old_prefixes[k], clauses: Seq::empty() })
                        &&& call_ensures(f, (b, value), out)
                        &&& (*final(b))@ == after
                    });
                parts = parts.push(after.clauses);
                prefixes = prefixes.push(after.prefix);
            }
            let ghost added = nested.clauses@;
            collected.append(&mut nested.clauses);
            nested.clauses.clear();
            proof {
                assert(docs_model(collected@) =~= old_collected + docs_model(added));
                assert(parts.drop_last() =~= old_parts);
                assert(nested@.clauses =~= Seq::<DocModel>::empty());
                assert forall|i: int|
                    #[trigger] is_step(parts.len(), i) implies exists|b: &mut FilterBuilder<T>, out: &mut FilterBuilder<T>|
                        {
                            &&& (*b)@ == (FilterModel { prefix: prefixes[i], clauses: Seq::empty() })
                            &&& call_ensures(f, (b, all[i]), out)
                            &&& (*final(b))@ == (FilterModel { prefix: prefixes[i + 1], clauses: parts[i] })
                        } by {
                    if i < k {
                        assert(is_step(old_parts.len(), i));
                        assert(parts[i] == old_parts[i]);
                        assert(prefixes[i] == old_prefixes[i]);
                        assert(prefixes[i + 1] == old_prefixes[i + 1]);
                    } else {
                        assert(prefixes[i] == old_prefixes[k]);
                        assert(after == (FilterModel { prefix: prefixes[i + 1], clauses: parts[i] }));
                    }
                }
            }
        }
        assert(all.skip(parts.len() as int).len() == 0);
        self.or_clauses(collected)
    }

    /// Adds `{ path: { "$not": operations } }`, where `operations` is the
    /// document built by a field filter for the field named `name`.
    pub fn add_negation(&mut self, name: &str, operations: Doc) -> (r: &mut Self)
        ensures
            (*r)@ == old(self)@.with_clause(not_clause(dotted_path(old(self)@.prefix, name@), operations@)),
            (*r)@.clauses.last() == seq![
                (
                    join_segments(old(self)@.prefix.push(name@)),
                    ValueModel::Doc(seq![("$not"@, ValueModel::Doc(operations@))]),
                ),
            ],
            *final(self) == *final(r),
    {
        proof {
            lemma_dotted_path_is_join(self@.prefix, name@);
        }
        let path = dotted_field_path(&self.prefix, name);
        let inner = Doc::single("$not".to_owned(), Value::Doc(operations));
        self.push_clause(Doc::single(path, Value::Doc(inner)));
        self
    }

    /// Adds `{ path: { "$not": operations } }` for the field `F`, where the
    /// operations are those that `f` adds to a fresh field filter, built for
    /// the field `F`.
    pub fn not<F, B>(&mut self, f: B) -> (r: &mut Self)
        where
            F: FieldName,
            T: HasField<F>,
            B: FnOnce(FieldFilterBuilder<F, T>) -> FieldFilterBuilder<F, T>,
        requires
            forall|b: FieldFilterBuilder<F, T>| call_requires(f, (b,)),
        ensures
            exists|start: FieldFilterBuilder<F, T>, configured: FieldFilterBuilder<F, T>|
                {
                    &&& start@ == Seq::<(Seq<char>, ValueModel)>::empty()
                    &&& call_ensures(f, (start,), configured)
                    &&& (*r)@ == old(self)@.with_clause(
                        not_clause(
                            dotted_path(old(self)@.prefix, F::spec_field_name()),
                            field_filter_doc(F::spec_field_name(), configured@),
                        ),
                    )
                },
            (*r)@.clauses.len() == old(self)@.clauses.len() + 1,
            (*r)@.clauses.last().len() == 1,
            (*r)@.clauses.last()[0].0 == join_segments(old(self)@.prefix.push(F::spec_field_name())),
            *final(self) == *final(r),
    {
        let name = F::field_name();
        let op_builder = FieldFilterBuilder::<F, T>::new();
        let configured = f(op_builder);
        let prepared = configured.build_named(name);
        self.add_negation(name, prepared)
    }

    /// The clauses combined by `$and`: the empty document without clauses, the
    /// clause itself when there is one, `{ "$and": [clauses...] }` otherwise.
    pub fn and(&self) -> (d: Doc)
        ensures
            d@ == and_doc(self@.clauses),
            self@.clauses.len() == 0 ==> d@.len() == 0,
            self@.clauses.len() == 1 ==> d@ == self@.clauses[0],
            self@.clauses.len() > 1 ==> d@ == seq![("$and"@, ValueModel::Array(doc_values(self@.clauses)))],
    {
        let n = self.clauses.len();
        if n == 0 {
            Doc::new()
        } else if n == 1 {
            self.clauses[0].deep_clone()
        } else {
            let mut copies: Vec<Doc> = Vec::new();
            let mut i: usize = 0;
            while i < n
                invariant
                    n == self.clauses@.len(),
                    0 <= i <= n,
                    copies@.len() == i,
                    forall|j: int| 0 <= j < i ==> #[trigger] copies@[j]@ == self.clauses@[j]@,
                decreases n - i,
            {
                let c = self.clauses[i].deep_clone();
                copies.push(c);
                i = i + 1;
            }
            assert(docs_model(copies@) =~= docs_model(self.clauses@));
            let arr = doc_array(copies);
            Doc::single("$and".to_owned(), arr)
        }
    }
}

/// A filter builder converts into the BSON encoding of its clauses combined by
/// `$and` (see [`FilterBuilder::and`]).
impl<T> From<FilterBuilder<T>> for bson::Document {
    fn from(filter: FilterBuilder<T>) -> (d: bson::Document)
        ensures
            entries_encode(and_doc(filter@.clauses), bson_entries(d)),
    {
        filter.and().to_bson()
    }
}

/// The conversion's result is stated by the `ensures` of `from`, over the
/// encoding; it is not one value of the model, so no `from_spec` is claimed.
impl<T> FromSpecImpl<FilterBuilder<T>> for bson::Document {
    open spec fn obeys_from_spec() -> bool {
        false
    }

    open spec fn from_spec(filter: FilterBuilder<T>) -> bson::Document {
        arbitrary()
    }
}

/// An empty filter builder for documents of type `T`.
pub fn empty<T>() -> (b: FilterBuilder<T>)
    ensures
        b@.prefix == Seq::<Seq<char>>::empty(),
        b@.clauses == Seq::<DocModel>::empty(),
{
    FilterBuilder::new()
}

} // verus!
