//! Typed MongoDB aggregation expressions.
use vstd::prelude::*;
use vstd::std_specs::convert::FromSpecImpl;
use crate::bson_codec::{encodes, value_to_bson};
use crate::document::{converts_all, converts_to, lemma_entries_model, lemma_values_model, values_model, Doc, Value, ValueModel};
use crate::field_witnesses::{FieldName, HasField};
use crate::mongo_comparable::{MongoComparable, MongoOrdered};
use crate::path::{clone_strings, dotted_field_path, dotted_path, join_segments, lemma_dotted_path_is_join, strings_model, Path};

verus! {

/// An expression converts into its BSON encoding.
impl<T, V> From<Expr<T, V>> for bson::Bson {
    fn from(expr: Expr<T, V>) -> (b: bson::Bson)
        ensures
            encodes(expr@, b),
    {
        expr.into_bson()
    }
}

/// The conversion's result is stated by the `ensures` of `from`, over the
/// encoding; it is not one value of the model, so no `from_spec` is claimed.
impl<T, V> FromSpecImpl<Expr<T, V>> for bson::Bson {
    open spec fn obeys_from_spec() -> bool {
        false
    }

    open spec fn from_spec(expr: Expr<T, V>) -> bson::Bson {
        arbitrary()
    }
}

/// `{ op: operand }`.
pub open spec fn unary_model(op: Seq<char>, operand: ValueModel) -> ValueModel {
    ValueModel::Doc(seq![(op, operand)])
}

/// `{ op: [first, second] }`.
pub open spec fn binary_model(op: Seq<char>, first: ValueModel, second: ValueModel) -> ValueModel {
    ValueModel::Doc(seq![(op, ValueModel::Array(seq![first, second]))])
}

/// `{ op: [head, tail...] }`.
pub open spec fn nary_model(op: Seq<char>, head: ValueModel, tail: Seq<ValueModel>) -> ValueModel {
    ValueModel::Doc(seq![(op, ValueModel::Array(seq![head] + tail))])
}

/// `{ "$cond": { "if": condition, "then": if_true, "else": if_false } }`.
pub open spec fn cond_model(condition: ValueModel, if_true: ValueModel, if_false: ValueModel) -> ValueModel {
    ValueModel::Doc(
        seq![("$cond"@, ValueModel::Doc(seq![("if"@, condition), ("then"@, if_true), ("else"@, if_false)]))],
    )
}

/// The reference `$path` to the field at the dotted path of `name` below `prefix`.
pub open spec fn field_reference(prefix: Seq<Seq<char>>, name: Seq<char>) -> ValueModel {
    ValueModel::Str(seq!['$'] + dotted_path(prefix, name))
}

/// A typed aggregation expression over documents of type `T`, whose value has
/// type `V`.
#[derive(Debug, PartialEq)]
pub struct Expr<T, V> {
    repr: Value,
    _marker: core::marker::PhantomData<(T, V)>,
}

impl<T, V> View for Expr<T, V> {
    type V = ValueModel;

    closed spec fn view(&self) -> ValueModel {
        self.repr@
    }
}

/// The models of a sequence of expressions.
pub open spec fn exprs_model<T, V>(s: Seq<Expr<T, V>>) -> Seq<ValueModel> {
    s.map_values(|e: Expr<T, V>| e@)
}

impl<T, V> Clone for Expr<T, V> {
    fn clone(&self) -> (e: Self)
        ensures
            e@ == self@,
    {
        Expr { repr: self.repr.deep_clone(), _marker: core::marker::PhantomData }
    }
}

impl<T, V> Expr<T, V> {
    /// An expression from a value of the document model.
    pub fn from_value(repr: Value) -> (e: Self)
        ensures
            e@ == repr@,
    {
        Expr { repr, _marker: core::marker::PhantomData }
    }

    /// An expression from a raw BSON value; it bypasses the static checks and is
    /// meant for operators this builder does not offer.
    pub fn unsafe_raw(repr: bson::Bson) -> (e: Self)
        ensures
            e@ == ValueModel::Raw(repr),
    {
        Expr { repr: Value::Raw(repr), _marker: core::marker::PhantomData }
    }

    /// The expression's value in the document model.
    pub fn into_value(self) -> (v: Value)
        ensures
            v@ == self@,
    {
        self.repr
    }

    /// The expression encoded as BSON.
    pub fn as_bson(&self) -> (b: bson::Bson)
        ensures
            encodes(self@, b),
    {
        value_to_bson(&self.repr)
    }

    /// The expression encoded as BSON.
    pub fn into_bson(self) -> (b: bson::Bson)
        ensures
            encodes(self@, b),
    {
        value_to_bson(&self.repr)
    }

    /// The same expression with its value type widened to `U`.
    pub fn widen<U>(self) -> (e: Expr<T, U>)
        ensures
            e@ == self@,
    {
        Expr { repr: self.repr, _marker: core::marker::PhantomData }
    }
}

/// `{ op: operand }`.
fn unary_op<T, A, R>(operator: &str, expr: Expr<T, A>) -> (e: Expr<T, R>)
    ensures
        e@ == unary_model(operator@, expr@),
        e@ == ValueModel::Doc(seq![(operator@, expr@)]),
{
    let d = Doc::single(operator.to_owned(), expr.into_value());
    Expr::from_value(Value::Doc(d))
}

/// `{ op: [first, second] }`.
fn binary_op<T, A, B, R>(operator: &str, expr1: Expr<T, A>, expr2: Expr<T, B>) -> (e: Expr<T, R>)
    ensures
        e@ == binary_model(operator@, expr1@, expr2@),
        e@ == ValueModel::Doc(seq![(operator@, ValueModel::Array(seq![expr1@, expr2@]))]),
{
    let mut items: Vec<Value> = Vec::new();
    items.push(expr1.into_value());
    items.push(expr2.into_value());
    proof {
        lemma_values_model(items@);
        assert(values_model(items@) =~= seq![expr1@, expr2@]);
    }
    let d = Doc::single(operator.to_owned(), Value::Array(items));
    Expr::from_value(Value::Doc(d))
}

/// `{ op: [head, tail...] }`.
fn nary_op<T, A, R>(operator: &str, head: Expr<T, A>, tail: Vec<Expr<T, A>>) -> (e: Expr<T, R>)
    ensures
        e@ == nary_model(operator@, head@, exprs_model(tail@)),
        e@ == ValueModel::Doc(seq![(operator@, ValueModel::Array(seq![head@] + exprs_model(tail@)))]),
{
    let ghost all = seq![head@] + exprs_model(tail@);
    let mut items: Vec<Value> = Vec::new();
    items.push(head.into_value());
    let mut rest = tail;
    let ghost t = rest@;
    while rest.len() > 0
        invariant
            items@.len() >= 1,
            items@.len() + rest@.len() == all.len(),
            all == seq![head@] + exprs_model(t),
            rest@ == t.skip(items@.len() - 1),
            forall|j: int| 0 <= j < items@.len() ==> #[trigger] items@[j]@ == all[j],
        decreases rest.len(),
    {
        let ghost before = rest@;
        let next = rest.remove(0);
        proof {
            assert(rest@ =~= t.skip(items@.len() as int));
            assert(next == t[items@.len() - 1]);
        }
        items.push(next.into_value());
    }
    proof {
        lemma_values_model(items@);
        assert forall|j: int| 0 <= j < items@.len() implies values_model(items@)[j] == all[j] by {
            assert(items@[j]@ == all[j]);
        }
        assert(values_model(items@) =~= all);
    }
    let d = Doc::single(operator.to_owned(), Value::Array(items));
    Expr::from_value(Value::Doc(d))
}

/// A builder of typed aggregation expressions over documents of type `T`.
pub struct ExprBuilder<T> {
    prefix: Vec<String>,
    _marker: core::marker::PhantomData<T>,
}

impl<T> View for ExprBuilder<T> {
    type V = Seq<Seq<char>>;

    /// The field names that the field references of this builder start with.
    closed spec fn view(&self) -> Seq<Seq<char>> {
        strings_model(self.prefix@)
    }
}

impl<T> Default for ExprBuilder<T> {
    fn default() -> (b: Self)
        ensures
            b@ == Seq::<Seq<char>>::empty(),
    {
        Self::new()
    }
}

impl<T> ExprBuilder<T> {
    /// A builder with no prefix.
    pub fn new() -> (b: Self)
        ensures
            b@ == Seq::<Seq<char>>::empty(),
    {
        let b = ExprBuilder { prefix: Vec::new(), _marker: core::marker::PhantomData };
        assert(b@ =~= Seq::<Seq<char>>::empty());
        b
    }

    /// A literal expression of the caller's value.
    pub fn from<V>(&self, value: V) -> (e: Expr<T, V>)
        where
            V: Into<bson::Bson>,
        ensures
            exists|b: bson::Bson| converts_to(value, b) && e@ == ValueModel::Raw(b),
    {
        let b: bson::Bson = value.into();
        assert(converts_to(value, b));
        Expr::unsafe_raw(b)
    }

    /// A raw expression from BSON.
    pub fn unsafe_expr<V>(&self, value: bson::Bson) -> (e: Expr<T, V>)
        ensures
            e@ == ValueModel::Raw(value),
    {
        Expr::unsafe_raw(value)
    }

    /// The reference `$path` to the field named `name` below the prefix.
    pub fn select_named<V>(&self, name: &str) -> (e: Expr<T, V>)
        ensures
            e@ == field_reference(self@, name@),
            e@ == ValueModel::Str(seq!['$'] + join_segments(self@.push(name@))),
    {
        proof {
            lemma_dotted_path_is_join(self@, name@);
        }
        let path = dotted_field_path(&self.prefix, name);
        let mut reference = "$".to_owned();
        proof {
            reveal_strlit("$");
        }
        reference.append(path.as_str());
        assert(reference@ == seq!['$'] + dotted_path(self@, name@));
        Expr::from_value(Value::Str(reference))
    }

    /// The reference `$path` to the field `F` below the prefix.
    pub fn select<F>(&self) -> (e: Expr<T, <T as HasField<F>>::Value>)
        where
            F: FieldName,
            T: HasField<F>,
        ensures
            e@ == field_reference(self@, F::spec_field_name()),
            e@ == ValueModel::Str(seq!['$'] + join_segments(self@.push(F::spec_field_name()))),
    {
        let name = F::field_name();
        self.select_named(name)
    }

    /// A builder for the struct `U` reached from the field `F` through `lookup`,
    /// whose prefix is the prefix of the path that `lookup` returns for the path
    /// of `F`.
    pub fn with_lookup<F: FieldName, L, G: FieldName, U: HasField<G>>(&self, lookup: L) -> (b: ExprBuilder<U>)
        where
            T: HasField<F>,
            L: FnOnce(&Path<F, T, T>) -> Path<G, U, T>,
        requires
            forall|p: &Path<F, T, T>| call_requires(lookup, (p,)),
        ensures
            exists|base: Path<F, T, T>, resolved: Path<G, U, T>|
                base@ == self@ && call_ensures(lookup, (&base,), resolved) && b@ == resolved@,
    {
        let base_field: Path<F, T, T> = Path { prefix: clone_strings(&self.prefix), _marker: core::marker::PhantomData };
        let resolved = lookup(&base_field);
        ExprBuilder { prefix: resolved.prefix, _marker: core::marker::PhantomData }
    }

    /// A builder with the same prefix, for expressions through the field `F`.
    pub fn with_field<F: FieldName>(&self) -> (b: ExprBuilder<T>)
        where
            T: HasField<F>,
        ensures
            b@ == self@,
    {
        let same = |path: &Path<F, T, T>| -> (p: Path<F, T, T>)
            ensures
                p@ == path@,
            { path.clone() };
        self.with_lookup::<F, _, F, T>(same)
    }

    /// Compares two expressions for equality: `{ "$eq": [expr1, expr2] }`.
    pub fn eq<A, B>(&self, expr1: Expr<T, A>, expr2: Expr<T, B>) -> (e: Expr<T, bool>)
        where
            T: MongoComparable<A, B>,
        ensures
            e@ == binary_model("$eq"@, expr1@, expr2@),
    {
        binary_op("$eq", expr1, expr2)
    }

    /// Compares two expressions for inequality: `{ "$ne": [expr1, expr2] }`.
    pub fn ne<A, B>(&self, expr1: Expr<T, A>, expr2: Expr<T, B>) -> (e: Expr<T, bool>)
        where
            T: MongoComparable<A, B>,
        ensures
            e@ == binary_model("$ne"@, expr1@, expr2@),
    {
        binary_op("$ne", expr1, expr2)
    }

    /// Whether `expr1` is greater than `expr2`: `{ "$gt": [expr1, expr2] }`.
    pub fn gt<A, B>(&self, expr1: Expr<T, A>, expr2: Expr<T, B>) -> (e: Expr<T, bool>)
        where
            T: MongoComparable<A, B> + MongoOrdered<A, B>,
        ensures
            e@ == binary_model("$gt"@, expr1@, expr2@),
    {
        binary_op("$gt", expr1, expr2)
    }

    /// Whether `expr1` is at least `expr2`: `{ "$gte": [expr1, expr2] }`.
    pub fn gte<A, B>(&self, expr1: Expr<T, A>, expr2: Expr<T, B>) -> (e: Expr<T, bool>)
        where
            T: MongoComparable<A, B> + MongoOrdered<A, B>,
        ensures
            e@ == binary_model("$gte"@, expr1@, expr2@),
    {
        binary_op("$gte", expr1, expr2)
    }

    /// Whether `expr1` is less than `expr2`: `{ "$lt": [expr1, expr2] }`.
    pub fn lt<A, B>(&self, expr1: Expr<T, A>, expr2: Expr<T, B>) -> (e: Expr<T, bool>)
        where
            T: MongoComparable<A, B> + MongoOrdered<A, B>,
        ensures
            e@ == binary_model("$lt"@, expr1@, expr2@),
    {
        binary_op("$lt", expr1, expr2)
    }

    /// Whether `expr1` is at most `expr2`: `{ "$lte": [expr1, expr2] }`.
    pub fn lte<A, B>(&self, expr1: Expr<T, A>, expr2: Expr<T, B>) -> (e: Expr<T, bool>)
        where
            T: MongoComparable<A, B> + MongoOrdered<A, B>,
        ensures
            e@ == binary_model("$lte"@, expr1@, expr2@),
    {
        binary_op("$lte", expr1, expr2)
    }

    /// Combines boolean expressions: `{ "$and": [head, tail...] }`.
    pub fn and(&self, head: Expr<T, bool>, tail: Vec<Expr<T, bool>>) -> (e: Expr<T, bool>)
        ensures
            e@ == nary_model("$and"@, head@, exprs_model(tail@)),
    {
        nary_op("$and", head, tail)
    }

    /// Combines boolean expressions: `{ "$or": [head, tail...] }`.
    pub fn or(&self, head: Expr<T, bool>, tail: Vec<Expr<T, bool>>) -> (e: Expr<T, bool>)
        ensures
            e@ == nary_model("$or"@, head@, exprs_model(tail@)),
    {
        nary_op("$or", head, tail)
    }

    /// Negates a boolean expression: `{ "$not": expr }`.
    pub fn not(&self, expr: Expr<T, bool>) -> (e: Expr<T, bool>)
        ensures
            e@ == unary_model("$not"@, expr@),
    {
        unary_op("$not", expr)
    }

    /// Sums numeric expressions: `{ "$add": [head, tail...] }`.
    pub fn add<N>(&self, head: Expr<T, N>, tail: Vec<Expr<T, N>>) -> (e: Expr<T, N>)
        where
            N: num_traits::Num,
        ensures
            e@ == nary_model("$add"@, head@, exprs_model(tail@)),
    {
        nary_op("$add", head, tail)
    }

    /// Subtracts: `{ "$subtract": [minuend, subtrahend] }`.
    pub fn subtract<N>(&self, minuend: Expr<T, N>, subtrahend: Expr<T, N>) -> (e: Expr<T, N>)
        where
            N: num_traits::Num,
        ensures
            e@ == binary_model("$subtract"@, minuend@, subtrahend@),
    {
        binary_op("$subtract", minuend, subtrahend)
    }

    /// Multiplies numeric expressions: `{ "$multiply": [head, tail...] }`.
    pub fn multiply<N>(&self, head: Expr<T, N>, tail: Vec<Expr<T, N>>) -> (e: Expr<T, N>)
        where
            N: num_traits::Num,
        ensures
            e@ == nary_model("$multiply"@, head@, exprs_model(tail@)),
    {
        nary_op("$multiply", head, tail)
    }

    /// Divides: `{ "$divide": [dividend, divisor] }`.
    pub fn divide<N>(&self, dividend: Expr<T, N>, divisor: Expr<T, N>) -> (e: Expr<T, N>)
        where
            N: num_traits::Num,
        ensures
            e@ == binary_model("$divide"@, dividend@, divisor@),
    {
        binary_op("$divide", dividend, divisor)
    }

    /// The remainder of a division: `{ "$mod": [dividend, divisor] }`.
    pub fn modulo<N>(&self, dividend: Expr<T, N>, divisor: Expr<T, N>) -> (e: Expr<T, N>)
        where
            N: num_traits::Num,
        ensures
            e@ == binary_model("$mod"@, dividend@, divisor@),
    {
        binary_op("$mod", dividend, divisor)
    }

    /// A conditional: `{ "$cond": { "if": condition, "then": if_true, "else": if_false } }`.
    pub fn cond<V>(&self, condition: Expr<T, bool>, if_true: Expr<T, V>, if_false: Expr<T, V>) -> (e: Expr<T, V>)
        ensures
            e@ == cond_model(condition@, if_true@, if_false@),
            e@ == ValueModel::Doc(
                seq![("$cond"@, ValueModel::Doc(seq![("if"@, condition@), ("then"@, if_true@), ("else"@, if_false@)]))],
            ),
    {
        let mut inner: Vec<(String, Value)> = Vec::new();
        inner.push(("if".to_owned(), condition.into_value()));
        inner.push(("then".to_owned(), if_true.into_value()));
        inner.push(("else".to_owned(), if_false.into_value()));
        let inner_doc = Doc { entries: inner };
        proof {
            lemma_entries_model(inner_doc.entries@);
            assert(inner_doc@ =~= seq![("if"@, condition@), ("then"@, if_true@), ("else"@, if_false@)]);
        }
        let d = Doc::single("$cond".to_owned(), Value::Doc(inner_doc));
        Expr::from_value(Value::Doc(d))
    }

    /// `replacement` where `expr` is null: `{ "$ifNull": [expr, replacement] }`.
    pub fn if_null<V>(&self, expr: Expr<T, V>, replacement: Expr<T, V>) -> (e: Expr<T, V>)
        ensures
            e@ == binary_model("$ifNull"@, expr@, replacement@),
    {
        binary_op("$ifNull", expr, replacement)
    }

    /// Concatenates strings: `{ "$concat": [head, tail...] }`.
    pub fn concat(&self, head: Expr<T, String>, tail: Vec<Expr<T, String>>) -> (e: Expr<T, String>)
        ensures
            e@ == nary_model("$concat"@, head@, exprs_model(tail@)),
    {
        nary_op("$concat", head, tail)
    }

    /// Uppercases a string: `{ "$toUpper": expr }`.
    pub fn to_upper(&self, expr: Expr<T, String>) -> (e: Expr<T, String>)
        ensures
            e@ == unary_model("$toUpper"@, expr@),
    {
        unary_op("$toUpper", expr)
    }

    /// Lowercases a string: `{ "$toLower": expr }`.
    pub fn to_lower(&self, expr: Expr<T, String>) -> (e: Expr<T, String>)
        ensures
            e@ == unary_model("$toLower"@, expr@),
    {
        unary_op("$toLower", expr)
    }
}

/// An empty expression builder for documents of type `T`.
pub fn empty<T>() -> (b: ExprBuilder<T>)
    ensures
        b@ == Seq::<Seq<char>>::empty(),
{
    ExprBuilder::new()
}

} // verus!
