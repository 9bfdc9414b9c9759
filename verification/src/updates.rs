//! Update documents: update operations grouped by MongoDB update operator.
use vstd::prelude::*;
use crate::bson_codec::{
    bson_entries, bson_from_i32, bson_of_document, bson_of_i32, encodes, entries_encode, lemma_encoded_get,
};
use crate::document::{
    clone_entries, converts_all, converts_to, doc_get, doc_keys, entries_model, is_last_with_key, keys_unique, lemma_entries_model,
    lemma_entries_model_append, raw_array, raws, Doc, DocModel, Value, ValueModel,
};
use crate::field_witnesses::{FieldName, HasField};
use crate::path::{clone_strings, dotted_field_path, dotted_path, strings_model, Path};
use vstd::std_specs::convert::FromSpecImpl;

verus! {

/// The MongoDB update operators.
#[derive(Clone, Copy, Debug, PartialEq, Eq, Structural, Hash)]
pub enum UpdateOperation {
    /// `$set`: sets the value of a field.
    SetValue,
    /// `$unset`: removes a field.
    Unset,
    /// `$inc`: increments a numeric field.
    Inc,
    /// `$mul`: multiplies a numeric field.
    Mul,
    /// `$rename`: renames a field.
    Rename,
    /// `$currentDate`: sets a field to the current date.
    CurrentDate,
    /// `$addToSet`: adds a value to an array unless it is already present.
    AddToSet,
    /// `$pop`: removes the first or the last element of an array.
    Pop,
    /// `$pull`: removes the array elements that match a value or condition.
    Pull,
    /// `$pullAll`: removes all the listed values from an array.
    PullAll,
    /// `$push`: appends a value to an array.
    Push,
}

impl UpdateOperation {
    /// The operator's name in an update document.
    pub open spec fn name(self) -> Seq<char> {
        match self {
            UpdateOperation::SetValue => "$set"@,
            UpdateOperation::Unset => "$unset"@,
            UpdateOperation::Inc => "$inc"@,
            UpdateOperation::Mul => "$mul"@,
            UpdateOperation::Rename => "$rename"@,
            UpdateOperation::CurrentDate => "$currentDate"@,
            UpdateOperation::AddToSet => "$addToSet"@,
            UpdateOperation::Pop => "$pop"@,
            UpdateOperation::Pull => "$pull"@,
            UpdateOperation::PullAll => "$pullAll"@,
            UpdateOperation::Push => "$push"@,
        }
    }

    /// The MongoDB operator string for this update operation.
    pub fn as_str(&self) -> (s: &'static str)
        ensures
            s@ == self.name(),
    {
        match self {
            UpdateOperation::SetValue => "$set",
            UpdateOperation::Unset => "$unset",
            UpdateOperation::Inc => "$inc",
            UpdateOperation::Mul => "$mul",
            UpdateOperation::Rename => "$rename",
            UpdateOperation::CurrentDate => "$currentDate",
            UpdateOperation::AddToSet => "$addToSet",
            UpdateOperation::Pop => "$pop",
            UpdateOperation::Pull => "$pull",
            UpdateOperation::PullAll => "$pullAll",
            UpdateOperation::Push => "$push",
        }
    }
}

/// The kind of date that `$currentDate` sets.
#[derive(Clone, Copy, Debug, PartialEq, Eq, Structural)]
pub enum CurrentDateType {
    /// A BSON date.
    Date,
    /// A BSON timestamp.
    Timestamp,
}

impl CurrentDateType {
    /// The string that `$currentDate` expects for this kind.
    pub open spec fn name(self) -> Seq<char> {
        match self {
            CurrentDateType::Date => "date"@,
            CurrentDateType::Timestamp => "timestamp"@,
        }
    }

    /// The string that `$currentDate` expects for this kind: `date` or `timestamp`.
    pub fn as_str(&self) -> (s: &'static str)
        ensures
            s@ == self.name(),
    {
        match self {
            CurrentDateType::Date => "date",
            CurrentDateType::Timestamp => "timestamp",
        }
    }
}

/// Which end of an array `$pop` removes.
#[derive(Clone, Copy, Debug, PartialEq, Eq, Structural)]
pub enum PopStrategy {
    /// The first element (`-1`).
    First,
    /// The last element (`1`).
    Last,
}

impl PopStrategy {
    /// The number that `$pop` expects: `-1` for the first element, `1` for the last.
    pub open spec fn number(self) -> i32 {
        match self {
            PopStrategy::First => -1i32,
            PopStrategy::Last => 1i32,
        }
    }
}

impl From<PopStrategy> for bson::Bson {
    fn from(strategy: PopStrategy) -> (b: bson::Bson) {
        match strategy {
            PopStrategy::First => bson_from_i32(-1),
            PopStrategy::Last => bson_from_i32(1),
        }
    }
}

impl FromSpecImpl<PopStrategy> for bson::Bson {
    open spec fn obeys_from_spec() -> bool {
        true
    }

    open spec fn from_spec(strategy: PopStrategy) -> bson::Bson {
        bson_of_i32(strategy.number())
    }
}


/// Evidence that a field type is an array of elements of type `V`, as the
/// array update operators (`$addToSet`, `$pop`, `$pull`, `$pullAll`, `$push`)
/// require: a collection that iterates over items of type `V` (`Vec`,
/// `VecDeque`, `HashSet`, `BTreeSet`, arrays, `Option`, and maps over their
/// `(key, value)` pairs).
pub trait ArrayOf<V> {}

impl<V> ArrayOf<V> for Vec<V> {}

impl<V> ArrayOf<V> for std::collections::VecDeque<V> {}

impl<V> ArrayOf<V> for std::collections::HashSet<V> {}

impl<V> ArrayOf<V> for std::collections::BTreeSet<V> {}

impl<V, const N: usize> ArrayOf<V> for [V; N] {}

impl<V> ArrayOf<V> for Option<V> {}

impl<K, V> ArrayOf<(K, V)> for std::collections::HashMap<K, V> {}

impl<K, V> ArrayOf<(K, V)> for std::collections::BTreeMap<K, V> {}

/// The update pairs grouped by operator, in the order in which each operator
/// was first used.
pub type Groups = Seq<(UpdateOperation, DocModel)>;

/// Whether `groups` has a group for `op`.
pub open spec fn has_operation(groups: Groups, op: UpdateOperation) -> bool {
    exists|i: int| 0 <= i < groups.len() && groups[i].0 == op
}

/// The position of the first group for `op`.
pub open spec fn operation_index(groups: Groups, op: UpdateOperation) -> int
    recommends
        has_operation(groups, op),
{
    choose|i: int| 0 <= i < groups.len() && groups[i].0 == op && forall|j: int| 0 <= j < i ==> groups[j].0 != op
}

/// `pairs` appended to the group for `op`, or a new group `(op, pairs)` at the
/// end when `op` has none.
pub open spec fn group_extend(groups: Groups, op: UpdateOperation, pairs: DocModel) -> Groups {
    if has_operation(groups, op) {
        let i = operation_index(groups, op);
        groups.update(i, (op, groups[i].1 + pairs))
    } else {
        groups.push((op, pairs))
    }
}

/// The groups of `nested` merged into `groups`, one after another.
pub open spec fn merge_groups(groups: Groups, nested: Groups) -> Groups
    decreases nested.len(),
{
    if nested.len() == 0 {
        groups
    } else {
        let g = merge_groups(groups, nested.drop_last());
        group_extend(g, nested.last().0, nested.last().1)
    }
}

/// The update document: for each group, in order, the operator's name mapped to
/// the document of the group's `(path, value)` pairs, in the order they were
/// added. Encoded as BSON (see `bson_codec`), a repeated path keeps its first
/// position and takes its last value, as inserting into a `bson::Document` does.
pub open spec fn update_doc(groups: Groups) -> DocModel {
    Seq::new(groups.len(), |i: int| (groups[i].0.name(), ValueModel::Doc(groups[i].1)))
}

/// When `i` is the first position of a group for `op`, it is `operation_index`.
proof fn lemma_operation_index_first(groups: Groups, op: UpdateOperation, i: int)
    requires
        0 <= i < groups.len(),
        groups[i].0 == op,
        forall|j: int| 0 <= j < i ==> groups[j].0 != op,
    ensures
        has_operation(groups, op),
        operation_index(groups, op) == i,
{
    let w = operation_index(groups, op);
    assert(0 <= w < groups.len() && groups[w].0 == op && forall|j: int| 0 <= j < w ==> groups[j].0 != op);
    if w < i {
    } else if w > i {
    }
}

/// No operator has two groups.
pub open spec fn operations_unique(groups: Groups) -> bool {
    forall|i: int, j: int|
        0 <= i < groups.len() && 0 <= j < groups.len() && i != j ==> groups[i].0 != groups[j].0
}

/// The operator names of the groups, in order.
pub open spec fn operation_names(groups: Groups) -> Seq<Seq<char>> {
    groups.map_values(|g: (UpdateOperation, DocModel)| g.0.name())
}

/// Different operators have different names.
pub proof fn lemma_operation_names_distinct(a: UpdateOperation, b: UpdateOperation)
    ensures
        a != b ==> a.name() != b.name(),
{
    reveal_strlit("$set");
    reveal_strlit("$unset");
    reveal_strlit("$inc");
    reveal_strlit("$mul");
    reveal_strlit("$rename");
    reveal_strlit("$currentDate");
    reveal_strlit("$addToSet");
    reveal_strlit("$pop");
    reveal_strlit("$pull");
    reveal_strlit("$pullAll");
    reveal_strlit("$push");
    if a != b && a.name() == b.name() {
        assert(a.name().len() == b.name().len());
        assert(a.name()[1] == b.name()[1]);
        assert(a.name()[2] == b.name()[2]);
        assert(a.name()[a.name().len() - 1] == b.name()[b.name().len() - 1]);
    }
}

/// Adding pairs under an operator never gives that operator a second group,
/// and the operator then has a group.
pub proof fn lemma_group_extend_unique(groups: Groups, op: UpdateOperation, pairs: DocModel)
    requires
        operations_unique(groups),
    ensures
        operations_unique(group_extend(groups, op, pairs)),
        has_operation(group_extend(groups, op, pairs), op),
        group_extend(groups, op, pairs).len() == if has_operation(groups, op) {
            groups.len()
        } else {
            groups.len() + 1
        },
{
    let r = group_extend(groups, op, pairs);
    if has_operation(groups, op) {
        let i = operation_index(groups, op);
        assert(0 <= i < groups.len() && groups[i].0 == op);
        assert(r[i].0 == op);
        assert forall|a: int, b: int| 0 <= a < r.len() && 0 <= b < r.len() && a != b implies r[a].0 != r[b].0 by {
            assert(r[a].0 == groups[a].0);
            assert(r[b].0 == groups[b].0);
        }
    } else {
        assert(r[groups.len() as int].0 == op);
        assert forall|a: int, b: int| 0 <= a < r.len() && 0 <= b < r.len() && a != b implies r[a].0 != r[b].0 by {
            if a < groups.len() && b < groups.len() {
                assert(r[a].0 == groups[a].0);
                assert(r[b].0 == groups[b].0);
            } else if a < groups.len() {
                assert(r[a].0 == groups[a].0);
            } else if b < groups.len() {
                assert(r[b].0 == groups[b].0);
            }
        }
    }
}

/// Merging a nested builder's groups never gives an operator a second group.
pub proof fn lemma_merge_groups_unique(groups: Groups, nested: Groups)
    requires
        operations_unique(groups),
    ensures
        operations_unique(merge_groups(groups, nested)),
    decreases nested.len(),
{
    if nested.len() > 0 {
        lemma_merge_groups_unique(groups, nested.drop_last());
        lemma_group_extend_unique(merge_groups(groups, nested.drop_last()), nested.last().0, nested.last().1);
    }
}

/// Merging a nested builder's groups into a builder without updates gives the
/// nested builder's groups.
pub proof fn lemma_merge_into_empty(nested: Groups)
    requires
        operations_unique(nested),
    ensures
        merge_groups(Seq::empty(), nested) == nested,
    decreases nested.len(),
{
    if nested.len() > 0 {
        let init = nested.drop_last();
        assert(operations_unique(init));
        lemma_merge_into_empty(init);
        assert(!has_operation(init, nested.last().0)) by {
            if has_operation(init, nested.last().0) {
                let w = choose|i: int| 0 <= i < init.len() && init[i].0 == nested.last().0;
                assert(nested[w].0 == nested[nested.len() - 1].0);
            }
        }
        assert(init.push((nested.last().0, nested.last().1)) =~= nested);
    }
}

/// In groups where no operator repeats, the group of an operator is the one at
/// its position.
proof fn lemma_operation_index_unique(groups: Groups, i: int)
    requires
        operations_unique(groups),
        0 <= i < groups.len(),
    ensures
        has_operation(groups, groups[i].0),
        operation_index(groups, groups[i].0) == i,
{
    lemma_operation_index_first(groups, groups[i].0, i);
}

/// Adding pairs under one operator and then more under the same operator is
/// adding both at once.
proof fn lemma_group_extend_twice(h: Groups, op: UpdateOperation, p: DocModel, x: DocModel)
    requires
        operations_unique(h),
    ensures
        group_extend(group_extend(h, op, p), op, x) == group_extend(h, op, p + x),
{
    let a = group_extend(h, op, p);
    lemma_group_extend_unique(h, op, p);
    if has_operation(h, op) {
        let i = operation_index(h, op);
        lemma_key_position(h, op);
        lemma_operation_index_unique(a, i);
        assert(a[i].1 + x =~= h[i].1 + (p + x));
        assert(group_extend(a, op, x) =~= group_extend(h, op, p + x));
    } else {
        let i = h.len() as int;
        lemma_operation_index_unique(a, i);
        assert(group_extend(a, op, x) =~= group_extend(h, op, p + x));
    }
}

/// An operator that has a group has a first one.
proof fn lemma_first_operation(h: Groups, op: UpdateOperation) -> (w: int)
    requires
        has_operation(h, op),
    ensures
        0 <= w < h.len(),
        h[w].0 == op,
        forall|j: int| 0 <= j < w ==> h[j].0 != op,
    decreases h.len(),
{
    let init = h.drop_last();
    if has_operation(init, op) {
        let w = lemma_first_operation(init, op);
        assert forall|j: int| 0 <= j < w implies h[j].0 != op by {
            assert(init[j].0 != op);
        }
        assert(init[w].0 == op);
        w
    } else {
        let w = h.len() - 1;
        assert(h[w].0 == op) by {
            let i = choose|i: int| 0 <= i < h.len() && h[i].0 == op;
            if i < w {
                assert(init[i].0 == op);
            }
        }
        assert forall|j: int| 0 <= j < w implies h[j].0 != op by {
            if h[j].0 == op {
                assert(init[j].0 == op);
            }
        }
        w
    }
}

/// The first group of an operator that has one.
proof fn lemma_key_position(h: Groups, op: UpdateOperation)
    requires
        has_operation(h, op),
    ensures
        0 <= operation_index(h, op) < h.len(),
        h[operation_index(h, op)].0 == op,
{
    let w = lemma_first_operation(h, op);
    lemma_operation_index_first(h, op, w);
}

/// Adding pairs under an operator that already has a group commutes with
/// adding pairs under another operator.
proof fn lemma_group_extend_commute(
    h: Groups,
    op: UpdateOperation,
    x: DocModel,
    op2: UpdateOperation,
    y: DocModel,
)
    requires
        operations_unique(h),
        has_operation(h, op),
        op != op2,
    ensures
        group_extend(group_extend(h, op, x), op2, y) == group_extend(group_extend(h, op2, y), op, x),
{
    lemma_key_position(h, op);
    let i = operation_index(h, op);
    let a = group_extend(h, op, x);
    let b = group_extend(h, op2, y);
    lemma_group_extend_unique(h, op, x);
    lemma_group_extend_unique(h, op2, y);
    lemma_operation_index_unique(b, i);
    assert(b[i] == h[i]) by {
        if has_operation(h, op2) {
            lemma_key_position(h, op2);
        }
    }
    if has_operation(h, op2) {
        lemma_key_position(h, op2);
        let j = operation_index(h, op2);
        assert(a[j] == h[j]);
        lemma_operation_index_unique(a, j);
        assert(group_extend(a, op2, y) =~= group_extend(b, op, x));
    } else {
        assert(!has_operation(a, op2)) by {
            if has_operation(a, op2) {
                let w = choose|w: int| 0 <= w < a.len() && a[w].0 == op2;
                assert(h[w].0 == op2);
            }
        }
        assert(group_extend(a, op2, y) =~= group_extend(b, op, x));
    }
}

/// Adding pairs keeps every operator that had a group.
proof fn lemma_group_extend_keeps(h: Groups, op: UpdateOperation, x: DocModel, other: UpdateOperation)
    requires
        has_operation(h, other),
    ensures
        has_operation(group_extend(h, op, x), other),
{
    let w = choose|w: int| 0 <= w < h.len() && h[w].0 == other;
    let a = group_extend(h, op, x);
    if has_operation(h, op) {
        lemma_key_position(h, op);
    }
    assert(a[w].0 == other);
}

/// Merging groups keeps the operators of the nested groups.
proof fn lemma_merge_groups_has(groups: Groups, nested: Groups, op: UpdateOperation)
    requires
        has_operation(nested, op),
    ensures
        has_operation(merge_groups(groups, nested), op),
    decreases nested.len(),
{
    let init = nested.drop_last();
    if nested.last().0 == op {
        lemma_group_extend_unique_has(merge_groups(groups, init), op, nested.last().1);
    } else {
        assert(has_operation(init, op)) by {
            let w = choose|w: int| 0 <= w < nested.len() && nested[w].0 == op;
            assert(init[w].0 == op);
        }
        lemma_merge_groups_has(groups, init, op);
        lemma_group_extend_keeps(merge_groups(groups, init), nested.last().0, nested.last().1, op);
    }
}

/// After adding pairs under an operator, that operator has a group.
proof fn lemma_group_extend_unique_has(h: Groups, op: UpdateOperation, x: DocModel)
    ensures
        has_operation(group_extend(h, op, x), op),
{
    if has_operation(h, op) {
        lemma_key_position(h, op);
        let i = operation_index(h, op);
        assert(group_extend(h, op, x)[i].0 == op);
    } else {
        assert(group_extend(h, op, x)[h.len() as int].0 == op);
    }
}

/// Merging nested groups that then take more pairs under an operator is
/// merging the nested groups and then adding those pairs.
proof fn lemma_merge_extend(groups: Groups, nested: Groups, op: UpdateOperation, x: DocModel)
    requires
        operations_unique(groups),
        operations_unique(nested),
    ensures
        merge_groups(groups, group_extend(nested, op, x)) == group_extend(merge_groups(groups, nested), op, x),
    decreases nested.len(),
{
    if !has_operation(nested, op) {
        let n2 = group_extend(nested, op, x);
        assert(n2.drop_last() =~= nested);
    } else {
        lemma_key_position(nested, op);
        let idx = operation_index(nested, op);
        let n2 = group_extend(nested, op, x);
        let init = nested.drop_last();
        let last = nested.last();
        assert(operations_unique(init));
        lemma_merge_groups_unique(groups, init);
        if idx == nested.len() - 1 {
            assert(n2.drop_last() =~= init);
            assert(n2.last() == (op, last.1 + x));
            lemma_group_extend_twice(merge_groups(groups, init), op, last.1, x);
        } else {
            assert(last.0 != op) by {
                lemma_operation_index_unique(nested, nested.len() - 1);
            }
            assert(has_operation(init, op)) by {
                assert(init[idx].0 == op);
            }
            lemma_key_position(init, op);
            lemma_operation_index_first(init, op, idx);
            assert(n2.drop_last() =~= group_extend(init, op, x));
            assert(n2.last() == last);
            lemma_merge_extend(groups, init, op, x);
            lemma_merge_groups_has(groups, init, op);
            lemma_group_extend_commute(merge_groups(groups, init), op, x, last.0, last.1);
        }
    }
}

/// Single updates, one after another: the operator, the full path and the value.
pub type Update = (UpdateOperation, Seq<char>, ValueModel);

/// The groups after making the updates `us` one after another.
pub open spec fn apply_updates(groups: Groups, us: Seq<Update>) -> Groups
    decreases us.len(),
{
    if us.len() == 0 {
        groups
    } else {
        let u = us.last();
        group_extend(apply_updates(groups, us.drop_last()), u.0, seq![(u.1, u.2)])
    }
}

/// Making updates never gives an operator a second group.
pub proof fn lemma_apply_updates_unique(groups: Groups, us: Seq<Update>)
    requires
        operations_unique(groups),
    ensures
        operations_unique(apply_updates(groups, us)),
    decreases us.len(),
{
    if us.len() > 0 {
        lemma_apply_updates_unique(groups, us.drop_last());
        lemma_group_extend_unique(apply_updates(groups, us.drop_last()), us.last().0, seq![(us.last().1, us.last().2)]);
    }
}

/// Updates made on a nested builder that starts without updates (as the
/// closures of `with_lookup` and `with_field` are given), once merged, give
/// the same groups as making those updates, in the same order, directly on
/// this builder.
pub proof fn lemma_merge_equals_direct(groups: Groups, us: Seq<Update>)
    requires
        operations_unique(groups),
    ensures
        merge_groups(groups, apply_updates(Seq::empty(), us)) == apply_updates(groups, us),
    decreases us.len(),
{
    if us.len() > 0 {
        let init = us.drop_last();
        let u = us.last();
        lemma_merge_equals_direct(groups, init);
        lemma_apply_updates_unique(Seq::empty(), init);
        lemma_merge_extend(groups, apply_updates(Seq::empty(), init), u.0, seq![(u.1, u.2)]);
    }
}

/// The update document has one entry per group, in order, keyed by the
/// operator's name, and no key twice.
pub proof fn lemma_update_doc_keys(groups: Groups)
    requires
        operations_unique(groups),
    ensures
        doc_keys(update_doc(groups)) == operation_names(groups),
        keys_unique(update_doc(groups)),
{
    let top = update_doc(groups);
    assert forall|i: int, j: int| 0 <= i < top.len() && 0 <= j < top.len() && i != j implies top[i].0 != top[j].0 by {
        lemma_operation_names_distinct(groups[i].0, groups[j].0);
    }
    assert(doc_keys(update_doc(groups)) =~= operation_names(groups));
}

/// Adding `(path, value)` under `op`: the group of `op` (created at the end if
/// there was none) ends with the pair, so that `path` reads back `value`;
/// every group of another operator is unchanged and keeps its position.
pub proof fn lemma_update_read_back(groups: Groups, op: UpdateOperation, path: Seq<char>, value: ValueModel)
    requires
        operations_unique(groups),
    ensures
        ({
            let g2 = group_extend(groups, op, seq![(path, value)]);
            &&& operations_unique(g2)
            &&& groups.len() <= g2.len()
            &&& forall|m: int| 0 <= m < groups.len() && groups[m].0 != op ==> g2[m] == groups[m]
            &&& exists|i: int|
                0 <= i < g2.len() && g2[i].0 == op && g2[i].1.len() > 0 && g2[i].1.last() == (path, value)
                    && is_last_with_key(g2[i].1, path, g2[i].1.len() - 1)
        }),
{
    let g2 = group_extend(groups, op, seq![(path, value)]);
    lemma_group_extend_unique(groups, op, seq![(path, value)]);
    if has_operation(groups, op) {
        lemma_key_position(groups, op);
        let i = operation_index(groups, op);
        assert(g2[i].0 == op && g2[i].1.last() == (path, value));
        assert(is_last_with_key(g2[i].1, path, g2[i].1.len() - 1));
    } else {
        let i = groups.len() as int;
        assert(g2[i].1 == seq![(path, value)]);
        assert(is_last_with_key(g2[i].1, path, g2[i].1.len() - 1));
    }
}

/// Reading an encoded update document: the group of each operator is found
/// under the operator's name, and in it each path reads back the encoding of
/// the value of the last update of that path.
pub proof fn lemma_update_doc_get(
    groups: Groups,
    out: Seq<(Seq<char>, bson::Bson)>,
    i: int,
    path: Seq<char>,
    j: int,
)
    requires
        operations_unique(groups),
        entries_encode(update_doc(groups), out),
        0 <= i < groups.len(),
        is_last_with_key(groups[i].1, path, j),
    ensures
        exists|d: bson::Document, b: bson::Bson|
            {
                &&& doc_get(out, groups[i].0.name()) == Some(bson_of_document(d))
                &&& doc_get(bson_entries(d), path) == Some(b)
                &&& encodes(groups[i].1[j].1, b)
            },
{
    let top = update_doc(groups);
    lemma_update_doc_keys(groups);
    assert(is_last_with_key(top, groups[i].0.name(), i)) by {
        assert forall|m: int| i < m < top.len() implies top[m].0 != groups[i].0.name() by {
            assert(top[m].0 == doc_keys(top)[m]);
            assert(top[i].0 == doc_keys(top)[i]);
        }
    }
    lemma_encoded_get(top, out, groups[i].0.name(), i);
    let b0 = choose|b: bson::Bson| doc_get(out, groups[i].0.name()) == Some(b) && encodes(top[i].1, b);
    let d = choose|d: bson::Document|
        #![trigger bson_of_document(d)]
        b0 == bson_of_document(d) && entries_encode(groups[i].1, bson_entries(d));
    lemma_encoded_get(groups[i].1, bson_entries(d), path, j);
}

/// The model of an [`UpdateBuilder`].
pub struct UpdateModel {
    /// The field names that every path of this builder starts with.
    pub prefix: Seq<Seq<char>>,
    /// The update pairs grouped by operator.
    pub groups: Groups,
}

impl UpdateModel {
    /// The same builder with `(path, value)` added to the group of `op`.
    pub open spec fn with_update(self, op: UpdateOperation, path: Seq<char>, value: ValueModel) -> UpdateModel {
        UpdateModel { prefix: self.prefix, groups: group_extend(self.groups, op, seq![(path, value)]) }
    }
}

/// The models of the builder's groups.
pub open spec fn groups_model(c: Seq<(UpdateOperation, Vec<(String, Value)>)>) -> Groups {
    Seq::new(c.len(), |i: int| (c[i].0, entries_model(c[i].1@)))
}

/// A builder of MongoDB update documents on documents of type `T`.
pub struct UpdateBuilder<T> {
    /// The field names that the paths of this builder start with.
    pub prefix: Vec<String>,
    clauses: Vec<(UpdateOperation, Vec<(String, Value)>)>,
    _marker: core::marker::PhantomData<T>,
}

impl<T> View for UpdateBuilder<T> {
    type V = UpdateModel;

    closed spec fn view(&self) -> UpdateModel {
        UpdateModel { prefix: strings_model(self.prefix@), groups: groups_model(self.clauses@) }
    }
}

impl<T> Default for UpdateBuilder<T> {
    fn default() -> (b: Self)
        ensures
            b@.prefix == Seq::<Seq<char>>::empty(),
            b@.groups == Seq::<(UpdateOperation, DocModel)>::empty(),
            operations_unique(b@.groups),
    {
        Self::new()
    }
}

impl<T> UpdateBuilder<T> {
    /// An empty builder.
    pub fn new() -> (b: Self)
        ensures
            b@.prefix == Seq::<Seq<char>>::empty(),
            b@.groups == Seq::<(UpdateOperation, DocModel)>::empty(),
            operations_unique(b@.groups),
    {
        let b = UpdateBuilder { prefix: Vec::new(), clauses: Vec::new(), _marker: core::marker::PhantomData };
        assert(b@.prefix =~= Seq::<Seq<char>>::empty());
        assert(b@.groups =~= Seq::<(UpdateOperation, DocModel)>::empty());
        b
    }

    /// The dotted path of the field `F` below this builder's prefix.
    pub fn field_path<F: FieldName>(&self) -> (p: String)
        ensures
            p@ == dotted_path(self@.prefix, F::spec_field_name()),
    {
        let name = F::field_name();
        let p = dotted_field_path(&self.prefix, name);
        assert(p@ == dotted_path(self@.prefix, name@));
        p
    }

    /// Appends `pairs` to the group of `op`, creating the group at the end when
    /// `op` has none.
    pub fn extend_group(&mut self, op: UpdateOperation, pairs: Vec<(String, Value)>)
        ensures
            final(self)@.prefix == old(self)@.prefix,
            final(self)@.groups == group_extend(old(self)@.groups, op, entries_model(pairs@)),
    {
        let ghost old_groups = self@.groups;
        let n = self.clauses.len();
        let mut i: usize = 0;
        while i < n
            invariant
                n == self.clauses@.len(),
                self@.groups == old_groups,
                old_groups == old(self)@.groups,
                self@.prefix == old(self)@.prefix,
                0 <= i <= n,
                forall|j: int| 0 <= j < i ==> old_groups[j].0 != op,
            decreases n - i,
        {
            if self.clauses[i].0 == op {
                proof {
                    lemma_operation_index_first(old_groups, op, i as int);
                }
                let (o, mut existing) = self.clauses.remove(i);
                let ghost before = existing@;
                let mut more = pairs;
                let ghost added = more@;
                existing.append(&mut more);
                proof {
                    lemma_entries_model_append(before, added);
                }
                self.clauses.insert(i, (o, existing));
                assert(self@.groups =~= group_extend(old_groups, op, entries_model(pairs@)));
                return;
            }
            i = i + 1;
        }
        self.clauses.push((op, pairs));
        assert(self@.groups =~= group_extend(old_groups, op, entries_model(pairs@)));
    }

    /// Adds the pair `(path, value)` to the group of `op`.
    pub fn push_clause(&mut self, op: UpdateOperation, path: String, value: Value)
        ensures
            final(self)@.prefix == old(self)@.prefix,
            final(self)@.groups == group_extend(old(self)@.groups, op, seq![(path@, value@)]),
    {
        let mut pairs: Vec<(String, Value)> = Vec::new();
        pairs.push((path, value));
        proof {
            lemma_entries_model(pairs@);
            assert(entries_model(pairs@) =~= seq![(path@, value@)]);
        }
        self.extend_group(op, pairs);
    }

    /// Adds `(path, value)` to the group of `op`, where the path is that of the
    /// field named `name` below the prefix.
    pub fn add_update(&mut self, op: UpdateOperation, name: &str, value: Value) -> (r: &mut Self)
        ensures
            (*r)@ == old(self)@.with_update(op, dotted_path(old(self)@.prefix, name@), value@),
            *final(self) == *final(r),
    {
        let path = dotted_field_path(&self.prefix, name);
        self.push_clause(op, path, value);
        self
    }

    /// Merges the groups of a nested builder, one after another: the pairs of
    /// an operator this builder has are appended to its group, a new operator
    /// becomes a new group at the end.
    pub fn merge_from<U>(&mut self, nested: UpdateBuilder<U>) -> (r: &mut Self)
        ensures
            (*r)@.prefix == old(self)@.prefix,
            (*r)@.groups == merge_groups(old(self)@.groups, nested@.groups),
            *final(self) == *final(r),
    {
        let ghost all = nested@.groups;
        let mut rest = nested.clauses;
        let ghost mut done: nat = 0;
        while rest.len() > 0
            invariant
                done + rest@.len() == all.len(),
                groups_model(rest@) == all.skip(done as int),
                self@.prefix == old(self)@.prefix,
                self@.groups == merge_groups(old(self)@.groups, all.take(done as int)),
            decreases rest.len(),
        {
            let ghost before = rest@;
            let (op, pairs) = rest.remove(0);
            proof {
                assert(groups_model(before)[0] == (op, entries_model(pairs@)));
                assert(all[done as int] == (op, entries_model(pairs@)));
                assert(all.take(done as int + 1).drop_last() =~= all.take(done as int));
                assert forall|k: int| 0 <= k < rest@.len() implies #[trigger] groups_model(rest@)[k] == all.skip(done as int + 1)[k] by {
                    assert(rest@[k] == before[k + 1]);
                    assert(groups_model(before)[k + 1] == all.skip(done as int)[k + 1]);
                }
                assert(groups_model(rest@) =~= all.skip(done as int + 1));
            }
            self.extend_group(op, pairs);
            proof {
                done = done + 1;
            }
        }
        assert(all.take(all.len() as int) =~= all);
        self
    }

    /// Updates fields nested below the field `F`: `lookup` turns the path of `F`
    /// into the path of the target field `G` of the nested struct `U`, and `f`
    /// adds updates to a builder whose prefix is that path; its groups are then
    /// merged into this builder's.
    pub fn with_lookup<F: FieldName, L, G: FieldName, U: HasField<G>, N>(&mut self, lookup: L, f: N) -> (r: &mut Self)
        where
            T: HasField<F>,
            L: FnOnce(&Path<F, T, T>) -> Path<G, U, T>,
            N: FnOnce(&mut UpdateBuilder<U>),
        requires
            forall|p: &Path<F, T, T>| call_requires(lookup, (p,)),
            forall|b: &mut UpdateBuilder<U>| call_requires(f, (b,)),
        ensures
            exists|base: Path<F, T, T>, resolved: Path<G, U, T>, b: &mut UpdateBuilder<U>, out: ()|
                {
                    &&& base@ == old(self)@.prefix
                    &&& call_ensures(lookup, (&base,), resolved)
                    &&& (*b)@ == (UpdateModel { prefix: resolved@, groups: Seq::empty() })
                    &&& call_ensures(f, (b,), out)
                    &&& (*r)@ == (UpdateModel {
                        prefix: old(self)@.prefix,
                        groups: merge_groups(old(self)@.groups, (*final(b))@.groups),
                    })
                },
            *final(self) == *final(r),
    {
        let base_field: Path<F, T, T> = Path { prefix: clone_strings(&self.prefix), _marker: core::marker::PhantomData };
        let resolved = lookup(&base_field);
        let mut nested_builder = UpdateBuilder::<U> {
            prefix: resolved.prefix,
            clauses: Vec::new(),
            _marker: core::marker::PhantomData,
        };
        assert(nested_builder@.groups =~= Seq::<(UpdateOperation, DocModel)>::empty());
        f(&mut nested_builder);
        let ghost ng = nested_builder@.groups;
        let r = self.merge_from(nested_builder);
        assert((*r)@ == (UpdateModel { prefix: old(self)@.prefix, groups: merge_groups(old(self)@.groups, ng) }));
        r
    }

    /// Updates through the field `F` itself: `f` adds updates to a builder with
    /// the same prefix as this one, whose groups are then merged into this
    /// builder's.
    pub fn with_field<F: FieldName, N>(&mut self, f: N) -> (r: &mut Self)
        where
            T: HasField<F>,
            N: FnOnce(&mut UpdateBuilder<T>),
        requires
            forall|b: &mut UpdateBuilder<T>| call_requires(f, (b,)),
        ensures
            exists|b: &mut UpdateBuilder<T>, out: ()|
                {
                    &&& (*b)@ == (UpdateModel { prefix: old(self)@.prefix, groups: Seq::empty() })
                    &&& call_ensures(f, (b,), out)
                    &&& (*r)@ == (UpdateModel {
                        prefix: old(self)@.prefix,
                        groups: merge_groups(old(self)@.groups, (*final(b))@.groups),
                    })
                },
            *final(self) == *final(r),
    {
        let same = |path: &Path<F, T, T>| -> (p: Path<F, T, T>)
            ensures
                p@ == path@,
            { path.clone() };
        self.with_lookup::<F, _, F, T, N>(same, f)
    }

    /// The update document: for each operator, in the order of first use, the
    /// operator's name mapped to the document of its `(path, value)` pairs.
    pub fn build(&mut self) -> (d: Doc)
        ensures
            d@ == update_doc(old(self)@.groups),
            operations_unique(old(self)@.groups) ==> keys_unique(d@) && doc_keys(d@) == operation_names(
                old(self)@.groups,
            ),
            final(self)@ == old(self)@,
    {
        proof {
            if operations_unique(self@.groups) {
                lemma_update_doc_keys(self@.groups);
            }
        }
        let ghost groups = self@.groups;
        let mut top: Vec<(String, Value)> = Vec::new();
        let n = self.clauses.len();
        let mut i: usize = 0;
        while i < n
            invariant
                n == self.clauses@.len(),
                0 <= i <= n,
                groups == groups_model(self.clauses@),
                entries_model(top@) == update_doc(groups).take(i as int),
            decreases n - i,
        {
            let op = self.clauses[i].0;
            let pairs = clone_entries(&self.clauses[i].1);
            let ghost before = top@;
            top.push((op.as_str().to_owned(), Value::Doc(Doc { entries: pairs })));
            proof {
                lemma_entries_model(before);
                lemma_entries_model(top@);
                assert(entries_model(top@) =~= update_doc(groups).take(i as int + 1));
            }
            i = i + 1;
        }
        assert(update_doc(groups).take(n as int) =~= update_doc(groups));
        Doc { entries: top }
    }

    /// Adds `value` to the group of `op` under the path of the field `F`.
    fn update_field<F: FieldName>(&mut self, op: UpdateOperation, value: Value) -> (r: &mut Self)
        ensures
            (*r)@ == old(self)@.with_update(op, dotted_path(old(self)@.prefix, F::spec_field_name()), value@),
            *final(self) == *final(r),
    {
        let name = F::field_name();
        self.add_update(op, name, value)
    }

    /// Sets the field `F` to `value` (`$set`).
    pub fn set<F: FieldName, V: Into<bson::Bson>>(&mut self, value: V) -> (r: &mut Self)
        where
            T: HasField<F>,
        ensures
            exists|v: bson::Bson|
                converts_to(value, v) && (*r)@ == old(self)@.with_update(UpdateOperation::SetValue, dotted_path(old(self)@.prefix, F::spec_field_name()), ValueModel::Raw(v)),
            *final(self) == *final(r),
    {
        let b: bson::Bson = value.into();
        assert(converts_to(value, b));
        let value = Value::Raw(b);
        self.update_field::<F>(UpdateOperation::SetValue, value)
    }

    /// Removes the field `F` (`$unset`, with the empty string as value, which
    /// MongoDB ignores).
    pub fn unset<F: FieldName>(&mut self) -> (r: &mut Self)
        where
            T: HasField<F>,
        ensures
            (*r)@ == old(self)@.with_update(UpdateOperation::Unset, dotted_path(old(self)@.prefix, F::spec_field_name()), ValueModel::Str(Seq::empty())),
            *final(self) == *final(r),
    {
        let value = Value::Str(String::new());
        self.update_field::<F>(UpdateOperation::Unset, value)
    }

    /// Increments the field `F` by `value` (`$inc`).
    pub fn inc<F: FieldName, N: num_traits::Num + Into<bson::Bson>>(&mut self, value: N) -> (r: &mut Self)
        where
            T: HasField<F>,
        ensures
            exists|v: bson::Bson|
                converts_to(value, v) && (*r)@ == old(self)@.with_update(UpdateOperation::Inc, dotted_path(old(self)@.prefix, F::spec_field_name()), ValueModel::Raw(v)),
            *final(self) == *final(r),
    {
        let b: bson::Bson = value.into();
        assert(converts_to(value, b));
        let value = Value::Raw(b);
        self.update_field::<F>(UpdateOperation::Inc, value)
    }

    /// Multiplies the field `F` by `value` (`$mul`).
    pub fn mul<F: FieldName, N: num_traits::Num + Into<bson::Bson>>(&mut self, value: N) -> (r: &mut Self)
        where
            T: HasField<F>,
        ensures
            exists|v: bson::Bson|
                converts_to(value, v) && (*r)@ == old(self)@.with_update(UpdateOperation::Mul, dotted_path(old(self)@.prefix, F::spec_field_name()), ValueModel::Raw(v)),
            *final(self) == *final(r),
    {
        let b: bson::Bson = value.into();
        assert(converts_to(value, b));
        let value = Value::Raw(b);
        self.update_field::<F>(UpdateOperation::Mul, value)
    }

    /// Renames the field `F` to `new_name` (`$rename`).
    pub fn rename<F: FieldName>(&mut self, new_name: &str) -> (r: &mut Self)
        where
            T: HasField<F>,
        ensures
            (*r)@ == old(self)@.with_update(UpdateOperation::Rename, dotted_path(old(self)@.prefix, F::spec_field_name()), ValueModel::Str(new_name@)),
            *final(self) == *final(r),
    {
        let value = Value::Str(new_name.to_owned());
        self.update_field::<F>(UpdateOperation::Rename, value)
    }

    /// Sets the field `F` to the current date of the given kind (`$currentDate`).
    pub fn current_date<F: FieldName>(&mut self, date_type: CurrentDateType) -> (r: &mut Self)
        where
            T: HasField<F>,
        ensures
            (*r)@ == old(self)@.with_update(UpdateOperation::CurrentDate, dotted_path(old(self)@.prefix, F::spec_field_name()), ValueModel::Str(date_type.name())),
            *final(self) == *final(r),
    {
        let value = Value::Str(date_type.as_str().to_owned());
        self.update_field::<F>(UpdateOperation::CurrentDate, value)
    }

    /// Adds `value` to the array field `F` unless present (`$addToSet`).
    pub fn add_to_set<F: FieldName, V: Into<bson::Bson>>(&mut self, value: V) -> (r: &mut Self)
        where
            T: HasField<F>,
            <T as HasField<F>>::Value: ArrayOf<V>,
        ensures
            exists|v: bson::Bson|
                converts_to(value, v) && (*r)@ == old(self)@.with_update(UpdateOperation::AddToSet, dotted_path(old(self)@.prefix, F::spec_field_name()), ValueModel::Raw(v)),
            *final(self) == *final(r),
    {
        let b: bson::Bson = value.into();
        assert(converts_to(value, b));
        let value = Value::Raw(b);
        self.update_field::<F>(UpdateOperation::AddToSet, value)
    }

    /// Removes the first (`-1`) or last (`1`) element of the array field `F` (`$pop`).
    pub fn pop<F: FieldName>(&mut self, strategy: PopStrategy) -> (r: &mut Self)
        where
            T: HasField<F>,
            <T as HasField<F>>::Value: IntoIterator,
        ensures
            (*r)@ == old(self)@.with_update(UpdateOperation::Pop, dotted_path(old(self)@.prefix, F::spec_field_name()), ValueModel::Int32(strategy.number())),
            *final(self) == *final(r),
    {
        let n: i32 = match strategy {
            PopStrategy::First => -1,
            PopStrategy::Last => 1,
        };
        let value = Value::Int32(n);
        self.update_field::<F>(UpdateOperation::Pop, value)
    }

    /// Removes the elements of the array field `F` that match `cond` (`$pull`).
    pub fn pull_expr<F: FieldName>(&mut self, cond: bson::Bson) -> (r: &mut Self)
        where
            T: HasField<F>,
            <T as HasField<F>>::Value: IntoIterator,
        ensures
            (*r)@ == old(self)@.with_update(UpdateOperation::Pull, dotted_path(old(self)@.prefix, F::spec_field_name()), ValueModel::Raw(cond)),
            *final(self) == *final(r),
    {
        let value = Value::Raw(cond);
        self.update_field::<F>(UpdateOperation::Pull, value)
    }

    /// Removes every element equal to `value` from the array field `F` (`$pull`).
    pub fn pull<F: FieldName, V: Into<bson::Bson>>(&mut self, value: V) -> (r: &mut Self)
        where
            T: HasField<F>,
            <T as HasField<F>>::Value: ArrayOf<V>,
        ensures
            exists|v: bson::Bson|
                converts_to(value, v) && (*r)@ == old(self)@.with_update(UpdateOperation::Pull, dotted_path(old(self)@.prefix, F::spec_field_name()), ValueModel::Raw(v)),
            *final(self) == *final(r),
    {
        let b: bson::Bson = value.into();
        assert(converts_to(value, b));
        let value = Value::Raw(b);
        self.update_field::<F>(UpdateOperation::Pull, value)
    }

    /// Removes every element equal to one of `values` from the array field `F`
    /// (`$pullAll`); the values are sent as an array, in order.
    pub fn pull_all<F: FieldName, V>(&mut self, values: Vec<V>) -> (r: &mut Self)
        where
            T: HasField<F>,
            V: Into<bson::Bson>,
            <T as HasField<F>>::Value: ArrayOf<V>,
        ensures
            exists|vs: Seq<bson::Bson>|
                converts_all(values@, vs) && (*r)@ == old(self)@.with_update(
                    UpdateOperation::PullAll,
                    dotted_path(old(self)@.prefix, F::spec_field_name()),
                    ValueModel::Array(raws(vs)),
                ),
            *final(self) == *final(r),
    {
        let value = raw_array(values);
        self.update_field::<F>(UpdateOperation::PullAll, value)
    }

    /// Appends `value` to the array field `F` (`$push`).
    pub fn push<F: FieldName, V: Into<bson::Bson>>(&mut self, value: V) -> (r: &mut Self)
        where
            T: HasField<F>,
            <T as HasField<F>>::Value: ArrayOf<V>,
        ensures
            exists|v: bson::Bson|
                converts_to(value, v) && (*r)@ == old(self)@.with_update(UpdateOperation::Push, dotted_path(old(self)@.prefix, F::spec_field_name()), ValueModel::Raw(v)),
            *final(self) == *final(r),
    {
        let b: bson::Bson = value.into();
        assert(converts_to(value, b));
        let value = Value::Raw(b);
        self.update_field::<F>(UpdateOperation::Push, value)
    }
}

/// An empty update builder for documents of type `T`.
pub fn empty<T>() -> (b: UpdateBuilder<T>)
    ensures
        b@.prefix == Seq::<Seq<char>>::empty(),
        b@.groups == Seq::<(UpdateOperation, DocModel)>::empty(),
        operations_unique(b@.groups),
{
    UpdateBuilder::new()
}

} // verus!
