//! The rules by which the `MongoComparable` derive decides which comparisons a
//! struct's fields allow.
//!
//! The derive reads the struct's field types and emits one
//! `impl MongoComparable<FieldType, Other> for Struct {}` per allowed pair.
//! This module computes that list from a model of the field types: which
//! types are compatible, how a type is rendered as text (the text identifies
//! a pair, so that no pair is emitted twice), and the list itself.
use vstd::prelude::*;

verus! {

/// A Rust type as the derive reads it.
#[derive(Debug)]
pub enum TypeRepr {
    /// A path type such as `Vec<String>` or `chrono::DateTime<chrono::Utc>`,
    /// by its segments, with its debug text (which names a path that has no
    /// segment).
    Path { segments: Vec<PathSegment>, debug: String },
    /// Any other type, by its debug text.
    Other(String),
}

/// One segment of a path type: `DateTime<Utc>` in `chrono::DateTime<Utc>`.
#[derive(Debug)]
pub struct PathSegment {
    pub ident: String,
    /// The arguments in angle brackets, in order.
    pub args: Vec<GenericArgument>,
}

/// An argument in angle brackets.
#[derive(Debug)]
pub enum GenericArgument {
    /// A type argument.
    Type(TypeRepr),
    /// Any other argument (a lifetime, a constant, an associated type binding).
    Other,
}

/// `a == b` on strings.
fn str_equal(a: &str, b: &str) -> (r: bool)
    ensures
        r == (a@ == b@),
{
    a.to_owned() == b.to_owned()
}

/// The types that a field of the type named `name` may also be compared
/// with: `i32` with `i16`; `i64` with `i16`, `i32`; `f64` with `i16`, `i32`,
/// `i64`, `f32`; `char` with `String`; `DateTime` with `i64`; no other type
/// with any.
pub open spec fn compatible_types(name: Seq<char>) -> Seq<Seq<char>> {
    if name == "i32"@ {
        seq!["i16"@]
    } else if name == "i64"@ {
        seq!["i16"@, "i32"@]
    } else if name == "f64"@ {
        seq!["i16"@, "i32"@, "i64"@, "f32"@]
    } else if name == "char"@ {
        seq!["String"@]
    } else if name == "DateTime"@ {
        seq!["i64"@]
    } else {
        Seq::empty()
    }
}

/// The names of the collection types whose fields compare with their elements.
pub open spec fn is_collection_type(name: Seq<char>) -> bool {
    name == "Vec"@ || name == "HashSet"@ || name == "BTreeSet"@ || name == "LinkedList"@
        || name == "VecDeque"@ || name == "BinaryHeap"@ || name == "HashMap"@
        || name == "BTreeMap"@
}

/// The parts joined with `sep` between consecutive parts.
pub open spec fn join_with(parts: Seq<Seq<char>>, sep: Seq<char>) -> Seq<char>
    decreases parts.len(),
{
    if parts.len() == 0 {
        Seq::empty()
    } else if parts.len() == 1 {
        parts[0]
    } else {
        join_with(parts.drop_last(), sep) + sep + parts.last()
    }
}

/// The text of a type: for a path, the last segment's name, followed by the
/// texts of its type arguments in angle brackets, separated by `, `, when it
/// has any (other arguments are left out); a path without segments, and any
/// other type, has its debug text.
pub open spec fn type_text(ty: TypeRepr) -> Seq<char>
    decreases ty,
{
    match ty {
        TypeRepr::Other(d) => d@,
        TypeRepr::Path { segments: segs, debug } => if segs@.len() == 0 {
            debug@
        } else {
            segment_text(segs@.last())
        },
    }
}

/// The text of a path segment: its name, and the texts of its type arguments
/// in angle brackets when it has any.
pub open spec fn segment_text(seg: PathSegment) -> Seq<char>
    decreases seg,
{
    let parts = argument_texts(seg.args@);
    if parts.len() == 0 {
        seg.ident@
    } else {
        seg.ident@ + "<"@ + join_with(parts, ", "@) + ">"@
    }
}

/// The texts of the type arguments among `args`, in order.
pub open spec fn argument_texts(args: Seq<GenericArgument>) -> Seq<Seq<char>>
    decreases args,
{
    if args.len() == 0 {
        Seq::empty()
    } else {
        let rest = argument_texts(args.drop_last());
        match args.last() {
            GenericArgument::Type(t) => rest.push(type_text(t)),
            GenericArgument::Other => rest,
        }
    }
}

/// The parts joined with `sep`.
fn join_strings(parts: &Vec<String>, sep: &str) -> (r: String)
    ensures
        r@ == join_with(parts@.map_values(|s: String| s@), sep@),
{
    let ghost all = parts@.map_values(|s: String| s@);
    let mut out = String::new();
    let mut i: usize = 0;
    while i < parts.len()
        invariant
            0 <= i <= parts@.len(),
            all == parts@.map_values(|s: String| s@),
            out@ == join_with(all.take(i as int), sep@),
        decreases parts.len() - i,
    {
        proof {
            assert(all.take(i + 1).drop_last() =~= all.take(i as int));
            assert(all.take(i + 1).last() == parts@[i as int]@);
        }
        if i > 0 {
            out.append(sep);
        } else {
            assert(all.take(1) =~= seq![parts@[0]@]);
        }
        out.append(parts[i].as_str());
        i = i + 1;
    }
    assert(all.take(parts@.len() as int) =~= all);
    out
}

/// The text of a type (see [`type_text`]); it identifies a pair of types when
/// the derive lists the comparisons it allows.
pub fn type_to_string(ty: &TypeRepr) -> (r: String)
    ensures
        r@ == type_text(*ty),
    decreases ty,
{
    match ty {
        TypeRepr::Other(d) => d.clone(),
        TypeRepr::Path { segments: segs, debug } => {
            if segs.len() == 0 {
                debug.clone()
            } else {
                let last = &segs[segs.len() - 1];
                proof {
                    assert(decreases_to!(*ty => (*ty)->segments));
                    assert(decreases_to!((*ty)->segments => ((*ty)->segments)@));
                    assert(decreases_to!(((*ty)->segments)@ => ((*ty)->segments)@[segs@.len() - 1]));
                }
                segment_to_string(last)
            }
        },
    }
}

/// The text of a path segment (see [`segment_text`]).
fn segment_to_string(seg: &PathSegment) -> (r: String)
    ensures
        r@ == segment_text(*seg),
    decreases seg,
{
    let ghost texts = argument_texts(seg.args@);
    let mut parts: Vec<String> = Vec::new();
    let mut i: usize = 0;
    while i < seg.args.len()
        invariant
            0 <= i <= seg.args@.len(),
            texts == argument_texts(seg.args@),
            parts@.map_values(|s: String| s@) == argument_texts(seg.args@.take(i as int)),
        decreases seg.args.len() - i,
    {
        let ghost before = parts@;
        proof {
            assert(seg.args@.take(i + 1).drop_last() =~= seg.args@.take(i as int));
        }
        match &seg.args[i] {
            GenericArgument::Type(t) => {
                proof {
                    assert(decreases_to!(*seg => seg.args));
                    assert(decreases_to!(seg.args => seg.args@));
                    assert(decreases_to!(seg.args@ => seg.args@[i as int]));
                    assert(decreases_to!(seg.args@[i as int] => (seg.args@[i as int])->Type_0));
                }
                let text = type_to_string(t);
                parts.push(text);
                assert(parts@.map_values(|s: String| s@) =~= before.map_values(|s: String| s@).push(text@));
            },
            GenericArgument::Other => {},
        }
        i = i + 1;
    }
    assert(seg.args@.take(seg.args@.len() as int) =~= seg.args@);
    if parts.len() == 0 {
        seg.ident.clone()
    } else {
        let mut out = seg.ident.clone();
        out.append("<");
        let joined = join_strings(&parts, ", ");
        out.append(joined.as_str());
        out.append(">");
        out
    }
}

/// The first argument in angle brackets of a path type's last segment, when it
/// is a type.
pub open spec fn first_type_argument(ty: TypeRepr) -> Option<TypeRepr> {
    match ty {
        TypeRepr::Path { segments: segs, .. } => if segs@.len() > 0 && segs@.last().args@.len() > 0 {
            match segs@.last().args@[0] {
                GenericArgument::Type(t) => Some(t),
                GenericArgument::Other => None,
            }
        } else {
            None
        },
        TypeRepr::Other(_) => None,
    }
}

/// The first argument in angle brackets of a path type's last segment, when it
/// is a type.
pub fn extract_generic_arg(ty: &TypeRepr) -> (r: Option<&TypeRepr>)
    ensures
        match r {
            Some(t) => first_type_argument(*ty) == Some(*t),
            None => first_type_argument(*ty) is None,
        },
{
    match ty {
        TypeRepr::Path { segments: segs, .. } => {
            if segs.len() > 0 && segs[segs.len() - 1].args.len() > 0 {
                match &segs[segs.len() - 1].args[0] {
                    GenericArgument::Type(t) => Some(t),
                    GenericArgument::Other => None,
                }
            } else {
                None
            }
        },
        TypeRepr::Other(_) => None,
    }
}

/// The type on the right of a comparison that the derive allows for a field.
#[derive(Debug, PartialEq)]
pub enum ComparableType {
    /// The field's own type.
    FieldType,
    /// A type named by a compatibility rule, such as `i16` or `String`.
    Named(String),
    /// `chrono::DateTime<chrono::Utc>`, for the rule name `DateTime`.
    ChronoDateTime,
    /// The field type's first type argument: `T` for `Option<T>` or `Vec<T>`.
    TypeArgument,
    /// `Option<N>` for a type `N` named by a compatibility rule.
    OptionOfNamed(String),
    /// `Option<chrono::DateTime<chrono::Utc>>`.
    OptionOfChronoDateTime,
}

/// The model of a [`ComparableType`].
pub enum ComparableModel {
    FieldType,
    Named(Seq<char>),
    ChronoDateTime,
    TypeArgument,
    OptionOfNamed(Seq<char>),
    OptionOfChronoDateTime,
}

impl View for ComparableType {
    type V = ComparableModel;

    open spec fn view(&self) -> ComparableModel {
        match self {
            ComparableType::FieldType => ComparableModel::FieldType,
            ComparableType::Named(n) => ComparableModel::Named(n@),
            ComparableType::ChronoDateTime => ComparableModel::ChronoDateTime,
            ComparableType::TypeArgument => ComparableModel::TypeArgument,
            ComparableType::OptionOfNamed(n) => ComparableModel::OptionOfNamed(n@),
            ComparableType::OptionOfChronoDateTime => ComparableModel::OptionOfChronoDateTime,
        }
    }
}

/// One comparison the derive allows: the type of the field at position
/// `field` compared with `other`.
#[derive(Debug, PartialEq)]
pub struct ComparableImpl {
    pub field: usize,
    pub other: ComparableType,
}

impl View for ComparableImpl {
    type V = (int, ComparableModel);

    open spec fn view(&self) -> (int, ComparableModel) {
        (self.field as int, self.other@)
    }
}

/// The type that the rule name `c` stands for.
pub open spec fn named_type(c: Seq<char>) -> ComparableModel {
    if c == "DateTime"@ {
        ComparableModel::ChronoDateTime
    } else {
        ComparableModel::Named(c)
    }
}

/// `Option` of the type that the rule name `c` stands for.
pub open spec fn optional_named_type(c: Seq<char>) -> ComparableModel {
    if c == "DateTime"@ {
        ComparableModel::OptionOfChronoDateTime
    } else {
        ComparableModel::OptionOfNamed(c)
    }
}

/// A candidate comparison, with the text that identifies it.
pub type Candidate = (Seq<char>, (int, ComparableModel));

/// The name of a path type's last segment.
pub open spec fn last_name(ty: TypeRepr) -> Option<Seq<char>> {
    match ty {
        TypeRepr::Path { segments: segs, .. } => if segs@.len() > 0 {
            Some(segs@.last().ident@)
        } else {
            None
        },
        TypeRepr::Other(_) => None,
    }
}

/// The candidates from the compatibility rules for the type named `name` of
/// the field at position `i`: `(name_c, c)` for each compatible `c`.
pub open spec fn rule_candidates(i: int, name: Seq<char>) -> Seq<Candidate> {
    compatible_types(name).map_values(|c: Seq<char>| (name + "_"@ + c, (i, named_type(c))))
}

/// The candidates `(Option<inner>_Option<c>, Option<c>)` for an `Option` field
/// at position `i` whose type argument is the path type named `inner`.
pub open spec fn option_rule_candidates(i: int, inner: Seq<char>) -> Seq<Candidate> {
    compatible_types(inner).map_values(
        |c: Seq<char>| ("Option<"@ + inner + ">_Option<"@ + c + ">"@, (i, optional_named_type(c))),
    )
}

/// The candidates from an `Option` field or a collection field at position `i`.
pub open spec fn wrapper_candidates(i: int, ty: TypeRepr, name: Seq<char>) -> Seq<Candidate> {
    let t = type_text(ty);
    if name == "Option"@ {
        match first_type_argument(ty) {
            Some(inner) => seq![("Option_"@ + t + "_"@ + type_text(inner), (i, ComparableModel::TypeArgument))]
                + match last_name(inner) {
                Some(iname) => option_rule_candidates(i, iname),
                None => Seq::empty(),
            },
            None => Seq::empty(),
        }
    } else if is_collection_type(name) {
        match first_type_argument(ty) {
            Some(item) => seq![(t + "_"@ + type_text(item), (i, ComparableModel::TypeArgument))],
            None => Seq::empty(),
        }
    } else {
        Seq::empty()
    }
}

/// The candidate comparisons for the field at position `i` of type `ty`, in
/// the order the derive considers them: the field's own type, the types of
/// the compatibility rules, and then, for `Option<T>`, `T` and `Option` of
/// the types compatible with `T`, or, for a collection of `T`, `T`.
pub open spec fn field_candidates(i: int, ty: TypeRepr) -> Seq<Candidate> {
    let t = type_text(ty);
    let own = seq![(t + "_"@ + t, (i, ComparableModel::FieldType))];
    match last_name(ty) {
        Some(name) => own + rule_candidates(i, name) + wrapper_candidates(i, ty, name),
        None => own,
    }
}

/// The names of the types whose values MongoDB orders: the integer and
/// floating-point types, and `DateTime`.
pub open spec fn is_ordered_type(name: Seq<char>) -> bool {
    name == "i8"@ || name == "i16"@ || name == "i32"@ || name == "i64"@ || name == "i128"@ || name == "isize"@
        || name == "u8"@ || name == "u16"@ || name == "u32"@ || name == "u64"@ || name == "u128"@
        || name == "usize"@ || name == "f32"@ || name == "f64"@ || name == "DateTime"@
}

/// The candidate orderings (`MongoOrdered`) for the field at position `i` of
/// type `ty`: when the type's name is that of an ordered type, the field's own
/// type and the types of the compatibility rules; otherwise none.
pub open spec fn ordered_candidates(i: int, ty: TypeRepr) -> Seq<Candidate> {
    let t = type_text(ty);
    match last_name(ty) {
        Some(name) => if is_ordered_type(name) {
            seq![(t + "_"@ + t, (i, ComparableModel::FieldType))] + rule_candidates(i, name)
        } else {
            Seq::empty()
        },
        None => Seq::empty(),
    }
}

/// The candidate orderings of all fields, field by field.
pub open spec fn all_ordered_candidates(fields: Seq<TypeRepr>) -> Seq<Candidate>
    decreases fields.len(),
{
    if fields.len() == 0 {
        Seq::empty()
    } else {
        all_ordered_candidates(fields.drop_last()) + ordered_candidates(fields.len() - 1, fields.last())
    }
}

/// The candidates of all fields, field by field.
pub open spec fn all_candidates(fields: Seq<TypeRepr>) -> Seq<Candidate>
    decreases fields.len(),
{
    if fields.len() == 0 {
        Seq::empty()
    } else {
        all_candidates(fields.drop_last()) + field_candidates(fields.len() - 1, fields.last())
    }
}

/// The candidates in order, without those whose text was seen before.
pub open spec fn first_of_each(cands: Seq<Candidate>, seen: Set<Seq<char>>) -> Seq<(int, ComparableModel)>
    decreases cands.len(),
{
    if cands.len() == 0 {
        Seq::empty()
    } else if seen.contains(cands[0].0) {
        first_of_each(cands.drop_first(), seen)
    } else {
        seq![cands[0].1] + first_of_each(cands.drop_first(), seen.insert(cands[0].0))
    }
}

/// The texts of the candidates.
pub open spec fn key_set(c: Seq<Candidate>) -> Set<Seq<char>> {
    Set::new(|k: Seq<char>| exists|i: int| 0 <= i < c.len() && c[i].0 == k)
}

/// Keeping the first candidate of each text in `a + b` keeps those of `a`,
/// then those of `b` whose text `a` did not have.
proof fn lemma_first_of_each_append(a: Seq<Candidate>, b: Seq<Candidate>, seen: Set<Seq<char>>)
    ensures
        first_of_each(a + b, seen) == first_of_each(a, seen) + first_of_each(b, seen.union(key_set(a))),
    decreases a.len(),
{
    if a.len() == 0 {
        assert(a + b =~= b);
        assert(seen.union(key_set(a)) =~= seen);
    } else {
        let rest = a.drop_first();
        assert((a + b).drop_first() =~= rest + b);
        assert((a + b)[0] == a[0]);
        let k = a[0].0;
        if seen.contains(k) {
            lemma_first_of_each_append(rest, b, seen);
            assert(seen.union(key_set(rest)) =~= seen.union(key_set(a))) by {
                assert forall|x: Seq<char>| seen.union(key_set(a)).contains(x) implies seen.union(key_set(rest)).contains(x) by {
                    if key_set(a).contains(x) && x != k {
                        let i = choose|i: int| 0 <= i < a.len() && a[i].0 == x;
                        assert(rest[i - 1].0 == x);
                    }
                }
                assert forall|x: Seq<char>| key_set(rest).contains(x) implies key_set(a).contains(x) by {
                    let i = choose|i: int| 0 <= i < rest.len() && rest[i].0 == x;
                    assert(a[i + 1].0 == x);
                }
            }
        } else {
            lemma_first_of_each_append(rest, b, seen.insert(k));
            assert(seen.insert(k).union(key_set(rest)) =~= seen.union(key_set(a))) by {
                assert forall|x: Seq<char>| seen.union(key_set(a)).contains(x) implies seen.insert(k).union(key_set(rest)).contains(x) by {
                    if key_set(a).contains(x) && x != k {
                        let i = choose|i: int| 0 <= i < a.len() && a[i].0 == x;
                        assert(rest[i - 1].0 == x);
                    }
                }
                assert forall|x: Seq<char>| key_set(rest).contains(x) implies key_set(a).contains(x) by {
                    let i = choose|i: int| 0 <= i < rest.len() && rest[i].0 == x;
                    assert(a[i + 1].0 == x);
                }
                assert(key_set(a).contains(k)) by {
                    assert(a[0].0 == k);
                }
            }
            assert(seq![a[0].1] + first_of_each(rest, seen.insert(k)) + first_of_each(b, seen.union(key_set(a)))
                =~= seq![a[0].1] + (first_of_each(rest, seen.insert(k)) + first_of_each(b, seen.union(key_set(a)))));
        }
    }
}

/// Candidates whose texts were all seen before add nothing.
proof fn lemma_first_of_each_all_seen(b: Seq<Candidate>, seen: Set<Seq<char>>)
    requires
        key_set(b).subset_of(seen),
    ensures
        first_of_each(b, seen) == Seq::<(int, ComparableModel)>::empty(),
    decreases b.len(),
{
    if b.len() > 0 {
        assert(key_set(b).contains(b[0].0));
        let rest = b.drop_first();
        assert(key_set(rest).subset_of(seen)) by {
            assert forall|x: Seq<char>| key_set(rest).contains(x) implies seen.contains(x) by {
                let i = choose|i: int| 0 <= i < rest.len() && rest[i].0 == x;
                assert(b[i + 1].0 == x);
                assert(key_set(b).contains(x));
            }
        }
        lemma_first_of_each_all_seen(rest, seen);
    }
}

/// The texts of a field's candidates depend on its type, not on its position.
proof fn lemma_field_keys(i: int, j: int, ty: TypeRepr)
    ensures
        key_set(field_candidates(i, ty)) == key_set(field_candidates(j, ty)),
{
    let a = field_candidates(i, ty);
    let b = field_candidates(j, ty);
    assert(a.len() == b.len());
    assert forall|k: int| 0 <= k < a.len() implies a[k].0 == b[k].0 by {
        match last_name(ty) {
            Some(name) => {
                let own_i = seq![(type_text(ty) + "_"@ + type_text(ty), (i, ComparableModel::FieldType))];
                let own_j = seq![(type_text(ty) + "_"@ + type_text(ty), (j, ComparableModel::FieldType))];
                let ri = rule_candidates(i, name);
                let rj = rule_candidates(j, name);
                let wi = wrapper_candidates(i, ty, name);
                let wj = wrapper_candidates(j, ty, name);
                assert(a == own_i + ri + wi);
                assert(b == own_j + rj + wj);
                if k >= 1 + ri.len() {
                    let m = k - 1 - ri.len();
                    match first_type_argument(ty) {
                        Some(inner) => {
                            match last_name(inner) {
                                Some(iname) => {
                                    if m >= 1 && name == "Option"@ {
                                        assert(option_rule_candidates(i, iname)[m - 1].0
                                            == option_rule_candidates(j, iname)[m - 1].0);
                                    }
                                },
                                None => {},
                            }
                        },
                        None => {},
                    }
                    assert(wi[m].0 == wj[m].0);
                }
            },
            None => {},
        }
    }
    assert(key_set(a) =~= key_set(b)) by {
        assert forall|x: Seq<char>| key_set(a).contains(x) implies key_set(b).contains(x) by {
            let k = choose|k: int| 0 <= k < a.len() && a[k].0 == x;
            assert(b[k].0 == x);
        }
        assert forall|x: Seq<char>| key_set(b).contains(x) implies key_set(a).contains(x) by {
            let k = choose|k: int| 0 <= k < b.len() && b[k].0 == x;
            assert(a[k].0 == x);
        }
    }
}

/// The texts of every field's candidates are among the texts of all candidates.
proof fn lemma_field_keys_in_all(fields: Seq<TypeRepr>, j: int)
    requires
        0 <= j < fields.len(),
    ensures
        key_set(field_candidates(j, fields[j])).subset_of(key_set(all_candidates(fields))),
    decreases fields.len(),
{
    let init = fields.drop_last();
    let all = all_candidates(fields);
    assert(all == all_candidates(init) + field_candidates(fields.len() - 1, fields.last()));
    let n = all_candidates(init).len();
    if j < fields.len() - 1 {
        lemma_field_keys_in_all(init, j);
        assert(init[j] == fields[j]);
        assert forall|x: Seq<char>| key_set(all_candidates(init)).contains(x) implies key_set(all).contains(x) by {
            let k = choose|k: int| 0 <= k < n && all_candidates(init)[k].0 == x;
            assert(all[k] == all_candidates(init)[k]);
        }
    } else {
        let f = field_candidates(j, fields[j]);
        assert forall|x: Seq<char>| key_set(f).contains(x) implies key_set(all).contains(x) by {
            let k = choose|k: int| 0 <= k < f.len() && f[k].0 == x;
            assert(all[n + k] == f[k]);
        }
    }
}

/// The texts of a field's candidate orderings depend on its type, not on its position.
proof fn lemma_ordered_keys(i: int, j: int, ty: TypeRepr)
    ensures
        key_set(ordered_candidates(i, ty)) == key_set(ordered_candidates(j, ty)),
{
    let a = ordered_candidates(i, ty);
    let b = ordered_candidates(j, ty);
    assert(a.len() == b.len());
    assert forall|k: int| 0 <= k < a.len() implies a[k].0 == b[k].0 by {
        match last_name(ty) {
            Some(name) => {
                if k >= 1 {
                    assert(a[k] == rule_candidates(i, name)[k - 1]);
                    assert(b[k] == rule_candidates(j, name)[k - 1]);
                }
            },
            None => {},
        }
    }
    assert(key_set(a) =~= key_set(b)) by {
        assert forall|x: Seq<char>| key_set(a).contains(x) implies key_set(b).contains(x) by {
            let k = choose|k: int| 0 <= k < a.len() && a[k].0 == x;
            assert(b[k].0 == x);
        }
        assert forall|x: Seq<char>| key_set(b).contains(x) implies key_set(a).contains(x) by {
            let k = choose|k: int| 0 <= k < b.len() && b[k].0 == x;
            assert(a[k].0 == x);
        }
    }
}

/// The texts of every field's candidate orderings are among the texts of all of them.
proof fn lemma_ordered_keys_in_all(fields: Seq<TypeRepr>, j: int)
    requires
        0 <= j < fields.len(),
    ensures
        key_set(ordered_candidates(j, fields[j])).subset_of(key_set(all_ordered_candidates(fields))),
    decreases fields.len(),
{
    let init = fields.drop_last();
    let all = all_ordered_candidates(fields);
    assert(all == all_ordered_candidates(init) + ordered_candidates(fields.len() - 1, fields.last()));
    let n = all_ordered_candidates(init).len();
    if j < fields.len() - 1 {
        lemma_ordered_keys_in_all(init, j);
        assert(init[j] == fields[j]);
        assert forall|x: Seq<char>| key_set(all_ordered_candidates(init)).contains(x) implies key_set(all).contains(x) by {
            let k = choose|k: int| 0 <= k < n && all_ordered_candidates(init)[k].0 == x;
            assert(all[k] == all_ordered_candidates(init)[k]);
        }
    } else {
        let f = ordered_candidates(j, fields[j]);
        assert forall|x: Seq<char>| key_set(f).contains(x) implies key_set(all).contains(x) by {
            let k = choose|k: int| 0 <= k < f.len() && f[k].0 == x;
            assert(all[n + k] == f[k]);
        }
    }
}

/// A field whose type is the type of an earlier field adds no comparison and
/// no ordering: the derive never lists an implementation twice.
pub proof fn lemma_repeated_field_type(fields: Seq<TypeRepr>, j: int)
    requires
        0 <= j < fields.len(),
    ensures
        derived_comparisons(fields.push(fields[j])) == derived_comparisons(fields),
        derived_orderings(fields.push(fields[j])) == derived_orderings(fields),
{
    let more = fields.push(fields[j]);
    assert(more.drop_last() =~= fields);
    let oa = all_ordered_candidates(fields);
    let of = ordered_candidates(fields.len() as int, fields[j]);
    assert(all_ordered_candidates(more) == oa + of);
    lemma_first_of_each_append(oa, of, Set::empty());
    lemma_ordered_keys(fields.len() as int, j, fields[j]);
    lemma_ordered_keys_in_all(fields, j);
    lemma_first_of_each_all_seen(of, Set::<Seq<char>>::empty().union(key_set(oa)));
    assert(first_of_each(oa, Set::empty()) + Seq::<(int, ComparableModel)>::empty() =~= first_of_each(oa, Set::empty()));
    let a = all_candidates(fields);
    let f = field_candidates(fields.len() as int, fields[j]);
    assert(all_candidates(more) == a + f);
    lemma_first_of_each_append(a, f, Set::empty());
    lemma_field_keys(fields.len() as int, j, fields[j]);
    lemma_field_keys_in_all(fields, j);
    lemma_first_of_each_all_seen(f, Set::<Seq<char>>::empty().union(key_set(a)));
    assert(first_of_each(a, Set::empty()) + Seq::<(int, ComparableModel)>::empty() =~= first_of_each(a, Set::empty()));
}

/// The texts of the candidates that [`first_of_each`] keeps, in order.
pub open spec fn first_texts(cands: Seq<Candidate>, seen: Set<Seq<char>>) -> Seq<Seq<char>>
    decreases cands.len(),
{
    if cands.len() == 0 {
        Seq::empty()
    } else if seen.contains(cands[0].0) {
        first_texts(cands.drop_first(), seen)
    } else {
        seq![cands[0].0] + first_texts(cands.drop_first(), seen.insert(cands[0].0))
    }
}

/// What [`first_of_each`] keeps: one entry per text not seen before, each a
/// candidate with that text, no text twice, and every unseen text of the
/// candidates among them.
proof fn lemma_first_texts(cands: Seq<Candidate>, seen: Set<Seq<char>>)
    ensures
        first_texts(cands, seen).len() == first_of_each(cands, seen).len(),
        forall|a: int, b: int|
            0 <= a < b < first_texts(cands, seen).len() ==> first_texts(cands, seen)[a] != first_texts(
                cands,
                seen,
            )[b],
        forall|a: int| 0 <= a < first_texts(cands, seen).len() ==> !seen.contains(#[trigger] first_texts(cands, seen)[a]),
        forall|idx: int|
            0 <= idx < cands.len() && !seen.contains(cands[idx].0) ==> first_texts(cands, seen).contains(
                #[trigger] cands[idx].0,
            ),
        forall|a: int|
            #![trigger first_texts(cands, seen)[a]]
            0 <= a < first_texts(cands, seen).len() ==> exists|idx: int|
                0 <= idx < cands.len() && #[trigger] cands[idx] == (first_texts(cands, seen)[a], first_of_each(
                    cands,
                    seen,
                )[a]),
    decreases cands.len(),
{
    if cands.len() > 0 {
        let rest = cands.drop_first();
        let k0 = cands[0].0;
        if seen.contains(k0) {
            lemma_first_texts(rest, seen);
            let t = first_texts(rest, seen);
            let o = first_of_each(rest, seen);
            assert forall|idx: int| 0 <= idx < cands.len() && !seen.contains(cands[idx].0) implies t.contains(
                #[trigger] cands[idx].0,
            ) by {
                assert(cands[idx] == rest[idx - 1]);
            }
            assert forall|a: int| #![trigger t[a]] 0 <= a < t.len() implies exists|idx: int|
                0 <= idx < cands.len() && #[trigger] cands[idx] == (t[a], o[a]) by {
                let idx = choose|idx: int| 0 <= idx < rest.len() && #[trigger] rest[idx] == (t[a], o[a]);
                assert(cands[idx + 1] == rest[idx]);
            }
        } else {
            let s2 = seen.insert(k0);
            lemma_first_texts(rest, s2);
            let t2 = first_texts(rest, s2);
            let o2 = first_of_each(rest, s2);
            let t = first_texts(cands, seen);
            let o = first_of_each(cands, seen);
            assert(t == seq![k0] + t2);
            assert(o == seq![cands[0].1] + o2);
            assert forall|a: int, b: int| 0 <= a < b < t.len() implies t[a] != t[b] by {
                if a == 0 {
                    assert(t[b] == t2[b - 1]);
                    assert(!s2.contains(t2[b - 1]));
                } else {
                    assert(t[a] == t2[a - 1] && t[b] == t2[b - 1]);
                }
            }
            assert forall|a: int| 0 <= a < t.len() implies !seen.contains(#[trigger] t[a]) by {
                if a > 0 {
                    assert(t[a] == t2[a - 1]);
                    assert(!s2.contains(t2[a - 1]));
                }
            }
            assert forall|idx: int| 0 <= idx < cands.len() && !seen.contains(cands[idx].0) implies t.contains(
                #[trigger] cands[idx].0,
            ) by {
                if idx == 0 || cands[idx].0 == k0 {
                    assert(t[0] == k0);
                } else {
                    assert(cands[idx] == rest[idx - 1]);
                    assert(!s2.contains(rest[idx - 1].0));
                    assert(t2.contains(rest[idx - 1].0));
                    let a = choose|a: int| 0 <= a < t2.len() && t2[a] == rest[idx - 1].0;
                    assert(t[a + 1] == t2[a]);
                }
            }
            assert forall|a: int| #![trigger t[a]] 0 <= a < t.len() implies exists|idx: int|
                0 <= idx < cands.len() && #[trigger] cands[idx] == (t[a], o[a]) by {
                if a == 0 {
                    assert(cands[0] == (t[0], o[0]));
                } else {
                    assert(t[a] == t2[a - 1] && o[a] == o2[a - 1]);
                    let idx = choose|idx: int| 0 <= idx < rest.len() && #[trigger] rest[idx] == (t2[a - 1], o2[a - 1]);
                    assert(cands[idx + 1] == rest[idx]);
                }
            }
        }
    }
}

/// Each entry that [`first_of_each`] keeps comes from the first candidate
/// with its text.
proof fn lemma_first_texts_earliest(cands: Seq<Candidate>, seen: Set<Seq<char>>)
    ensures
        forall|a: int|
            #![trigger first_texts(cands, seen)[a]]
            0 <= a < first_texts(cands, seen).len() ==> exists|idx: int|
                0 <= idx < cands.len() && #[trigger] cands[idx] == (first_texts(cands, seen)[a], first_of_each(
                    cands,
                    seen,
                )[a]) && forall|b: int| 0 <= b < idx ==> #[trigger] cands[b].0 != first_texts(cands, seen)[a],
    decreases cands.len(),
{
    lemma_first_texts(cands, seen);
    if cands.len() > 0 {
        let rest = cands.drop_first();
        let k0 = cands[0].0;
        let t = first_texts(cands, seen);
        let o = first_of_each(cands, seen);
        if seen.contains(k0) {
            lemma_first_texts_earliest(rest, seen);
            let t1 = first_texts(rest, seen);
            assert(t == t1);
            assert(o == first_of_each(rest, seen));
            assert forall|a: int| #![trigger t[a]] 0 <= a < t.len() implies exists|idx: int|
                0 <= idx < cands.len() && #[trigger] cands[idx] == (t[a], o[a]) && forall|b: int|
                    0 <= b < idx ==> #[trigger] cands[b].0 != t[a] by {
                assert(t1[a] == t[a]);
                let idx = choose|idx: int|
                    0 <= idx < rest.len() && #[trigger] rest[idx] == (t[a], o[a]) && forall|b: int|
                        0 <= b < idx ==> #[trigger] rest[b].0 != t[a];
                assert(cands[idx + 1] == rest[idx]);
                assert forall|b: int| 0 <= b < idx + 1 implies #[trigger] cands[b].0 != t[a] by {
                    if b > 0 {
                        assert(cands[b] == rest[b - 1]);
                    } else {
                        assert(!seen.contains(t[a]));
                    }
                }
            }
        } else {
            let s2 = seen.insert(k0);
            lemma_first_texts(rest, s2);
            lemma_first_texts_earliest(rest, s2);
            let t2 = first_texts(rest, s2);
            let o2 = first_of_each(rest, s2);
            assert(t == seq![k0] + t2);
            assert(o == seq![cands[0].1] + o2);
            assert forall|a: int| #![trigger t[a]] 0 <= a < t.len() implies exists|idx: int|
                0 <= idx < cands.len() && #[trigger] cands[idx] == (t[a], o[a]) && forall|b: int|
                    0 <= b < idx ==> #[trigger] cands[b].0 != t[a] by {
                if a == 0 {
                    assert(cands[0] == (t[0], o[0]));
                } else {
                    assert(t[a] == t2[a - 1] && o[a] == o2[a - 1]);
                    assert(!s2.contains(t2[a - 1]));
                    let idx = choose|idx: int|
                        0 <= idx < rest.len() && #[trigger] rest[idx] == (t2[a - 1], o2[a - 1]) && forall|b: int|
                            0 <= b < idx ==> #[trigger] rest[b].0 != t2[a - 1];
                    assert(cands[idx + 1] == rest[idx]);
                    assert forall|b: int| 0 <= b < idx + 1 implies #[trigger] cands[b].0 != t[a] by {
                        if b > 0 {
                            assert(cands[b] == rest[b - 1]);
                        }
                    }
                }
            }
        }
    }
}

/// The candidates come field by field: a later candidate never names an
/// earlier field.
proof fn lemma_candidates_field_order(fields: Seq<TypeRepr>, x: int, y: int)
    requires
        0 <= x <= y < all_candidates(fields).len(),
    ensures
        all_candidates(fields)[x].1.0 <= all_candidates(fields)[y].1.0,
    decreases fields.len(),
{
    let init = fields.drop_last();
    let a = all_candidates(init);
    let all = all_candidates(fields);
    let last = fields.len() - 1;
    let f = field_candidates(last, fields.last());
    assert(all == a + f);
    lemma_field_candidates_shape(last, fields.last());
    if y < a.len() {
        assert(all[x] == a[x] && all[y] == a[y]);
        lemma_candidates_field_order(init, x, y);
    } else if x < a.len() {
        assert(all[x] == a[x]);
        lemma_candidate_fields(init, x);
        assert(all[y] == f[y - a.len()]);
    } else {
        assert(all[x] == f[x - a.len()]);
        assert(all[y] == f[y - a.len()]);
    }
}

/// The candidate orderings come field by field: a later candidate never
/// names an earlier field.
proof fn lemma_ordered_candidates_field_order(fields: Seq<TypeRepr>, x: int, y: int)
    requires
        0 <= x <= y < all_ordered_candidates(fields).len(),
    ensures
        all_ordered_candidates(fields)[x].1.0 <= all_ordered_candidates(fields)[y].1.0,
    decreases fields.len(),
{
    let init = fields.drop_last();
    let a = all_ordered_candidates(init);
    let all = all_ordered_candidates(fields);
    let last = fields.len() - 1;
    let f = ordered_candidates(last, fields.last());
    assert(all == a + f);
    if y < a.len() {
        assert(all[x] == a[x] && all[y] == a[y]);
        lemma_ordered_candidates_field_order(init, x, y);
    } else {
        lemma_ordered_candidate_shape(fields, y);
        assert(all[y] == f[y - a.len()]);
        if x < a.len() {
            assert(all[x] == a[x]);
            lemma_ordered_candidate_shape(init, x);
        } else {
            assert(all[x] == f[x - a.len()]);
        }
        match last_name(fields.last()) {
            Some(name) => {
                if x >= a.len() && x - a.len() >= 1 {
                    assert(f[x - a.len()] == rule_candidates(last, name)[x - a.len() - 1]);
                }
                if y - a.len() >= 1 {
                    assert(f[y - a.len()] == rule_candidates(last, name)[y - a.len() - 1]);
                }
            },
            None => {},
        }
    }
}

/// The text that identifies a field's comparison with its own type.
pub open spec fn own_text(ty: TypeRepr) -> Seq<char> {
    type_text(ty) + "_"@ + type_text(ty)
}

/// The comparison of each field with its own type is among the candidates.
proof fn lemma_own_candidate(fields: Seq<TypeRepr>, i: int)
    requires
        0 <= i < fields.len(),
    ensures
        exists|idx: int|
            0 <= idx < all_candidates(fields).len() && #[trigger] all_candidates(fields)[idx] == (
                own_text(fields[i]),
                (i, ComparableModel::FieldType),
            ),
    decreases fields.len(),
{
    let init = fields.drop_last();
    let a = all_candidates(init);
    let all = all_candidates(fields);
    assert(all == a + field_candidates(fields.len() - 1, fields.last()));
    if i < fields.len() - 1 {
        lemma_own_candidate(init, i);
        assert(init[i] == fields[i]);
        let idx = choose|idx: int| 0 <= idx < a.len() && #[trigger] a[idx] == (own_text(init[i]), (i, ComparableModel::FieldType));
        assert(all[idx] == a[idx]);
    } else {
        let f = field_candidates(i, fields[i]);
        assert(f[0] == (own_text(fields[i]), (i, ComparableModel::FieldType)));
        assert(all[a.len() as int] == f[0]);
    }
}

/// Every candidate of a field names that field, and only its own-type
/// candidate compares it with its own type.
proof fn lemma_field_candidates_shape(i: int, ty: TypeRepr)
    ensures
        forall|k: int|
            0 <= k < field_candidates(i, ty).len() ==> (#[trigger] field_candidates(i, ty)[k]).1.0 == i && (
            field_candidates(i, ty)[k].1.1 is FieldType ==> field_candidates(i, ty)[k].0 == own_text(ty)),
{
    let f = field_candidates(i, ty);
    assert forall|k: int| 0 <= k < f.len() implies (#[trigger] f[k]).1.0 == i && (f[k].1.1 is FieldType
        ==> f[k].0 == own_text(ty)) by {
        match last_name(ty) {
            Some(name) => {
                let own = seq![(type_text(ty) + "_"@ + type_text(ty), (i, ComparableModel::FieldType))];
                let r = rule_candidates(i, name);
                let w = wrapper_candidates(i, ty, name);
                assert(f == own + r + w);
                if k >= 1 && k < 1 + r.len() {
                    assert(f[k] == r[k - 1]);
                } else if k >= 1 + r.len() {
                    let m = k - 1 - r.len();
                    assert(f[k] == w[m]);
                    match first_type_argument(ty) {
                        Some(inner) => {
                            match last_name(inner) {
                                Some(iname) => {
                                    if m >= 1 && name == "Option"@ {
                                        assert(w[m] == option_rule_candidates(i, iname)[m - 1]);
                                    }
                                },
                                None => {},
                            }
                        },
                        None => {},
                    }
                }
            },
            None => {},
        }
    }
}

/// Every candidate of all fields names one of the fields, and a candidate that
/// compares a field with its own type has that field's own-type text.
proof fn lemma_candidate_fields(fields: Seq<TypeRepr>, idx: int)
    requires
        0 <= idx < all_candidates(fields).len(),
    ensures
        0 <= all_candidates(fields)[idx].1.0 < fields.len(),
        all_candidates(fields)[idx].1.1 is FieldType ==> all_candidates(fields)[idx].0 == own_text(
            fields[all_candidates(fields)[idx].1.0],
        ),
    decreases fields.len(),
{
    let init = fields.drop_last();
    let a = all_candidates(init);
    let all = all_candidates(fields);
    let n = fields.len() - 1;
    assert(all == a + field_candidates(n, fields.last()));
    if idx < a.len() {
        lemma_candidate_fields(init, idx);
        assert(all[idx] == a[idx]);
        assert(init[a[idx].1.0] == fields[a[idx].1.0]);
    } else {
        lemma_field_candidates_shape(n, fields.last());
        assert(all[idx] == field_candidates(n, fields.last())[idx - a.len()]);
    }
}

/// `a_a` determines `a`.
proof fn lemma_own_text_injective(a: Seq<char>, b: Seq<char>)
    requires
        a + "_"@ + a == b + "_"@ + b,
    ensures
        a == b,
{
    reveal_strlit("_");
    let x = a + "_"@ + a;
    let y = b + "_"@ + b;
    assert(x.len() == 2 * a.len() + 1);
    assert(y.len() == 2 * b.len() + 1);
    assert(a.len() == b.len());
    assert(a =~= x.subrange(0, a.len() as int));
    assert(b =~= y.subrange(0, b.len() as int));
}

/// A text of the form `x_x` has odd length, `_` in the middle, and equal halves.
proof fn lemma_doubled_shape(k: Seq<char>, x: Seq<char>)
    requires
        k == x + "_"@ + x,
    ensures
        k.len() == 2 * x.len() + 1,
        k[x.len() as int] == '_',
        k.subrange(0, x.len() as int) == x,
        k.subrange(x.len() as int + 1, k.len() as int) == x,
{
    reveal_strlit("_");
    assert(k.subrange(0, x.len() as int) =~= x);
    assert(k.subrange(x.len() as int + 1, k.len() as int) =~= x);
}

/// The text of a compatibility-rule candidate, `name_c`, is never the text of
/// an own-type candidate, `x_x`.
proof fn lemma_rule_text_not_own(name: Seq<char>, k: int, x: Seq<char>)
    requires
        0 <= k < compatible_types(name).len(),
    ensures
        name + "_"@ + compatible_types(name)[k] != x + "_"@ + x,
{
    reveal_strlit("_");
    reveal_strlit("i16");
    reveal_strlit("i32");
    reveal_strlit("i64");
    reveal_strlit("f64");
    reveal_strlit("f32");
    reveal_strlit("char");
    reveal_strlit("String");
    reveal_strlit("DateTime");
    let c = compatible_types(name)[k];
    let t = name + "_"@ + c;
    if t == x + "_"@ + x {
        lemma_doubled_shape(t, x);
        if name.len() == c.len() {
            assert(x.len() == name.len());
            assert(t.subrange(0, x.len() as int) =~= name);
            assert(t.subrange(x.len() as int + 1, t.len() as int) =~= c);
            assert(name == c);
            if name == "i32"@ || name == "i64"@ {
                assert(name[1] != c[1]);
            } else {
                assert(name == "f64"@);
                assert(name[0] != c[0] || name[1] != c[1]);
            }
        } else if name == "char"@ {
            assert(c == "String"@);
            assert(t.len() == 11);
            assert(x.len() == 5);
            assert(t[5] == c[0]);
        } else {
            assert(name == "DateTime"@);
            assert(t.len() == 12);
        }
    }
}

/// Every candidate ordering names one of the fields and is either that
/// field's own-type candidate or one of its compatibility-rule candidates.
proof fn lemma_ordered_candidate_shape(fields: Seq<TypeRepr>, idx: int)
    requires
        0 <= idx < all_ordered_candidates(fields).len(),
    ensures
        ({
            let c = all_ordered_candidates(fields)[idx];
            let j = c.1.0;
            &&& 0 <= j < fields.len()
            &&& (c.1.1 is FieldType && c.0 == own_text(fields[j])) || exists|name: Seq<char>, k: int|
                last_name(fields[j]) == Some(name) && 0 <= k < compatible_types(name).len() && c.0 == name
                    + "_"@ + compatible_types(name)[k]
        }),
    decreases fields.len(),
{
    let init = fields.drop_last();
    let a = all_ordered_candidates(init);
    let all = all_ordered_candidates(fields);
    let n = fields.len() - 1;
    assert(all == a + ordered_candidates(n, fields.last()));
    if idx < a.len() {
        lemma_ordered_candidate_shape(init, idx);
        assert(all[idx] == a[idx]);
        assert(init[a[idx].1.0] == fields[a[idx].1.0]);
    } else {
        let ty = fields.last();
        let f = ordered_candidates(n, ty);
        let m = idx - a.len();
        assert(all[idx] == f[m]);
        match last_name(ty) {
            Some(name) => {
                if m >= 1 {
                    let r = rule_candidates(n, name);
                    assert(f[m] == r[m - 1]);
                    assert(f[m].0 == name + "_"@ + compatible_types(name)[m - 1]);
                }
            },
            None => {},
        }
    }
}

/// The candidate orderings of a field of an ordered type include its own-type one.
proof fn lemma_own_ordered_candidate(fields: Seq<TypeRepr>, i: int)
    requires
        0 <= i < fields.len(),
        last_name(fields[i]) matches Some(name) && is_ordered_type(name),
    ensures
        exists|idx: int|
            0 <= idx < all_ordered_candidates(fields).len() && #[trigger] all_ordered_candidates(fields)[idx] == (
                own_text(fields[i]),
                (i, ComparableModel::FieldType),
            ),
    decreases fields.len(),
{
    let init = fields.drop_last();
    let a = all_ordered_candidates(init);
    let all = all_ordered_candidates(fields);
    assert(all == a + ordered_candidates(fields.len() - 1, fields.last()));
    if i < fields.len() - 1 {
        assert(init[i] == fields[i]);
        lemma_own_ordered_candidate(init, i);
        let idx = choose|idx: int| 0 <= idx < a.len() && #[trigger] a[idx] == (own_text(init[i]), (i, ComparableModel::FieldType));
        assert(all[idx] == a[idx]);
    } else {
        let f = ordered_candidates(i, fields[i]);
        assert(f[0] == (own_text(fields[i]), (i, ComparableModel::FieldType)));
        assert(all[a.len() as int] == f[0]);
    }
}

/// Every field whose type is a primitive integer or floating-point type or
/// `DateTime` can be ordered against its own type: the derive lists the
/// ordering with its own type of that field or of an earlier field with the
/// same type text.
pub proof fn lemma_numeric_fields_ordered(fields: Seq<TypeRepr>, i: int)
    requires
        0 <= i < fields.len(),
        last_name(fields[i]) matches Some(n) && (n == "i8"@ || n == "i16"@ || n == "i32"@ || n == "i64"@ || n
            == "i128"@ || n == "isize"@ || n == "u8"@ || n == "u16"@ || n == "u32"@ || n == "u64"@ || n
            == "u128"@ || n == "usize"@ || n == "f32"@ || n == "f64"@ || n == "DateTime"@),
    ensures
        exists|a: int, j: int|
            #![trigger derived_orderings(fields)[a], fields[j]]
            0 <= a < derived_orderings(fields).len() && 0 <= j <= i && derived_orderings(fields)[a] == (
                j,
                ComparableModel::FieldType,
            ) && type_text(fields[j]) == type_text(fields[i]),
{
    let cands = all_ordered_candidates(fields);
    lemma_own_ordered_candidate(fields, i);
    lemma_first_texts(cands, Set::empty());
    let t = first_texts(cands, Set::empty());
    let o = derived_orderings(fields);
    let idx0 = choose|idx: int| 0 <= idx < cands.len() && #[trigger] cands[idx] == (own_text(fields[i]), (i, ComparableModel::FieldType));
    assert(!Set::<Seq<char>>::empty().contains(cands[idx0].0));
    assert(t.contains(cands[idx0].0));
    let a = choose|a: int| 0 <= a < t.len() && t[a] == own_text(fields[i]);
    let idx = choose|idx: int| 0 <= idx < cands.len() && #[trigger] cands[idx] == (t[a], o[a]);
    lemma_ordered_candidate_shape(fields, idx);
    let j = cands[idx].1.0;
    if !(cands[idx].1.1 is FieldType && cands[idx].0 == own_text(fields[j])) {
        let (name, k) = choose|name: Seq<char>, k: int|
            last_name(fields[j]) == Some(name) && 0 <= k < compatible_types(name).len() && cands[idx].0 == name
                + "_"@ + compatible_types(name)[k];
        lemma_rule_text_not_own(name, k, type_text(fields[i]));
        assert(false);
    }
    lemma_own_text_injective(type_text(fields[j]), type_text(fields[i]));
    assert(o[a] == (j, ComparableModel::FieldType));
    lemma_first_texts_earliest(cands, Set::empty());
    let first = choose|idx: int|
        0 <= idx < cands.len() && #[trigger] cands[idx] == (t[a], o[a]) && forall|b: int|
            0 <= b < idx ==> #[trigger] cands[b].0 != t[a];
    if first > idx0 {
        assert(cands[idx0].0 == t[a]);
    }
    lemma_ordered_candidates_field_order(fields, first, idx0);
}

/// MongoDB's widening of a type named `n` to `c`, as a table: `i32` to `i16`;
/// `i64` to `i16`, `i32`; `f64` to `i16`, `i32`, `i64`, `f32`; `char` to
/// `String`; `DateTime` to `i64`.
pub open spec fn widening_pair(n: Seq<char>, c: Seq<char>) -> bool {
    ||| n == "i32"@ && c == "i16"@
    ||| n == "i64"@ && (c == "i16"@ || c == "i32"@)
    ||| n == "f64"@ && (c == "i16"@ || c == "i32"@ || c == "i64"@ || c == "f32"@)
    ||| n == "char"@ && c == "String"@
    ||| n == "DateTime"@ && c == "i64"@
}

/// The text that identifies the comparison of `Option<n>` with `Option<c>`.
pub open spec fn option_pair_text(n: Seq<char>, c: Seq<char>) -> Seq<char> {
    "Option<"@ + n + ">_Option<"@ + c + ">"@
}


/// A name with compatibility rules is one of the table's names.
proof fn lemma_rule_names(name: Seq<char>)
    requires
        compatible_types(name).len() > 0,
    ensures
        name == "i32"@ || name == "i64"@ || name == "f64"@ || name == "char"@ || name == "DateTime"@,
{
}

/// Each pair of the widening table is one of the compatibility rules.
proof fn lemma_widening_in_rules(n: Seq<char>, c: Seq<char>) -> (k: int)
    requires
        widening_pair(n, c),
    ensures
        0 <= k < compatible_types(n).len(),
        compatible_types(n)[k] == c,
{
    reveal_strlit("i16");
    reveal_strlit("i32");
    reveal_strlit("i64");
    reveal_strlit("f64");
    reveal_strlit("f32");
    reveal_strlit("char");
    reveal_strlit("String");
    reveal_strlit("DateTime");
    assert("i32"@[1] != "i64"@[1] && "i32"@[1] != "f64"@[1] && "i64"@[0] != "f64"@[0]);
    assert("i16"@[1] != "i32"@[1] && "i16"@[1] != "i64"@[1] && "i32"@[1] != "i64"@[1]);
    assert("i16"@[0] != "f32"@[0] && "i32"@[0] != "f32"@[0] && "i64"@[0] != "f32"@[0]);
    assert("char"@.len() != "i32"@.len() && "DateTime"@.len() != "i32"@.len());
    assert("char"@.len() != "DateTime"@.len());
    if n == "i32"@ {
        assert(c == "i16"@);
        assert(compatible_types(n) =~= seq!["i16"@]);
        0
    } else if n == "i64"@ {
        assert(c == "i16"@ || c == "i32"@);
        assert(compatible_types(n) =~= seq!["i16"@, "i32"@]);
        if c == "i16"@ { 0 } else { 1 }
    } else if n == "f64"@ {
        assert(compatible_types(n) =~= seq!["i16"@, "i32"@, "i64"@, "f32"@]);
        if c == "i16"@ {
            0
        } else if c == "i32"@ {
            1
        } else if c == "i64"@ {
            2
        } else {
            3
        }
    } else if n == "char"@ {
        assert(c == "String"@);
        assert(compatible_types(n) =~= seq!["String"@]);
        0
    } else {
        assert(n == "DateTime"@);
        assert(c == "i64"@);
        assert(compatible_types(n) =~= seq!["i64"@]);
        0
    }
}

/// The text of a type whose path ends in `name` starts with `name`.
proof fn lemma_text_starts_with_name(ty: TypeRepr, name: Seq<char>)
    requires
        last_name(ty) == Some(name),
    ensures
        type_text(ty).len() >= name.len(),
        forall|k: int| 0 <= k < name.len() ==> type_text(ty)[k] == #[trigger] name[k],
{
    reveal_strlit("<");
    match ty {
        TypeRepr::Path { segments: segs, .. } => {
            let seg = segs@.last();
            assert(type_text(ty) == segment_text(seg));
        },
        TypeRepr::Other(_) => {},
    }
}

/// The text of an `Option` pair of the table differs from every other kind of
/// candidate text: an own-type text `x_x`, a rule text `name_c`, an `Option`
/// type-argument text, and a collection text, which starts with the
/// collection's name.
proof fn lemma_option_pair_text_distinct(n: Seq<char>, c: Seq<char>)
    requires
        widening_pair(n, c),
    ensures
        forall|x: Seq<char>| option_pair_text(n, c) != x + "_"@ + x,
        forall|name: Seq<char>, k: int|
            0 <= k < compatible_types(name).len() ==> option_pair_text(n, c) != name + "_"@ + compatible_types(
                name,
            )[k],
        forall|t: Seq<char>, u: Seq<char>| option_pair_text(n, c) != "Option_"@ + t + "_"@ + u,
        option_pair_text(n, c)[0] == 'O',
        option_pair_text(n, c).len() > 0,
{
    reveal_strlit("i16");
    reveal_strlit("i32");
    reveal_strlit("i64");
    reveal_strlit("f64");
    reveal_strlit("f32");
    reveal_strlit("char");
    reveal_strlit("String");
    reveal_strlit("DateTime");
    reveal_strlit("Option");
    reveal_strlit("Option<");
    reveal_strlit(">_Option<");
    reveal_strlit(">");
    reveal_strlit("_");
    reveal_strlit("Option_");
    let kt = option_pair_text(n, c);
    assert(kt[0] == 'O');
    assert(kt[6] == '<');
    assert forall|x: Seq<char>| kt != x + "_"@ + x by {
        if kt == x + "_"@ + x {
            lemma_doubled_shape(kt, x);
            if n.len() == 3 && c.len() == 3 {
                assert(kt.len() == 23);
                assert(x.len() == 11);
                assert(kt.subrange(0, 11) =~= "Option<"@ + n + ">"@);
                assert(kt.subrange(12, 23) =~= "Option<"@ + c + ">"@);
                assert(n =~= ("Option<"@ + n + ">"@).subrange(7, 10));
                assert(c =~= ("Option<"@ + c + ">"@).subrange(7, 10));
                assert(n == c);
                assert(n[1] != c[1] || n[0] != c[0]);
            } else if n == "char"@ {
                assert(kt.len() == 27);
                assert(kt[13] == 'O');
            } else {
                assert(n == "DateTime"@);
                assert(kt.len() == 28);
            }
        }
    }
    assert forall|name: Seq<char>, k: int|
        0 <= k < compatible_types(name).len() implies kt != name + "_"@ + compatible_types(name)[k] by {
        lemma_rule_names(name);
        assert((name + "_"@ + compatible_types(name)[k])[0] == name[0]);
    }
    assert forall|t: Seq<char>, u: Seq<char>| kt != "Option_"@ + t + "_"@ + u by {
        assert(("Option_"@ + t + "_"@ + u)[6] == '_');
    }
}

/// Two `Option` pair texts of rules are equal only for the same pair.
proof fn lemma_option_pair_text_injective(n: Seq<char>, c: Seq<char>, iname: Seq<char>, k: int)
    requires
        widening_pair(n, c),
        0 <= k < compatible_types(iname).len(),
        option_pair_text(iname, compatible_types(iname)[k]) == option_pair_text(n, c),
    ensures
        iname == n,
        compatible_types(iname)[k] == c,
{
    reveal_strlit("i16");
    reveal_strlit("i32");
    reveal_strlit("i64");
    reveal_strlit("f64");
    reveal_strlit("f32");
    reveal_strlit("char");
    reveal_strlit("String");
    reveal_strlit("DateTime");
    reveal_strlit("Option");
    reveal_strlit("Option<");
    reveal_strlit(">_Option<");
    reveal_strlit(">");
    reveal_strlit("_");
    reveal_strlit("Option_");
    lemma_rule_names(iname);
    let c2 = compatible_types(iname)[k];
    let a = option_pair_text(iname, c2);
    let b = option_pair_text(n, c);
    assert(a.len() == b.len());
    if iname.len() == n.len() {
        assert(iname =~= a.subrange(7, 7 + iname.len() as int));
        assert(n =~= b.subrange(7, 7 + n.len() as int));
        assert(iname == n);
        assert(c2 =~= a.subrange(7 + iname.len() as int + 9, a.len() - 1));
        assert(c =~= b.subrange(7 + n.len() as int + 9, b.len() - 1));
    } else if iname.len() < n.len() {
        let p = 7 + iname.len() as int;
        assert(a[p] == '>');
        assert(b[p] == n[iname.len() as int]);
    } else {
        let p = 7 + n.len() as int;
        assert(b[p] == '>');
        assert(a[p] == iname[n.len() as int]);
    }
}

/// A field type whose path ends in `Option` and whose first type argument is
/// a path type ending in `n`.
pub open spec fn is_option_of(ty: TypeRepr, n: Seq<char>) -> bool {
    &&& last_name(ty) == Some("Option"@)
    &&& first_type_argument(ty) matches Some(inner) && last_name(inner) == Some(n)
}

/// A candidate of a field with the text of an `Option` pair of the table
/// compares that field, an `Option` of `n`, with `Option<c>`.
proof fn lemma_option_pair_field_candidate(i: int, ty: TypeRepr, n: Seq<char>, c: Seq<char>, k: int)
    requires
        widening_pair(n, c),
        0 <= k < field_candidates(i, ty).len(),
        field_candidates(i, ty)[k].0 == option_pair_text(n, c),
    ensures
        field_candidates(i, ty)[k].1 == (i, ComparableModel::OptionOfNamed(c)),
        is_option_of(ty, n),
{
    reveal_strlit("i16");
    reveal_strlit("i32");
    reveal_strlit("i64");
    reveal_strlit("f32");
    reveal_strlit("String");
    reveal_strlit("DateTime");
    reveal_strlit("Vec");
    reveal_strlit("HashSet");
    reveal_strlit("BTreeSet");
    reveal_strlit("LinkedList");
    reveal_strlit("VecDeque");
    reveal_strlit("BinaryHeap");
    reveal_strlit("HashMap");
    reveal_strlit("BTreeMap");
    lemma_option_pair_text_distinct(n, c);
    let f = field_candidates(i, ty);
    let t = type_text(ty);
    match last_name(ty) {
        Some(name) => {
            let own = seq![(t + "_"@ + t, (i, ComparableModel::FieldType))];
            let r = rule_candidates(i, name);
            let w = wrapper_candidates(i, ty, name);
            assert(f == own + r + w);
            if k == 0 {
                assert(f[0].0 == t + "_"@ + t);
            } else if k < 1 + r.len() {
                assert(f[k] == r[k - 1]);
                assert(f[k].0 == name + "_"@ + compatible_types(name)[k - 1]);
            } else {
                let m = k - 1 - r.len();
                assert(f[k] == w[m]);
                if name == "Option"@ {
                    match first_type_argument(ty) {
                        Some(inner) => {
                            if m == 0 {
                                assert(w[0].0 == "Option_"@ + t + "_"@ + type_text(inner));
                            } else {
                                match last_name(inner) {
                                    Some(iname) => {
                                        let o = option_rule_candidates(i, iname);
                                        assert(w[m] == o[m - 1]);
                                        let c2 = compatible_types(iname)[m - 1];
                                        assert(o[m - 1].0 == option_pair_text(iname, c2));
                                        lemma_option_pair_text_injective(n, c, iname, m - 1);
                                        assert(c != "DateTime"@);
                                    },
                                    None => {},
                                }
                            }
                        },
                        None => {},
                    }
                } else if is_collection_type(name) {
                    match first_type_argument(ty) {
                        Some(item) => {
                            lemma_text_starts_with_name(ty, name);
                            assert(name.len() > 0 && name[0] != 'O');
                            assert((t + "_"@ + type_text(item))[0] == t[0]);
                        },
                        None => {},
                    }
                }
            }
        },
        None => {},
    }
}

/// No type of the table widens to `DateTime`.
proof fn lemma_widened_not_datetime(n: Seq<char>, c: Seq<char>)
    requires
        widening_pair(n, c),
    ensures
        c != "DateTime"@,
{
    reveal_strlit("i16");
    reveal_strlit("i32");
    reveal_strlit("i64");
    reveal_strlit("f32");
    reveal_strlit("String");
    reveal_strlit("DateTime");
    assert(c.len() != 8);
}

/// A candidate of any field with the text of an `Option` pair of the table
/// compares a field that is an `Option` of `n` with `Option<c>`.
proof fn lemma_option_pair_candidate(fields: Seq<TypeRepr>, n: Seq<char>, c: Seq<char>, idx: int)
    requires
        widening_pair(n, c),
        0 <= idx < all_candidates(fields).len(),
        all_candidates(fields)[idx].0 == option_pair_text(n, c),
    ensures
        0 <= all_candidates(fields)[idx].1.0 < fields.len(),
        all_candidates(fields)[idx].1.1 == ComparableModel::OptionOfNamed(c),
        is_option_of(fields[all_candidates(fields)[idx].1.0], n),
    decreases fields.len(),
{
    let init = fields.drop_last();
    let a = all_candidates(init);
    let all = all_candidates(fields);
    let last = fields.len() - 1;
    assert(all == a + field_candidates(last, fields.last()));
    if idx < a.len() {
        assert(all[idx] == a[idx]);
        lemma_option_pair_candidate(init, n, c, idx);
        assert(init[a[idx].1.0] == fields[a[idx].1.0]);
    } else {
        assert(all[idx] == field_candidates(last, fields.last())[idx - a.len()]);
        lemma_option_pair_field_candidate(last, fields.last(), n, c, idx - a.len());
    }
}

/// The comparison of an `Option` of `n` at position `i` with `Option<c>`, for
/// each pair of the table, is among the candidates.
proof fn lemma_option_pair_in_candidates(fields: Seq<TypeRepr>, i: int, n: Seq<char>, c: Seq<char>)
    requires
        0 <= i < fields.len(),
        is_option_of(fields[i], n),
        widening_pair(n, c),
    ensures
        exists|idx: int|
            0 <= idx < all_candidates(fields).len() && #[trigger] all_candidates(fields)[idx] == (
                option_pair_text(n, c),
                (i, ComparableModel::OptionOfNamed(c)),
            ),
    decreases fields.len(),
{
    let init = fields.drop_last();
    let a = all_candidates(init);
    let all = all_candidates(fields);
    assert(all == a + field_candidates(fields.len() - 1, fields.last()));
    if i < fields.len() - 1 {
        assert(init[i] == fields[i]);
        lemma_option_pair_in_candidates(init, i, n, c);
        let idx = choose|idx: int| 0 <= idx < a.len() && #[trigger] a[idx] == (option_pair_text(n, c), (i, ComparableModel::OptionOfNamed(c)));
        assert(all[idx] == a[idx]);
    } else {
        reveal_strlit("Option");
        reveal_strlit("i16");
        reveal_strlit("i32");
        reveal_strlit("i64");
        reveal_strlit("f64");
        reveal_strlit("char");
        reveal_strlit("DateTime");
        reveal_strlit("f32");
        reveal_strlit("String");
        let ty = fields[i];
        let name = "Option"@;
        let f = field_candidates(i, ty);
        let t = type_text(ty);
        let own = seq![(t + "_"@ + t, (i, ComparableModel::FieldType))];
        assert(compatible_types(name) =~= Seq::<Seq<char>>::empty());
        let r = rule_candidates(i, name);
        assert(r.len() == 0);
        let w = wrapper_candidates(i, ty, name);
        assert(f == own + r + w);
        let inner = first_type_argument(ty)->0;
        let k = lemma_widening_in_rules(n, c);
        let o = option_rule_candidates(i, n);
        assert(w == seq![("Option_"@ + t + "_"@ + type_text(inner), (i, ComparableModel::TypeArgument))] + o);
        lemma_widened_not_datetime(n, c);
        assert(o[k] == (option_pair_text(n, c), (i, ComparableModel::OptionOfNamed(c))));
        assert(f[2 + k] == o[k]);
        assert(all[a.len() + 2 + k] == f[2 + k]);
    }
}

/// Every `Option` field can be compared with `Option` of each type its type
/// argument widens to: for a field `Option<n>` at position `i` and each pair
/// `(n, c)` of the widening table, the derive lists the comparison of an
/// `Option<n>` field with `Option<c>`: that of field `i` or of an earlier
/// field of the same kind.
pub proof fn lemma_option_fields_compare_with_widened_options(
    fields: Seq<TypeRepr>,
    i: int,
    n: Seq<char>,
    c: Seq<char>,
)
    requires
        0 <= i < fields.len(),
        is_option_of(fields[i], n),
        widening_pair(n, c),
    ensures
        exists|a: int, j: int|
            #![trigger derived_comparisons(fields)[a], fields[j]]
            0 <= a < derived_comparisons(fields).len() && 0 <= j <= i && derived_comparisons(fields)[a] == (
                j,
                ComparableModel::OptionOfNamed(c),
            ) && is_option_of(fields[j], n),
{
    let cands = all_candidates(fields);
    lemma_option_pair_in_candidates(fields, i, n, c);
    lemma_first_texts(cands, Set::empty());
    let t = first_texts(cands, Set::empty());
    let o = derived_comparisons(fields);
    let idx0 = choose|idx: int| 0 <= idx < cands.len() && #[trigger] cands[idx] == (option_pair_text(n, c), (i, ComparableModel::OptionOfNamed(c)));
    assert(!Set::<Seq<char>>::empty().contains(cands[idx0].0));
    assert(t.contains(cands[idx0].0));
    let a = choose|a: int| 0 <= a < t.len() && t[a] == option_pair_text(n, c);
    let idx = choose|idx: int| 0 <= idx < cands.len() && #[trigger] cands[idx] == (t[a], o[a]);
    lemma_option_pair_candidate(fields, n, c, idx);
    lemma_first_texts_earliest(cands, Set::empty());
    assert(t[a] == option_pair_text(n, c));
    let first = choose|idx: int|
        0 <= idx < cands.len() && #[trigger] cands[idx] == (t[a], o[a]) && forall|b: int|
            0 <= b < idx ==> #[trigger] cands[b].0 != t[a];
    if first > idx0 {
        assert(cands[idx0].0 == t[a]);
    }
    lemma_candidates_field_order(fields, first, idx0);
}

/// The text that identifies the comparison of a field of the type named `n`
/// with the type named `c`.
pub open spec fn rule_pair_text(n: Seq<char>, c: Seq<char>) -> Seq<char> {
    n + "_"@ + c
}

/// Two rule texts are equal only for the same pair, and a rule text of the
/// table starts with the first letter of a numeric type, `char` or `DateTime`.
proof fn lemma_rule_pair_text_injective(n: Seq<char>, c: Seq<char>, name: Seq<char>, k: int)
    requires
        widening_pair(n, c),
        0 <= k < compatible_types(name).len(),
        rule_pair_text(name, compatible_types(name)[k]) == rule_pair_text(n, c),
    ensures
        name == n,
        compatible_types(name)[k] == c,
{
    reveal_strlit("i16");
    reveal_strlit("i32");
    reveal_strlit("i64");
    reveal_strlit("f64");
    reveal_strlit("f32");
    reveal_strlit("char");
    reveal_strlit("String");
    reveal_strlit("DateTime");
    reveal_strlit("_");
    lemma_rule_names(name);
    let c2 = compatible_types(name)[k];
    let a = rule_pair_text(name, c2);
    let b = rule_pair_text(n, c);
    if name.len() == n.len() {
        assert(name =~= a.subrange(0, name.len() as int));
        assert(n =~= b.subrange(0, n.len() as int));
        assert(c2 =~= a.subrange(name.len() as int + 1, a.len() as int));
        assert(c =~= b.subrange(n.len() as int + 1, b.len() as int));
    } else if name.len() < n.len() {
        assert(a[name.len() as int] == '_');
        assert(b[name.len() as int] == n[name.len() as int]);
    } else {
        assert(b[n.len() as int] == '_');
        assert(a[n.len() as int] == name[n.len() as int]);
    }
}

/// The first letter of a rule text of the table is that of a numeric type,
/// `char` or `DateTime`: never `O`, nor the first letter of a collection.
proof fn lemma_rule_pair_text_first(n: Seq<char>, c: Seq<char>)
    requires
        widening_pair(n, c),
    ensures
        rule_pair_text(n, c).len() > 0,
        rule_pair_text(n, c)[0] == n[0],
        n[0] == 'i' || n[0] == 'f' || n[0] == 'c' || n[0] == 'D',
{
    reveal_strlit("i32");
    reveal_strlit("i64");
    reveal_strlit("f64");
    reveal_strlit("char");
    reveal_strlit("DateTime");
}

/// A candidate of a field with the rule text of a pair of the table compares
/// that field, of the type named `n`, with `c`.
proof fn lemma_rule_pair_field_candidate(i: int, ty: TypeRepr, n: Seq<char>, c: Seq<char>, k: int)
    requires
        widening_pair(n, c),
        0 <= k < field_candidates(i, ty).len(),
        field_candidates(i, ty)[k].0 == rule_pair_text(n, c),
    ensures
        field_candidates(i, ty)[k].1 == (i, named_type(c)),
        last_name(ty) == Some(n),
{
    reveal_strlit("Vec");
    reveal_strlit("HashSet");
    reveal_strlit("BTreeSet");
    reveal_strlit("LinkedList");
    reveal_strlit("VecDeque");
    reveal_strlit("BinaryHeap");
    reveal_strlit("HashMap");
    reveal_strlit("BTreeMap");
    reveal_strlit("Option_");
    reveal_strlit("Option<");
    lemma_rule_pair_text_first(n, c);
    let kk = lemma_widening_in_rules(n, c);
    let f = field_candidates(i, ty);
    let t = type_text(ty);
    match last_name(ty) {
        Some(name) => {
            let own = seq![(t + "_"@ + t, (i, ComparableModel::FieldType))];
            let r = rule_candidates(i, name);
            let w = wrapper_candidates(i, ty, name);
            assert(f == own + r + w);
            if k == 0 {
                lemma_rule_text_not_own(n, kk, t);
            } else if k < 1 + r.len() {
                assert(f[k] == r[k - 1]);
                lemma_rule_pair_text_injective(n, c, name, k - 1);
            } else {
                let m = k - 1 - r.len();
                assert(f[k] == w[m]);
                if name == "Option"@ {
                    match first_type_argument(ty) {
                        Some(inner) => {
                            if m == 0 {
                                assert(w[0].0[0] == 'O');
                            } else {
                                match last_name(inner) {
                                    Some(iname) => {
                                        let o = option_rule_candidates(i, iname);
                                        assert(w[m] == o[m - 1]);
                                        assert(o[m - 1].0[0] == 'O');
                                    },
                                    None => {},
                                }
                            }
                        },
                        None => {},
                    }
                } else if is_collection_type(name) {
                    match first_type_argument(ty) {
                        Some(item) => {
                            lemma_text_starts_with_name(ty, name);
                            assert(name.len() > 0);
                            assert(name[0] == 'V' || name[0] == 'H' || name[0] == 'B' || name[0] == 'L');
                            assert((t + "_"@ + type_text(item))[0] == t[0]);
                        },
                        None => {},
                    }
                }
            }
        },
        None => {
            lemma_rule_text_not_own(n, kk, t);
        },
    }
}

/// A candidate ordering of a field with the rule text of a pair of the table
/// orders that field, of the type named `n`, against `c`.
proof fn lemma_rule_pair_ordered_field_candidate(i: int, ty: TypeRepr, n: Seq<char>, c: Seq<char>, k: int)
    requires
        widening_pair(n, c),
        0 <= k < ordered_candidates(i, ty).len(),
        ordered_candidates(i, ty)[k].0 == rule_pair_text(n, c),
    ensures
        ordered_candidates(i, ty)[k].1 == (i, named_type(c)),
        last_name(ty) == Some(n),
{
    let kk = lemma_widening_in_rules(n, c);
    let f = ordered_candidates(i, ty);
    let t = type_text(ty);
    match last_name(ty) {
        Some(name) => {
            let r = rule_candidates(i, name);
            assert(f == seq![(t + "_"@ + t, (i, ComparableModel::FieldType))] + r);
            if k == 0 {
                lemma_rule_text_not_own(n, kk, t);
            } else {
                assert(f[k] == r[k - 1]);
                lemma_rule_pair_text_injective(n, c, name, k - 1);
            }
        },
        None => {},
    }
}

/// A candidate of any field with the rule text of a pair of the table compares
/// a field of the type named `n` with `c`.
proof fn lemma_rule_pair_candidate(fields: Seq<TypeRepr>, n: Seq<char>, c: Seq<char>, idx: int)
    requires
        widening_pair(n, c),
        0 <= idx < all_candidates(fields).len(),
        all_candidates(fields)[idx].0 == rule_pair_text(n, c),
    ensures
        0 <= all_candidates(fields)[idx].1.0 < fields.len(),
        all_candidates(fields)[idx].1.1 == named_type(c),
        last_name(fields[all_candidates(fields)[idx].1.0]) == Some(n),
    decreases fields.len(),
{
    let init = fields.drop_last();
    let a = all_candidates(init);
    let all = all_candidates(fields);
    let last = fields.len() - 1;
    assert(all == a + field_candidates(last, fields.last()));
    if idx < a.len() {
        assert(all[idx] == a[idx]);
        lemma_rule_pair_candidate(init, n, c, idx);
        assert(init[a[idx].1.0] == fields[a[idx].1.0]);
    } else {
        assert(all[idx] == field_candidates(last, fields.last())[idx - a.len()]);
        lemma_rule_pair_field_candidate(last, fields.last(), n, c, idx - a.len());
    }
}

/// A candidate ordering of any field with the rule text of a pair of the table
/// orders a field of the type named `n` against `c`.
proof fn lemma_rule_pair_ordered_candidate(fields: Seq<TypeRepr>, n: Seq<char>, c: Seq<char>, idx: int)
    requires
        widening_pair(n, c),
        0 <= idx < all_ordered_candidates(fields).len(),
        all_ordered_candidates(fields)[idx].0 == rule_pair_text(n, c),
    ensures
        0 <= all_ordered_candidates(fields)[idx].1.0 < fields.len(),
        all_ordered_candidates(fields)[idx].1.1 == named_type(c),
        last_name(fields[all_ordered_candidates(fields)[idx].1.0]) == Some(n),
    decreases fields.len(),
{
    let init = fields.drop_last();
    let a = all_ordered_candidates(init);
    let all = all_ordered_candidates(fields);
    let last = fields.len() - 1;
    assert(all == a + ordered_candidates(last, fields.last()));
    if idx < a.len() {
        assert(all[idx] == a[idx]);
        lemma_rule_pair_ordered_candidate(init, n, c, idx);
        assert(init[a[idx].1.0] == fields[a[idx].1.0]);
    } else {
        assert(all[idx] == ordered_candidates(last, fields.last())[idx - a.len()]);
        lemma_rule_pair_ordered_field_candidate(last, fields.last(), n, c, idx - a.len());
    }
}

/// The comparison of a field of the type named `n` at position `i` with `c`,
/// for each pair of the table, is among the candidates.
proof fn lemma_rule_pair_in_candidates(fields: Seq<TypeRepr>, i: int, n: Seq<char>, c: Seq<char>)
    requires
        0 <= i < fields.len(),
        last_name(fields[i]) == Some(n),
        widening_pair(n, c),
    ensures
        exists|idx: int|
            0 <= idx < all_candidates(fields).len() && #[trigger] all_candidates(fields)[idx] == (
                rule_pair_text(n, c),
                (i, named_type(c)),
            ),
    decreases fields.len(),
{
    let init = fields.drop_last();
    let a = all_candidates(init);
    let all = all_candidates(fields);
    assert(all == a + field_candidates(fields.len() - 1, fields.last()));
    if i < fields.len() - 1 {
        assert(init[i] == fields[i]);
        lemma_rule_pair_in_candidates(init, i, n, c);
        let idx = choose|idx: int| 0 <= idx < a.len() && #[trigger] a[idx] == (rule_pair_text(n, c), (i, named_type(c)));
        assert(all[idx] == a[idx]);
    } else {
        let ty = fields[i];
        let f = field_candidates(i, ty);
        let t = type_text(ty);
        let own = seq![(t + "_"@ + t, (i, ComparableModel::FieldType))];
        let r = rule_candidates(i, n);
        let w = wrapper_candidates(i, ty, n);
        assert(f == own + r + w);
        let k = lemma_widening_in_rules(n, c);
        assert(r[k] == (rule_pair_text(n, c), (i, named_type(c))));
        assert(f[1 + k] == r[k]);
        assert(all[a.len() + 1 + k] == f[1 + k]);
    }
}

/// The ordering of a field of the ordered type named `n` at position `i`
/// against `c`, for each pair of the table, is among the candidate orderings.
proof fn lemma_rule_pair_in_ordered_candidates(fields: Seq<TypeRepr>, i: int, n: Seq<char>, c: Seq<char>)
    requires
        0 <= i < fields.len(),
        last_name(fields[i]) == Some(n),
        widening_pair(n, c),
        n != "char"@,
    ensures
        exists|idx: int|
            0 <= idx < all_ordered_candidates(fields).len() && #[trigger] all_ordered_candidates(fields)[idx] == (
                rule_pair_text(n, c),
                (i, named_type(c)),
            ),
    decreases fields.len(),
{
    let init = fields.drop_last();
    let a = all_ordered_candidates(init);
    let all = all_ordered_candidates(fields);
    assert(all == a + ordered_candidates(fields.len() - 1, fields.last()));
    if i < fields.len() - 1 {
        assert(init[i] == fields[i]);
        lemma_rule_pair_in_ordered_candidates(init, i, n, c);
        let idx = choose|idx: int| 0 <= idx < a.len() && #[trigger] a[idx] == (rule_pair_text(n, c), (i, named_type(c)));
        assert(all[idx] == a[idx]);
    } else {
        let ty = fields[i];
        let f = ordered_candidates(i, ty);
        let t = type_text(ty);
        let r = rule_candidates(i, n);
        assert(is_ordered_type(n));
        assert(f == seq![(t + "_"@ + t, (i, ComparableModel::FieldType))] + r);
        let k = lemma_widening_in_rules(n, c);
        assert(r[k] == (rule_pair_text(n, c), (i, named_type(c))));
        assert(f[1 + k] == r[k]);
        assert(all[a.len() + 1 + k] == f[1 + k]);
    }
}

/// Every field can be compared with each type its type widens to: for a field
/// of the type named `n` and each pair `(n, c)` of the widening table, the
/// derive lists the comparison with `c` of that field or of an earlier field
/// of the type named `n`.
pub proof fn lemma_fields_compare_with_widened_types(fields: Seq<TypeRepr>, i: int, n: Seq<char>, c: Seq<char>)
    requires
        0 <= i < fields.len(),
        last_name(fields[i]) == Some(n),
        widening_pair(n, c),
    ensures
        exists|a: int, j: int|
            #![trigger derived_comparisons(fields)[a], fields[j]]
            0 <= a < derived_comparisons(fields).len() && 0 <= j <= i && derived_comparisons(fields)[a] == (
                j,
                ComparableModel::Named(c),
            ) && last_name(fields[j]) == Some(n),
{
    let cands = all_candidates(fields);
    lemma_rule_pair_in_candidates(fields, i, n, c);
    lemma_widened_not_datetime(n, c);
    lemma_first_texts(cands, Set::empty());
    let t = first_texts(cands, Set::empty());
    let o = derived_comparisons(fields);
    let idx0 = choose|idx: int| 0 <= idx < cands.len() && #[trigger] cands[idx] == (rule_pair_text(n, c), (i, named_type(c)));
    assert(!Set::<Seq<char>>::empty().contains(cands[idx0].0));
    assert(t.contains(cands[idx0].0));
    let a = choose|a: int| 0 <= a < t.len() && t[a] == rule_pair_text(n, c);
    let idx = choose|idx: int| 0 <= idx < cands.len() && #[trigger] cands[idx] == (t[a], o[a]);
    lemma_rule_pair_candidate(fields, n, c, idx);
    lemma_first_texts_earliest(cands, Set::empty());
    assert(t[a] == rule_pair_text(n, c));
    let first = choose|idx: int|
        0 <= idx < cands.len() && #[trigger] cands[idx] == (t[a], o[a]) && forall|b: int|
            0 <= b < idx ==> #[trigger] cands[b].0 != t[a];
    if first > idx0 {
        assert(cands[idx0].0 == t[a]);
    }
    lemma_candidates_field_order(fields, first, idx0);
}

/// Every field of an ordered type can be ordered against each type its type
/// widens to: for a field of the type named `n` other than `char` and each
/// pair `(n, c)` of the widening table, the derive lists the ordering
/// against `c` of that field or of an earlier field of the type named `n`.
pub proof fn lemma_fields_ordered_against_widened_types(fields: Seq<TypeRepr>, i: int, n: Seq<char>, c: Seq<char>)
    requires
        0 <= i < fields.len(),
        last_name(fields[i]) == Some(n),
        widening_pair(n, c),
        n != "char"@,
    ensures
        exists|a: int, j: int|
            #![trigger derived_orderings(fields)[a], fields[j]]
            0 <= a < derived_orderings(fields).len() && 0 <= j <= i && derived_orderings(fields)[a] == (
                j,
                ComparableModel::Named(c),
            ) && last_name(fields[j]) == Some(n),
{
    let cands = all_ordered_candidates(fields);
    lemma_rule_pair_in_ordered_candidates(fields, i, n, c);
    lemma_widened_not_datetime(n, c);
    lemma_first_texts(cands, Set::empty());
    let t = first_texts(cands, Set::empty());
    let o = derived_orderings(fields);
    let idx0 = choose|idx: int| 0 <= idx < cands.len() && #[trigger] cands[idx] == (rule_pair_text(n, c), (i, named_type(c)));
    assert(!Set::<Seq<char>>::empty().contains(cands[idx0].0));
    assert(t.contains(cands[idx0].0));
    let a = choose|a: int| 0 <= a < t.len() && t[a] == rule_pair_text(n, c);
    let idx = choose|idx: int| 0 <= idx < cands.len() && #[trigger] cands[idx] == (t[a], o[a]);
    lemma_rule_pair_ordered_candidate(fields, n, c, idx);
    lemma_first_texts_earliest(cands, Set::empty());
    assert(t[a] == rule_pair_text(n, c));
    let first = choose|idx: int|
        0 <= idx < cands.len() && #[trigger] cands[idx] == (t[a], o[a]) && forall|b: int|
            0 <= b < idx ==> #[trigger] cands[b].0 != t[a];
    if first > idx0 {
        assert(cands[idx0].0 == t[a]);
    }
    lemma_ordered_candidates_field_order(fields, first, idx0);
}

/// Every candidate ordering names a field whose type is an ordered type.
proof fn lemma_ordered_candidate_type(fields: Seq<TypeRepr>, idx: int)
    requires
        0 <= idx < all_ordered_candidates(fields).len(),
    ensures
        0 <= all_ordered_candidates(fields)[idx].1.0 < fields.len(),
        last_name(fields[all_ordered_candidates(fields)[idx].1.0]) matches Some(name) && is_ordered_type(name),
    decreases fields.len(),
{
    let init = fields.drop_last();
    let a = all_ordered_candidates(init);
    let all = all_ordered_candidates(fields);
    let last = fields.len() - 1;
    assert(all == a + ordered_candidates(last, fields.last()));
    if idx < a.len() {
        assert(all[idx] == a[idx]);
        lemma_ordered_candidate_type(init, idx);
        assert(init[a[idx].1.0] == fields[a[idx].1.0]);
    } else {
        let f = ordered_candidates(last, fields.last());
        let m = idx - a.len();
        assert(all[idx] == f[m]);
        match last_name(fields.last()) {
            Some(name) => {
                if m >= 1 {
                    assert(f[m] == rule_candidates(last, name)[m - 1]);
                }
            },
            None => {},
        }
    }
}

/// The derive orders only fields whose type is a primitive integer or
/// floating-point type or `DateTime`: every ordering it lists is of such a
/// field.
pub proof fn lemma_only_ordered_types_ordered(fields: Seq<TypeRepr>)
    ensures
        forall|a: int|
            #![trigger derived_orderings(fields)[a]]
            0 <= a < derived_orderings(fields).len() ==> {
                let j = derived_orderings(fields)[a].0;
                &&& 0 <= j < fields.len()
                &&& last_name(fields[j]) matches Some(n) && (n == "i8"@ || n == "i16"@ || n == "i32"@ || n
                    == "i64"@ || n == "i128"@ || n == "isize"@ || n == "u8"@ || n == "u16"@ || n == "u32"@ || n
                    == "u64"@ || n == "u128"@ || n == "usize"@ || n == "f32"@ || n == "f64"@ || n
                    == "DateTime"@)
            },
{
    let cands = all_ordered_candidates(fields);
    lemma_first_texts(cands, Set::empty());
    let t = first_texts(cands, Set::empty());
    let o = derived_orderings(fields);
    assert forall|a: int| #![trigger o[a]] 0 <= a < o.len() implies {
        let j = o[a].0;
        &&& 0 <= j < fields.len()
        &&& last_name(fields[j]) matches Some(n) && (n == "i8"@ || n == "i16"@ || n == "i32"@ || n == "i64"@
            || n == "i128"@ || n == "isize"@ || n == "u8"@ || n == "u16"@ || n == "u32"@ || n == "u64"@ || n
            == "u128"@ || n == "usize"@ || n == "f32"@ || n == "f64"@ || n == "DateTime"@)
    } by {
        assert(t[a] == t[a]);
        let idx = choose|idx: int| 0 <= idx < cands.len() && #[trigger] cands[idx] == (t[a], o[a]);
        lemma_ordered_candidate_type(fields, idx);
    }
}

/// A candidate of a field whose text has even length and starts with
/// `Option_` (as the text of an `Option` field's comparison with its type
/// argument does) compares that field, an `Option`, with its type argument.
proof fn lemma_option_argument_field_candidate(i: int, ty: TypeRepr, text: Seq<char>, k: int)
    requires
        text.len() % 2 == 0,
        text.len() > 7,
        text[0] == 'O',
        text[6] == '_',
        0 <= k < field_candidates(i, ty).len(),
        field_candidates(i, ty)[k].0 == text,
    ensures
        field_candidates(i, ty)[k].1 == (i, ComparableModel::TypeArgument),
        last_name(ty) == Some("Option"@),
{
    reveal_strlit("_");
    reveal_strlit("i32");
    reveal_strlit("i64");
    reveal_strlit("f64");
    reveal_strlit("char");
    reveal_strlit("DateTime");
    reveal_strlit("Vec");
    reveal_strlit("HashSet");
    reveal_strlit("BTreeSet");
    reveal_strlit("LinkedList");
    reveal_strlit("VecDeque");
    reveal_strlit("BinaryHeap");
    reveal_strlit("HashMap");
    reveal_strlit("BTreeMap");
    reveal_strlit("Option<");
    reveal_strlit(">_Option<");
    reveal_strlit(">");
    let f = field_candidates(i, ty);
    let t = type_text(ty);
    assert((t + "_"@ + t).len() == 2 * t.len() + 1);
    match last_name(ty) {
        Some(name) => {
            let own = seq![(t + "_"@ + t, (i, ComparableModel::FieldType))];
            let r = rule_candidates(i, name);
            let w = wrapper_candidates(i, ty, name);
            assert(f == own + r + w);
            if k == 0 {
                assert(f[0].0 == t + "_"@ + t);
            } else if k < 1 + r.len() {
                assert(f[k] == r[k - 1]);
                lemma_rule_names(name);
                assert((name + "_"@ + compatible_types(name)[k - 1])[0] == name[0]);
            } else {
                let m = k - 1 - r.len();
                assert(f[k] == w[m]);
                if name == "Option"@ {
                    match first_type_argument(ty) {
                        Some(inner) => {
                            if m >= 1 {
                                match last_name(inner) {
                                    Some(iname) => {
                                        let o = option_rule_candidates(i, iname);
                                        assert(w[m] == o[m - 1]);
                                        assert(o[m - 1].0 == option_pair_text(iname, compatible_types(iname)[m - 1]));
                                        assert(option_pair_text(iname, compatible_types(iname)[m - 1])[6] == '<');
                                    },
                                    None => {},
                                }
                            }
                        },
                        None => {},
                    }
                } else if is_collection_type(name) {
                    match first_type_argument(ty) {
                        Some(item) => {
                            lemma_text_starts_with_name(ty, name);
                            assert(name.len() > 0);
                            assert(name[0] == 'V' || name[0] == 'H' || name[0] == 'B' || name[0] == 'L');
                            assert((t + "_"@ + type_text(item))[0] == t[0]);
                        },
                        None => {},
                    }
                }
            }
        },
        None => {
            assert(f.len() == 1);
        },
    }
}

/// A candidate of any field with such a text compares an `Option` field with
/// its type argument.
proof fn lemma_option_argument_candidate(fields: Seq<TypeRepr>, text: Seq<char>, idx: int)
    requires
        text.len() % 2 == 0,
        text.len() > 7,
        text[0] == 'O',
        text[6] == '_',
        0 <= idx < all_candidates(fields).len(),
        all_candidates(fields)[idx].0 == text,
    ensures
        0 <= all_candidates(fields)[idx].1.0 < fields.len(),
        all_candidates(fields)[idx].1.1 == ComparableModel::TypeArgument,
        last_name(fields[all_candidates(fields)[idx].1.0]) == Some("Option"@),
    decreases fields.len(),
{
    let init = fields.drop_last();
    let a = all_candidates(init);
    let all = all_candidates(fields);
    let last = fields.len() - 1;
    assert(all == a + field_candidates(last, fields.last()));
    if idx < a.len() {
        assert(all[idx] == a[idx]);
        lemma_option_argument_candidate(init, text, idx);
        assert(init[a[idx].1.0] == fields[a[idx].1.0]);
    } else {
        assert(all[idx] == field_candidates(last, fields.last())[idx - a.len()]);
        lemma_option_argument_field_candidate(last, fields.last(), text, idx - a.len());
    }
}

/// The text that identifies the comparison of the `Option` field type `t`
/// with its type argument `u`.
pub open spec fn option_argument_text(t: Seq<char>, u: Seq<char>) -> Seq<char> {
    "Option_"@ + t + "_"@ + u
}

/// The comparison of an `Option<u>` field at position `i` with its type
/// argument is among the candidates.
proof fn lemma_option_argument_in_candidates(fields: Seq<TypeRepr>, i: int, inner: TypeRepr)
    requires
        0 <= i < fields.len(),
        last_name(fields[i]) == Some("Option"@),
        first_type_argument(fields[i]) == Some(inner),
    ensures
        exists|idx: int|
            0 <= idx < all_candidates(fields).len() && #[trigger] all_candidates(fields)[idx] == (
                option_argument_text(type_text(fields[i]), type_text(inner)),
                (i, ComparableModel::TypeArgument),
            ),
    decreases fields.len(),
{
    let init = fields.drop_last();
    let a = all_candidates(init);
    let all = all_candidates(fields);
    assert(all == a + field_candidates(fields.len() - 1, fields.last()));
    if i < fields.len() - 1 {
        assert(init[i] == fields[i]);
        lemma_option_argument_in_candidates(init, i, inner);
        let idx = choose|idx: int|
            0 <= idx < a.len() && #[trigger] a[idx] == (
                option_argument_text(type_text(init[i]), type_text(inner)),
                (i, ComparableModel::TypeArgument),
            );
        assert(all[idx] == a[idx]);
    } else {
        reveal_strlit("Option");
        reveal_strlit("i32");
        reveal_strlit("i64");
        reveal_strlit("f64");
        reveal_strlit("char");
        reveal_strlit("DateTime");
        let ty = fields[i];
        let name = "Option"@;
        let f = field_candidates(i, ty);
        let t = type_text(ty);
        let own = seq![(t + "_"@ + t, (i, ComparableModel::FieldType))];
        assert(compatible_types(name) =~= Seq::<Seq<char>>::empty());
        let r = rule_candidates(i, name);
        assert(r.len() == 0);
        let w = wrapper_candidates(i, ty, name);
        assert(f == own + r + w);
        assert(w[0] == (option_argument_text(t, type_text(inner)), (i, ComparableModel::TypeArgument)));
        assert(f[1] == w[0]);
        assert(all[a.len() as int + 1] == f[1]);
    }
}

/// Every `Option<T>` field can be compared with `T`: for a field at position
/// `i` whose type text is `Option<u>`, `u` the text of its type argument, the
/// derive lists the comparison of that field or of an earlier `Option` field
/// with its type argument.
pub proof fn lemma_option_fields_compare_with_argument(fields: Seq<TypeRepr>, i: int, inner: TypeRepr)
    requires
        0 <= i < fields.len(),
        last_name(fields[i]) == Some("Option"@),
        first_type_argument(fields[i]) == Some(inner),
        type_text(fields[i]) == "Option<"@ + type_text(inner) + ">"@,
    ensures
        exists|a: int, j: int|
            #![trigger derived_comparisons(fields)[a], fields[j]]
            0 <= a < derived_comparisons(fields).len() && 0 <= j <= i && derived_comparisons(fields)[a] == (
                j,
                ComparableModel::TypeArgument,
            ) && last_name(fields[j]) == Some("Option"@),
{
    reveal_strlit("Option_");
    reveal_strlit("Option<");
    reveal_strlit(">");
    reveal_strlit("_");
    let cands = all_candidates(fields);
    let u = type_text(inner);
    let text = option_argument_text(type_text(fields[i]), u);
    assert(text.len() == 16 + 2 * u.len());
    assert(text[0] == 'O' && text[6] == '_');
    lemma_option_argument_in_candidates(fields, i, inner);
    lemma_first_texts(cands, Set::empty());
    let t = first_texts(cands, Set::empty());
    let o = derived_comparisons(fields);
    let idx0 = choose|idx: int| 0 <= idx < cands.len() && #[trigger] cands[idx] == (text, (i, ComparableModel::TypeArgument));
    assert(!Set::<Seq<char>>::empty().contains(cands[idx0].0));
    assert(t.contains(cands[idx0].0));
    let a = choose|a: int| 0 <= a < t.len() && t[a] == text;
    let idx = choose|idx: int| 0 <= idx < cands.len() && #[trigger] cands[idx] == (t[a], o[a]);
    lemma_option_argument_candidate(fields, text, idx);
    lemma_first_texts_earliest(cands, Set::empty());
    let first = choose|idx: int|
        0 <= idx < cands.len() && #[trigger] cands[idx] == (t[a], o[a]) && forall|b: int|
            0 <= b < idx ==> #[trigger] cands[b].0 != t[a];
    if first > idx0 {
        assert(cands[idx0].0 == t[a]);
    }
    lemma_candidates_field_order(fields, first, idx0);
}

/// A candidate of a field whose text starts with the first letter of a
/// collection's name and is no own-type text compares that field, a
/// collection, with its type argument.
proof fn lemma_collection_argument_field_candidate(i: int, ty: TypeRepr, text: Seq<char>, k: int)
    requires
        text.len() > 0,
        text[0] == 'V' || text[0] == 'H' || text[0] == 'B' || text[0] == 'L',
        forall|x: Seq<char>| text != x + "_"@ + x,
        0 <= k < field_candidates(i, ty).len(),
        field_candidates(i, ty)[k].0 == text,
    ensures
        field_candidates(i, ty)[k].1 == (i, ComparableModel::TypeArgument),
        last_name(ty) matches Some(name) && is_collection_type(name),
{
    reveal_strlit("i32");
    reveal_strlit("i64");
    reveal_strlit("f64");
    reveal_strlit("char");
    reveal_strlit("DateTime");
    reveal_strlit("Option_");
    reveal_strlit("Option<");
    let f = field_candidates(i, ty);
    let t = type_text(ty);
    match last_name(ty) {
        Some(name) => {
            let own = seq![(t + "_"@ + t, (i, ComparableModel::FieldType))];
            let r = rule_candidates(i, name);
            let w = wrapper_candidates(i, ty, name);
            assert(f == own + r + w);
            if k == 0 {
                assert(f[0].0 == t + "_"@ + t);
            } else if k < 1 + r.len() {
                assert(f[k] == r[k - 1]);
                lemma_rule_names(name);
                assert((name + "_"@ + compatible_types(name)[k - 1])[0] == name[0]);
            } else {
                let m = k - 1 - r.len();
                assert(f[k] == w[m]);
                if name == "Option"@ {
                    match first_type_argument(ty) {
                        Some(inner) => {
                            if m >= 1 {
                                match last_name(inner) {
                                    Some(iname) => {
                                        let o = option_rule_candidates(i, iname);
                                        assert(w[m] == o[m - 1]);
                                        assert(o[m - 1].0[0] == 'O');
                                    },
                                    None => {},
                                }
                            } else {
                                assert(w[0].0[0] == 'O');
                            }
                        },
                        None => {},
                    }
                }
            }
        },
        None => {
            assert(f.len() == 1);
        },
    }
}

/// A candidate of any field with such a text compares a collection field with
/// its type argument.
proof fn lemma_collection_argument_candidate(fields: Seq<TypeRepr>, text: Seq<char>, idx: int)
    requires
        text.len() > 0,
        text[0] == 'V' || text[0] == 'H' || text[0] == 'B' || text[0] == 'L',
        forall|x: Seq<char>| text != x + "_"@ + x,
        0 <= idx < all_candidates(fields).len(),
        all_candidates(fields)[idx].0 == text,
    ensures
        0 <= all_candidates(fields)[idx].1.0 < fields.len(),
        all_candidates(fields)[idx].1.1 == ComparableModel::TypeArgument,
        last_name(fields[all_candidates(fields)[idx].1.0]) matches Some(name) && is_collection_type(name),
    decreases fields.len(),
{
    let init = fields.drop_last();
    let a = all_candidates(init);
    let all = all_candidates(fields);
    let last = fields.len() - 1;
    assert(all == a + field_candidates(last, fields.last()));
    if idx < a.len() {
        assert(all[idx] == a[idx]);
        lemma_collection_argument_candidate(init, text, idx);
        assert(init[a[idx].1.0] == fields[a[idx].1.0]);
    } else {
        assert(all[idx] == field_candidates(last, fields.last())[idx - a.len()]);
        lemma_collection_argument_field_candidate(last, fields.last(), text, idx - a.len());
    }
}

/// The comparison of a collection field at position `i` with its type
/// argument is among the candidates.
proof fn lemma_collection_argument_in_candidates(fields: Seq<TypeRepr>, i: int, name: Seq<char>, item: TypeRepr)
    requires
        0 <= i < fields.len(),
        last_name(fields[i]) == Some(name),
        is_collection_type(name),
        first_type_argument(fields[i]) == Some(item),
    ensures
        exists|idx: int|
            0 <= idx < all_candidates(fields).len() && #[trigger] all_candidates(fields)[idx] == (
                type_text(fields[i]) + "_"@ + type_text(item),
                (i, ComparableModel::TypeArgument),
            ),
    decreases fields.len(),
{
    let init = fields.drop_last();
    let a = all_candidates(init);
    let all = all_candidates(fields);
    assert(all == a + field_candidates(fields.len() - 1, fields.last()));
    if i < fields.len() - 1 {
        assert(init[i] == fields[i]);
        lemma_collection_argument_in_candidates(init, i, name, item);
        let idx = choose|idx: int|
            0 <= idx < a.len() && #[trigger] a[idx] == (
                type_text(init[i]) + "_"@ + type_text(item),
                (i, ComparableModel::TypeArgument),
            );
        assert(all[idx] == a[idx]);
    } else {
        reveal_strlit("Option");
        reveal_strlit("i32");
        reveal_strlit("i64");
        reveal_strlit("f64");
        reveal_strlit("char");
        reveal_strlit("DateTime");
        reveal_strlit("Vec");
        reveal_strlit("HashSet");
        reveal_strlit("BTreeSet");
        reveal_strlit("LinkedList");
        reveal_strlit("VecDeque");
        reveal_strlit("BinaryHeap");
        reveal_strlit("HashMap");
        reveal_strlit("BTreeMap");
        let ty = fields[i];
        let f = field_candidates(i, ty);
        let t = type_text(ty);
        let own = seq![(t + "_"@ + t, (i, ComparableModel::FieldType))];
        assert(name.len() > 0 && (name[0] == 'V' || name[0] == 'H' || name[0] == 'B' || name[0] == 'L'));
        if compatible_types(name).len() > 0 {
            lemma_rule_names(name);
            assert(name[0] == 'i' || name[0] == 'f' || name[0] == 'c' || name[0] == 'D');
        }
        let r = rule_candidates(i, name);
        assert(r.len() == 0);
        let w = wrapper_candidates(i, ty, name);
        assert(name != "Option"@);
        assert(f == own + r + w);
        assert(w[0] == (t + "_"@ + type_text(item), (i, ComparableModel::TypeArgument)));
        assert(f[1] == w[0]);
        assert(all[a.len() as int + 1] == f[1]);
    }
}

/// The text `name<u>_u` of a collection field's comparison with its type
/// argument is no own-type text `x_x` when it has even length (the
/// collection's name has odd length) or when `u` has no `_`.
proof fn lemma_collection_argument_text_not_own(name: Seq<char>, u: Seq<char>)
    requires
        is_collection_type(name),
        name.len() % 2 == 1 || forall|k: int| 0 <= k < u.len() ==> u[k] != '_',
    ensures
        forall|x: Seq<char>| #![trigger x + "_"@ + x] name + "<"@ + u + ">"@ + "_"@ + u != x + "_"@ + x,
        (name + "<"@ + u + ">"@ + "_"@ + u)[0] == name[0],
        name[0] == 'V' || name[0] == 'H' || name[0] == 'B' || name[0] == 'L',
{
    reveal_strlit("<");
    reveal_strlit(">");
    reveal_strlit("_");
    reveal_strlit("Vec");
    reveal_strlit("HashSet");
    reveal_strlit("BTreeSet");
    reveal_strlit("LinkedList");
    reveal_strlit("VecDeque");
    reveal_strlit("BinaryHeap");
    reveal_strlit("HashMap");
    reveal_strlit("BTreeMap");
    let text = name + "<"@ + u + ">"@ + "_"@ + u;
    assert(text.len() == name.len() + 3 + 2 * u.len());
    assert forall|k: int| 0 <= k < name.len() implies name[k] != '_' by {}
    assert forall|x: Seq<char>| text != x + "_"@ + x by {
        if text == x + "_"@ + x {
            lemma_doubled_shape(text, x);
            if name.len() % 2 == 1 {
                assert(text.len() % 2 == 0);
            } else {
                let p = x.len() as int;
                assert(text[p] == '_');
                if p < name.len() {
                    assert(text[p] == name[p]);
                } else if p == name.len() {
                    assert(text[p] == '<');
                } else if p < name.len() + 1 + u.len() {
                    assert(text[p] == u[p - name.len() - 1]);
                } else if p == name.len() + 1 + u.len() {
                    assert(text[p] == '>');
                } else if p == name.len() + 2 + u.len() {
                    assert(2 * p + 1 == text.len());
                } else {
                    assert(text[p] == u[p - name.len() - 3 - u.len()]);
                }
            }
        }
    }
}

/// Every collection field can be compared with its element type: for a field
/// at position `i` whose type text is `name<u>`, `name` a collection's name and
/// `u` the text of its type argument, the derive lists the comparison of that
/// field or of an earlier collection field with its type argument, when the
/// collection's name has odd length or `u` has no `_`.
pub proof fn lemma_collection_fields_compare_with_argument(
    fields: Seq<TypeRepr>,
    i: int,
    name: Seq<char>,
    item: TypeRepr,
)
    requires
        0 <= i < fields.len(),
        last_name(fields[i]) == Some(name),
        is_collection_type(name),
        first_type_argument(fields[i]) == Some(item),
        type_text(fields[i]) == name + "<"@ + type_text(item) + ">"@,
        name.len() % 2 == 1 || forall|k: int| 0 <= k < type_text(item).len() ==> type_text(item)[k] != '_',
    ensures
        exists|a: int, j: int|
            #![trigger derived_comparisons(fields)[a], fields[j]]
            0 <= a < derived_comparisons(fields).len() && 0 <= j <= i && derived_comparisons(fields)[a] == (
                j,
                ComparableModel::TypeArgument,
            ) && (last_name(fields[j]) matches Some(cname) && is_collection_type(cname)),
{
    let cands = all_candidates(fields);
    let u = type_text(item);
    let text = type_text(fields[i]) + "_"@ + u;
    lemma_collection_argument_text_not_own(name, u);
    assert(text == name + "<"@ + u + ">"@ + "_"@ + u);
    lemma_collection_argument_in_candidates(fields, i, name, item);
    lemma_first_texts(cands, Set::empty());
    let t = first_texts(cands, Set::empty());
    let o = derived_comparisons(fields);
    let idx0 = choose|idx: int| 0 <= idx < cands.len() && #[trigger] cands[idx] == (text, (i, ComparableModel::TypeArgument));
    assert(!Set::<Seq<char>>::empty().contains(cands[idx0].0));
    assert(t.contains(cands[idx0].0));
    let a = choose|a: int| 0 <= a < t.len() && t[a] == text;
    let idx = choose|idx: int| 0 <= idx < cands.len() && #[trigger] cands[idx] == (t[a], o[a]);
    lemma_collection_argument_candidate(fields, text, idx);
    lemma_first_texts_earliest(cands, Set::empty());
    let first = choose|idx: int|
        0 <= idx < cands.len() && #[trigger] cands[idx] == (t[a], o[a]) && forall|b: int|
            0 <= b < idx ==> #[trigger] cands[b].0 != t[a];
    if first > idx0 {
        assert(cands[idx0].0 == t[a]);
    }
    lemma_candidates_field_order(fields, first, idx0);
}

/// The texts of the comparisons that the derive lists, in order.
pub open spec fn derived_texts(fields: Seq<TypeRepr>) -> Seq<Seq<char>> {
    first_texts(all_candidates(fields), Set::empty())
}

/// The derive lists no comparison twice: each listed comparison is a candidate
/// with its own text and no two share a text. Every field's comparison with
/// its own type is listed; when the text of a field's own-type comparison is
/// the text of no other kind of candidate, the comparison listed under it is
/// that of a field with the same type text with its own type.
pub proof fn lemma_derived_complete_unique(fields: Seq<TypeRepr>)
    ensures
        derived_texts(fields).len() == derived_comparisons(fields).len(),
        forall|a: int, b: int|
            0 <= a < b < derived_texts(fields).len() ==> derived_texts(fields)[a] != derived_texts(fields)[b],
        forall|a: int|
            #![trigger derived_texts(fields)[a]]
            0 <= a < derived_texts(fields).len() ==> exists|idx: int|
                0 <= idx < all_candidates(fields).len() && #[trigger] all_candidates(fields)[idx] == (
                    derived_texts(fields)[a],
                    derived_comparisons(fields)[a],
                ),
        forall|i: int| 0 <= i < fields.len() ==> derived_texts(fields).contains(#[trigger] own_text(fields[i])),
        (forall|idx: int, i: int|
            0 <= idx < all_candidates(fields).len() && 0 <= i < fields.len() && #[trigger] all_candidates(
                fields,
            )[idx].0 == #[trigger] own_text(fields[i]) ==> all_candidates(fields)[idx].1.1 is FieldType)
            ==> forall|i: int|
            #![trigger own_text(fields[i])]
            0 <= i < fields.len() ==> exists|a: int, j: int|
                #![trigger derived_texts(fields)[a], fields[j]]
                0 <= a < derived_texts(fields).len() && 0 <= j < fields.len() && derived_texts(
                    fields,
                )[a] == own_text(fields[i]) && derived_comparisons(fields)[a] == (j, ComparableModel::FieldType)
                    && type_text(fields[j]) == type_text(fields[i]),
{
    let cands = all_candidates(fields);
    lemma_first_texts(cands, Set::empty());
    let t = derived_texts(fields);
    let o = derived_comparisons(fields);
    assert forall|i: int| 0 <= i < fields.len() implies t.contains(#[trigger] own_text(fields[i])) by {
        lemma_own_candidate(fields, i);
        let idx = choose|idx: int| 0 <= idx < cands.len() && #[trigger] cands[idx] == (own_text(fields[i]), (i, ComparableModel::FieldType));
        assert(!Set::<Seq<char>>::empty().contains(cands[idx].0));
    }
    if forall|idx: int, i: int|
        0 <= idx < cands.len() && 0 <= i < fields.len() && #[trigger] cands[idx].0 == #[trigger] own_text(fields[i])
            ==> cands[idx].1.1 is FieldType {
        assert forall|i: int| #![trigger own_text(fields[i])] 0 <= i < fields.len() implies exists|a: int, j: int|
            #![trigger t[a], fields[j]]
            0 <= a < t.len() && 0 <= j < fields.len() && t[a] == own_text(fields[i]) && o[a] == (
                j,
                ComparableModel::FieldType,
            ) && type_text(fields[j]) == type_text(fields[i]) by {
            assert(t.contains(own_text(fields[i])));
            let a = choose|a: int| 0 <= a < t.len() && t[a] == own_text(fields[i]);
            let idx = choose|idx: int| 0 <= idx < cands.len() && #[trigger] cands[idx] == (t[a], o[a]);
            assert(cands[idx].0 == own_text(fields[i]));
            assert(cands[idx].1.1 is FieldType);
            let j = o[a].0;
            assert(0 <= j < fields.len() && own_text(fields[j]) == own_text(fields[i])) by {
                lemma_candidate_fields(fields, idx);
            }
            lemma_own_text_injective(type_text(fields[j]), type_text(fields[i]));
        }
    }
}

/// The models of candidate comparisons.
pub open spec fn candidates_model(v: Seq<(String, ComparableImpl)>) -> Seq<Candidate> {
    v.map_values(|c: (String, ComparableImpl)| (c.0@, c.1@))
}

/// `a` followed by `b`.
fn concat2(a: &str, b: &str) -> (r: String)
    ensures
        r@ == a@ + b@,
{
    let mut out = a.to_owned();
    out.append(b);
    out
}

/// `a_b`.
fn underscore_join(a: &str, b: &str) -> (r: String)
    ensures
        r@ == a@ + "_"@ + b@,
{
    let mut out = a.to_owned();
    out.append("_");
    out.append(b);
    out
}

/// The type that the rule name `c` stands for.
fn named_comparable(c: &str) -> (r: ComparableType)
    ensures
        r@ == named_type(c@),
{
    if str_equal(c, "DateTime") {
        ComparableType::ChronoDateTime
    } else {
        ComparableType::Named(c.to_owned())
    }
}

/// `Option` of the type that the rule name `c` stands for.
fn optional_named_comparable(c: &str) -> (r: ComparableType)
    ensures
        r@ == optional_named_type(c@),
{
    if str_equal(c, "DateTime") {
        ComparableType::OptionOfChronoDateTime
    } else {
        ComparableType::OptionOfNamed(c.to_owned())
    }
}

/// Appends the candidates of the compatibility rules for the type named `name`
/// of the field at position `i`.
fn push_rule_candidates(out: &mut Vec<(String, ComparableImpl)>, i: usize, name: &str)
    ensures
        candidates_model(final(out)@) == candidates_model(old(out)@) + rule_candidates(i as int, name@),
{
    let compat = get_compatible_types_for(name);
    let ghost cs = compatible_types(name@);
    let ghost start = candidates_model(out@);
    let mut k: usize = 0;
    while k < compat.len()
        invariant
            0 <= k <= compat@.len(),
            compat@.map_values(|s: String| s@) == cs,
            cs == compatible_types(name@),
            candidates_model(out@) == start + rule_candidates(i as int, name@).take(k as int),
            start == candidates_model(old(out)@),
        decreases compat.len() - k,
    {
        let ghost before = out@;
        let key = underscore_join(name, compat[k].as_str());
        let other = named_comparable(compat[k].as_str());
        out.push((key, ComparableImpl { field: i, other }));
        proof {
            assert(cs[k as int] == compat@[k as int]@);
            assert(rule_candidates(i as int, name@).take(k + 1) =~= rule_candidates(i as int, name@).take(
                k as int,
            ).push((name@ + "_"@ + cs[k as int], (i as int, named_type(cs[k as int])))));
            assert(candidates_model(out@) =~= candidates_model(before).push(
                (name@ + "_"@ + cs[k as int], (i as int, named_type(cs[k as int]))),
            ));
        }
        k = k + 1;
    }
    assert(rule_candidates(i as int, name@).take(compat@.len() as int) =~= rule_candidates(i as int, name@));
}

/// Appends the `Option` candidates for the rules of the type named `inner`.
fn push_option_rule_candidates(out: &mut Vec<(String, ComparableImpl)>, i: usize, inner: &str)
    ensures
        candidates_model(final(out)@) == candidates_model(old(out)@) + option_rule_candidates(i as int, inner@),
{
    let compat = get_compatible_types_for(inner);
    let ghost cs = compatible_types(inner@);
    let ghost start = candidates_model(out@);
    let ghost target = option_rule_candidates(i as int, inner@);
    let mut k: usize = 0;
    while k < compat.len()
        invariant
            0 <= k <= compat@.len(),
            compat@.map_values(|s: String| s@) == cs,
            cs == compatible_types(inner@),
            target == option_rule_candidates(i as int, inner@),
            candidates_model(out@) == start + target.take(k as int),
            start == candidates_model(old(out)@),
        decreases compat.len() - k,
    {
        let ghost before = out@;
        let c = compat[k].as_str();
        let mut key = concat2("Option<", inner);
        key.append(">_Option<");
        key.append(c);
        key.append(">");
        let other = optional_named_comparable(c);
        out.push((key, ComparableImpl { field: i, other }));
        proof {
            assert(cs[k as int] == c@);
            let cand = ("Option<"@ + inner@ + ">_Option<"@ + c@ + ">"@, (i as int, optional_named_type(c@)));
            assert(target.take(k + 1) =~= target.take(k as int).push(cand));
            assert(candidates_model(out@) =~= candidates_model(before).push(cand));
        }
        k = k + 1;
    }
    assert(target.take(compat@.len() as int) =~= target);
}

/// Appends the candidate comparisons of the field at position `i` of type `ty`.
fn push_field_candidates(out: &mut Vec<(String, ComparableImpl)>, i: usize, ty: &TypeRepr)
    ensures
        candidates_model(final(out)@) == candidates_model(old(out)@) + field_candidates(i as int, *ty),
{
    let t = type_to_string(ty);
    let ghost start = candidates_model(out@);
    let own_key = underscore_join(t.as_str(), t.as_str());
    out.push((own_key, ComparableImpl { field: i, other: ComparableType::FieldType }));
    let ghost own = seq![(t@ + "_"@ + t@, (i as int, ComparableModel::FieldType))];
    assert(candidates_model(out@) =~= start + own);
    match ty {
        TypeRepr::Other(_) => {},
        TypeRepr::Path { segments: segs, .. } => {
            if segs.len() > 0 {
                let name = segs[segs.len() - 1].ident.as_str();
                assert(last_name(*ty) == Some(name@));
                push_rule_candidates(out, i, name);
                let ghost after_rules = candidates_model(out@);
                let ghost rules = rule_candidates(i as int, name@);
                assert(after_rules =~= start + (own + rules));
                let ghost wrap = wrapper_candidates(i as int, *ty, name@);
                if str_equal(name, "Option") {
                    match extract_generic_arg(ty) {
                        Some(inner) => {
                            let inner_text = type_to_string(inner);
                            let mut key = concat2("Option_", t.as_str());
                            key.append("_");
                            key.append(inner_text.as_str());
                            out.push((key, ComparableImpl { field: i, other: ComparableType::TypeArgument }));
                            let ghost arg = (
                                "Option_"@ + t@ + "_"@ + inner_text@,
                                (i as int, ComparableModel::TypeArgument),
                            );
                            let ghost after_arg = candidates_model(out@);
                            assert(after_arg =~= after_rules.push(arg));
                            match inner {
                                TypeRepr::Path { segments: isegs, .. } => {
                                    if isegs.len() > 0 {
                                        let iname = isegs[isegs.len() - 1].ident.as_str();
                                        assert(last_name(*inner) == Some(iname@));
                                        push_option_rule_candidates(out, i, iname);
                                        let ghost opts = option_rule_candidates(i as int, iname@);
                                        assert(wrap =~= seq![arg] + opts);
                                        assert(candidates_model(out@) =~= start + (own + rules + wrap));
                                    } else {
                                        assert(last_name(*inner) is None);
                                        assert(wrap =~= seq![arg]);
                                        assert(candidates_model(out@) =~= start + (own + rules + wrap));
                                    }
                                },
                                TypeRepr::Other(_) => {
                                    assert(wrap =~= seq![arg]);
                                    assert(candidates_model(out@) =~= start + (own + rules + wrap));
                                },
                            }
                        },
                        None => {
                            assert(wrap =~= Seq::<Candidate>::empty());
                            assert(candidates_model(out@) =~= start + (own + rules + wrap));
                        },
                    }
                } else if is_into_iterator_type(name) {
                    match extract_generic_arg(ty) {
                        Some(item) => {
                            let item_text = type_to_string(item);
                            let key = underscore_join(t.as_str(), item_text.as_str());
                            out.push((key, ComparableImpl { field: i, other: ComparableType::TypeArgument }));
                            let ghost arg = (t@ + "_"@ + item_text@, (i as int, ComparableModel::TypeArgument));
                            assert(candidates_model(out@) =~= after_rules.push(arg));
                            assert(wrap =~= seq![arg]);
                            assert(candidates_model(out@) =~= start + (own + rules + wrap));
                        },
                        None => {
                            assert(wrap =~= Seq::<Candidate>::empty());
                            assert(candidates_model(out@) =~= start + (own + rules + wrap));
                        },
                    }
                } else {
                    assert(wrap =~= Seq::<Candidate>::empty());
                    assert(candidates_model(out@) =~= start + (own + rules + wrap));
                }
                assert(field_candidates(i as int, *ty) == own + rules + wrap);
            } else {
                assert(last_name(*ty) is None);
            }
        },
    }
}

/// A field of a struct: its name (none for a tuple struct's field) and type.
#[derive(Debug)]
pub struct Field {
    pub ident: Option<String>,
    pub ty: TypeRepr,
}

/// The fields of a struct.
#[derive(Debug)]
pub enum StructFields {
    /// `struct S { a: A, b: B }`
    Named(Vec<Field>),
    /// `struct S(A, B);`
    Unnamed(Vec<Field>),
    /// `struct S;`
    Unit,
}

/// What the derive is applied to.
#[derive(Debug)]
pub enum DeriveData {
    Struct(StructFields),
    Enum,
    Union,
}

/// The item that the derive is applied to: its name and its shape.
#[derive(Debug)]
pub struct DeriveInput {
    pub ident: String,
    pub data: DeriveData,
}

/// Whether the item is a struct with named fields, the only items the derive
/// accepts.
pub open spec fn is_named_struct(input: DeriveInput) -> bool {
    input.data matches DeriveData::Struct(StructFields::Named(_))
}

/// The types of the named fields of a struct, in order.
pub open spec fn named_field_types(input: DeriveInput) -> Seq<TypeRepr> {
    match input.data {
        DeriveData::Struct(StructFields::Named(fields)) => fields@.map_values(|f: Field| f.ty),
        _ => Seq::empty(),
    }
}

/// The comparisons that the derive allows for a struct with these field
/// types: every candidate of every field, in order, each text only once.
pub open spec fn derived_comparisons(fields: Seq<TypeRepr>) -> Seq<(int, ComparableModel)> {
    first_of_each(all_candidates(fields), Set::empty())
}

/// The orderings that the derive allows for a struct with these field types:
/// every candidate ordering of every field, in order, each text only once.
pub open spec fn derived_orderings(fields: Seq<TypeRepr>) -> Seq<(int, ComparableModel)> {
    first_of_each(all_ordered_candidates(fields), Set::empty())
}

/// Whether `key` is among `seen`.
fn contains_key(seen: &Vec<String>, key: &str) -> (r: bool)
    ensures
        r == exists|j: int| 0 <= j < seen@.len() && #[trigger] seen@[j]@ == key@,
{
    let mut j: usize = 0;
    while j < seen.len()
        invariant
            0 <= j <= seen@.len(),
            forall|k: int| 0 <= k < j ==> #[trigger] seen@[k]@ != key@,
        decreases seen.len() - j,
    {
        if str_equal(seen[j].as_str(), key) {
            return true;
        }
        j = j + 1;
    }
    false
}

/// A copy of a comparison type.
fn copy_comparable_type(c: &ComparableType) -> (r: ComparableType)
    ensures
        r@ == c@,
{
    match c {
        ComparableType::FieldType => ComparableType::FieldType,
        ComparableType::Named(n) => ComparableType::Named(n.clone()),
        ComparableType::ChronoDateTime => ComparableType::ChronoDateTime,
        ComparableType::TypeArgument => ComparableType::TypeArgument,
        ComparableType::OptionOfNamed(n) => ComparableType::OptionOfNamed(n.clone()),
        ComparableType::OptionOfChronoDateTime => ComparableType::OptionOfChronoDateTime,
    }
}

/// The comparisons of the candidates in order, without those whose text was
/// listed before.
fn keep_first_of_each(cands: &Vec<(String, ComparableImpl)>) -> (out: Vec<ComparableImpl>)
    ensures
        out@.map_values(|c: ComparableImpl| c@) == first_of_each(candidates_model(cands@), Set::empty()),
{
    let ghost cm = candidates_model(cands@);
    let mut seen: Vec<String> = Vec::new();
    let ghost mut seen_set: Set<Seq<char>> = Set::empty();
    let mut out: Vec<ComparableImpl> = Vec::new();
    let mut k: usize = 0;
    assert(out@.map_values(|c: ComparableImpl| c@) =~= Seq::<(int, ComparableModel)>::empty());
    assert(cm.skip(0) =~= cm);
    while k < cands.len()
        invariant
            0 <= k <= cands@.len(),
            cm == candidates_model(cands@),
            forall|x: Seq<char>|
                seen_set.contains(x) <==> exists|j: int| 0 <= j < seen@.len() && #[trigger] seen@[j]@ == x,
            out@.map_values(|c: ComparableImpl| c@) + first_of_each(cm.skip(k as int), seen_set)
                == first_of_each(cm, Set::empty()),
        decreases cands.len() - k,
    {
        let ghost rest = cm.skip(k as int);
        proof {
            assert(rest[0] == cm[k as int]);
            assert(rest.drop_first() =~= cm.skip(k + 1));
            assert(cm.skip(0) =~= cm);
        }
        let key = &cands[k].0;
        if !contains_key(&seen, key.as_str()) {
            assert(!seen_set.contains(key@));
            let ghost before = out@.map_values(|c: ComparableImpl| c@);
            let ghost old_seen = seen_set;
            let ghost old_vec = seen@;
            let other = copy_comparable_type(&cands[k].1.other);
            out.push(ComparableImpl { field: cands[k].1.field, other });
            seen.push(key.clone());
            proof {
                assert(out@.map_values(|c: ComparableImpl| c@) =~= before.push(cm[k as int].1));
                assert(first_of_each(rest, old_seen) == seq![rest[0].1] + first_of_each(
                    rest.drop_first(),
                    old_seen.insert(rest[0].0),
                ));
                seen_set = seen_set.insert(key@);
                assert forall|x: Seq<char>|
                    seen_set.contains(x) implies exists|j: int|
                        0 <= j < seen@.len() && #[trigger] seen@[j]@ == x by {
                    if x == key@ {
                        assert(seen@[seen@.len() - 1]@ == x);
                    } else {
                        assert(old_seen.contains(x));
                        let j = choose|j: int| 0 <= j < old_vec.len() && #[trigger] old_vec[j]@ == x;
                        assert(seen@[j] == old_vec[j]);
                    }
                }
                assert forall|x: Seq<char>|
                    (exists|j: int| 0 <= j < seen@.len() && #[trigger] seen@[j]@ == x) implies seen_set.contains(x) by {
                    let j = choose|j: int| 0 <= j < seen@.len() && #[trigger] seen@[j]@ == x;
                    if j < seen@.len() - 1 {
                        assert(old_vec[j] == seen@[j]);
                        assert(old_seen.contains(x));
                    }
                }
                assert(out@.map_values(|c: ComparableImpl| c@) + first_of_each(cm.skip(k + 1), seen_set)
                    =~= before + first_of_each(rest, old_seen));
            }
        } else {
            assert(seen_set.contains(key@));
            assert(first_of_each(rest, seen_set) == first_of_each(rest.drop_first(), seen_set));
        }
        k = k + 1;
    }
    assert(cm.skip(cands@.len() as int) =~= Seq::<Candidate>::empty());
    assert(out@.map_values(|c: ComparableImpl| c@) =~= first_of_each(cm, Set::empty()));
    out
}

/// Whether `name` is the name of an ordered type (see [`is_ordered_type`]).
fn is_ordered_type_name(name: &str) -> (r: bool)
    ensures
        r == is_ordered_type(name@),
{
    str_equal(name, "i8") || str_equal(name, "i16") || str_equal(name, "i32") || str_equal(name, "i64")
        || str_equal(name, "i128") || str_equal(name, "isize") || str_equal(name, "u8") || str_equal(name, "u16")
        || str_equal(name, "u32") || str_equal(name, "u64") || str_equal(name, "u128") || str_equal(name, "usize")
        || str_equal(name, "f32") || str_equal(name, "f64") || str_equal(name, "DateTime")
}

/// Appends the candidate orderings of the field at position `i` of type `ty`.
fn push_ordered_candidates(out: &mut Vec<(String, ComparableImpl)>, i: usize, ty: &TypeRepr)
    ensures
        candidates_model(final(out)@) == candidates_model(old(out)@) + ordered_candidates(i as int, *ty),
{
    let ghost start = candidates_model(out@);
    match ty {
        TypeRepr::Other(_) => {
            assert(candidates_model(out@) =~= start + ordered_candidates(i as int, *ty));
        },
        TypeRepr::Path { segments: segs, .. } => {
            if segs.len() > 0 {
                let name = segs[segs.len() - 1].ident.as_str();
                assert(last_name(*ty) == Some(name@));
                if is_ordered_type_name(name) {
                    let t = type_to_string(ty);
                    let own_key = underscore_join(t.as_str(), t.as_str());
                    out.push((own_key, ComparableImpl { field: i, other: ComparableType::FieldType }));
                    let ghost own = seq![(t@ + "_"@ + t@, (i as int, ComparableModel::FieldType))];
                    assert(candidates_model(out@) =~= start + own);
                    push_rule_candidates(out, i, name);
                    assert(candidates_model(out@) =~= start + (own + rule_candidates(i as int, name@)));
                } else {
                    assert(candidates_model(out@) =~= start + ordered_candidates(i as int, *ty));
                }
            } else {
                assert(candidates_model(out@) =~= start + ordered_candidates(i as int, *ty));
            }
        },
    }
}

/// What the derive implements for a struct: the comparisons
/// (`MongoComparable`) and the orderings (`MongoOrdered`).
#[derive(Debug, PartialEq)]
pub struct DerivedImpls {
    pub comparable: Vec<ComparableImpl>,
    pub ordered: Vec<ComparableImpl>,
}

/// What the `MongoComparable` derive implements for a struct with named
/// fields. The comparisons: for each field, in order, the field's type with
/// itself, with each type of the compatibility rules for its name, and, for
/// `Option<T>`, with `T` and with `Option` of each type compatible with `T`,
/// or, for a collection of `T`, with `T`. The orderings: for each field whose
/// type is an ordered type (integers, floats, `DateTime`), the field's type
/// with itself and with each type of the compatibility rules. In both lists an
/// entry whose text was listed before is not listed again.
pub fn derive_mongo_comparable(input: &DeriveInput) -> (r: DerivedImpls)
    requires
        is_named_struct(*input),
    ensures
        r.comparable@.map_values(|c: ComparableImpl| c@) == derived_comparisons(named_field_types(*input)),
        r.ordered@.map_values(|c: ComparableImpl| c@) == derived_orderings(named_field_types(*input)),
{
    let fields = match &input.data {
        DeriveData::Struct(StructFields::Named(fields)) => fields,
        _ => { return DerivedImpls { comparable: Vec::new(), ordered: Vec::new() }; },
    };
    let ghost types = named_field_types(*input);
    assert(types == fields@.map_values(|f: Field| f.ty));
    let mut cands: Vec<(String, ComparableImpl)> = Vec::new();
    let mut ordered: Vec<(String, ComparableImpl)> = Vec::new();
    let mut i: usize = 0;
    while i < fields.len()
        invariant
            0 <= i <= fields@.len(),
            types == fields@.map_values(|f: Field| f.ty),
            candidates_model(cands@) == all_candidates(types.take(i as int)),
            candidates_model(ordered@) == all_ordered_candidates(types.take(i as int)),
        decreases fields.len() - i,
    {
        push_field_candidates(&mut cands, i, &fields[i].ty);
        push_ordered_candidates(&mut ordered, i, &fields[i].ty);
        proof {
            assert(types.take(i + 1).drop_last() =~= types.take(i as int));
            assert(types.take(i + 1).last() == fields@[i as int].ty);
        }
        i = i + 1;
    }
    assert(types.take(fields@.len() as int) =~= types);
    DerivedImpls { comparable: keep_first_of_each(&cands), ordered: keep_first_of_each(&ordered) }
}

/// The strings as `String`s.
fn strings_of(parts: &[&str]) -> (r: Vec<String>)
    ensures
        r@.len() == parts@.len(),
        forall|i: int| 0 <= i < parts@.len() ==> #[trigger] r@[i]@ == parts@[i]@,
{
    let mut out: Vec<String> = Vec::new();
    let mut i: usize = 0;
    while i < parts.len()
        invariant
            0 <= i <= parts@.len(),
            out@.len() == i,
            forall|j: int| 0 <= j < i ==> #[trigger] out@[j]@ == parts@[j]@,
        decreases parts.len() - i,
    {
        out.push(parts[i].to_owned());
        i = i + 1;
    }
    out
}

/// The types that a field of the type named `name` may also be compared
/// with, following MongoDB's numeric widening and its text and date rules.
pub fn get_compatible_types_for(name: &str) -> (r: Vec<String>)
    ensures
        r@.map_values(|s: String| s@) == compatible_types(name@),
{
    let r = if str_equal(name, "i32") {
        strings_of(&["i16"])
    } else if str_equal(name, "i64") {
        strings_of(&["i16", "i32"])
    } else if str_equal(name, "f64") {
        strings_of(&["i16", "i32", "i64", "f32"])
    } else if str_equal(name, "char") {
        strings_of(&["String"])
    } else if str_equal(name, "DateTime") {
        strings_of(&["i64"])
    } else {
        Vec::new()
    };
    assert(r@.map_values(|s: String| s@) =~= compatible_types(name@));
    r
}

/// Whether `name` names one of the collection types whose fields compare
/// with their elements: `Vec`, `HashSet`, `BTreeSet`, `LinkedList`,
/// `VecDeque`, `BinaryHeap`, `HashMap`, `BTreeMap`.
pub fn is_into_iterator_type(name: &str) -> (r: bool)
    ensures
        r == is_collection_type(name@),
{
    str_equal(name, "Vec") || str_equal(name, "HashSet") || str_equal(name, "BTreeSet")
        || str_equal(name, "LinkedList") || str_equal(name, "VecDeque") || str_equal(
        name,
        "BinaryHeap",
    ) || str_equal(name, "HashMap") || str_equal(name, "BTreeMap")
}

} // verus!
