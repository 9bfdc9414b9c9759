//! Typed paths through nested documents, and the dotted field paths that
//! MongoDB uses to name nested fields.
use vstd::prelude::*;
use crate::field_witnesses::{FieldName, HasField};

verus! {

/// The characters of each string, in order.
pub open spec fn strings_model(v: Seq<String>) -> Seq<Seq<char>> {
    v.map_values(|s: String| s@)
}

/// The segments joined with `.` between consecutive segments.
pub open spec fn join_segments(s: Seq<Seq<char>>) -> Seq<char>
    decreases s.len(),
{
    if s.len() == 0 {
        Seq::empty()
    } else if s.len() == 1 {
        s[0]
    } else {
        join_segments(s.drop_last()) + seq!['.'] + s.last()
    }
}

/// The dotted path of the field `name` below the segments `prefix`: the name
/// alone when there is no prefix, otherwise the prefix joined with `.`, a `.`,
/// and the name.
pub open spec fn dotted_path(prefix: Seq<Seq<char>>, name: Seq<char>) -> Seq<char> {
    if prefix.len() == 0 {
        name
    } else {
        join_segments(prefix) + seq!['.'] + name
    }
}

/// Joining keeps every segment, in order, with one `.` between neighbours:
/// no segment joins to the empty text, one segment to itself, and a segment
/// added at the end follows the join of the others after a `.`.
pub proof fn lemma_join_segments_push(s: Seq<Seq<char>>, x: Seq<char>)
    ensures
        join_segments(Seq::<Seq<char>>::empty()) == Seq::<char>::empty(),
        join_segments(seq![x]) == x,
        s.len() > 0 ==> join_segments(s.push(x)) == join_segments(s) + seq!['.'] + x,
{
    assert(s.push(x).drop_last() =~= s);
}

/// A dotted path is the join of the prefix extended by the name.
pub proof fn lemma_dotted_path_is_join(prefix: Seq<Seq<char>>, name: Seq<char>)
    ensures
        dotted_path(prefix, name) == join_segments(prefix.push(name)),
{
    assert(prefix.push(name).drop_last() =~= prefix);
}

/// Copies a list of strings.
pub fn clone_strings(v: &Vec<String>) -> (r: Vec<String>)
    ensures
        r@ == v@,
{
    let mut out: Vec<String> = Vec::new();
    let mut i: usize = 0;
    while i < v.len()
        invariant
            0 <= i <= v@.len(),
            out@ == v@.take(i as int),
        decreases v.len() - i,
    {
        let s = v[i].clone();
        out.push(s);
        proof {
            assert(v@.take(i + 1) =~= v@.take(i as int).push(v@[i as int]));
        }
        i = i + 1;
    }
    assert(v@.take(v@.len() as int) =~= v@);
    out
}

/// The segments of `prefix` joined with `.`.
pub fn join_with_dots(prefix: &Vec<String>) -> (r: String)
    ensures
        r@ == join_segments(strings_model(prefix@)),
{
    let ghost segs = strings_model(prefix@);
    let mut out = String::new();
    let mut i: usize = 0;
    proof {
        reveal_strlit(".");
    }
    while i < prefix.len()
        invariant
            0 <= i <= prefix@.len(),
            segs == strings_model(prefix@),
            "."@ == seq!['.'],
            out@ == join_segments(segs.take(i as int)),
        decreases prefix.len() - i,
    {
        proof {
            assert(segs.take(i + 1).drop_last() =~= segs.take(i as int));
            assert(segs.take(i + 1).last() == prefix@[i as int]@);
        }
        if i > 0 {
            out.append(".");
        } else {
            assert(segs.take(1) =~= seq![prefix@[0]@]);
            assert(out@ == Seq::<char>::empty());
        }
        out.append(prefix[i].as_str());
        i = i + 1;
    }
    assert(segs.take(prefix@.len() as int) =~= segs);
    out
}

/// The dotted path of the field `name` below `prefix`.
pub fn dotted_field_path(prefix: &Vec<String>, name: &str) -> (r: String)
    ensures
        r@ == dotted_path(strings_model(prefix@), name@),
{
    if prefix.len() == 0 {
        name.to_owned()
    } else {
        let mut out = join_with_dots(prefix);
        proof {
            reveal_strlit(".");
        }
        out.append(".");
        out.append(name);
        out
    }
}

/// `prefix` with `name` appended as a last segment.
pub fn push_segment(prefix: &Vec<String>, name: &str) -> (r: Vec<String>)
    ensures
        strings_model(r@) == strings_model(prefix@).push(name@),
{
    let mut out = clone_strings(prefix);
    out.push(name.to_owned());
    assert(strings_model(out@) =~= strings_model(prefix@).push(name@));
    out
}

/// A type-safe path through nested documents, rooted at `Root`.
///
/// `F` is the field that the path targets and `T` the struct that holds it.
/// `prefix` holds the names of the fields crossed to reach `T`.
pub struct Path<F: FieldName, T: HasField<F>, Root> {
    /// The field names crossed so far, outermost first.
    pub prefix: Vec<String>,
    pub _marker: core::marker::PhantomData<(F, T, Root)>,
}

impl<F: FieldName, T: HasField<F>, Root> View for Path<F, T, Root> {
    type V = Seq<Seq<char>>;

    open spec fn view(&self) -> Seq<Seq<char>> {
        strings_model(self.prefix@)
    }
}

impl<F: FieldName, T: HasField<F>, Root> Path<F, T, Root> {
    /// A path with no prefix segment.
    pub fn new() -> (p: Self)
        ensures
            p@ == Seq::<Seq<char>>::empty(),
    {
        let p = Path { prefix: Vec::new(), _marker: core::marker::PhantomData };
        assert(p@ =~= Seq::<Seq<char>>::empty());
        p
    }

    /// Navigates into the field `G` of the value of the current field: the
    /// current field's name becomes the last prefix segment.
    pub fn field<G: FieldName>(&self) -> (p: Path<G, T::Value, Root>)
        where
            T::Value: HasField<G>,
        ensures
            p@ == self@.push(F::spec_field_name()),
    {
        let name = F::field_name();
        let prefix = push_segment(&self.prefix, name);
        let p = Path { prefix, _marker: core::marker::PhantomData };
        assert(p@ == self@.push(name@));
        p
    }
}

impl<F: FieldName, T: HasField<F>, Root> Default for Path<F, T, Root> {
    fn default() -> (p: Self)
        ensures
            p@ == Seq::<Seq<char>>::empty(),
    {
        Self::new()
    }
}

impl<F: FieldName, T: HasField<F>, Root> Clone for Path<F, T, Root> {
    fn clone(&self) -> (p: Self)
        ensures
            p@ == self@,
            p.prefix@ == self.prefix@,
    {
        Path { prefix: clone_strings(&self.prefix), _marker: core::marker::PhantomData }
    }
}

} // verus!
