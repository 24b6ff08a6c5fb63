//! Edit scripts against a common ancestor, their projections, and the pair
//! of sub-scripts that the chunk engine hands to the resolver.

use vstd::prelude::*;

verus! {

/// One step of an edit script that turns an ancestor sequence into a new one.
#[derive(Debug, Clone, Copy, PartialEq, Eq)]
pub enum Edit<T> {
    /// An ancestor element that the new sequence dropped.
    Left(T),
    /// An element kept: its ancestor form and its new form.
    Both(T, T),
    /// An element that only the new sequence has.
    Right(T),
}

impl<T: View> View for Edit<T> {
    type V = Edit<T::V>;

    open spec fn view(&self) -> Edit<T::V> {
        match *self {
            Edit::Left(x) => Edit::Left(x@),
            Edit::Both(x, y) => Edit::Both(x@, y@),
            Edit::Right(x) => Edit::Right(x@),
        }
    }
}

impl<T> Edit<T> {
    /// Whether the step keeps an ancestor element.
    pub fn is_both(&self) -> (r: bool)
        ensures
            r == (*self is Both),
    {
        match self {
            Edit::Both(_, _) => true,
            _ => false,
        }
    }

    /// Whether the step drops an ancestor element.
    pub fn is_left(&self) -> (r: bool)
        ensures
            r == (*self is Left),
    {
        match self {
            Edit::Left(_) => true,
            _ => false,
        }
    }

    /// Whether the step inserts an element.
    pub fn is_right(&self) -> (r: bool)
        ensures
            r == (*self is Right),
    {
        match self {
            Edit::Right(_) => true,
            _ => false,
        }
    }
}

/// Element type of a merge: copied freely and compared by its view.
pub trait MergeItem: View + Copy {
    /// Whether the two items have the same view.
    fn same(&self, other: &Self) -> (r: bool)
        ensures
            r == (self@ == other@),
    ;
}

impl MergeItem for char {
    fn same(&self, other: &Self) -> (r: bool) {
        *self == *other
    }
}

impl MergeItem for i32 {
    fn same(&self, other: &Self) -> (r: bool) {
        *self == *other
    }
}

/// Element-wise views of a sequence of items.
pub open spec fn views<T: View>(items: Seq<T>) -> Seq<T::V> {
    items.map_values(|x: T| x@)
}

/// Element-wise view of an edit script.
pub open spec fn script_view<T: View>(script: Seq<Edit<T>>) -> Seq<Edit<T::V>> {
    script.map_values(|e: Edit<T>| e@)
}

/// The ancestor sequence of a script: its `Left` and `Both` items, in order.
pub open spec fn left_projection<A>(script: Seq<Edit<A>>) -> Seq<A>
    decreases script.len(),
{
    if script.len() == 0 {
        Seq::empty()
    } else {
        let rest = left_projection(script.drop_last());
        match script.last() {
            Edit::Left(x) => rest.push(x),
            Edit::Both(x, _) => rest.push(x),
            Edit::Right(_) => rest,
        }
    }
}

/// The new sequence of a script: its `Both` and `Right` items, in order.
pub open spec fn right_projection<A>(script: Seq<Edit<A>>) -> Seq<A>
    decreases script.len(),
{
    if script.len() == 0 {
        Seq::empty()
    } else {
        let rest = right_projection(script.drop_last());
        match script.last() {
            Edit::Left(_) => rest,
            Edit::Both(_, y) => rest.push(y),
            Edit::Right(y) => rest.push(y),
        }
    }
}

/// Whether a script keeps every ancestor element and adds none.
pub open spec fn unchanged<A>(script: Seq<Edit<A>>) -> bool {
    forall|i: int| 0 <= i < script.len() ==> #[trigger] script[i] is Both
}

/// Whether every kept element of a script has equal ancestor and new forms,
/// as a diff produces them.
pub open spec fn faithful<A>(script: Seq<Edit<A>>) -> bool {
    forall|i: int|
        0 <= i < script.len() ==> (#[trigger] script[i] matches Edit::Both(x, y) ==> x == y)
}

/// A pair of sub-scripts, one of each side, that cover the same stretch of
/// the ancestor.
#[derive(Debug, PartialEq)]
pub struct Chunk<'a, Item>(pub &'a [Edit<Item>], pub &'a [Edit<Item>]);

/// Mathematical content of a [`Chunk`].
pub struct ChunkView<A> {
    pub left: Seq<Edit<A>>,
    pub right: Seq<Edit<A>>,
}

impl<'a, Item: View> View for Chunk<'a, Item> {
    type V = ChunkView<Item::V>;

    open spec fn view(&self) -> ChunkView<Item::V> {
        ChunkView { left: script_view(self.0@), right: script_view(self.1@) }
    }
}

/// Projections distribute over concatenation.
pub proof fn lemma_projection_concat<A>(a: Seq<Edit<A>>, b: Seq<Edit<A>>)
    ensures
        left_projection(a + b) == left_projection(a) + left_projection(b),
        right_projection(a + b) == right_projection(a) + right_projection(b),
    decreases b.len(),
{
    if b.len() == 0 {
        assert(a + b =~= a);
        assert(left_projection(a) + left_projection(b) =~= left_projection(a));
        assert(right_projection(a) + right_projection(b) =~= right_projection(a));
    } else {
        lemma_projection_concat(a, b.drop_last());
        assert((a + b).drop_last() =~= a + b.drop_last());
        assert((a + b).last() == b.last());
        let l = left_projection(a) + left_projection(b.drop_last());
        let r = right_projection(a) + right_projection(b.drop_last());
        match b.last() {
            Edit::Left(x) => {
                assert(l.push(x) =~= left_projection(a) + left_projection(b.drop_last()).push(x));
            },
            Edit::Both(x, y) => {
                assert(l.push(x) =~= left_projection(a) + left_projection(b.drop_last()).push(x));
                assert(r.push(y) =~= right_projection(a) + right_projection(
                    b.drop_last(),
                ).push(y));
            },
            Edit::Right(y) => {
                assert(r.push(y) =~= right_projection(a) + right_projection(
                    b.drop_last(),
                ).push(y));
            },
        }
    }
}

/// An unchanged, faithful script has equal projections, one item per step.
pub proof fn lemma_unchanged_projections<A>(script: Seq<Edit<A>>)
    requires
        unchanged(script),
    ensures
        left_projection(script).len() == script.len(),
        right_projection(script).len() == script.len(),
        faithful(script) ==> left_projection(script) == right_projection(script),
    decreases script.len(),
{
    if script.len() > 0 {
        let init = script.drop_last();
        assert forall|i: int| 0 <= i < init.len() implies #[trigger] init[i] is Both by {
            assert(init[i] == script[i]);
        }
        lemma_unchanged_projections(init);
        assert(script[script.len() - 1] is Both);
        if faithful(script) {
            assert forall|i: int| 0 <= i < init.len() implies (#[trigger] init[i] matches Edit::Both(
                x,
                y,
            ) ==> x == y) by {
                assert(init[i] == script[i]);
            }
        }
    }
}

} // verus!
