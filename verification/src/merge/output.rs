//! Resolution of one chunk: either a single agreed sequence or a conflict
//! that keeps both sides and their ancestor.

use vstd::prelude::*;
use super::chunk::{
    left_projection,
    right_projection,
    script_view,
    unchanged,
    views,
    Chunk,
    ChunkView,
    Edit,
    MergeItem,
};

verus! {

/// What a chunk resolves to.
#[derive(Debug, PartialEq)]
pub enum Output<Item> {
    /// The sides agree, or only one of them changed the ancestor.
    Resolved(Vec<Item>),
    /// Both sides changed the ancestor, differently: ours, the ancestor,
    /// theirs.
    Conflict(Vec<Item>, Vec<Item>, Vec<Item>),
}

/// Mathematical content of an [`Output`].
pub enum Hunk<A> {
    Resolved(Seq<A>),
    Conflict(Seq<A>, Seq<A>, Seq<A>),
}

impl<Item: View> View for Output<Item> {
    type V = Hunk<Item::V>;

    open spec fn view(&self) -> Hunk<Item::V> {
        match self {
            Output::Resolved(x) => Hunk::Resolved(views(x@)),
            Output::Conflict(a, o, b) => Hunk::Conflict(views(a@), views(o@), views(b@)),
        }
    }
}

/// The resolution of a chunk. Equal sides, and a side that differs from an
/// unchanged other side, resolve to the new sequence of the side that
/// changed; anything else is a conflict of the left side's new sequence,
/// the ancestor and the right side's new sequence.
pub open spec fn resolve_spec<A>(chunk: ChunkView<A>) -> Hunk<A> {
    if chunk.left == chunk.right {
        Hunk::Resolved(right_projection(chunk.left))
    } else if unchanged(chunk.left) {
        Hunk::Resolved(right_projection(chunk.right))
    } else if unchanged(chunk.right) {
        Hunk::Resolved(right_projection(chunk.left))
    } else {
        Hunk::Conflict(
            right_projection(chunk.left),
            left_projection(chunk.left),
            right_projection(chunk.right),
        )
    }
}

/// Owned copies of borrowed strings.
fn to_owned_strings<'a>(items: &Vec<&'a str>) -> (out: Vec<String>)
    ensures
        views(out@) == views(items@),
{
    let mut out: Vec<String> = Vec::new();
    let mut i: usize = 0;
    while i < items.len()
        invariant
            i <= items.len(),
            out.len() == i,
            forall|k: int| 0 <= k < i ==> out@[k]@ == items@[k]@,
        decreases items.len() - i,
    {
        out.push(items[i].to_owned());
        i += 1;
    }
    assert(views(out@) =~= views(items@));
    out
}

impl<'a> Output<&'a str> {
    /// The same resolution with owned strings.
    pub fn into_strings(self) -> (out: Output<String>)
        ensures
            out@ == self@,
    {
        self.to_strings()
    }

    /// A copy of the resolution with owned strings.
    pub fn to_strings(&self) -> (out: Output<String>)
        ensures
            out@ == self@,
    {
        match self {
            Output::Resolved(x) => Output::Resolved(to_owned_strings(x)),
            Output::Conflict(a, o, b) => Output::Conflict(
                to_owned_strings(a),
                to_owned_strings(o),
                to_owned_strings(b),
            ),
        }
    }
}

/// The ancestor sequence of a script.
pub fn choose_left<Item: View + Copy>(operations: &[Edit<Item>]) -> (out: Vec<Item>)
    ensures
        views(out@) == left_projection(script_view(operations@)),
{
    let ghost script = script_view(operations@);
    let mut out: Vec<Item> = Vec::new();
    let mut i: usize = 0;
    assert(script.take(0) =~= Seq::empty());
    assert(views(out@) =~= Seq::empty());
    while i < operations.len()
        invariant
            i <= operations.len(),
            script == script_view(operations@),
            views(out@) == left_projection(script.take(i as int)),
        decreases operations.len() - i,
    {
        let ghost before = views(out@);
        proof {
            assert(script.take(i + 1).drop_last() =~= script.take(i as int));
            assert(script.take(i + 1).last() == operations@[i as int]@);
        }
        match operations[i] {
            Edit::Left(x) => {
                out.push(x);
                assert(views(out@) =~= before.push(x@));
            },
            Edit::Both(x, _) => {
                out.push(x);
                assert(views(out@) =~= before.push(x@));
            },
            Edit::Right(_) => {},
        }
        i += 1;
    }
    assert(script.take(i as int) =~= script);
    out
}

/// The new sequence of a script.
pub fn choose_right<Item: View + Copy>(operations: &[Edit<Item>]) -> (out: Vec<Item>)
    ensures
        views(out@) == right_projection(script_view(operations@)),
{
    let ghost script = script_view(operations@);
    let mut out: Vec<Item> = Vec::new();
    let mut i: usize = 0;
    assert(script.take(0) =~= Seq::empty());
    assert(views(out@) =~= Seq::empty());
    while i < operations.len()
        invariant
            i <= operations.len(),
            script == script_view(operations@),
            views(out@) == right_projection(script.take(i as int)),
        decreases operations.len() - i,
    {
        let ghost before = views(out@);
        proof {
            assert(script.take(i + 1).drop_last() =~= script.take(i as int));
            assert(script.take(i + 1).last() == operations@[i as int]@);
        }
        match operations[i] {
            Edit::Left(_) => {},
            Edit::Both(_, y) => {
                out.push(y);
                assert(views(out@) =~= before.push(y@));
            },
            Edit::Right(y) => {
                out.push(y);
                assert(views(out@) =~= before.push(y@));
            },
        }
        i += 1;
    }
    assert(script.take(i as int) =~= script);
    out
}

/// Whether a script keeps every ancestor element and adds none.
pub fn no_change<Item: View>(operations: &[Edit<Item>]) -> (r: bool)
    ensures
        r == unchanged(script_view(operations@)),
{
    let ghost script = script_view(operations@);
    let mut i: usize = 0;
    while i < operations.len()
        invariant
            i <= operations.len(),
            script == script_view(operations@),
            forall|k: int| 0 <= k < i ==> #[trigger] script[k] is Both,
        decreases operations.len() - i,
    {
        if !operations[i].is_both() {
            assert(!(script[i as int] is Both));
            return false;
        }
        i += 1;
    }
    true
}

/// Whether two steps are of the same kind and carry items of equal view.
fn same_edit<Item: MergeItem>(a: &Edit<Item>, b: &Edit<Item>) -> (r: bool)
    ensures
        r == (a@ == b@),
{
    match (a, b) {
        (Edit::Left(x), Edit::Left(y)) => x.same(y),
        (Edit::Both(x1, x2), Edit::Both(y1, y2)) => x1.same(y1) && x2.same(y2),
        (Edit::Right(x), Edit::Right(y)) => x.same(y),
        _ => false,
    }
}

/// Whether two scripts are equal step for step.
pub fn same_script<Item: MergeItem>(a: &[Edit<Item>], b: &[Edit<Item>]) -> (r: bool)
    ensures
        r == (script_view(a@) == script_view(b@)),
{
    if a.len() != b.len() {
        assert(script_view(a@).len() != script_view(b@).len());
        return false;
    }
    let mut i: usize = 0;
    while i < a.len()
        invariant
            i <= a.len(),
            a.len() == b.len(),
            forall|k: int| 0 <= k < i ==> #[trigger] a@[k]@ == b@[k]@,
        decreases a.len() - i,
    {
        if !same_edit(&a[i], &b[i]) {
            assert(script_view(a@)[i as int] != script_view(b@)[i as int]);
            return false;
        }
        i += 1;
    }
    assert(script_view(a@) =~= script_view(b@));
    true
}

/// Resolves one chunk.
pub fn resolve<'a, Item: MergeItem>(chunk: Chunk<'a, Item>) -> (out: Output<Item>)
    ensures
        out@ == resolve_spec(chunk@),
{
    if same_script(chunk.0, chunk.1) {
        return Output::Resolved(choose_right(chunk.0));
    }
    if no_change(chunk.0) {
        return Output::Resolved(choose_right(chunk.1));
    }
    if no_change(chunk.1) {
        return Output::Resolved(choose_right(chunk.0));
    }
    Output::Conflict(choose_right(chunk.0), choose_left(chunk.0), choose_right(chunk.1))
}

} // verus!
