//! The chunk engine: cuts two edit scripts against one ancestor into an
//! alternation of stable runs, where both sides keep the ancestor, and
//! unstable spans, where at least one side departs from it.

use vstd::prelude::*;
use super::chunk::{script_view, Chunk, ChunkView, Edit};

verus! {

/// Whether position `i` of a script exists and keeps an ancestor element.
pub open spec fn both_at<A>(script: Seq<Edit<A>>, i: int) -> bool {
    0 <= i < script.len() && script[i] is Both
}

/// Whether position `i` of a script exists and inserts an element.
pub open spec fn right_at<A>(script: Seq<Edit<A>>, i: int) -> bool {
    0 <= i < script.len() && script[i] is Right
}

/// End of the run, starting at `i`, in which both scripts keep the ancestor.
pub open spec fn stable_run<A>(left: Seq<Edit<A>>, right: Seq<Edit<A>>, i: int) -> int
    decreases left.len() - i,
{
    if 0 <= i && both_at(left, i) && both_at(right, i) {
        stable_run(left, right, i + 1)
    } else {
        i
    }
}

/// The pair of cursors at which the unstable span that starts at `(li, ri)`
/// ends. An insertion moves only its own side's cursor; a deletion on either
/// side, met with anything but an insertion, moves both. The span ends where
/// both sides keep the ancestor again, or else at the end of both scripts.
pub open spec fn unstable_end<A>(
    left: Seq<Edit<A>>,
    right: Seq<Edit<A>>,
    li: int,
    ri: int,
) -> (int, int)
    decreases (left.len() - li) + (right.len() - ri),
{
    if li < 0 || ri < 0 || li > left.len() || ri > right.len() {
        (left.len() as int, right.len() as int)
    } else if right_at(left, li) {
        unstable_end(left, right, li + 1, ri)
    } else if right_at(right, ri) {
        unstable_end(left, right, li, ri + 1)
    } else if li < left.len() && ri < right.len() && (left[li] is Left || right[ri] is Left) {
        unstable_end(left, right, li + 1, ri + 1)
    } else if both_at(left, li) && both_at(right, ri) {
        (li, ri)
    } else {
        (left.len() as int, right.len() as int)
    }
}

/// Lengths of the two sides of the first chunk of a pair of scripts: the
/// leading stable run if there is one, else the leading unstable span.
pub open spec fn first_chunk_end<A>(left: Seq<Edit<A>>, right: Seq<Edit<A>>) -> (int, int) {
    let n = stable_run(left, right, 0);
    if n > 0 {
        (n, n)
    } else {
        unstable_end(left, right, 0, 0)
    }
}

/// Whether a first chunk of the given lengths lies within the scripts and
/// is not empty. It always does when the scripts are not both empty
/// ([`lemma_first_chunk_advances`]).
pub open spec fn advances<A>(left: Seq<Edit<A>>, right: Seq<Edit<A>>, end: (int, int)) -> bool {
    0 <= end.0 <= left.len() && 0 <= end.1 <= right.len() && end.0 + end.1 > 0
}

/// The chunks of a pair of scripts, in order.
pub open spec fn chunks<A>(left: Seq<Edit<A>>, right: Seq<Edit<A>>) -> Seq<ChunkView<A>>
    decreases left.len() + right.len(),
{
    let end = first_chunk_end(left, right);
    if left.len() + right.len() == 0 || !advances(left, right, end) {
        Seq::empty()
    } else {
        seq![ChunkView { left: left.subrange(0, end.0), right: right.subrange(0, end.1) }]
            + chunks(
            left.subrange(end.0, left.len() as int),
            right.subrange(end.1, right.len() as int),
        )
    }
}

/// Whether a chunk is stable: a non-empty run in which both sides keep the
/// ancestor, step for step.
pub open spec fn is_stable<A>(chunk: ChunkView<A>) -> bool {
    &&& chunk.left.len() > 0
    &&& chunk.left.len() == chunk.right.len()
    &&& forall|i: int| 0 <= i < chunk.left.len() ==> #[trigger] chunk.left[i] is Both
    &&& forall|i: int| 0 <= i < chunk.right.len() ==> #[trigger] chunk.right[i] is Both
}

/// The left sides of a sequence of chunks, joined.
pub open spec fn concat_left<A>(cs: Seq<ChunkView<A>>) -> Seq<Edit<A>>
    decreases cs.len(),
{
    if cs.len() == 0 {
        Seq::empty()
    } else {
        cs.first().left + concat_left(cs.drop_first())
    }
}

/// The right sides of a sequence of chunks, joined.
pub open spec fn concat_right<A>(cs: Seq<ChunkView<A>>) -> Seq<Edit<A>>
    decreases cs.len(),
{
    if cs.len() == 0 {
        Seq::empty()
    } else {
        cs.first().right + concat_right(cs.drop_first())
    }
}

/// Views of a sequence of chunks.
pub open spec fn chunk_views<'a, Item: View>(cs: Seq<Chunk<'a, Item>>) -> Seq<
    ChunkView<Item::V>,
> {
    cs.map_values(|c: Chunk<'a, Item>| c@)
}

/// Cuts chunks off the front of two edit scripts, one per call of
/// [`ChunkIterator::next`].
pub struct ChunkIterator<'a, Item> {
    left: &'a [Edit<Item>],
    right: &'a [Edit<Item>],
}

impl<'a, Item: View> View for ChunkIterator<'a, Item> {
    type V = ChunkView<Item::V>;

    /// The parts of the two scripts that are still to be cut.
    closed spec fn view(&self) -> ChunkView<Item::V> {
        ChunkView { left: script_view(self.left@), right: script_view(self.right@) }
    }
}

impl<'a, Item: View> ChunkIterator<'a, Item> {
    /// An iterator over the chunks of two scripts against one ancestor.
    pub fn new(left: &'a [Edit<Item>], right: &'a [Edit<Item>]) -> (it: ChunkIterator<'a, Item>)
        ensures
            it@.left == script_view(left@),
            it@.right == script_view(right@),
    {
        ChunkIterator { left, right }
    }

    /// Cuts the next chunk off the front of what is left of the scripts, or
    /// returns `None` when both are used up.
    pub fn next(&mut self) -> (r: Option<Chunk<'a, Item>>)
        ensures
            match r {
                None => old(self)@.left.len() + old(self)@.right.len() == 0 && final(self)@ == old(
                    self,
                )@,
                Some(c) => {
                    let end = first_chunk_end(old(self)@.left, old(self)@.right);
                    &&& old(self)@.left.len() + old(self)@.right.len() > 0
                    &&& advances(old(self)@.left, old(self)@.right, end)
                    &&& c@.left == old(self)@.left.subrange(0, end.0)
                    &&& c@.right == old(self)@.right.subrange(0, end.1)
                    &&& final(self)@.left == old(self)@.left.subrange(
                        end.0,
                        old(self)@.left.len() as int,
                    )
                    &&& final(self)@.right == old(self)@.right.subrange(
                        end.1,
                        old(self)@.right.len() as int,
                    )
                },
            },
    {
        let left = self.left;
        let right = self.right;
        let ghost lv = script_view(left@);
        let ghost rv = script_view(right@);
        proof {
            lemma_stable_run_bounds(lv, rv, 0);
            lemma_unstable_end_bounds(lv, rv, 0, 0);
        }

        let mut i: usize = 0;
        while i < left.len() && i < right.len() && left[i].is_both() && right[i].is_both()
            invariant
                i <= left.len(),
                i <= right.len(),
                lv == script_view(left@),
                rv == script_view(right@),
                stable_run(lv, rv, 0) == stable_run(lv, rv, i as int),
            decreases left.len() - i,
        {
            i += 1;
        }
        if i > 0 {
            let chunk = Chunk(&left[0..i], &right[0..i]);
            self.left = &left[i..left.len()];
            self.right = &right[i..right.len()];
            proof {
                assert(stable_run(lv, rv, i as int) == i);
                assert(chunk@.left =~= lv.subrange(0, i as int));
                assert(chunk@.right =~= rv.subrange(0, i as int));
                assert(self@.left =~= lv.subrange(i as int, lv.len() as int));
                assert(self@.right =~= rv.subrange(i as int, rv.len() as int));
            }
            return Some(chunk);
        }
        assert(stable_run(lv, rv, 0) == 0);

        let mut li: usize = 0;
        let mut ri: usize = 0;
        loop
            invariant
                li <= left.len(),
                ri <= right.len(),
                lv == script_view(left@),
                rv == script_view(right@),
                *self == *old(self),
                self.left == left,
                self.right == right,
                !(both_at(lv, 0) && both_at(rv, 0)),
                unstable_end(lv, rv, 0, 0) == unstable_end(lv, rv, li as int, ri as int),
            decreases (left.len() - li) + (right.len() - ri),
        {
            if li < left.len() && left[li].is_right() {
                li += 1;
            } else if ri < right.len() && right[ri].is_right() {
                ri += 1;
            } else if li < left.len() && ri < right.len() && (left[li].is_left()
                || right[ri].is_left()) {
                li += 1;
                ri += 1;
            } else if li < left.len() && ri < right.len() {
                let chunk = Chunk(&left[0..li], &right[0..ri]);
                self.left = &left[li..left.len()];
                self.right = &right[ri..right.len()];
                proof {
                    assert(both_at(lv, li as int) && both_at(rv, ri as int));
                    assert(chunk@.left =~= lv.subrange(0, li as int));
                    assert(chunk@.right =~= rv.subrange(0, ri as int));
                    assert(self@.left =~= lv.subrange(li as int, lv.len() as int));
                    assert(self@.right =~= rv.subrange(ri as int, rv.len() as int));
                }
                return Some(chunk);
            } else {
                if left.len() > 0 || right.len() > 0 {
                    let chunk = Chunk(left, right);
                    self.left = &left[left.len()..left.len()];
                    self.right = &right[right.len()..right.len()];
                    proof {
                        assert(chunk@.left =~= lv.subrange(0, lv.len() as int));
                        assert(chunk@.right =~= rv.subrange(0, rv.len() as int));
                        assert(self@.left =~= lv.subrange(lv.len() as int, lv.len() as int));
                        assert(self@.right =~= rv.subrange(rv.len() as int, rv.len() as int));
                    }
                    return Some(chunk);
                }
                return None;
            }
        }
    }

    /// All chunks that are left, in order.
    pub fn collect(self) -> (out: Vec<Chunk<'a, Item>>)
        ensures
            chunk_views(out@) == chunks(self@.left, self@.right),
    {
        let mut it = self;
        let mut out: Vec<Chunk<'a, Item>> = Vec::new();
        assert(chunk_views(out@) + chunks(it@.left, it@.right) =~= chunks(
            self@.left,
            self@.right,
        ));
        loop
            invariant
                chunk_views(out@) + chunks(it@.left, it@.right) == chunks(self@.left, self@.right),
            decreases it@.left.len() + it@.right.len(),
        {
            let ghost before = it@;
            let ghost done = chunk_views(out@);
            match it.next() {
                None => {
                    assert(chunks(before.left, before.right) =~= Seq::empty());
                    assert(done + chunks(before.left, before.right) =~= done);
                    return out;
                },
                Some(c) => {
                    out.push(c);
                    proof {
                        assert(chunk_views(out@) =~= done.push(c@));
                        assert(done.push(c@) + chunks(it@.left, it@.right) =~= done + chunks(
                            before.left,
                            before.right,
                        ));
                    }
                },
            }
        }
    }
}

/// Whether a chunk is stable or unstable.
#[derive(Debug, Clone, Copy, PartialEq, Eq, Structural)]
pub enum ChunkKind {
    /// Both sides keep the ancestor throughout.
    Stable,
    /// At least one side departs from the ancestor.
    Unstable,
}

/// A chunk with its kind.
#[derive(Debug, PartialEq)]
pub struct ChunkItem<'a, Item> {
    pub kind: ChunkKind,
    pub chunk: Chunk<'a, Item>,
}

impl<'a, Item: View> ChunkItem<'a, Item> {
    /// A chunk marked as stable.
    pub fn stable(chunk: Chunk<'a, Item>) -> (item: ChunkItem<'a, Item>)
        ensures
            item.kind == ChunkKind::Stable,
            item.chunk == chunk,
    {
        ChunkItem { kind: ChunkKind::Stable, chunk }
    }

    /// A chunk marked as unstable.
    pub fn unstable(chunk: Chunk<'a, Item>) -> (item: ChunkItem<'a, Item>)
        ensures
            item.kind == ChunkKind::Unstable,
            item.chunk == chunk,
    {
        ChunkItem { kind: ChunkKind::Unstable, chunk }
    }
}

/// Whether every step of a script keeps the ancestor.
fn all_both<Item: View>(script: &[Edit<Item>]) -> (r: bool)
    ensures
        r == (forall|i: int| 0 <= i < script@.len() ==> #[trigger] script_view(script@)[i] is Both),
{
    let mut i: usize = 0;
    while i < script.len()
        invariant
            i <= script.len(),
            forall|k: int| 0 <= k < i ==> #[trigger] script_view(script@)[k] is Both,
        decreases script.len() - i,
    {
        if !script[i].is_both() {
            assert(!(script_view(script@)[i as int] is Both));
            return false;
        }
        i += 1;
    }
    true
}

impl<'a, Item: View> Chunk<'a, Item> {
    /// The kind of the chunk.
    pub fn kind(&self) -> (kind: ChunkKind)
        ensures
            kind == ChunkKind::Stable <==> is_stable(self@),
    {
        if self.0.len() > 0 && self.0.len() == self.1.len() && all_both(self.0) && all_both(
            self.1,
        ) {
            ChunkKind::Stable
        } else {
            ChunkKind::Unstable
        }
    }
}

/// Cuts chunks off the front of two edit scripts and tells for each
/// whether it is stable.
pub struct MergeIterator<'a, Item> {
    chunks: ChunkIterator<'a, Item>,
}

impl<'a, Item: View> View for MergeIterator<'a, Item> {
    type V = ChunkView<Item::V>;

    /// The parts of the two scripts that are still to be cut.
    closed spec fn view(&self) -> ChunkView<Item::V> {
        self.chunks@
    }
}

impl<'a, Item: View> MergeIterator<'a, Item> {
    /// An iterator over the chunks of two scripts against one ancestor.
    pub fn new(left: &'a [Edit<Item>], right: &'a [Edit<Item>]) -> (it: MergeIterator<'a, Item>)
        ensures
            it@.left == script_view(left@),
            it@.right == script_view(right@),
    {
        MergeIterator { chunks: ChunkIterator::new(left, right) }
    }

    /// The next chunk with its kind, or `None` when both scripts are used
    /// up. The chunk is stable exactly if it is a leading run in which both
    /// scripts keep the ancestor.
    pub fn next(&mut self) -> (r: Option<ChunkItem<'a, Item>>)
        ensures
            match r {
                None => old(self)@.left.len() + old(self)@.right.len() == 0 && final(self)@ == old(
                    self,
                )@,
                Some(item) => {
                    let end = first_chunk_end(old(self)@.left, old(self)@.right);
                    &&& old(self)@.left.len() + old(self)@.right.len() > 0
                    &&& advances(old(self)@.left, old(self)@.right, end)
                    &&& item.chunk@.left == old(self)@.left.subrange(0, end.0)
                    &&& item.chunk@.right == old(self)@.right.subrange(0, end.1)
                    &&& item.kind == ChunkKind::Stable <==> stable_run(
                        old(self)@.left,
                        old(self)@.right,
                        0,
                    ) > 0
                    &&& final(self)@.left == old(self)@.left.subrange(
                        end.0,
                        old(self)@.left.len() as int,
                    )
                    &&& final(self)@.right == old(self)@.right.subrange(
                        end.1,
                        old(self)@.right.len() as int,
                    )
                },
            },
    {
        proof {
            lemma_first_chunk_kind(self@.left, self@.right);
        }
        match self.chunks.next() {
            None => None,
            Some(chunk) => {
                let kind = chunk.kind();
                Some(ChunkItem { kind, chunk })
            },
        }
    }

    /// All chunks that are left, each with its kind, in order.
    pub fn collect(self) -> (out: Vec<ChunkItem<'a, Item>>)
        ensures
            out@.len() == chunks(self@.left, self@.right).len(),
            forall|k: int|
                0 <= k < out@.len() ==> (#[trigger] out@[k]).chunk@ == chunks(
                    self@.left,
                    self@.right,
                )[k] && (out@[k].kind == ChunkKind::Stable <==> is_stable(out@[k].chunk@)),
    {
        let found = self.chunks.collect();
        let mut out: Vec<ChunkItem<'a, Item>> = Vec::new();
        let mut i: usize = 0;
        while i < found.len()
            invariant
                i <= found.len(),
                out@.len() == i,
                chunk_views(found@) == chunks(self@.left, self@.right),
                forall|k: int|
                    0 <= k < i ==> (#[trigger] out@[k]).chunk@ == found@[k]@ && (out@[k].kind
                        == ChunkKind::Stable <==> is_stable(out@[k].chunk@)),
            decreases found.len() - i,
        {
            let chunk = Chunk(found[i].0, found[i].1);
            let kind = chunk.kind();
            out.push(ChunkItem { kind, chunk });
            i += 1;
        }
        assert forall|k: int| 0 <= k < out@.len() implies (#[trigger] out@[k]).chunk@ == chunks(
            self@.left,
            self@.right,
        )[k] by {
            assert(chunk_views(found@)[k] == found@[k]@);
        }
        out
    }
}

/// The first chunk of two scripts is stable exactly if the scripts start
/// with a run in which both keep the ancestor.
pub proof fn lemma_first_chunk_kind<A>(left: Seq<Edit<A>>, right: Seq<Edit<A>>)
    ensures
        ({
            let end = first_chunk_end(left, right);
            is_stable(ChunkView { left: left.subrange(0, end.0), right: right.subrange(0, end.1) })
                <==> stable_run(left, right, 0) > 0
        }),
{
    let end = first_chunk_end(left, right);
    let chunk = ChunkView { left: left.subrange(0, end.0), right: right.subrange(0, end.1) };
    lemma_stable_run_bounds(left, right, 0);
    lemma_unstable_end_bounds(left, right, 0, 0);
    if stable_run(left, right, 0) > 0 {
        assert forall|i: int| 0 <= i < chunk.left.len() implies #[trigger] chunk.left[i] is Both by {
            assert(both_at(left, i));
        }
        assert forall|i: int| 0 <= i < chunk.right.len() implies #[trigger] chunk.right[i] is Both by {
            assert(both_at(right, i));
        }
    } else {
        if is_stable(chunk) {
            assert(chunk.left[0] is Both);
            assert(chunk.right[0] is Both);
            assert(both_at(left, 0) && both_at(right, 0));
        }
    }
}

/// A stable run lies within both scripts, both keep the ancestor all
/// along it, and not both do so just behind it.
pub proof fn lemma_stable_run_bounds<A>(left: Seq<Edit<A>>, right: Seq<Edit<A>>, i: int)
    requires
        0 <= i <= left.len(),
        i <= right.len(),
    ensures
        i <= stable_run(left, right, i) <= left.len(),
        stable_run(left, right, i) <= right.len(),
        forall|k: int|
            i <= k < stable_run(left, right, i) ==> both_at(left, k) && both_at(right, k),
        !(both_at(left, stable_run(left, right, i)) && both_at(
            right,
            stable_run(left, right, i),
        )),
    decreases left.len() - i,
{
    if both_at(left, i) && both_at(right, i) {
        lemma_stable_run_bounds(left, right, i + 1);
    }
}

/// An unstable span lies within both scripts, and ends where both keep
/// the ancestor or at the end of both.
pub proof fn lemma_unstable_end_bounds<A>(left: Seq<Edit<A>>, right: Seq<Edit<A>>, li: int, ri: int)
    requires
        0 <= li <= left.len(),
        0 <= ri <= right.len(),
    ensures
        li <= unstable_end(left, right, li, ri).0 <= left.len(),
        ri <= unstable_end(left, right, li, ri).1 <= right.len(),
        (both_at(left, unstable_end(left, right, li, ri).0) && both_at(
            right,
            unstable_end(left, right, li, ri).1,
        )) || (unstable_end(left, right, li, ri).0 == left.len() && unstable_end(
            left,
            right,
            li,
            ri,
        ).1 == right.len()),
    decreases (left.len() - li) + (right.len() - ri),
{
    if right_at(left, li) {
        lemma_unstable_end_bounds(left, right, li + 1, ri);
    } else if right_at(right, ri) {
        lemma_unstable_end_bounds(left, right, li, ri + 1);
    } else if li < left.len() && ri < right.len() && (left[li] is Left || right[ri] is Left) {
        lemma_unstable_end_bounds(left, right, li + 1, ri + 1);
    }
}

/// The first chunk of scripts that are not both empty lies within them and
/// is not empty, so cutting chunks off the front comes to an end.
pub proof fn lemma_first_chunk_advances<A>(left: Seq<Edit<A>>, right: Seq<Edit<A>>)
    requires
        left.len() + right.len() > 0,
    ensures
        advances(left, right, first_chunk_end(left, right)),
{
    lemma_stable_run_bounds(left, right, 0);
    lemma_unstable_end_bounds(left, right, 0, 0);
}

/// Joined back together, the chunks of two scripts are the two scripts.
pub proof fn lemma_chunks_cover<A>(left: Seq<Edit<A>>, right: Seq<Edit<A>>)
    ensures
        concat_left(chunks(left, right)) == left,
        concat_right(chunks(left, right)) == right,
    decreases left.len() + right.len(),
{
    if left.len() + right.len() == 0 {
        assert(left =~= Seq::empty());
        assert(right =~= Seq::empty());
    } else {
        lemma_first_chunk_advances(left, right);
        let end = first_chunk_end(left, right);
        let first = ChunkView { left: left.subrange(0, end.0), right: right.subrange(0, end.1) };
        let rest_left = left.subrange(end.0, left.len() as int);
        let rest_right = right.subrange(end.1, right.len() as int);
        lemma_chunks_cover(rest_left, rest_right);
        let cs = chunks(left, right);
        assert(cs.drop_first() =~= chunks(rest_left, rest_right));
        assert(first.left + rest_left =~= left);
        assert(first.right + rest_right =~= right);
    }
}

} // verus!
