//! What holds of the chunk engine and the merger for every pair of edit
//! scripts.

use vstd::prelude::*;
use super::chunk::{
    faithful,
    left_projection,
    lemma_projection_concat,
    lemma_unchanged_projections,
    right_projection,
    unchanged,
    ChunkView,
    Edit,
};
use super::chunk_iterator::{
    both_at,
    chunks,
    first_chunk_end,
    is_stable,
    lemma_first_chunk_advances,
    lemma_stable_run_bounds,
    lemma_unstable_end_bounds,
    right_at,
    stable_run,
    unstable_end,
};
use super::output::{resolve_spec, Hunk};
use super::{all_resolved, hunks, resolved_items};

verus! {

/// The resolved items of a concatenation are those of its parts, joined.
pub proof fn lemma_resolved_items_concat<A>(a: Seq<Hunk<A>>, b: Seq<Hunk<A>>)
    ensures
        resolved_items(a + b) == resolved_items(a) + resolved_items(b),
    decreases b.len(),
{
    if b.len() == 0 {
        assert(a + b =~= a);
        assert(resolved_items(a) + resolved_items(b) =~= resolved_items(a));
    } else {
        lemma_resolved_items_concat(a, b.drop_last());
        assert((a + b).drop_last() =~= a + b.drop_last());
        assert((a + b).last() == b.last());
        let tail = match b.last() {
            Hunk::Resolved(x) => x,
            Hunk::Conflict(_, _, _) => Seq::empty(),
        };
        assert((resolved_items(a) + resolved_items(b.drop_last())) + tail =~= resolved_items(a)
            + (resolved_items(b.drop_last()) + tail));
    }
}

/// The hunks of two scripts that are not both empty: the first chunk's
/// resolution, then the hunks of what follows the first chunk.
proof fn lemma_hunks_unfold<A>(left: Seq<Edit<A>>, right: Seq<Edit<A>>)
    requires
        left.len() + right.len() > 0,
    ensures
        ({
            let end = first_chunk_end(left, right);
            let first = ChunkView { left: left.subrange(0, end.0), right: right.subrange(0, end.1) };
            let rest = hunks(
                left.subrange(end.0, left.len() as int),
                right.subrange(end.1, right.len() as int),
            );
            &&& 0 <= end.0 <= left.len()
            &&& 0 <= end.1 <= right.len()
            &&& end.0 + end.1 > 0
            &&& hunks(left, right) == seq![resolve_spec(first)] + rest
            &&& all_resolved(hunks(left, right)) == (resolve_spec(first) is Resolved
                && all_resolved(rest))
            &&& resolved_items(hunks(left, right)) == resolved_items(seq![resolve_spec(first)])
                + resolved_items(rest)
        }),
{
    lemma_first_chunk_advances(left, right);
    let end = first_chunk_end(left, right);
    let first = ChunkView { left: left.subrange(0, end.0), right: right.subrange(0, end.1) };
    let rest = hunks(
        left.subrange(end.0, left.len() as int),
        right.subrange(end.1, right.len() as int),
    );
    let all = hunks(left, right);
    assert(all =~= seq![resolve_spec(first)] + rest);
    lemma_resolved_items_concat(seq![resolve_spec(first)], rest);
    if resolve_spec(first) is Resolved && all_resolved(rest) {
        assert forall|i: int| 0 <= i < all.len() implies #[trigger] all[i] is Resolved by {
            if i > 0 {
                assert(all[i] == rest[i - 1]);
            }
        }
    }
    if all_resolved(all) {
        assert(all[0] is Resolved);
        assert forall|i: int| 0 <= i < rest.len() implies #[trigger] rest[i] is Resolved by {
            assert(rest[i] == all[i + 1]);
        }
    }
}

/// The resolved items of a single resolved hunk are its items.
proof fn lemma_resolved_items_single<A>(items: Seq<A>)
    ensures
        resolved_items(seq![Hunk::Resolved(items)]) == items,
{
    let hs = seq![Hunk::Resolved(items)];
    assert(hs.drop_last() =~= Seq::empty());
    assert(resolved_items(hs.drop_last()) =~= Seq::empty());
    assert(Seq::<A>::empty() + items =~= items);
}

/// From cursors that met at `ri` and of which the left one has run ahead
/// over insertions only, an unstable span of a script cut against itself
/// ends where the two cursors meet again.
proof fn lemma_unstable_end_same<A>(s: Seq<Edit<A>>, li: int, ri: int)
    requires
        0 <= ri <= li <= s.len(),
        forall|k: int| ri <= k < li ==> #[trigger] s[k] is Right,
    ensures
        unstable_end(s, s, li, ri).0 == unstable_end(s, s, li, ri).1,
    decreases (s.len() - li) + (s.len() - ri),
{
    if right_at(s, li) {
        lemma_unstable_end_same(s, li + 1, ri);
    } else if right_at(s, ri) {
        lemma_unstable_end_same(s, li, ri + 1);
    } else {
        if ri < li {
            assert(s[ri] is Right);
        }
        if li < s.len() && ri < s.len() && (s[li] is Left || s[ri] is Left) {
            lemma_unstable_end_same(s, li + 1, ri + 1);
        }
    }
}

/// Two identical sides never conflict, and their resolved items are the
/// new sequence of the script.
pub proof fn lemma_hunks_same<A>(s: Seq<Edit<A>>)
    ensures
        all_resolved(hunks(s, s)),
        resolved_items(hunks(s, s)) == right_projection(s),
    decreases s.len(),
{
    if s.len() == 0 {
        assert(hunks(s, s) =~= Seq::empty());
        assert(right_projection(s) =~= Seq::empty());
    } else {
        lemma_hunks_unfold(s, s);
        lemma_unstable_end_same(s, 0, 0);
        let end = first_chunk_end(s, s);
        assert(end.0 == end.1);
        let head = s.subrange(0, end.0);
        let tail = s.subrange(end.0, s.len() as int);
        lemma_hunks_same(tail);
        lemma_resolved_items_single(right_projection(head));
        lemma_projection_concat(head, tail);
        assert(head + tail =~= s);
    }
}

/// A side that keeps the whole ancestor never conflicts with the other
/// side, and the resolved items are the other side's new sequence.
pub proof fn lemma_hunks_left_unchanged<A>(left: Seq<Edit<A>>, right: Seq<Edit<A>>)
    requires
        unchanged(left),
    ensures
        all_resolved(hunks(left, right)),
        resolved_items(hunks(left, right)) == right_projection(right),
    decreases left.len() + right.len(),
{
    if left.len() + right.len() == 0 {
        assert(hunks(left, right) =~= Seq::empty());
        assert(right_projection(right) =~= Seq::empty());
    } else {
        lemma_hunks_unfold(left, right);
        let end = first_chunk_end(left, right);
        let head_left = left.subrange(0, end.0);
        let head_right = right.subrange(0, end.1);
        let tail_left = left.subrange(end.0, left.len() as int);
        let tail_right = right.subrange(end.1, right.len() as int);
        assert forall|i: int| 0 <= i < head_left.len() implies #[trigger] head_left[i] is Both by {
            assert(head_left[i] == left[i]);
        }
        assert forall|i: int| 0 <= i < tail_left.len() implies #[trigger] tail_left[i] is Both by {
            assert(tail_left[i] == left[i + end.0]);
        }
        lemma_hunks_left_unchanged(tail_left, tail_right);
        lemma_resolved_items_single(right_projection(head_right));
        lemma_projection_concat(head_right, tail_right);
        assert(head_right + tail_right =~= right);
    }
}

/// Number of ancestor elements that the steps `i..j` of a script cover.
pub open spec fn ancestor_len<A>(s: Seq<Edit<A>>, i: int, j: int) -> nat {
    left_projection(s.subrange(i, j)).len()
}

proof fn lemma_ancestor_step<A>(s: Seq<Edit<A>>, i: int, j: int)
    requires
        0 <= i < j <= s.len(),
    ensures
        ancestor_len(s, i, j) == (if s[i] is Right {
            0nat
        } else {
            1nat
        }) + ancestor_len(s, i + 1, j),
{
    let head = seq![s[i]];
    let tail = s.subrange(i + 1, j);
    lemma_projection_concat(head, tail);
    assert(head + tail =~= s.subrange(i, j));
    assert(head.drop_last() =~= Seq::empty());
    assert(left_projection(head.drop_last()) =~= Seq::empty());
}

/// If what is left of two scripts from a pair of cursors covers equally
/// many ancestor elements, so does the unstable span that starts there.
proof fn lemma_unstable_end_aligned<A>(left: Seq<Edit<A>>, right: Seq<Edit<A>>, li: int, ri: int)
    requires
        0 <= li <= left.len(),
        0 <= ri <= right.len(),
        ancestor_len(left, li, left.len() as int) == ancestor_len(right, ri, right.len() as int),
    ensures
        ancestor_len(left, li, unstable_end(left, right, li, ri).0) == ancestor_len(
            right,
            ri,
            unstable_end(left, right, li, ri).1,
        ),
    decreases (left.len() - li) + (right.len() - ri),
{
    let end = unstable_end(left, right, li, ri);
    lemma_unstable_end_bounds(left, right, li, ri);
    if right_at(left, li) {
        lemma_ancestor_step(left, li, left.len() as int);
        lemma_unstable_end_bounds(left, right, li + 1, ri);
        lemma_unstable_end_aligned(left, right, li + 1, ri);
        lemma_ancestor_step(left, li, end.0);
    } else if right_at(right, ri) {
        lemma_ancestor_step(right, ri, right.len() as int);
        lemma_unstable_end_bounds(left, right, li, ri + 1);
        lemma_unstable_end_aligned(left, right, li, ri + 1);
        lemma_ancestor_step(right, ri, end.1);
    } else if li < left.len() && ri < right.len() && (left[li] is Left || right[ri] is Left) {
        lemma_ancestor_step(left, li, left.len() as int);
        lemma_ancestor_step(right, ri, right.len() as int);
        lemma_unstable_end_bounds(left, right, li + 1, ri + 1);
        lemma_unstable_end_aligned(left, right, li + 1, ri + 1);
        lemma_ancestor_step(left, li, end.0);
        lemma_ancestor_step(right, ri, end.1);
    } else if both_at(left, li) && both_at(right, ri) {
        assert(left.subrange(li, li) =~= Seq::empty());
        assert(right.subrange(ri, ri) =~= Seq::empty());
    } else {
    }
}

/// Chunk boundaries fall on ancestor positions: of two scripts that cover
/// equally many ancestor elements, the two sides of the first chunk cover
/// equally many.
pub proof fn lemma_first_chunk_aligned<A>(left: Seq<Edit<A>>, right: Seq<Edit<A>>)
    requires
        left_projection(left).len() == left_projection(right).len(),
    ensures
        ancestor_len(left, 0, first_chunk_end(left, right).0) == ancestor_len(
            right,
            0,
            first_chunk_end(left, right).1,
        ),
{
    let n = stable_run(left, right, 0);
    lemma_stable_run_bounds(left, right, 0);
    if n > 0 {
        let hl = left.subrange(0, n);
        let hr = right.subrange(0, n);
        assert forall|i: int| 0 <= i < hl.len() implies #[trigger] hl[i] is Both by {
            assert(both_at(left, i));
        }
        assert forall|i: int| 0 <= i < hr.len() implies #[trigger] hr[i] is Both by {
            assert(both_at(right, i));
        }
        lemma_unchanged_projections(hl);
        lemma_unchanged_projections(hr);
    } else {
        assert(left.subrange(0, left.len() as int) =~= left);
        assert(right.subrange(0, right.len() as int) =~= right);
        lemma_unstable_end_aligned(left, right, 0, 0);
    }
}

/// Two concatenations that are equal and split at the same length have
/// equal parts.
proof fn lemma_split_equal<A>(a: Seq<A>, b: Seq<A>, c: Seq<A>, d: Seq<A>)
    requires
        a + b == c + d,
        a.len() == c.len(),
    ensures
        a == c,
        b == d,
{
    assert(b.len() == d.len()) by {
        assert((a + b).len() == a.len() + b.len());
        assert((c + d).len() == c.len() + d.len());
    }
    assert forall|i: int| 0 <= i < a.len() implies a[i] == c[i] by {
        assert((a + b)[i] == a[i]);
        assert((c + d)[i] == c[i]);
    }
    assert forall|i: int| 0 <= i < b.len() implies b[i] == d[i] by {
        assert((a + b)[i + a.len()] == b[i]);
        assert((c + d)[i + c.len()] == d[i]);
    }
    assert(a =~= c);
    assert(b =~= d);
}

/// Against a side that keeps the whole ancestor, the other side never
/// conflicts, and the resolved items are its new sequence.
pub proof fn lemma_hunks_right_unchanged<A>(left: Seq<Edit<A>>, right: Seq<Edit<A>>)
    requires
        unchanged(right),
        faithful(left),
        faithful(right),
        left_projection(left) == left_projection(right),
    ensures
        all_resolved(hunks(left, right)),
        resolved_items(hunks(left, right)) == right_projection(left),
    decreases left.len() + right.len(),
{
    if left.len() + right.len() == 0 {
        assert(hunks(left, right) =~= Seq::empty());
        assert(right_projection(left) =~= Seq::empty());
    } else {
        lemma_hunks_unfold(left, right);
        lemma_first_chunk_aligned(left, right);
        let end = first_chunk_end(left, right);
        let head_left = left.subrange(0, end.0);
        let head_right = right.subrange(0, end.1);
        let tail_left = left.subrange(end.0, left.len() as int);
        let tail_right = right.subrange(end.1, right.len() as int);
        assert(head_left + tail_left =~= left);
        assert(head_right + tail_right =~= right);
        lemma_projection_concat(head_left, tail_left);
        lemma_projection_concat(head_right, tail_right);
        lemma_split_equal(
            left_projection(head_left),
            left_projection(tail_left),
            left_projection(head_right),
            left_projection(tail_right),
        );
        assert forall|i: int| 0 <= i < head_right.len() implies #[trigger] head_right[i] is Both by {
            assert(head_right[i] == right[i]);
        }
        assert forall|i: int| 0 <= i < tail_right.len() implies #[trigger] tail_right[i] is Both by {
            assert(tail_right[i] == right[i + end.1]);
        }
        assert(faithful(head_left)) by {
            assert forall|i: int| 0 <= i < head_left.len() implies (
            #[trigger] head_left[i] matches Edit::Both(x, y) ==> x == y) by {
                assert(head_left[i] == left[i]);
            }
        }
        assert(faithful(tail_left)) by {
            assert forall|i: int| 0 <= i < tail_left.len() implies (
            #[trigger] tail_left[i] matches Edit::Both(x, y) ==> x == y) by {
                assert(tail_left[i] == left[i + end.0]);
            }
        }
        assert(faithful(head_right)) by {
            assert forall|i: int| 0 <= i < head_right.len() implies (
            #[trigger] head_right[i] matches Edit::Both(x, y) ==> x == y) by {
                assert(head_right[i] == right[i]);
            }
        }
        assert(faithful(tail_right)) by {
            assert forall|i: int| 0 <= i < tail_right.len() implies (
            #[trigger] tail_right[i] matches Edit::Both(x, y) ==> x == y) by {
                assert(tail_right[i] == right[i + end.1]);
            }
        }
        lemma_unchanged_projections(head_right);
        if unchanged(head_left) {
            lemma_unchanged_projections(head_left);
        }
        let first = ChunkView { left: head_left, right: head_right };
        assert(resolve_spec(first) == Hunk::Resolved(right_projection(head_left)));
        lemma_hunks_right_unchanged(tail_left, tail_right);
        lemma_resolved_items_single(right_projection(head_left));
    }
}

/// Chunk boundaries fall on ancestor positions: the two sides of every
/// chunk of two scripts against one ancestor cover the same stretch of it.
pub proof fn lemma_chunks_aligned<A>(left: Seq<Edit<A>>, right: Seq<Edit<A>>)
    requires
        left_projection(left) == left_projection(right),
    ensures
        forall|k: int|
            0 <= k < chunks(left, right).len() ==> left_projection(
                (#[trigger] chunks(left, right)[k]).left,
            ) == left_projection(chunks(left, right)[k].right),
    decreases left.len() + right.len(),
{
    if left.len() + right.len() > 0 {
        lemma_first_chunk_advances(left, right);
        lemma_first_chunk_aligned(left, right);
        let end = first_chunk_end(left, right);
        let head_left = left.subrange(0, end.0);
        let head_right = right.subrange(0, end.1);
        let tail_left = left.subrange(end.0, left.len() as int);
        let tail_right = right.subrange(end.1, right.len() as int);
        assert(head_left + tail_left =~= left);
        assert(head_right + tail_right =~= right);
        lemma_projection_concat(head_left, tail_left);
        lemma_projection_concat(head_right, tail_right);
        lemma_split_equal(
            left_projection(head_left),
            left_projection(tail_left),
            left_projection(head_right),
            left_projection(tail_right),
        );
        lemma_chunks_aligned(tail_left, tail_right);
        let all = chunks(left, right);
        let rest = chunks(tail_left, tail_right);
        assert forall|k: int| 0 <= k < all.len() implies left_projection((#[trigger] all[k]).left)
            == left_projection(all[k].right) by {
            if k > 0 {
                assert(all[k] == rest[k - 1]);
            }
        }
    }
}

/// A stable chunk never conflicts: it resolves to as many items as it has
/// steps.
pub proof fn lemma_stable_chunk_resolves<A>(chunk: ChunkView<A>)
    requires
        is_stable(chunk),
    ensures
        resolve_spec(chunk) is Resolved,
        resolve_spec(chunk)->Resolved_0.len() == chunk.left.len(),
{
    lemma_unchanged_projections(chunk.left);
    lemma_unchanged_projections(chunk.right);
}

/// Where both scripts start by keeping the ancestor, a clean merge
/// resolves to at least one item.
proof fn lemma_stable_start_resolves<A>(left: Seq<Edit<A>>, right: Seq<Edit<A>>)
    requires
        both_at(left, 0),
        both_at(right, 0),
        all_resolved(hunks(left, right)),
    ensures
        resolved_items(hunks(left, right)).len() > 0,
{
    lemma_hunks_unfold(left, right);
    lemma_stable_run_bounds(left, right, 0);
    let n = stable_run(left, right, 0);
    let hl = left.subrange(0, n);
    let hr = right.subrange(0, n);
    assert forall|i: int| 0 <= i < hl.len() implies #[trigger] hl[i] is Both by {
        assert(both_at(left, i));
    }
    assert forall|i: int| 0 <= i < hr.len() implies #[trigger] hr[i] is Both by {
        assert(both_at(right, i));
    }
    lemma_unchanged_projections(hl);
    lemma_unchanged_projections(hr);
    let first = resolve_spec(ChunkView { left: hl, right: hr });
    lemma_resolved_items_single(first->Resolved_0);
}

/// A clean merge of two sides that are not empty is not empty: a side is
/// only left out where the other one stands in for it.
pub proof fn lemma_clean_merge_nonempty<A>(left: Seq<Edit<A>>, right: Seq<Edit<A>>)
    requires
        right_projection(left).len() > 0,
        right_projection(right).len() > 0,
        all_resolved(hunks(left, right)),
    ensures
        resolved_items(hunks(left, right)).len() > 0,
{
    assert(left.len() > 0) by {
        if left.len() == 0 {
            assert(right_projection(left) =~= Seq::empty());
        }
    }
    if both_at(left, 0) && both_at(right, 0) {
        lemma_stable_start_resolves(left, right);
    } else {
        lemma_hunks_unfold(left, right);
        lemma_unstable_end_bounds(left, right, 0, 0);
        let end = first_chunk_end(left, right);
        assert(end == unstable_end(left, right, 0, 0));
        let tail_left = left.subrange(end.0, left.len() as int);
        let tail_right = right.subrange(end.1, right.len() as int);
        if end.0 == left.len() && end.1 == right.len() {
            assert(left.subrange(0, end.0) =~= left);
            assert(right.subrange(0, end.1) =~= right);
            let first = resolve_spec(ChunkView { left, right });
            lemma_resolved_items_single(first->Resolved_0);
        } else {
            assert(both_at(tail_left, 0));
            assert(both_at(tail_right, 0));
            lemma_stable_start_resolves(tail_left, tail_right);
        }
    }
}

} // verus!
