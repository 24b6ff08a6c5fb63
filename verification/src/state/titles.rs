//! Listings in the order of their titles.

use vstd::prelude::*;
use crate::models::{stub_views, ArticleRevisionStub, StubView};
use crate::strings::chars_of;

verus! {

/// The code point of a character.
pub open spec fn code_point(c: char) -> int {
    c as int
}

/// Whether a text comes before another, or is equal to it, in the
/// lexicographic order of their characters' code points.
pub open spec fn lex_le(a: Seq<char>, b: Seq<char>) -> bool
    decreases a.len(),
{
    if a.len() == 0 {
        true
    } else if b.len() == 0 {
        false
    } else if a[0] != b[0] {
        code_point(a[0]) < code_point(b[0])
    } else {
        lex_le(a.drop_first(), b.drop_first())
    }
}

/// Whether the stub may stand before the other in a listing by title.
pub open spec fn precedes(a: StubView, b: StubView) -> bool {
    lex_le(a.title, b.title)
}

/// Where a stub goes into a listing by title: behind the last stub that
/// may stand before it.
pub open spec fn insert_position(listing: Seq<StubView>, stub: StubView) -> int
    decreases listing.len(),
{
    if listing.len() == 0 {
        0
    } else if precedes(listing.last(), stub) {
        listing.len() as int
    } else {
        insert_position(listing.drop_last(), stub)
    }
}

/// The stubs in the order of their titles; stubs of one title stay in the
/// order in which they came.
pub open spec fn by_title(stubs: Seq<StubView>) -> Seq<StubView>
    decreases stubs.len(),
{
    if stubs.len() == 0 {
        Seq::empty()
    } else {
        let listing = by_title(stubs.drop_last());
        listing.insert(insert_position(listing, stubs.last()), stubs.last())
    }
}

/// Whether the titles of a listing stand in order.
pub open spec fn titles_ordered(listing: Seq<StubView>) -> bool {
    forall|i: int, j: int|
        0 <= i < j < listing.len() ==> precedes(#[trigger] listing[i], #[trigger] listing[j])
}

/// Of two texts, one comes before the other or is equal to it.
pub proof fn lemma_lex_total(a: Seq<char>, b: Seq<char>)
    ensures
        lex_le(a, b) || lex_le(b, a),
    decreases a.len(),
{
    if a.len() > 0 && b.len() > 0 && a[0] == b[0] {
        lemma_lex_total(a.drop_first(), b.drop_first());
    }
}

/// The order of texts is transitive.
pub proof fn lemma_lex_transitive(a: Seq<char>, b: Seq<char>, c: Seq<char>)
    requires
        lex_le(a, b),
        lex_le(b, c),
    ensures
        lex_le(a, c),
    decreases a.len(),
{
    if a.len() > 0 && b.len() > 0 && c.len() > 0 && a[0] == b[0] && b[0] == c[0] {
        lemma_lex_transitive(a.drop_first(), b.drop_first(), c.drop_first());
    }
}

proof fn lemma_insert_position(listing: Seq<StubView>, stub: StubView)
    requires
        titles_ordered(listing),
    ensures
        0 <= insert_position(listing, stub) <= listing.len(),
        forall|i: int| 0 <= i < insert_position(listing, stub) ==> precedes(#[trigger] listing[i], stub),
        forall|i: int|
            insert_position(listing, stub) <= i < listing.len() ==> precedes(
                stub,
                #[trigger] listing[i],
            ),
    decreases listing.len(),
{
    if listing.len() > 0 {
        let last = listing.last();
        if precedes(last, stub) {
            assert forall|i: int| 0 <= i < listing.len() implies precedes(
                #[trigger] listing[i],
                stub,
            ) by {
                if i < listing.len() - 1 {
                    assert(precedes(listing[i], listing[listing.len() - 1]));
                    lemma_lex_transitive(listing[i].title, last.title, stub.title);
                }
            }
        } else {
            let init = listing.drop_last();
            assert(titles_ordered(init)) by {
                assert forall|i: int, j: int| 0 <= i < j < init.len() implies precedes(
                    #[trigger] init[i],
                    #[trigger] init[j],
                ) by {
                    assert(precedes(listing[i], listing[j]));
                }
            }
            lemma_insert_position(init, stub);
            lemma_lex_total(last.title, stub.title);
            assert forall|i: int|
                insert_position(listing, stub) <= i < listing.len() implies precedes(
                stub,
                #[trigger] listing[i],
            ) by {
                if i < listing.len() - 1 {
                    assert(listing[i] == init[i]);
                }
            }
            assert forall|i: int| 0 <= i < insert_position(listing, stub) implies precedes(
                #[trigger] listing[i],
                stub,
            ) by {
                assert(listing[i] == init[i]);
            }
        }
    }
}

/// A listing by title holds each stub as often as it was given, and its
/// titles stand in order.
pub proof fn lemma_by_title(stubs: Seq<StubView>)
    ensures
        by_title(stubs).len() == stubs.len(),
        by_title(stubs).to_multiset() == stubs.to_multiset(),
        titles_ordered(by_title(stubs)),
    decreases stubs.len(),
{
    broadcast use vstd::seq_lib::group_to_multiset_ensures;

    if stubs.len() == 0 {
    } else {
        let init = stubs.drop_last();
        let x = stubs.last();
        lemma_by_title(init);
        let listing = by_title(init);
        lemma_insert_position(listing, x);
        let p = insert_position(listing, x);
        let out = listing.insert(p, x);
        assert(out.remove(p) =~= listing);
        assert(out[p] == x);
        assert(out.to_multiset() =~= listing.to_multiset().insert(x)) by {
            assert(out.remove(p).to_multiset() =~= out.to_multiset().remove(x));
            assert(out.to_multiset().count(x) > 0) by {
                assert(out.contains(x));
            }
        }
        assert(init.push(x) =~= stubs);
        assert(stubs.to_multiset() =~= init.to_multiset().insert(x));
        assert forall|i: int, j: int| 0 <= i < j < out.len() implies precedes(
            #[trigger] out[i],
            #[trigger] out[j],
        ) by {
            if j < p {
                assert(out[i] == listing[i] && out[j] == listing[j]);
            } else if j == p {
                assert(out[i] == listing[i]);
            } else if i < p {
                assert(out[i] == listing[i] && out[j] == listing[j - 1]);
            } else if i == p {
                assert(out[j] == listing[j - 1]);
            } else {
                assert(out[i] == listing[i - 1] && out[j] == listing[j - 1]);
            }
        }
    }
}

/// The code point of a character.
fn code(c: char) -> (n: u32)
    ensures
        n == code_point(c),
{
    c as u32
}

/// Whether a text comes before another, or is equal to it, in the order of
/// their characters' code points.
pub fn title_le(a: &str, b: &str) -> (r: bool)
    ensures
        r == lex_le(a@, b@),
{
    let x = chars_of(a);
    let y = chars_of(b);
    let mut i: usize = 0;
    assert(x@.skip(0) =~= x@);
    assert(y@.skip(0) =~= y@);
    while i < x.len()
        invariant
            i <= x.len(),
            i <= y.len(),
            x@ == a@,
            y@ == b@,
            lex_le(x@, y@) == lex_le(x@.skip(i as int), y@.skip(i as int)),
        decreases x.len() - i,
    {
        proof {
            assert(x@.skip(i as int).drop_first() =~= x@.skip(i + 1));
            assert(x@.skip(i as int)[0] == x@[i as int]);
            if i < y.len() {
                assert(y@.skip(i as int).drop_first() =~= y@.skip(i + 1));
                assert(y@.skip(i as int)[0] == y@[i as int]);
            }
        }
        if i >= y.len() {
            return false;
        }
        let cx = x[i];
        let cy = y[i];
        if cx != cy {
            let nx = code(cx);
            let ny = code(cy);
            assert(lex_le(x@.skip(i as int), y@.skip(i as int)) == (code_point(cx) < code_point(
                cy,
            )));
            return nx < ny;
        }
        i += 1;
    }
    true
}

/// Puts a stub into a listing by title.
pub fn insert_by_title(listing: &mut Vec<ArticleRevisionStub>, stub: ArticleRevisionStub)
    ensures
        stub_views(final(listing)@) == stub_views(old(listing)@).insert(
            insert_position(stub_views(old(listing)@), stub@),
            stub@,
        ),
{
    let ghost before = stub_views(listing@);
    let mut p: usize = listing.len();
    assert(before.take(p as int) =~= before);
    while p > 0 && !title_le(listing[p - 1].title.as_str(), stub.title.as_str())
        invariant
            p <= listing.len(),
            before == stub_views(listing@),
            insert_position(before, stub@) == insert_position(before.take(p as int), stub@),
        decreases p,
    {
        proof {
            assert(before.take(p as int).drop_last() =~= before.take(p - 1));
            assert(before.take(p as int).last() == listing@[p - 1]@);
        }
        p -= 1;
    }
    proof {
        if p > 0 {
            assert(before.take(p as int).last() == listing@[p - 1]@);
            assert(insert_position(before.take(p as int), stub@) == p);
        } else {
            assert(before.take(0) =~= Seq::empty());
        }
    }
    listing.insert(p, stub);
    assert(stub_views(listing@) =~= before.insert(p as int, stub@));
}

/// The stubs in the order of their titles.
pub fn sort_by_title(stubs: &Vec<ArticleRevisionStub>) -> (out: Vec<ArticleRevisionStub>)
    ensures
        stub_views(out@) == by_title(stub_views(stubs@)),
{
    let ghost given = stub_views(stubs@);
    let mut out: Vec<ArticleRevisionStub> = Vec::new();
    let mut i: usize = 0;
    assert(given.take(0) =~= Seq::empty());
    assert(stub_views(out@) =~= Seq::empty());
    while i < stubs.len()
        invariant
            i <= stubs.len(),
            given == stub_views(stubs@),
            stub_views(out@) == by_title(given.take(i as int)),
        decreases stubs.len() - i,
    {
        proof {
            assert(given.take(i + 1).drop_last() =~= given.take(i as int));
            assert(given.take(i + 1).last() == stubs@[i as int]@);
        }
        insert_by_title(&mut out, stubs[i].duplicate());
        i += 1;
    }
    assert(given.take(i as int) =~= given);
    out
}

} // verus!
