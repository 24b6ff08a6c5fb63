//! The revision table as a mathematical object: its rows in insertion
//! order, what makes it consistent, and what follows from that.

use vstd::prelude::*;
use crate::models::{ArticleRevision, RevisionView};

verus! {

/// Mathematical content of the store: how many articles there are, and the
/// revision rows in the order in which they were inserted.
pub struct StoreView {
    pub articles: int,
    pub rows: Seq<RevisionView>,
}

/// Views of a sequence of revisions.
pub open spec fn rows_view(rows: Seq<ArticleRevision>) -> Seq<RevisionView> {
    rows.map_values(|r: ArticleRevision| r@)
}

/// Number of rows that belong to the article.
pub open spec fn count_article(rows: Seq<RevisionView>, article_id: int) -> nat
    decreases rows.len(),
{
    if rows.len() == 0 {
        0
    } else {
        count_article(rows.drop_last(), article_id) + if rows.last().article_id == article_id {
            1nat
        } else {
            0nat
        }
    }
}

/// The sequence number that the next inserted row gets.
pub open spec fn next_sequence_number(rows: Seq<RevisionView>) -> int {
    if rows.len() == 0 {
        1
    } else {
        rows.last().sequence_number + 1
    }
}

/// Whether a character may stand in a slug: a lower-case ASCII letter, a
/// digit or a hyphen.
pub open spec fn is_slug_char(c: char) -> bool {
    let n = c as int;
    ||| 0x61 <= n <= 0x7a
    ||| 0x30 <= n <= 0x39
    ||| n == 0x2d
}

/// Whether a text can stand in a URL as it is: each of its characters may
/// stand in a slug.
pub open spec fn url_safe(slug: Seq<char>) -> bool {
    forall|i: int| 0 <= i < slug.len() ==> is_slug_char(#[trigger] slug[i])
}

/// What holds of one row of a consistent table: it belongs to an article
/// that exists, its title is not empty, its slug is URL-safe, it is the
/// n-th row of its article exactly if its revision is n, and it is flagged
/// as latest exactly if no row of its article follows.
pub open spec fn row_consistent(s: StoreView, i: int) -> bool {
    let r = s.rows[i];
    &&& 1 <= r.article_id <= s.articles
    &&& 1 <= r.sequence_number
    &&& r.title.len() > 0
    &&& url_safe(r.slug)
    &&& r.revision == count_article(s.rows.take(i + 1), r.article_id)
    &&& r.latest == (r.revision == count_article(s.rows, r.article_id))
}

/// What holds of the store after every operation: the rows are consistent
/// each, they stand in the order of their sequence numbers, no two latest
/// rows have the same slug, the rows of an article stand in the order of
/// their times, and every article has a row.
pub open spec fn consistent(s: StoreView) -> bool {
    &&& 0 <= s.articles
    &&& forall|i: int| 0 <= i < s.rows.len() ==> #[trigger] row_consistent(s, i)
    &&& forall|i: int, j: int|
        0 <= i < j < s.rows.len() ==> (#[trigger] s.rows[i]).sequence_number < (
        #[trigger] s.rows[j]).sequence_number
    &&& forall|i: int, j: int|
        0 <= i < j < s.rows.len() && (#[trigger] s.rows[i]).latest && (#[trigger] s.rows[j]).latest
            ==> s.rows[i].slug != s.rows[j].slug
    &&& forall|i: int, j: int|
        0 <= i < j < s.rows.len() && (#[trigger] s.rows[i]).article_id == (
        #[trigger] s.rows[j]).article_id ==> s.rows[i].created <= s.rows[j].created
    &&& forall|a: int| 1 <= a <= s.articles ==> #[trigger] count_article(s.rows, a) >= 1
}

/// Whether the row at `i` is the one of the given article and revision.
pub open spec fn is_revision(rows: Seq<RevisionView>, i: int, article_id: int, revision: int) -> bool {
    0 <= i < rows.len() && rows[i].article_id == article_id && rows[i].revision == revision
}

/// Position of the row of the given article and revision. In a consistent
/// table there is at most one ([`lemma_revision_unique`]).
pub open spec fn revision_index(rows: Seq<RevisionView>, article_id: int, revision: int) -> int {
    choose|i: int| is_revision(rows, i, article_id, revision)
}

/// Whether the table holds a row of the given article and revision.
pub open spec fn has_revision(rows: Seq<RevisionView>, article_id: int, revision: int) -> bool {
    exists|i: int| is_revision(rows, i, article_id, revision)
}

/// The row of the given article and revision.
pub open spec fn revision_row(rows: Seq<RevisionView>, article_id: int, revision: int) -> RevisionView {
    rows[revision_index(rows, article_id, revision)]
}

/// The table after the article's rows lost their latest flag.
pub open spec fn retire(rows: Seq<RevisionView>, article_id: int) -> Seq<RevisionView> {
    rows.map_values(
        |r: RevisionView|
            if r.article_id == article_id {
                RevisionView { latest: false, ..r }
            } else {
                r
            },
    )
}

/// Whether the latest revision of some other article has the slug.
pub open spec fn slug_in_use(rows: Seq<RevisionView>, article_id: int, slug: Seq<char>) -> bool {
    exists|i: int|
        0 <= i < rows.len() && (#[trigger] rows[i]).latest && rows[i].article_id != article_id
            && rows[i].slug == slug
}

/// A prefix of a table holds no more rows of an article than the table.
pub proof fn lemma_count_prefix(rows: Seq<RevisionView>, article_id: int, k: int)
    requires
        0 <= k <= rows.len(),
    ensures
        count_article(rows.take(k), article_id) <= count_article(rows, article_id),
        count_article(rows, article_id) <= count_article(rows.take(k), article_id) + (rows.len()
            - k),
        (forall|j: int| k <= j < rows.len() ==> (#[trigger] rows[j]).article_id != article_id)
            ==> count_article(rows.take(k), article_id) == count_article(rows, article_id),
        (exists|j: int| k <= j < rows.len() && (#[trigger] rows[j]).article_id == article_id)
            ==> count_article(rows.take(k), article_id) < count_article(rows, article_id),
    decreases rows.len() - k,
{
    if k == rows.len() {
        assert(rows.take(k) =~= rows);
    } else {
        let init = rows.drop_last();
        lemma_count_prefix(init, article_id, k);
        assert(init.take(k) =~= rows.take(k));
        if exists|j: int| k <= j < rows.len() && (#[trigger] rows[j]).article_id == article_id {
            let j = choose|j: int|
                k <= j < rows.len() && (#[trigger] rows[j]).article_id == article_id;
            if j < rows.len() - 1 {
                assert(init[j] == rows[j]);
            }
        }
        assert forall|j: int| k <= j < init.len() implies (#[trigger] init[j]) == rows[j] by {}
    }
}

/// A table without rows of an article counts none, and the other way round.
pub proof fn lemma_count_zero(rows: Seq<RevisionView>, article_id: int)
    ensures
        count_article(rows, article_id) == 0 <==> (forall|i: int|
            0 <= i < rows.len() ==> (#[trigger] rows[i]).article_id != article_id),
{
    assert(rows.take(0) =~= Seq::empty());
    lemma_count_prefix(rows, article_id, 0);
}

/// In a consistent table the revisions of one article grow with the
/// position, so an article and a revision name at most one row.
pub proof fn lemma_revision_unique(s: StoreView, i: int, j: int)
    requires
        consistent(s),
        0 <= i < s.rows.len(),
        0 <= j < s.rows.len(),
        s.rows[i].article_id == s.rows[j].article_id,
    ensures
        i < j ==> s.rows[i].revision < s.rows[j].revision,
        s.rows[i].revision == s.rows[j].revision ==> i == j,
{
    let a = s.rows[i].article_id;
    assert(row_consistent(s, i));
    assert(row_consistent(s, j));
    if i < j {
        let upto = s.rows.take(j + 1);
        assert(upto.take(i + 1) =~= s.rows.take(i + 1));
        assert(upto[j] == s.rows[j]);
        lemma_count_prefix(upto, a, i + 1);
    } else if j < i {
        let upto = s.rows.take(i + 1);
        assert(upto.take(j + 1) =~= s.rows.take(j + 1));
        assert(upto[i] == s.rows[i]);
        lemma_count_prefix(upto, a, j + 1);
    }
}

/// A row that the table holds is the row that its article and revision
/// name.
pub proof fn lemma_revision_row(s: StoreView, i: int)
    requires
        consistent(s),
        0 <= i < s.rows.len(),
    ensures
        has_revision(s.rows, s.rows[i].article_id, s.rows[i].revision),
        revision_index(s.rows, s.rows[i].article_id, s.rows[i].revision) == i,
        revision_row(s.rows, s.rows[i].article_id, s.rows[i].revision) == s.rows[i],
{
    let a = s.rows[i].article_id;
    let v = s.rows[i].revision;
    assert(is_revision(s.rows, i, a, v));
    let k = revision_index(s.rows, a, v);
    lemma_revision_unique(s, i, k);
}

/// Dense revisions: every revision from 1 up to the number of an article's
/// rows names a row.
pub proof fn lemma_revision_exists(s: StoreView, article_id: int, revision: int)
    requires
        consistent(s),
        1 <= revision <= count_article(s.rows, article_id),
    ensures
        has_revision(s.rows, article_id, revision),
{
    assert(s.rows.take(s.rows.len() as int) =~= s.rows);
    lemma_nth_row(s, s.rows.len() as int, article_id, revision);
}

proof fn lemma_nth_row(s: StoreView, k: int, article_id: int, revision: int)
    requires
        consistent(s),
        0 <= k <= s.rows.len(),
        1 <= revision <= count_article(s.rows.take(k), article_id),
    ensures
        exists|i: int| 0 <= i < k && is_revision(s.rows, i, article_id, revision),
    decreases k,
{
    if k == 0 {
        assert(s.rows.take(0) =~= Seq::empty());
    } else {
        let upto = s.rows.take(k);
        assert(upto.drop_last() =~= s.rows.take(k - 1));
        assert(upto.last() == s.rows[k - 1]);
        assert(row_consistent(s, k - 1));
        if s.rows[k - 1].article_id == article_id && count_article(upto, article_id)
            == revision {
            assert(is_revision(s.rows, k - 1, article_id, revision));
        } else {
            lemma_nth_row(s, k - 1, article_id, revision);
        }
    }
}

/// Every row's revision lies between 1 and the number of its article's
/// rows.
pub proof fn lemma_revision_range(s: StoreView, i: int)
    requires
        consistent(s),
        0 <= i < s.rows.len(),
    ensures
        1 <= s.rows[i].revision <= count_article(s.rows, s.rows[i].article_id),
{
    assert(row_consistent(s, i));
    let upto = s.rows.take(i + 1);
    assert(upto.last() == s.rows[i]);
    lemma_count_prefix(s.rows, s.rows[i].article_id, i + 1);
}

/// The store after a row was inserted: the rows of its article retired,
/// the row appended.
pub open spec fn inserted(s: StoreView, articles: int, row: RevisionView) -> StoreView {
    StoreView { articles, rows: retire(s.rows, row.article_id).push(row) }
}

/// Retiring an article's rows moves no row to another article.
pub proof fn lemma_count_retire(rows: Seq<RevisionView>, retired: int, article_id: int)
    ensures
        count_article(retire(rows, retired), article_id) == count_article(rows, article_id),
    decreases rows.len(),
{
    if rows.len() > 0 {
        lemma_count_retire(rows.drop_last(), retired, article_id);
        assert(retire(rows, retired).drop_last() =~= retire(rows.drop_last(), retired));
    }
}

/// A consistent store stays consistent when it takes, with the next
/// sequence number, the next revision of one of its articles or the first
/// revision of a new one, under a slug that no other article's latest
/// revision has and with a time no earlier than its article's rows.
pub proof fn lemma_insert_consistent(s: StoreView, articles: int, row: RevisionView)
    requires
        consistent(s),
        row.title.len() > 0,
        url_safe(row.slug),
        row.latest,
        row.sequence_number == next_sequence_number(s.rows),
        row.revision == count_article(s.rows, row.article_id) + 1,
        !slug_in_use(s.rows, row.article_id, row.slug),
        forall|i: int|
            0 <= i < s.rows.len() && (#[trigger] s.rows[i]).article_id == row.article_id
                ==> s.rows[i].created <= row.created,
        (1 <= row.article_id <= s.articles && articles == s.articles) || (row.article_id
            == s.articles + 1 && articles == row.article_id),
    ensures
        consistent(inserted(s, articles, row)),
{
    let a = row.article_id;
    let old_rows = s.rows;
    let retired = retire(old_rows, a);
    let t = inserted(s, articles, row);
    let n = old_rows.len() as int;
    assert(t.rows.drop_last() =~= retired);
    assert(t.rows.take(n + 1) =~= t.rows);
    assert forall|x: int| count_article(t.rows, x) == count_article(old_rows, x) + if x == a {
        1nat
    } else {
        0nat
    } by {
        lemma_count_retire(old_rows, a, x);
    }
    if n > 0 {
        assert(row_consistent(s, n - 1));
    }
    assert forall|i: int| 0 <= i < t.rows.len() implies #[trigger] row_consistent(t, i) by {
        if i < n {
            assert(row_consistent(s, i));
            let r = old_rows[i];
            assert(t.rows[i] == retired[i]);
            assert(t.rows.take(i + 1) =~= retire(old_rows.take(i + 1), a));
            lemma_count_retire(old_rows.take(i + 1), a, r.article_id);
            lemma_revision_range(s, i);
        }
    }
    assert forall|i: int, j: int| 0 <= i < j < t.rows.len() implies (#[trigger] t.rows[i]).sequence_number
        < (#[trigger] t.rows[j]).sequence_number by {
        assert(t.rows[i] == retired[i]);
        assert(old_rows[i].sequence_number <= old_rows[n - 1].sequence_number);
        if j < n {
            assert(t.rows[j] == retired[j]);
            assert(old_rows[i].sequence_number < old_rows[j].sequence_number);
        }
    }
    assert forall|i: int, j: int|
        0 <= i < j < t.rows.len() && (#[trigger] t.rows[i]).latest && (
        #[trigger] t.rows[j]).latest implies t.rows[i].slug != t.rows[j].slug by {
        assert(t.rows[i] == retired[i]);
        assert(old_rows[i].latest && old_rows[i].article_id != a);
        if j < n {
            assert(t.rows[j] == retired[j]);
            assert(old_rows[j].latest);
        }
    }
    assert forall|i: int, j: int|
        0 <= i < j < t.rows.len() && (#[trigger] t.rows[i]).article_id == (
        #[trigger] t.rows[j]).article_id implies t.rows[i].created <= t.rows[j].created by {
        assert(t.rows[i] == retired[i]);
        if j < n {
            assert(t.rows[j] == retired[j]);
            assert(old_rows[i].created <= old_rows[j].created);
        } else {
            assert(old_rows[i].article_id == a);
        }
    }
    assert forall|x: int| 1 <= x <= t.articles implies #[trigger] count_article(t.rows, x)
        >= 1 by {
        if x <= s.articles {
            assert(count_article(old_rows, x) >= 1);
        }
    }
}

} // verus!
