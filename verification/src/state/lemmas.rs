//! What holds of every consistent store, and of every store that an
//! operation leaves behind.

use vstd::prelude::*;
use super::slug::{decide_slug_from, first_free};
use super::table::{
    consistent,
    count_article,
    has_revision,
    inserted,
    is_revision,
    lemma_revision_exists,
    lemma_revision_range,
    lemma_revision_unique,
    next_sequence_number,
    retire,
    revision_row,
    row_consistent,
    slug_in_use,
    StoreView,
};
use super::{create_spec, head_index, lemma_head_index, lemma_head_is_latest, update_spec, UpdateView};
use crate::models::RevisionView;
use crate::theme::Theme;

verus! {

/// Every article has exactly one latest revision, and it is the one with
/// the largest revision number.
pub proof fn lemma_one_latest(s: StoreView, article_id: int)
    requires
        consistent(s),
        1 <= article_id <= s.articles,
    ensures
        0 <= head_index(s.rows, article_id) < s.rows.len(),
        s.rows[head_index(s.rows, article_id)].article_id == article_id,
        s.rows[head_index(s.rows, article_id)].latest,
        forall|i: int|
            0 <= i < s.rows.len() && (#[trigger] s.rows[i]).article_id == article_id
                && s.rows[i].latest ==> i == head_index(s.rows, article_id),
        forall|i: int|
            0 <= i < s.rows.len() && (#[trigger] s.rows[i]).article_id == article_id
                ==> s.rows[i].revision <= s.rows[head_index(s.rows, article_id)].revision,
{
    assert(count_article(s.rows, article_id) >= 1);
    lemma_head_index(s.rows, article_id);
    lemma_head_is_latest(s, article_id);
    assert forall|i: int|
        0 <= i < s.rows.len() && (#[trigger] s.rows[i]).article_id == article_id implies s.rows[i].revision
        <= s.rows[head_index(s.rows, article_id)].revision by {
        lemma_revision_range(s, i);
    }
}

/// The revisions of an article are exactly the numbers from 1 up to the
/// number of its rows, each once.
pub proof fn lemma_dense_revisions(s: StoreView, article_id: int, revision: int)
    requires
        consistent(s),
    ensures
        has_revision(s.rows, article_id, revision) <==> 1 <= revision <= count_article(
            s.rows,
            article_id,
        ),
        forall|i: int, j: int|
            is_revision(s.rows, i, article_id, revision) && is_revision(
                s.rows,
                j,
                article_id,
                revision,
            ) ==> i == j,
{
    if 1 <= revision <= count_article(s.rows, article_id) {
        lemma_revision_exists(s, article_id, revision);
    }
    if has_revision(s.rows, article_id, revision) {
        let i = choose|i: int| is_revision(s.rows, i, article_id, revision);
        lemma_revision_range(s, i);
    }
    assert forall|i: int, j: int|
        is_revision(s.rows, i, article_id, revision) && is_revision(
            s.rows,
            j,
            article_id,
            revision,
        ) implies i == j by {
        lemma_revision_unique(s, i, j);
    }
}

/// A row stored later has a larger sequence number: the rows stand in the
/// order of their sequence numbers, and an insert appends a row with a
/// number above them all.
pub proof fn lemma_sequence_grows(s: StoreView, articles: int, row: RevisionView)
    requires
        consistent(s),
        row.sequence_number == next_sequence_number(s.rows),
    ensures
        forall|i: int, j: int|
            0 <= i < j < s.rows.len() ==> (#[trigger] s.rows[i]).sequence_number < (
            #[trigger] s.rows[j]).sequence_number,
        inserted(s, articles, row).rows.len() == s.rows.len() + 1,
        inserted(s, articles, row).rows.last() == row,
        forall|i: int|
            0 <= i < s.rows.len() ==> (#[trigger] inserted(s, articles, row).rows[i]).sequence_number
                < row.sequence_number,
{
    let t = inserted(s, articles, row);
    let n = s.rows.len() as int;
    assert forall|i: int| 0 <= i < n implies (#[trigger] t.rows[i]).sequence_number
        < row.sequence_number by {
        assert(t.rows[i] == retire(s.rows, row.article_id)[i]);
        assert(s.rows[i].sequence_number <= s.rows[n - 1].sequence_number);
    }
}

/// No two latest revisions have the same slug; so the empty slug belongs
/// to at most one article.
pub proof fn lemma_latest_slugs_distinct(s: StoreView, i: int, j: int)
    requires
        consistent(s),
        0 <= i < s.rows.len(),
        0 <= j < s.rows.len(),
        i != j,
        s.rows[i].latest,
        s.rows[j].latest,
    ensures
        s.rows[i].slug != s.rows[j].slug,
        s.rows[i].article_id != s.rows[j].article_id,
{
    if i < j {
        assert(s.rows[i].slug != s.rows[j].slug);
    } else {
        assert(s.rows[j].slug != s.rows[i].slug);
    }
    if s.rows[i].article_id == s.rows[j].article_id {
        lemma_head_index(s.rows, s.rows[i].article_id);
        lemma_head_is_latest(s, s.rows[i].article_id);
    }
}

/// An insert changes no row that is there, but for the latest flag, which
/// it may clear and never sets.
pub proof fn lemma_insert_keeps_rows(s: StoreView, articles: int, row: RevisionView, i: int)
    requires
        0 <= i < s.rows.len(),
    ensures
        inserted(s, articles, row).rows[i] == (RevisionView {
            latest: inserted(s, articles, row).rows[i].latest,
            ..s.rows[i]
        }),
        inserted(s, articles, row).rows[i].latest ==> s.rows[i].latest,
{
    assert(inserted(s, articles, row).rows[i] == retire(s.rows, row.article_id)[i]);
}

/// Creating an article changes no row that is there, and leaves the latest
/// flags as they are.
pub proof fn lemma_create_keeps_rows(
    s: StoreView,
    target_slug: Option<Seq<char>>,
    title: Seq<char>,
    body: Seq<char>,
    author: Option<Seq<char>>,
    theme: Theme,
    created: int,
    i: int,
)
    requires
        consistent(s),
        0 <= i < s.rows.len(),
        create_spec(s, target_slug, title, body, author, theme, created) is Ok,
    ensures
        create_spec(s, target_slug, title, body, author, theme, created)->Ok_0.0.rows[i]
            == s.rows[i],
{
    let row = create_spec(s, target_slug, title, body, author, theme, created)->Ok_0.1;
    assert(row_consistent(s, i));
    assert(inserted(s, s.articles + 1, row).rows[i] == retire(s.rows, row.article_id)[i]);
}

/// Updating an article changes no row that is there, but for the latest
/// flag of the article's rows, which it clears.
pub proof fn lemma_update_keeps_rows(
    s: StoreView,
    article_id: int,
    base_revision: int,
    title: Seq<char>,
    body: Seq<char>,
    author: Option<Seq<char>>,
    theme: Option<Theme>,
    created: int,
    i: int,
)
    requires
        0 <= i < s.rows.len(),
        update_spec(s, article_id, base_revision, title, body, author, theme, created) is Ok,
    ensures
        ({
            let after = update_spec(
                s,
                article_id,
                base_revision,
                title,
                body,
                author,
                theme,
                created,
            )->Ok_0.0;
            &&& s.rows.len() <= after.rows.len()
            &&& after.rows[i] == (RevisionView { latest: after.rows[i].latest, ..s.rows[i] })
            &&& after.rows[i].latest ==> s.rows[i].latest
            &&& s.rows[i].article_id != article_id ==> after.rows[i] == s.rows[i]
        }),
{
    let outcome = update_spec(s, article_id, base_revision, title, body, author, theme, created)->Ok_0;
    match outcome.1 {
        UpdateView::Success(row) => {
            assert(outcome.0.rows[i] == retire(s.rows, article_id)[i]);
        },
        UpdateView::RebaseConflict(_) => {},
    }
}

/// The first revision of a created article reads back as it was given:
/// title, body, author and theme verbatim.
pub proof fn lemma_create_reads_back(
    s: StoreView,
    target_slug: Option<Seq<char>>,
    title: Seq<char>,
    body: Seq<char>,
    author: Option<Seq<char>>,
    theme: Theme,
    created: int,
)
    requires
        consistent(s),
        create_spec(s, target_slug, title, body, author, theme, created) is Ok,
    ensures
        ({
            let (after, row) = create_spec(s, target_slug, title, body, author, theme, created)->Ok_0;
            &&& row.article_id == s.articles + 1
            &&& row.revision == 1
            &&& row.title == title
            &&& row.body == body
            &&& row.author == author
            &&& row.theme == theme
            &&& row.latest
            &&& has_revision(after.rows, row.article_id, 1)
            &&& revision_row(after.rows, row.article_id, 1) == row
        }),
{
    let (after, row) = create_spec(s, target_slug, title, body, author, theme, created)->Ok_0;
    let n = s.rows.len() as int;
    assert(after.rows[n] == row);
    assert(is_revision(after.rows, n, row.article_id, 1));
    assert forall|i: int| is_revision(after.rows, i, row.article_id, 1) implies i == n by {
        if i < n {
            assert(row_consistent(s, i));
            assert(after.rows[i] == retire(s.rows, row.article_id)[i]);
        }
    }
}

/// The allocator looks at the table only to see which slugs the latest
/// revisions of other articles have: over two tables that agree on that, it
/// decides the same slug.
pub proof fn lemma_slug_depends_on_use(
    rows: Seq<RevisionView>,
    other: Seq<RevisionView>,
    article_id: int,
    prev_title: Seq<char>,
    title: Seq<char>,
    prev_slug: Option<Seq<char>>,
    base_slug: Seq<char>,
)
    requires
        forall|slug: Seq<char>|
            slug_in_use(rows, article_id, slug) == slug_in_use(other, article_id, slug),
    ensures
        decide_slug_from(rows, article_id, prev_title, title, prev_slug, base_slug)
            == decide_slug_from(other, article_id, prev_title, title, prev_slug, base_slug),
{
    let base = if base_slug.len() == 0 {
        "article"@
    } else {
        base_slug
    };
    lemma_first_free_depends_on_use(rows, other, article_id, base, 1);
}

proof fn lemma_first_free_depends_on_use(
    rows: Seq<RevisionView>,
    other: Seq<RevisionView>,
    article_id: int,
    base: Seq<char>,
    n: int,
)
    requires
        forall|slug: Seq<char>|
            slug_in_use(rows, article_id, slug) == slug_in_use(other, article_id, slug),
    ensures
        first_free(rows, article_id, base, n) == first_free(other, article_id, base, n),
    decreases i32::MAX - n,
{
    if n < i32::MAX {
        lemma_first_free_depends_on_use(rows, other, article_id, base, n + 1);
    }
}

} // verus!
