//! What holds of a store over any number of operations: a row, once
//! stored, stays as it is but for its latest flag, which is cleared once and
//! never set again.

use vstd::prelude::*;
use super::table::{
    consistent,
    count_article,
    has_revision,
    inserted,
    is_revision,
    lemma_count_prefix,
    lemma_count_retire,
    lemma_count_zero,
    lemma_revision_range,
    next_sequence_number,
    retire,
    revision_index,
    revision_row,
    row_consistent,
    StoreView,
};
use super::{create_spec, head_index, lemma_head_index, update_spec, UpdateView};
use crate::models::RevisionView;
use crate::theme::Theme;

verus! {

/// Whether a row is the given one as it stands later: the same in every
/// field but the latest flag, which may have been cleared and was not set.
pub open spec fn kept(before: RevisionView, after: RevisionView) -> bool {
    &&& after == (RevisionView { latest: after.latest, ..before })
    &&& after.latest ==> before.latest
}

/// Whether a store is the given one as it stands later: it has no fewer
/// articles, and every row of the given one is kept at its place.
pub open spec fn extends(s: StoreView, t: StoreView) -> bool {
    &&& s.articles <= t.articles
    &&& s.rows.len() <= t.rows.len()
    &&& forall|i: int| 0 <= i < s.rows.len() ==> kept(s.rows[i], #[trigger] t.rows[i])
}

/// Whether a row was stored as the latest revision of its article: it is
/// the last row and the only new one, its revision is one more than the
/// article had rows and above those of all of them, its sequence number
/// is above all that the store held, the other rows of its article are as
/// they were but no longer latest, and the rows of all other articles are
/// as they were.
pub open spec fn stored_as_latest(s: StoreView, t: StoreView, row: RevisionView) -> bool {
    &&& t.rows.len() == s.rows.len() + 1
    &&& t.rows.last() == row
    &&& row.latest
    &&& row.revision == count_article(s.rows, row.article_id) + 1
    &&& forall|i: int|
        0 <= i < s.rows.len() ==> {
            let before = s.rows[i];
            let after = #[trigger] t.rows[i];
            &&& before.sequence_number < row.sequence_number
            &&& if before.article_id == row.article_id {
                after == (RevisionView { latest: false, ..before }) && before.revision
                    < row.revision
            } else {
                after == before
            }
        }
}

/// An insert into a consistent store stores its row as the latest revision
/// of its article.
pub proof fn lemma_inserted_as_latest(s: StoreView, articles: int, row: RevisionView)
    requires
        consistent(s),
        row.latest,
        row.sequence_number == next_sequence_number(s.rows),
        row.revision == count_article(s.rows, row.article_id) + 1,
    ensures
        stored_as_latest(s, inserted(s, articles, row), row),
{
    let t = inserted(s, articles, row);
    let n = s.rows.len() as int;
    assert forall|i: int| 0 <= i < n implies {
        let before = s.rows[i];
        let after = #[trigger] t.rows[i];
        &&& before.sequence_number < row.sequence_number
        &&& if before.article_id == row.article_id {
            after == (RevisionView { latest: false, ..before }) && before.revision < row.revision
        } else {
            after == before
        }
    } by {
        assert(t.rows[i] == retire(s.rows, row.article_id)[i]);
        assert(s.rows[i].sequence_number <= s.rows[n - 1].sequence_number);
        lemma_revision_range(s, i);
    }
}

/// A store in which a row was stored as the latest revision of its article
/// extends the store before, if it has no fewer articles.
pub proof fn lemma_stored_extends(s: StoreView, t: StoreView, row: RevisionView)
    requires
        stored_as_latest(s, t, row),
        s.articles <= t.articles,
    ensures
        extends(s, t),
{
}

/// Every store extends itself.
pub proof fn lemma_extends_reflexive(s: StoreView)
    ensures
        extends(s, s),
{
}

/// A store that extends one that extends a third extends the third.
pub proof fn lemma_extends_transitive(s: StoreView, t: StoreView, u: StoreView)
    requires
        extends(s, t),
        extends(t, u),
    ensures
        extends(s, u),
{
    assert forall|i: int| 0 <= i < s.rows.len() implies kept(s.rows[i], #[trigger] u.rows[i]) by {
        assert(kept(s.rows[i], t.rows[i]));
        assert(kept(t.rows[i], u.rows[i]));
    }
}

/// One of the two operations that add to the store, with its arguments.
pub enum Operation {
    Create {
        target_slug: Option<Seq<char>>,
        title: Seq<char>,
        body: Seq<char>,
        author: Option<Seq<char>>,
        theme: Theme,
        created: int,
    },
    Update {
        article_id: int,
        base_revision: int,
        title: Seq<char>,
        body: Seq<char>,
        author: Option<Seq<char>>,
        theme: Option<Theme>,
        created: int,
    },
}

/// The store after an operation: as the operation leaves it, which is as
/// it was where the operation is turned down or ends in a conflict.
pub open spec fn after(s: StoreView, op: Operation) -> StoreView {
    match op {
        Operation::Create { target_slug, title, body, author, theme, created } => match create_spec(
            s,
            target_slug,
            title,
            body,
            author,
            theme,
            created,
        ) {
            Ok((t, _)) => t,
            Err(_) => s,
        },
        Operation::Update {
            article_id,
            base_revision,
            title,
            body,
            author,
            theme,
            created,
        } => match update_spec(
            s,
            article_id,
            base_revision,
            title,
            body,
            author,
            theme,
            created,
        ) {
            Ok((t, _)) => t,
            Err(_) => s,
        },
    }
}

/// The store after a number of operations, one after the other.
pub open spec fn after_all(s: StoreView, ops: Seq<Operation>) -> StoreView
    decreases ops.len(),
{
    if ops.len() == 0 {
        s
    } else {
        after(after_all(s, ops.drop_last()), ops.last())
    }
}

/// Whether the rows of a store are numbered as they should be: each
/// belongs to an article that exists, and is the n-th row of its article
/// exactly if its revision is n. Every consistent store is numbered so.
pub open spec fn numbered(s: StoreView) -> bool {
    &&& 0 <= s.articles
    &&& forall|i: int|
        0 <= i < s.rows.len() ==> 1 <= (#[trigger] s.rows[i]).article_id <= s.articles
            && s.rows[i].revision == count_article(s.rows.take(i + 1), s.rows[i].article_id)
}

/// A consistent store is numbered as it should be.
pub proof fn lemma_consistent_numbered(s: StoreView)
    requires
        consistent(s),
    ensures
        numbered(s),
{
    assert forall|i: int| 0 <= i < s.rows.len() implies 1 <= (#[trigger] s.rows[i]).article_id
        <= s.articles && s.rows[i].revision == count_article(
        s.rows.take(i + 1),
        s.rows[i].article_id,
    ) by {
        assert(row_consistent(s, i));
    }
}

/// In a store numbered as it should be, an article and a revision name at
/// most one row.
pub proof fn lemma_numbered_unique(s: StoreView, i: int, j: int)
    requires
        numbered(s),
        0 <= i < s.rows.len(),
        0 <= j < s.rows.len(),
        s.rows[i].article_id == s.rows[j].article_id,
        s.rows[i].revision == s.rows[j].revision,
    ensures
        i == j,
{
    let a = s.rows[i].article_id;
    if i < j {
        let upto = s.rows.take(j + 1);
        assert(upto.take(i + 1) =~= s.rows.take(i + 1));
        assert(upto[j] == s.rows[j]);
        lemma_count_prefix(upto, a, i + 1);
    } else if j < i {
        let upto = s.rows.take(i + 1);
        assert(upto.take(j + 1) =~= s.rows.take(j + 1));
        assert(upto[i] == s.rows[i]);
        lemma_count_prefix(upto, a, j + 1);
    }
}

proof fn lemma_insert_numbered(s: StoreView, articles: int, row: RevisionView)
    requires
        numbered(s),
        row.revision == count_article(s.rows, row.article_id) + 1,
        s.articles <= articles,
        1 <= row.article_id <= articles,
    ensures
        numbered(inserted(s, articles, row)),
{
    let t = inserted(s, articles, row);
    let n = s.rows.len() as int;
    let retired = retire(s.rows, row.article_id);
    assert(t.rows.drop_last() =~= retired);
    assert(t.rows.take(n + 1) =~= t.rows);
    lemma_count_retire(s.rows, row.article_id, row.article_id);
    assert forall|i: int| 0 <= i < t.rows.len() implies 1 <= (#[trigger] t.rows[i]).article_id
        <= t.articles && t.rows[i].revision == count_article(
        t.rows.take(i + 1),
        t.rows[i].article_id,
    ) by {
        if i < n {
            assert(t.rows[i] == retired[i]);
            assert(t.rows.take(i + 1) =~= retire(s.rows.take(i + 1), row.article_id));
            lemma_count_retire(s.rows.take(i + 1), row.article_id, s.rows[i].article_id);
        }
    }
}

/// An operation leaves a store that extends the one it found, and that is
/// numbered as it should be if that one was.
pub proof fn lemma_operation_extends(s: StoreView, op: Operation)
    ensures
        extends(s, after(s, op)),
        numbered(s) ==> numbered(after(s, op)),
{
    let t = after(s, op);
    match op {
        Operation::Create { target_slug, title, body, author, theme, created } => {
            if create_spec(s, target_slug, title, body, author, theme, created) is Ok {
                let row = create_spec(s, target_slug, title, body, author, theme, created)->Ok_0.1;
                assert forall|i: int| 0 <= i < s.rows.len() implies kept(
                    s.rows[i],
                    #[trigger] t.rows[i],
                ) by {
                    assert(t.rows[i] == retire(s.rows, row.article_id)[i]);
                }
                if numbered(s) {
                    lemma_count_zero(s.rows, s.articles + 1);
                    lemma_insert_numbered(s, s.articles + 1, row);
                }
            }
        },
        Operation::Update {
            article_id,
            base_revision,
            title,
            body,
            author,
            theme,
            created,
        } => {
            if update_spec(
                s,
                article_id,
                base_revision,
                title,
                body,
                author,
                theme,
                created,
            ) matches Ok((_, UpdateView::Success(_))) {
                let row = update_spec(
                    s,
                    article_id,
                    base_revision,
                    title,
                    body,
                    author,
                    theme,
                    created,
                )->Ok_0.1->Success_0;
                assert forall|i: int| 0 <= i < s.rows.len() implies kept(
                    s.rows[i],
                    #[trigger] t.rows[i],
                ) by {
                    assert(t.rows[i] == retire(s.rows, article_id)[i]);
                }
                if numbered(s) {
                    let h = head_index(s.rows, article_id);
                    lemma_head_index(s.rows, article_id);
                    lemma_count_prefix(s.rows, article_id, h + 1);
                    lemma_insert_numbered(s, s.articles, row);
                }
            }
        },
    }
}

/// Any number of operations leave a store that extends the one they
/// found, and that is numbered as it should be if that one was.
pub proof fn lemma_history_extends(s: StoreView, ops: Seq<Operation>)
    ensures
        extends(s, after_all(s, ops)),
        numbered(s) ==> numbered(after_all(s, ops)),
    decreases ops.len(),
{
    if ops.len() > 0 {
        let mid = after_all(s, ops.drop_last());
        lemma_history_extends(s, ops.drop_last());
        lemma_operation_extends(mid, ops.last());
        lemma_extends_transitive(s, mid, after(mid, ops.last()));
    }
}

/// A revision reads the same before and after: in a later store an
/// article and a revision name the row that they named before, kept.
pub proof fn lemma_read_again(s: StoreView, t: StoreView, article_id: int, revision: int)
    requires
        numbered(t),
        extends(s, t),
        has_revision(s.rows, article_id, revision),
    ensures
        has_revision(t.rows, article_id, revision),
        kept(revision_row(s.rows, article_id, revision), revision_row(t.rows, article_id, revision)),
{
    let i = revision_index(s.rows, article_id, revision);
    assert(kept(s.rows[i], t.rows[i]));
    assert(is_revision(t.rows, i, article_id, revision));
    let j = revision_index(t.rows, article_id, revision);
    lemma_numbered_unique(t, i, j);
}

/// Revision immutability: whatever operations run on a consistent store,
/// and however many, a revision that the store held reads afterwards as
/// it read before, but for the latest flag, which may have been cleared.
pub proof fn lemma_revisions_immutable(
    s: StoreView,
    ops: Seq<Operation>,
    article_id: int,
    revision: int,
)
    requires
        consistent(s),
        has_revision(s.rows, article_id, revision),
    ensures
        has_revision(after_all(s, ops).rows, article_id, revision),
        kept(
            revision_row(s.rows, article_id, revision),
            revision_row(after_all(s, ops).rows, article_id, revision),
        ),
{
    lemma_consistent_numbered(s);
    lemma_history_extends(s, ops);
    lemma_read_again(s, after_all(s, ops), article_id, revision);
}

} // verus!
