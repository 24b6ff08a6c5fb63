//! A store from rows that were kept elsewhere: taken only if they are
//! consistent.

use vstd::prelude::*;
use super::table::{
    consistent,
    count_article,
    is_slug_char,
    row_consistent,
    rows_view,
    url_safe,
    StoreView,
};
use crate::strings::chars_of;
use super::SyncState;
use crate::models::ArticleRevision;

verus! {

/// The store that a number of articles and a list of rows describe.
pub open spec fn store_of(articles: i32, revisions: Seq<ArticleRevision>) -> StoreView {
    StoreView { articles: articles as int, rows: rows_view(revisions) }
}

/// Number of rows of the article among the first `upto` rows.
fn count_rows(revisions: &Vec<ArticleRevision>, upto: usize, article_id: i32) -> (n: usize)
    requires
        upto <= revisions.len(),
    ensures
        n == count_article(rows_view(revisions@).take(upto as int), article_id as int),
        n <= upto,
{
    let ghost rows = rows_view(revisions@);
    let mut n: usize = 0;
    let mut k: usize = 0;
    assert(rows.take(0) =~= Seq::empty());
    while k < upto
        invariant
            k <= upto <= revisions.len(),
            rows == rows_view(revisions@),
            n <= k,
            n == count_article(rows.take(k as int), article_id as int),
        decreases upto - k,
    {
        proof {
            assert(rows.take(k + 1).drop_last() =~= rows.take(k as int));
            assert(rows.take(k + 1).last() == revisions@[k as int]@);
        }
        if revisions[k].article_id == article_id {
            n += 1;
        }
        k += 1;
    }
    n
}

/// Whether a text can stand in a URL as it is.
pub fn is_url_safe(slug: &str) -> (r: bool)
    ensures
        r == url_safe(slug@),
{
    let chars = chars_of(slug);
    let mut i: usize = 0;
    while i < chars.len()
        invariant
            i <= chars.len(),
            chars@ == slug@,
            forall|k: int| 0 <= k < i ==> is_slug_char(#[trigger] chars@[k]),
        decreases chars.len() - i,
    {
        if !slug_char(chars[i]) {
            return false;
        }
        i += 1;
    }
    true
}

/// Whether a character may stand in a slug.
fn slug_char(c: char) -> (r: bool)
    ensures
        r == is_slug_char(c),
{
    let n = c as u32;
    (0x61 <= n && n <= 0x7a) || (0x30 <= n && n <= 0x39) || n == 0x2d
}

/// Whether the row at `i` is consistent with the rest of the table.
fn row_holds(articles: i32, revisions: &Vec<ArticleRevision>, i: usize) -> (r: bool)
    requires
        i < revisions.len(),
    ensures
        r == row_consistent(store_of(articles, revisions@), i as int),
{
    let ghost rows = rows_view(revisions@);
    assert(rows.take(revisions.len() as int) =~= rows);
    let row = &revisions[i];
    if row.article_id < 1 || row.article_id > articles || row.sequence_number < 1
        || row.title.as_str().is_empty() || row.revision < 0 || !is_url_safe(row.slug.as_str()) {
        return false;
    }
    let revision = row.revision as usize;
    let before = count_rows(revisions, i + 1, row.article_id);
    let all = count_rows(revisions, revisions.len(), row.article_id);
    revision == before && row.latest == (revision == all)
}

/// Whether the sequence numbers grow from row to row.
fn sequence_grows(revisions: &Vec<ArticleRevision>) -> (r: bool)
    ensures
        r == (forall|i: int, j: int|
            0 <= i < j < revisions@.len() ==> (#[trigger] rows_view(revisions@)[i]).sequence_number
                < (#[trigger] rows_view(revisions@)[j]).sequence_number),
{
    let ghost rows = rows_view(revisions@);
    let mut k: usize = 1;
    while k < revisions.len()
        invariant
            1 <= k,
            rows == rows_view(revisions@),
            forall|i: int, j: int|
                0 <= i < j < k && j < rows.len() ==> (#[trigger] rows[i]).sequence_number < (
                #[trigger] rows[j]).sequence_number,
        decreases revisions.len() - k,
    {
        if revisions[k - 1].sequence_number >= revisions[k].sequence_number {
            assert(!(rows[k - 1].sequence_number < rows[k as int].sequence_number));
            return false;
        }
        assert forall|i: int, j: int| 0 <= i < j < k + 1 && j < rows.len() implies (
        #[trigger] rows[i]).sequence_number < (#[trigger] rows[j]).sequence_number by {
            if j == k && i < k - 1 {
                assert(rows[i].sequence_number < rows[k - 1].sequence_number);
            }
        }
        k += 1;
    }
    true
}

/// Whether no two latest rows have the same slug.
fn latest_slugs_differ(revisions: &Vec<ArticleRevision>) -> (r: bool)
    ensures
        r == (forall|i: int, j: int|
            0 <= i < j < revisions@.len() && (#[trigger] rows_view(revisions@)[i]).latest && (
            #[trigger] rows_view(revisions@)[j]).latest ==> rows_view(revisions@)[i].slug
                != rows_view(revisions@)[j].slug),
{
    let ghost rows = rows_view(revisions@);
    let mut j: usize = 0;
    while j < revisions.len()
        invariant
            j <= revisions.len(),
            rows == rows_view(revisions@),
            forall|a: int, b: int|
                0 <= a < b < j && (#[trigger] rows[a]).latest && (#[trigger] rows[b]).latest
                    ==> rows[a].slug != rows[b].slug,
        decreases revisions.len() - j,
    {
        if revisions[j].latest {
            let mut i: usize = 0;
            while i < j
                invariant
                    i <= j < revisions.len(),
                    rows == rows_view(revisions@),
                    rows[j as int].latest,
                    forall|a: int|
                        0 <= a < i && (#[trigger] rows[a]).latest ==> rows[a].slug
                            != rows[j as int].slug,
                decreases j - i,
            {
                if revisions[i].latest && revisions[i].slug == revisions[j].slug {
                    assert(rows[i as int].latest && rows[j as int].latest);
                    assert(rows[i as int].slug == rows[j as int].slug);
                    return false;
                }
                i += 1;
            }
        }
        j += 1;
    }
    true
}

/// Whether the rows of each article stand in the order of their times.
fn times_grow(revisions: &Vec<ArticleRevision>) -> (r: bool)
    ensures
        r == (forall|i: int, j: int|
            0 <= i < j < revisions@.len() && (#[trigger] rows_view(revisions@)[i]).article_id == (
            #[trigger] rows_view(revisions@)[j]).article_id ==> rows_view(revisions@)[i].created
                <= rows_view(revisions@)[j].created),
{
    let ghost rows = rows_view(revisions@);
    let mut j: usize = 0;
    while j < revisions.len()
        invariant
            j <= revisions.len(),
            rows == rows_view(revisions@),
            forall|a: int, b: int|
                0 <= a < b < j && (#[trigger] rows[a]).article_id == (#[trigger] rows[b]).article_id
                    ==> rows[a].created <= rows[b].created,
        decreases revisions.len() - j,
    {
        let mut i: usize = 0;
        while i < j
            invariant
                i <= j < revisions.len(),
                rows == rows_view(revisions@),
                forall|a: int|
                    0 <= a < i && (#[trigger] rows[a]).article_id == rows[j as int].article_id
                        ==> rows[a].created <= rows[j as int].created,
            decreases j - i,
        {
            if revisions[i].article_id == revisions[j].article_id && revisions[i].created
                > revisions[j].created {
                assert(rows[i as int].article_id == rows[j as int].article_id);
                assert(!(rows[i as int].created <= rows[j as int].created));
                return false;
            }
            i += 1;
        }
        j += 1;
    }
    true
}

/// Whether every article up to the given number has a row.
fn articles_have_rows(articles: i32, revisions: &Vec<ArticleRevision>) -> (r: bool)
    requires
        0 <= articles,
    ensures
        r == (forall|a: int|
            1 <= a <= articles ==> #[trigger] count_article(rows_view(revisions@), a) >= 1),
{
    let ghost rows = rows_view(revisions@);
    assert(rows.take(revisions.len() as int) =~= rows);
    let mut a: i32 = 1;
    while a <= articles
        invariant
            1 <= a,
            a <= articles + 1,
            rows == rows_view(revisions@),
            rows.take(revisions.len() as int) == rows,
            forall|x: int| 1 <= x < a ==> #[trigger] count_article(rows, x) >= 1,
        decreases articles + 1 - a,
    {
        if count_rows(revisions, revisions.len(), a) == 0 {
            assert(!(count_article(rows, a as int) >= 1));
            return false;
        }
        if a == i32::MAX {
            return true;
        }
        a += 1;
    }
    true
}

/// Whether a number of articles and a list of rows make a consistent
/// store.
pub fn is_consistent(articles: i32, revisions: &Vec<ArticleRevision>) -> (r: bool)
    ensures
        r == consistent(store_of(articles, revisions@)),
{
    if articles < 0 {
        return false;
    }
    let ghost s = store_of(articles, revisions@);
    let mut i: usize = 0;
    while i < revisions.len()
        invariant
            i <= revisions.len(),
            s == store_of(articles, revisions@),
            forall|k: int| 0 <= k < i ==> #[trigger] row_consistent(s, k),
        decreases revisions.len() - i,
    {
        if !row_holds(articles, revisions, i) {
            return false;
        }
        i += 1;
    }
    sequence_grows(revisions) && latest_slugs_differ(revisions) && times_grow(revisions)
        && articles_have_rows(articles, revisions)
}

impl SyncState {
    /// The store with the given number of articles and the given rows, if
    /// they are consistent.
    pub fn from_rows(articles: i32, revisions: Vec<ArticleRevision>) -> (r: Option<SyncState>)
        ensures
            match r {
                Some(state) => state.wf() && state@ == store_of(articles, revisions@),
                None => !consistent(store_of(articles, revisions@)),
            },
    {
        if is_consistent(articles, &revisions) {
            Some(SyncState::assemble(articles, revisions))
        } else {
            None
        }
    }
}

} // verus!
