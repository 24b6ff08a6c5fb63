//! Listings of revisions: a filter, an order and a limit.

use vstd::prelude::*;
use super::table::rows_view;
use super::{Error, SyncState};
use super::titles::{by_title, sort_by_title};
use crate::models::{
    option_view,
    stub_of,
    stub_views,
    ArticleRevision,
    ArticleRevisionStub,
    RevisionView,
    StubView,
};
use crate::pagination::Pagination;

verus! {

/// The order of a listing.
#[derive(Debug, Clone, Copy, PartialEq, Eq, Structural)]
pub enum SortBy {
    /// By sequence number, oldest first.
    SequenceAscending,
    /// By sequence number, newest first.
    SequenceDescending,
    /// By title; revisions of one title oldest first.
    Title,
}

/// Which revisions a listing holds, in which order, and how many at most.
#[derive(Debug, Clone, PartialEq, Eq)]
pub struct RevisionQuery {
    /// Only revisions of this article.
    pub article_id: Option<i32>,
    /// Only revisions by this author.
    pub author: Option<String>,
    /// Only latest revisions.
    pub latest_only: bool,
    /// Only revisions with a sequence number above this one.
    pub after: Option<i32>,
    /// Only revisions with a sequence number below this one.
    pub before: Option<i32>,
    /// The order of the listing.
    pub order: SortBy,
    /// At most this many revisions.
    pub limit: Option<u32>,
}

/// Mathematical content of a [`RevisionQuery`].
pub struct QueryView {
    pub article_id: Option<int>,
    pub author: Option<Seq<char>>,
    pub latest_only: bool,
    pub after: Option<int>,
    pub before: Option<int>,
    pub order: SortBy,
    pub limit: Option<nat>,
}

/// An optional 32-bit number as an optional integer.
pub open spec fn option_int(x: Option<i32>) -> Option<int> {
    match x {
        Some(n) => Some(n as int),
        None => None,
    }
}

impl View for RevisionQuery {
    type V = QueryView;

    open spec fn view(&self) -> QueryView {
        QueryView {
            article_id: option_int(self.article_id),
            author: option_view(self.author),
            latest_only: self.latest_only,
            after: option_int(self.after),
            before: option_int(self.before),
            order: self.order,
            limit: match self.limit {
                Some(n) => Some(n as nat),
                None => None,
            },
        }
    }
}

/// Whether a revision passes the filter of a query.
pub open spec fn passes(q: QueryView, r: RevisionView) -> bool {
    &&& q.article_id matches Some(id) ==> r.article_id == id
    &&& q.author matches Some(author) ==> r.author == Some(author)
    &&& q.latest_only ==> r.latest
    &&& q.after matches Some(bound) ==> r.sequence_number > bound
    &&& q.before matches Some(bound) ==> r.sequence_number < bound
}

/// The revisions that pass the filter, without their bodies, in the order
/// of the table.
pub open spec fn selected(rows: Seq<RevisionView>, q: QueryView) -> Seq<StubView>
    decreases rows.len(),
{
    if rows.len() == 0 {
        Seq::empty()
    } else if passes(q, rows.last()) {
        selected(rows.drop_last(), q).push(stub_of(rows.last()))
    } else {
        selected(rows.drop_last(), q)
    }
}

/// The first `limit` items of a listing, or all if there is no limit.
pub open spec fn limited<A>(items: Seq<A>, limit: Option<nat>) -> Seq<A> {
    match limit {
        Some(n) => if n < items.len() {
            items.take(n as int)
        } else {
            items
        },
        None => items,
    }
}

/// The listing that a query asks for: the revisions that pass its filter,
/// in its order, cut at its limit.
pub open spec fn query_spec(rows: Seq<RevisionView>, q: QueryView) -> Seq<StubView> {
    let hits = selected(rows, q);
    limited(
        match q.order {
            SortBy::SequenceAscending => hits,
            SortBy::SequenceDescending => hits.reverse(),
            SortBy::Title => by_title(hits),
        },
        q.limit,
    )
}

/// The query behind a page of changes: the filter by article and author,
/// the page's bound and order, and one row more than the page holds, by
/// which the caller sees whether another page follows.
pub open spec fn changes_query_spec(
    pagination: Pagination<i32>,
    article_id: Option<i32>,
    author: Option<String>,
    limit: i32,
) -> QueryView {
    QueryView {
        article_id: option_int(article_id),
        author: option_view(author),
        latest_only: false,
        after: match pagination {
            Pagination::After(x) => Some(x as int),
            _ => None,
        },
        before: match pagination {
            Pagination::Before(x) => Some(x as int),
            _ => None,
        },
        order: if pagination is After {
            SortBy::SequenceAscending
        } else {
            SortBy::SequenceDescending
        },
        limit: Some((limit + 1) as nat),
    }
}

/// The query behind a page of changes.
pub fn changes_query(
    pagination: Pagination<i32>,
    article_id: Option<i32>,
    author: Option<String>,
    limit: i32,
) -> (q: RevisionQuery)
    requires
        0 <= limit,
    ensures
        q@ == changes_query_spec(pagination, article_id, author, limit),
{
    let limit: u32 = limit as u32;
    let rows: u32 = limit + 1;
    match pagination {
        Pagination::After(x) => RevisionQuery {
            article_id,
            author,
            latest_only: false,
            after: Some(x),
            before: None,
            order: SortBy::SequenceAscending,
            limit: Some(rows),
        },
        Pagination::Before(x) => RevisionQuery {
            article_id,
            author,
            latest_only: false,
            after: None,
            before: Some(x),
            order: SortBy::SequenceDescending,
            limit: Some(rows),
        },
        Pagination::Unbounded => RevisionQuery {
            article_id,
            author,
            latest_only: false,
            after: None,
            before: None,
            order: SortBy::SequenceDescending,
            limit: Some(rows),
        },
    }
}

/// What passes the filter in a table made of two parts is what passes in
/// the first, then what passes in the second.
pub proof fn lemma_selected_concat(a: Seq<RevisionView>, b: Seq<RevisionView>, q: QueryView)
    ensures
        selected(a + b, q) == selected(a, q) + selected(b, q),
    decreases b.len(),
{
    if b.len() == 0 {
        assert(a + b =~= a);
        assert(selected(a, q) + selected(b, q) =~= selected(a, q));
    } else {
        lemma_selected_concat(a, b.drop_last(), q);
        assert((a + b).drop_last() =~= a + b.drop_last());
        assert((a + b).last() == b.last());
        if passes(q, b.last()) {
            assert(selected(a + b, q) =~= selected(a, q) + selected(b, q));
        }
    }
}

proof fn lemma_selected_single(r: RevisionView, q: QueryView)
    ensures
        selected(seq![r], q) == if passes(q, r) {
            seq![stub_of(r)]
        } else {
            Seq::<StubView>::empty()
        },
{
    let none = Seq::<RevisionView>::empty();
    assert(seq![r].drop_last() =~= none);
    assert(seq![r].last() == r);
    assert(selected(none, q) =~= Seq::<StubView>::empty());
    if passes(q, r) {
        assert(selected(seq![r], q) =~= seq![stub_of(r)]);
    }
}

/// Whether an optional author is the given one.
fn same_author(wanted: &String, author: &Option<String>) -> (r: bool)
    ensures
        r == (option_view(*author) == Some(wanted@)),
{
    match author {
        Some(a) => *a == *wanted,
        None => false,
    }
}

impl RevisionQuery {
    /// A query for every revision, oldest first.
    pub fn all() -> (q: RevisionQuery)
        ensures
            q@ == (QueryView {
                article_id: None,
                author: None,
                latest_only: false,
                after: None,
                before: None,
                order: SortBy::SequenceAscending,
                limit: None,
            }),
    {
        RevisionQuery {
            article_id: None,
            author: None,
            latest_only: false,
            after: None,
            before: None,
            order: SortBy::SequenceAscending,
            limit: None,
        }
    }

    /// Whether a revision passes the filter.
    pub fn admits(&self, row: &ArticleRevision) -> (r: bool)
        ensures
            r == passes(self@, row@),
    {
        if let Some(id) = self.article_id {
            if row.article_id != id {
                return false;
            }
        }
        if let Some(author) = &self.author {
            if !same_author(author, &row.author) {
                return false;
            }
        }
        if self.latest_only && !row.latest {
            return false;
        }
        if let Some(bound) = self.after {
            if row.sequence_number <= bound {
                return false;
            }
        }
        if let Some(bound) = self.before {
            if row.sequence_number >= bound {
                return false;
            }
        }
        true
    }

    /// Whether a listing of the given length has reached the limit.
    fn full(&self, len: usize) -> (r: bool)
        ensures
            r == (self@.limit matches Some(n) && n <= len),
    {
        match self.limit {
            Some(n) => n as usize <= len,
            None => false,
        }
    }
}

/// The first stubs of a listing, up to a limit.
fn cut(stubs: Vec<ArticleRevisionStub>, limit: Option<u32>) -> (out: Vec<ArticleRevisionStub>)
    ensures
        stub_views(out@) == limited(
            stub_views(stubs@),
            match limit {
                Some(n) => Some(n as nat),
                None => None,
            },
        ),
{
    match limit {
        Some(n) => {
            if (n as usize) < stubs.len() {
                let mut out = stubs;
                out.truncate(n as usize);
                assert(stub_views(out@) =~= stub_views(stubs@).take(n as int));
                out
            } else {
                stubs
            }
        },
        None => stubs,
    }
}

impl SyncState {
    /// The revisions that pass the query's filter, oldest first, up to the
    /// query's limit.
    fn oldest_first(&self, query: &RevisionQuery) -> (out: Vec<ArticleRevisionStub>)
        ensures
            stub_views(out@) == limited(selected(self@.rows, query@), query@.limit),
    {
        let rows = self.revisions();
        let ghost table = self@.rows;
        let ghost q = query@;
        let mut out: Vec<ArticleRevisionStub> = Vec::new();
        let mut i: usize = 0;
        assert(table.take(0) =~= Seq::empty());
        assert(stub_views(out@) =~= selected(table.take(0), q));
        while i < rows.len() && !query.full(out.len())
            invariant
                i <= rows.len(),
                table == rows_view(rows@),
                q == query@,
                stub_views(out@) == selected(table.take(i as int), q),
                q.limit matches Some(n) ==> out.len() <= n,
            decreases rows.len() - i,
        {
            proof {
                assert(table.take(i + 1).drop_last() =~= table.take(i as int));
                assert(table.take(i + 1).last() == rows@[i as int]@);
            }
            let ghost before = stub_views(out@);
            if query.admits(&rows[i]) {
                out.push(rows[i].stub());
                assert(stub_views(out@) =~= before.push(stub_of(table[i as int])));
            }
            i += 1;
        }
        proof {
            let head = selected(table.take(i as int), q);
            let tail = selected(table.skip(i as int), q);
            assert(table.take(i as int) + table.skip(i as int) =~= table);
            lemma_selected_concat(table.take(i as int), table.skip(i as int), q);
            if i == rows.len() {
                assert(table.skip(i as int) =~= Seq::empty());
                assert(head + tail =~= head);
            } else {
                assert((head + tail).take(out.len() as int) =~= head);
            }
        }
        out
    }

    /// The revisions that pass the query's filter, newest first, up to the
    /// query's limit.
    fn newest_first(&self, query: &RevisionQuery) -> (out: Vec<ArticleRevisionStub>)
        ensures
            stub_views(out@) == limited(selected(self@.rows, query@).reverse(), query@.limit),
    {
        let rows = self.revisions();
        let ghost table = self@.rows;
        let ghost q = query@;
        let mut out: Vec<ArticleRevisionStub> = Vec::new();
        let mut i: usize = rows.len();
        assert(table.skip(i as int) =~= Seq::empty());
        assert(stub_views(out@) =~= selected(table.skip(i as int), q).reverse());
        while i > 0 && !query.full(out.len())
            invariant
                i <= rows.len(),
                table == rows_view(rows@),
                q == query@,
                stub_views(out@) == selected(table.skip(i as int), q).reverse(),
                q.limit matches Some(n) ==> out.len() <= n,
            decreases i,
        {
            proof {
                let row = table[i - 1];
                assert(seq![row] + table.skip(i as int) =~= table.skip(i - 1));
                lemma_selected_concat(seq![row], table.skip(i as int), q);
                lemma_selected_single(row, q);
            }
            let ghost before = stub_views(out@);
            if query.admits(&rows[i - 1]) {
                out.push(rows[i - 1].stub());
                proof {
                    let rest = selected(table.skip(i as int), q);
                    let stub = stub_of(table[i - 1]);
                    assert(stub_views(out@) =~= before.push(stub));
                    assert((seq![stub] + rest).reverse() =~= rest.reverse().push(stub));
                }
            } else {
                assert(Seq::<StubView>::empty() + selected(table.skip(i as int), q) =~= selected(
                    table.skip(i as int),
                    q,
                ));
            }
            i -= 1;
        }
        proof {
            let head = selected(table.take(i as int), q);
            let tail = selected(table.skip(i as int), q);
            assert(table.take(i as int) + table.skip(i as int) =~= table);
            lemma_selected_concat(table.take(i as int), table.skip(i as int), q);
            assert((head + tail).reverse() =~= tail.reverse() + head.reverse());
            if i == 0 {
                assert(table.take(0) =~= Seq::empty());
                assert(tail.reverse() + head.reverse() =~= tail.reverse());
            } else {
                assert((tail.reverse() + head.reverse()).take(out.len() as int)
                    =~= tail.reverse());
            }
        }
        out
    }

    /// The listing that the query asks for.
    pub fn query_article_revision_stubs(&self, query: &RevisionQuery) -> (r: Result<
        Vec<ArticleRevisionStub>,
        Error,
    >)
        ensures
            r matches Ok(stubs) && stub_views(stubs@) == query_spec(self@.rows, query@),
    {
        match query.order {
            SortBy::SequenceAscending => Ok(self.oldest_first(query)),
            SortBy::SequenceDescending => Ok(self.newest_first(query)),
            SortBy::Title => {
                let unlimited = RevisionQuery {
                    article_id: query.article_id,
                    author: crate::models::duplicate_option(&query.author),
                    latest_only: query.latest_only,
                    after: query.after,
                    before: query.before,
                    order: SortBy::SequenceAscending,
                    limit: None,
                };
                let hits = self.oldest_first(&unlimited);
                assert(selected(self@.rows, unlimited@) == selected(self@.rows, query@)) by {
                    lemma_selected_same_filter(self@.rows, unlimited@, query@);
                }
                Ok(cut(sort_by_title(&hits), query.limit))
            },
        }
    }

    /// The latest revision of every article, in the order of their titles.
    pub fn get_latest_article_revision_stubs(&self) -> (r: Result<Vec<ArticleRevisionStub>, Error>)
        ensures
            r matches Ok(stubs) && stub_views(stubs@) == by_title(
                selected(
                    self@.rows,
                    QueryView {
                        article_id: None,
                        author: None,
                        latest_only: true,
                        after: None,
                        before: None,
                        order: SortBy::Title,
                        limit: None,
                    },
                ),
            ),
    {
        let mut query = RevisionQuery::all();
        query.latest_only = true;
        query.order = SortBy::Title;
        self.query_article_revision_stubs(&query)
    }
}

/// What passes a filter does not depend on the order and the limit of the
/// query.
proof fn lemma_selected_same_filter(rows: Seq<RevisionView>, p: QueryView, q: QueryView)
    requires
        p.article_id == q.article_id,
        p.author == q.author,
        p.latest_only == q.latest_only,
        p.after == q.after,
        p.before == q.before,
    ensures
        selected(rows, p) == selected(rows, q),
    decreases rows.len(),
{
    if rows.len() > 0 {
        lemma_selected_same_filter(rows.drop_last(), p, q);
    }
}

} // verus!
