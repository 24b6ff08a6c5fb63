//! The article-revision store: the revision table as a value, with the
//! operations that read it and the two that add to it.
//!
//! The store decides; it does not keep. Whoever keeps the rows, in a
//! database or elsewhere, reads them into a store with
//! [`SyncState::from_rows`], lets an operation run, and writes the row that
//! the operation stored, all inside one transaction of its own.

pub mod free;
pub mod history;
pub mod lemmas;
pub mod load;
pub mod query;
pub mod rebase;
pub mod slug;
pub mod table;
pub mod titles;

use vstd::prelude::*;
use crate::models::{option_view, ArticleRevision, RevisionView};
use crate::theme::Theme;
use self::history::{
    after,
    extends,
    lemma_inserted_as_latest,
    lemma_stored_extends,
    stored_as_latest,
    Operation,
};
use self::rebase::{rebase_spec, ConflictView, RebaseConflict, RebaseResult, RebaseView};
use self::slug::{decide_slug, decide_slug_spec};
use self::table::{
    consistent,
    count_article,
    inserted,
    lemma_count_prefix,
    lemma_count_zero,
    lemma_insert_consistent,
    next_sequence_number,
    retire,
    rows_view,
    row_consistent,
    StoreView,
};

verus! {

/// Why the store turned an operation down.
#[derive(Debug, Clone, Copy, PartialEq, Eq, Structural)]
pub enum Error {
    /// The title to be stored is empty.
    EmptyTitle,
    /// The edit is based on a revision that the article does not have yet.
    FutureRevision,
    /// There is no article of the given id.
    NoSuchArticle,
    /// The latest revision of another article has the slug asked for.
    SlugTaken,
    /// A sequence number, a revision, an article id or a slug's number
    /// would leave the range of a 32-bit integer.
    Exhausted,
}

/// The kinds of failure that a caller tells apart.
#[derive(Debug, Clone, Copy, PartialEq, Eq, Structural)]
pub enum ErrorKind {
    /// The request itself is at fault.
    DomainRejection,
    /// The table cannot take the row.
    StorageFailure,
}

impl Error {
    /// The kind of the failure.
    pub open spec fn kind_spec(self) -> ErrorKind {
        match self {
            Error::EmptyTitle | Error::FutureRevision => ErrorKind::DomainRejection,
            Error::NoSuchArticle | Error::SlugTaken | Error::Exhausted => ErrorKind::StorageFailure,
        }
    }

    /// The kind of the failure.
    pub fn kind(self) -> (kind: ErrorKind)
        ensures
            kind == self.kind_spec(),
    {
        match self {
            Error::EmptyTitle | Error::FutureRevision => ErrorKind::DomainRejection,
            Error::NoSuchArticle | Error::SlugTaken | Error::Exhausted => ErrorKind::StorageFailure,
        }
    }

    /// A short message for the client.
    pub fn to_string(&self) -> (message: String)
        ensures
            message@ == match *self {
                Error::EmptyTitle => "title cannot be empty"@,
                Error::FutureRevision => "This edit is based on a future version of the article"@,
                Error::NoSuchArticle => "no such article"@,
                Error::SlugTaken => "the slug is taken by another article"@,
                Error::Exhausted => "the store is full"@,
            },
    {
        match self {
            Error::EmptyTitle => "title cannot be empty".to_owned(),
            Error::FutureRevision => "This edit is based on a future version of the article".to_owned(),
            Error::NoSuchArticle => "no such article".to_owned(),
            Error::SlugTaken => "the slug is taken by another article".to_owned(),
            Error::Exhausted => "the store is full".to_owned(),
        }
    }
}

/// What a slug names.
#[derive(Debug, Clone, PartialEq, Eq)]
pub enum SlugLookup {
    /// No revision ever had the slug.
    Miss,
    /// The slug of an article's latest revision.
    Hit { article_id: i32, revision: i32 },
    /// A slug that an article had once: its slug now.
    Redirect(String),
}

/// Mathematical content of a [`SlugLookup`].
pub enum LookupView {
    Miss,
    Hit { article_id: int, revision: int },
    Redirect(Seq<char>),
}

impl View for SlugLookup {
    type V = LookupView;

    open spec fn view(&self) -> LookupView {
        match self {
            SlugLookup::Miss => LookupView::Miss,
            SlugLookup::Hit { article_id, revision } => LookupView::Hit {
                article_id: *article_id as int,
                revision: *revision as int,
            },
            SlugLookup::Redirect(slug) => LookupView::Redirect(slug@),
        }
    }
}

/// Outcome of an update that the store did not turn down.
#[derive(Debug, PartialEq)]
pub enum UpdateResult {
    /// The edit, rebased onto the latest revision, is the new latest
    /// revision.
    Success(ArticleRevision),
    /// The edit conflicts with a revision stored since its base; nothing
    /// was stored.
    RebaseConflict(RebaseConflict),
}

/// Mathematical content of an [`UpdateResult`].
pub enum UpdateView {
    Success(RevisionView),
    RebaseConflict(ConflictView),
}

impl View for UpdateResult {
    type V = UpdateView;

    open spec fn view(&self) -> UpdateView {
        match self {
            UpdateResult::Success(x) => UpdateView::Success(x@),
            UpdateResult::RebaseConflict(x) => UpdateView::RebaseConflict(x@),
        }
    }
}

/// The row that an insert adds: the next sequence number, flagged latest.
pub open spec fn new_row(
    rows: Seq<RevisionView>,
    article_id: int,
    revision: int,
    created: int,
    slug: Seq<char>,
    title: Seq<char>,
    body: Seq<char>,
    author: Option<Seq<char>>,
    theme: Theme,
) -> RevisionView {
    RevisionView {
        sequence_number: next_sequence_number(rows),
        article_id,
        revision,
        created,
        slug,
        title,
        body,
        latest: true,
        author,
        theme,
    }
}

/// What creating an article does: the store after it and the revision
/// stored, or the reason why nothing was stored.
///
/// An empty title is turned down. The article gets the next id and its
/// first revision the slug that the allocator decides from the target
/// slug, unless the latest revision of another article has that slug. In a
/// consistent store the allocator always decides on one
/// ([`free::lemma_allocator_finds`]).
pub open spec fn create_spec(
    s: StoreView,
    target_slug: Option<Seq<char>>,
    title: Seq<char>,
    body: Seq<char>,
    author: Option<Seq<char>>,
    theme: Theme,
    created: int,
) -> Result<(StoreView, RevisionView), Error> {
    if title.len() == 0 {
        Err(Error::EmptyTitle)
    } else if s.articles >= i32::MAX || next_sequence_number(s.rows) > i32::MAX {
        Err(Error::Exhausted)
    } else {
        let article_id = s.articles + 1;
        match decide_slug_spec(s.rows, article_id, Seq::empty(), title, target_slug) {
            None => Err(Error::Exhausted),
            Some(slug) => if table::slug_in_use(s.rows, article_id, slug) {
                Err(Error::SlugTaken)
            } else {
                let row = new_row(s.rows, article_id, 1, created, slug, title, body, author, theme);
                Ok((inserted(s, article_id, row), row))
            },
        }
    }
}

/// What updating an article does: the store after it and the outcome, or
/// the reason why the update was turned down.
///
/// An empty title, an article that does not exist and a base revision
/// beyond the latest are turned down. The edit, with the latest theme if it
/// names none, is rebased from its base onto the latest revision. A
/// conflict leaves the store as it is. A clean rebase is stored as the next
/// revision, under the slug that the allocator decides from the latest
/// title and slug, and with the given time or, if that is earlier, the time
/// of the latest revision.
pub open spec fn update_spec(
    s: StoreView,
    article_id: int,
    base_revision: int,
    title: Seq<char>,
    body: Seq<char>,
    author: Option<Seq<char>>,
    theme: Option<Theme>,
    created: int,
) -> Result<(StoreView, UpdateView), Error> {
    let h = head_index(s.rows, article_id);
    if title.len() == 0 {
        Err(Error::EmptyTitle)
    } else if h < 0 {
        Err(Error::NoSuchArticle)
    } else if base_revision > s.rows[h].revision {
        Err(Error::FutureRevision)
    } else {
        let head = s.rows[h];
        let theme = match theme {
            Some(t) => t,
            None => head.theme,
        };
        match rebase_spec(s.rows, article_id, base_revision, head.revision, title, body, theme) {
            RebaseView::Conflict(c) => Ok((s, UpdateView::RebaseConflict(c))),
            RebaseView::Clean { title, body, theme } => if head.revision >= i32::MAX
                || next_sequence_number(s.rows) > i32::MAX {
                Err(Error::Exhausted)
            } else {
                match decide_slug_spec(s.rows, article_id, head.title, title, Some(head.slug)) {
                    None => Err(Error::Exhausted),
                    Some(slug) => {
                        let row = new_row(
                            s.rows,
                            article_id,
                            head.revision + 1,
                            if created < head.created {
                                head.created
                            } else {
                                created
                            },
                            slug,
                            title,
                            body,
                            author,
                            theme,
                        );
                        Ok((inserted(s, s.articles, row), UpdateView::Success(row)))
                    },
                }
            },
        }
    }
}

/// Position of the last row of the article, or -1 if it has none.
pub open spec fn head_index(rows: Seq<RevisionView>, article_id: int) -> int
    decreases rows.len(),
{
    if rows.len() == 0 {
        -1
    } else if rows.last().article_id == article_id {
        rows.len() - 1
    } else {
        head_index(rows.drop_last(), article_id)
    }
}

/// Position of the last row with the slug, or -1 if there is none.
pub open spec fn last_slug_index(rows: Seq<RevisionView>, slug: Seq<char>) -> int
    decreases rows.len(),
{
    if rows.len() == 0 {
        -1
    } else if rows.last().slug == slug {
        rows.len() - 1
    } else {
        last_slug_index(rows.drop_last(), slug)
    }
}

/// What a slug names: nothing if no row has it; else, by the last row that
/// has it, that row's article if the row is the article's latest, and
/// otherwise the slug of the article's latest row.
pub open spec fn lookup_spec(rows: Seq<RevisionView>, slug: Seq<char>) -> LookupView {
    let i = last_slug_index(rows, slug);
    if i < 0 {
        LookupView::Miss
    } else if rows[i].latest {
        LookupView::Hit { article_id: rows[i].article_id, revision: rows[i].revision }
    } else {
        LookupView::Redirect(rows[head_index(rows, rows[i].article_id)].slug)
    }
}

/// The last row of an article lies in the table, belongs to the article and
/// no row of the article follows it; there is none exactly if the article
/// has no row.
pub proof fn lemma_head_index(rows: Seq<RevisionView>, article_id: int)
    ensures
        -1 <= head_index(rows, article_id) < rows.len(),
        head_index(rows, article_id) >= 0 ==> rows[head_index(rows, article_id)].article_id
            == article_id,
        forall|j: int|
            head_index(rows, article_id) < j < rows.len() ==> (#[trigger] rows[j]).article_id
                != article_id,
        head_index(rows, article_id) < 0 <==> count_article(rows, article_id) == 0,
    decreases rows.len(),
{
    if rows.len() > 0 {
        let init = rows.drop_last();
        lemma_head_index(init, article_id);
        if rows.last().article_id != article_id {
            assert forall|j: int| head_index(rows, article_id) < j < rows.len() implies (
            #[trigger] rows[j]).article_id != article_id by {
                if j < rows.len() - 1 {
                    assert(init[j] == rows[j]);
                }
            }
        }
    }
}

/// In a consistent table the last row of an article is its latest
/// revision, and its revision is the number of the article's rows.
pub proof fn lemma_head_is_latest(s: StoreView, article_id: int)
    requires
        consistent(s),
        head_index(s.rows, article_id) >= 0,
    ensures
        s.rows[head_index(s.rows, article_id)].latest,
        s.rows[head_index(s.rows, article_id)].revision == count_article(s.rows, article_id),
        forall|i: int|
            0 <= i < s.rows.len() && (#[trigger] s.rows[i]).article_id == article_id
                && s.rows[i].latest ==> i == head_index(s.rows, article_id),
{
    lemma_head_index(s.rows, article_id);
    let h = head_index(s.rows, article_id);
    assert(row_consistent(s, h));
    lemma_count_prefix(s.rows, article_id, h + 1);
    assert forall|i: int|
        0 <= i < s.rows.len() && (#[trigger] s.rows[i]).article_id == article_id
            && s.rows[i].latest implies i == h by {
        assert(row_consistent(s, i));
        if i < h {
            assert(s.rows[h].article_id == article_id);
            lemma_count_prefix(s.rows, article_id, i + 1);
        }
    }
}

/// The revision table and the number of articles.
pub struct SyncState {
    articles: i32,
    revisions: Vec<ArticleRevision>,
}

impl View for SyncState {
    type V = StoreView;

    closed spec fn view(&self) -> StoreView {
        StoreView { articles: self.articles as int, rows: rows_view(self.revisions@) }
    }
}

impl SyncState {
    /// Whether the store is consistent. Every operation keeps it so.
    pub open spec fn wf(&self) -> bool {
        consistent(self@)
    }

    /// A store without articles.
    pub fn new() -> (state: SyncState)
        ensures
            state.wf(),
            state@.articles == 0,
            state@.rows.len() == 0,
    {
        SyncState { articles: 0, revisions: Vec::new() }
    }

    /// A store of the given parts.
    pub(crate) fn assemble(articles: i32, revisions: Vec<ArticleRevision>) -> (state: SyncState)
        ensures
            state@ == (StoreView { articles: articles as int, rows: rows_view(revisions@) }),
    {
        SyncState { articles, revisions }
    }

    /// Number of articles.
    pub fn articles(&self) -> (n: i32)
        ensures
            n == self@.articles,
    {
        self.articles
    }

    /// All revisions, in the order in which they were stored.
    pub fn revisions(&self) -> (rows: &Vec<ArticleRevision>)
        ensures
            rows_view(rows@) == self@.rows,
    {
        &self.revisions
    }

    /// Position of the article's last row.
    fn head(&self, article_id: i32) -> (r: Option<usize>)
        ensures
            match r {
                Some(h) => h == head_index(self@.rows, article_id as int),
                None => head_index(self@.rows, article_id as int) < 0,
            },
            r matches Some(h) ==> h < self.revisions.len() && self.revisions[h as int].article_id
                == article_id,
    {
        let ghost rows = self@.rows;
        let mut i: usize = self.revisions.len();
        assert(rows.take(i as int) =~= rows);
        while i > 0
            invariant
                i <= self.revisions.len(),
                rows == self@.rows,
                head_index(rows, article_id as int) == head_index(
                    rows.take(i as int),
                    article_id as int,
                ),
            decreases i,
        {
            proof {
                assert(rows.take(i as int).drop_last() =~= rows.take(i - 1));
                assert(rows.take(i as int).last() == self.revisions@[i - 1]@);
            }
            if self.revisions[i - 1].article_id == article_id {
                return Some(i - 1);
            }
            i -= 1;
        }
        None
    }

    /// Position of the last row of an article that has a row at `at`.
    fn last_of(&self, article_id: i32, at: usize) -> (h: usize)
        requires
            at < self.revisions.len(),
            self.revisions[at as int].article_id == article_id,
        ensures
            h == head_index(self@.rows, article_id as int),
            h < self.revisions.len(),
    {
        let ghost rows = self@.rows;
        let mut i: usize = self.revisions.len();
        assert(rows.take(i as int) =~= rows);
        while self.revisions[i - 1].article_id != article_id
            invariant
                at < i <= self.revisions.len(),
                self.revisions[at as int].article_id == article_id,
                rows == self@.rows,
                head_index(rows, article_id as int) == head_index(
                    rows.take(i as int),
                    article_id as int,
                ),
            decreases i,
        {
            proof {
                assert(rows.take(i as int).drop_last() =~= rows.take(i - 1));
                assert(rows.take(i as int).last() == self.revisions@[i - 1]@);
            }
            i -= 1;
        }
        proof {
            assert(rows.take(i as int).last() == self.revisions@[i - 1]@);
        }
        i - 1
    }

    /// Slug of the article's latest revision.
    pub fn get_article_slug(&self, article_id: i32) -> (r: Result<Option<String>, Error>)
        ensures
            r matches Ok(slug) && match slug {
                Some(s) => head_index(self@.rows, article_id as int) >= 0 && s@
                    == self@.rows[head_index(self@.rows, article_id as int)].slug,
                None => head_index(self@.rows, article_id as int) < 0,
            },
    {
        match self.head(article_id) {
            Some(h) => Ok(Some(self.revisions[h].slug.clone())),
            None => Ok(None),
        }
    }

    /// Position of the row of the given article and revision.
    fn find(&self, article_id: i32, revision: i32) -> (r: Option<usize>)
        ensures
            match r {
                Some(i) => table::is_revision(self@.rows, i as int, article_id as int, revision as int),
                None => !table::has_revision(self@.rows, article_id as int, revision as int),
            },
    {
        let mut i: usize = 0;
        while i < self.revisions.len()
            invariant
                i <= self.revisions.len(),
                forall|k: int|
                    0 <= k < i ==> !table::is_revision(
                        self@.rows,
                        k,
                        article_id as int,
                        revision as int,
                    ),
            decreases self.revisions.len() - i,
        {
            if self.revisions[i].article_id == article_id && self.revisions[i].revision
                == revision {
                return Some(i);
            }
            i += 1;
        }
        None
    }

    /// The stored revision of the given article and number.
    pub(crate) fn stored(&self, article_id: i32, revision: i32) -> (row: &ArticleRevision)
        requires
            self.wf(),
            table::has_revision(self@.rows, article_id as int, revision as int),
        ensures
            row@ == table::revision_row(self@.rows, article_id as int, revision as int),
            row@.title.len() > 0,
    {
        let ghost at = table::revision_index(self@.rows, article_id as int, revision as int);
        let mut i: usize = 0;
        while self.revisions[i].article_id != article_id || self.revisions[i].revision != revision
            invariant
                0 <= i <= at < self.revisions.len(),
                table::is_revision(self@.rows, at, article_id as int, revision as int),
            decreases self.revisions.len() - i,
        {
            i += 1;
        }
        proof {
            table::lemma_revision_row(self@, i as int);
            assert(row_consistent(self@, i as int));
        }
        &self.revisions[i]
    }

    /// The revision of the given article and number, if there is one.
    pub fn get_article_revision(&self, article_id: i32, revision: i32) -> (r: Result<
        Option<ArticleRevision>,
        Error,
    >)
        requires
            self.wf(),
        ensures
            r matches Ok(found) && match found {
                Some(row) => table::has_revision(self@.rows, article_id as int, revision as int)
                    && row@ == table::revision_row(self@.rows, article_id as int, revision as int),
                None => !table::has_revision(self@.rows, article_id as int, revision as int),
            },
    {
        match self.find(article_id, revision) {
            Some(i) => {
                proof {
                    table::lemma_revision_row(self@, i as int);
                }
                Ok(Some(self.revisions[i].duplicate()))
            },
            None => Ok(None),
        }
    }

    /// Whether the latest revision of another article has the slug.
    pub fn slug_in_use(&self, article_id: i32, slug: &str) -> (r: bool)
        ensures
            r == table::slug_in_use(self@.rows, article_id as int, slug@),
    {
        let mut i: usize = 0;
        while i < self.revisions.len()
            invariant
                i <= self.revisions.len(),
                forall|k: int|
                    0 <= k < i ==> !((#[trigger] self@.rows[k]).latest && self@.rows[k].article_id
                        != article_id && self@.rows[k].slug == slug@),
            decreases self.revisions.len() - i,
        {
            let row = &self.revisions[i];
            if row.latest && row.article_id != article_id && *row.slug.as_str() == *slug {
                assert(self@.rows[i as int].latest);
                return true;
            }
            i += 1;
        }
        false
    }

    /// What the slug names.
    pub fn lookup_slug(&self, slug: String) -> (r: Result<SlugLookup, Error>)
        ensures
            r matches Ok(found) && found@ == lookup_spec(self@.rows, slug@),
    {
        let ghost rows = self@.rows;
        let mut i: usize = self.revisions.len();
        assert(rows.take(i as int) =~= rows);
        while i > 0
            invariant
                i <= self.revisions.len(),
                rows == self@.rows,
                last_slug_index(rows, slug@) == last_slug_index(rows.take(i as int), slug@),
            decreases i,
        {
            proof {
                assert(rows.take(i as int).drop_last() =~= rows.take(i - 1));
                assert(rows.take(i as int).last() == self.revisions@[i - 1]@);
            }
            let row = &self.revisions[i - 1];
            if row.slug == slug {
                if row.latest {
                    return Ok(SlugLookup::Hit { article_id: row.article_id, revision: row.revision });
                }
                let h = self.last_of(row.article_id, i - 1);
                return Ok(SlugLookup::Redirect(self.revisions[h].slug.clone()));
            }
            i -= 1;
        }
        Ok(SlugLookup::Miss)
    }
}

impl SyncState {
    /// The sequence number for the next row, if there is one left.
    fn next_sequence(&self) -> (r: Option<i32>)
        requires
            self.wf(),
        ensures
            match r {
                Some(n) => n == next_sequence_number(self@.rows),
                None => next_sequence_number(self@.rows) > i32::MAX,
            },
    {
        let n = self.revisions.len();
        if n == 0 {
            Some(1)
        } else {
            assert(self@.rows.last() == self.revisions@[n - 1]@);
            let last = self.revisions[n - 1].sequence_number;
            if last == i32::MAX {
                None
            } else {
                Some(last + 1)
            }
        }
    }

    /// Appends a row after retiring the latest row of its article, if the
    /// article has one.
    fn insert(&mut self, articles: i32, head: Option<usize>, row: ArticleRevision)
        requires
            old(self).wf(),
            row@.title.len() > 0,
            table::url_safe(row@.slug),
            row@.latest,
            row@.sequence_number == next_sequence_number(old(self)@.rows),
            row@.revision == count_article(old(self)@.rows, row@.article_id) + 1,
            !table::slug_in_use(old(self)@.rows, row@.article_id, row@.slug),
            forall|i: int|
                0 <= i < old(self)@.rows.len() && (#[trigger] old(self)@.rows[i]).article_id
                    == row@.article_id ==> old(self)@.rows[i].created <= row@.created,
            (1 <= row@.article_id <= old(self)@.articles && articles == old(self)@.articles) || (
            row@.article_id == old(self)@.articles + 1 && articles == row@.article_id),
            match head {
                Some(h) => h == head_index(old(self)@.rows, row@.article_id),
                None => head_index(old(self)@.rows, row@.article_id) < 0,
            },
        ensures
            final(self).wf(),
            final(self)@ == inserted(old(self)@, articles as int, row@),
            stored_as_latest(old(self)@, final(self)@, row@),
            extends(old(self)@, final(self)@),
    {
        let ghost before = self@;
        let ghost a = row@.article_id;
        proof {
            lemma_insert_consistent(before, articles as int, row@);
            lemma_inserted_as_latest(before, articles as int, row@);
            lemma_stored_extends(before, inserted(before, articles as int, row@), row@);
            lemma_head_index(before.rows, a);
            if head_index(before.rows, a) >= 0 {
                lemma_head_is_latest(before, a);
            } else {
                lemma_count_zero(before.rows, a);
            }
        }
        match head {
            Some(h) => {
                let mut retired = self.revisions[h].duplicate();
                retired.latest = false;
                self.revisions.set(h, retired);
            },
            None => {},
        }
        proof {
            assert forall|i: int| 0 <= i < before.rows.len() implies rows_view(self.revisions@)[i]
                == retire(before.rows, a)[i] by {
                assert(row_consistent(before, i));
                if before.rows[i].article_id == a && before.rows[i].latest {
                    assert(i == head_index(before.rows, a));
                }
            }
            assert(rows_view(self.revisions@) =~= retire(before.rows, a));
        }
        let ghost retired_rows = rows_view(self.revisions@);
        self.articles = articles;
        self.revisions.push(row);
        proof {
            assert(rows_view(self.revisions@) =~= retired_rows.push(row@));
        }
    }

    /// Creates an article with its first revision: see [`create_spec`].
    ///
    /// The revision is stored as the latest and only revision of a new
    /// article, with a sequence number above all that the store held. No
    /// row that was there changes.
    pub fn create_article(
        &mut self,
        target_slug: Option<String>,
        title: String,
        body: String,
        author: Option<String>,
        theme: Theme,
        created: i64,
    ) -> (r: Result<ArticleRevision, Error>)
        requires
            old(self).wf(),
        ensures
            final(self).wf(),
            match create_spec(
                old(self)@,
                option_view(target_slug),
                title@,
                body@,
                option_view(author),
                theme,
                created as int,
            ) {
                Ok((store, row)) => r matches Ok(stored) && stored@ == row && final(self)@ == store,
                Err(e) => r == Err::<ArticleRevision, Error>(e) && final(self)@ == old(self)@,
            },
            title@.len() == 0 ==> r == Err::<ArticleRevision, Error>(Error::EmptyTitle),
            r == Err::<ArticleRevision, Error>(Error::Exhausted) <==> title@.len() > 0 && (old(
                self,
            )@.articles >= i32::MAX || next_sequence_number(old(self)@.rows) > i32::MAX),
            r is Err ==> final(self)@ == old(self)@,
            r matches Ok(stored) ==> stored_as_latest(old(self)@, final(self)@, stored@)
                && stored@.article_id == old(self)@.articles + 1 && stored@.revision == 1,
            extends(old(self)@, final(self)@),
            final(self)@ == after(
                old(self)@,
                Operation::Create {
                    target_slug: option_view(target_slug),
                    title: title@,
                    body: body@,
                    author: option_view(author),
                    theme,
                    created: created as int,
                },
            ),
    {
        if title.as_str().is_empty() {
            return Err(Error::EmptyTitle);
        }
        if self.articles == i32::MAX {
            return Err(Error::Exhausted);
        }
        let sequence_number = match self.next_sequence() {
            Some(n) => n,
            None => {
                return Err(Error::Exhausted);
            },
        };
        let article_id = self.articles + 1;
        let target: Option<&str> = match &target_slug {
            Some(s) => Some(s.as_str()),
            None => None,
        };
        proof {
            reveal_strlit("");
            assert(""@ =~= Seq::<char>::empty());
        }
        proof {
            free::lemma_rows_below_sequence(self@);
        }
        let slug = match decide_slug(self, article_id, "", title.as_str(), target) {
            Ok(slug) => slug,
            Err(e) => {
                return Err(e);
            },
        };
        if self.slug_in_use(article_id, slug.as_str()) {
            return Err(Error::SlugTaken);
        }
        proof {
            assert forall|i: int| 0 <= i < self@.rows.len() implies (#[trigger] self@.rows[i]).article_id
                != article_id by {
                assert(row_consistent(self@, i));
            }
            lemma_count_zero(self@.rows, article_id as int);
            lemma_head_index(self@.rows, article_id as int);
        }
        let row = ArticleRevision {
            sequence_number,
            article_id,
            revision: 1,
            created,
            slug,
            title,
            body,
            latest: true,
            author,
            theme,
        };
        let stored = row.duplicate();
        self.insert(article_id, None, row);
        Ok(stored)
    }

    /// Stores an edit of an article as its next revision, rebased onto the
    /// latest one: see [`update_spec`].
    ///
    /// An empty title is turned down whatever else is asked. Where a
    /// revision is stored, it is the article's only latest revision, its
    /// number is one more than the number of the latest before, which has
    /// lost the flag, and its sequence number is above all that the store
    /// held. No other row changes. The base revision has to be 1 or more
    /// where the edit gets as far as the rebase.
    pub fn update_article(
        &mut self,
        article_id: i32,
        base_revision: i32,
        title: String,
        body: String,
        author: Option<String>,
        theme: Option<Theme>,
        created: i64,
    ) -> (r: Result<UpdateResult, Error>)
        requires
            old(self).wf(),
            title@.len() == 0 || head_index(old(self)@.rows, article_id as int) < 0 || 1
                <= base_revision,
        ensures
            final(self).wf(),
            match update_spec(
                old(self)@,
                article_id as int,
                base_revision as int,
                title@,
                body@,
                option_view(author),
                theme,
                created as int,
            ) {
                Ok((store, outcome)) => r matches Ok(u) && u@ == outcome && final(self)@ == store,
                Err(e) => r == Err::<UpdateResult, Error>(e) && final(self)@ == old(self)@,
            },
            title@.len() == 0 ==> r == Err::<UpdateResult, Error>(Error::EmptyTitle),
            title@.len() > 0 && base_revision > count_article(old(self)@.rows, article_id as int)
                >= 1 ==> r == Err::<UpdateResult, Error>(Error::FutureRevision),
            r is Err ==> final(self)@ == old(self)@,
            r matches Ok(UpdateResult::RebaseConflict(_)) ==> final(self)@ == old(self)@,
            r == Err::<UpdateResult, Error>(Error::Exhausted) ==> count_article(
                old(self)@.rows,
                article_id as int,
            ) >= i32::MAX || next_sequence_number(old(self)@.rows) > i32::MAX,
            r matches Ok(UpdateResult::Success(stored)) ==> stored_as_latest(
                old(self)@,
                final(self)@,
                stored@,
            ) && stored@.article_id == article_id && stored@.revision == old(
                self,
            )@.rows[head_index(old(self)@.rows, article_id as int)].revision + 1,
            extends(old(self)@, final(self)@),
            final(self)@ == after(
                old(self)@,
                Operation::Update {
                    article_id: article_id as int,
                    base_revision: base_revision as int,
                    title: title@,
                    body: body@,
                    author: option_view(author),
                    theme,
                    created: created as int,
                },
            ),
    {
        if title.as_str().is_empty() {
            return Err(Error::EmptyTitle);
        }
        proof {
            lemma_head_index(self@.rows, article_id as int);
        }
        let h = match self.head(article_id) {
            Some(h) => h,
            None => {
                return Err(Error::NoSuchArticle);
            },
        };
        proof {
            lemma_head_is_latest(self@, article_id as int);
        }
        let latest_revision = self.revisions[h].revision;
        if base_revision > latest_revision {
            return Err(Error::FutureRevision);
        }
        let theme = match theme {
            Some(t) => t,
            None => self.revisions[h].theme,
        };
        let rebase_result = self.rebase_update(
            article_id,
            latest_revision,
            base_revision,
            title,
            body,
            theme,
        );
        let (title, body, theme) = match rebase_result {
            RebaseResult::Clean { title, body, theme } => (title, body, theme),
            RebaseResult::Conflict(x) => {
                return Ok(UpdateResult::RebaseConflict(x));
            },
        };
        if latest_revision == i32::MAX {
            return Err(Error::Exhausted);
        }
        let sequence_number = match self.next_sequence() {
            Some(n) => n,
            None => {
                return Err(Error::Exhausted);
            },
        };
        let new_revision = latest_revision + 1;
        proof {
            free::lemma_rows_below_sequence(self@);
        }
        let slug = match decide_slug(
            self,
            article_id,
            self.revisions[h].title.as_str(),
            title.as_str(),
            Some(self.revisions[h].slug.as_str()),
        ) {
            Ok(slug) => slug,
            Err(e) => {
                return Err(e);
            },
        };
        let created = if created < self.revisions[h].created {
            self.revisions[h].created
        } else {
            created
        };
        proof {
            slug::lemma_kept_or_free(self@, article_id as int, title@);
            assert(row_consistent(self@, h as int));
            lemma_head_index(self@.rows, article_id as int);
            assert forall|i: int|
                0 <= i < self@.rows.len() && (#[trigger] self@.rows[i]).article_id
                    == article_id implies self@.rows[i].created <= created by {
                if i < h {
                    assert(self@.rows[i].created <= self@.rows[h as int].created);
                }
            }
        }
        let row = ArticleRevision {
            sequence_number,
            article_id,
            revision: new_revision,
            created,
            slug,
            title,
            body,
            latest: true,
            author,
            theme,
        };
        let stored = row.duplicate();
        let articles = self.articles;
        self.insert(articles, Some(h), row);
        Ok(UpdateResult::Success(stored))
    }
}

} // verus!
