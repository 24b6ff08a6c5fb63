//! The rows that the store hands out.

use vstd::prelude::*;
use crate::theme::Theme;

verus! {

/// The link under which a slug is reached from the front page: the slug
/// itself, or `.` for the empty slug of the front page.
pub open spec fn slug_link_spec(slug: Seq<char>) -> Seq<char> {
    if slug.len() == 0 {
        "."@
    } else {
        slug
    }
}

/// The link under which a slug is reached from the front page.
pub fn slug_link(slug: &str) -> (link: &str)
    ensures
        link@ == slug_link_spec(slug@),
{
    if slug.is_empty() {
        "."
    } else {
        slug
    }
}

/// One immutable snapshot of an article.
#[derive(Debug, Clone, PartialEq, Eq)]
pub struct ArticleRevision {
    pub sequence_number: i32,
    pub article_id: i32,
    pub revision: i32,
    /// Seconds since the Unix epoch, UTC, at which the revision was stored.
    pub created: i64,
    pub slug: String,
    pub title: String,
    pub body: String,
    pub latest: bool,
    pub author: Option<String>,
    pub theme: Theme,
}

/// Mathematical content of an [`ArticleRevision`].
pub struct RevisionView {
    pub sequence_number: int,
    pub article_id: int,
    pub revision: int,
    pub created: int,
    pub slug: Seq<char>,
    pub title: Seq<char>,
    pub body: Seq<char>,
    pub latest: bool,
    pub author: Option<Seq<char>>,
    pub theme: Theme,
}

/// Content of an optional string.
pub open spec fn option_view(s: Option<String>) -> Option<Seq<char>> {
    match s {
        Some(x) => Some(x@),
        None => None,
    }
}

impl View for ArticleRevision {
    type V = RevisionView;

    open spec fn view(&self) -> RevisionView {
        RevisionView {
            sequence_number: self.sequence_number as int,
            article_id: self.article_id as int,
            revision: self.revision as int,
            created: self.created as int,
            slug: self.slug@,
            title: self.title@,
            body: self.body@,
            latest: self.latest,
            author: option_view(self.author),
            theme: self.theme,
        }
    }
}

/// A copy of an optional string.
pub fn duplicate_option(s: &Option<String>) -> (copy: Option<String>)
    ensures
        copy == *s,
{
    match s {
        Some(x) => Some(x.clone()),
        None => None,
    }
}

impl ArticleRevision {
    pub fn link(&self) -> (link: &str)
        ensures
            link@ == slug_link_spec(self.slug@),
    {
        slug_link(self.slug.as_str())
    }

    /// A copy of the revision.
    pub fn duplicate(&self) -> (copy: ArticleRevision)
        ensures
            copy == *self,
    {
        ArticleRevision {
            sequence_number: self.sequence_number,
            article_id: self.article_id,
            revision: self.revision,
            created: self.created,
            slug: self.slug.clone(),
            title: self.title.clone(),
            body: self.body.clone(),
            latest: self.latest,
            author: duplicate_option(&self.author),
            theme: self.theme,
        }
    }

    /// The revision without its body.
    pub fn stub(&self) -> (stub: ArticleRevisionStub)
        ensures
            stub@ == stub_of(self@),
    {
        ArticleRevisionStub {
            sequence_number: self.sequence_number,
            article_id: self.article_id,
            revision: self.revision,
            created: self.created,
            slug: self.slug.clone(),
            title: self.title.clone(),
            latest: self.latest,
            author: duplicate_option(&self.author),
            theme: self.theme,
        }
    }
}

/// A revision without its body, as listings carry it.
#[derive(Debug, Clone, PartialEq, Eq)]
pub struct ArticleRevisionStub {
    pub sequence_number: i32,
    pub article_id: i32,
    pub revision: i32,
    /// Seconds since the Unix epoch, UTC, at which the revision was stored.
    pub created: i64,
    pub slug: String,
    pub title: String,
    pub latest: bool,
    pub author: Option<String>,
    pub theme: Theme,
}

/// Mathematical content of an [`ArticleRevisionStub`].
pub struct StubView {
    pub sequence_number: int,
    pub article_id: int,
    pub revision: int,
    pub created: int,
    pub slug: Seq<char>,
    pub title: Seq<char>,
    pub latest: bool,
    pub author: Option<Seq<char>>,
    pub theme: Theme,
}

impl View for ArticleRevisionStub {
    type V = StubView;

    open spec fn view(&self) -> StubView {
        StubView {
            sequence_number: self.sequence_number as int,
            article_id: self.article_id as int,
            revision: self.revision as int,
            created: self.created as int,
            slug: self.slug@,
            title: self.title@,
            latest: self.latest,
            author: option_view(self.author),
            theme: self.theme,
        }
    }
}

/// Views of a list of stubs.
pub open spec fn stub_views(stubs: Seq<ArticleRevisionStub>) -> Seq<StubView> {
    stubs.map_values(|s: ArticleRevisionStub| s@)
}

/// A revision's view without the body.
pub open spec fn stub_of(revision: RevisionView) -> StubView {
    StubView {
        sequence_number: revision.sequence_number,
        article_id: revision.article_id,
        revision: revision.revision,
        created: revision.created,
        slug: revision.slug,
        title: revision.title,
        latest: revision.latest,
        author: revision.author,
        theme: revision.theme,
    }
}

impl ArticleRevisionStub {
    pub fn link(&self) -> (link: &str)
        ensures
            link@ == slug_link_spec(self.slug@),
    {
        slug_link(self.slug.as_str())
    }

    /// A copy of the stub.
    pub fn duplicate(&self) -> (copy: ArticleRevisionStub)
        ensures
            copy == *self,
    {
        ArticleRevisionStub {
            sequence_number: self.sequence_number,
            article_id: self.article_id,
            revision: self.revision,
            created: self.created,
            slug: self.slug.clone(),
            title: self.title.clone(),
            latest: self.latest,
            author: duplicate_option(&self.author),
            theme: self.theme,
        }
    }
}

/// One hit of a full-text search.
#[derive(Debug, Clone, PartialEq, Eq)]
pub struct SearchResult {
    pub title: String,
    /// Fragment of the hit's text in HTML, the matched words emphasised.
    pub snippet: String,
    pub slug: String,
}

impl SearchResult {
    pub fn link(&self) -> (link: &str)
        ensures
            link@ == slug_link_spec(self.slug@),
    {
        slug_link(self.slug.as_str())
    }
}

} // verus!
