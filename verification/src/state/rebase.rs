//! The rebase loop: replays an edit, made against an older revision, over
//! every revision stored since, one three-way merge per step.

use vstd::prelude::*;
use super::table::{
    count_article,
    lemma_revision_exists,
    revision_row,
};
use super::SyncState;
use crate::merge::text::{char_script, has_crlf, line_script};
use crate::merge::{merge_chars, merge_chars_of, merge_lines, merge_lines_of, MergeResult, MergeView};
use crate::models::{stub_of, ArticleRevisionStub, RevisionView, StubView};
use crate::theme::Theme;

verus! {

/// An edit that could not be rebased: the revision at which it stopped and
/// the two merges, at least one of them conflicted.
#[derive(Debug, PartialEq)]
pub struct RebaseConflict {
    pub base_article: ArticleRevisionStub,
    pub title: MergeResult<char>,
    pub body: MergeResult<String>,
    pub theme: Theme,
}

/// Mathematical content of a [`RebaseConflict`].
pub struct ConflictView {
    pub base_article: StubView,
    pub title: MergeView<char>,
    pub body: MergeView<Seq<char>>,
    pub theme: Theme,
}

impl View for RebaseConflict {
    type V = ConflictView;

    open spec fn view(&self) -> ConflictView {
        ConflictView {
            base_article: self.base_article@,
            title: self.title@,
            body: self.body@,
            theme: self.theme,
        }
    }
}

/// Outcome of the rebase loop.
#[derive(Debug, PartialEq)]
pub enum RebaseResult {
    Clean { title: String, body: String, theme: Theme },
    Conflict(RebaseConflict),
}

/// Mathematical content of a [`RebaseResult`].
pub enum RebaseView {
    Clean { title: Seq<char>, body: Seq<char>, theme: Theme },
    Conflict(ConflictView),
}

impl View for RebaseResult {
    type V = RebaseView;

    open spec fn view(&self) -> RebaseView {
        match self {
            RebaseResult::Clean { title, body, theme } => RebaseView::Clean {
                title: title@,
                body: body@,
                theme: *theme,
            },
            RebaseResult::Conflict(c) => RebaseView::Conflict(c@),
        }
    }
}

/// The merge of themes: ours if we changed it, else theirs.
pub open spec fn merge_themes_spec(a: Theme, o: Theme, b: Theme) -> Theme {
    if a != o {
        a
    } else {
        b
    }
}

/// The merge of themes: ours if we changed it, else theirs.
pub fn merge_themes(a: Theme, o: Theme, b: Theme) -> (theme: Theme)
    ensures
        theme == merge_themes_spec(a, o, b),
{
    // Last change wins
    if a == o {
        b
    } else {
        a
    }
}

/// One step of the rebase: the edit merged, title by characters and body
/// by lines, with the revision after `from` against the revision `from`
/// as their ancestor.
pub open spec fn rebase_step(
    rows: Seq<RevisionView>,
    article_id: int,
    from: int,
    title: Seq<char>,
    body: Seq<char>,
    theme: Theme,
) -> RebaseView {
    let o = revision_row(rows, article_id, from);
    let b = revision_row(rows, article_id, from + 1);
    let title_merge = merge_chars_of(char_script(o.title, title), char_script(o.title, b.title));
    let body_merge = merge_lines_of(line_script(o.body, body), line_script(o.body, b.body));
    let theme = merge_themes_spec(theme, o.theme, b.theme);
    match (title_merge, body_merge) {
        (MergeView::Clean(t), MergeView::Clean(bd)) => RebaseView::Clean {
            title: t,
            body: bd,
            theme,
        },
        _ => RebaseView::Conflict(
            ConflictView { base_article: stub_of(b), title: title_merge, body: body_merge, theme },
        ),
    }
}

/// The edit rebased from revision `from` up to revision `to`: step by
/// step while the steps are clean, and the first conflict otherwise.
pub open spec fn rebase_spec(
    rows: Seq<RevisionView>,
    article_id: int,
    from: int,
    to: int,
    title: Seq<char>,
    body: Seq<char>,
    theme: Theme,
) -> RebaseView
    decreases to - from,
{
    if from >= to {
        RebaseView::Clean { title, body, theme }
    } else {
        match rebase_step(rows, article_id, from, title, body, theme) {
            RebaseView::Clean { title, body, theme } => rebase_spec(
                rows,
                article_id,
                from + 1,
                to,
                title,
                body,
                theme,
            ),
            conflict => conflict,
        }
    }
}

/// A rebase over several revisions is the rebase over the first of them,
/// followed, if that is clean, by the rebase of its result over the rest.
pub proof fn lemma_rebase_composes(
    rows: Seq<RevisionView>,
    article_id: int,
    from: int,
    mid: int,
    to: int,
    title: Seq<char>,
    body: Seq<char>,
    theme: Theme,
)
    requires
        from <= mid <= to,
    ensures
        rebase_spec(rows, article_id, from, to, title, body, theme) == match rebase_spec(
            rows,
            article_id,
            from,
            mid,
            title,
            body,
            theme,
        ) {
            RebaseView::Clean { title, body, theme } => rebase_spec(
                rows,
                article_id,
                mid,
                to,
                title,
                body,
                theme,
            ),
            conflict => conflict,
        },
    decreases mid - from,
{
    if from < mid {
        match rebase_step(rows, article_id, from, title, body, theme) {
            RebaseView::Clean { title, body, theme } => {
                lemma_rebase_composes(rows, article_id, from + 1, mid, to, title, body, theme);
            },
            _ => {},
        }
    }
}

/// Whether the revision after `v` changed nothing of revision `v`: not
/// the title, not the body, not the theme.
pub open spec fn step_idle(rows: Seq<RevisionView>, article_id: int, v: int) -> bool {
    let o = revision_row(rows, article_id, v);
    let b = revision_row(rows, article_id, v + 1);
    o.title == b.title && o.body == b.body && o.theme == b.theme
}

/// Whether no revision of the article from `from` up to `to` changed
/// anything of the one before it.
pub open spec fn chain_idle(rows: Seq<RevisionView>, article_id: int, from: int, to: int) -> bool {
    forall|v: int| from <= v < to ==> #[trigger] step_idle(rows, article_id, v)
}

/// Whether no carriage return stands before a newline in the body of
/// revision `v`.
pub open spec fn plain_at(rows: Seq<RevisionView>, article_id: int, v: int) -> bool {
    !has_crlf(revision_row(rows, article_id, v).body)
}

/// Whether in no body of the article's revisions from `from` to `to` a
/// carriage return stands before a newline.
pub open spec fn chain_plain(rows: Seq<RevisionView>, article_id: int, from: int, to: int) -> bool {
    forall|v: int| from <= v <= to ==> #[trigger] plain_at(rows, article_id, v)
}

impl SyncState {
    /// Rebases an edit made against revision `existing_base_revision` onto
    /// revision `target_base_revision` of the article.
    ///
    /// A title that is not empty is not empty after a clean rebase either.
    /// Over revisions that changed nothing, however many, the edit comes
    /// out as it went in; and an edit that changed nothing comes out as
    /// the revision it is rebased onto. Both hold of bodies in which no
    /// carriage return stands before a newline.
    pub fn rebase_update(
        &self,
        article_id: i32,
        target_base_revision: i32,
        existing_base_revision: i32,
        title: String,
        body: String,
        theme: Theme,
    ) -> (r: RebaseResult)
        requires
            self.wf(),
            1 <= existing_base_revision,
            target_base_revision <= count_article(self@.rows, article_id as int),
        ensures
            r@ == rebase_spec(
                self@.rows,
                article_id as int,
                existing_base_revision as int,
                target_base_revision as int,
                title@,
                body@,
                theme,
            ),
            title@.len() > 0 ==> (r matches RebaseResult::Clean { title: rebased, .. }
                ==> rebased@.len() > 0),
            chain_idle(
                self@.rows,
                article_id as int,
                existing_base_revision as int,
                target_base_revision as int,
            ) && !has_crlf(body@) ==> r@ == (RebaseView::Clean { title: title@, body: body@, theme }),
            existing_base_revision <= target_base_revision && chain_plain(
                self@.rows,
                article_id as int,
                existing_base_revision as int,
                target_base_revision as int,
            ) && ({
                let base = revision_row(self@.rows, article_id as int, existing_base_revision as int);
                title@ == base.title && body@ == base.body && theme == base.theme
            }) ==> ({
                let onto = revision_row(self@.rows, article_id as int, target_base_revision as int);
                r@ == (RebaseView::Clean { title: onto.title, body: onto.body, theme: onto.theme })
            }),
    {
        let ghost rows = self@.rows;
        let ghost idle = chain_idle(
            rows,
            article_id as int,
            existing_base_revision as int,
            target_base_revision as int,
        ) && !has_crlf(body@);
        let ghost unedited = existing_base_revision <= target_base_revision && chain_plain(
            rows,
            article_id as int,
            existing_base_revision as int,
            target_base_revision as int,
        ) && ({
            let base = revision_row(rows, article_id as int, existing_base_revision as int);
            title@ == base.title && body@ == base.body && theme == base.theme
        });
        let mut title_a = title;
        let mut body_a = body;
        let mut theme_a = theme;
        let mut revision = existing_base_revision;
        while revision < target_base_revision
            invariant
                self.wf(),
                rows == self@.rows,
                title@.len() > 0 ==> title_a@.len() > 0,
                idle == (chain_idle(
                    rows,
                    article_id as int,
                    existing_base_revision as int,
                    target_base_revision as int,
                ) && !has_crlf(body@)),
                idle ==> title_a@ == title@ && body_a@ == body@ && theme_a == theme,
                unedited == (existing_base_revision <= target_base_revision && chain_plain(
                    rows,
                    article_id as int,
                    existing_base_revision as int,
                    target_base_revision as int,
                ) && ({
                    let base = revision_row(
                        rows,
                        article_id as int,
                        existing_base_revision as int,
                    );
                    title@ == base.title && body@ == base.body && theme == base.theme
                })),
                unedited ==> revision <= target_base_revision && chain_plain(
                    rows,
                    article_id as int,
                    existing_base_revision as int,
                    target_base_revision as int,
                ) && ({
                    let at = revision_row(rows, article_id as int, revision as int);
                    title_a@ == at.title && body_a@ == at.body && theme_a == at.theme
                }),
                1 <= existing_base_revision <= revision,
                target_base_revision <= count_article(self@.rows, article_id as int),
                rebase_spec(
                    self@.rows,
                    article_id as int,
                    existing_base_revision as int,
                    target_base_revision as int,
                    title@,
                    body@,
                    theme,
                ) == rebase_spec(
                    self@.rows,
                    article_id as int,
                    revision as int,
                    target_base_revision as int,
                    title_a@,
                    body_a@,
                    theme_a,
                ),
            decreases target_base_revision - revision,
        {
            proof {
                lemma_revision_exists(self@, article_id as int, revision as int);
                lemma_revision_exists(self@, article_id as int, revision + 1);
            }
            let stored_o = self.stored(article_id, revision);
            let stored_b = self.stored(article_id, revision + 1);
            proof {
                if idle {
                    assert(step_idle(rows, article_id as int, revision as int));
                }
                if unedited {
                    assert(plain_at(rows, article_id as int, revision + 1));
                }
            }

            let title_merge = merge_chars(
                title_a.as_str(),
                stored_o.title.as_str(),
                stored_b.title.as_str(),
            );
            let body_merge = merge_lines(
                body_a.as_str(),
                stored_o.body.as_str(),
                stored_b.body.as_str(),
            );
            let theme = merge_themes(theme_a, stored_o.theme, stored_b.theme);
            match (title_merge, body_merge) {
                (MergeResult::Clean(title), MergeResult::Clean(body)) => {
                    title_a = title;
                    body_a = body;
                    theme_a = theme;
                },
                (title_merge, body_merge) => {
                    return RebaseResult::Conflict(
                        RebaseConflict {
                            base_article: stored_b.stub(),
                            title: title_merge,
                            body: body_merge.to_strings(),
                            theme,
                        },
                    );
                },
            }
            revision += 1;
        }
        RebaseResult::Clean { title: title_a, body: body_a, theme: theme_a }
    }
}

} // verus!
