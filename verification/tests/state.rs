use sausagewiki::merge::{MergeResult, Output};
use sausagewiki::models::{ArticleRevision, ArticleRevisionStub};
use sausagewiki::pagination::Pagination;
use sausagewiki::state::load::{is_consistent, is_url_safe};
use sausagewiki::state::query::{changes_query, RevisionQuery, SortBy};
use sausagewiki::state::titles::{sort_by_title, title_le};
use sausagewiki::state::rebase::{merge_themes, RebaseConflict, RebaseResult};
use sausagewiki::state::slug::{allocate_slug, decide_slug, normalize_slug};
use sausagewiki::state::{Error, ErrorKind, SlugLookup, SyncState, UpdateResult};
use sausagewiki::theme::Theme;

fn unwrap(result: UpdateResult) -> ArticleRevision {
    match result {
        UpdateResult::Success(x) => x,
        _ => panic!("Expected success"),
    }
}

fn seeded(titles: &[&str]) -> (SyncState, Vec<ArticleRevision>) {
    let mut state = SyncState::new();
    let mut stored = vec![];
    for (i, title) in titles.iter().enumerate() {
        stored.push(
            state
                .create_article(None, title.to_string(), "Body".into(), None, Theme::Cyan, i as i64)
                .unwrap(),
        );
    }
    (state, stored)
}

#[test]
fn get_article_slug() {
    let state = SyncState::new();
    assert!(matches!(state.get_article_slug(0), Ok(None)));
}

#[test]
fn create_article() {
    let mut state = SyncState::new();
    let article_revision = state
        .create_article(None, "Title".into(), "Body".into(), None, Theme::Cyan, 0)
        .unwrap();
    assert_eq!("title", article_revision.slug);
    assert!(article_revision.latest);
    assert_eq!(Theme::Cyan, article_revision.theme);
}

#[test]
fn create_article_when_empty_slug_then_empty_slug() {
    // Front page gets to keep its empty slug
    let mut state = SyncState::new();
    let article_revision = state
        .create_article(
            Some("".into()),
            "Title".into(),
            "Body".into(),
            None,
            Theme::Cyan,
            0,
        )
        .unwrap();
    assert_eq!("", article_revision.slug);
}

#[test]
fn update_article() {
    let mut state = SyncState::new();

    let article = state
        .create_article(None, "Title".into(), "Body".into(), None, Theme::Cyan, 0)
        .unwrap();

    let new_revision = unwrap(
        state
            .update_article(
                article.article_id,
                article.revision,
                article.title.clone(),
                "New body".into(),
                None,
                Some(Theme::BlueGray),
                1,
            )
            .unwrap(),
    );

    assert_eq!(article.article_id, new_revision.article_id);

    // Revision numbers must actually be sequential:
    assert_eq!(article.revision + 1, new_revision.revision);

    assert_eq!(article.title, new_revision.title);

    // Slug must remain unchanged when the title is unchanged:
    assert_eq!(article.slug, new_revision.slug);

    assert_eq!("New body", new_revision.body);
    assert_eq!(Theme::BlueGray, new_revision.theme);
}

#[test]
fn update_article_when_sequential_edits_then_last_wins() {
    let mut state = SyncState::new();

    let article = state
        .create_article(None, "Title".into(), "Body".into(), None, Theme::Cyan, 0)
        .unwrap();

    let first_edit = unwrap(
        state
            .update_article(
                article.article_id,
                article.revision,
                article.title.clone(),
                "New body".into(),
                None,
                Some(Theme::Blue),
                1,
            )
            .unwrap(),
    );
    let second_edit = unwrap(
        state
            .update_article(
                article.article_id,
                first_edit.revision,
                article.title,
                "Newer body".into(),
                None,
                Some(Theme::Amber),
                2,
            )
            .unwrap(),
    );

    assert_eq!("Newer body", second_edit.body);
    assert_eq!(Theme::Amber, second_edit.theme);
}

#[test]
fn update_article_when_edit_conflict_then_merge() {
    let mut state = SyncState::new();

    let article = state
        .create_article(None, "Title".into(), "a\nb\nc\n".into(), None, Theme::Cyan, 0)
        .unwrap();

    let first_edit = unwrap(
        state
            .update_article(
                article.article_id,
                article.revision,
                article.title.clone(),
                "a\nx\nb\nc\n".into(),
                None,
                Some(Theme::Blue),
                1,
            )
            .unwrap(),
    );
    let second_edit = unwrap(
        state
            .update_article(
                article.article_id,
                article.revision,
                article.title.clone(),
                "a\nb\ny\nc\n".into(),
                None,
                Some(Theme::Amber),
                2,
            )
            .unwrap(),
    );

    assert!(article.revision < first_edit.revision);
    assert!(first_edit.revision < second_edit.revision);

    assert_eq!("a\nx\nb\ny\nc\n", second_edit.body);
    assert_eq!(Theme::Amber, second_edit.theme);
}

#[test]
fn update_article_when_edit_conflict_then_rebase_over_multiple_revisions() {
    let mut state = SyncState::new();

    let article = state
        .create_article(None, "Title".into(), "a\nb\nc\n".into(), None, Theme::Cyan, 0)
        .unwrap();

    let edit = unwrap(
        state
            .update_article(
                article.article_id,
                article.revision,
                article.title.clone(),
                "a\nx1\nb\nc\n".into(),
                None,
                Some(article.theme),
                1,
            )
            .unwrap(),
    );
    let edit = unwrap(
        state
            .update_article(
                article.article_id,
                edit.revision,
                article.title.clone(),
                "a\nx1\nx2\nb\nc\n".into(),
                None,
                Some(article.theme),
                2,
            )
            .unwrap(),
    );
    let edit = unwrap(
        state
            .update_article(
                article.article_id,
                edit.revision,
                article.title.clone(),
                "a\nx1\nx2\nx3\nb\nc\n".into(),
                None,
                Some(article.theme),
                3,
            )
            .unwrap(),
    );

    let rebase_edit = unwrap(
        state
            .update_article(
                article.article_id,
                article.revision,
                article.title.clone(),
                "a\nb\ny\nc\n".into(),
                None,
                Some(article.theme),
                4,
            )
            .unwrap(),
    );

    assert!(article.revision < edit.revision);
    assert!(edit.revision < rebase_edit.revision);

    assert_eq!("a\nx1\nx2\nx3\nb\ny\nc\n", rebase_edit.body);
}

#[test]
fn update_article_when_title_edit_conflict_then_merge_title() {
    let mut state = SyncState::new();

    let article = state
        .create_article(None, "titlle".into(), "".into(), None, Theme::Cyan, 0)
        .unwrap();

    let first_edit = unwrap(
        state
            .update_article(
                article.article_id,
                article.revision,
                "Titlle".into(),
                article.body.clone(),
                None,
                Some(article.theme),
                1,
            )
            .unwrap(),
    );
    let second_edit = unwrap(
        state
            .update_article(
                article.article_id,
                article.revision,
                "title".into(),
                article.body.clone(),
                None,
                Some(article.theme),
                2,
            )
            .unwrap(),
    );

    assert!(article.revision < first_edit.revision);
    assert!(first_edit.revision < second_edit.revision);

    assert_eq!("Title", second_edit.title);
}

#[test]
fn update_article_when_merge_conflict() {
    let mut state = SyncState::new();

    let article = state
        .create_article(None, "Title".into(), "a".into(), None, Theme::Cyan, 0)
        .unwrap();

    let first_edit = unwrap(
        state
            .update_article(
                article.article_id,
                article.revision,
                article.title.clone(),
                "b".into(),
                None,
                Some(Theme::Blue),
                1,
            )
            .unwrap(),
    );
    let conflict_edit = state
        .update_article(
            article.article_id,
            article.revision,
            article.title.clone(),
            "c".into(),
            None,
            Some(Theme::Amber),
            2,
        )
        .unwrap();

    match conflict_edit {
        UpdateResult::Success(..) => panic!("Expected conflict"),
        UpdateResult::RebaseConflict(RebaseConflict {
            base_article,
            title,
            body,
            theme,
        }) => {
            assert_eq!(first_edit.revision, base_article.revision);
            assert_eq!(title, MergeResult::Clean(article.title));
            assert_eq!(
                body,
                MergeResult::Conflicted(vec![Output::Conflict(vec!["c"], vec!["a"], vec!["b"]),])
                    .into_strings()
            );
            assert_eq!(Theme::Amber, theme);
        }
    };
    assert_eq!(2, state.revisions().len());
}

#[test]
fn update_article_when_theme_conflict_then_ignore_unchanged() {
    let mut state = SyncState::new();

    let article = state
        .create_article(None, "Title".into(), "a\nb\nc\n".into(), None, Theme::Cyan, 0)
        .unwrap();

    let _first_edit = unwrap(
        state
            .update_article(
                article.article_id,
                article.revision,
                article.title.clone(),
                "a\nx\nb\nc\n".into(),
                None,
                Some(Theme::Blue),
                1,
            )
            .unwrap(),
    );
    let second_edit = unwrap(
        state
            .update_article(
                article.article_id,
                article.revision,
                article.title,
                "a\nb\ny\nc\n".into(),
                None,
                Some(Theme::Cyan),
                2,
            )
            .unwrap(),
    );

    assert_eq!(Theme::Blue, second_edit.theme);
}

#[test]
fn update_article_with_no_given_theme_then_theme_unchanged() {
    let mut state = SyncState::new();

    let article = state
        .create_article(None, "Title".into(), "a\nb\nc\n".into(), None, Theme::Cyan, 0)
        .unwrap();

    let edit = unwrap(
        state
            .update_article(
                article.article_id,
                article.revision,
                article.title,
                article.body,
                None,
                None,
                1,
            )
            .unwrap(),
    );

    assert_eq!(Theme::Cyan, edit.theme);
}

#[test]
fn created_revision_reads_back_verbatim() {
    let mut state = SyncState::new();
    let stored = state
        .create_article(
            None,
            "A Title".into(),
            "line one\r\nline two\n".into(),
            Some("ann".into()),
            Theme::Lime,
            1234,
        )
        .unwrap();
    let read = state.get_article_revision(stored.article_id, 1).unwrap().unwrap();
    assert_eq!(stored, read);
    assert_eq!("A Title", read.title);
    assert_eq!("line one\r\nline two\n", read.body);
    assert_eq!(Some("ann".to_string()), read.author);
    assert_eq!(1234, read.created);
    assert_eq!(1, read.revision);
    assert_eq!(1, read.sequence_number);
    assert_eq!(1, read.article_id);
    assert_eq!(Ok(None), state.get_article_revision(stored.article_id, 2));
    assert_eq!(Ok(None), state.get_article_revision(stored.article_id + 1, 1));
    assert_eq!(Ok(Some("a-title".to_string())), state.get_article_slug(1));
}

#[test]
fn empty_title_is_rejected() {
    let mut state = SyncState::new();
    assert_eq!(
        Err(Error::EmptyTitle),
        state.create_article(None, "".into(), "Body".into(), None, Theme::Cyan, 0)
    );
    assert_eq!(0, state.articles());
    let article = state
        .create_article(None, "Title".into(), "Body".into(), None, Theme::Cyan, 0)
        .unwrap();
    let rejected = state.update_article(article.article_id, 1, "".into(), "x".into(), None, None, 1);
    assert_eq!(Err(Error::EmptyTitle), rejected);
    assert_eq!(ErrorKind::DomainRejection, Error::EmptyTitle.kind());
    assert_eq!("title cannot be empty", Error::EmptyTitle.to_string());
    assert_eq!(1, state.revisions().len());
}

#[test]
fn conflicting_title_edits_are_a_conflict_of_characters() {
    let mut state = SyncState::new();
    let article = state
        .create_article(None, "ab".into(), "".into(), None, Theme::Cyan, 0)
        .unwrap();
    unwrap(state.update_article(article.article_id, 1, "a".into(), "".into(), None, None, 1).unwrap());
    match state
        .update_article(article.article_id, 1, "b".into(), "".into(), None, None, 2)
        .unwrap()
    {
        UpdateResult::RebaseConflict(conflict) => {
            assert_eq!(
                MergeResult::Conflicted(vec![Output::Conflict(vec!['b'], vec!['a', 'b'], vec!['a'])]),
                conflict.title
            );
            assert_eq!(MergeResult::Clean("".into()), conflict.body);
            assert_eq!(2, conflict.base_article.revision);
            assert_eq!("<b|a>", conflict.title.flatten());
        }
        UpdateResult::Success(..) => panic!("Expected conflict"),
    }
    assert_eq!(2, state.revisions().len());
}

#[test]
fn future_base_revision_is_rejected() {
    let mut state = SyncState::new();
    let article = state
        .create_article(None, "Title".into(), "Body".into(), None, Theme::Cyan, 0)
        .unwrap();
    let rejected =
        state.update_article(article.article_id, 2, "Title".into(), "x".into(), None, None, 1);
    assert_eq!(Err(Error::FutureRevision), rejected);
    assert_eq!(ErrorKind::DomainRejection, Error::FutureRevision.kind());
    assert_eq!(
        "This edit is based on a future version of the article",
        Error::FutureRevision.to_string()
    );
    assert_eq!(1, state.revisions().len());
}

#[test]
fn update_of_missing_article_is_a_storage_failure() {
    let mut state = SyncState::new();
    let rejected = state.update_article(7, 1, "Title".into(), "x".into(), None, None, 1);
    assert_eq!(Err(Error::NoSuchArticle), rejected);
    assert_eq!(ErrorKind::StorageFailure, Error::NoSuchArticle.kind());
}

#[test]
fn target_slug_of_another_article_is_a_storage_failure() {
    let mut state = SyncState::new();
    state
        .create_article(Some("".into()), "Home".into(), "".into(), None, Theme::Cyan, 0)
        .unwrap();
    let second = state.create_article(Some("".into()), "Other".into(), "".into(), None, Theme::Cyan, 1);
    assert_eq!(Err(Error::SlugTaken), second);
    assert_eq!(ErrorKind::StorageFailure, Error::SlugTaken.kind());
    state
        .create_article(None, "Foo".into(), "".into(), None, Theme::Cyan, 2)
        .unwrap();
    let third = state.create_article(Some("foo".into()), "Foo".into(), "".into(), None, Theme::Cyan, 3);
    assert_eq!(Err(Error::SlugTaken), third);
    assert_eq!(2, state.articles());
    assert_eq!(2, state.revisions().len());
}

#[test]
fn non_overlapping_line_edits_merge_cleanly() {
    let mut state = SyncState::new();
    let seed = state
        .create_article(None, "Title".into(), "a\nb\nc\n".into(), None, Theme::Cyan, 0)
        .unwrap();
    assert_eq!(1, seed.revision);
    let second = unwrap(
        state
            .update_article(seed.article_id, 1, "Title".into(), "a\nx\nb\nc\n".into(), None, None, 1)
            .unwrap(),
    );
    assert_eq!(2, second.revision);
    let third = unwrap(
        state
            .update_article(seed.article_id, 1, "Title".into(), "a\nb\ny\nc\n".into(), None, None, 2)
            .unwrap(),
    );
    assert_eq!("a\nx\nb\ny\nc\n", third.body);
    assert_eq!(3, third.revision);
}

#[test]
fn overlapping_edits_produce_a_conflict() {
    let mut state = SyncState::new();
    let seed = state
        .create_article(None, "Title".into(), "a".into(), None, Theme::Cyan, 0)
        .unwrap();
    let second = unwrap(
        state
            .update_article(seed.article_id, 1, "Title".into(), "b".into(), None, None, 1)
            .unwrap(),
    );
    assert_eq!(2, second.revision);
    match state
        .update_article(seed.article_id, 1, "Title".into(), "c".into(), None, None, 2)
        .unwrap()
    {
        UpdateResult::RebaseConflict(conflict) => {
            assert_eq!(
                MergeResult::Conflicted(vec![Output::Conflict(
                    vec!["c".to_string()],
                    vec!["a".to_string()],
                    vec!["b".to_string()]
                )]),
                conflict.body
            );
            assert_eq!(second.stub(), conflict.base_article);
        }
        UpdateResult::Success(..) => panic!("Expected conflict"),
    }
}

#[test]
fn slug_stability_and_disambiguation() {
    let mut state = SyncState::new();
    let first = state
        .create_article(None, "Foo".into(), "".into(), None, Theme::Cyan, 0)
        .unwrap();
    let second = state
        .create_article(None, "Foo".into(), "".into(), None, Theme::Cyan, 1)
        .unwrap();
    assert_eq!("foo", first.slug);
    assert_eq!("foo-2", second.slug);
    let third = state
        .create_article(None, "Foo".into(), "".into(), None, Theme::Cyan, 2)
        .unwrap();
    assert_eq!("foo-3", third.slug);

    let renamed = unwrap(
        state
            .update_article(first.article_id, 1, "Bar".into(), "".into(), None, None, 3)
            .unwrap(),
    );
    assert_eq!("bar", renamed.slug);
    assert_eq!(
        Ok(SlugLookup::Redirect("bar".into())),
        state.lookup_slug("foo".into())
    );
    assert_eq!(
        Ok(SlugLookup::Hit { article_id: first.article_id, revision: 2 }),
        state.lookup_slug("bar".into())
    );
    assert_eq!(
        Ok(SlugLookup::Hit { article_id: second.article_id, revision: 1 }),
        state.lookup_slug("foo-2".into())
    );
    assert_eq!(Ok(SlugLookup::Miss), state.lookup_slug("baz".into()));

    // The slug that the first article gave up is free again.
    let fourth = state
        .create_article(None, "Foo".into(), "".into(), None, Theme::Cyan, 4)
        .unwrap();
    assert_eq!("foo", fourth.slug);
    assert_eq!(
        Ok(SlugLookup::Hit { article_id: fourth.article_id, revision: 1 }),
        state.lookup_slug("foo".into())
    );
}

#[test]
fn slug_of_a_title_without_letters_is_article() {
    let mut state = SyncState::new();
    let first = state
        .create_article(None, "!!!".into(), "".into(), None, Theme::Cyan, 0)
        .unwrap();
    let second = state
        .create_article(None, "???".into(), "".into(), None, Theme::Cyan, 1)
        .unwrap();
    assert_eq!("article", first.slug);
    assert_eq!("article-2", second.slug);
}

#[test]
fn numbered_candidates_count_in_decimal() {
    let titles = vec!["Foo"; 12];
    let (state, stored) = seeded(&titles);
    assert_eq!("foo-9", stored[8].slug);
    assert_eq!("foo-10", stored[9].slug);
    assert_eq!("foo-12", stored[11].slug);
    assert_eq!(
        Ok("foo-13".to_string()),
        allocate_slug(&state, 13, "", "whatever", None, "foo".into())
    );
    assert_eq!(Ok("foo-13".to_string()), decide_slug(&state, 13, "", "Foo", None));
    assert_eq!(Ok("foo-5".to_string()), decide_slug(&state, 5, "Bar", "Foo", Some("foo-5")));
    assert_eq!(Ok("foo".to_string()), decide_slug(&state, 1, "Bar", "Foo", Some("bar")));
    assert_eq!(Ok("foo-5".to_string()), decide_slug(&state, 5, "Foo", "Foo", Some("foo-5")));
    assert_eq!(Ok("".to_string()), decide_slug(&state, 5, "Foo", "Bar", Some("")));
}

#[test]
fn empty_slug_reservation() {
    let mut state = SyncState::new();
    let home = state
        .create_article(Some("".into()), "Home".into(), "".into(), None, Theme::Cyan, 0)
        .unwrap();
    assert_eq!("", home.slug);
    let renamed = unwrap(
        state
            .update_article(home.article_id, 1, "Welcome".into(), "".into(), None, None, 1)
            .unwrap(),
    );
    assert_eq!("", renamed.slug);
    assert_eq!(".", renamed.link());
}

#[test]
fn sequence_number_pagination() {
    let (state, stored) = seeded(&["One", "Two", "Three", "Four", "Five"]);
    let query = changes_query(Pagination::After(stored[1].sequence_number), None, None, 2);
    let page = state.query_article_revision_stubs(&query).unwrap();
    let expected: Vec<ArticleRevisionStub> = vec![stored[2].stub(), stored[3].stub(), stored[4].stub()];
    assert_eq!(expected, page);

    let query = changes_query(Pagination::Before(stored[3].sequence_number), None, None, 2);
    let page = state.query_article_revision_stubs(&query).unwrap();
    let expected: Vec<ArticleRevisionStub> = vec![stored[2].stub(), stored[1].stub(), stored[0].stub()];
    assert_eq!(expected, page);

    let query = changes_query(Pagination::Unbounded, None, None, 10);
    let page = state.query_article_revision_stubs(&query).unwrap();
    assert_eq!(5, page.len());
    assert_eq!(stored[4].stub(), page[0]);
    assert_eq!(stored[0].stub(), page[4]);
}

#[test]
fn queries_filter_by_article_author_and_latest() {
    let mut state = SyncState::new();
    let a = state
        .create_article(None, "A".into(), "".into(), Some("ann".into()), Theme::Cyan, 0)
        .unwrap();
    let b = state
        .create_article(None, "B".into(), "".into(), Some("bob".into()), Theme::Cyan, 1)
        .unwrap();
    let a2 = unwrap(
        state
            .update_article(a.article_id, 1, "A".into(), "x".into(), Some("bob".into()), None, 2)
            .unwrap(),
    );
    let a3 = unwrap(
        state
            .update_article(a.article_id, 2, "A".into(), "y".into(), None, None, 3)
            .unwrap(),
    );

    let mut query = RevisionQuery::all();
    query.article_id = Some(a.article_id);
    let rows = state.query_article_revision_stubs(&query).unwrap();
    assert_eq!(vec![1, 3, 4], rows.iter().map(|r| r.sequence_number).collect::<Vec<_>>());
    assert_eq!(vec![false, false, true], rows.iter().map(|r| r.latest).collect::<Vec<_>>());

    let mut query = RevisionQuery::all();
    query.author = Some("bob".into());
    query.order = SortBy::SequenceDescending;
    let rows = state.query_article_revision_stubs(&query).unwrap();
    assert_eq!(vec![ArticleRevisionStub { latest: false, ..a2.stub() }, b.stub()], rows);

    let mut query = RevisionQuery::all();
    query.after = Some(1);
    query.before = Some(4);
    query.limit = Some(1);
    let rows = state.query_article_revision_stubs(&query).unwrap();
    assert_eq!(vec![b.stub()], rows);

    let latest = state.get_latest_article_revision_stubs().unwrap();
    assert_eq!(vec![a3.stub(), b.stub()], latest);

    let mut query = RevisionQuery::all();
    query.limit = Some(0);
    assert!(state.query_article_revision_stubs(&query).unwrap().is_empty());
}

#[test]
fn every_article_has_one_latest_revision_and_dense_revisions() {
    let mut state = SyncState::new();
    let a = state
        .create_article(None, "A".into(), "".into(), None, Theme::Cyan, 0)
        .unwrap();
    let b = state
        .create_article(None, "B".into(), "".into(), None, Theme::Cyan, 1)
        .unwrap();
    for n in 1..4 {
        unwrap(
            state
                .update_article(a.article_id, n, "A".into(), format!("{}", n), None, None, 2)
                .unwrap(),
        );
        unwrap(
            state
                .update_article(b.article_id, 1, "B".into(), "b".into(), None, None, 2)
                .unwrap(),
        );
    }
    let rows = state.revisions();
    assert_eq!(8, rows.len());
    for id in [a.article_id, b.article_id] {
        let own: Vec<&ArticleRevision> = rows.iter().filter(|r| r.article_id == id).collect();
        let revisions: Vec<i32> = own.iter().map(|r| r.revision).collect();
        assert_eq!(vec![1, 2, 3, 4], revisions);
        let latest: Vec<i32> = own.iter().filter(|r| r.latest).map(|r| r.revision).collect();
        assert_eq!(vec![4], latest);
    }
    let sequence: Vec<i32> = rows.iter().map(|r| r.sequence_number).collect();
    assert_eq!(vec![1, 2, 3, 4, 5, 6, 7, 8], sequence);
    let first = state.get_article_revision(a.article_id, 1).unwrap().unwrap();
    assert_eq!(ArticleRevision { latest: false, ..a.clone() }, first);
}

#[test]
fn listings_by_title_are_ordered_by_code_points() {
    let (state, stored) = seeded(&["beta", "Alpha", "alpha", "al", "\u{e9}t\u{e9}", "zz", "Alpha"]);
    let mut query = RevisionQuery::all();
    query.order = SortBy::Title;
    let rows = state.query_article_revision_stubs(&query).unwrap();
    let titles: Vec<&str> = rows.iter().map(|r| r.title.as_str()).collect();
    assert_eq!(vec!["Alpha", "Alpha", "al", "alpha", "beta", "zz", "\u{e9}t\u{e9}"], titles);
    // Revisions of one title stay in the order in which they were stored.
    assert_eq!(stored[1].stub(), rows[0]);
    assert_eq!(stored[6].stub(), rows[1]);
    let mut expected: Vec<String> = stored.iter().map(|r| r.title.clone()).collect();
    expected.sort();
    assert_eq!(expected, titles);

    query.limit = Some(3);
    let rows = state.query_article_revision_stubs(&query).unwrap();
    let titles: Vec<&str> = rows.iter().map(|r| r.title.as_str()).collect();
    assert_eq!(vec!["Alpha", "Alpha", "al"], titles);

    assert!(title_le("", ""));
    assert!(title_le("", "a"));
    assert!(!title_le("a", ""));
    assert!(title_le("a", "a"));
    assert!(title_le("a", "ab"));
    assert!(!title_le("ab", "a"));
    assert!(title_le("Z", "a"));
    assert!(!title_le("\u{10000}", "\u{ffff}"));
    assert!(sort_by_title(&vec![]).is_empty());
}

#[test]
fn a_store_is_taken_from_consistent_rows_only() {
    let (state, _) = seeded(&["One", "Two"]);
    let mut state = state;
    unwrap(state.update_article(1, 1, "One".into(), "x".into(), None, None, 5).unwrap());
    let rows: Vec<ArticleRevision> = state.revisions().clone();
    assert!(is_consistent(2, &rows));

    let mut loaded = SyncState::from_rows(2, rows.clone()).unwrap();
    assert_eq!(2, loaded.articles());
    assert_eq!(&rows, loaded.revisions());
    let next = loaded
        .create_article(None, "Three".into(), "".into(), None, Theme::Red, 6)
        .unwrap();
    assert_eq!(3, next.article_id);
    assert_eq!(4, next.sequence_number);

    assert!(SyncState::from_rows(0, vec![]).is_some());
    // An article without a row.
    assert!(SyncState::from_rows(3, rows.clone()).is_none());
    assert!(SyncState::from_rows(1, rows.clone()).is_none());
    assert!(SyncState::from_rows(-1, vec![]).is_none());

    let broken = |change: &dyn Fn(&mut Vec<ArticleRevision>)| {
        let mut rows = rows.clone();
        change(&mut rows);
        SyncState::from_rows(2, rows).is_none()
    };
    // Two latest revisions of one article.
    assert!(broken(&|rows| rows[0].latest = true));
    // No latest revision.
    assert!(broken(&|rows| rows[2].latest = false));
    // A gap in the revisions.
    assert!(broken(&|rows| rows[2].revision = 3));
    // A revision twice.
    assert!(broken(&|rows| rows[2].revision = 1));
    // Sequence numbers out of order.
    assert!(broken(&|rows| rows[1].sequence_number = 3));
    assert!(broken(&|rows| rows[0].sequence_number = 0));
    // A slug on two latest revisions.
    assert!(broken(&|rows| rows[1].slug = "one".into()));
    // An empty title.
    assert!(broken(&|rows| rows[1].title = "".into()));
    // An article that does not exist.
    assert!(broken(&|rows| rows[1].article_id = 3));
    // A slug that cannot stand in a URL.
    assert!(broken(&|rows| rows[1].slug = "Two".into()));
    assert!(broken(&|rows| rows[0].slug = "o ne".into()));
    // The slug of a revision that is not the latest is free.
    assert!(!broken(&|rows| rows[0].slug = "two".into()));
}

#[test]
fn requested_slugs_are_normalized() {
    assert_eq!(None, normalize_slug("some-page"));
    assert_eq!(None, normalize_slug(""));
    assert_eq!(Some("some-page".to_string()), normalize_slug("Some Page"));
    assert_eq!(Some("some-page".to_string()), normalize_slug("some--page"));
}

#[test]
fn slugs_are_url_safe() {
    assert!(is_url_safe(""));
    assert!(is_url_safe("some-page-2"));
    assert!(is_url_safe("azAZ09".to_lowercase().as_str()));
    assert!(!is_url_safe("Some"));
    assert!(!is_url_safe("some page"));
    assert!(!is_url_safe("so/me"));
    assert!(!is_url_safe("caf\u{e9}"));
    assert!(!is_url_safe("a_b"));
    for c in ['`', '{', '/', ':', ',', '.'] {
        assert!(!is_url_safe(&c.to_string()));
    }
    let mut state = SyncState::new();
    for title in ["Caf\u{e9} au lait!", "  --What_ever--  ", "\u{4e2d}\u{6587}", "100%"] {
        let stored = state
            .create_article(Some("Not Safe".into()), title.into(), "".into(), None, Theme::Cyan, 0)
            .unwrap();
        assert!(is_url_safe(&stored.slug), "{:?}", stored.slug);
    }
}

#[test]
fn a_full_store_turns_inserts_down() {
    let row = ArticleRevision {
        sequence_number: i32::MAX,
        article_id: 1,
        revision: 1,
        created: 0,
        slug: "one".into(),
        title: "One".into(),
        body: "".into(),
        latest: true,
        author: None,
        theme: Theme::Red,
    };
    let mut state = SyncState::from_rows(1, vec![row.clone()]).unwrap();
    assert_eq!(
        Err(Error::Exhausted),
        state.create_article(None, "Two".into(), "".into(), None, Theme::Red, 1)
    );
    assert_eq!(
        Err(Error::Exhausted),
        state.update_article(1, 1, "One".into(), "x".into(), None, None, 1)
    );
    assert_eq!(ErrorKind::StorageFailure, Error::Exhausted.kind());
    assert_eq!(&vec![row.clone()], state.revisions());

    let last = ArticleRevision { sequence_number: 1, revision: i32::MAX, ..row };
    assert!(SyncState::from_rows(1, vec![last]).is_none());
}

#[test]
fn the_allocator_looks_only_at_the_slugs_in_use() {
    // Two stores with different histories but the same latest slugs.
    let (short, _) = seeded(&["Foo", "Bar"]);
    let mut long = SyncState::new();
    long.create_article(None, "Old".into(), "".into(), None, Theme::Cyan, 0).unwrap();
    long.create_article(None, "Other".into(), "".into(), None, Theme::Cyan, 0).unwrap();
    unwrap(long.update_article(1, 1, "Foo".into(), "".into(), None, None, 1).unwrap());
    unwrap(long.update_article(2, 1, "Bar".into(), "x".into(), None, None, 1).unwrap());
    unwrap(long.update_article(2, 2, "Bar".into(), "y".into(), None, None, 1).unwrap());

    let cases: Vec<(i32, &str, &str, Option<&str>)> = vec![
        (3, "", "Foo", None),
        (3, "", "Bar", None),
        (3, "", "Baz", None),
        (1, "Foo", "Bar", Some("foo")),
        (1, "Foo", "Foo", Some("foo")),
        (2, "Bar", "Foo", Some("bar")),
        (3, "", "Foo", Some("")),
        (3, "", "Foo", Some("foo")),
        (3, "", "!", None),
    ];
    for (article_id, prev_title, title, prev_slug) in cases {
        let first = decide_slug(&short, article_id, prev_title, title, prev_slug);
        assert_eq!(first, decide_slug(&long, article_id, prev_title, title, prev_slug));
        assert_eq!(first, decide_slug(&short, article_id, prev_title, title, prev_slug));
    }
    assert_eq!(Ok("foo-2".to_string()), decide_slug(&short, 3, "", "Foo", None));
    assert_eq!(Ok("foo".to_string()), decide_slug(&short, 1, "", "Foo", None));
    assert_eq!(Ok("bar-2".to_string()), decide_slug(&long, 1, "Foo", "Bar", Some("foo")));
    assert!(short.slug_in_use(3, "foo"));
    assert!(!short.slug_in_use(1, "foo"));
    assert!(!long.slug_in_use(3, "old"));
}

#[test]
fn rebase_over_revisions_that_changed_nothing_keeps_the_edit() {
    let mut state = SyncState::new();
    let seed = state
        .create_article(None, "Title".into(), "a\nb\n".into(), None, Theme::Cyan, 0)
        .unwrap();
    for n in 1..4 {
        unwrap(
            state
                .update_article(seed.article_id, n, "Title".into(), "a\nb\n".into(), None, None, 1)
                .unwrap(),
        );
    }
    for base in 1..=4 {
        let rebased = state.rebase_update(
            seed.article_id,
            4,
            base,
            "Other title".into(),
            "x\ny".into(),
            Theme::Amber,
        );
        assert_eq!(
            RebaseResult::Clean {
                title: "Other title".into(),
                body: "x\ny".into(),
                theme: Theme::Amber
            },
            rebased
        );
    }
}

#[test]
fn rebase_of_an_edit_that_changed_nothing_gives_the_latest_revision() {
    let mut state = SyncState::new();
    let seed = state
        .create_article(None, "One".into(), "a\nb\n".into(), None, Theme::Cyan, 0)
        .unwrap();
    let texts = [("Two", "a\nb\nc\n", Theme::Blue), ("Three", "x", Theme::Red), ("4", "", Theme::Red)];
    let mut stored = vec![seed];
    for (n, (title, body, theme)) in texts.iter().enumerate() {
        stored.push(unwrap(
            state
                .update_article(1, n as i32 + 1, title.to_string(), body.to_string(), None, Some(*theme), 1)
                .unwrap(),
        ));
    }
    for base in 0..stored.len() {
        for onto in base..stored.len() {
            let rebased = state.rebase_update(
                1,
                onto as i32 + 1,
                base as i32 + 1,
                stored[base].title.clone(),
                stored[base].body.clone(),
                stored[base].theme,
            );
            assert_eq!(
                RebaseResult::Clean {
                    title: stored[onto].title.clone(),
                    body: stored[onto].body.clone(),
                    theme: stored[onto].theme
                },
                rebased
            );
        }
    }
}

#[test]
fn a_rebase_in_two_parts_is_the_rebase_in_one() {
    let mut state = SyncState::new();
    state
        .create_article(None, "Title".into(), "a\nb\nc\n".into(), None, Theme::Cyan, 0)
        .unwrap();
    for (n, body) in ["a\nx1\nb\nc\n", "a\nx1\nx2\nb\nc\n", "a\nx1\nx2\nx3\nb\nc\n"].iter().enumerate() {
        unwrap(
            state
                .update_article(1, n as i32 + 1, "Title".into(), body.to_string(), None, None, 1)
                .unwrap(),
        );
    }
    let whole = state.rebase_update(1, 4, 1, "Title".into(), "a\nb\ny\nc\n".into(), Theme::Lime);
    for mid in 1..=4 {
        match state.rebase_update(1, mid, 1, "Title".into(), "a\nb\ny\nc\n".into(), Theme::Lime) {
            RebaseResult::Clean { title, body, theme } => {
                assert_eq!(whole, state.rebase_update(1, 4, mid, title, body, theme));
            }
            RebaseResult::Conflict(_) => panic!("Expected a clean rebase"),
        }
    }
    assert_eq!(
        RebaseResult::Clean {
            title: "Title".into(),
            body: "a\nx1\nx2\nx3\nb\ny\nc\n".into(),
            theme: Theme::Lime
        },
        whole
    );
}

#[test]
fn the_last_change_of_the_theme_wins() {
    assert_eq!(Theme::Amber, merge_themes(Theme::Amber, Theme::Cyan, Theme::Blue));
    assert_eq!(Theme::Blue, merge_themes(Theme::Cyan, Theme::Cyan, Theme::Blue));
    assert_eq!(Theme::Cyan, merge_themes(Theme::Cyan, Theme::Cyan, Theme::Cyan));
    assert_eq!(Theme::Amber, merge_themes(Theme::Amber, Theme::Cyan, Theme::Amber));
}

#[test]
fn an_empty_title_is_turned_down_whatever_the_base_revision() {
    let mut state = SyncState::new();
    for base in [i32::MIN, -1, 0, 1, 2, i32::MAX] {
        assert_eq!(
            Err(Error::EmptyTitle),
            state.update_article(1, base, "".into(), "x".into(), None, None, 0)
        );
        assert_eq!(
            Err(Error::NoSuchArticle),
            state.update_article(1, base, "Title".into(), "x".into(), None, None, 0)
        );
    }
    state
        .create_article(None, "Title".into(), "Body".into(), None, Theme::Cyan, 0)
        .unwrap();
    let before: Vec<ArticleRevision> = state.revisions().clone();
    for base in [i32::MIN, -1, 0, 1, 2, i32::MAX] {
        assert_eq!(
            Err(Error::EmptyTitle),
            state.update_article(1, base, "".into(), "x".into(), None, None, 0)
        );
        assert_eq!(
            Err(Error::NoSuchArticle),
            state.update_article(2, base, "Title".into(), "x".into(), None, None, 0)
        );
    }
    assert_eq!(&before, state.revisions());
}

#[test]
fn a_stored_revision_is_the_only_latest_one_of_its_article() {
    let (mut state, _) = seeded(&["One", "Two", "Three"]);
    for n in 1..4 {
        let before: Vec<ArticleRevision> = state.revisions().clone();
        let stored = unwrap(
            state
                .update_article(2, n, "Two".into(), format!("body {}", n), None, None, 9)
                .unwrap(),
        );
        let after = state.revisions();
        assert_eq!(before.len() + 1, after.len());
        assert_eq!(&stored, after.last().unwrap());
        assert!(stored.latest);
        assert_eq!(n + 1, stored.revision);
        for (old, new) in before.iter().zip(after.iter()) {
            assert!(old.sequence_number < stored.sequence_number);
            if old.article_id == 2 {
                assert_eq!(&ArticleRevision { latest: false, ..old.clone() }, new);
                assert!(old.revision < stored.revision);
            } else {
                assert_eq!(old, new);
            }
        }
    }
}

#[test]
fn revisions_read_the_same_after_any_number_of_operations() {
    let mut state = SyncState::new();
    let mut seen: Vec<ArticleRevision> = vec![];
    let mut step: u32 = 7;
    for round in 0..60 {
        step = step.wrapping_mul(1103515245).wrapping_add(12345);
        let articles = state.articles();
        let pick = (step >> 16) % 5;
        if articles == 0 || pick == 0 {
            let _ = state.create_article(
                if pick == 0 && round % 7 == 0 { Some("".into()) } else { None },
                format!("Title {}", round % 4),
                format!("body {}\n", round),
                None,
                Theme::Cyan,
                round,
            );
        } else {
            let id = 1 + (step >> 8) as i32 % articles;
            let base = 1 + (step >> 4) as i32 % 3;
            let title = if pick == 1 { String::new() } else { format!("Title {}", round % 3) };
            let _ = state.update_article(id, base, title, format!("body {}\n", round), None, None, round);
        }
        for old in &seen {
            let again = state.get_article_revision(old.article_id, old.revision).unwrap().unwrap();
            assert_eq!(ArticleRevision { latest: again.latest, ..old.clone() }, again);
            assert!(!again.latest || old.latest);
        }
        seen = state.revisions().clone();
        assert!(sausagewiki::state::load::is_consistent(state.articles(), state.revisions()));
    }
    assert!(seen.len() > 20);
}

#[test]
fn a_new_slug_is_not_empty_and_not_in_use() {
    let (state, _) = seeded(&["Foo", "Foo", "!!!", "Bar"]);
    for (id, title) in [(5, "Foo"), (5, "???"), (1, "Bar"), (4, "foo 2"), (2, "Article")] {
        let slug = decide_slug(&state, id, "Other", title, Some("other")).unwrap();
        assert!(!slug.is_empty());
        assert!(!state.slug_in_use(id, &slug));
        let slug = decide_slug(&state, id, "", title, None).unwrap();
        assert!(!slug.is_empty());
        assert!(!state.slug_in_use(id, &slug));
    }
}
