use sausagewiki::models::SearchResult;
use sausagewiki::search::{fts_query, fts_quote, is_space, split_whitespace, IndexEntry};
use sausagewiki::state::{SyncState, UpdateResult};
use sausagewiki::theme::Theme;

#[test]
fn no_word_matches_the_empty_phrase() {
    assert_eq!("\"\"", fts_query(""));
    assert_eq!("\"\"", fts_query(" \t\n "));
}

#[test]
fn one_word_is_a_prefix_match() {
    assert_eq!("\"sausage\"*", fts_query("sausage"));
    assert_eq!("\"sausage\"*", fts_query("  sausage\n"));
}

#[test]
fn several_words_must_stand_near_one_another() {
    assert_eq!("NEAR(\"sausage\" \"wiki\")", fts_query("sausage wiki"));
    assert_eq!("NEAR(\"a\" \"b\" \"c\")", fts_query("\ta  b\u{3000}c "));
}

#[test]
fn double_quotes_are_doubled() {
    assert_eq!("\"say \"\"hi\"\"\"", fts_quote("say \"hi\""));
    assert_eq!("\"\"", fts_quote(""));
    assert_eq!("NEAR(\"\"\"a\" \"b\"\"\")", fts_query("\"a b\""));
}

#[test]
fn words_are_split_as_the_standard_library_splits_them() {
    for text in ["", "a", " a  b ", "x\u{a0}y\u{2003}z", "tab\tnew\nline\r\n", "é\u{85}ü"] {
        let expected: Vec<Vec<char>> =
            text.split_whitespace().map(|w| w.chars().collect()).collect();
        assert_eq!(expected, split_whitespace(text));
    }
}

#[test]
fn white_space_is_the_unicode_property() {
    for n in 0..=0x10ffffu32 {
        if let Some(c) = char::from_u32(n) {
            assert_eq!(c.is_whitespace(), is_space(c));
        }
    }
}

#[test]
fn search_result_links_by_slug() {
    let hit = SearchResult { title: "Home".into(), snippet: "<em>Home</em>".into(), slug: "".into() };
    assert_eq!(".", hit.link());
    let hit = SearchResult { title: "Foo".into(), snippet: "".into(), slug: "foo".into() };
    assert_eq!("foo", hit.link());
}

#[test]
fn the_index_holds_the_latest_revision_of_each_article() {
    let mut state = SyncState::new();
    assert!(state.search_index().is_empty());
    state
        .create_article(None, "One".into(), "first *draft*".into(), None, Theme::Red, 0)
        .unwrap();
    state
        .create_article(None, "Two".into(), "see [one](one)".into(), None, Theme::Red, 0)
        .unwrap();
    let updated = state
        .update_article(1, 1, "Uno".into(), "a < b".into(), None, None, 1)
        .unwrap();
    assert!(matches!(updated, UpdateResult::Success(_)));
    assert_eq!(
        vec![
            IndexEntry {
                article_id: 2,
                title: "Two".into(),
                body: " see  one (one)  ".into(),
                slug: "two".into()
            },
            IndexEntry { article_id: 1, title: "Uno".into(), body: " a   b ".into(), slug: "uno".into() },
        ],
        state.search_index()
    );
}
