use sausagewiki::rendering::{
    events_to_fts, is_html_special, render_markdown, render_markdown_for_fts, slugify_link,
    FtsEvent,
};

#[test]
fn slug_link() {
    let actual = render_markdown("[Slug link]");
    let expected = "<p><a href=\"slug-link\" title=\"Slug link\">Slug link</a></p>\n";
    assert_eq!(actual, expected);
}

#[test]
fn footnote_links() {
    let actual = render_markdown("[Link]\n\n[Link]: target");
    let expected = "<p><a href=\"target\">Link</a></p>\n";
    assert_eq!(actual, expected);
}

#[test]
fn html_special_characters() {
    assert!(is_html_special('&'));
    assert!(is_html_special('<'));
    assert!(is_html_special('>'));
    assert!(!is_html_special('"'));
    assert!(!is_html_special('a'));
}

#[test]
fn broken_link_names_a_page_of_the_wiki() {
    assert_eq!(
        Some(("my-page".to_string(), "My Page!".to_string())),
        slugify_link("My  Page", "My Page!")
    );
}

#[test]
fn fts_text_appends_link_destinations() {
    assert_eq!("  link (url)  ", render_markdown_for_fts("[link](url)"));
}

#[test]
fn fts_text_blanks_html_special_characters() {
    assert_eq!(" a   b ", render_markdown_for_fts("a & b"));
    let events = vec![
        FtsEvent::Start,
        FtsEvent::Text("1 < 2 > 0 & so on".into()),
        FtsEvent::LinkEnd("http://x/?a=1&b=2".into()),
        FtsEvent::End,
    ];
    assert_eq!(" 1   2   0   so on (http://x/?a=1 b=2)  ", events_to_fts(&events));
    assert_eq!("", events_to_fts(&vec![]));
    assert_eq!(" b x /b ", events_to_fts(&vec![FtsEvent::Html("<b>x</b>".into())]));
    assert_eq!(" i ", events_to_fts(&vec![FtsEvent::InlineHtml("<i>".into())]));
    assert_eq!(
        "   ",
        events_to_fts(&vec![
            FtsEvent::FootnoteReference("note".into()),
            FtsEvent::SoftBreak,
            FtsEvent::HardBreak
        ])
    );
}

#[test]
fn fts_text_takes_html_as_text() {
    assert_eq!(" a  b c /b  ", render_markdown_for_fts("a <b>c</b>"));
}

#[test]
fn fts_text_has_a_space_for_breaks_and_footnote_references() {
    assert_eq!(" a b ", render_markdown_for_fts("a\nb"));
    assert_eq!(" a b ", render_markdown_for_fts("a  \nb"));
}

#[test]
fn html_in_the_source_comes_out_of_the_renderer_as_it_is() {
    assert_eq!("<p>a <b>c</b></p>\n", render_markdown("a <b>c</b>"));
}

#[test]
fn the_parser_takes_what_it_is_given() {
    let alphabet: Vec<&str> = vec![
        "a", "b", " ", "  ", "\n", "\n\n", "\t", "*", "**", "_", "`", "```", "~~~", "[", "]", "(",
        ")", "<", ">", "!", "#", "-", "+", "1.", "|", ":", "\\", "&", ";", "\"", "'", "=", "^",
        "[^", "]:", "http://x", "<b>", "</b>", "<!--", "-->", "&amp;", "\r\n", "\u{e9}", "\u{4e2d}",
        "    ", ">", "---", "***", "| a | b |", "|---|---|", "[a]: b", "![", "<http://", "\u{0}",
    ];
    let mut state: u64 = 0x2545f4914f6cdd1d;
    let mut next = move |bound: usize| {
        state ^= state << 13;
        state ^= state >> 7;
        state ^= state << 17;
        (state % bound as u64) as usize
    };
    for _ in 0..30000 {
        let mut src = String::new();
        for _ in 0..next(14) {
            src.push_str(alphabet[next(alphabet.len())]);
        }
        let html = render_markdown(&src);
        let text = render_markdown_for_fts(&src);
        assert!(!text.contains(|c| c == '<' || c == '>' || c == '&'), "{:?}", src);
        assert!(html.len() + text.len() < 100 * (src.len() + 10), "{:?}", src);
    }
}
