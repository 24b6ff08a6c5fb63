//! Markdown as HTML for readers and as plain text for the search index.

use pulldown_cmark::{Event, Options, Parser, Tag};
use vstd::prelude::*;
use crate::state::slug::{slugify, slugify_of};
use crate::strings::chars_of;

verus! {

/// One event of the Markdown parser, with what the search index reads of
/// it.
#[derive(Debug, Clone, PartialEq, Eq)]
pub enum FtsEvent {
    /// The start of an element.
    Start,
    /// The end of a link, with the link's destination.
    LinkEnd(String),
    /// The end of any other element.
    End,
    /// A run of text.
    Text(String),
    /// A block of HTML.
    Html(String),
    /// HTML within a line.
    InlineHtml(String),
    /// A reference to a footnote, with the footnote's name.
    FootnoteReference(String),
    /// A line break that the source has and the page need not have.
    SoftBreak,
    /// A line break that the page has too.
    HardBreak,
}

/// Mathematical content of an [`FtsEvent`].
pub enum FtsEventView {
    Start,
    LinkEnd(Seq<char>),
    End,
    Text(Seq<char>),
    Html(Seq<char>),
    InlineHtml(Seq<char>),
    FootnoteReference(Seq<char>),
    SoftBreak,
    HardBreak,
}

impl View for FtsEvent {
    type V = FtsEventView;

    open spec fn view(&self) -> FtsEventView {
        match self {
            FtsEvent::Start => FtsEventView::Start,
            FtsEvent::LinkEnd(uri) => FtsEventView::LinkEnd(uri@),
            FtsEvent::End => FtsEventView::End,
            FtsEvent::Text(text) => FtsEventView::Text(text@),
            FtsEvent::Html(html) => FtsEventView::Html(html@),
            FtsEvent::InlineHtml(html) => FtsEventView::InlineHtml(html@),
            FtsEvent::FootnoteReference(name) => FtsEventView::FootnoteReference(name@),
            FtsEvent::SoftBreak => FtsEventView::SoftBreak,
            FtsEvent::HardBreak => FtsEventView::HardBreak,
        }
    }
}

/// Views of a list of events.
pub open spec fn event_views(events: Seq<FtsEvent>) -> Seq<FtsEventView> {
    events.map_values(|e: FtsEvent| e@)
}

/// The HTML that the Markdown parser and its HTML writer make of a source
/// text, with tables enabled and links to pages of the wiki resolved by
/// [`slugify_link`].
pub uninterp spec fn rendered_html(src: Seq<char>) -> Seq<char>;

/// The events that the Markdown parser yields for a source text, with
/// tables enabled and links to pages of the wiki resolved by
/// [`slugify_link`].
pub uninterp spec fn markdown_events(src: Seq<char>) -> Seq<FtsEventView>;

/// Destination and title for a link whose reference the source does not
/// define: the page of the wiki that the link text names.
pub fn slugify_link(text: &str, title: &str) -> (r: Option<(String, String)>)
    ensures
        r matches Some((destination, link_title)) && destination@ == slugify_of(text@)
            && link_title@ == title@,
{
    Some((slugify(text), title.to_owned()))
}

/// Renders Markdown as HTML. Calls `pulldown_cmark::Parser::new_with_broken_link_callback`
/// and `pulldown_cmark::html::push_html`. Trusted: the HTML is a function
/// of the source alone.
///
/// HTML that the source holds comes out as it went in: the parser has no
/// way to switch it off. A caller that shows the result to readers of
/// sources it does not trust has to deal with that.
#[verifier::external_body]
pub fn render_markdown(src: &str) -> (html: String)
    ensures
        html@ == rendered_html(src@),
{
    let opts = Options::ENABLE_TABLES;
    let p = Parser::new_with_broken_link_callback(src, opts, Some(&slugify_link));
    let mut buf = String::new();
    pulldown_cmark::html::push_html(&mut buf, p);
    buf
}

/// Runs `pulldown_cmark::Parser::new_with_broken_link_callback` over the
/// source and hands out its events, each as the [`FtsEvent`] of its kind.
/// Trusted: the events are a function of the source alone.
#[verifier::external_body]
fn parse_events(src: &str) -> (events: Vec<FtsEvent>)
    ensures
        event_views(events@) == markdown_events(src@),
{
    Parser::new_with_broken_link_callback(src, Options::ENABLE_TABLES, Some(&slugify_link))
        .map(|event| match event {
            Event::Start(_) => FtsEvent::Start,
            Event::End(Tag::Link(uri, _)) => FtsEvent::LinkEnd(uri.into_owned()),
            Event::End(_) => FtsEvent::End,
            Event::Text(text) => FtsEvent::Text(text.into_owned()),
            Event::Html(html) => FtsEvent::Html(html.into_owned()),
            Event::InlineHtml(html) => FtsEvent::InlineHtml(html.into_owned()),
            Event::FootnoteReference(name) => FtsEvent::FootnoteReference(name.into_owned()),
            Event::SoftBreak => FtsEvent::SoftBreak,
            Event::HardBreak => FtsEvent::HardBreak,
        })
        .collect()
}

/// Whether the character is one that HTML gives a meaning of its own.
pub open spec fn is_html_special_spec(c: char) -> bool {
    c == '&' || c == '<' || c == '>'
}

/// Whether the character is one that HTML gives a meaning of its own.
pub fn is_html_special(c: char) -> (r: bool)
    ensures
        r == is_html_special_spec(c),
{
    c == '&' || c == '<' || c == '>'
}

/// A text with each character that HTML gives a meaning replaced by a
/// space.
pub open spec fn blanked(text: Seq<char>) -> Seq<char> {
    text.map_values(
        |c: char|
            if is_html_special_spec(c) {
                ' '
            } else {
                c
            },
    )
}

/// What one event adds to the text for the index: its text, the
/// destination of a link in parentheses, or a space. HTML, block or
/// inline, counts as text.
pub open spec fn event_text(event: FtsEventView) -> Seq<char> {
    match event {
        FtsEventView::Text(text) => blanked(text),
        FtsEventView::Html(html) => blanked(html),
        FtsEventView::InlineHtml(html) => blanked(html),
        FtsEventView::LinkEnd(uri) => seq![' ', '('] + blanked(uri) + seq![')', ' '],
        FtsEventView::Start
        | FtsEventView::End
        | FtsEventView::FootnoteReference(_)
        | FtsEventView::SoftBreak
        | FtsEventView::HardBreak => seq![' '],
    }
}

/// The text for the index that a list of events makes.
pub open spec fn fts_text(events: Seq<FtsEventView>) -> Seq<char>
    decreases events.len(),
{
    if events.len() == 0 {
        Seq::empty()
    } else {
        fts_text(events.drop_last()) + event_text(events.last())
    }
}

/// Appends a text with each character that HTML gives a meaning replaced
/// by a space.
fn push_blanked(buf: &mut String, text: &str)
    ensures
        final(buf)@ == old(buf)@ + blanked(text@),
{
    let chars = chars_of(text);
    let mut i: usize = 0;
    assert(buf@ =~= old(buf)@ + blanked(chars@.take(0)));
    while i < chars.len()
        invariant
            i <= chars.len(),
            buf@ == old(buf)@ + blanked(chars@.take(i as int)),
        decreases chars.len() - i,
    {
        let c = chars[i];
        if is_html_special(c) {
            buf.push(' ');
        } else {
            buf.push(c);
        }
        assert(buf@ =~= old(buf)@ + blanked(chars@.take(i + 1)));
        i += 1;
    }
    assert(chars@.take(i as int) =~= chars@);
}

/// The text for the index that a list of events makes.
pub fn events_to_fts(events: &Vec<FtsEvent>) -> (buf: String)
    ensures
        buf@ == fts_text(event_views(events@)),
{
    let ghost evs = event_views(events@);
    let mut buf = String::new();
    let mut i: usize = 0;
    assert(evs.take(0) =~= Seq::empty());
    while i < events.len()
        invariant
            i <= events.len(),
            evs == event_views(events@),
            buf@ == fts_text(evs.take(i as int)),
        decreases events.len() - i,
    {
        proof {
            assert(evs.take(i + 1).drop_last() =~= evs.take(i as int));
            assert(evs.take(i + 1).last() == events@[i as int]@);
        }
        let ghost before = buf@;
        match &events[i] {
            FtsEvent::Text(text) => {
                push_blanked(&mut buf, text.as_str());
            },
            FtsEvent::LinkEnd(uri) => {
                buf.push(' ');
                buf.push('(');
                push_blanked(&mut buf, uri.as_str());
                buf.push(')');
                buf.push(' ');
                assert(buf@ =~= before + (seq![' ', '('] + blanked(uri@) + seq![')', ' ']));
            },
            FtsEvent::Html(html) => {
                push_blanked(&mut buf, html.as_str());
            },
            FtsEvent::InlineHtml(html) => {
                push_blanked(&mut buf, html.as_str());
            },
            FtsEvent::Start
            | FtsEvent::End
            | FtsEvent::FootnoteReference(_)
            | FtsEvent::SoftBreak
            | FtsEvent::HardBreak => {
                buf.push(' ');
                assert(buf@ =~= before + seq![' ']);
            },
        }
        i += 1;
    }
    assert(evs.take(i as int) =~= evs);
    buf
}

/// Renders Markdown as plain text for the search index: the text of the
/// source with markup left out and link destinations added in parentheses.
pub fn render_markdown_for_fts(src: &str) -> (buf: String)
    ensures
        buf@ == fts_text(markdown_events(src@)),
{
    let events = parse_events(src);
    events_to_fts(&events)
}

} // verus!
