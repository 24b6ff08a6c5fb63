//! The match expression that a search hands to the full-text index.

use vstd::prelude::*;
use vstd::string::StringExecFns;
use crate::models::RevisionView;
use crate::rendering::{fts_text, markdown_events, render_markdown_for_fts};
use crate::state::table::rows_view;
use crate::state::SyncState;
use crate::strings::chars_of;

verus! {

/// Whether a character has the Unicode property `White_Space`.
pub open spec fn is_whitespace(c: char) -> bool {
    let n = c as u32;
    ||| 0x09 <= n <= 0x0d
    ||| n == 0x20
    ||| n == 0x85
    ||| n == 0xa0
    ||| n == 0x1680
    ||| 0x2000 <= n <= 0x200a
    ||| n == 0x2028
    ||| n == 0x2029
    ||| n == 0x202f
    ||| n == 0x205f
    ||| n == 0x3000
}

/// Whether a character has the Unicode property `White_Space`.
pub fn is_space(c: char) -> (r: bool)
    ensures
        r == is_whitespace(c),
{
    let n = c as u32;
    (0x09 <= n && n <= 0x0d) || n == 0x20 || n == 0x85 || n == 0xa0 || n == 0x1680 || (0x2000
        <= n && n <= 0x200a) || n == 0x2028 || n == 0x2029 || n == 0x202f || n == 0x205f || n
        == 0x3000
}

/// The words that are complete after reading a text, and the word that
/// is still open: a white-space character closes the open word, any other
/// character extends it.
pub open spec fn scan(s: Seq<char>) -> (Seq<Seq<char>>, Seq<char>)
    decreases s.len(),
{
    if s.len() == 0 {
        (Seq::empty(), Seq::empty())
    } else {
        let (done, open) = scan(s.drop_last());
        if !is_whitespace(s.last()) {
            (done, open.push(s.last()))
        } else if open.len() > 0 {
            (done.push(open), Seq::empty())
        } else {
            (done, open)
        }
    }
}

/// The words of a text: its maximal runs of characters that are not white
/// space.
pub open spec fn words(s: Seq<char>) -> Seq<Seq<char>> {
    let (done, open) = scan(s);
    if open.len() > 0 {
        done.push(open)
    } else {
        done
    }
}

/// A word with each double quote doubled.
pub open spec fn doubled_quotes(word: Seq<char>) -> Seq<char>
    decreases word.len(),
{
    if word.len() == 0 {
        Seq::empty()
    } else if word.last() == '"' {
        doubled_quotes(word.drop_last()).push('"').push('"')
    } else {
        doubled_quotes(word.drop_last()).push(word.last())
    }
}

/// A word as a quoted string of the index's query language.
pub open spec fn fts_quote_spec(word: Seq<char>) -> Seq<char> {
    seq!['"'] + doubled_quotes(word) + seq!['"']
}

/// The words, quoted, with single spaces between them.
pub open spec fn quoted_words(ws: Seq<Seq<char>>) -> Seq<char>
    decreases ws.len(),
{
    if ws.len() == 0 {
        Seq::empty()
    } else if ws.len() == 1 {
        fts_quote_spec(ws[0])
    } else {
        quoted_words(ws.drop_last()) + seq![' '] + fts_quote_spec(ws.last())
    }
}

/// The match expression for a query string: the empty phrase for no word,
/// a prefix match for one word, and for several words that they stand near
/// one another.
pub open spec fn fts_query_spec(query_string: Seq<char>) -> Seq<char> {
    let ws = words(query_string);
    if ws.len() > 1 {
        "NEAR("@ + quoted_words(ws) + ")"@
    } else if ws.len() == 1 {
        fts_quote_spec(ws[0]) + "*"@
    } else {
        "\"\""@
    }
}

/// Views of a list of words.
pub open spec fn word_views(ws: Seq<Vec<char>>) -> Seq<Seq<char>> {
    ws.map_values(|w: Vec<char>| w@)
}

/// The text without its white-space characters.
pub open spec fn without_whitespace(s: Seq<char>) -> Seq<char>
    decreases s.len(),
{
    if s.len() == 0 {
        Seq::empty()
    } else if is_whitespace(s.last()) {
        without_whitespace(s.drop_last())
    } else {
        without_whitespace(s.drop_last()).push(s.last())
    }
}

/// The words, one after the other.
pub open spec fn concat_words(ws: Seq<Seq<char>>) -> Seq<char>
    decreases ws.len(),
{
    if ws.len() == 0 {
        Seq::empty()
    } else {
        concat_words(ws.drop_last()) + ws.last()
    }
}

proof fn lemma_scan(s: Seq<char>)
    ensures
        forall|k: int| 0 <= k < scan(s).0.len() ==> (#[trigger] scan(s).0[k]).len() > 0,
        forall|k: int, j: int|
            0 <= k < scan(s).0.len() && 0 <= j < scan(s).0[k].len() ==> !is_whitespace(
                #[trigger] scan(s).0[k][j],
            ),
        forall|j: int| 0 <= j < scan(s).1.len() ==> !is_whitespace(#[trigger] scan(s).1[j]),
        concat_words(scan(s).0) + scan(s).1 == without_whitespace(s),
    decreases s.len(),
{
    if s.len() == 0 {
        assert(concat_words(scan(s).0) + scan(s).1 =~= without_whitespace(s));
    } else {
        lemma_scan(s.drop_last());
        let (done, open) = scan(s.drop_last());
        if !is_whitespace(s.last()) {
            assert(concat_words(done) + open.push(s.last()) =~= (concat_words(done) + open).push(
                s.last(),
            ));
        } else if open.len() > 0 {
            assert(done.push(open).drop_last() =~= done);
            assert(concat_words(done.push(open)) + Seq::<char>::empty() =~= concat_words(done)
                + open);
        }
    }
}

/// No word is empty, no word holds white space, and together the words
/// are the text without its white space.
pub proof fn lemma_words(s: Seq<char>)
    ensures
        forall|k: int| 0 <= k < words(s).len() ==> (#[trigger] words(s)[k]).len() > 0,
        forall|k: int, j: int|
            0 <= k < words(s).len() && 0 <= j < words(s)[k].len() ==> !is_whitespace(
                #[trigger] words(s)[k][j],
            ),
        concat_words(words(s)) == without_whitespace(s),
{
    lemma_scan(s);
    let (done, open) = scan(s);
    if open.len() > 0 {
        assert(done.push(open).drop_last() =~= done);
    } else {
        assert(concat_words(done) + open =~= concat_words(done));
    }
}

/// The words of a text.
pub fn split_whitespace(s: &str) -> (ws: Vec<Vec<char>>)
    ensures
        word_views(ws@) == words(s@),
{
    let chars = chars_of(s);
    let mut done: Vec<Vec<char>> = Vec::new();
    let mut open: Vec<char> = Vec::new();
    let mut i: usize = 0;
    assert(chars@.take(0) =~= Seq::empty());
    assert(word_views(done@) =~= Seq::empty());
    while i < chars.len()
        invariant
            i <= chars.len(),
            (word_views(done@), open@) == scan(chars@.take(i as int)),
        decreases chars.len() - i,
    {
        proof {
            assert(chars@.take(i + 1).drop_last() =~= chars@.take(i as int));
            assert(chars@.take(i + 1).last() == chars@[i as int]);
        }
        let c = chars[i];
        if !is_space(c) {
            open.push(c);
        } else if open.len() > 0 {
            let ghost before = word_views(done@);
            done.push(open);
            assert(word_views(done@) =~= before.push(open@));
            open = Vec::new();
            assert(open@ =~= Seq::<char>::empty());
        }
        i += 1;
    }
    assert(chars@.take(i as int) =~= chars@);
    if open.len() > 0 {
        let ghost before = word_views(done@);
        done.push(open);
        assert(word_views(done@) =~= before.push(open@));
    }
    done
}

/// Appends a word as a quoted string of the index's query language.
fn push_quoted(text: &mut String, word: &Vec<char>)
    ensures
        final(text)@ == old(text)@ + fts_quote_spec(word@),
{
    text.push('"');
    let ghost start = text@;
    let mut i: usize = 0;
    assert(word@.take(0) =~= Seq::empty());
    assert(text@ =~= start + doubled_quotes(word@.take(0)));
    while i < word.len()
        invariant
            i <= word.len(),
            text@ == start + doubled_quotes(word@.take(i as int)),
        decreases word.len() - i,
    {
        proof {
            assert(word@.take(i + 1).drop_last() =~= word@.take(i as int));
            assert(word@.take(i + 1).last() == word@[i as int]);
        }
        let c = word[i];
        if c == '"' {
            text.push('"');
            text.push('"');
        } else {
            text.push(c);
        }
        assert(text@ =~= start + doubled_quotes(word@.take(i + 1)));
        i += 1;
    }
    assert(word@.take(i as int) =~= word@);
    text.push('"');
    assert(text@ =~= old(text)@ + fts_quote_spec(word@));
}

/// A word as a quoted string of the index's query language: between double
/// quotes, with each double quote of its own doubled.
pub fn fts_quote(src: &str) -> (quoted: String)
    ensures
        quoted@ == fts_quote_spec(src@),
{
    let word = chars_of(src);
    let mut quoted = String::new();
    push_quoted(&mut quoted, &word);
    assert(quoted@ =~= fts_quote_spec(src@));
    quoted
}

/// The match expression for a query string.
pub fn fts_query(query_string: &str) -> (query: String)
    ensures
        query@ == fts_query_spec(query_string@),
{
    let ws = split_whitespace(query_string);
    let ghost wv = word_views(ws@);
    if ws.len() > 1 {
        let mut query = "NEAR(".to_owned();
        let ghost start = query@;
        let mut i: usize = 0;
        assert(wv.take(0) =~= Seq::empty());
        assert(query@ =~= start + quoted_words(wv.take(0)));
        while i < ws.len()
            invariant
                i <= ws.len(),
                wv == word_views(ws@),
                query@ == start + quoted_words(wv.take(i as int)),
            decreases ws.len() - i,
        {
            proof {
                assert(wv.take(i + 1).drop_last() =~= wv.take(i as int));
                assert(wv.take(i + 1).last() == ws@[i as int]@);
                assert(wv.take(i + 1)[0] == ws@[0]@);
            }
            if i > 0 {
                query.push(' ');
            }
            push_quoted(&mut query, &ws[i]);
            assert(query@ =~= start + quoted_words(wv.take(i + 1)));
            i += 1;
        }
        assert(wv.take(i as int) =~= wv);
        query.append(")");
        query
    } else if ws.len() == 1 {
        let mut query = String::new();
        push_quoted(&mut query, &ws[0]);
        query.append("*");
        assert(query@ =~= fts_quote_spec(wv[0]) + "*"@);
        query
    } else {
        "\"\"".to_owned()
    }
}

/// What the full-text index holds of an article: the title, the body as
/// plain text and the slug of its latest revision.
#[derive(Debug, Clone, PartialEq, Eq)]
pub struct IndexEntry {
    pub article_id: i32,
    pub title: String,
    pub body: String,
    pub slug: String,
}

/// Mathematical content of an [`IndexEntry`].
pub struct IndexEntryView {
    pub article_id: int,
    pub title: Seq<char>,
    pub body: Seq<char>,
    pub slug: Seq<char>,
}

impl View for IndexEntry {
    type V = IndexEntryView;

    open spec fn view(&self) -> IndexEntryView {
        IndexEntryView {
            article_id: self.article_id as int,
            title: self.title@,
            body: self.body@,
            slug: self.slug@,
        }
    }
}

/// Views of a list of index entries.
pub open spec fn entry_views(entries: Seq<IndexEntry>) -> Seq<IndexEntryView> {
    entries.map_values(|e: IndexEntry| e@)
}

/// The index entry of a revision.
pub open spec fn entry_of(row: RevisionView) -> IndexEntryView {
    IndexEntryView {
        article_id: row.article_id,
        title: row.title,
        body: fts_text(markdown_events(row.body)),
        slug: row.slug,
    }
}

/// The content of the full-text index: the entries of the latest
/// revisions, in the order of the table.
pub open spec fn index_of(rows: Seq<RevisionView>) -> Seq<IndexEntryView>
    decreases rows.len(),
{
    if rows.len() == 0 {
        Seq::empty()
    } else if rows.last().latest {
        index_of(rows.drop_last()).push(entry_of(rows.last()))
    } else {
        index_of(rows.drop_last())
    }
}

impl SyncState {
    /// The content of the full-text index: one entry for the latest
    /// revision of each article.
    pub fn search_index(&self) -> (entries: Vec<IndexEntry>)
        ensures
            entry_views(entries@) == index_of(self@.rows),
    {
        let rows = self.revisions();
        let ghost table = self@.rows;
        let mut entries: Vec<IndexEntry> = Vec::new();
        let mut i: usize = 0;
        assert(table.take(0) =~= Seq::empty());
        assert(entry_views(entries@) =~= index_of(table.take(0)));
        while i < rows.len()
            invariant
                i <= rows.len(),
                table == rows_view(rows@),
                entry_views(entries@) == index_of(table.take(i as int)),
            decreases rows.len() - i,
        {
            proof {
                assert(table.take(i + 1).drop_last() =~= table.take(i as int));
                assert(table.take(i + 1).last() == rows@[i as int]@);
            }
            let row = &rows[i];
            if row.latest {
                let ghost before = entry_views(entries@);
                entries.push(
                    IndexEntry {
                        article_id: row.article_id,
                        title: row.title.clone(),
                        body: render_markdown_for_fts(row.body.as_str()),
                        slug: row.slug.clone(),
                    },
                );
                assert(entry_views(entries@) =~= before.push(entry_of(table[i as int])));
            }
            i += 1;
        }
        assert(table.take(i as int) =~= table);
        entries
    }
}

} // verus!
