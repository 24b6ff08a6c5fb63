//! Three-way merge of two edits against their common ancestor, at line
//! granularity for bodies and at character granularity for titles.

pub mod chunk;
pub mod chunk_iterator;
pub mod lemmas;
pub mod output;
pub mod text;

pub use self::output::Output;

use vstd::prelude::*;
use self::chunk::{script_view, views, ChunkView, Edit, MergeItem};
use self::chunk_iterator::{chunks, first_chunk_end, ChunkIterator};
use self::output::{resolve, resolve_spec, Hunk};
use self::lemmas::{
    lemma_clean_merge_nonempty,
    lemma_hunks_left_unchanged,
    lemma_hunks_right_unchanged,
    lemma_hunks_same,
};
use crate::strings::{push_chars, string_of_chars};
use self::text::{
    char_script,
    diff_chars,
    diff_lines,
    has_crlf,
    lemma_lines_round_trip,
    line_items,
    line_script,
};

verus! {

/// Outcome of a three-way merge.
#[derive(Debug, PartialEq)]
pub enum MergeResult<Item> {
    /// Every chunk resolved: the merged text.
    Clean(String),
    /// At least one chunk is a conflict: all chunks' resolutions, in order.
    Conflicted(Vec<Output<Item>>),
}

/// Mathematical content of a [`MergeResult`].
pub enum MergeView<A> {
    Clean(Seq<char>),
    Conflicted(Seq<Hunk<A>>),
}

/// Views of a sequence of resolutions.
pub open spec fn output_views<Item: View>(outputs: Seq<Output<Item>>) -> Seq<Hunk<Item::V>> {
    outputs.map_values(|o: Output<Item>| o@)
}

impl<Item: View> View for MergeResult<Item> {
    type V = MergeView<Item::V>;

    open spec fn view(&self) -> MergeView<Item::V> {
        match self {
            MergeResult::Clean(x) => MergeView::Clean(x@),
            MergeResult::Conflicted(x) => MergeView::Conflicted(output_views(x@)),
        }
    }
}

/// The resolutions of the chunks of two scripts, in order.
pub open spec fn hunks<A>(left: Seq<Edit<A>>, right: Seq<Edit<A>>) -> Seq<Hunk<A>> {
    chunks(left, right).map_values(|c: ChunkView<A>| resolve_spec(c))
}

/// Whether no resolution is a conflict.
pub open spec fn all_resolved<A>(hs: Seq<Hunk<A>>) -> bool {
    forall|i: int| 0 <= i < hs.len() ==> #[trigger] hs[i] is Resolved
}

/// The items of the resolved chunks, in order.
pub open spec fn resolved_items<A>(hs: Seq<Hunk<A>>) -> Seq<A>
    decreases hs.len(),
{
    if hs.len() == 0 {
        Seq::empty()
    } else {
        resolved_items(hs.drop_last()) + match hs.last() {
            Hunk::Resolved(x) => x,
            Hunk::Conflict(_, _, _) => Seq::empty(),
        }
    }
}

/// Lines joined by single newlines, none after the last.
pub open spec fn join_lines(lines: Seq<Seq<char>>) -> Seq<char>
    decreases lines.len(),
{
    if lines.len() == 0 {
        Seq::empty()
    } else if lines.len() == 1 {
        lines[0]
    } else {
        join_lines(lines.drop_last()) + seq!['\n'] + lines.last()
    }
}

/// The merge of two character scripts: the resolved characters if nothing
/// conflicts, else every chunk's resolution.
pub open spec fn merge_chars_of(ours: Seq<Edit<char>>, theirs: Seq<Edit<char>>) -> MergeView<
    char,
> {
    let hs = hunks(ours, theirs);
    if all_resolved(hs) {
        MergeView::Clean(resolved_items(hs))
    } else {
        MergeView::Conflicted(hs)
    }
}

/// The merge of two line scripts: the resolved lines joined by newlines if
/// nothing conflicts, else every chunk's resolution.
pub open spec fn merge_lines_of(
    ours: Seq<Edit<Seq<char>>>,
    theirs: Seq<Edit<Seq<char>>>,
) -> MergeView<Seq<char>> {
    let hs = hunks(ours, theirs);
    if all_resolved(hs) {
        MergeView::Clean(join_lines(resolved_items(hs)))
    } else {
        MergeView::Conflicted(hs)
    }
}

/// Resolves every chunk of two scripts against one ancestor.
pub fn merge_hunks<Item: MergeItem>(ours: &[Edit<Item>], theirs: &[Edit<Item>]) -> (out: Vec<
    Output<Item>,
>)
    ensures
        output_views(out@) == hunks(script_view(ours@), script_view(theirs@)),
{
    let mut it = ChunkIterator::new(ours, theirs);
    let mut out: Vec<Output<Item>> = Vec::new();
    let ghost all = hunks(script_view(ours@), script_view(theirs@));
    assert(output_views(out@) + hunks(it@.left, it@.right) =~= all);
    loop
        invariant
            all == hunks(script_view(ours@), script_view(theirs@)),
            output_views(out@) + hunks(it@.left, it@.right) == all,
        decreases it@.left.len() + it@.right.len(),
    {
        let ghost before = it@;
        let ghost done = output_views(out@);
        match it.next() {
            None => {
                assert(hunks(before.left, before.right) =~= Seq::empty());
                assert(done + hunks(before.left, before.right) =~= done);
                return out;
            },
            Some(c) => {
                let hunk = resolve(c);
                out.push(hunk);
                proof {
                    let end = first_chunk_end(before.left, before.right);
                    assert(chunks(before.left, before.right) =~= seq![c@] + chunks(
                        it@.left,
                        it@.right,
                    ));
                    assert(output_views(out@) =~= done.push(resolve_spec(c@)));
                    assert(done.push(resolve_spec(c@)) + hunks(it@.left, it@.right) =~= done
                        + hunks(before.left, before.right));
                }
            },
        }
    }
}

/// Whether no resolution in the list is a conflict.
fn is_clean<Item: View>(outputs: &Vec<Output<Item>>) -> (r: bool)
    ensures
        r == all_resolved(output_views(outputs@)),
{
    let mut i: usize = 0;
    while i < outputs.len()
        invariant
            i <= outputs.len(),
            forall|k: int| 0 <= k < i ==> #[trigger] output_views(outputs@)[k] is Resolved,
        decreases outputs.len() - i,
    {
        match &outputs[i] {
            Output::Resolved(_) => {},
            Output::Conflict(_, _, _) => {
                assert(!(output_views(outputs@)[i as int] is Resolved));
                return false;
            },
        }
        i += 1;
    }
    true
}

/// Appends copies of `more` to `items`.
fn append_items<Item: View + Copy>(items: &mut Vec<Item>, more: &Vec<Item>)
    ensures
        views(final(items)@) == views(old(items)@) + views(more@),
{
    let mut j: usize = 0;
    assert(more@.take(0) =~= Seq::empty());
    assert(items@ =~= old(items)@ + more@.take(0));
    while j < more.len()
        invariant
            j <= more.len(),
            items@ == old(items)@ + more@.take(j as int),
        decreases more.len() - j,
    {
        items.push(more[j]);
        assert(more@.take(j + 1) =~= more@.take(j as int).push(more@[j as int]));
        assert(items@ =~= old(items)@ + more@.take(j + 1));
        j += 1;
    }
    assert(more@.take(j as int) =~= more@);
    assert(views(items@) =~= views(old(items)@) + views(more@));
}

/// The items of the resolved chunks, in order.
fn resolved<Item: View + Copy>(outputs: &Vec<Output<Item>>) -> (items: Vec<Item>)
    ensures
        views(items@) == resolved_items(output_views(outputs@)),
{
    let ghost hs = output_views(outputs@);
    let mut items: Vec<Item> = Vec::new();
    let mut i: usize = 0;
    assert(hs.take(0) =~= Seq::empty());
    assert(views(items@) =~= Seq::empty());
    while i < outputs.len()
        invariant
            i <= outputs.len(),
            hs == output_views(outputs@),
            views(items@) == resolved_items(hs.take(i as int)),
        decreases outputs.len() - i,
    {
        proof {
            assert(hs.take(i + 1).drop_last() =~= hs.take(i as int));
            assert(hs.take(i + 1).last() == outputs@[i as int]@);
        }
        let ghost before = views(items@);
        match &outputs[i] {
            Output::Resolved(x) => {
                append_items(&mut items, x);
            },
            Output::Conflict(_, _, _) => {
                assert(before + Seq::empty() =~= before);
            },
        }
        i += 1;
    }
    assert(hs.take(i as int) =~= hs);
    items
}

/// The lines joined by newlines.
fn join<'a>(lines: &Vec<&'a str>) -> (text: String)
    ensures
        text@ == join_lines(views(lines@)),
{
    let ghost ls = views(lines@);
    let mut text = String::new();
    let mut i: usize = 0;
    assert(ls.take(0) =~= Seq::empty());
    while i < lines.len()
        invariant
            i <= lines.len(),
            ls == views(lines@),
            text@ == join_lines(ls.take(i as int)),
        decreases lines.len() - i,
    {
        proof {
            reveal_strlit("\n");
            assert("\n"@ =~= seq!['\n']);
            assert(ls.take(i + 1).drop_last() =~= ls.take(i as int));
            assert(ls.take(i + 1).last() == lines@[i as int]@);
        }
        if i > 0 {
            text.append("\n");
        } else {
            assert(Seq::<char>::empty() + lines@[0]@ =~= lines@[0]@);
        }
        text.append(lines[i]);
        i += 1;
    }
    assert(ls.take(i as int) =~= ls);
    text
}

/// Merges two character scripts against one ancestor.
pub fn merge_char_scripts(ours: &[Edit<char>], theirs: &[Edit<char>]) -> (merged: MergeResult<
    char,
>)
    ensures
        merged@ == merge_chars_of(script_view(ours@), script_view(theirs@)),
{
    let outputs = merge_hunks(ours, theirs);
    if is_clean(&outputs) {
        let chars = resolved(&outputs);
        assert(views(chars@) =~= chars@);
        MergeResult::Clean(string_of_chars(&chars))
    } else {
        MergeResult::Conflicted(outputs)
    }
}

/// Merges two line scripts against one ancestor.
pub fn merge_line_scripts<'a>(ours: &[Edit<&'a str>], theirs: &[Edit<&'a str>]) -> (merged:
    MergeResult<&'a str>)
    ensures
        merged@ == merge_lines_of(script_view(ours@), script_view(theirs@)),
{
    let outputs = merge_hunks(ours, theirs);
    if is_clean(&outputs) {
        let lines = resolved(&outputs);
        MergeResult::Clean(join(&lines))
    } else {
        MergeResult::Conflicted(outputs)
    }
}

/// Three-way merge by lines: `a` is ours, `o` the common ancestor, `b`
/// theirs. Equal sides merge cleanly to the lines of either, and a side
/// equal to the ancestor gives way to the lines of the other; joined, the
/// lines of a text are the text itself unless a carriage return stands
/// before one of its newlines ([`text::lemma_lines_round_trip`]).
pub fn merge_lines<'a>(a: &'a str, o: &'a str, b: &'a str) -> (merged: MergeResult<&'a str>)
    ensures
        merged@ == merge_lines_of(line_script(o@, a@), line_script(o@, b@)),
        a@ == b@ || b@ == o@ ==> merged@ == MergeView::<Seq<char>>::Clean(
            join_lines(line_items(a@)),
        ),
        a@ == o@ ==> merged@ == MergeView::<Seq<char>>::Clean(join_lines(line_items(b@))),
        (a@ == b@ || b@ == o@) && !has_crlf(a@) ==> merged@ == MergeView::<Seq<char>>::Clean(a@),
        a@ == o@ && !has_crlf(b@) ==> merged@ == MergeView::<Seq<char>>::Clean(b@),
{
    let oa = diff_lines(o, a);
    let ob = diff_lines(o, b);
    proof {
        let ours = script_view(oa@);
        let theirs = script_view(ob@);
        if a@ == b@ {
            lemma_hunks_same(ours);
        } else if b@ == o@ {
            lemma_hunks_right_unchanged(ours, theirs);
        }
        if a@ == o@ {
            lemma_hunks_left_unchanged(ours, theirs);
        }
        if !has_crlf(a@) {
            lemma_lines_round_trip(a@);
        }
        if !has_crlf(b@) {
            lemma_lines_round_trip(b@);
        }
    }
    merge_line_scripts(oa.as_slice(), ob.as_slice())
}

/// Three-way merge by characters: `a` is ours, `o` the common ancestor,
/// `b` theirs. Equal sides merge cleanly to either, and a side equal to the
/// ancestor gives way to the other. A clean merge of two sides that are not
/// empty is not empty.
pub fn merge_chars<'a>(a: &'a str, o: &'a str, b: &'a str) -> (merged: MergeResult<char>)
    ensures
        merged@ == merge_chars_of(char_script(o@, a@), char_script(o@, b@)),
        a@ == b@ || b@ == o@ ==> merged@ == MergeView::<char>::Clean(a@),
        a@ == o@ ==> merged@ == MergeView::<char>::Clean(b@),
        a@.len() > 0 && b@.len() > 0 ==> (merged@ matches MergeView::Clean(text) ==> text.len()
            > 0),
{
    let oa = diff_chars(o, a);
    let ob = diff_chars(o, b);
    proof {
        let ours = script_view(oa@);
        let theirs = script_view(ob@);
        if a@.len() > 0 && b@.len() > 0 && all_resolved(hunks(ours, theirs)) {
            lemma_clean_merge_nonempty(ours, theirs);
        }
        if a@ == b@ {
            lemma_hunks_same(ours);
        } else if b@ == o@ {
            lemma_hunks_right_unchanged(ours, theirs);
        }
        if a@ == o@ {
            lemma_hunks_left_unchanged(ours, theirs);
        }
    }
    merge_char_scripts(oa.as_slice(), ob.as_slice())
}

/// Lines, each followed by a newline.
pub open spec fn terminated_lines(lines: Seq<Seq<char>>) -> Seq<char>
    decreases lines.len(),
{
    if lines.len() == 0 {
        Seq::empty()
    } else {
        terminated_lines(lines.drop_last()) + lines.last() + seq!['\n']
    }
}

/// Text of one resolution of lines: its lines, or for a conflict both
/// sides' lines between the three marker lines.
pub open spec fn line_hunk_text(hunk: Hunk<Seq<char>>) -> Seq<char> {
    match hunk {
        Hunk::Resolved(x) => terminated_lines(x),
        Hunk::Conflict(a, _, b) => "<<<<<<< Your changes:\n"@ + terminated_lines(a)
            + "======= Their changes:\n"@ + terminated_lines(b) + ">>>>>>> Conflict ends here\n"@,
    }
}

/// Text of a list of resolutions of lines.
pub open spec fn line_hunks_text(hs: Seq<Hunk<Seq<char>>>) -> Seq<char>
    decreases hs.len(),
{
    if hs.len() == 0 {
        Seq::empty()
    } else {
        line_hunks_text(hs.drop_last()) + line_hunk_text(hs.last())
    }
}

/// Editable text of a line merge: the clean text, or the resolutions with
/// each conflict between markers.
pub open spec fn flatten_lines(merged: MergeView<Seq<char>>) -> Seq<char> {
    match merged {
        MergeView::Clean(x) => x,
        MergeView::Conflicted(hs) => line_hunks_text(hs),
    }
}

/// Text of one resolution of characters: the characters, or for a conflict
/// `<ours|theirs>`.
pub open spec fn char_hunk_text(hunk: Hunk<char>) -> Seq<char> {
    match hunk {
        Hunk::Resolved(x) => x,
        Hunk::Conflict(a, _, b) => seq!['<'] + a + seq!['|'] + b + seq!['>'],
    }
}

/// Text of a list of resolutions of characters.
pub open spec fn char_hunks_text(hs: Seq<Hunk<char>>) -> Seq<char>
    decreases hs.len(),
{
    if hs.len() == 0 {
        Seq::empty()
    } else {
        char_hunks_text(hs.drop_last()) + char_hunk_text(hs.last())
    }
}

/// Editable text of a character merge.
pub open spec fn flatten_chars(merged: MergeView<char>) -> Seq<char> {
    match merged {
        MergeView::Clean(x) => x,
        MergeView::Conflicted(hs) => char_hunks_text(hs),
    }
}

/// Appends each line and a newline after it.
fn push_terminated(text: &mut String, lines: &Vec<String>)
    ensures
        final(text)@ == old(text)@ + terminated_lines(views(lines@)),
{
    let ghost ls = views(lines@);
    let mut i: usize = 0;
    assert(ls.take(0) =~= Seq::empty());
    assert(text@ =~= old(text)@ + terminated_lines(ls.take(0)));
    while i < lines.len()
        invariant
            i <= lines.len(),
            ls == views(lines@),
            text@ == old(text)@ + terminated_lines(ls.take(i as int)),
        decreases lines.len() - i,
    {
        proof {
            reveal_strlit("\n");
            assert("\n"@ =~= seq!['\n']);
            assert(ls.take(i + 1).drop_last() =~= ls.take(i as int));
            assert(ls.take(i + 1).last() == lines@[i as int]@);
        }
        let ghost before = text@;
        text.append(lines[i].as_str());
        text.append("\n");
        assert(text@ =~= old(text)@ + terminated_lines(ls.take(i + 1)));
        i += 1;
    }
    assert(ls.take(i as int) =~= ls);
}

impl<'a> MergeResult<&'a str> {
    /// The same result with owned strings.
    pub fn to_strings(self) -> (out: MergeResult<String>)
        ensures
            out@ == self@,
    {
        match self {
            MergeResult::Clean(x) => MergeResult::Clean(x),
            MergeResult::Conflicted(x) => {
                let mut out: Vec<Output<String>> = Vec::new();
                let mut i: usize = 0;
                while i < x.len()
                    invariant
                        i <= x.len(),
                        out.len() == i,
                        forall|k: int| 0 <= k < i ==> out@[k]@ == x@[k]@,
                    decreases x.len() - i,
                {
                    out.push(x[i].to_strings());
                    i += 1;
                }
                assert(output_views(out@) =~= output_views(x@));
                MergeResult::Conflicted(out)
            },
        }
    }

    /// The same result with owned strings.
    pub fn into_strings(self) -> (out: MergeResult<String>)
        ensures
            out@ == self@,
    {
        self.to_strings()
    }
}

impl MergeResult<String> {
    /// The merge as one editable text, each conflict between markers.
    pub fn flatten(self) -> (text: String)
        ensures
            text@ == flatten_lines(self@),
    {
        match self {
            MergeResult::Clean(x) => x,
            MergeResult::Conflicted(x) => {
                let ghost hs = output_views(x@);
                let mut text = String::new();
                let mut i: usize = 0;
                assert(hs.take(0) =~= Seq::empty());
                while i < x.len()
                    invariant
                        i <= x.len(),
                        hs == output_views(x@),
                        text@ == line_hunks_text(hs.take(i as int)),
                    decreases x.len() - i,
                {
                    proof {
                        assert(hs.take(i + 1).drop_last() =~= hs.take(i as int));
                        assert(hs.take(i + 1).last() == x@[i as int]@);
                    }
                    match &x[i] {
                        Output::Conflict(a, _o, b) => {
                            text.append("<<<<<<< Your changes:\n");
                            push_terminated(&mut text, a);
                            text.append("======= Their changes:\n");
                            push_terminated(&mut text, b);
                            text.append(">>>>>>> Conflict ends here\n");
                        },
                        Output::Resolved(lines) => {
                            push_terminated(&mut text, lines);
                        },
                    }
                    assert(text@ =~= line_hunks_text(hs.take(i as int)) + line_hunk_text(
                        x@[i as int]@,
                    ));
                    i += 1;
                }
                assert(hs.take(i as int) =~= hs);
                text
            },
        }
    }
}

impl MergeResult<char> {
    /// The merge as one editable text, each conflict as `<ours|theirs>`.
    pub fn flatten(self) -> (text: String)
        ensures
            text@ == flatten_chars(self@),
    {
        match self {
            MergeResult::Clean(x) => x,
            MergeResult::Conflicted(x) => {
                let ghost hs = output_views(x@);
                let mut text = String::new();
                let mut i: usize = 0;
                assert(hs.take(0) =~= Seq::empty());
                while i < x.len()
                    invariant
                        i <= x.len(),
                        hs == output_views(x@),
                        text@ == char_hunks_text(hs.take(i as int)),
                    decreases x.len() - i,
                {
                    proof {
                        assert(hs.take(i + 1).drop_last() =~= hs.take(i as int));
                        assert(hs.take(i + 1).last() == x@[i as int]@);
                    }
                    match &x[i] {
                        Output::Conflict(a, _o, b) => {
                            assert(views(a@) =~= a@);
                            assert(views(b@) =~= b@);
                            text.push('<');
                            push_chars(&mut text, a);
                            text.push('|');
                            push_chars(&mut text, b);
                            text.push('>');
                        },
                        Output::Resolved(chars) => {
                            assert(views(chars@) =~= chars@);
                            push_chars(&mut text, chars);
                        },
                    }
                    assert(text@ =~= char_hunks_text(hs.take(i as int)) + char_hunk_text(
                        x@[i as int]@,
                    ));
                    i += 1;
                }
                assert(hs.take(i as int) =~= hs);
                text
            },
        }
    }
}

} // verus!
