//! Edit scripts over the characters and over the lines of two strings.

use vstd::prelude::*;
use super::chunk::{
    faithful,
    left_projection,
    right_projection,
    script_view,
    unchanged,
    Edit,
    MergeItem,
};
use super::join_lines;
use crate::strings::chars_of;

verus! {

/// The edit script from the characters of `left` to those of `right`, as
/// `diff::chars` computes it.
pub uninterp spec fn char_script(left: Seq<char>, right: Seq<char>) -> Seq<Edit<char>>;

/// The edit script from the lines of `left` to those of `right`, as
/// `diff::lines` computes it.
pub uninterp spec fn line_script(left: Seq<char>, right: Seq<char>) -> Seq<Edit<Seq<char>>>;

/// Position of the first newline of a text, or its length if it has none.
pub open spec fn first_newline(s: Seq<char>) -> int
    decreases s.len(),
{
    if s.len() == 0 || s[0] == '\n' {
        0
    } else {
        1 + first_newline(s.drop_first())
    }
}

/// A line without the carriage return that ended it, if one did.
pub open spec fn strip_cr(line: Seq<char>) -> Seq<char> {
    if line.len() > 0 && line.last() == '\r' {
        line.drop_last()
    } else {
        line
    }
}

/// The lines of a text as a line diff sees them. A newline ends a line, and
/// a carriage return just before it belongs to the line ending. What
/// follows the last newline is a line too, an empty one if nothing follows.
/// The empty text has no lines.
pub open spec fn line_items(s: Seq<char>) -> Seq<Seq<char>>
    decreases s.len(),
{
    if s.len() == 0 {
        Seq::empty()
    } else {
        let k = first_newline(s);
        if k < 0 || k >= s.len() {
            seq![s]
        } else if k + 1 == s.len() {
            seq![strip_cr(s.subrange(0, k)), Seq::empty()]
        } else {
            seq![strip_cr(s.subrange(0, k))] + line_items(s.subrange(k + 1, s.len() as int))
        }
    }
}

/// Whether a carriage return stands just before a newline somewhere in the
/// text.
pub open spec fn has_crlf(s: Seq<char>) -> bool {
    exists|i: int| 0 <= i < s.len() - 1 && #[trigger] s[i] == '\r' && s[i + 1] == '\n'
}

proof fn lemma_first_newline(s: Seq<char>)
    ensures
        0 <= first_newline(s) <= s.len(),
        first_newline(s) < s.len() ==> s[first_newline(s)] == '\n',
        forall|i: int| 0 <= i < first_newline(s) ==> s[i] != '\n',
    decreases s.len(),
{
    if s.len() == 0 || s[0] == '\n' {
    } else {
        let t = s.drop_first();
        lemma_first_newline(t);
        assert forall|i: int| 0 <= i < first_newline(s) implies s[i] != '\n' by {
            if i > 0 {
                assert(s[i] == t[i - 1]);
            }
        }
    }
}

proof fn lemma_line_items_nonempty(s: Seq<char>)
    requires
        s.len() > 0,
    ensures
        line_items(s).len() > 0,
{
    lemma_first_newline(s);
}

proof fn lemma_join_cons(first: Seq<char>, rest: Seq<Seq<char>>)
    requires
        rest.len() > 0,
    ensures
        join_lines(seq![first] + rest) == first + seq!['\n'] + join_lines(rest),
    decreases rest.len(),
{
    let all = seq![first] + rest;
    assert(all.drop_last() =~= seq![first] + rest.drop_last());
    assert(all.last() == rest.last());
    if rest.len() == 1 {
        assert(all.drop_last() =~= seq![first]);
        assert(join_lines(all.drop_last()) == first);
        assert(rest[0] == rest.last());
    } else {
        lemma_join_cons(first, rest.drop_last());
        assert((first + seq!['\n'] + join_lines(rest.drop_last())) + seq!['\n'] + rest.last()
            =~= first + seq!['\n'] + (join_lines(rest.drop_last()) + seq!['\n'] + rest.last()));
    }
}

/// Joined by newlines, the lines of a text are the text again, unless a
/// carriage return stands before one of its newlines.
pub proof fn lemma_lines_round_trip(s: Seq<char>)
    requires
        !has_crlf(s),
    ensures
        join_lines(line_items(s)) == s,
    decreases s.len(),
{
    if s.len() == 0 {
        assert(join_lines(line_items(s)) =~= s);
    } else {
        lemma_first_newline(s);
        let k = first_newline(s);
        if k >= s.len() {
        } else {
            let line = s.subrange(0, k);
            if line.len() > 0 && line.last() == '\r' {
                assert(s[k - 1] == '\r' && s[k - 1 + 1] == '\n');
                assert(has_crlf(s));
            }
            assert(strip_cr(line) == line);
            if k + 1 == s.len() {
                let items = seq![line, Seq::<char>::empty()];
                assert(items.drop_last() =~= seq![line]);
                assert(join_lines(items.drop_last()) == line);
                assert(line + seq!['\n'] + Seq::<char>::empty() =~= s);
            } else {
                let rest = s.subrange(k + 1, s.len() as int);
                if has_crlf(rest) {
                    let i = choose|i: int|
                        0 <= i < rest.len() - 1 && #[trigger] rest[i] == '\r' && rest[i + 1]
                            == '\n';
                    assert(s[i + k + 1] == '\r' && s[i + k + 1 + 1] == '\n');
                    assert(has_crlf(s));
                }
                lemma_lines_round_trip(rest);
                lemma_line_items_nonempty(rest);
                lemma_join_cons(line, line_items(rest));
                assert(line + seq!['\n'] + rest =~= s);
            }
        }
    }
}

/// The first newline of a text is where a newline stands that no newline
/// stands before.
proof fn lemma_first_newline_found(s: Seq<char>, k: int)
    requires
        0 <= k <= s.len(),
        forall|i: int| 0 <= i < k ==> s[i] != '\n',
        k < s.len() ==> s[k] == '\n',
    ensures
        first_newline(s) == k,
    decreases k,
{
    if k > 0 {
        let t = s.drop_first();
        assert forall|i: int| 0 <= i < k - 1 implies t[i] != '\n' by {
            assert(t[i] == s[i + 1]);
        }
        lemma_first_newline_found(t, k - 1);
    }
}

/// Views of a list of lines.
pub open spec fn line_views(lines: Seq<Vec<char>>) -> Seq<Seq<char>> {
    lines.map_values(|l: Vec<char>| l@)
}

/// A copy of the characters from `from` up to `to`.
fn copy_range(chars: &Vec<char>, from: usize, to: usize) -> (out: Vec<char>)
    requires
        from <= to <= chars.len(),
    ensures
        out@ == chars@.subrange(from as int, to as int),
{
    let mut out: Vec<char> = Vec::new();
    let mut i: usize = from;
    while i < to
        invariant
            from <= i <= to <= chars.len(),
            out@ == chars@.subrange(from as int, i as int),
        decreases to - i,
    {
        out.push(chars[i]);
        assert(chars@.subrange(from as int, i + 1) =~= chars@.subrange(from as int, i as int).push(
            chars@[i as int],
        ));
        i += 1;
    }
    out
}

/// The lines of a text as a line diff sees them: see [`line_items`].
pub fn split_lines(text: &str) -> (lines: Vec<Vec<char>>)
    ensures
        line_views(lines@) == line_items(text@),
{
    let chars = chars_of(text);
    let n = chars.len();
    let ghost s = chars@;
    let mut lines: Vec<Vec<char>> = Vec::new();
    if n == 0 {
        assert(line_views(lines@) =~= line_items(s));
        return lines;
    }
    let mut start: usize = 0;
    assert(s.skip(0) =~= s);
    assert(line_views(lines@) + line_items(s.skip(0)) =~= line_items(s));
    loop
        invariant
            start < n,
            n == chars.len(),
            s == chars@,
            s == text@,
            line_views(lines@) + line_items(s.skip(start as int)) == line_items(s),
        decreases n - start,
    {
        let ghost rest = s.skip(start as int);
        let ghost done = line_views(lines@);
        let mut j: usize = start;
        while j < n && chars[j] != '\n'
            invariant
                start <= j <= n,
                n == chars.len(),
                s == chars@,
                forall|k: int| start <= k < j ==> s[k] != '\n',
            decreases n - j,
        {
            j += 1;
        }
        proof {
            assert forall|i: int| 0 <= i < j - start implies rest[i] != '\n' by {
                assert(rest[i] == s[i + start]);
            }
            lemma_first_newline_found(rest, j - start);
        }
        if j == n {
            let line = copy_range(&chars, start, n);
            lines.push(line);
            proof {
                assert(line@ =~= rest);
                assert(line_views(lines@) =~= done.push(rest));
                assert(done.push(rest) =~= done + seq![rest]);
            }
            return lines;
        }
        let mut end: usize = j;
        if end > start && chars[end - 1] == '\r' {
            end -= 1;
        }
        let line = copy_range(&chars, start, end);
        proof {
            let full = rest.subrange(0, j - start);
            assert(full =~= s.subrange(start as int, j as int));
            if j > start {
                assert(full.last() == s[j - 1]);
            }
            assert(line@ =~= strip_cr(full));
        }
        lines.push(line);
        assert(line_views(lines@) =~= done.push(line@));
        if j + 1 == n {
            let ghost with_line = line_views(lines@);
            lines.push(Vec::new());
            proof {
                assert(line_views(lines@) =~= with_line.push(Seq::<char>::empty()));
                assert(line_views(lines@) =~= done + seq![line@, Seq::<char>::empty()]);
            }
            return lines;
        }
        proof {
            assert(rest.subrange(j - start + 1, rest.len() as int) =~= s.skip(j + 1));
            assert(done.push(line@) + line_items(s.skip(j + 1)) =~= done + (seq![line@]
                + line_items(s.skip(j + 1))));
        }
        start = j + 1;
    }
}

impl<'a> MergeItem for &'a str {
    fn same(&self, other: &Self) -> (r: bool) {
        **self == **other
    }
}

/// Calls `diff::chars`. Trusted: the script is a function of the two texts;
/// its `Left` and `Both` items spell the left text and its `Both` and
/// `Right` items the right one; the two forms of a kept character are
/// equal; and between equal texts every step keeps.
#[verifier::external_body]
pub(crate) fn diff_chars(left: &str, right: &str) -> (script: Vec<Edit<char>>)
    ensures
        script_view(script@) == char_script(left@, right@),
        left_projection(script_view(script@)) == left@,
        right_projection(script_view(script@)) == right@,
        faithful(script_view(script@)),
        left@ == right@ ==> unchanged(script_view(script@)),
{
    diff::chars(left, right)
        .into_iter()
        .map(|step| match step {
            diff::Result::Left(x) => Edit::Left(x),
            diff::Result::Both(x, y) => Edit::Both(x, y),
            diff::Result::Right(y) => Edit::Right(y),
        })
        .collect()
}

/// Calls `diff::lines`. Trusted: the script is a function of the two texts;
/// its `Left` and `Both` items are the lines of the left text and its
/// `Both` and `Right` items those of the right one; the two forms of a kept
/// line are equal; and between equal texts every step keeps.
#[verifier::external_body]
pub(crate) fn diff_lines<'a>(left: &'a str, right: &'a str) -> (script: Vec<Edit<&'a str>>)
    ensures
        script_view(script@) == line_script(left@, right@),
        left_projection(script_view(script@)) == line_items(left@),
        right_projection(script_view(script@)) == line_items(right@),
        faithful(script_view(script@)),
        left@ == right@ ==> unchanged(script_view(script@)),
{
    diff::lines(left, right)
        .into_iter()
        .map(|step| match step {
            diff::Result::Left(x) => Edit::Left(x),
            diff::Result::Both(x, y) => Edit::Both(x, y),
            diff::Result::Right(y) => Edit::Right(y),
        })
        .collect()
}

} // verus!
