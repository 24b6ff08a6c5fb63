use sausagewiki::merge::chunk::{Chunk, Edit};
use sausagewiki::merge::chunk_iterator::{ChunkItem, ChunkIterator, ChunkKind, MergeIterator};
use sausagewiki::merge::output::{choose_left, choose_right, resolve};
use sausagewiki::merge::text::split_lines;
use sausagewiki::merge::{merge_chars, merge_hunks, merge_lines, MergeResult, Output};

fn edits<T>(script: Vec<diff::Result<T>>) -> Vec<Edit<T>> {
    script
        .into_iter()
        .map(|step| match step {
            diff::Result::Left(x) => Edit::Left(x),
            diff::Result::Both(x, y) => Edit::Both(x, y),
            diff::Result::Right(y) => Edit::Right(y),
        })
        .collect()
}

#[test]
fn chunk_iterator_simple_case() {
    let o = "aaabbbccc";
    let a = "aaaxxxbbbccc";
    let b = "aaabbbyyyccc";

    let oa = edits(diff::chars(o, a));
    let ob = edits(diff::chars(o, b));

    let chunks = ChunkIterator::new(&oa, &ob).collect();

    assert_eq!(
        vec![
            Chunk(&oa[0..3], &ob[0..3]),
            Chunk(&oa[3..6], &ob[3..3]),
            Chunk(&oa[6..9], &ob[3..6]),
            Chunk(&oa[9..9], &ob[6..9]),
            Chunk(&oa[9..12], &ob[9..12]),
        ],
        chunks
    );
}

#[test]
fn chunk_iterator_real_conflict() {
    let o = "aaabbbccc";
    let a = "aaaxxxccc";
    let b = "aaayyyccc";

    let oa = edits(diff::chars(o, a));
    let ob = edits(diff::chars(o, b));

    let chunks = ChunkIterator::new(&oa, &ob).collect();
    assert_eq!(
        vec![
            Chunk(&oa[0..3], &ob[0..3]),
            Chunk(&oa[3..9], &ob[3..9]),
            Chunk(&oa[9..12], &ob[9..12]),
        ],
        chunks
    );
}

#[test]
fn chunk_iterator_additional_at_end() {
    let o = "aaabbbccc";
    let a = "aaabbbccc";
    let b = "aaabbbcccddd";

    let oa = edits(diff::chars(o, a));
    let ob = edits(diff::chars(o, b));

    let chunks = ChunkIterator::new(&oa, &ob).collect();
    assert_eq!(
        vec![Chunk(&oa[0..9], &ob[0..9]), Chunk(&oa[9..9], &ob[9..12]),],
        chunks
    );
}

#[test]
fn chunk_iterator_additional_at_end_2() {
    let o = "aaabbb";
    let a = "aaabbbccc";
    let b = "aaabbbcccddd";

    let oa = edits(diff::chars(o, a));
    let ob = edits(diff::chars(o, b));

    let chunks = ChunkIterator::new(&oa, &ob).collect();
    assert_eq!(
        vec![Chunk(&oa[0..6], &ob[0..6]), Chunk(&oa[6..9], &ob[6..12]),],
        chunks
    );
}

#[test]
fn chunk_iterator_completely_unrelated() {
    let o = "aaa";
    let a = "bbb";
    let b = "ccc";

    let oa = edits(diff::chars(o, a));
    let ob = edits(diff::chars(o, b));

    let chunks = ChunkIterator::new(&oa, &ob).collect();
    assert_eq!(vec![Chunk(&oa[0..6], &ob[0..6]),], chunks);
}

#[test]
fn empty() {
    assert_eq!(Output::Resolved(vec![]), resolve::<i32>(Chunk(&[], &[])));
}

#[test]
fn same() {
    assert_eq!(
        Output::Resolved(vec![1]),
        resolve::<i32>(Chunk(&[Edit::Both(1, 1)], &[Edit::Both(1, 1)]))
    );
}

#[test]
fn only_left() {
    assert_eq!(
        Output::Resolved(vec![2]),
        resolve::<i32>(Chunk(&[Edit::Left(1), Edit::Right(2)], &[]))
    );
}

#[test]
fn output_false_conflict() {
    assert_eq!(
        Output::Resolved(vec![2]),
        resolve::<i32>(Chunk(
            &[Edit::Left(1), Edit::Right(2)],
            &[Edit::Left(1), Edit::Right(2)],
        ))
    );
}

#[test]
fn output_real_conflict() {
    assert_eq!(
        Output::Conflict(vec![2], vec![1], vec![3],),
        resolve::<i32>(Chunk(
            &[Edit::Left(1), Edit::Right(2)],
            &[Edit::Left(1), Edit::Right(3)],
        ))
    );
}

#[test]
fn mod_simple_case() {
    fn merge_chars(a: &str, o: &str, b: &str) -> Vec<Output<char>> {
        let oa = edits(diff::chars(o, a));
        let ob = edits(diff::chars(o, b));
        merge_hunks(&oa, &ob)
    }

    assert_eq!(
        vec![
            Output::Resolved("aaa".chars().collect()),
            Output::Resolved("xxx".chars().collect()),
            Output::Resolved("bbb".chars().collect()),
            Output::Resolved("yyy".chars().collect()),
            Output::Resolved("ccc".chars().collect()),
        ],
        merge_chars("aaaxxxbbbccc", "aaabbbccc", "aaabbbyyyccc",)
    );
}

#[test]
fn clean_case() {
    assert_eq!(
        MergeResult::Clean("aaa\nxxx\nbbb\nyyy\nccc\n".into()),
        merge_lines("aaa\nxxx\nbbb\nccc\n", "aaa\nbbb\nccc\n", "aaa\nbbb\nyyy\nccc\n",)
    );
}

#[test]
fn clean_case_chars() {
    assert_eq!(
        MergeResult::Clean("Title".into()),
        merge_chars("Titlle", "titlle", "title",)
    );
}

#[test]
fn mod_false_conflict() {
    assert_eq!(
        MergeResult::Clean("aaa\nxxx\nccc\n".into()),
        merge_lines("aaa\nxxx\nccc\n", "aaa\nbbb\nccc\n", "aaa\nxxx\nccc\n",)
    );
}

#[test]
fn true_conflict() {
    assert_eq!(
        MergeResult::Conflicted(vec![
            Output::Resolved(vec!["aaa"]),
            Output::Conflict(vec!["xxx"], vec![], vec!["yyy"]),
            Output::Resolved(vec!["bbb", "ccc", ""]),
        ]),
        merge_lines("aaa\nxxx\nbbb\nccc\n", "aaa\nbbb\nccc\n", "aaa\nyyy\nbbb\nccc\n",)
    );
}

#[test]
fn identical_sides_merge_to_the_side() {
    assert_eq!(
        MergeResult::Clean("one\ntwo\n".into()),
        merge_lines("one\ntwo\n", "zero\n", "one\ntwo\n")
    );
    assert_eq!(MergeResult::Clean("abc".into()), merge_chars("abc", "xyz", "abc"));
}

#[test]
fn unchanged_side_gives_way_to_the_other() {
    assert_eq!(MergeResult::Clean("a\nb".into()), merge_lines("a\nb", "a", "a"));
    assert_eq!(MergeResult::Clean("a\nb".into()), merge_lines("a", "a", "a\nb"));
    assert_eq!(MergeResult::Clean("Hello".into()), merge_chars("Hello", "hello", "hello"));
    assert_eq!(MergeResult::Clean("Hello".into()), merge_chars("hello", "hello", "Hello"));
}

#[test]
fn carriage_return_before_newline_is_dropped_from_a_clean_line_merge() {
    assert_eq!(MergeResult::Clean("a\nb".into()), merge_lines("a\r\nb", "a", "a\r\nb"));
    assert_eq!(MergeResult::Clean("a\r".into()), merge_lines("a\r", "a", "a\r"));
}

#[test]
fn flatten_marks_line_conflicts() {
    let merged = merge_lines("aaa\nxxx\nbbb\n", "aaa\nbbb\n", "aaa\nyyy\nbbb\n").to_strings();
    assert_eq!(
        "aaa\n<<<<<<< Your changes:\nxxx\n======= Their changes:\nyyy\n>>>>>>> Conflict ends here\nbbb\n\n",
        merged.flatten()
    );
}

#[test]
fn flatten_marks_char_conflicts() {
    assert_eq!("a<x|y>c", merge_chars("axc", "abc", "ayc").flatten());
    assert_eq!("abc", merge_chars("abc", "abc", "abc").flatten());
}

#[test]
fn merge_simple_case() {
    let o = "aaabbbccc";
    let a = "aaaxxxbbbccc";
    let b = "aaabbbyyyccc";

    let oa = edits(diff::chars(o, a));
    let ob = edits(diff::chars(o, b));

    let merge = MergeIterator::new(&oa, &ob).collect();

    assert_eq!(
        vec![
            ChunkItem::stable(Chunk(&oa[0..3], &ob[0..3])),
            ChunkItem::unstable(Chunk(&oa[3..6], &ob[3..3])),
            ChunkItem::stable(Chunk(&oa[6..9], &ob[3..6])),
            ChunkItem::unstable(Chunk(&oa[9..9], &ob[6..9])),
            ChunkItem::stable(Chunk(&oa[9..12], &ob[9..12])),
        ],
        merge
    );
}

#[test]
fn merge_real_conflict() {
    let o = "aaabbbccc";
    let a = "aaaxxxccc";
    let b = "aaayyyccc";

    let oa = edits(diff::chars(o, a));
    let ob = edits(diff::chars(o, b));

    let merge = MergeIterator::new(&oa, &ob).collect();
    assert_eq!(
        vec![
            ChunkItem::stable(Chunk(&oa[0..3], &ob[0..3])),
            ChunkItem::unstable(Chunk(&oa[3..9], &ob[3..9])),
            ChunkItem::stable(Chunk(&oa[9..12], &ob[9..12])),
        ],
        merge
    );
}

#[test]
fn merge_additional_at_end() {
    let o = "aaabbbccc";
    let a = "aaabbbccc";
    let b = "aaabbbcccddd";

    let oa = edits(diff::chars(o, a));
    let ob = edits(diff::chars(o, b));

    let merge = MergeIterator::new(&oa, &ob).collect();
    assert_eq!(
        vec![
            ChunkItem::stable(Chunk(&oa[0..9], &ob[0..9])),
            ChunkItem::unstable(Chunk(&oa[9..9], &ob[9..12])),
        ],
        merge
    );
}

#[test]
fn merge_additional_at_end_2() {
    let o = "aaabbb";
    let a = "aaabbbccc";
    let b = "aaabbbcccddd";

    let oa = edits(diff::chars(o, a));
    let ob = edits(diff::chars(o, b));

    let merge = MergeIterator::new(&oa, &ob).collect();
    assert_eq!(
        vec![
            ChunkItem::stable(Chunk(&oa[0..6], &ob[0..6])),
            ChunkItem::unstable(Chunk(&oa[6..9], &ob[6..12])),
        ],
        merge
    );
}

#[test]
fn merge_completely_unrelated() {
    let o = "aaa";
    let a = "bbb";
    let b = "ccc";

    let oa = edits(diff::chars(o, a));
    let ob = edits(diff::chars(o, b));

    let merge = MergeIterator::new(&oa, &ob).collect();
    assert_eq!(vec![ChunkItem::unstable(Chunk(&oa[0..6], &ob[0..6])),], merge);
}

#[test]
fn chunks_come_one_by_one() {
    let oa = edits(diff::chars("ab", "axb"));
    let ob = edits(diff::chars("ab", "ab"));
    let mut chunks = ChunkIterator::new(&oa, &ob);
    assert_eq!(Some(Chunk(&oa[0..1], &ob[0..1])), chunks.next());
    assert_eq!(Some(Chunk(&oa[1..2], &ob[1..1])), chunks.next());
    assert_eq!(Some(Chunk(&oa[2..3], &ob[1..2])), chunks.next());
    assert_eq!(None, chunks.next());
    assert_eq!(None, chunks.next());

    let mut items = MergeIterator::new(&oa, &ob);
    assert_eq!(ChunkKind::Stable, items.next().unwrap().kind);
    assert_eq!(ChunkKind::Unstable, items.next().unwrap().kind);
    assert_eq!(ChunkKind::Stable, items.next().unwrap().kind);
    assert_eq!(None, items.next());
    assert_eq!(ChunkKind::Unstable, Chunk::<char>(&[], &[]).kind());
}

#[test]
fn lines_of_a_text_are_the_items_of_its_line_diff() {
    let texts = [
        "",
        "a",
        "a\n",
        "a\nb",
        "a\nb\n",
        "\n",
        "\n\n",
        "a\n\nb",
        "a\r\nb",
        "a\r\nb\r\n",
        "\r\n",
        "\r",
        "a\r",
        "a\rb\n",
        "a\r\r\nb",
        "\n\r\n\r",
        "tr\u{e9}s\nbien\n",
    ];
    for text in texts {
        let expected: Vec<String> =
            split_lines(text).into_iter().map(|line| line.into_iter().collect()).collect();
        for other in texts {
            let forward = edits(diff::lines(other, text));
            let backward = edits(diff::lines(text, other));
            assert_eq!(expected, choose_right(&forward), "{:?} after {:?}", text, other);
            assert_eq!(expected, choose_left(&backward), "{:?} before {:?}", text, other);
        }
        if !text.contains("\r\n") {
            assert_eq!(text, expected.join("\n"));
            assert_eq!(MergeResult::Clean(text.into()), merge_lines(text, "x\ny", text));
            assert_eq!(MergeResult::Clean(text.into()), merge_lines(text, "x\ny", "x\ny"));
            assert_eq!(MergeResult::Clean(text.into()), merge_lines("x\ny", "x\ny", text));
        }
    }
}

#[test]
fn chars_of_a_text_are_the_items_of_its_char_diff() {
    let texts = ["", "a", "abc", "xbz", "\u{e9}\u{10000}", "aaa"];
    for text in texts {
        let expected: Vec<char> = text.chars().collect();
        for other in texts {
            let forward = edits(diff::chars(other, text));
            let backward = edits(diff::chars(text, other));
            assert_eq!(expected, choose_right(&forward));
            assert_eq!(expected, choose_left(&backward));
            assert!(forward.iter().all(|step| match step {
                Edit::Both(x, y) => x == y,
                _ => true,
            }));
            if text == other {
                assert!(forward.iter().all(|step| matches!(step, Edit::Both(..))));
            }
        }
        assert_eq!(MergeResult::Clean(text.into()), merge_chars(text, "xyz", text));
        assert_eq!(MergeResult::Clean(text.into()), merge_chars(text, "xyz", "xyz"));
        assert_eq!(MergeResult::Clean(text.into()), merge_chars("xyz", "xyz", text));
    }
}
