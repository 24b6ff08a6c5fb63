//! Why the slug allocator always finds a slug: the candidates from one
//! base are all different, so a table can take only as many of them as it
//! has rows.

use vstd::prelude::*;
use vstd::relations::injective_on;
use vstd::set_lib::{lemma_int_range, lemma_len_subset, lemma_map_size, set_int_range};
use super::slug::{candidate, decimal, decide_slug_from, digit, first_free, kept_slug, lemma_first_free};
use super::table::{consistent, next_sequence_number, row_consistent, slug_in_use, StoreView};
use crate::models::RevisionView;

verus! {

proof fn lemma_decimal_len(n: nat)
    ensures
        decimal(n).len() >= 1,
    decreases n,
{
    if n >= 10 {
        lemma_decimal_len(n / 10);
    }
}

/// Different numbers have different decimal forms.
pub proof fn lemma_decimal_injective(n: nat, m: nat)
    requires
        decimal(n) == decimal(m),
    ensures
        n == m,
    decreases n,
{
    lemma_decimal_len(n / 10);
    lemma_decimal_len(m / 10);
    if n < 10 && m < 10 {
        assert(decimal(n)[0] == digit(n as int));
        assert(decimal(m)[0] == digit(m as int));
    } else if n >= 10 && m >= 10 {
        let a = decimal(n / 10);
        let b = decimal(m / 10);
        assert(decimal(n).drop_last() =~= a);
        assert(decimal(m).drop_last() =~= b);
        assert(decimal(n).last() == digit((n % 10) as int));
        assert(decimal(m).last() == digit((m % 10) as int));
        lemma_decimal_injective(n / 10, m / 10);
    } else if n < 10 {
        assert(decimal(n).len() == 1);
        assert(decimal(m).len() == decimal(m / 10).len() + 1);
    } else {
        assert(decimal(m).len() == 1);
        assert(decimal(n).len() == decimal(n / 10).len() + 1);
    }
}

/// Different numbers give different candidates from one base.
pub proof fn lemma_candidate_injective(base: Seq<char>, n: int, m: int)
    requires
        1 <= n,
        1 <= m,
        candidate(base, n) == candidate(base, m),
    ensures
        n == m,
{
    lemma_decimal_len(n as nat);
    lemma_decimal_len(m as nat);
    if n > 1 && m > 1 {
        let x = candidate(base, n);
        let y = candidate(base, m);
        assert(x.subrange(base.len() as int + 1, x.len() as int) =~= decimal(n as nat));
        assert(y.subrange(base.len() as int + 1, y.len() as int) =~= decimal(m as nat));
        lemma_decimal_injective(n as nat, m as nat);
    } else if n > 1 || m > 1 {
        assert(candidate(base, n).len() != candidate(base, m).len());
    }
}

/// A consistent table has fewer rows than its next sequence number says:
/// a store that can take another row has fewer rows than there are 32-bit
/// numbers above zero.
pub proof fn lemma_rows_below_sequence(s: StoreView)
    requires
        consistent(s),
    ensures
        s.rows.len() < next_sequence_number(s.rows),
{
    lemma_sequence_at_least(s, s.rows.len() as int);
}

proof fn lemma_sequence_at_least(s: StoreView, k: int)
    requires
        consistent(s),
        0 <= k <= s.rows.len(),
    ensures
        forall|i: int| 0 <= i < k ==> (#[trigger] s.rows[i]).sequence_number >= i + 1,
    decreases k,
{
    if k > 0 {
        lemma_sequence_at_least(s, k - 1);
        assert(row_consistent(s, k - 1));
        if k > 1 {
            assert(s.rows[k - 2].sequence_number < s.rows[k - 1].sequence_number);
        }
    }
}

/// The row that holds a candidate in use.
pub open spec fn holder(rows: Seq<RevisionView>, article_id: int, slug: Seq<char>) -> int {
    choose|i: int|
        0 <= i < rows.len() && (#[trigger] rows[i]).latest && rows[i].article_id != article_id
            && rows[i].slug == slug
}

/// A table with fewer rows than there are 32-bit numbers above zero leaves
/// a candidate free, whatever the base.
pub proof fn lemma_candidate_free(rows: Seq<RevisionView>, article_id: int, base: Seq<char>)
    requires
        rows.len() < i32::MAX,
    ensures
        first_free(rows, article_id, base, 1) is Some,
{
    lemma_first_free(rows, article_id, base, 1);
    if first_free(rows, article_id, base, 1) is None {
        let numbers = set_int_range(1, i32::MAX + 1);
        let f = |k: int| holder(rows, article_id, candidate(base, k));
        lemma_int_range(1, i32::MAX + 1);
        assert forall|k: int| numbers.contains(k) implies 0 <= #[trigger] f(k) < rows.len()
            && rows[f(k)].slug == candidate(base, k) by {
            assert(slug_in_use(rows, article_id, candidate(base, k)));
        }
        assert(injective_on(f, numbers)) by {
            assert forall|x1: int, x2: int|
                numbers.contains(x1) && numbers.contains(x2) && #[trigger] f(x1) == #[trigger] f(
                    x2,
                ) implies x1 == x2 by {
                lemma_candidate_injective(base, x1, x2);
            }
        }
        let holders = numbers.map(f);
        lemma_map_size(numbers, holders, f);
        let positions = set_int_range(0, rows.len() as int);
        lemma_int_range(0, rows.len() as int);
        assert(holders.subset_of(positions)) by {
            assert forall|i: int| holders.contains(i) implies positions.contains(i) by {
                let k = choose|k: int| numbers.contains(k) && f(k) == i;
                assert(0 <= f(k) < rows.len());
            }
        }
        lemma_len_subset(holders, positions);
    }
}

/// Over a table with fewer rows than there are 32-bit numbers above zero,
/// the allocator finds a slug.
pub proof fn lemma_allocator_finds(
    rows: Seq<RevisionView>,
    article_id: int,
    prev_title: Seq<char>,
    title: Seq<char>,
    prev_slug: Option<Seq<char>>,
    base_slug: Seq<char>,
)
    requires
        rows.len() < i32::MAX,
    ensures
        decide_slug_from(rows, article_id, prev_title, title, prev_slug, base_slug) is Some,
{
    if kept_slug(prev_title, title, prev_slug, base_slug) is None {
        let base = if base_slug.len() == 0 {
            "article"@
        } else {
            base_slug
        };
        lemma_candidate_free(rows, article_id, base);
    }
}

} // verus!
