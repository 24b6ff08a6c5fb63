//! The slug allocator: derives for an article a slug that no other
//! article's latest revision has, and keeps a slug where it can.

use vstd::prelude::*;
use super::free::lemma_allocator_finds;
use super::table::{
    consistent,
    is_slug_char,
    slug_in_use,
    url_safe,
    StoreView,
};
use super::{head_index, lemma_head_index, lemma_head_is_latest, Error, SyncState};
use crate::models::RevisionView;

verus! {

/// The slug that `slug::slugify` makes of a text.
pub uninterp spec fn slugify_of(text: Seq<char>) -> Seq<char>;

/// Calls `slug::slugify`, which turns a text into a lower-case ASCII slug.
/// Trusted: the slug is a function of the text alone, and it consists of
/// lower-case ASCII letters, digits and hyphens.
#[verifier::external_body]
pub(crate) fn slugify(text: &str) -> (slug: String)
    ensures
        slug@ == slugify_of(text@),
        url_safe(slug@),
{
    ::slug::slugify(text)
}

/// The slug under which a requested slug is to be looked up, if it is not
/// the requested one itself: the slug that `slug::slugify` makes of it.
pub fn normalize_slug(requested: &str) -> (r: Option<String>)
    ensures
        match r {
            Some(normal) => normal@ == slugify_of(requested@) && normal@ != requested@
                && url_safe(normal@),
            None => slugify_of(requested@) == requested@ && url_safe(requested@),
        },
{
    let normal = slugify(requested);
    if *normal.as_str() == *requested {
        None
    } else {
        Some(normal)
    }
}

/// The character of a decimal digit.
pub open spec fn digit(d: int) -> char {
    if d == 0 {
        '0'
    } else if d == 1 {
        '1'
    } else if d == 2 {
        '2'
    } else if d == 3 {
        '3'
    } else if d == 4 {
        '4'
    } else if d == 5 {
        '5'
    } else if d == 6 {
        '6'
    } else if d == 7 {
        '7'
    } else if d == 8 {
        '8'
    } else {
        '9'
    }
}

/// A natural number in decimal, without leading zeros.
pub open spec fn decimal(n: nat) -> Seq<char>
    decreases n,
{
    if n < 10 {
        seq![digit(n as int)]
    } else {
        decimal(n / 10).push(digit((n % 10) as int))
    }
}

/// The n-th candidate for a slug: the base itself, then the base with `-2`,
/// `-3` and so on.
pub open spec fn candidate(base: Seq<char>, n: int) -> Seq<char> {
    if n <= 1 {
        base
    } else {
        base + seq!['-'] + decimal(n as nat)
    }
}

/// Number of the first candidate, from the n-th on, that no other article's
/// latest revision has; `None` if all up to the largest 32-bit number are
/// taken.
pub open spec fn first_free(
    rows: Seq<RevisionView>,
    article_id: int,
    base: Seq<char>,
    n: int,
) -> Option<int>
    decreases i32::MAX - n,
{
    if n > i32::MAX {
        None
    } else if !slug_in_use(rows, article_id, candidate(base, n)) {
        Some(n)
    } else if n == i32::MAX {
        None
    } else {
        first_free(rows, article_id, base, n + 1)
    }
}

/// The slug that a revision keeps from the one before it, if it keeps one:
/// the empty slug of the front page, the slug of an unchanged title, and
/// the slug that is the one the new title makes.
pub open spec fn kept_slug(
    prev_title: Seq<char>,
    title: Seq<char>,
    prev_slug: Option<Seq<char>>,
    base_slug: Seq<char>,
) -> Option<Seq<char>> {
    match prev_slug {
        Some(p) => if p.len() == 0 {
            Some(Seq::empty())
        } else if title == prev_title {
            Some(p)
        } else if base_slug == p {
            Some(base_slug)
        } else {
            None
        },
        None => None,
    }
}

/// The slug for a revision, given the slug that its title makes.
///
/// The front page keeps its empty slug; an unchanged title keeps the slug;
/// so does a title that makes the slug the article has. Otherwise the slug
/// is the first free candidate from the title's slug, or from `article`
/// if that is empty.
pub open spec fn decide_slug_from(
    rows: Seq<RevisionView>,
    article_id: int,
    prev_title: Seq<char>,
    title: Seq<char>,
    prev_slug: Option<Seq<char>>,
    base_slug: Seq<char>,
) -> Option<Seq<char>> {
    match kept_slug(prev_title, title, prev_slug, base_slug) {
        Some(slug) => Some(slug),
        None => {
            let base = if base_slug.len() == 0 {
                "article"@
            } else {
                base_slug
            };
            match first_free(rows, article_id, base, 1) {
                Some(n) => Some(candidate(base, n)),
                None => None,
            }
        },
    }
}

/// The slug for a revision of an article.
pub open spec fn decide_slug_spec(
    rows: Seq<RevisionView>,
    article_id: int,
    prev_title: Seq<char>,
    title: Seq<char>,
    prev_slug: Option<Seq<char>>,
) -> Option<Seq<char>> {
    decide_slug_from(rows, article_id, prev_title, title, prev_slug, slugify_of(title))
}

/// Content of an optional string slice.
pub open spec fn option_str_view(s: Option<&str>) -> Option<Seq<char>> {
    match s {
        Some(x) => Some(x@),
        None => None,
    }
}

/// The first free candidate is free, and every candidate before it is
/// taken.
pub proof fn lemma_first_free(rows: Seq<RevisionView>, article_id: int, base: Seq<char>, n: int)
    requires
        n <= i32::MAX,
    ensures
        match first_free(rows, article_id, base, n) {
            Some(m) => n <= m <= i32::MAX && !slug_in_use(rows, article_id, candidate(base, m))
                && forall|k: int| n <= k < m ==> slug_in_use(rows, article_id, candidate(base, k)),
            None => forall|k: int|
                n <= k <= i32::MAX ==> slug_in_use(rows, article_id, candidate(base, k)),
        },
    decreases i32::MAX - n,
{
    if slug_in_use(rows, article_id, candidate(base, n)) && n < i32::MAX {
        lemma_first_free(rows, article_id, base, n + 1);
    }
}

/// The slug that the allocator decides for the next revision of an article
/// from the article's latest title and slug is one that no other article's
/// latest revision has.
pub proof fn lemma_kept_or_free(s: StoreView, article_id: int, title: Seq<char>)
    requires
        consistent(s),
        head_index(s.rows, article_id) >= 0,
    ensures
        ({
            let head = s.rows[head_index(s.rows, article_id)];
            decide_slug_spec(s.rows, article_id, head.title, title, Some(head.slug)) matches Some(
                slug,
            ) ==> !slug_in_use(s.rows, article_id, slug)
        }),
{
    let h = head_index(s.rows, article_id);
    let head = s.rows[h];
    lemma_head_index(s.rows, article_id);
    lemma_head_is_latest(s, article_id);
    let base_slug = slugify_of(title);
    match kept_slug(head.title, title, Some(head.slug), base_slug) {
        Some(slug) => {
            assert(slug =~= head.slug);
            assert forall|i: int|
                0 <= i < s.rows.len() && (#[trigger] s.rows[i]).latest && s.rows[i].article_id
                    != article_id implies s.rows[i].slug != slug by {
                if i < h {
                    assert(s.rows[i].slug != s.rows[h].slug);
                } else {
                    assert(s.rows[h].slug != s.rows[i].slug);
                }
            }
        },
        None => {
            let base = if base_slug.len() == 0 {
                "article"@
            } else {
                base_slug
            };
            lemma_first_free(s.rows, article_id, base, 1);
        },
    }
}

/// A candidate from a URL-safe base is URL-safe.
pub proof fn lemma_candidate_safe(base: Seq<char>, n: int)
    requires
        url_safe(base),
        0 <= n,
    ensures
        url_safe(candidate(base, n)),
{
    if n > 1 {
        lemma_decimal_safe(n as nat);
        let c = candidate(base, n);
        assert forall|i: int| 0 <= i < c.len() implies is_slug_char(#[trigger] c[i]) by {
            if i < base.len() {
                assert(c[i] == base[i]);
            } else if i > base.len() {
                assert(c[i] == decimal(n as nat)[i - base.len() - 1]);
            }
        }
    }
}

proof fn lemma_decimal_safe(n: nat)
    ensures
        url_safe(decimal(n)),
    decreases n,
{
    if n >= 10 {
        lemma_decimal_safe(n / 10);
    }
}

fn digit_char(d: u32) -> (c: char)
    requires
        d < 10,
    ensures
        c == digit(d as int),
{
    if d == 0 {
        '0'
    } else if d == 1 {
        '1'
    } else if d == 2 {
        '2'
    } else if d == 3 {
        '3'
    } else if d == 4 {
        '4'
    } else if d == 5 {
        '5'
    } else if d == 6 {
        '6'
    } else if d == 7 {
        '7'
    } else if d == 8 {
        '8'
    } else {
        '9'
    }
}

/// Appends a number in decimal.
fn push_decimal(text: &mut String, n: u32)
    ensures
        final(text)@ == old(text)@ + decimal(n as nat),
    decreases n,
{
    if n >= 10 {
        push_decimal(text, n / 10);
    }
    text.push(digit_char(n % 10));
    proof {
        if n >= 10 {
            assert(text@ =~= old(text)@ + decimal(n as nat));
        } else {
            assert(text@ =~= old(text)@ + decimal(n as nat));
        }
    }
}

/// The n-th candidate from a base.
fn numbered(base: &str, n: i32) -> (slug: String)
    requires
        n >= 2,
    ensures
        slug@ == candidate(base@, n as int),
{
    let mut slug = base.to_owned();
    slug.push('-');
    push_decimal(&mut slug, n as u32);
    assert(slug@ =~= base@ + seq!['-'] + decimal(n as nat));
    slug
}

/// The first candidate from a base that no other article's latest revision
/// has.
fn first_free_slug(state: &SyncState, article_id: i32, base: &str) -> (r: Result<String, Error>)
    ensures
        match first_free(state@.rows, article_id as int, base@, 1) {
            Some(n) => r matches Ok(s) && s@ == candidate(base@, n),
            None => r == Err::<String, Error>(Error::Exhausted),
        },
        url_safe(base@) ==> (r matches Ok(s) ==> url_safe(s@)),
        r matches Ok(s) ==> s@.len() >= base@.len() && !slug_in_use(
            state@.rows,
            article_id as int,
            s@,
        ),
{
    let mut slug = base.to_owned();
    let mut disambiguator: i32 = 1;
    loop
        invariant
            1 <= disambiguator,
            slug@ == candidate(base@, disambiguator as int),
            first_free(state@.rows, article_id as int, base@, 1) == first_free(
                state@.rows,
                article_id as int,
                base@,
                disambiguator as int,
            ),
        decreases i32::MAX - disambiguator,
    {
        if !state.slug_in_use(article_id, slug.as_str()) {
            proof {
                if url_safe(base@) {
                    lemma_candidate_safe(base@, disambiguator as int);
                }
            }
            return Ok(slug);
        }
        if disambiguator == i32::MAX {
            return Err(Error::Exhausted);
        }
        disambiguator += 1;
        slug = numbered(base, disambiguator);
    }
}

/// The slug for a revision of an article, given the slug that its title
/// makes.
///
/// Fails only if every candidate up to the largest 32-bit number is taken,
/// and so never over a table with fewer rows than there are such numbers.
/// A slug that is not kept from the revision before is not empty, and no
/// other article's latest revision has it. From a URL-safe slug of the
/// title, the slug is URL-safe unless it is the slug kept for an unchanged
/// title.
pub fn allocate_slug(
    state: &SyncState,
    article_id: i32,
    prev_title: &str,
    title: &str,
    prev_slug: Option<&str>,
    base_slug: String,
) -> (r: Result<String, Error>)
    ensures
        match decide_slug_from(
            state@.rows,
            article_id as int,
            prev_title@,
            title@,
            option_str_view(prev_slug),
            base_slug@,
        ) {
            Some(slug) => r matches Ok(s) && s@ == slug,
            None => r == Err::<String, Error>(Error::Exhausted),
        },
        url_safe(base_slug@) ==> (r matches Ok(s) ==> url_safe(s@) || (title@ == prev_title@
            && option_str_view(prev_slug) == Some(s@))),
        kept_slug(prev_title@, title@, option_str_view(prev_slug), base_slug@) is None ==> (
        r matches Ok(s) ==> s@.len() > 0 && !slug_in_use(state@.rows, article_id as int, s@)),
        state@.rows.len() < i32::MAX ==> r is Ok,
{
    proof {
        if state@.rows.len() < i32::MAX {
            lemma_allocator_finds(
                state@.rows,
                article_id as int,
                prev_title@,
                title@,
                option_str_view(prev_slug),
                base_slug@,
            );
        }
    }
    if let Some(prev_slug) = prev_slug {
        if prev_slug.is_empty() {
            // Never give a non-empty slug to the front page
            let empty = String::new();
            assert(empty@ =~= Seq::<char>::empty());
            return Ok(empty);
        }
        if *title == *prev_title {
            return Ok(prev_slug.to_owned());
        }
        if *base_slug.as_str() == *prev_slug {
            return Ok(base_slug);
        }
    }
    let base: &str = if base_slug.as_str().is_empty() {
        "article"
    } else {
        base_slug.as_str()
    };
    proof {
        reveal_strlit("article");
    }
    first_free_slug(state, article_id, base)
}

/// The slug for a revision of an article: see [`decide_slug_from`] and
/// [`allocate_slug`].
pub fn decide_slug(
    state: &SyncState,
    article_id: i32,
    prev_title: &str,
    title: &str,
    prev_slug: Option<&str>,
) -> (r: Result<String, Error>)
    ensures
        match decide_slug_spec(
            state@.rows,
            article_id as int,
            prev_title@,
            title@,
            option_str_view(prev_slug),
        ) {
            Some(slug) => r matches Ok(s) && s@ == slug,
            None => r == Err::<String, Error>(Error::Exhausted),
        },
        r matches Ok(s) ==> url_safe(s@) || (title@ == prev_title@ && option_str_view(prev_slug)
            == Some(s@)),
        kept_slug(prev_title@, title@, option_str_view(prev_slug), slugify_of(title@)) is None
            ==> (r matches Ok(s) ==> s@.len() > 0 && !slug_in_use(
            state@.rows,
            article_id as int,
            s@,
        )),
        state@.rows.len() < i32::MAX ==> r is Ok,
{
    let base_slug = slugify(title);
    allocate_slug(state, article_id, prev_title, title, prev_slug, base_slug)
}

} // verus!
