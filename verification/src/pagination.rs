//! Keyset pagination: a listing continues either after or before a
//! sequence number, never both.

use vstd::prelude::*;

verus! {

/// `after` and `before` were both given.
#[derive(Debug, Clone, Copy, PartialEq, Eq)]
pub struct Error;

impl Error {
    /// The message shown to the client.
    pub fn to_string(&self) -> (message: String)
        ensures
            message@ == "`after` and `before` are mutually exclusive"@,
    {
        "`after` and `before` are mutually exclusive".to_owned()
    }
}

/// The two optional bounds as a request carries them.
pub struct PaginationStruct<T> {
    pub after: Option<T>,
    pub before: Option<T>,
}

/// Where a page of a listing starts.
#[derive(Debug, Copy, Clone, PartialEq, Eq)]
pub enum Pagination<T> {
    /// Rows with a sequence number above the bound, oldest first.
    After(T),
    /// Rows with a sequence number below the bound, newest first.
    Before(T),
    /// No bound: the newest rows.
    Unbounded,
}

/// The pagination that a pair of optional bounds stands for, if it stands
/// for one.
pub open spec fn pagination_of<T>(after: Option<T>, before: Option<T>) -> Option<Pagination<T>> {
    match (after, before) {
        (Some(x), None) => Some(Pagination::After(x)),
        (None, Some(x)) => Some(Pagination::Before(x)),
        (None, None) => Some(Pagination::Unbounded),
        (Some(_), Some(_)) => None,
    }
}

impl<T> PaginationStruct<T> {
    /// The pagination that the two bounds stand for; an error if both are
    /// given.
    pub fn into_enum(self) -> (r: Result<Pagination<T>, Error>)
        ensures
            match pagination_of(self.after, self.before) {
                Some(p) => r == Ok::<Pagination<T>, Error>(p),
                None => r is Err,
            },
    {
        match (self.after, self.before) {
            (Some(x), None) => Ok(Pagination::After(x)),
            (None, Some(x)) => Ok(Pagination::Before(x)),
            (None, None) => Ok(Pagination::Unbounded),
            _ => Err(Error),
        }
    }
}

/// The pagination that two optional bounds stand for; an error if both are
/// given.
pub fn from_fields<T>(after: Option<T>, before: Option<T>) -> (r: Result<Pagination<T>, Error>)
    ensures
        match pagination_of(after, before) {
            Some(p) => r == Ok::<Pagination<T>, Error>(p),
            None => r is Err,
        },
{
    PaginationStruct { after, before }.into_enum()
}

/// Rows on a page of a listing where the request names no limit.
pub const DEFAULT_LIMIT: i32 = 30;

/// Most rows that a request may ask for on one page.
pub const MAX_LIMIT: i32 = 100;

/// The limit that a request names is not between 1 and [`MAX_LIMIT`].
#[derive(Debug, Clone, Copy, PartialEq, Eq)]
pub struct LimitError;

impl LimitError {
    /// The message shown to the client.
    pub fn to_string(&self) -> (message: String)
        ensures
            message@ == "`limit` argument must be in range [1, 100]"@,
    {
        "`limit` argument must be in range [1, 100]".to_owned()
    }
}

/// The number of rows on a page: the limit that the request names, which
/// must lie between 1 and [`MAX_LIMIT`], or [`DEFAULT_LIMIT`] if it names
/// none.
pub fn page_limit(requested: Option<i32>) -> (r: Result<i32, LimitError>)
    ensures
        match requested {
            None => r == Ok::<i32, LimitError>(DEFAULT_LIMIT),
            Some(x) => if 1 <= x <= MAX_LIMIT {
                r == Ok::<i32, LimitError>(x)
            } else {
                r is Err
            },
        },
{
    match requested {
        None => Ok(DEFAULT_LIMIT),
        Some(x) => if 1 <= x && x <= MAX_LIMIT {
            Ok(x)
        } else {
            Err(LimitError)
        },
    }
}

/// Takes off a listing the one row that it holds beyond the page, if it
/// holds one: the sign that another page follows.
pub fn take_extra<T>(data: &mut Vec<T>, limit: i32) -> (extra: Option<T>)
    requires
        0 <= limit,
    ensures
        old(data)@.len() > limit ==> extra == Some(old(data)@.last()) && final(data)@ == old(
            data,
        )@.drop_last(),
        old(data)@.len() <= limit ==> extra is None && final(data)@ == old(data)@,
{
    if data.len() > limit as usize {
        data.pop()
    } else {
        None
    }
}

} // verus!
