use vstd::prelude::*;

verus! {

/// A page request: `limit` items per page, 1-indexed `page`.
/// A page of 0 is not allowed and is coerced to 1 by [`PaginationOptions::new`].
#[derive(Debug, Clone, Copy, PartialEq, Eq, Structural)]
pub struct PaginationOptions {
    pub limit: usize,
    pub page: usize,
}

impl PaginationOptions {
    pub fn new(limit: usize, page: usize) -> (r: PaginationOptions)
        ensures
            r.limit == limit,
            r.page == (if page != 0 { page as int } else { 1int }),
            r.page >= 1,
    {
        PaginationOptions { limit, page: if page != 0 { page } else { 1 } }
    }

    pub fn default() -> (r: PaginationOptions)
        ensures
            r.limit == 10,
            r.page == 1,
    {
        PaginationOptions { limit: 10, page: 1 }
    }

    /// Number of items that precede the requested page.
    /// For every valid pair this is exactly `limit * (page - 1)`.
    pub fn skip(&self) -> (r: usize)
        requires
            self.page >= 1,
            self.limit * (self.page - 1) <= usize::MAX,
        ensures
            r == self.limit * (self.page - 1),
    {
        self.limit * (self.page - 1)
    }
}

/// A page request as it arrives from the outside, with both fields optional;
/// the user-facing defaults are limit 25, page 1.
#[derive(Debug, Clone, Copy, PartialEq, Eq, Structural)]
pub struct PaginationOptionalOptions {
    pub limit: Option<usize>,
    pub page: Option<usize>,
}

impl PaginationOptionalOptions {
    pub fn to_pagination_options(&self) -> (r: PaginationOptions)
        ensures
            r.limit == (if self.limit is Some { self.limit->0 } else { 25 }),
            r.page == ({
                let p = if self.page is Some { self.page->0 } else { 1 };
                if p != 0 { p as int } else { 1int }
            }),
            r.page >= 1,
    {
        PaginationOptions::new(self.limit.unwrap_or(25), self.page.unwrap_or(1))
    }
}

/// One page of query results: `total` counts every match of the filter,
/// `results` holds the `count` items of the requested page.
#[derive(Debug, Clone)]
pub struct PageResult<T> {
    pub total: usize,
    pub page: usize,
    pub count: usize,
    pub results: Vec<T>,
}

} // verus!
