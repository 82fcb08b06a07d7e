//! Pagination options for reading many entries from the store: a free-text
//! substring filter, a 1-based page, a page size, and the derived skip.

use vstd::prelude::*;
use crate::strings::dec_digits;
use crate::strings::u64_to_dec;

verus! {

/// A well-formed request always recomputes `skip` from `page` and `limit`;
/// `set_skip` exists for callers that address a row offset directly.
pub struct GetManyOptions {
    pub query: String,
    pub page: u64,
    pub limit: u64,
    pub skip: u64,
}

impl GetManyOptions {
    /// The default request: no filter, first page of ten entries.
    pub fn new() -> (r: GetManyOptions)
        ensures
            r.query@ == Seq::<char>::empty(),
            r.page == 1,
            r.limit == 10,
            r.skip == 0,
    {
        GetManyOptions { query: String::new(), page: 1, limit: 10, skip: 0 }
    }

    /// Selects a 1-based page; the skip becomes the count of rows on all
    /// earlier pages at the current limit.
    pub fn set_page(&mut self, page: u64)
        requires
            page >= 1,
            (page - 1) * old(self).limit <= u64::MAX,
        ensures
            final(self).page == page,
            final(self).skip == (page - 1) * old(self).limit,
            final(self).limit == old(self).limit,
            final(self).query == old(self).query,
    {
        self.page = page;
        self.skip = (page - 1) * self.limit;
    }

    /// Sets the row offset directly, leaving page and limit alone.
    pub fn set_skip(&mut self, skip: u64)
        ensures
            final(self).skip == skip,
            final(self).page == old(self).page,
            final(self).limit == old(self).limit,
            final(self).query == old(self).query,
    {
        self.skip = skip;
    }

    /// Sets the page size, leaving the skip as it stands.
    pub fn set_limit(&mut self, limit: u64)
        ensures
            final(self).limit == limit,
            final(self).page == old(self).page,
            final(self).skip == old(self).skip,
            final(self).query == old(self).query,
    {
        self.limit = limit;
    }

    /// Renders the request the way the store's textual query interface
    /// takes it: the filter wrapped in `%` wildcards, and the limit and
    /// skip in decimal.
    pub fn as_prepared_tuple(&self) -> (r: (String, String, String))
        ensures
            r.0@ == seq!['%'] + self.query@ + seq!['%'],
            r.1@ == dec_digits(self.limit as nat),
            r.2@ == dec_digits(self.skip as nat),
    {
        proof {
            reveal_strlit("%");
        }
        let mut wrapped = String::from_str("%");
        wrapped.append(self.query.as_str());
        wrapped.append("%");
        proof {
            assert(wrapped@ =~= seq!['%'] + self.query@ + seq!['%']);
        }
        (wrapped, u64_to_dec(self.limit), u64_to_dec(self.skip))
    }
}

} // verus!
