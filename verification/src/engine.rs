//! The query engine: the one place where raw, free-form pagination input
//! is coerced into the store's contract. Non-positive page or limit fall
//! back to the defaults; the row offset is recomputed from page and
//! limit, saturating rather than overflowing — a saturated offset lies
//! past every row a store can hold.

use vstd::prelude::*;
use crate::options::GetManyOptions;
use crate::store::EntryStore;
use crate::store::RowModel;
use crate::store::RssEntry;
use crate::store::entry_abs;
use crate::store::filtered;
use crate::store::lemma_page_len;
use crate::store::page_of;

verus! {

/// The page actually read for a raw request: non-positive means the
/// first page.
pub open spec fn norm_page(raw: u64) -> u64 {
    if raw >= 1 {
        raw
    } else {
        1
    }
}

/// The page size actually used: non-positive means the default of ten.
pub open spec fn norm_limit(raw: u64) -> u64 {
    if raw >= 1 {
        raw
    } else {
        10
    }
}

/// The row offset of a 1-based page at a given size, saturating at the
/// counter's ceiling; a saturated offset already lies past every row.
pub open spec fn skip_for(page: u64, limit: u64) -> u64 {
    if (page - 1) * limit <= u64::MAX {
        ((page - 1) * limit) as u64
    } else {
        u64::MAX
    }
}

/// Searches the store: entries whose title contains `query`, read at the
/// requested page and page size after normalization of both.
pub fn search(store: &EntryStore, query: &str, page: u64, limit: u64) -> (r: Vec<RssEntry>)
    ensures
        r@.map_values(|e: RssEntry| entry_abs(e)) == page_of(
            store@,
            query@,
            skip_for(norm_page(page), norm_limit(limit)) as int,
            norm_limit(limit) as int,
        ),
{
    let mut options = GetManyOptions::new();
    options.query = String::from_str(query);
    if limit > 0 {
        options.set_limit(limit);
    }
    if page > 0 {
        match (page - 1).checked_mul(options.limit) {
            Some(_) => {
                options.set_page(page);
            },
            None => {
                options.set_skip(u64::MAX);
            },
        }
    }
    store.get_many(&options)
}

/// Law: for a store with `n` rows matching the filter, the page numbered
/// `p` (1-based) at size `l` holds exactly `min(l, max(0, n - (p-1)*l))`
/// entries.
pub proof fn lemma_search_page_count(rows: Seq<RowModel>, q: Seq<char>, p: int, l: int)
    requires
        p >= 1,
        l >= 1,
    ensures
        page_of(rows, q, (p - 1) * l, l).len() == vstd::math::min(
            l,
            vstd::math::max(0, filtered(rows, q).len() - (p - 1) * l),
        ),
{
    assert((p - 1) * l >= 0) by (nonlinear_arith)
        requires
            p >= 1,
            l >= 1,
    ;
    lemma_page_len(rows, q, (p - 1) * l, l);
}

} // verus!
