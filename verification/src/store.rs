//! The entry store: a content-addressed table of feed entries keyed by the
//! fingerprint of the title. Insertion is idempotent — a title seen before
//! leaves the store unchanged — and reads are filtered by a title substring
//! and paginated by a skip and a limit, in insertion order.

use vstd::prelude::*;
use crate::fingerprint::fingerprint;
use crate::fingerprint::fingerprint_of;
use crate::options::GetManyOptions;
use crate::strings::contains_seq;
use crate::strings::contains_str;

verus! {

/// A feed entry as callers see it: detached from the store.
pub struct RssEntry {
    pub title: String,
    pub link: String,
    pub publish_date: String,
}

impl Clone for RssEntry {
    fn clone(&self) -> (r: Self)
        ensures
            r == *self,
    {
        RssEntry {
            title: self.title.clone(),
            link: self.link.clone(),
            publish_date: self.publish_date.clone(),
        }
    }
}

/// The mathematical content of one stored row. The stored-at timestamp is
/// assigned by the wall clock at insert time and is deliberately absent:
/// no contract speaks of it.
pub ghost struct RowModel {
    pub hash: Seq<char>,
    pub title: Seq<char>,
    pub publish_date: Seq<char>,
    pub link: Seq<char>,
}

/// The mathematical content of an entry handed back to a caller.
pub ghost struct EntryModel {
    pub title: Seq<char>,
    pub publish_date: Seq<char>,
    pub link: Seq<char>,
}

/// What a read returns of a row.
pub open spec fn row_entry(r: RowModel) -> EntryModel {
    EntryModel { title: r.title, publish_date: r.publish_date, link: r.link }
}

/// The mathematical content of a detached entry.
pub open spec fn entry_abs(e: RssEntry) -> EntryModel {
    EntryModel { title: e.title@, publish_date: e.publish_date@, link: e.link@ }
}

/// One persisted row.
struct StoredRow {
    hash: String,
    title: String,
    publish_date: String,
    link: String,
    stored_at: String,
}

spec fn row_abs(r: StoredRow) -> RowModel {
    RowModel { hash: r.hash@, title: r.title@, publish_date: r.publish_date@, link: r.link@ }
}

/// Whether some row carries the given fingerprint.
pub open spec fn model_has_hash(rows: Seq<RowModel>, h: Seq<char>) -> bool {
    exists|i: int| 0 <= i < rows.len() && rows[i].hash == h
}

/// What an insert does: nothing when the title's fingerprint is already
/// present, else it appends one row holding the entry's fields under
/// that fingerprint.
pub open spec fn insert_model(
    rows: Seq<RowModel>,
    title: Seq<char>,
    link: Seq<char>,
    publish_date: Seq<char>,
) -> Seq<RowModel> {
    if model_has_hash(rows, fingerprint_of(title)) {
        rows
    } else {
        rows.push(
            RowModel { hash: fingerprint_of(title), title: title, publish_date: publish_date, link: link },
        )
    }
}

/// The rows whose title contains the filter, in storage order.
pub open spec fn filtered(rows: Seq<RowModel>, q: Seq<char>) -> Seq<RowModel>
    decreases rows.len(),
{
    if rows.len() == 0 {
        Seq::empty()
    } else {
        let rest = filtered(rows.drop_last(), q);
        if contains_seq(rows.last().title, q) {
            rest.push(rows.last())
        } else {
            rest
        }
    }
}

/// What a paginated read returns: of the rows whose title contains the
/// filter, skip the first `skip` and take at most `limit`, in storage
/// order.
pub open spec fn page_of(rows: Seq<RowModel>, q: Seq<char>, skip: int, limit: int) -> Seq<
    EntryModel,
> {
    let f = filtered(rows, q);
    let lo = if skip <= f.len() {
        skip
    } else {
        f.len() as int
    };
    let hi = if skip + limit <= f.len() {
        skip + limit
    } else {
        f.len() as int
    };
    f.subrange(lo, hi).map_values(|r: RowModel| row_entry(r))
}

proof fn lemma_filtered_len(rows: Seq<RowModel>, q: Seq<char>)
    ensures
        filtered(rows, q).len() <= rows.len(),
    decreases rows.len(),
{
    if rows.len() > 0 {
        lemma_filtered_len(rows.drop_last(), q);
    }
}

/// Law: inserting a title twice is the same as inserting it once — the
/// second insert finds the title's fingerprint already present and leaves
/// the store exactly as it was, whatever link and date it carries.
pub proof fn lemma_insert_idempotent(
    rows: Seq<RowModel>,
    title: Seq<char>,
    link: Seq<char>,
    publish_date: Seq<char>,
    link2: Seq<char>,
    publish_date2: Seq<char>,
)
    ensures
        insert_model(insert_model(rows, title, link, publish_date), title, link2, publish_date2)
            == insert_model(rows, title, link, publish_date),
{
    let once = insert_model(rows, title, link, publish_date);
    if model_has_hash(rows, fingerprint_of(title)) {
        assert(once == rows);
    } else {
        assert(once[rows.len() as int].hash == fingerprint_of(title));
        assert(model_has_hash(once, fingerprint_of(title)));
    }
}

/// Law: a page holds `min(limit, max(0, N - skip))` entries, where `N`
/// counts the rows whose title contains the filter.
pub proof fn lemma_page_len(rows: Seq<RowModel>, q: Seq<char>, skip: int, limit: int)
    requires
        0 <= skip,
        0 <= limit,
    ensures
        page_of(rows, q, skip, limit).len() == vstd::math::min(
            limit,
            vstd::math::max(0, filtered(rows, q).len() - skip),
        ),
{
}

/// The concatenation of the first `k` pages of a paginated read, pages
/// numbered from 1, each of size `limit`.
pub open spec fn pages_concat(rows: Seq<RowModel>, q: Seq<char>, limit: int, k: int) -> Seq<
    EntryModel,
>
    decreases k,
{
    if k <= 0 {
        Seq::empty()
    } else {
        pages_concat(rows, q, limit, k - 1) + page_of(rows, q, (k - 1) * limit, limit)
    }
}

proof fn lemma_pages_prefix(rows: Seq<RowModel>, q: Seq<char>, limit: int, k: int)
    requires
        limit >= 1,
        k >= 0,
    ensures
        pages_concat(rows, q, limit, k) == filtered(rows, q).map_values(
            |r: RowModel| row_entry(r),
        ).take(vstd::math::min(k * limit, filtered(rows, q).len() as int)),
    decreases k,
{
    let f = filtered(rows, q);
    let fmap = f.map_values(|r: RowModel| row_entry(r));
    let n = f.len() as int;
    if k == 0 {
        assert(pages_concat(rows, q, limit, 0) =~= fmap.take(vstd::math::min(0 * limit, n)));
    } else {
        lemma_pages_prefix(rows, q, limit, k - 1);
        assert((k - 1) * limit + limit == k * limit) by (nonlinear_arith);
        assert((k - 1) * limit >= 0) by (nonlinear_arith)
            requires
                k >= 1,
                limit >= 1,
        ;
        let lo = vstd::math::min((k - 1) * limit, n);
        let hi = vstd::math::min(k * limit, n);
        assert(page_of(rows, q, (k - 1) * limit, limit) =~= fmap.subrange(lo, hi));
        assert(fmap.take(lo) + fmap.subrange(lo, hi) =~= fmap.take(hi));
    }
}

/// Law: with a fixed page size, reading pages 1 through k in order and
/// concatenating the results reproduces the whole filtered set — no row
/// duplicated, none left out — as soon as k pages cover its length.
pub proof fn lemma_pagination_exhaustive(rows: Seq<RowModel>, q: Seq<char>, limit: int, k: int)
    requires
        limit >= 1,
        k >= 0,
        k * limit >= filtered(rows, q).len(),
    ensures
        pages_concat(rows, q, limit, k) == filtered(rows, q).map_values(
            |r: RowModel| row_entry(r),
        ),
{
    let f = filtered(rows, q);
    let fmap = f.map_values(|r: RowModel| row_entry(r));
    lemma_pages_prefix(rows, q, limit, k);
    assert(fmap.take(vstd::math::min(k * limit, f.len() as int)) =~= fmap);
}

/// What an insert reports: a fresh row, or a no-op on a known fingerprint.
#[derive(Clone, Copy, Debug, PartialEq, Eq, Structural)]
pub enum InsertOutcome {
    Inserted,
    AlreadyPresent,
}

/// Relies on chrono's local clock and its timestamp formatting; the result
/// depends on the time of the call, so nothing is assumed of its value.
#[verifier::external_body]
fn now_timestamp() -> String {
    chrono::Local::now().format("%Y-%m-%d %H:%M:%S").to_string()
}

/// The content-addressed entry table. Rows stand in insertion order and
/// each fingerprint occurs at most once.
pub struct EntryStore {
    rows: Vec<StoredRow>,
}

impl View for EntryStore {
    type V = Seq<RowModel>;

    closed spec fn view(&self) -> Seq<RowModel> {
        self.rows@.map_values(|r: StoredRow| row_abs(r))
    }
}

impl EntryStore {
    /// Every row's key is the fingerprint of its title, and no key repeats.
    pub open spec fn wf(&self) -> bool {
        &&& forall|i: int|
            0 <= i < self@.len() ==> (#[trigger] self@[i]).hash == fingerprint_of(self@[i].title)
        &&& forall|i: int, j: int| 0 <= i < j < self@.len() ==> self@[i].hash != self@[j].hash
    }

    /// An empty store.
    pub fn new() -> (r: EntryStore)
        ensures
            r.wf(),
            r@ == Seq::<RowModel>::empty(),
    {
        let r = EntryStore { rows: Vec::new() };
        proof {
            assert(r@ =~= Seq::<RowModel>::empty());
        }
        r
    }

    /// How many rows the store holds.
    pub fn count(&self) -> (r: usize)
        ensures
            r == self@.len(),
    {
        self.rows.len()
    }

    /// Idempotent insert: stores the entry under the fingerprint of its
    /// title, unless a row with that fingerprint already exists, in which
    /// case the store is left exactly as it was and the duplicate is
    /// reported as an ordinary outcome.
    pub fn save(&mut self, entry: &RssEntry) -> (r: InsertOutcome)
        requires
            old(self).wf(),
        ensures
            final(self).wf(),
            final(self)@ == insert_model(
                old(self)@,
                entry.title@,
                entry.link@,
                entry.publish_date@,
            ),
            (r == InsertOutcome::AlreadyPresent) <==> model_has_hash(
                old(self)@,
                fingerprint_of(entry.title@),
            ),
    {
        let h = fingerprint(entry.title.as_str());
        let mut i: usize = 0;
        while i < self.rows.len()
            invariant
                *self == *old(self),
                old(self).wf(),
                h@ == fingerprint_of(entry.title@),
                i <= self.rows@.len(),
                forall|k: int| 0 <= k < i ==> self@[k].hash != h@,
            decreases self.rows@.len() - i,
        {
            if self.rows[i].hash == h {
                proof {
                    assert(self@[i as int].hash == h@);
                    assert(model_has_hash(old(self)@, fingerprint_of(entry.title@)));
                }
                return InsertOutcome::AlreadyPresent;
            }
            i = i + 1;
        }
        proof {
            assert(!model_has_hash(old(self)@, fingerprint_of(entry.title@)));
        }
        let row = StoredRow {
            hash: h,
            title: entry.title.clone(),
            publish_date: entry.publish_date.clone(),
            link: entry.link.clone(),
            stored_at: now_timestamp(),
        };
        self.rows.push(row);
        proof {
            let m = RowModel {
                hash: fingerprint_of(entry.title@),
                title: entry.title@,
                publish_date: entry.publish_date@,
                link: entry.link@,
            };
            assert(self@ =~= old(self)@.push(m));
        }
        InsertOutcome::Inserted
    }

    /// Paginated, filtered read: the entries whose title contains the
    /// request's filter, skipping the request's skip and returning at
    /// most its limit, in insertion order.
    pub fn get_many(&self, options: &GetManyOptions) -> (r: Vec<RssEntry>)
        ensures
            r@.map_values(|e: RssEntry| entry_abs(e)) == page_of(
                self@,
                options.query@,
                options.skip as int,
                options.limit as int,
            ),
    {
        let ghost q = options.query@;
        let ghost skip = options.skip as int;
        let ghost limit = options.limit as int;
        let mut out: Vec<RssEntry> = Vec::new();
        let mut matched: u64 = 0;
        let mut i: usize = 0;
        proof {
            assert(self@.take(0) =~= Seq::<RowModel>::empty());
            assert(out@.map_values(|e: RssEntry| entry_abs(e)) =~= page_of(
                self@.take(0),
                q,
                skip,
                limit,
            ));
        }
        while i < self.rows.len()
            invariant
                q == options.query@,
                skip == options.skip as int,
                limit == options.limit as int,
                i <= self.rows@.len(),
                self@.len() == self.rows@.len(),
                matched as int == filtered(self@.take(i as int), q).len(),
                out@.map_values(|e: RssEntry| entry_abs(e)) == page_of(
                    self@.take(i as int),
                    q,
                    skip,
                    limit,
                ),
            decreases self.rows@.len() - i,
        {
            let ghost f = filtered(self@.take(i as int), q);
            let ghost fx = filtered(self@.take(i + 1), q);
            proof {
                assert(self@.take(i + 1).drop_last() =~= self@.take(i as int));
                assert(self@.take(i + 1).last() == self@[i as int]);
                lemma_filtered_len(self@.take(i as int), q);
            }
            let row = &self.rows[i];
            let is_match = contains_str(row.title.as_str(), options.query.as_str());
            proof {
                assert(row.title@ == self@[i as int].title);
            }
            if is_match {
                proof {
                    assert(fx == f.push(self@[i as int]));
                }
                if matched >= options.skip && (out.len() as u64) < options.limit {
                    let picked = RssEntry {
                        title: row.title.clone(),
                        link: row.link.clone(),
                        publish_date: row.publish_date.clone(),
                    };
                    proof {
                        assert(entry_abs(picked) == row_entry(self@[i as int]));
                    }
                    let ghost prev = out@;
                    out.push(picked);
                    proof {
                        let fl = f.len() as int;
                        let rowi = self@[i as int];
                        let hi: int = if skip + limit <= fl {
                            skip + limit
                        } else {
                            fl
                        };
                        assert(skip <= fl);
                        assert(prev.map_values(|e: RssEntry| entry_abs(e)) == f.subrange(
                            skip,
                            hi,
                        ).map_values(|r: RowModel| row_entry(r)));
                        assert(prev.len() == hi - skip);
                        assert(prev.len() < limit);
                        assert(hi == fl);
                        assert(fx.subrange(skip, fl + 1) =~= f.subrange(skip, fl).push(rowi));
                        assert(fx.subrange(skip, fl + 1).map_values(|r: RowModel| row_entry(r))
                            =~= f.subrange(skip, fl).map_values(|r: RowModel| row_entry(r)).push(
                            row_entry(rowi),
                        ));
                        assert(out@ == prev.push(picked));
                        assert(out@.map_values(|e: RssEntry| entry_abs(e)) =~= prev.map_values(
                            |e: RssEntry| entry_abs(e),
                        ).push(entry_abs(picked)));
                        assert(out@.map_values(|e: RssEntry| entry_abs(e)) =~= page_of(
                            self@.take(i + 1),
                            q,
                            skip,
                            limit,
                        ));
                    }
                } else {
                    proof {
                        let fl = f.len() as int;
                        let rowi = self@[i as int];
                        if matched < options.skip {
                            assert(fl + 1 <= skip);
                            assert(page_of(self@.take(i as int), q, skip, limit) =~= Seq::<
                                EntryModel,
                            >::empty());
                            assert(page_of(self@.take(i + 1), q, skip, limit) =~= Seq::<
                                EntryModel,
                            >::empty());
                            assert(out@.map_values(|e: RssEntry| entry_abs(e)) =~= page_of(
                                self@.take(i + 1),
                                q,
                                skip,
                                limit,
                            ));
                        } else {
                            let hi: int = if skip + limit <= fl {
                                skip + limit
                            } else {
                                fl
                            };
                            assert(skip <= fl);
                            assert(out@.map_values(|e: RssEntry| entry_abs(e)) == f.subrange(
                                skip,
                                hi,
                            ).map_values(|r: RowModel| row_entry(r)));
                            assert(out@.len() == hi - skip);
                            assert(out@.len() >= limit);
                            assert(hi == skip + limit);
                            assert(skip + limit <= fl);
                            assert(fx.subrange(skip, skip + limit) =~= f.subrange(
                                skip,
                                skip + limit,
                            ));
                            assert(out@.map_values(|e: RssEntry| entry_abs(e)) =~= page_of(
                                self@.take(i + 1),
                                q,
                                skip,
                                limit,
                            ));
                        }
                    }
                }
                matched = matched + 1;
            } else {
                proof {
                    assert(fx == f);
                    assert(out@.map_values(|e: RssEntry| entry_abs(e)) =~= page_of(
                        self@.take(i + 1),
                        q,
                        skip,
                        limit,
                    ));
                }
            }
            i = i + 1;
        }
        proof {
            assert(self@.take(self.rows@.len() as int) =~= self@);
        }
        out
    }
}

} // verus!
