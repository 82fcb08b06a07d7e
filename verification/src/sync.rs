//! The sync pass: given the fetch outcome for each subscription, in
//! subscription order, parse what was fetched and ingest every item into
//! the entry store. A fetch or parse failure for one subscription never
//! keeps the following subscriptions from being ingested; each failure
//! is reported in that subscription's slot of the report.

use vstd::prelude::*;
use crate::errors::FetchError;
use crate::feed::Item;
use crate::feed::ItemModel;
use crate::feed::Rss;
use crate::feed::item_abs;
use crate::feed::norm_item;
use crate::feed::parse_model;
use crate::fingerprint::fingerprint_of;
use crate::store::EntryStore;
use crate::store::InsertOutcome;
use crate::store::RowModel;
use crate::store::RssEntry;
use crate::store::insert_model;
use crate::store::model_has_hash;

verus! {

impl From<Item> for RssEntry {
    fn from(item: Item) -> Self {
        RssEntry { title: item.title, link: item.link, publish_date: item.publish_date }
    }
}

impl vstd::std_specs::convert::FromSpecImpl<Item> for RssEntry {
    open spec fn obeys_from_spec() -> bool {
        true
    }

    open spec fn from_spec(item: Item) -> RssEntry {
        RssEntry { title: item.title, link: item.link, publish_date: item.publish_date }
    }
}

/// What one subscription's refresh came to: its fetch failed, its
/// document did not parse, or its items went into the store — so many
/// fresh, so many already present.
#[derive(Clone, Copy, Debug, PartialEq, Eq, Structural)]
pub enum SyncOutcome {
    FetchFailed(FetchError),
    ParseFailed,
    Synced { inserted: usize, duplicates: usize },
}

/// A fetch outcome with its text abstracted to characters.
pub open spec fn feed_abs(f: Result<String, FetchError>) -> Result<Seq<char>, FetchError> {
    match f {
        Result::Ok(s) => Result::Ok(s@),
        Result::Err(e) => Result::Err(e),
    }
}

/// Inserting a run of items into the store, first to last.
pub open spec fn ingest_model(rows: Seq<RowModel>, items: Seq<ItemModel>) -> Seq<RowModel>
    decreases items.len(),
{
    if items.len() == 0 {
        rows
    } else {
        ingest_model(
            insert_model(rows, items[0].title, items[0].link, items[0].publish_date),
            items.drop_first(),
        )
    }
}

/// What one fetch outcome does to the store: a failed fetch or an
/// unparsable document leaves it untouched; a parsed feed has its items,
/// dates normalized, ingested in document order.
pub open spec fn feed_step(rows: Seq<RowModel>, feed: Result<Seq<char>, FetchError>) -> Seq<
    RowModel,
> {
    match feed {
        Result::Err(_) => rows,
        Result::Ok(text) => match parse_model(text) {
            Option::None => rows,
            Option::Some(m) => ingest_model(rows, m.items.map_values(|it: ItemModel| norm_item(it))),
        },
    }
}

/// What one fetch outcome reports.
pub open spec fn outcome_of(rows: Seq<RowModel>, feed: Result<Seq<char>, FetchError>) -> SyncOutcome {
    match feed {
        Result::Err(e) => SyncOutcome::FetchFailed(e),
        Result::Ok(text) => match parse_model(text) {
            Option::None => SyncOutcome::ParseFailed,
            Option::Some(m) => SyncOutcome::Synced {
                inserted: (ingest_model(
                    rows,
                    m.items.map_values(|it: ItemModel| norm_item(it)),
                ).len() - rows.len()) as usize,
                duplicates: (m.items.len() - (ingest_model(
                    rows,
                    m.items.map_values(|it: ItemModel| norm_item(it)),
                ).len() - rows.len())) as usize,
            },
        },
    }
}

/// The store after refreshing every subscription in order.
pub open spec fn sync_model(rows: Seq<RowModel>, feeds: Seq<Result<Seq<char>, FetchError>>) -> Seq<
    RowModel,
>
    decreases feeds.len(),
{
    if feeds.len() == 0 {
        rows
    } else {
        sync_model(feed_step(rows, feeds[0]), feeds.drop_first())
    }
}

/// The report of a whole sync pass: one outcome per subscription, in
/// subscription order.
pub open spec fn sync_outcomes(
    rows: Seq<RowModel>,
    feeds: Seq<Result<Seq<char>, FetchError>>,
) -> Seq<SyncOutcome>
    decreases feeds.len(),
{
    if feeds.len() == 0 {
        Seq::empty()
    } else {
        seq![outcome_of(rows, feeds[0])] + sync_outcomes(
            feed_step(rows, feeds[0]),
            feeds.drop_first(),
        )
    }
}

/// Refreshes the store from the given fetch outcomes, one per
/// subscription, and reports what each came to. Failures are isolated:
/// each outcome acts on the store exactly as `feed_step` says,
/// whatever became of the outcomes before it.
pub fn sync(store: &mut EntryStore, feeds: &Vec<Result<String, FetchError>>) -> (r: Vec<
    SyncOutcome,
>)
    requires
        old(store).wf(),
    ensures
        final(store).wf(),
        final(store)@ == sync_model(
            old(store)@,
            feeds@.map_values(|f: Result<String, FetchError>| feed_abs(f)),
        ),
        r@ == sync_outcomes(
            old(store)@,
            feeds@.map_values(|f: Result<String, FetchError>| feed_abs(f)),
        ),
{
    let ghost fa = feeds@.map_values(|f: Result<String, FetchError>| feed_abs(f));
    let mut out: Vec<SyncOutcome> = Vec::new();
    let mut i: usize = 0;
    proof {
        assert(fa.skip(0) =~= fa);
        assert(out@ + sync_outcomes(store@, fa) =~= sync_outcomes(store@, fa));
    }
    while i < feeds.len()
        invariant
            store.wf(),
            i <= feeds@.len(),
            fa == feeds@.map_values(|f: Result<String, FetchError>| feed_abs(f)),
            fa.len() == feeds@.len(),
            sync_model(old(store)@, fa) == sync_model(store@, fa.skip(i as int)),
            sync_outcomes(old(store)@, fa) == out@ + sync_outcomes(store@, fa.skip(i as int)),
        decreases feeds@.len() - i,
    {
        let ghost pre = store@;
        proof {
            assert(fa.skip(i as int)[0] == fa[i as int]);
            assert(fa.skip(i as int).drop_first() =~= fa.skip(i + 1));
        }
        let outcome = match &feeds[i] {
            Err(e) => SyncOutcome::FetchFailed(*e),
            Ok(text) => {
                match Rss::parse(text.clone()) {
                    Err(_) => SyncOutcome::ParseFailed,
                    Ok(mut rss) => {
                        let ghost parsed = rss@;
                        let items = rss.get_items();
                        let ghost nm = items@.map_values(|it: Item| item_abs(it));
                        proof {
                            assert(nm == parsed.items.map_values(|it: ItemModel| norm_item(it)));
                            assert(nm.skip(0) =~= nm);
                        }
                        let mut inserted: usize = 0;
                        let mut duplicates: usize = 0;
                        let mut j: usize = 0;
                        while j < items.len()
                            invariant
                                store.wf(),
                                j <= items@.len(),
                                nm == items@.map_values(|it: Item| item_abs(it)),
                                nm.len() == items@.len(),
                                ingest_model(pre, nm) == ingest_model(store@, nm.skip(j as int)),
                                store@.len() >= pre.len(),
                                inserted as int == store@.len() - pre.len(),
                                inserted + duplicates == j,
                            decreases items@.len() - j,
                        {
                            proof {
                                assert(nm.skip(j as int)[0] == nm[j as int]);
                                assert(nm.skip(j as int).drop_first() =~= nm.skip(j + 1));
                            }
                            let entry = RssEntry::from(items[j].clone());
                            proof {
                                assert(entry.title@ == nm[j as int].title);
                                assert(entry.link@ == nm[j as int].link);
                                assert(entry.publish_date@ == nm[j as int].publish_date);
                            }
                            let res = store.save(&entry);
                            if res == InsertOutcome::Inserted {
                                inserted = inserted + 1;
                            } else {
                                duplicates = duplicates + 1;
                            }
                            j = j + 1;
                        }
                        proof {
                            assert(nm.skip(items@.len() as int) =~= Seq::<ItemModel>::empty());
                            assert(ingest_model(pre, nm) == store@);
                        }
                        SyncOutcome::Synced { inserted, duplicates }
                    },
                }
            },
        };
        proof {
            assert(store@ == feed_step(pre, fa[i as int]));
            assert(outcome == outcome_of(pre, fa[i as int]));
        }
        let ghost prev_out = out@;
        out.push(outcome);
        proof {
            assert(sync_model(pre, fa.skip(i as int)) == sync_model(store@, fa.skip(i + 1)));
            assert(sync_outcomes(pre, fa.skip(i as int)) =~= seq![outcome_of(pre, fa[i as int])]
                + sync_outcomes(store@, fa.skip(i + 1)));
            assert(out@ + sync_outcomes(store@, fa.skip(i + 1)) =~= prev_out + sync_outcomes(
                pre,
                fa.skip(i as int),
            ));
        }
        i = i + 1;
    }
    proof {
        assert(fa.skip(feeds@.len() as int) =~= Seq::<Result<Seq<char>, FetchError>>::empty());
        assert(out@ + sync_outcomes(store@, fa.skip(feeds@.len() as int)) =~= out@);
    }
    out
}

/// Law: the report of a sync pass carries exactly one outcome per
/// subscription, in subscription order.
pub proof fn lemma_sync_reports_every_feed(
    rows: Seq<RowModel>,
    feeds: Seq<Result<Seq<char>, FetchError>>,
)
    ensures
        sync_outcomes(rows, feeds).len() == feeds.len(),
    decreases feeds.len(),
{
    if feeds.len() > 0 {
        lemma_sync_reports_every_feed(feed_step(rows, feeds[0]), feeds.drop_first());
    }
}

proof fn lemma_ingest_preserves(rows: Seq<RowModel>, items: Seq<ItemModel>, h: Seq<char>)
    requires
        model_has_hash(rows, h),
    ensures
        model_has_hash(ingest_model(rows, items), h),
    decreases items.len(),
{
    if items.len() > 0 {
        let next = insert_model(rows, items[0].title, items[0].link, items[0].publish_date);
        let w = choose|k: int| 0 <= k < rows.len() && rows[k].hash == h;
        assert(next[w].hash == h);
        assert(model_has_hash(next, h));
        lemma_ingest_preserves(next, items.drop_first(), h);
    }
}

proof fn lemma_ingest_contains(rows: Seq<RowModel>, items: Seq<ItemModel>, j: int)
    requires
        0 <= j < items.len(),
    ensures
        model_has_hash(ingest_model(rows, items), fingerprint_of(items[j].title)),
    decreases items.len(),
{
    let next = insert_model(rows, items[0].title, items[0].link, items[0].publish_date);
    if j == 0 {
        let h = fingerprint_of(items[0].title);
        if model_has_hash(rows, h) {
            lemma_ingest_preserves(next, items.drop_first(), h);
        } else {
            assert(next[rows.len() as int].hash == h);
            assert(model_has_hash(next, h));
            lemma_ingest_preserves(next, items.drop_first(), h);
        }
    } else {
        assert(items.drop_first()[j - 1] == items[j]);
        lemma_ingest_contains(next, items.drop_first(), j - 1);
    }
}

proof fn lemma_ingest_noop(rows: Seq<RowModel>, items: Seq<ItemModel>)
    requires
        forall|j: int|
            0 <= j < items.len() ==> model_has_hash(
                rows,
                fingerprint_of((#[trigger] items[j]).title),
            ),
    ensures
        ingest_model(rows, items) == rows,
    decreases items.len(),
{
    if items.len() > 0 {
        assert(model_has_hash(rows, fingerprint_of(items[0].title)));
        assert(insert_model(rows, items[0].title, items[0].link, items[0].publish_date) == rows);
        assert forall|j: int| 0 <= j < items.drop_first().len() implies model_has_hash(
            rows,
            fingerprint_of((#[trigger] items.drop_first()[j]).title),
        ) by {
            assert(items.drop_first()[j] == items[j + 1]);
        }
        lemma_ingest_noop(rows, items.drop_first());
    }
}

/// Law: idempotent ingest — running the same item list through the store
/// twice leaves exactly what one run leaves; on the second run every
/// title's fingerprint is already present, so nothing changes.
pub proof fn lemma_ingest_idempotent(rows: Seq<RowModel>, items: Seq<ItemModel>)
    ensures
        ingest_model(ingest_model(rows, items), items) == ingest_model(rows, items),
{
    let once = ingest_model(rows, items);
    assert forall|j: int| 0 <= j < items.len() implies model_has_hash(
        once,
        fingerprint_of((#[trigger] items[j]).title),
    ) by {
        lemma_ingest_contains(rows, items, j);
    }
    lemma_ingest_noop(once, items);
}

/// Law: per-subscription fault isolation — a subscription whose fetch
/// failed contributes nothing to the store, and dropping it from the
/// run changes nothing; every other subscription's items land all the
/// same.
pub proof fn lemma_failed_fetch_isolated(
    rows: Seq<RowModel>,
    feeds: Seq<Result<Seq<char>, FetchError>>,
    i: int,
)
    requires
        0 <= i < feeds.len(),
        feeds[i] is Err,
    ensures
        sync_model(rows, feeds) == sync_model(rows, feeds.remove(i)),
    decreases feeds.len(),
{
    if i == 0 {
        assert(feed_step(rows, feeds[0]) == rows);
        assert(feeds.remove(0) =~= feeds.drop_first());
    } else {
        assert(feeds.remove(i)[0] == feeds[0]);
        assert(feeds.remove(i).drop_first() =~= feeds.drop_first().remove(i - 1));
        assert(feeds.drop_first()[i - 1] == feeds[i]);
        lemma_failed_fetch_isolated(feed_step(rows, feeds[0]), feeds.drop_first(), i - 1);
    }
}

} // verus!
