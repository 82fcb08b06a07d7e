//! A small RSS reader core: feed parsing, title-fingerprint deduplication,
//! an in-memory entry store with paginated substring search, and a sync
//! pass that ingests fetched feeds while isolating per-feed failures.

pub mod engine;
pub mod errors;
pub mod feed;
pub mod fingerprint;
pub mod options;
pub mod store;
pub mod subs;
pub mod sync;
pub mod strings;

pub use engine::search;
pub use errors::FetchError;
pub use errors::RssParsingError;
pub use feed::Item;
pub use feed::Rss;
pub use options::GetManyOptions;
pub use store::EntryStore;
pub use store::InsertOutcome;
pub use store::RssEntry;
pub use subs::RssEntity;
pub use subs::SubscriptionStore;
pub use sync::SyncOutcome;
