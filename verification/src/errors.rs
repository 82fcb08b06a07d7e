//! The error taxonomy of the feed pipeline: transport failures on fetch,
//! and structural failures on parse. Duplicate entries are not errors.

use vstd::prelude::*;

verus! {

/// Why a feed could not be fetched: the transport failed, or the server
/// answered with a non-success status. Fetching itself happens outside
/// the library; callers hand the outcome in.
#[derive(Clone, Copy, Debug, PartialEq, Eq, Structural)]
pub enum FetchError {
    Transport,
    Status,
}

/// Why a feed could not be ingested: its document was not well-formed
/// for the dialect the parser reads, or it could not be fetched at all.
#[derive(Clone, Copy, Debug, PartialEq, Eq, Structural)]
pub enum RssParsingError {
    SerdeError,
    HttpError(FetchError),
}

} // verus!
