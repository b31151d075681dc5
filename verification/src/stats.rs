use vstd::prelude::*;

verus! {

/// The event families whose processing times the instrumentation tracks.
#[derive(Debug, Clone, Copy, PartialEq, Eq, Hash, Structural)]
pub enum StatsKind {
    CsfloatOneListingResponse,
    CsfloatListingsResponse,
    SteamResponse,
    UpdatedCsfloatListings,
    ProfitableListing,
}

} // verus!
