use vstd::prelude::*;

verus! {

/// Opaque, globally unique identifier of one marketplace listing.
pub type ListingId = String;

/// Canonical item-type name; the join key between listing and analysis data.
pub type MarketName = String;

} // verus!
