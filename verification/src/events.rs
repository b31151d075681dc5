use vstd::prelude::*;

verus! {

use crate::prices::PriceValue;
use crate::types::{ListingId, MarketName};

/// A bulk listing-feed payload, as raw text with its arrival time
/// (unix seconds).
#[derive(Debug)]
pub struct CsfloatResponseEvent {
    pub timestamp: i64,
    pub response: String,
}

/// A single-listing refresh payload, as raw text.
#[derive(Debug)]
pub struct CsfloatOneListingResponseEvent {
    pub timestamp: i64,
    pub response: String,
}

/// A reference-market price-history page, as raw text.
#[derive(Debug)]
pub struct SteamResponseEvent {
    pub timestamp: i64,
    pub response: String,
}

/// Ids whose listings saw a significant change this tick.
#[derive(Debug)]
pub struct UpdatedCsfloatListingsEvent {
    pub listing_ids: Vec<ListingId>,
}

/// Events of the primary queue.
#[derive(Debug)]
pub enum PrimEvent {
    CsfloatOneListingResponse(CsfloatOneListingResponseEvent),
    CsfloatListingsResponse(CsfloatResponseEvent),
    SteamResponse(SteamResponseEvent),
    UpdatedCsfloatListings(UpdatedCsfloatListingsEvent),
}

#[derive(Debug, Clone, Copy, PartialEq, Eq, Structural)]
pub enum ProfitableListingKind {
    Profitable,
    GoodPhase,
}

/// An ephemeral profitability classification, produced and consumed within
/// one dispatch cycle.
#[derive(Debug)]
pub struct ProfitableListingEvent {
    pub kind: ProfitableListingKind,
    pub market_name: MarketName,
    pub listing_id: ListingId,
    pub csfloat_price: PriceValue,
    pub steam_price: PriceValue,
    pub steam_no_fee: PriceValue,
    pub sold_per_week: u64,
    pub is_stable: bool,
    /// Profit over the observed price in hundredths of a percent
    /// (basis points), rounded down; saturates at `u64::MAX`.
    pub profit_pct: u64,
    /// Wear value scaled by 1e9, carried through for display.
    pub float: Option<u64>,
}

/// Events of the secondary queue.
#[derive(Debug)]
pub enum SecEvent {
    ProfitableListing(ProfitableListingEvent),
}

/// The closed union of everything the dispatchers route.
#[derive(Debug)]
pub enum Event {
    Primary(PrimEvent),
    Secondary(SecEvent),
}

/// Mathematical image of a profitability event.
#[verifier::ext_equal]
pub struct ProfitableView {
    pub kind: ProfitableListingKind,
    pub market_name: Seq<char>,
    pub listing_id: Seq<char>,
    pub csfloat_price: u64,
    pub steam_price: u64,
    pub steam_no_fee: u64,
    pub sold_per_week: u64,
    pub is_stable: bool,
    pub profit_pct: u64,
    pub float: Option<u64>,
}

impl View for ProfitableListingEvent {
    type V = ProfitableView;

    open spec fn view(&self) -> ProfitableView {
        ProfitableView {
            kind: self.kind,
            market_name: self.market_name@,
            listing_id: self.listing_id@,
            csfloat_price: self.csfloat_price,
            steam_price: self.steam_price,
            steam_no_fee: self.steam_no_fee,
            sold_per_week: self.sold_per_week,
            is_stable: self.is_stable,
            profit_pct: self.profit_pct,
            float: self.float,
        }
    }
}

/// Mathematical image of an `Event`, covering what the verified
/// processors produce.
#[verifier::ext_equal]
pub enum EventView {
    UpdatedListings(Seq<Seq<char>>),
    Profitable(ProfitableView),
    OneListingResponse(Seq<char>),
    ListingsResponse(Seq<char>),
    SteamResponse(Seq<char>),
}

impl View for Event {
    type V = EventView;

    open spec fn view(&self) -> EventView {
        match self {
            Event::Primary(PrimEvent::CsfloatOneListingResponse(e)) => EventView::OneListingResponse(
                e.response@,
            ),
            Event::Primary(PrimEvent::CsfloatListingsResponse(e)) => EventView::ListingsResponse(
                e.response@,
            ),
            Event::Primary(PrimEvent::SteamResponse(e)) => EventView::SteamResponse(e.response@),
            Event::Primary(PrimEvent::UpdatedCsfloatListings(e)) => EventView::UpdatedListings(
                e.listing_ids@.map_values(|s: ListingId| s@),
            ),
            Event::Secondary(SecEvent::ProfitableListing(e)) => EventView::Profitable(e@),
        }
    }
}

} // verus!
