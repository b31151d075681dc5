use vstd::prelude::*;

verus! {

use crate::prices::PriceValue;
use crate::types::MarketName;

/// Lifecycle state of a listing.  Only `Listed` keeps a listing in the
/// store; the other three remove it on the next observation.
#[derive(Debug, Clone, Copy, PartialEq, Eq, Structural)]
pub enum CsfloatListingState {
    Listed,
    Delisted,
    Sold,
    Refunded,
}

/// The item a listing sells.  The wear value is held in billionths so that
/// it stays a plain integer; it is carried through unread by the rules.
#[derive(Debug, Clone)]
pub struct CsfloatListingItem {
    pub market_hash_name: MarketName,
    pub is_souvenir: bool,
    /// Wear value scaled by 1e9, in [0, 1e9], where known.
    pub float_value: Option<u64>,
    pub phase: Option<String>,
}

/// One marketplace listing as observed in the feed.  `created_at` is a unix
/// timestamp in seconds.
#[derive(Debug, Clone)]
pub struct CsfloatListingStruct {
    pub id: String,
    pub price: u64,
    pub state: CsfloatListingState,
    pub created_at: i64,
    pub item: CsfloatListingItem,
}

/// Mathematical image of an item: the same fields over plain values.
#[verifier::ext_equal]
pub struct ItemView {
    pub market_hash_name: Seq<char>,
    pub is_souvenir: bool,
    pub float_value: Option<u64>,
    pub phase: Option<Seq<char>>,
}

/// Mathematical image of a listing.
#[verifier::ext_equal]
pub struct ListingView {
    pub id: Seq<char>,
    pub price: u64,
    pub state: CsfloatListingState,
    pub created_at: i64,
    pub item: ItemView,
}

impl View for CsfloatListingItem {
    type V = ItemView;

    open spec fn view(&self) -> ItemView {
        ItemView {
            market_hash_name: self.market_hash_name@,
            is_souvenir: self.is_souvenir,
            float_value: self.float_value,
            phase: match self.phase {
                Some(p) => Some(p@),
                None => None,
            },
        }
    }
}

impl View for CsfloatListingStruct {
    type V = ListingView;

    open spec fn view(&self) -> ListingView {
        ListingView {
            id: self.id@,
            price: self.price,
            state: self.state,
            created_at: self.created_at,
            item: self.item@,
        }
    }
}

/// The two fields compared for an "important change".
pub open spec fn same_offer(a: ListingView, b: ListingView) -> bool {
    a.price == b.price && a.state == b.state
}

impl CsfloatListingItem {
    /// Field-by-field copy whose contents Verus can relate to the source value.
    pub fn duplicate(&self) -> (r: Self)
        ensures
            r@ == self@,
    {
        let phase = match &self.phase {
            Some(p) => Some(p.clone()),
            None => None,
        };
        let r = CsfloatListingItem {
            market_hash_name: self.market_hash_name.clone(),
            is_souvenir: self.is_souvenir,
            float_value: self.float_value,
            phase,
        };
        proof {
            assert(r@ =~= self@);
        }
        r
    }
}

impl CsfloatListingStruct {
    pub fn get_price_value(&self) -> (r: PriceValue)
        ensures
            r == self.price,
    {
        self.price
    }

    /// Whether the other observation differs in price or lifecycle state,
    /// the only fields that count as an important change.
    pub fn has_any_important_changes(&self, listing_struct: &CsfloatListingStruct) -> (r: bool)
        ensures
            r == !same_offer(self@, listing_struct@),
    {
        if self.price != listing_struct.price {
            return true;
        }
        if self.state != listing_struct.state {
            return true;
        }
        false
    }

    /// Field-by-field copy whose contents Verus can relate to the source value.
    pub fn duplicate(&self) -> (r: Self)
        ensures
            r@ == self@,
    {
        let r = CsfloatListingStruct {
            id: self.id.clone(),
            price: self.price,
            state: self.state,
            created_at: self.created_at,
            item: self.item.duplicate(),
        };
        proof {
            assert(r@ =~= self@);
        }
        r
    }
}

} // verus!
