use vstd::prelude::*;

verus! {

use crate::seq_facts::{distinct_ids, not_id};
use crate::types::ListingId;

/// Fair round-robin scheduler over the working set of listing ids.
///
/// The ids form an ordered sequence that defines the rotation order; a
/// cursor walks the sequence and is normalized lazily on read, so it
/// survives inserts and removals unchanged.  The sequence never holds an id
/// twice.
pub struct CsfloatScheduler {
    // contains ListingId in ordered way
    v: Vec<ListingId>,
    // pointer to an item
    idx: usize,
}

impl CsfloatScheduler {
    /// The rotation order: the tracked ids, oldest insertion first.
    pub closed spec fn ids(self) -> Seq<Seq<char>> {
        self.v@.map_values(|s: ListingId| s@)
    }

    /// Position of the next id to hand out, before lazy normalization.
    pub closed spec fn cursor(self) -> int {
        self.idx as int
    }

    pub open spec fn contains_id(self, id: Seq<char>) -> bool {
        self.ids().contains(id)
    }

    /// The working set never holds an id twice.
    pub open spec fn well_formed(self) -> bool {
        distinct_ids(self.ids())
    }

    pub fn new() -> (s: Self)
        ensures
            s.well_formed(),
            s.ids() == Seq::<Seq<char>>::empty(),
            s.cursor() == 0,
    {
        let s = CsfloatScheduler { v: Vec::<ListingId>::new(), idx: 0 };
        proof {
            assert(s.ids() =~= Seq::<Seq<char>>::empty());
        }
        s
    }

    pub fn get_size(&self) -> (n: usize)
        ensures
            n == self.ids().len(),
    {
        self.v.len()
    }

    /// Whether the working set already tracks this id.
    fn contains(&self, listing_id: &ListingId) -> (r: bool)
        ensures
            r == self.contains_id(listing_id@),
    {
        let n = self.v.len();
        let mut i: usize = 0;
        while i < n
            invariant
                n == self.ids().len(),
                0 <= i <= n,
                forall|k: int| 0 <= k < i ==> self.ids()[k] != listing_id@,
            decreases n - i,
        {
            if self.v[i] == *listing_id {
                proof {
                    assert(self.ids().contains(listing_id@)) by {
                        assert(self.ids()[i as int] == listing_id@);
                    }
                }
                return true;
            }
            i = i + 1;
        }
        false
    }

    /// Idempotent append: a new id joins the end of the rotation, a known
    /// one leaves the working set untouched.
    pub fn upsert_listing(&mut self, listing_id: &ListingId)
        requires
            old(self).well_formed(),
        ensures
            final(self).well_formed(),
            old(self).contains_id(listing_id@) ==> final(self).ids() == old(self).ids(),
            !old(self).contains_id(listing_id@) ==> final(self).ids() == old(self).ids().push(
                listing_id@,
            ),
            final(self).cursor() == old(self).cursor(),
    {
        if !self.contains(listing_id) {
            self.v.push(listing_id.clone());
            proof {
                assert(self.ids() =~= old(self).ids().push(listing_id@));
            }
        }
    }

    /// Idempotent removal; the cursor is left alone and corrected lazily by
    /// the next read.
    pub fn remove_listing(&mut self, listing_id: &ListingId)
        requires
            old(self).well_formed(),
        ensures
            final(self).well_formed(),
            final(self).ids() == old(self).ids().filter(not_id(listing_id@)),
            final(self).cursor() == old(self).cursor(),
    {
        let ghost keep = not_id(listing_id@);
        let n = self.v.len();
        let mut kept: Vec<ListingId> = Vec::new();
        let mut i: usize = 0;
        while i < n
            invariant
                n == self.v@.len(),
                0 <= i <= n,
                kept@.map_values(|s: ListingId| s@) == self.ids().take(i as int).filter(keep),
                keep == not_id(listing_id@),
            decreases n - i,
        {
            proof {
                assert(self.ids().take(i + 1) =~= self.ids().take(i as int).push(
                    self.ids()[i as int],
                ));
                self.ids().take(i as int).lemma_filter_push(self.ids()[i as int], keep);
            }
            if !(self.v[i] == *listing_id) {
                kept.push(self.v[i].clone());
                proof {
                    assert(kept@.map_values(|s: ListingId| s@) =~= self.ids().take(
                        i + 1,
                    ).filter(keep));
                }
            }
            i = i + 1;
        }
        proof {
            assert(self.ids().take(n as int) =~= self.ids());
            crate::seq_facts::lemma_ids_filter_distinct(self.ids(), keep);
        }
        self.v = kept;
    }

    /// Hand out the id under the cursor and advance it.  `None` only while
    /// the working set has never been non-empty; a caller that has let the
    /// set drain after use must not ask for another id.
    pub fn get_next(&mut self) -> (r: Option<ListingId>)
        requires
            old(self).well_formed(),
            old(self).ids().len() > 0 || old(self).cursor() == 0,
        ensures
            final(self).well_formed(),
            final(self).ids() == old(self).ids(),
            old(self).ids().len() == 0 ==> r is None && final(self).cursor() == 0,
            old(self).ids().len() > 0 ==> {
                let start = if old(self).cursor() >= old(self).ids().len() {
                    0int
                } else {
                    old(self).cursor()
                };
                &&& r matches Some(id) && id@ == old(self).ids()[start]
                &&& final(self).cursor() == start + 1
            },
    {
        if self.idx == 0 && self.v.len() == 0 {
            return None;
        }
        if self.idx >= self.v.len() {
            self.idx = 0;
        }
        let result = self.v[self.idx].clone();
        self.idx = self.idx + 1;
        Some(result)
    }
}

} // verus!
