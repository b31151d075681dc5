use vstd::prelude::*;

verus! {

use crate::clock::now_unix_ts;
use crate::models::{CsfloatListingStruct, CsfloatListingState, ListingView, same_offer};
use crate::seq_facts::{
    distinct_keys, key_index, lemma_filter_distinct_keys,
    lemma_filter_removes_key, lemma_key_index_at, lemma_key_index_bounds, lemma_key_index_none,
};
use crate::steam_analyzer::{AnalysisResult, AnalysisView};
use crate::types::{ListingId, MarketName};

/// What one observation of a listing did to the store.
#[derive(Debug, Clone, Copy, PartialEq, Eq, Structural)]
pub enum CsfloatEngineListingDecision {
    New,
    NotChanged,
    Updated,
    Removed,
}

/// One stored listing together with its last-update stamp (unix seconds).
#[derive(Debug)]
pub struct StoredListing {
    pub listing: CsfloatListingStruct,
    pub last_update: i64,
}

/// Mathematical image of a stored listing.
#[verifier::ext_equal]
pub struct StoredView {
    pub listing: ListingView,
    pub last_update: i64,
}

/// The listing store: one record and one last-update stamp per id, removed
/// the instant a listing leaves the `Listed` state.
#[derive(Debug)]
pub struct CsfloatEngine {
    entries: Vec<StoredListing>,
}

/// Key of a stored entry.
pub open spec fn stored_key() -> spec_fn(StoredView) -> Seq<char> {
    |e: StoredView| e.listing.id
}

/// The ids of a sequence of stored entries, in order.
pub open spec fn entry_keys(entries: Seq<StoredView>) -> Seq<Seq<char>> {
    entries.map_values(|e: StoredView| e.listing.id)
}

/// A well-formed store's id sequence has no duplicates.
pub proof fn lemma_entry_keys_distinct(entries: Seq<StoredView>)
    requires
        crate::seq_facts::distinct_keys(entries, stored_key()),
    ensures
        crate::seq_facts::distinct_ids(entry_keys(entries)),
{
    assert forall|i: int, j: int|
        0 <= i < j < entry_keys(entries).len() implies entry_keys(entries)[i] != entry_keys(
        entries,
    )[j] by {
        assert(stored_key()(entries[i]) != stored_key()(entries[j]));
    }
}

/// Filtering entries by id filters their key sequence the same way.
pub proof fn lemma_entry_keys_filter(entries: Seq<StoredView>, id: Seq<char>)
    ensures
        entry_keys(entries.filter(keeps_other_ids(id))) == entry_keys(entries).filter(
            crate::seq_facts::not_id(id),
        ),
    decreases entries.len(),
{
    if entries.len() > 0 {
        let init = entries.drop_last();
        lemma_entry_keys_filter(init, id);
        assert(entries =~= init.push(entries.last()));
        init.lemma_filter_push(entries.last(), keeps_other_ids(id));
        assert(entry_keys(init).push(entries.last().listing.id) =~= entry_keys(
            init.push(entries.last()),
        ));
        entry_keys(init).lemma_filter_push(
            entries.last().listing.id,
            crate::seq_facts::not_id(id),
        );
        if keeps_other_ids(id)(entries.last()) {
            assert(entry_keys(init.filter(keeps_other_ids(id)).push(entries.last())) =~= entry_keys(
                init.filter(keeps_other_ids(id)),
            ).push(entries.last().listing.id));
        }
        assert(entry_keys(entries.filter(keeps_other_ids(id))) =~= entry_keys(entries).filter(
            crate::seq_facts::not_id(id),
        ));
    } else {
        assert(entries.filter(keeps_other_ids(id)) =~= entries) by {
            entries.lemma_filter_len(keeps_other_ids(id));
        }
        assert(entry_keys(entries).filter(crate::seq_facts::not_id(id)) =~= entry_keys(
            entries,
        )) by {
            entry_keys(entries).lemma_filter_len(crate::seq_facts::not_id(id));
        }
        assert(entry_keys(entries) =~= Seq::<Seq<char>>::empty());
    }
}

/// Keeps every entry whose id differs from `id`.
pub open spec fn keeps_other_ids(id: Seq<char>) -> spec_fn(StoredView) -> bool {
    |e: StoredView| e.listing.id != id
}

/// A lifecycle state that removes the listing from the store.
pub open spec fn removal_state(s: CsfloatListingState) -> bool {
    s == CsfloatListingState::Delisted || s == CsfloatListingState::Sold || s
        == CsfloatListingState::Refunded
}

/// What one observed listing does to the stored entries: an unseen id is
/// appended with a fresh stamp, a removal state deletes the entry, any
/// other resubmission overwrites record and stamp in place.
pub open spec fn apply_update(entries: Seq<StoredView>, l: ListingView, now: i64) -> Seq<
    StoredView,
> {
    let k = key_index(entries, stored_key(), l.id);
    if k < 0 {
        entries.push(StoredView { listing: l, last_update: now })
    } else if removal_state(l.state) {
        entries.filter(keeps_other_ids(l.id))
    } else {
        entries.update(k, StoredView { listing: l, last_update: now })
    }
}

/// The decision `apply_update` reports for one observed listing.
pub open spec fn decision_of(entries: Seq<StoredView>, l: ListingView)
    -> CsfloatEngineListingDecision {
    let k = key_index(entries, stored_key(), l.id);
    if k < 0 {
        CsfloatEngineListingDecision::New
    } else if removal_state(l.state) {
        CsfloatEngineListingDecision::Removed
    } else if !same_offer(entries[k].listing, l) {
        CsfloatEngineListingDecision::Updated
    } else {
        CsfloatEngineListingDecision::NotChanged
    }
}

impl CsfloatEngine {
    /// The stored entries, oldest insertion first.
    pub closed spec fn entries(self) -> Seq<StoredView> {
        self.entries@.map_values(
            |e: StoredListing| StoredView { listing: e.listing@, last_update: e.last_update },
        )
    }

    /// The stored ids, in entry order.
    pub open spec fn keys(self) -> Seq<Seq<char>> {
        entry_keys(self.entries())
    }

    /// No id is stored twice.
    pub open spec fn well_formed(self) -> bool {
        distinct_keys(self.entries(), stored_key())
    }

    /// The entry stored under an id.
    pub open spec fn spec_get(self, id: Seq<char>) -> Option<StoredView> {
        let k = key_index(self.entries(), stored_key(), id);
        if k < 0 {
            None
        } else {
            Some(self.entries()[k])
        }
    }

    pub fn new() -> (s: Self)
        ensures
            s.well_formed(),
            s.entries() == Seq::<StoredView>::empty(),
    {
        let s = CsfloatEngine { entries: Vec::new() };
        proof {
            assert(s.entries() =~= Seq::<StoredView>::empty());
        }
        s
    }

    pub fn get_size(&self) -> (n: usize)
        ensures
            n == self.entries().len(),
    {
        self.entries.len()
    }

    /// Index of the entry holding this id, if any.
    fn position_of(&self, listing_id: &ListingId) -> (r: Option<usize>)
        ensures
            match r {
                Some(i) => i == key_index(self.entries(), stored_key(), listing_id@),
                None => key_index(self.entries(), stored_key(), listing_id@) == -1,
            },
    {
        let n = self.entries.len();
        let mut i: usize = 0;
        while i < n
            invariant
                n == self.entries().len(),
                0 <= i <= n,
                forall|k: int| 0 <= k < i ==> stored_key()(self.entries()[k]) != listing_id@,
            decreases n - i,
        {
            if self.entries[i].listing.id == *listing_id {
                proof {
                    lemma_key_index_at(self.entries(), stored_key(), listing_id@, i as int);
                }
                return Some(i);
            }
            i = i + 1;
        }
        proof {
            lemma_key_index_none(self.entries(), stored_key(), listing_id@);
        }
        None
    }

    /// The record stored under an id.
    pub fn get_listing(&self, listing_id: &ListingId) -> (r: Option<&CsfloatListingStruct>)
        ensures
            match r {
                Some(l) => self.spec_get(listing_id@) matches Some(e) && l@ == e.listing,
                None => self.spec_get(listing_id@) is None,
            },
    {
        proof {
            lemma_key_index_bounds(self.entries(), stored_key(), listing_id@);
        }
        match self.position_of(listing_id) {
            Some(i) => Some(&self.entries[i].listing),
            None => None,
        }
    }

    /// Unconditional, idempotent removal from the store.
    pub fn remove_listing(&mut self, listing_id: &ListingId)
        requires
            old(self).well_formed(),
        ensures
            final(self).well_formed(),
            final(self).entries() == old(self).entries().filter(keeps_other_ids(listing_id@)),
    {
        let ghost keep = keeps_other_ids(listing_id@);
        let n = self.entries.len();
        let mut kept: Vec<StoredListing> = Vec::new();
        let mut i: usize = 0;
        while i < n
            invariant
                n == self.entries@.len(),
                0 <= i <= n,
                kept@.map_values(
                    |e: StoredListing| StoredView { listing: e.listing@, last_update: e.last_update },
                ) == self.entries().take(i as int).filter(keep),
                keep == keeps_other_ids(listing_id@),
            decreases n - i,
        {
            proof {
                assert(self.entries().take(i + 1) =~= self.entries().take(i as int).push(
                    self.entries()[i as int],
                ));
                self.entries().take(i as int).lemma_filter_push(self.entries()[i as int], keep);
            }
            if !(self.entries[i].listing.id == *listing_id) {
                let e = &self.entries[i];
                kept.push(StoredListing { listing: e.listing.duplicate(), last_update: e.last_update });
                proof {
                    assert(kept@.map_values(
                        |e: StoredListing| StoredView {
                            listing: e.listing@,
                            last_update: e.last_update,
                        },
                    ) =~= self.entries().take(i + 1).filter(keep));
                }
            }
            i = i + 1;
        }
        proof {
            assert(self.entries().take(n as int) =~= self.entries());
            lemma_filter_distinct_keys(self.entries(), keep, stored_key());
        }
        self.entries = kept;
    }

    /// The stored records, for persistence.
    pub fn listings(&self) -> (r: &Vec<StoredListing>)
        ensures
            r@.map_values(
                |e: StoredListing| StoredView { listing: e.listing@, last_update: e.last_update },
            ) == self.entries(),
    {
        &self.entries
    }

    /// The stamp stored for an id, zero where the id is unknown.
    pub open spec fn ts_at(self, id: Seq<char>) -> int {
        match self.spec_get(id) {
            Some(e) => e.last_update as int,
            None => 0,
        }
    }

    /// A well-formed store resolves each entry to itself.
    proof fn lemma_entry_resolves(self, i: int)
        requires
            self.well_formed(),
            0 <= i < self.entries().len(),
        ensures
            self.spec_get(self.entries()[i].listing.id) == Some(self.entries()[i]),
    {
        assert forall|k: int| 0 <= k < i implies stored_key()(self.entries()[k])
            != self.entries()[i].listing.id by {
            assert(stored_key()(self.entries()[k]) != stored_key()(self.entries()[i]));
        }
        lemma_key_index_at(self.entries(), stored_key(), self.entries()[i].listing.id, i);
    }

    /// The stored ids, ascending by last-update stamp (ties in some
    /// stable arbitrary order): the rotation seed at startup.
    pub fn get_listing_ids_by_update_time(&self) -> (r: Vec<ListingId>)
        requires
            self.well_formed(),
        ensures
            id_views(r@).to_multiset() == self.keys().to_multiset(),
            forall|i: int, j: int|
                0 <= i < j < r@.len() ==> self.ts_at(#[trigger] id_views(r@)[i]) <= self.ts_at(
                    #[trigger] id_views(r@)[j],
                ),
    {
        broadcast use vstd::seq_lib::group_to_multiset_ensures;

        let ghost pview = |p: (i64, ListingId)| (p.0, p.1@);
        let n = self.entries.len();
        // stamp/id pairs in entry order
        let mut pairs: Vec<(i64, ListingId)> = Vec::new();
        let mut i: usize = 0;
        proof {
            assert(pairs@.map_values(pview).map_values(|q: (i64, Seq<char>)| q.1)
                =~= self.keys().take(0));
        }
        while i < n
            invariant
                n == self.entries().len(),
                0 <= i <= n,
                pview == (|p: (i64, ListingId)| (p.0, p.1@)),
                self.well_formed(),
                pairs@.len() == i,
                forall|q: int|
                    0 <= q < i ==> #[trigger] pairs@.map_values(pview)[q] == (
                    self.entries()[q].last_update,
                    self.entries()[q].listing.id,
                ),
            decreases n - i,
        {
            let ghost pairs_old = pairs@;
            let e = &self.entries[i];
            pairs.push((e.last_update, e.listing.id.clone()));
            proof {
                assert(pairs@.map_values(pview) =~= pairs_old.map_values(pview).push(
                    pview(pairs@[i as int]),
                ));
                assert(pairs@.map_values(pview)[i as int] == (
                    self.entries()[i as int].last_update,
                    self.entries()[i as int].listing.id,
                ));
            }
            i = i + 1;
        }
        // insertion sort, ascending by stamp
        let mut out: Vec<(i64, ListingId)> = Vec::new();
        let mut i: usize = 0;
        proof {
            assert(pairs@.map_values(pview).take(0) =~= Seq::<(i64, Seq<char>)>::empty());
            assert(Seq::<(i64, Seq<char>)>::empty().to_multiset() =~= out@.map_values(
                pview,
            ).to_multiset());
        }
        while i < n
            invariant
                n == pairs@.len(),
                n == self.entries().len(),
                0 <= i <= n,
                pview == (|p: (i64, ListingId)| (p.0, p.1@)),
                self.well_formed(),
                out@.len() == i,
                forall|q: int|
                    0 <= q < n ==> #[trigger] pairs@.map_values(pview)[q] == (
                    self.entries()[q].last_update,
                    self.entries()[q].listing.id,
                ),
                forall|a: int, b: int|
                    0 <= a < b < i ==> #[trigger] out@[a].0 <= #[trigger] out@[b].0,
                forall|q: int|
                    0 <= q < i ==> self.ts_at(#[trigger] out@.map_values(pview)[q].1)
                        == out@.map_values(pview)[q].0,
                out@.map_values(pview).to_multiset() == pairs@.map_values(pview).take(
                    i as int,
                ).to_multiset(),
            decreases n - i,
        {
            let x_ts = pairs[i].0;
            let x_id = pairs[i].1.clone();
            let m = out.len();
            let mut j: usize = 0;
            while j < m && out[j].0 <= x_ts
                invariant
                    m == out@.len(),
                    0 <= j <= m,
                    forall|k: int| 0 <= k < j ==> out@[k].0 <= x_ts,
                decreases m - j,
            {
                j = j + 1;
            }
            let ghost out_old = out@;
            let ghost xv = (x_ts, x_id@);
            out.insert(j, (x_ts, x_id));
            proof {
                out_old.insert_ensures(j as int, (x_ts, x_id));
                assert(out@.map_values(pview) =~= out_old.map_values(pview).insert(
                    j as int,
                    xv,
                ));
                vstd::seq_lib::to_multiset_insert(out_old.map_values(pview), j as int, xv);
                assert(pairs@.map_values(pview).take(i + 1) =~= pairs@.map_values(pview).take(
                    i as int,
                ).push(xv));
                vstd::seq_lib::to_multiset_build(
                    pairs@.map_values(pview).take(i as int),
                    xv,
                );
                // the inserted pair resolves to its own entry
                self.lemma_entry_resolves(i as int);
                assert(pairs@.map_values(pview)[i as int] == pview(pairs@[i as int]));
                assert(xv == (self.entries()[i as int].last_update, self.entries()[
                    i as int
                ].listing.id));
                assert(self.ts_at(xv.1) == xv.0);
                // order around the insertion point
                assert forall|a: int, b: int|
                    0 <= a < b < out@.len() implies out@[a].0 <= out@[b].0 by {
                    if b < j {
                        assert(out@[a] == out_old[a] && out@[b] == out_old[b]);
                    } else if a < j && b == j {
                        assert(out@[a] == out_old[a]);
                    } else if a == j {
                        assert(out@[b] == out_old[b - 1]);
                        if b - 1 > j - 1 && j < out_old.len() {
                            if b - 1 == j {
                                assert(out_old[j as int].0 > x_ts);
                            } else {
                                assert(out_old[j as int].0 <= out_old[b - 1].0);
                                assert(out_old[j as int].0 > x_ts);
                            }
                        }
                    } else if a > j {
                        assert(out@[a] == out_old[a - 1] && out@[b] == out_old[b - 1]);
                    } else {
                        assert(out@[a] == out_old[a] && out@[b] == out_old[b - 1]);
                        assert(a < b - 1 || a == b - 1);
                        if a == b - 1 {
                            assert(false);
                        } else {
                            assert(out_old[a].0 <= out_old[b - 1].0);
                        }
                    }
                }
                // consistency of every held pair
                assert forall|q: int|
                    0 <= q < out@.len() implies self.ts_at(
                    #[trigger] out@.map_values(pview)[q].1,
                ) == out@.map_values(pview)[q].0 by {
                    if q < j {
                        assert(out@[q] == out_old[q]);
                        assert(out@.map_values(pview)[q] == out_old.map_values(pview)[q]);
                    } else if q == j {
                        assert(out@.map_values(pview)[q] == xv);
                    } else {
                        assert(out@[q] == out_old[q - 1]);
                        assert(out@.map_values(pview)[q] == out_old.map_values(pview)[q - 1]);
                    }
                }
            }
            i = i + 1;
        }
        proof {
            assert(pairs@.map_values(pview).take(n as int) =~= pairs@.map_values(pview));
        }
        // project to the ids
        let mut result: Vec<ListingId> = Vec::new();
        let mut i: usize = 0;
        while i < n
            invariant
                n == out@.len(),
                0 <= i <= n,
                result@.len() == i,
                forall|q: int|
                    0 <= q < i ==> #[trigger] id_views(result@)[q] == out@.map_values(
                        pview,
                    )[q].1,
                pview == (|p: (i64, ListingId)| (p.0, p.1@)),
            decreases n - i,
        {
            let ghost result_old = result@;
            result.push(out[i].1.clone());
            proof {
                assert(id_views(result@) =~= id_views(result_old).push(result@[i as int]@));
                assert(out@.map_values(pview)[i as int] == pview(out@[i as int]));
                assert(id_views(result@)[i as int] == out@.map_values(pview)[i as int].1);
            }
            i = i + 1;
        }
        proof {
            let ids = id_views(result@);
            let outv = out@.map_values(pview);
            let pairsv = pairs@.map_values(pview);
            // the ids are the pairs' ids, which are the keys, as multisets
            assert(ids =~= outv.map_values(snd_of()));
            assert(pairsv.map_values(snd_of()) =~= self.keys());
            lemma_snd_multiset(outv, pairsv);
            // order carries over through the consistency of each pair
            assert forall|a: int, b: int|
                0 <= a < b < ids.len() implies self.ts_at(ids[a]) <= self.ts_at(ids[b]) by {
                assert(self.ts_at(outv[a].1) == outv[a].0);
                assert(self.ts_at(outv[b].1) == outv[b].0);
                assert(out@[a].0 <= out@[b].0);
            }
        }
        result
    }

    /// Fold one observed listing into the store at an explicit time; the
    /// decision and the new contents are pinned by `decision_of` and
    /// `apply_update`.
    pub fn update_listing_at(
        &mut self,
        listing_struct: &CsfloatListingStruct,
        now: i64,
    ) -> (decision: CsfloatEngineListingDecision)
        requires
            old(self).well_formed(),
        ensures
            final(self).well_formed(),
            decision == decision_of(old(self).entries(), listing_struct@),
            final(self).entries() == apply_update(old(self).entries(), listing_struct@, now),
    {
        proof {
            lemma_key_index_bounds(self.entries(), stored_key(), listing_struct@.id);
        }
        match self.position_of(&listing_struct.id) {
            None => {
                self.entries.push(
                    StoredListing { listing: listing_struct.duplicate(), last_update: now },
                );
                proof {
                    assert(self.entries() =~= old(self).entries().push(
                        StoredView { listing: listing_struct@, last_update: now },
                    ));
                    assert forall|i: int, j: int|
                        0 <= i < j < self.entries().len() implies stored_key()(
                        self.entries()[i],
                    ) != stored_key()(self.entries()[j]) by {
                        if j == self.entries().len() - 1 {
                            lemma_key_index_bounds(
                                old(self).entries(),
                                stored_key(),
                                listing_struct@.id,
                            );
                        }
                    }
                }
                CsfloatEngineListingDecision::New
            },
            Some(i) => {
                let is_removal = match listing_struct.state {
                    CsfloatListingState::Delisted => true,
                    CsfloatListingState::Sold => true,
                    CsfloatListingState::Refunded => true,
                    CsfloatListingState::Listed => false,
                };
                if is_removal {
                    self.remove_listing(&listing_struct.id);
                    proof {
                        lemma_filter_removes_key(
                            old(self).entries(),
                            stored_key(),
                            listing_struct@.id,
                            i as int,
                            keeps_other_ids(listing_struct@.id),
                        );
                    }
                    CsfloatEngineListingDecision::Removed
                } else {
                    let changed = self.entries[i].listing.has_any_important_changes(
                        listing_struct,
                    );
                    self.entries[i] = StoredListing {
                        listing: listing_struct.duplicate(),
                        last_update: now,
                    };
                    proof {
                        assert(self.entries() =~= old(self).entries().update(
                            i as int,
                            StoredView { listing: listing_struct@, last_update: now },
                        ));
                        assert forall|a: int, b: int|
                            0 <= a < b < self.entries().len() implies stored_key()(
                            self.entries()[a],
                        ) != stored_key()(self.entries()[b]) by {
                            assert(stored_key()(old(self).entries()[a]) != stored_key()(
                                old(self).entries()[b],
                            ));
                        }
                    }
                    if changed {
                        CsfloatEngineListingDecision::Updated
                    } else {
                        CsfloatEngineListingDecision::NotChanged
                    }
                }
            },
        }
    }

    /// Fold one observed listing into the store, stamped with the wall
    /// clock.  Everything except the stamp itself is pinned.
    pub fn update_listing(
        &mut self,
        listing_struct: &CsfloatListingStruct,
    ) -> (decision: CsfloatEngineListingDecision)
        requires
            old(self).well_formed(),
        ensures
            final(self).well_formed(),
            decision == decision_of(old(self).entries(), listing_struct@),
            exists|now: i64|
                final(self).entries() == #[trigger] apply_update(
                    old(self).entries(),
                    listing_struct@,
                    now,
                ),
    {
        let now = now_unix_ts();
        self.update_listing_at(listing_struct, now)
    }
}

/// The character sequences of a sequence of ids.
pub open spec fn id_views(ids: Seq<ListingId>) -> Seq<Seq<char>> {
    ids.map_values(|s: ListingId| s@)
}

/// Second component of a stamp/id pair.
pub open spec fn snd_of() -> spec_fn((i64, Seq<char>)) -> Seq<char> {
    |q: (i64, Seq<char>)| q.1
}

/// Multiset-equal pair sequences have multiset-equal second components.
proof fn lemma_snd_multiset(a: Seq<(i64, Seq<char>)>, b: Seq<(i64, Seq<char>)>)
    requires
        a.to_multiset() == b.to_multiset(),
    ensures
        a.map_values(snd_of()).to_multiset() == b.map_values(snd_of()).to_multiset(),
    decreases a.len(),
{
    broadcast use vstd::seq_lib::group_to_multiset_ensures;
    broadcast use vstd::multiset::group_multiset_axioms;

    assert(a.to_multiset().len() == a.len());
    assert(b.to_multiset().len() == b.len());
    if a.len() == 0 {
        assert(a.map_values(snd_of()) =~= Seq::<Seq<char>>::empty());
        assert(b.map_values(snd_of()) =~= Seq::<Seq<char>>::empty());
    } else {
        let x = a.last();
        let a2 = a.drop_last();
        assert(a =~= a2.push(x));
        vstd::seq_lib::to_multiset_build(a2, x);
        assert(a.to_multiset().count(x) >= 1);
        assert(b.to_multiset().count(x) >= 1);
        assert(b.contains(x));
        let k = choose|k: int| 0 <= k < b.len() && b[k] == x;
        let b2 = b.remove(k);
        vstd::seq_lib::to_multiset_remove(b, k);
        assert(a2.to_multiset() =~= a.to_multiset().remove(x));
        assert(b2.to_multiset() =~= b.to_multiset().remove(x));
        lemma_snd_multiset(a2, b2);
        assert(a.map_values(snd_of()) =~= a2.map_values(snd_of()).push(x.1));
        vstd::seq_lib::to_multiset_build(a2.map_values(snd_of()), x.1);
        assert(b.map_values(snd_of()).remove(k) =~= b2.map_values(snd_of()));
        vstd::seq_lib::to_multiset_remove(b.map_values(snd_of()), k);
        assert(b.map_values(snd_of())[k] == x.1);
        assert(b2.map_values(snd_of()).to_multiset() =~= b.map_values(
            snd_of(),
        ).to_multiset().remove(x.1));
        assert(b.map_values(snd_of()).contains(x.1)) by {
            assert(b.map_values(snd_of())[k] == x.1);
        }
        assert(b.map_values(snd_of()).to_multiset().count(x.1) >= 1);
        assert(a.map_values(snd_of()).to_multiset() =~= b.map_values(snd_of()).to_multiset());
    }
}

/// Keyed store of analysis snapshots, one per market name, each fully
/// overwritten on re-analysis.
#[derive(Debug)]
pub struct SteamEngine {
    entries: Vec<(MarketName, AnalysisResult)>,
}

/// Key of an analysis entry.
pub open spec fn analysis_key() -> spec_fn((Seq<char>, AnalysisView)) -> Seq<char> {
    |e: (Seq<char>, AnalysisView)| e.0
}

/// What storing one snapshot does: a full overwrite of the name's entry,
/// or an append where the name is new.
pub open spec fn apply_analysis(
    entries: Seq<(Seq<char>, AnalysisView)>,
    name: Seq<char>,
    a: AnalysisView,
) -> Seq<(Seq<char>, AnalysisView)> {
    let k = key_index(entries, analysis_key(), name);
    if k < 0 {
        entries.push((name, a))
    } else {
        entries.update(k, (name, a))
    }
}

impl SteamEngine {
    pub closed spec fn entries(self) -> Seq<(Seq<char>, AnalysisView)> {
        self.entries@.map_values(|e: (MarketName, AnalysisResult)| (e.0@, e.1@))
    }

    pub open spec fn well_formed(self) -> bool {
        distinct_keys(self.entries(), analysis_key())
    }

    /// The snapshot stored under a market name.
    pub open spec fn spec_get(self, name: Seq<char>) -> Option<AnalysisView> {
        let k = key_index(self.entries(), analysis_key(), name);
        if k < 0 {
            None
        } else {
            Some(self.entries()[k].1)
        }
    }

    pub fn new() -> (s: Self)
        ensures
            s.well_formed(),
            s.entries() == Seq::<(Seq<char>, AnalysisView)>::empty(),
    {
        let s = SteamEngine { entries: Vec::new() };
        proof {
            assert(s.entries() =~= Seq::<(Seq<char>, AnalysisView)>::empty());
        }
        s
    }

    pub fn get_size(&self) -> (n: usize)
        ensures
            n == self.entries().len(),
    {
        self.entries.len()
    }

    /// The stored snapshots, for persistence.
    pub fn analyses(&self) -> (r: &Vec<(MarketName, AnalysisResult)>)
        ensures
            r@.map_values(|e: (MarketName, AnalysisResult)| (e.0@, e.1@)) == self.entries(),
    {
        &self.entries
    }

    fn position_of(&self, market_name: &MarketName) -> (r: Option<usize>)
        ensures
            match r {
                Some(i) => i == key_index(self.entries(), analysis_key(), market_name@),
                None => key_index(self.entries(), analysis_key(), market_name@) == -1,
            },
    {
        let n = self.entries.len();
        let mut i: usize = 0;
        while i < n
            invariant
                n == self.entries().len(),
                0 <= i <= n,
                forall|k: int| 0 <= k < i ==> analysis_key()(self.entries()[k]) != market_name@,
            decreases n - i,
        {
            if self.entries[i].0 == *market_name {
                proof {
                    lemma_key_index_at(self.entries(), analysis_key(), market_name@, i as int);
                }
                return Some(i);
            }
            i = i + 1;
        }
        proof {
            lemma_key_index_none(self.entries(), analysis_key(), market_name@);
        }
        None
    }

    /// The snapshot stored under a market name.
    pub fn get_analysis(&self, market_name: &MarketName) -> (r: Option<&AnalysisResult>)
        ensures
            match r {
                Some(a) => self.spec_get(market_name@) matches Some(v) && a@ == v,
                None => self.spec_get(market_name@) is None,
            },
    {
        proof {
            lemma_key_index_bounds(self.entries(), analysis_key(), market_name@);
        }
        match self.position_of(market_name) {
            Some(i) => Some(&self.entries[i].1),
            None => None,
        }
    }

    /// Store the snapshot for a market name, overwriting any earlier one.
    pub fn update(&mut self, market_name: &MarketName, result: AnalysisResult)
        requires
            old(self).well_formed(),
        ensures
            final(self).well_formed(),
            final(self).spec_get(market_name@) == Some(result@),
            final(self).entries() == apply_analysis(
                old(self).entries(),
                market_name@,
                result@,
            ),
    {
        match self.position_of(market_name) {
            None => {
                proof {
                    lemma_key_index_bounds(self.entries(), analysis_key(), market_name@);
                }
                self.entries.push((market_name.clone(), result));
                proof {
                    assert(self.entries() =~= old(self).entries().push((market_name@, result@)));
                    assert forall|a: int, b: int|
                        0 <= a < b < self.entries().len() implies analysis_key()(
                        self.entries()[a],
                    ) != analysis_key()(self.entries()[b]) by {
                        if b == self.entries().len() - 1 {
                            lemma_key_index_bounds(
                                old(self).entries(),
                                analysis_key(),
                                market_name@,
                            );
                        }
                    }
                    lemma_key_index_at(
                        self.entries(),
                        analysis_key(),
                        market_name@,
                        self.entries().len() - 1,
                    );
                }
            },
            Some(i) => {
                proof {
                    lemma_key_index_bounds(self.entries(), analysis_key(), market_name@);
                }
                self.entries[i] = (market_name.clone(), result);
                proof {
                    assert(self.entries() =~= old(self).entries().update(
                        i as int,
                        (market_name@, result@),
                    ));
                    assert forall|a: int, b: int|
                        0 <= a < b < self.entries().len() implies analysis_key()(
                        self.entries()[a],
                    ) != analysis_key()(self.entries()[b]) by {
                        assert(analysis_key()(old(self).entries()[a]) != analysis_key()(
                            old(self).entries()[b],
                        ));
                    }
                    lemma_key_index_bounds(old(self).entries(), analysis_key(), market_name@);
                    assert forall|k: int| 0 <= k < i implies analysis_key()(
                        self.entries()[k],
                    ) != market_name@ by {
                        assert(analysis_key()(old(self).entries()[k]) != analysis_key()(
                            old(self).entries()[i as int],
                        ));
                    }
                    lemma_key_index_at(self.entries(), analysis_key(), market_name@, i as int);
                }
            },
        }
    }
}

} // verus!
