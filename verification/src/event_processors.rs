use vstd::prelude::*;

verus! {

use crate::business_logic::{
    good_phase_spec, is_good_glock_phase_listing, prefilter_listing, prefilter_spec,
};
use crate::consts::DESIRED_PERCENTILE;
use crate::csfloat::CsfloatScheduler;
use crate::events::{
    Event, EventView, PrimEvent, ProfitableListingEvent, ProfitableListingKind, ProfitableView,
    SecEvent, UpdatedCsfloatListingsEvent,
};
use crate::fee::{subtract_fee_spec, SteamFee, FEE_INPUT_MAX};
use crate::models::{CsfloatListingStruct, ListingView};
use crate::seq_facts::{
    distinct_ids, key_index, lemma_distinct_ids_no_duplicates, not_id,
};
use crate::steam_analyzer::{price_at_level, AnalysisView};
use crate::storages::{
    apply_update, decision_of, entry_keys, lemma_entry_keys_distinct, lemma_entry_keys_filter,
    stored_key, CsfloatEngine, CsfloatEngineListingDecision, StoredView, SteamEngine,
    analysis_key,
};
use crate::types::ListingId;

/// The store and the scheduler track exactly the same ids.
pub open spec fn synced_ids(keys: Seq<Seq<char>>, sids: Seq<Seq<char>>) -> bool {
    keys.to_set() == sids.to_set()
}

/// The law behind the store/scheduler consistency check: two
/// duplicate-free id sequences over the same id set have the same length,
/// so a store and a scheduler that stay synced stay equal in size.
pub proof fn lemma_synced_sizes_equal(keys: Seq<Seq<char>>, sids: Seq<Seq<char>>)
    requires
        distinct_ids(keys),
        distinct_ids(sids),
        synced_ids(keys, sids),
    ensures
        keys.len() == sids.len(),
{
    lemma_distinct_ids_no_duplicates(keys);
    lemma_distinct_ids_no_duplicates(sids);
    keys.unique_seq_to_set();
    sids.unique_seq_to_set();
}

/// Idempotent append, the scheduler's upsert at the spec level.
pub open spec fn upsert_ids(sids: Seq<Seq<char>>, id: Seq<char>) -> Seq<Seq<char>> {
    if sids.contains(id) {
        sids
    } else {
        sids.push(id)
    }
}

/// One prefiltered listing folded into store and scheduler together:
/// the new entries, the new rotation ids, and the ids collected for the
/// derived update event.
pub open spec fn step_ids(
    entries: Seq<StoredView>,
    sids: Seq<Seq<char>>,
    l: ListingView,
    now: i64,
) -> (Seq<StoredView>, Seq<Seq<char>>, Seq<Seq<char>>) {
    if !prefilter_spec(l) {
        (entries, sids, Seq::empty())
    } else {
        let d = decision_of(entries, l);
        let e2 = apply_update(entries, l, now);
        if d == CsfloatEngineListingDecision::New || d == CsfloatEngineListingDecision::Updated {
            (e2, upsert_ids(sids, l.id), seq![l.id])
        } else if d == CsfloatEngineListingDecision::Removed {
            (e2, sids.filter(not_id(l.id)), Seq::empty())
        } else {
            (e2, sids, Seq::empty())
        }
    }
}

/// A whole parsed feed batch folded in, listing by listing.
pub open spec fn process_listings_spec(
    entries: Seq<StoredView>,
    sids: Seq<Seq<char>>,
    ls: Seq<ListingView>,
    now: i64,
) -> (Seq<StoredView>, Seq<Seq<char>>, Seq<Seq<char>>)
    decreases ls.len(),
{
    if ls.len() == 0 {
        (entries, sids, Seq::empty())
    } else {
        let prev = process_listings_spec(entries, sids, ls.drop_last(), now);
        let st = step_ids(prev.0, prev.1, ls.last(), now);
        (st.0, st.1, prev.2 + st.2)
    }
}

/// One mirrored decision keeps both structures well formed and tracking
/// the same id set: with `lemma_synced_sizes_equal`, any sequence of
/// decisions mirrored into the scheduler leaves store and scheduler
/// equal in size after every step.
pub proof fn lemma_step_preserves(
    entries: Seq<StoredView>,
    sids: Seq<Seq<char>>,
    l: ListingView,
    now: i64,
)
    requires
        crate::seq_facts::distinct_keys(entries, stored_key()),
        distinct_ids(sids),
        synced_ids(entry_keys(entries), sids),
    ensures
        ({
            let st = step_ids(entries, sids, l, now);
            &&& crate::seq_facts::distinct_keys(st.0, stored_key())
            &&& distinct_ids(st.1)
            &&& synced_ids(entry_keys(st.0), st.1)
        }),
{
    broadcast use vstd::set::group_set_axioms;

    if !prefilter_spec(l) {
        return ;
    }
    let keys = entry_keys(entries);
    let k = key_index(entries, stored_key(), l.id);
    crate::seq_facts::lemma_key_index_bounds(entries, stored_key(), l.id);
    let st = step_ids(entries, sids, l, now);
    if k < 0 {
        // a fresh id: both sides push it at the end
        let e2 = entries.push(StoredView { listing: l, last_update: now });
        assert(st.0 == e2);
        assert(entry_keys(e2) =~= keys.push(l.id));
        assert(forall|i: int| 0 <= i < keys.len() ==> keys[i] != l.id);
        assert(!keys.contains(l.id));
        assert(!sids.contains(l.id)) by {
            assert(sids.to_set().contains(l.id) == keys.to_set().contains(l.id));
        }
        assert(st.1 == sids.push(l.id));
        assert(crate::seq_facts::distinct_keys(e2, stored_key())) by {
            assert(forall|i: int|
                0 <= i < entries.len() ==> stored_key()(e2[i]) == stored_key()(entries[i]));
        }
        assert(distinct_ids(sids.push(l.id)));
        keys.lemma_push_to_set_commute(l.id);
        sids.lemma_push_to_set_commute(l.id);
        assert(entry_keys(e2).to_set() =~= sids.push(l.id).to_set());
    } else if crate::storages::removal_state(l.state) {
        // a removal: both sides drop exactly this id
        let e2 = entries.filter(crate::storages::keeps_other_ids(l.id));
        assert(st.0 == e2);
        crate::seq_facts::lemma_filter_distinct_keys(
            entries,
            crate::storages::keeps_other_ids(l.id),
            stored_key(),
        );
        lemma_entry_keys_filter(entries, l.id);
        let s2 = sids.filter(not_id(l.id));
        assert(st.1 == s2);
        crate::seq_facts::lemma_ids_filter_distinct(sids, not_id(l.id));
        assert(entry_keys(e2).to_set() =~= s2.to_set()) by {
            assert forall|x: Seq<char>| #[trigger] keys.filter(not_id(l.id)).contains(x) implies
                s2.contains(x) by {
                keys.lemma_filter_contains_rev(not_id(l.id), x);
                let i = choose|i: int| 0 <= i < keys.filter(not_id(l.id)).len() && keys.filter(
                    not_id(l.id),
                )[i] == x;
                keys.lemma_filter_pred(not_id(l.id), i);
                assert(keys.contains(x) && x != l.id);
                assert(keys.to_set().contains(x));
                assert(sids.to_set().contains(x));
                assert(sids.contains(x));
                let j = choose|j: int| 0 <= j < sids.len() && sids[j] == x;
                sids.lemma_filter_contains(not_id(l.id), j);
            }
            assert forall|x: Seq<char>| #[trigger] s2.contains(x) implies keys.filter(
                not_id(l.id),
            ).contains(x) by {
                sids.lemma_filter_contains_rev(not_id(l.id), x);
                let i = choose|i: int| 0 <= i < s2.len() && s2[i] == x;
                sids.lemma_filter_pred(not_id(l.id), i);
                assert(sids.contains(x) && x != l.id);
                assert(sids.to_set().contains(x));
                assert(keys.to_set().contains(x));
                assert(keys.contains(x));
                let j = choose|j: int| 0 <= j < keys.len() && keys[j] == x;
                keys.lemma_filter_contains(not_id(l.id), j);
            }
        }
    } else {
        // an overwrite in place: the id sets do not move
        let e2 = entries.update(k, StoredView { listing: l, last_update: now });
        assert(st.0 == e2);
        assert(entry_keys(e2) =~= keys) by {
            assert(stored_key()(entries[k]) == l.id);
        }
        assert(crate::seq_facts::distinct_keys(e2, stored_key())) by {
            assert forall|i: int, j: int|
                0 <= i < j < e2.len() implies stored_key()(e2[i]) != stored_key()(e2[j]) by {
                assert(stored_key()(entries[i]) != stored_key()(entries[j]));
                assert(stored_key()(e2[i]) == entry_keys(e2)[i]);
                assert(stored_key()(e2[j]) == entry_keys(e2)[j]);
            }
        }
        assert(keys.contains(l.id)) by {
            assert(keys[k] == stored_key()(entries[k]));
        }
        assert(keys.to_set().contains(l.id));
        assert(sids.to_set().contains(l.id));
        assert(sids.contains(l.id));
        assert(st.1 == sids);
    }
}

/// Fold a parsed feed batch into the listing store while mirroring every
/// decision into the poll scheduler; the two stay synced and equal in
/// size after every listing.  Returns the derived update event for the
/// ids whose listings changed significantly, if any did.
pub fn process_parsed_csfloat_listings(
    parsed_items: Vec<CsfloatListingStruct>,
    csfloat_engine: &mut CsfloatEngine,
    csfloat_scheduler: &mut CsfloatScheduler,
    now: i64,
) -> (result: Vec<Event>)
    requires
        old(csfloat_engine).well_formed(),
        old(csfloat_scheduler).well_formed(),
        synced_ids(old(csfloat_engine).keys(), old(csfloat_scheduler).ids()),
    ensures
        final(csfloat_engine).well_formed(),
        final(csfloat_scheduler).well_formed(),
        synced_ids(final(csfloat_engine).keys(), final(csfloat_scheduler).ids()),
        final(csfloat_engine).entries().len() == final(csfloat_scheduler).ids().len(),
        ({
            let out = process_listings_spec(
                old(csfloat_engine).entries(),
                old(csfloat_scheduler).ids(),
                parsed_items@.map_values(|l: CsfloatListingStruct| l@),
                now,
            );
            &&& final(csfloat_engine).entries() == out.0
            &&& final(csfloat_scheduler).ids() == out.1
            &&& result@.map_values(|e: Event| e@) == if out.2.len() == 0 {
                Seq::<EventView>::empty()
            } else {
                seq![EventView::UpdatedListings(out.2)]
            }
        }),
{
    let ghost ls = parsed_items@.map_values(|l: CsfloatListingStruct| l@);
    let ghost e0 = old(csfloat_engine).entries();
    let ghost s0 = old(csfloat_scheduler).ids();
    let n = parsed_items.len();
    let mut listing_ids: Vec<ListingId> = Vec::new();
    let mut i: usize = 0;
    proof {
        assert(ls.take(0) =~= Seq::<ListingView>::empty());
    }
    while i < n
        invariant
            n == parsed_items@.len(),
            0 <= i <= n,
            ls == parsed_items@.map_values(|l: CsfloatListingStruct| l@),
            csfloat_engine.well_formed(),
            csfloat_scheduler.well_formed(),
            synced_ids(csfloat_engine.keys(), csfloat_scheduler.ids()),
            ({
                let out = process_listings_spec(e0, s0, ls.take(i as int), now);
                &&& csfloat_engine.entries() == out.0
                &&& csfloat_scheduler.ids() == out.1
                &&& listing_ids@.map_values(|s: ListingId| s@) == out.2
            }),
        decreases n - i,
    {
        proof {
            assert(ls.take(i + 1).drop_last() =~= ls.take(i as int));
            assert(ls.take(i + 1).last() == ls[i as int]);
            lemma_step_preserves(
                csfloat_engine.entries(),
                csfloat_scheduler.ids(),
                ls[i as int],
                now,
            );
        }
        let listing = &parsed_items[i];
        if prefilter_listing(listing) {
            let decision = csfloat_engine.update_listing_at(listing, now);
            match decision {
                CsfloatEngineListingDecision::New | CsfloatEngineListingDecision::Updated => {
                    csfloat_scheduler.upsert_listing(&listing.id);
                    listing_ids.push(listing.id.clone());
                    proof {
                        assert(listing_ids@.map_values(|s: ListingId| s@) =~= process_listings_spec(
                            e0,
                            s0,
                            ls.take(i as int),
                            now,
                        ).2 + seq![ls[i as int].id]);
                    }
                },
                CsfloatEngineListingDecision::NotChanged => {},
                CsfloatEngineListingDecision::Removed => {
                    csfloat_scheduler.remove_listing(&listing.id);
                },
            }
        }
        proof {
            let out_prev = process_listings_spec(e0, s0, ls.take(i as int), now);
            let out_now = process_listings_spec(e0, s0, ls.take(i + 1), now);
            assert(out_now.2 =~= out_prev.2 + step_ids(out_prev.0, out_prev.1, ls[i as int], now).2);
            if !prefilter_spec(ls[i as int]) {
                assert(listing_ids@.map_values(|s: ListingId| s@) =~= out_now.2);
            } else if decision_of(out_prev.0, ls[i as int])
                == CsfloatEngineListingDecision::NotChanged || decision_of(
                out_prev.0,
                ls[i as int],
            ) == CsfloatEngineListingDecision::Removed {
                assert(listing_ids@.map_values(|s: ListingId| s@) =~= out_now.2);
            }
        }
        i = i + 1;
    }
    proof {
        assert(ls.take(n as int) =~= ls);
        lemma_entry_keys_distinct(csfloat_engine.entries());
        lemma_synced_sizes_equal(csfloat_engine.keys(), csfloat_scheduler.ids());
    }
    if listing_ids.len() == 0 {
        let result: Vec<Event> = Vec::new();
        proof {
            assert(result@.map_values(|e: Event| e@) =~= Seq::<EventView>::empty());
        }
        result
    } else {
        let mut result: Vec<Event> = Vec::new();
        let ghost collected = listing_ids@.map_values(|s: ListingId| s@);
        result.push(
            Event::Primary(
                PrimEvent::UpdatedCsfloatListings(UpdatedCsfloatListingsEvent { listing_ids }),
            ),
        );
        proof {
            assert(result@.map_values(|e: Event| e@) =~= seq![EventView::UpdatedListings(collected)]);
        }
        result
    }
}

/// Truncated profit of buying at `cp` what the reference nets `sn` for,
/// in hundredths of a percent; saturates at `u64::MAX`, which also stands
/// for the boundless profit of a free listing.
pub open spec fn profit_bp(sn: int, cp: int) -> int {
    if cp == 0 {
        u64::MAX as int
    } else {
        let v = 10000 * sn / cp - 10000;
        if v > u64::MAX as int {
            u64::MAX as int
        } else if v < 0 {
            0
        } else {
            v
        }
    }
}

/// The profitability event one updated id yields, if any: its listing is
/// joined with its market's cached percentile price; the listing is
/// profitable when it costs less than that reference net of fees.  An id
/// without a listing, a market without analysis or desired percentile,
/// or a reference price the fee inversion cannot take, yields nothing.
pub open spec fn profit_event_for(
    se: Seq<(Seq<char>, AnalysisView)>,
    ce: Seq<StoredView>,
    id: Seq<char>,
) -> Option<ProfitableView> {
    let k = key_index(ce, stored_key(), id);
    if k < 0 {
        None
    } else {
        let listing = ce[k].listing;
        let name = listing.item.market_hash_name;
        let a = key_index(se, analysis_key(), name);
        if a < 0 {
            None
        } else {
            let analysis = se[a].1;
            match price_at_level(analysis.percentiles, DESIRED_PERCENTILE) {
                None => None,
                Some(steam_price) => if steam_price < 3 || steam_price > FEE_INPUT_MAX {
                    None
                } else {
                    let steam_no_fee = subtract_fee_spec(steam_price as int);
                    if (listing.price as int) < steam_no_fee {
                        Some(
                            ProfitableView {
                                kind: ProfitableListingKind::Profitable,
                                market_name: name,
                                listing_id: id,
                                csfloat_price: listing.price,
                                steam_price,
                                steam_no_fee: steam_no_fee as u64,
                                sold_per_week: match analysis.sold_per_week {
                                    Some(s) => s,
                                    None => 0,
                                },
                                is_stable: match analysis.is_stable {
                                    Some(b) => b,
                                    None => false,
                                },
                                profit_pct: profit_bp(steam_no_fee, listing.price as int) as u64,
                                float: listing.item.float_value,
                            },
                        )
                    } else {
                        None
                    }
                },
            }
        }
    }
}

/// The special-phase event one updated id yields, if any, with empty
/// reference and profit fields.
pub open spec fn phase_event_for(ce: Seq<StoredView>, id: Seq<char>) -> Option<ProfitableView> {
    let k = key_index(ce, stored_key(), id);
    if k < 0 {
        None
    } else {
        let listing = ce[k].listing;
        if good_phase_spec(listing) {
            Some(
                ProfitableView {
                    kind: ProfitableListingKind::GoodPhase,
                    market_name: listing.item.market_hash_name,
                    listing_id: id,
                    csfloat_price: listing.price,
                    steam_price: 0,
                    steam_no_fee: 0,
                    sold_per_week: 0,
                    is_stable: false,
                    profit_pct: 0,
                    float: listing.item.float_value,
                },
            )
        } else {
            None
        }
    }
}

/// Zero or one events, as a sequence.
pub open spec fn opt_to_seq(o: Option<ProfitableView>) -> Seq<ProfitableView> {
    match o {
        Some(e) => seq![e],
        None => Seq::empty(),
    }
}

/// The profitability events of a batch of updated ids, in id order.
pub open spec fn collected_profit(
    se: Seq<(Seq<char>, AnalysisView)>,
    ce: Seq<StoredView>,
    ids: Seq<Seq<char>>,
) -> Seq<ProfitableView>
    decreases ids.len(),
{
    if ids.len() == 0 {
        Seq::empty()
    } else {
        collected_profit(se, ce, ids.drop_last()) + opt_to_seq(
            profit_event_for(se, ce, ids.last()),
        )
    }
}

/// The special-phase events of a batch of updated ids, in id order.
pub open spec fn collected_phase(ce: Seq<StoredView>, ids: Seq<Seq<char>>) -> Seq<ProfitableView>
    decreases ids.len(),
{
    if ids.len() == 0 {
        Seq::empty()
    } else {
        collected_phase(ce, ids.drop_last()) + opt_to_seq(phase_event_for(ce, ids.last()))
    }
}

/// Profitability views wrapped as events.
pub open spec fn wrap_profitable(ps: Seq<ProfitableView>) -> Seq<EventView> {
    ps.map_values(|p: ProfitableView| EventView::Profitable(p))
}

/// Join each updated listing against its market's cached analysis and
/// emit one Profitable event per listing cheaper than its fee-adjusted
/// reference price, followed by one GoodPhase event per specially watched
/// phase listing.  Reads only; both stores are left untouched.
pub fn process_updated_csfloat_listing(
    steam_engine: &mut SteamEngine,
    csfloat_engine: &mut CsfloatEngine,
    event: &UpdatedCsfloatListingsEvent,
) -> (result: Vec<Event>)
    ensures
        *final(steam_engine) == *old(steam_engine),
        *final(csfloat_engine) == *old(csfloat_engine),
        result@.map_values(|e: Event| e@) == wrap_profitable(
            collected_profit(
                old(steam_engine).entries(),
                old(csfloat_engine).entries(),
                event.listing_ids@.map_values(|s: ListingId| s@),
            ) + collected_phase(
                old(csfloat_engine).entries(),
                event.listing_ids@.map_values(|s: ListingId| s@),
            ),
        ),
{
    let ghost se0 = steam_engine.entries();
    let ghost ce0 = csfloat_engine.entries();
    let ghost ids = event.listing_ids@.map_values(|s: ListingId| s@);
    let mut result: Vec<Event> = Vec::new();
    let n = event.listing_ids.len();
    let mut i: usize = 0;
    proof {
        assert(ids.take(0) =~= Seq::<Seq<char>>::empty());
        assert(result@.map_values(|e: Event| e@) =~= wrap_profitable(
            collected_profit(se0, ce0, ids.take(0)),
        ));
    }
    while i < n
        invariant
            n == event.listing_ids@.len(),
            0 <= i <= n,
            ids == event.listing_ids@.map_values(|s: ListingId| s@),
            se0 == steam_engine.entries(),
            ce0 == csfloat_engine.entries(),
            *steam_engine == *old(steam_engine),
            *csfloat_engine == *old(csfloat_engine),
            result@.map_values(|e: Event| e@) == wrap_profitable(
                collected_profit(se0, ce0, ids.take(i as int)),
            ),
        decreases n - i,
    {
        proof {
            assert(ids.take(i + 1).drop_last() =~= ids.take(i as int));
            assert(ids.take(i + 1).last() == ids[i as int]);
        }
        let listing_id = &event.listing_ids[i];
        if let Some(csfloat_item) = csfloat_engine.get_listing(listing_id) {
            let market_name = &csfloat_item.item.market_hash_name;
            if let Some(steam_analysis) = steam_engine.get_analysis(market_name) {
                if let Some(steam_price) = steam_analysis.get_price_by_percentile(
                    DESIRED_PERCENTILE,
                ) {
                    if steam_price >= 3 && steam_price <= FEE_INPUT_MAX {
                        let steam_no_fee = SteamFee::subtract_fee(steam_price);
                        let csfloat_price = csfloat_item.get_price_value();
                        let sold_per_week = match steam_analysis.sold_per_week {
                            Some(s) => s,
                            None => 0,
                        };
                        let is_stable = match steam_analysis.is_stable {
                            Some(b) => b,
                            None => false,
                        };
                        if csfloat_price < steam_no_fee {
                            let profit_pct = compute_profit_bp(steam_no_fee, csfloat_price);
                            let ev = Event::Secondary(
                                SecEvent::ProfitableListing(
                                    ProfitableListingEvent {
                                        kind: ProfitableListingKind::Profitable,
                                        market_name: market_name.clone(),
                                        listing_id: listing_id.clone(),
                                        csfloat_price,
                                        steam_price,
                                        steam_no_fee,
                                        sold_per_week,
                                        is_stable,
                                        profit_pct,
                                        float: csfloat_item.item.float_value,
                                    },
                                ),
                            );
                            let ghost pe = profit_event_for(se0, ce0, ids[i as int]).unwrap();
                            let ghost rs = result@;
                            proof {
                                assert(ev@ =~= EventView::Profitable(pe));
                            }
                            result.push(ev);
                            proof {
                                assert(collected_profit(se0, ce0, ids.take(i + 1))
                                    =~= collected_profit(se0, ce0, ids.take(i as int)).push(pe));
                                assert(result@.map_values(|e: Event| e@) =~= rs.map_values(
                                    |e: Event| e@,
                                ).push(ev@));
                                assert(wrap_profitable(
                                    collected_profit(se0, ce0, ids.take(i + 1)),
                                ) =~= wrap_profitable(
                                    collected_profit(se0, ce0, ids.take(i as int)),
                                ).push(EventView::Profitable(pe)));
                            }
                        }
                    }
                }
            }
        }
        proof {
            if profit_event_for(se0, ce0, ids[i as int]) is None {
                assert(result@.map_values(|e: Event| e@) =~= wrap_profitable(
                    collected_profit(se0, ce0, ids.take(i + 1)),
                ));
            }
        }
        i = i + 1;
    }
    proof {
        assert(ids.take(n as int) =~= ids);
    }
    let ghost profit_all = collected_profit(se0, ce0, ids);
    let mut j: usize = 0;
    proof {
        assert(ids.take(0) =~= Seq::<Seq<char>>::empty());
        assert(wrap_profitable(profit_all + collected_phase(ce0, ids.take(0))) =~= wrap_profitable(
            profit_all,
        ));
    }
    while j < n
        invariant
            n == event.listing_ids@.len(),
            0 <= j <= n,
            ids == event.listing_ids@.map_values(|s: ListingId| s@),
            se0 == steam_engine.entries(),
            ce0 == csfloat_engine.entries(),
            *steam_engine == *old(steam_engine),
            *csfloat_engine == *old(csfloat_engine),
            profit_all == collected_profit(se0, ce0, ids),
            result@.map_values(|e: Event| e@) == wrap_profitable(
                profit_all + collected_phase(ce0, ids.take(j as int)),
            ),
        decreases n - j,
    {
        proof {
            assert(ids.take(j + 1).drop_last() =~= ids.take(j as int));
            assert(ids.take(j + 1).last() == ids[j as int]);
        }
        let listing_id = &event.listing_ids[j];
        if let Some(csfloat_item) = csfloat_engine.get_listing(listing_id) {
            if is_good_glock_phase_listing(csfloat_item) {
                let csfloat_price = csfloat_item.get_price_value();
                let ev = Event::Secondary(
                    SecEvent::ProfitableListing(
                        ProfitableListingEvent {
                            kind: ProfitableListingKind::GoodPhase,
                            market_name: csfloat_item.item.market_hash_name.clone(),
                            listing_id: listing_id.clone(),
                            csfloat_price,
                            steam_price: 0,
                            steam_no_fee: 0,
                            sold_per_week: 0,
                            is_stable: false,
                            profit_pct: 0,
                            float: csfloat_item.item.float_value,
                        },
                    ),
                );
                let ghost pe = phase_event_for(ce0, ids[j as int]).unwrap();
                let ghost rs = result@;
                proof {
                    assert(ev@ =~= EventView::Profitable(pe));
                }
                result.push(ev);
                proof {
                    assert(collected_phase(ce0, ids.take(j + 1)) =~= collected_phase(
                        ce0,
                        ids.take(j as int),
                    ).push(pe));
                    assert(result@.map_values(|e: Event| e@) =~= rs.map_values(
                        |e: Event| e@,
                    ).push(ev@));
                    assert(wrap_profitable(
                        profit_all + collected_phase(ce0, ids.take(j + 1)),
                    ) =~= wrap_profitable(
                        profit_all + collected_phase(ce0, ids.take(j as int)),
                    ).push(EventView::Profitable(pe)));
                }
            }
        }
        proof {
            if phase_event_for(ce0, ids[j as int]) is None {
                assert(collected_phase(ce0, ids.take(j + 1)) =~= collected_phase(
                    ce0,
                    ids.take(j as int),
                ));
            }
        }
        j = j + 1;
    }
    proof {
        assert(ids.take(n as int) =~= ids);
    }
    result
}

/// The item name of a market page: the text between the listings title
/// prefix and the first closing title tag after it.
pub open spec fn market_name_spec(s: Seq<char>) -> Option<Seq<char>> {
    let p = crate::textparse::find_sub_from(
        s,
        "<title>Steam Community Market :: Listings for "@,
        0,
    );
    if p < 0 {
        None
    } else {
        let start = p + "<title>Steam Community Market :: Listings for "@.len();
        let q = crate::textparse::find_sub_from(s, "</title>"@, start);
        if q <= start {
            None
        } else {
            Some(s.subrange(start, q))
        }
    }
}

/// Pull the market hash name out of a market page's title.
pub fn extract_market_hash_name(input: &str) -> (r: Option<crate::types::MarketName>)
    ensures
        r is None <==> market_name_spec(input@) is None,
        r matches Some(n) ==> market_name_spec(input@) == Some(n@),
{
    let chars = crate::strings::chars_of(input);
    let total_len = chars.len();
    let prefix = crate::strings::chars_of("<title>Steam Community Market :: Listings for ");
    let suffix = crate::strings::chars_of("</title>");
    proof {
        reveal_strlit("<title>Steam Community Market :: Listings for ");
        reveal_strlit("</title>");
        assert(prefix@.len() == 46);
        assert(suffix@.len() == 8);
    }
    let p = match crate::textparse::vec_find_sub(&chars, &prefix, 0) {
        Some(j) => j,
        None => {
            return None;
        },
    };
    proof {
        assert(p + prefix@.len() <= total_len);
    }
    let start = p + 46;
    let q = match crate::textparse::vec_find_sub(&chars, &suffix, start) {
        Some(j) => j,
        None => {
            return None;
        },
    };
    if q <= start {
        return None;
    }
    let name = vstd::string::StrSliceExecFns::substring_char(input, start, q).to_owned();
    Some(name)
}

/// Analyze one raw market page and store its snapshot under the page's
/// market name; a page without a readable name or with too little signal
/// leaves the store untouched.  No events are derived.
pub fn process_steam_response(
    steam_engine: &mut SteamEngine,
    event: &crate::events::SteamResponseEvent,
) -> (result: Vec<Event>)
    requires
        old(steam_engine).well_formed(),
        event.timestamp >= i64::MIN + crate::steam_analyzer::ANALYSIS_WINDOW_SECS,
    ensures
        final(steam_engine).well_formed(),
        result@.len() == 0,
        ({
            let points = crate::steam_analyzer::extract_spec(
                event.response@,
                event.timestamp as int - crate::steam_analyzer::ANALYSIS_WINDOW_SECS as int,
            );
            match market_name_spec(event.response@) {
                None => *final(steam_engine) == *old(steam_engine),
                Some(name) => {
                    if crate::steam_analyzer::kept_points(
                        points,
                        event.timestamp as int,
                    ).len() < 5 {
                        *final(steam_engine) == *old(steam_engine)
                    } else {
                        exists|a: crate::steam_analyzer::AnalysisView|
                            #[trigger] crate::steam_analyzer::analysis_matches(
                                points,
                                event.timestamp as int,
                                a,
                            ) && final(steam_engine).entries()
                                == crate::storages::apply_analysis(
                                old(steam_engine).entries(),
                                name,
                                a,
                            )
                    }
                },
            }
        }),
{
    let market_name = match extract_market_hash_name(&event.response) {
        None => {
            return Vec::new();
        },
        Some(n) => n,
    };
    if let Some(res_uw) = crate::steam_analyzer::analyze_steam_sell_history(
        &event.response,
        event.timestamp,
    ) {
        let ghost av = res_uw@;
        steam_engine.update(&market_name, res_uw);
        proof {
            assert(crate::steam_analyzer::analysis_matches(
                crate::steam_analyzer::extract_spec(
                    event.response@,
                    event.timestamp as int - crate::steam_analyzer::ANALYSIS_WINDOW_SECS as int,
                ),
                event.timestamp as int,
                av,
            ));
        }
    }
    Vec::new()
}

/// Truncated basis-point profit, the executable form of `profit_bp`.
fn compute_profit_bp(steam_no_fee: u64, csfloat_price: u64) -> (r: u64)
    ensures
        r as int == profit_bp(steam_no_fee as int, csfloat_price as int),
{
    if csfloat_price == 0 {
        return u64::MAX;
    }
    proof {
        assert(10000 * (steam_no_fee as int) < 0x1_0000_0000_0000_0000_0000) by (nonlinear_arith)
            requires
                steam_no_fee <= u64::MAX,
        ;
    }
    let q: u128 = (10000u128 * (steam_no_fee as u128)) / (csfloat_price as u128);
    if q < 10000 {
        return 0;
    }
    let b: u128 = q - 10000;
    if b > 0xffff_ffff_ffff_ffffu128 {
        u64::MAX
    } else {
        b as u64
    }
}

} // verus!
