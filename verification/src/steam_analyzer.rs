use vstd::prelude::*;

verus! {

use crate::prices::{PriceValue, MicroPrice, MICROS_PER_CENT};

/// Largest price the analyzer accepts, in millionths of a dollar
/// (one million dollars): keeps every intermediate sum inside its type.
pub const MICRO_PRICE_MAX: u64 = 1_000_000_000_000;

/// Most price points one analysis run accepts; a seven-day window of
/// hourly points is far below this.
pub const MAX_POINTS: usize = 1000;

/// One point of the reference market's sell history: when, at what average
/// price (millionths of a dollar), and how many units were traded.
#[derive(Debug, Clone, Copy, PartialEq, Eq, Structural)]
pub struct PricePoint {
    /// Unix timestamp, seconds.
    pub ts: i64,
    pub price: MicroPrice,
    pub amount: u32,
}

/// Statistical snapshot of one item's recent sell history.  The absent
/// statistical fields mean an explicitly inconclusive analysis, not an
/// error.
#[derive(Debug)]
pub struct AnalysisResult {
    /// Relative standard deviation of the smoothed series, in parts per
    /// million, rounded down.
    pub rsd: Option<u64>,
    pub is_stable: Option<bool>,
    pub sold_per_week: Option<u64>,
    /// (percentile level as integer percent, price in minor units).
    pub percentiles: Vec<(u8, PriceValue)>,
    /// Kept for snapshot compatibility; always written empty.
    pub percentiles_no_fee: Vec<(u8, PriceValue)>,
}

/// Mathematical image of an analysis snapshot.
#[verifier::ext_equal]
pub struct AnalysisView {
    pub rsd: Option<u64>,
    pub is_stable: Option<bool>,
    pub sold_per_week: Option<u64>,
    pub percentiles: Seq<(u8, u64)>,
    pub percentiles_no_fee: Seq<(u8, u64)>,
}

impl View for AnalysisResult {
    type V = AnalysisView;

    open spec fn view(&self) -> AnalysisView {
        AnalysisView {
            rsd: self.rsd,
            is_stable: self.is_stable,
            sold_per_week: self.sold_per_week,
            percentiles: self.percentiles@,
            percentiles_no_fee: self.percentiles_no_fee@,
        }
    }
}

/// First price stored under the given level, scanning left to right.
pub open spec fn price_at_level(pcts: Seq<(u8, u64)>, desired: u8) -> Option<u64>
    decreases pcts.len(),
{
    if pcts.len() == 0 {
        None
    } else if pcts[0].0 == desired {
        Some(pcts[0].1)
    } else {
        price_at_level(pcts.drop_first(), desired)
    }
}

impl AnalysisResult {
    /// Price cached for the given percentile level; absent when the level
    /// is not cached (or nothing is).
    pub fn get_price_by_percentile(&self, desired_percentile: u8) -> (r: Option<PriceValue>)
        ensures
            r == price_at_level(self@.percentiles, desired_percentile),
    {
        let n = self.percentiles.len();
        let mut i: usize = 0;
        proof {
            assert(self.percentiles@.skip(0) =~= self.percentiles@);
        }
        while i < n
            invariant
                n == self.percentiles@.len(),
                0 <= i <= n,
                price_at_level(self.percentiles@, desired_percentile) == price_at_level(
                    self.percentiles@.skip(i as int),
                    desired_percentile,
                ),
            decreases n - i,
        {
            let (percentile, price) = self.percentiles[i];
            if percentile == desired_percentile {
                return Some(price);
            }
            proof {
                assert(self.percentiles@.skip(i as int).drop_first() =~= self.percentiles@.skip(
                    i + 1,
                ));
            }
            i = i + 1;
        }
        None
    }
}

/// The interpolated order statistic of `data` at `level` percent: with
/// `t = level * (len - 1)`, linear interpolation between the entries at
/// `floor(t / 100)` and `ceil(t / 100)`, rounded down.
pub open spec fn percentile_spec(data: Seq<u64>, level: int) -> Option<int> {
    if data.len() == 0 {
        None
    } else {
        let t = level * (data.len() - 1);
        let lo = t / 100;
        let r = t % 100;
        let hi = if r == 0 {
            lo
        } else {
            lo + 1
        };
        Some(((100 - r) * data[lo] + r * data[hi]) / 100)
    }
}

/// Interpolated percentile of an ascending price series, in the same scale
/// as its inputs.
pub fn calculate_percentile(data: &Vec<MicroPrice>, level: u8) -> (r: Option<MicroPrice>)
    requires
        data@.len() <= 1 || level <= 100,
        data@.len() <= MAX_POINTS,
        forall|i: int| 0 <= i < data@.len() ==> data@[i] <= MICRO_PRICE_MAX,
    ensures
        r matches Some(v) ==> percentile_spec(data@, level as int) == Some(v as int),
        r is None <==> data@.len() == 0,
{
    let n = data.len();
    if n == 0 {
        return None;
    }
    if n == 1 {
        let v = data[0];
        proof {
            assert((level as int) * (1 - 1) == 0) by (nonlinear_arith);
            assert((100 - 0) * (v as int) + 0 * (v as int) == 100 * (v as int))
                by (nonlinear_arith);
            assert((100 * (v as int)) / 100 == v as int) by (nonlinear_arith);
        }
        return Some(v);
    }
    proof {
        assert((level as int) * ((n - 1) as int) <= 100 * 999) by (nonlinear_arith)
            requires
                level <= 100,
                1 <= n - 1 <= 999,
        ;
    }
    let t: u64 = (level as u64) * ((n - 1) as u64);
    proof {
        assert((level as int) * ((n - 1) as int) <= 100 * ((n - 1) as int)) by (nonlinear_arith)
            requires
                level <= 100,
                n >= 1,
        ;
        vstd::arithmetic::div_mod::lemma_div_is_ordered(
            (level as int) * ((n - 1) as int),
            100 * ((n - 1) as int),
            100,
        );
        assert((100 * ((n - 1) as int)) / 100 == n - 1) by (nonlinear_arith);
    }
    let lo: usize = (t / 100) as usize;
    let r100: u64 = t % 100;
    proof {
        vstd::arithmetic::div_mod::lemma_fundamental_div_mod(t as int, 100);
        if t % 100 != 0 {
            assert(t / 100 < n - 1) by (nonlinear_arith)
                requires
                    t == 100 * (t / 100) + t % 100,
                    0 < t % 100 < 100,
                    t <= 100 * ((n - 1) as int),
            ;
        }
    }
    let hi: usize = if r100 == 0 {
        lo
    } else {
        lo + 1
    };
    let a: u64 = data[lo];
    let b: u64 = data[hi];
    proof {
        assert((100 - r100) * (a as int) + r100 * (b as int) <= 100 * MICRO_PRICE_MAX)
            by (nonlinear_arith)
            requires
                0 <= r100 < 100,
                0 <= a <= MICRO_PRICE_MAX,
                0 <= b <= MICRO_PRICE_MAX,
        ;
    }
    let mixed: u64 = ((100 - r100) * a + r100 * b) / 100;
    Some(mixed)
}

/// The sums of each `window`-wide slice of `s`, left to right: entry `i`
/// is `s[i] + ... + s[i + window - 1]`.
pub open spec fn window_sums(s: Seq<u64>, window: int) -> Seq<int> {
    if s.len() < window {
        Seq::empty()
    } else {
        Seq::new((s.len() - window + 1) as nat, |i: int| range_sum(s, i, i + window))
    }
}

/// Sum of `s[from .. to]`.
pub open spec fn range_sum(s: Seq<u64>, from: int, to: int) -> int
    decreases to - from,
{
    if from >= to {
        0
    } else {
        range_sum(s, from, to - 1) + s[to - 1]
    }
}

/// The 3-point simple moving average of the analyzer, kept exact by
/// returning each window's sum instead of its average: entry `i` holds
/// `window` times the average of `prices[i .. i + window]`.
pub fn simple_moving_average(array_prices: &Vec<MicroPrice>, window: usize) -> (r: Vec<u64>)
    requires
        1 <= window <= array_prices@.len() || array_prices@.len() < window,
        array_prices@.len() <= MAX_POINTS,
        forall|i: int|
            0 <= i < array_prices@.len() ==> array_prices@[i] <= MICRO_PRICE_MAX,
        window >= 1,
    ensures
        r@.map_values(|v: u64| v as int) == window_sums(array_prices@, window as int),
{
    let n = array_prices.len();
    let mut results: Vec<u64> = Vec::new();
    if n < window {
        proof {
            assert(r_empty_map(results@) =~= window_sums(array_prices@, window as int));
        }
        return results;
    }
    let count = n - window + 1;
    let mut i: usize = 0;
    while i < count
        invariant
            count == n - window + 1,
            n == array_prices@.len(),
            n <= MAX_POINTS,
            1 <= window <= n,
            0 <= i <= count,
            forall|k: int| 0 <= k < n ==> array_prices@[k] <= MICRO_PRICE_MAX,
            results@.len() == i,
            forall|k: int|
                0 <= k < i ==> results@[k] as int == range_sum(
                    array_prices@,
                    k,
                    k + window,
                ),
        decreases count - i,
    {
        let mut sum: u64 = 0;
        let mut j: usize = i;
        while j < i + window
            invariant
                i + window <= n,
                n == array_prices@.len(),
                i <= j <= i + window,
                window <= MAX_POINTS,
                forall|k: int| 0 <= k < n ==> array_prices@[k] <= MICRO_PRICE_MAX,
                sum as int == range_sum(array_prices@, i as int, j as int),
                sum <= (j - i) * MICRO_PRICE_MAX,
            decreases i + window - j,
        {
            proof {
                assert((j - i + 1) * MICRO_PRICE_MAX == (j - i) * MICRO_PRICE_MAX
                    + MICRO_PRICE_MAX) by (nonlinear_arith);
                assert((j - i + 1) * MICRO_PRICE_MAX <= MAX_POINTS * MICRO_PRICE_MAX)
                    by (nonlinear_arith)
                    requires
                        0 <= j - i + 1 <= MAX_POINTS,
                ;
            }
            sum = sum + array_prices[j];
            j = j + 1;
        }
        results.push(sum);
        i = i + 1;
    }
    proof {
        assert(results@.map_values(|v: u64| v as int) =~= window_sums(
            array_prices@,
            window as int,
        ));
    }
    results
}

/// Helper naming the empty image of an empty result vector.
spec fn r_empty_map(s: Seq<u64>) -> Seq<int> {
    s.map_values(|v: u64| v as int)
}

/// The ascending order the analyzer sorts prices in.
pub open spec fn leq_u64() -> spec_fn(u64, u64) -> bool {
    |a: u64, b: u64| a <= b
}

/// `<=` on prices is a total order.
proof fn lemma_leq_u64_total()
    ensures
        vstd::relations::total_ordering(leq_u64()),
{
    assert forall|x: u64| #[trigger] leq_u64()(x, x) by {}
    assert forall|x: u64, y: u64| #[trigger] leq_u64()(x, y) && #[trigger] leq_u64()(y, x)
        implies x == y by {}
    assert forall|x: u64, y: u64, z: u64|
        #[trigger] leq_u64()(x, y) && #[trigger] leq_u64()(y, z) implies leq_u64()(x, z) by {}
    assert forall|x: u64, y: u64| #[trigger] leq_u64()(x, y) || #[trigger] leq_u64()(y, x) by {}
}

/// Sort a price series ascending.
pub fn sort_prices(v: &Vec<MicroPrice>) -> (r: Vec<MicroPrice>)
    ensures
        r@ == v@.sort_by(leq_u64()),
        r@.len() == v@.len(),
        r@.to_multiset() == v@.to_multiset(),
        vstd::relations::sorted_by(r@, leq_u64()),
{
    broadcast use vstd::seq_lib::group_to_multiset_ensures;

    let n = v.len();
    let mut out: Vec<u64> = Vec::new();
    let mut i: usize = 0;
    proof {
        assert(v@.take(0) =~= Seq::<u64>::empty());
        assert(Seq::<u64>::empty().to_multiset() =~= out@.to_multiset());
    }
    while i < n
        invariant
            n == v@.len(),
            0 <= i <= n,
            out@.len() == i,
            vstd::relations::sorted_by(out@, leq_u64()),
            out@.to_multiset() == v@.take(i as int).to_multiset(),
        decreases n - i,
    {
        let x = v[i];
        let m = out.len();
        let mut j: usize = 0;
        while j < m && out[j] <= x
            invariant
                m == out@.len(),
                0 <= j <= m,
                forall|k: int| 0 <= k < j ==> out@[k] <= x,
            decreases m - j,
        {
            j = j + 1;
        }
        let ghost out_old = out@;
        out.insert(j, x);
        proof {
            assert(v@.take(i + 1) =~= v@.take(i as int).push(x));
            assert(out@ == out_old.insert(j as int, x));
            vstd::seq_lib::to_multiset_insert(out_old, j as int, x);
            vstd::seq_lib::to_multiset_build(v@.take(i as int), x);
            assert(out@.to_multiset() == v@.take(i + 1).to_multiset());
            out_old.insert_ensures(j as int, x);
            assert forall|a: int, b: int| 0 <= a < b < out@.len() implies leq_u64()(
                out@[a],
                out@[b],
            ) by {
                if b < j {
                    assert(out@[a] == out_old[a] && out@[b] == out_old[b]);
                } else if a < j && b == j {
                    assert(out@[a] == out_old[a] && out@[b] == x);
                } else if a == j {
                    assert(out@[a] == x && out@[b] == out_old[b - 1]);
                    assert(b - 1 >= j);
                    if b - 1 == j {
                        assert(out_old[j as int] > x);
                    } else {
                        assert(leq_u64()(out_old[j as int], out_old[b - 1]));
                        assert(out_old[j as int] > x);
                    }
                } else if a > j {
                    assert(out@[a] == out_old[a - 1] && out@[b] == out_old[b - 1]);
                } else {
                    // a < j < b
                    assert(out@[a] == out_old[a] && out@[b] == out_old[b - 1]);
                    if a == b - 1 {
                        assert(false);
                    } else {
                        assert(leq_u64()(out_old[a], out_old[b - 1]));
                    }
                }
            }
        }
        i = i + 1;
    }
    proof {
        assert(v@.take(n as int) =~= v@);
        lemma_leq_u64_total();
        v@.lemma_sort_by_ensures(leq_u64());
        vstd::seq_lib::lemma_sorted_unique(out@, v@.sort_by(leq_u64()), leq_u64());
    }
    out
}

/// Seconds in the seven-day analysis window.
pub const ANALYSIS_WINDOW_SECS: i64 = 604_800;

/// Points whose timestamp falls inside the analysis window.
pub open spec fn in_window(start: int, now: int) -> spec_fn(PricePoint) -> bool {
    |p: PricePoint| start <= p.ts && p.ts <= now
}

/// The points of the last seven days, in their original order.
pub open spec fn kept_points(points: Seq<PricePoint>, now: int) -> Seq<PricePoint> {
    points.filter(in_window(now - ANALYSIS_WINDOW_SECS as int, now))
}

pub open spec fn prices_of(points: Seq<PricePoint>) -> Seq<MicroPrice> {
    points.map_values(|p: PricePoint| p.price)
}

/// Exact sum of the traded amounts.
pub open spec fn amount_sum(points: Seq<PricePoint>) -> int
    decreases points.len(),
{
    if points.len() == 0 {
        0
    } else {
        amount_sum(points.drop_last()) + points.last().amount
    }
}

pub open spec fn saturate_u64(v: int) -> u64 {
    if v > u64::MAX as int {
        u64::MAX
    } else if v < 0 {
        0
    } else {
        v as u64
    }
}

/// Twice the median of a sorted series, kept doubled to stay integral.
pub open spec fn median_doubled(sorted: Seq<MicroPrice>) -> int
    recommends
        sorted.len() > 0,
{
    let n = sorted.len() as int;
    if n % 2 == 0 {
        sorted[n / 2 - 1] + sorted[n / 2]
    } else {
        2 * sorted[n / 2]
    }
}

/// A price rounded to its nearest cent, the precision the median is
/// taken at; ties round up.
pub open spec fn cent_round() -> spec_fn(MicroPrice) -> MicroPrice {
    |p: MicroPrice| (((p + 5000) / 10000) * 10000) as u64
}

/// The acceptance band around the median: within [0.9, 1.1] times the
/// median, stated over the doubled median to stay integral.
pub open spec fn band_pred(m2: int) -> spec_fn(MicroPrice) -> bool {
    |p: MicroPrice| 9 * m2 <= 20 * p && 20 * p <= 11 * m2
}

/// Exact sum of a series of window sums.
pub open spec fn sum_of(sums: Seq<int>) -> int
    decreases sums.len(),
{
    if sums.len() == 0 {
        0
    } else {
        sum_of(sums.drop_last()) + sums.last()
    }
}

/// Sum of squared deviations of `n * sums[i]` from `total`: the variance
/// numerator of the smoothed series, scaled by `9 * n^3`.
pub open spec fn sq_dev_sum(sums: Seq<int>, total: int, n: int) -> int
    decreases sums.len(),
{
    if sums.len() == 0 {
        0
    } else {
        sq_dev_sum(sums.drop_last(), total, n) + (n * sums.last() - total) * (n * sums.last()
            - total)
    }
}

/// The stability test: the relative standard deviation of the smoothed
/// series is below 0.03, stated as the equivalent integer inequality
/// between the squared deviation sum and the squared mean.
pub open spec fn stable_condition(sums: Seq<int>) -> bool {
    let n = sums.len() as int;
    let w = sum_of(sums);
    10000 * sq_dev_sum(sums, w, n) < 9 * n * w * w
}

pub open spec fn floor_sqrt_of(r: int, x: int) -> bool {
    0 <= r && r * r <= x && x < (r + 1) * (r + 1)
}

/// What the stored relative-std-dev value is: the integer square root of
/// the mean squared deviation, scaled to parts per million of the mean,
/// rounded down and saturated; the sentinel `u64::MAX` where the mean is
/// zero.
pub open spec fn rsd_matches(sums: Seq<int>, v: u64) -> bool {
    let n = sums.len() as int;
    let w = sum_of(sums);
    let s = sq_dev_sum(sums, w, n);
    if w == 0 {
        v == u64::MAX
    } else {
        exists|r0: int|
            #[trigger] floor_sqrt_of(r0, (s / n) * 1_000_000) && v == saturate_u64(
                r0 * 1000 / w,
            )
    }
}

/// One cached percentile price in minor units: the interpolated
/// micro-dollar value truncated to cents.
pub open spec fn percentile_cents(sorted: Seq<MicroPrice>, level: u8) -> u64 {
    match percentile_spec(sorted, level as int) {
        Some(v) => (v / MICROS_PER_CENT as int) as u64,
        None => 0,
    }
}

/// The cached percentile table, one entry per configured level.
pub open spec fn percentile_table(sorted: Seq<MicroPrice>) -> Seq<(u8, u64)> {
    seq![
        (60u8, percentile_cents(sorted, 60)),
        (65u8, percentile_cents(sorted, 65)),
        (70u8, percentile_cents(sorted, 70)),
        (75u8, percentile_cents(sorted, 75)),
        (80u8, percentile_cents(sorted, 80)),
    ]
}

/// What a produced analysis snapshot holds, stage by stage: the window
/// filter, the median band, the smoothed stability test, the weekly
/// volume, and the percentile table.
pub open spec fn analysis_matches(points: Seq<PricePoint>, now: int, a: AnalysisView) -> bool {
    let kept = kept_points(points, now);
    let prices = prices_of(kept);
    let sorted = prices.map_values(cent_round()).sort_by(leq_u64());
    let m2 = median_doubled(sorted);
    let banded = prices.filter(band_pred(m2));
    let sums = window_sums(banded, 3);
    if sums.len() == 0 {
        &&& a.rsd is None
        &&& a.is_stable is None
        &&& a.sold_per_week is None
        &&& a.percentiles.len() == 0
        &&& a.percentiles_no_fee.len() == 0
    } else {
        &&& a.rsd matches Some(v) && rsd_matches(sums, v)
        &&& a.is_stable == Some(stable_condition(sums))
        &&& a.sold_per_week == Some(saturate_u64(amount_sum(kept)))
        &&& a.percentiles == percentile_table(banded.sort_by(leq_u64()))
        &&& a.percentiles_no_fee.len() == 0
    }
}

/// Traded amounts are non-negative, so their sum is too.
proof fn lemma_amount_sum_nonneg(points: Seq<PricePoint>)
    ensures
        amount_sum(points) >= 0,
    decreases points.len(),
{
    if points.len() > 0 {
        lemma_amount_sum_nonneg(points.drop_last());
    }
}

/// A range sum of bounded elements is bounded by its width.
proof fn lemma_range_sum_bound(s: Seq<u64>, from: int, to: int, cap: u64)
    requires
        0 <= from <= to <= s.len(),
        forall|k: int| 0 <= k < s.len() ==> s[k] <= cap,
    ensures
        0 <= range_sum(s, from, to) <= (to - from) * cap,
    decreases to - from,
{
    if from < to {
        lemma_range_sum_bound(s, from, to - 1, cap);
        assert((to - from) * cap == (to - 1 - from) * cap + cap) by (nonlinear_arith);
    }
}

/// Elements of multiset-equal sequences obey the same bound.
proof fn lemma_multiset_elements_bound(a: Seq<u64>, b: Seq<u64>, cap: u64)
    requires
        a.to_multiset() == b.to_multiset(),
        forall|k: int| 0 <= k < b.len() ==> b[k] <= cap,
    ensures
        forall|k: int| 0 <= k < a.len() ==> a[k] <= cap,
{
    broadcast use vstd::seq_lib::group_to_multiset_ensures;

    assert forall|k: int| 0 <= k < a.len() implies a[k] <= cap by {
        assert(a.contains(a[k]));
        assert(a.to_multiset().contains(a[k]));
        assert(b.to_multiset().contains(a[k]));
        assert(b.contains(a[k]));
        let j = choose|j: int| 0 <= j < b.len() && b[j] == a[k];
    }
}

/// Floor of the square root, by bisection.
fn isqrt_u128(x: u128) -> (r: u128)
    requires
        x < 0x10000000000000000000000000000000,
    ensures
        floor_sqrt_of(r as int, x as int),
{
    if x == 0 {
        return 0;
    }
    let mut lo: u128 = 0;
    // 2^62, whose square exceeds every accepted input
    let mut hi: u128 = 4611686018427387904;
    proof {
        assert(hi * hi > x) by (nonlinear_arith)
            requires
                hi == 4611686018427387904,
                x < 0x10000000000000000000000000000000,
        ;
    }
    while lo + 1 < hi
        invariant
            0 <= lo < hi <= 4611686018427387904,
            lo * lo <= x,
            x < hi * hi,
        decreases hi - lo,
    {
        let mid: u128 = lo + (hi - lo) / 2;
        proof {
            assert(mid * mid <= 0x10000000000000000000000000000000) by (nonlinear_arith)
                requires
                    0 <= mid <= 4611686018427387904,
            ;
        }
        if mid * mid <= x {
            lo = mid;
        } else {
            hi = mid;
        }
    }
    lo
}

/// One percentile entry of the cached table.
fn percentile_to_cents(sorted: &Vec<MicroPrice>, level: u8) -> (r: u64)
    requires
        sorted@.len() >= 1,
        level <= 100,
        sorted@.len() <= MAX_POINTS,
        forall|i: int| 0 <= i < sorted@.len() ==> sorted@[i] <= MICRO_PRICE_MAX,
    ensures
        r == percentile_cents(sorted@, level),
{
    match calculate_percentile(sorted, level) {
        Some(v) => v / MICROS_PER_CENT,
        None => 0,
    }
}

/// Analyze a chronological price history against the seven-day window
/// ending at `now` (unix seconds).  Fewer than five in-window points give
/// no result; an empty smoothed series gives a result with every
/// statistical field absent; otherwise every field is pinned by
/// `analysis_matches`.
pub fn analyze_price_history(points: &Vec<PricePoint>, now: i64) -> (r: Option<AnalysisResult>)
    requires
        now >= i64::MIN + ANALYSIS_WINDOW_SECS,
        points@.len() <= MAX_POINTS,
        forall|i: int| 0 <= i < points@.len() ==> points@[i].price <= MICRO_PRICE_MAX,
    ensures
        r is None <==> kept_points(points@, now as int).len() < 5,
        r matches Some(a) ==> analysis_matches(points@, now as int, a@),
{
    let start = now - ANALYSIS_WINDOW_SECS;
    let ghost wpred = in_window(now as int - ANALYSIS_WINDOW_SECS as int, now as int);
    let n0 = points.len();
    let mut kept: Vec<PricePoint> = Vec::new();
    let mut i: usize = 0;
    proof {
        assert(points@.take(0).filter(wpred) =~= Seq::<PricePoint>::empty());
    }
    while i < n0
        invariant
            n0 == points@.len(),
            0 <= i <= n0,
            wpred == in_window(now as int - ANALYSIS_WINDOW_SECS as int, now as int),
            start == now - ANALYSIS_WINDOW_SECS,
            now >= i64::MIN + ANALYSIS_WINDOW_SECS,
            kept@ == points@.take(i as int).filter(wpred),
            forall|k: int| 0 <= k < points@.len() ==> points@[k].price <= MICRO_PRICE_MAX,
        decreases n0 - i,
    {
        proof {
            assert(points@.take(i + 1) =~= points@.take(i as int).push(points@[i as int]));
            points@.take(i as int).lemma_filter_push(points@[i as int], wpred);
        }
        let p = points[i];
        if start <= p.ts && p.ts <= now {
            kept.push(p);
        }
        i = i + 1;
    }
    proof {
        assert(points@.take(n0 as int) =~= points@);
    }
    let ghost keptg = kept_points(points@, now as int);
    proof {
        assert(kept@ == keptg);
        keptg.lemma_filter_len(wpred);
        assert forall|k: int| 0 <= k < kept@.len() implies kept@[k].price <= MICRO_PRICE_MAX by {
            assert(kept@.contains(kept@[k]));
            points@.lemma_filter_contains_rev(wpred, kept@[k]);
            let j = choose|j: int| 0 <= j < points@.len() && points@[j] == kept@[k];
        }
    }
    if kept.len() < 5 {
        return None;
    }
    // cent-rounded prices of the kept points, chronological
    let kn = kept.len();
    let mut prices: Vec<MicroPrice> = Vec::new();
    let mut i: usize = 0;
    proof {
        assert(prices@ =~= prices_of(kept@.take(0)));
    }
    while i < kn
        invariant
            kn == kept@.len(),
            0 <= i <= kn,
            prices@ == prices_of(kept@.take(i as int)),
            forall|k: int| 0 <= k < kept@.len() ==> kept@[k].price <= MICRO_PRICE_MAX,
        decreases kn - i,
    {
        prices.push(kept[i].price);
        proof {
            assert(prices@ =~= prices_of(kept@.take(i + 1)));
        }
        i = i + 1;
    }
    proof {
        assert(kept@.take(kn as int) =~= kept@);
        assert(forall|k: int| 0 <= k < prices@.len() ==> prices@[k] <= MICRO_PRICE_MAX);
    }
    // the median is taken at cent precision
    let mut rounded: Vec<MicroPrice> = Vec::new();
    let mut i: usize = 0;
    proof {
        assert(rounded@ =~= prices@.take(0).map_values(cent_round()));
    }
    while i < kn
        invariant
            kn == prices@.len(),
            0 <= i <= kn,
            rounded@ == prices@.take(i as int).map_values(cent_round()),
            forall|k: int| 0 <= k < prices@.len() ==> prices@[k] <= MICRO_PRICE_MAX,
            forall|k: int| 0 <= k < rounded@.len() ==> rounded@[k] <= MICRO_PRICE_MAX + 5000,
        decreases kn - i,
    {
        let p = prices[i];
        rounded.push(((p + 5000) / 10000) * 10000);
        proof {
            assert(rounded@ =~= prices@.take(i + 1).map_values(cent_round()));
        }
        i = i + 1;
    }
    proof {
        assert(prices@.take(kn as int) =~= prices@);
    }
    let sorted = sort_prices(&rounded);
    proof {
        lemma_multiset_elements_bound(sorted@, rounded@, (MICRO_PRICE_MAX + 5000) as u64);
        assert(sorted@.len() == kept@.len());
    }
    let sn = sorted.len();
    let m2: u64 = if sn % 2 == 0 {
        sorted[sn / 2 - 1] + sorted[sn / 2]
    } else {
        2 * sorted[sn / 2]
    };
    proof {
        assert(m2 as int == median_doubled(sorted@));
        assert(m2 <= 2 * MICRO_PRICE_MAX + 10000);
    }
    // band filter, in chronological order
    let ghost bpred = band_pred(m2 as int);
    let mut banded: Vec<MicroPrice> = Vec::new();
    let mut i: usize = 0;
    proof {
        assert(prices@.take(0).filter(bpred) =~= Seq::<u64>::empty());
    }
    while i < kn
        invariant
            kn == prices@.len(),
            0 <= i <= kn,
            bpred == band_pred(m2 as int),
            m2 <= 2 * MICRO_PRICE_MAX + 10000,
            banded@ == prices@.take(i as int).filter(bpred),
            forall|k: int| 0 <= k < prices@.len() ==> prices@[k] <= MICRO_PRICE_MAX,
            forall|k: int| 0 <= k < banded@.len() ==> banded@[k] <= MICRO_PRICE_MAX,
        decreases kn - i,
    {
        proof {
            assert(prices@.take(i + 1) =~= prices@.take(i as int).push(prices@[i as int]));
            prices@.take(i as int).lemma_filter_push(prices@[i as int], bpred);
        }
        let p = prices[i];
        if 9 * m2 <= 20 * p && 20 * p <= 11 * m2 {
            banded.push(p);
        }
        i = i + 1;
    }
    proof {
        assert(prices@.take(kn as int) =~= prices@);
        prices@.lemma_filter_len(bpred);
    }
    // weekly volume over all kept points, saturating
    let mut sold: u64 = 0;
    let mut i: usize = 0;
    proof {
        assert(kept@.take(0) =~= Seq::<PricePoint>::empty());
    }
    while i < kn
        invariant
            kn == kept@.len(),
            0 <= i <= kn,
            sold == saturate_u64(amount_sum(kept@.take(i as int))),
        decreases kn - i,
    {
        proof {
            assert(kept@.take(i + 1).drop_last() =~= kept@.take(i as int));
            assert(kept@.take(i + 1).last() == kept@[i as int]);
            assert(amount_sum(kept@.take(i + 1)) == amount_sum(kept@.take(i as int)) + kept@[
                i as int
            ].amount);
            lemma_amount_sum_nonneg(kept@.take(i as int));
        }
        let a = kept[i].amount as u64;
        if sold > u64::MAX - a {
            sold = u64::MAX;
        } else {
            sold = sold + a;
        }
        i = i + 1;
    }
    proof {
        assert(kept@.take(kn as int) =~= kept@);
    }
    if banded.len() < 3 {
        let empty_result = AnalysisResult {
            rsd: None,
            is_stable: None,
            sold_per_week: None,
            percentiles: Vec::new(),
            percentiles_no_fee: Vec::new(),
        };
        return Some(empty_result);
    }
    let sums = simple_moving_average(&banded, 3);
    let ghost sums_int = window_sums(banded@, 3);
    let n3 = sums.len();
    proof {
        assert(banded@.len() >= 3);
        assert(sums_int.len() == banded@.len() - 2);
        assert(sums@.len() == sums@.map_values(|v: u64| v as int).len());
        assert(n3 == banded@.len() - 2);
        assert forall|k: int| 0 <= k < sums@.len() implies sums@[k] <= 3 * MICRO_PRICE_MAX by {
            assert(sums@[k] as int == sums_int[k]);
            assert(sums_int[k] == range_sum(banded@, k, k + 3));
            lemma_range_sum_bound(banded@, k, k + 3, MICRO_PRICE_MAX);
        }
    }
    // total of the window sums
    let mut total: u64 = 0;
    let mut i: usize = 0;
    proof {
        assert(sums_int.take(0) =~= Seq::<int>::empty());
    }
    while i < n3
        invariant
            n3 == sums@.len(),
            0 <= i <= n3,
            n3 <= MAX_POINTS,
            sums@.map_values(|v: u64| v as int) == sums_int,
            total as int == sum_of(sums_int.take(i as int)),
            total as int <= i * (3 * MICRO_PRICE_MAX as int),
            forall|k: int| 0 <= k < sums@.len() ==> sums@[k] <= 3 * MICRO_PRICE_MAX,
        decreases n3 - i,
    {
        proof {
            assert(sums_int.take(i + 1).drop_last() =~= sums_int.take(i as int));
            assert(sums_int.take(i + 1).last() == sums_int[i as int]);
            assert((i + 1) * (3 * MICRO_PRICE_MAX as int) == i * (3 * MICRO_PRICE_MAX as int) + 3
                * MICRO_PRICE_MAX as int) by (nonlinear_arith);
            assert(i * (3 * MICRO_PRICE_MAX as int) <= 1000 * (3 * MICRO_PRICE_MAX as int))
                by (nonlinear_arith)
                requires
                    0 <= i <= 1000,
            ;
        }
        total = total + sums[i];
        i = i + 1;
    }
    proof {
        assert(sums_int.take(n3 as int) =~= sums_int);
        assert(total as int <= 1000 * (3 * MICRO_PRICE_MAX as int)) by (nonlinear_arith)
            requires
                total as int <= n3 * (3 * MICRO_PRICE_MAX as int),
                0 <= n3 <= 1000,
        ;
    }
    // sum of squared deviations
    let mut s_acc: u128 = 0;
    let mut i: usize = 0;
    proof {
        assert(sums_int.take(0) =~= Seq::<int>::empty());
    }
    while i < n3
        invariant
            n3 == sums@.len(),
            0 <= i <= n3,
            n3 <= MAX_POINTS,
            sums@.map_values(|v: u64| v as int) == sums_int,
            s_acc as int == sq_dev_sum(sums_int.take(i as int), total as int, n3 as int),
            s_acc as int <= i * 9_000_000_000_000_000_000_000_000_000_000,
            total as int <= 3_000_000_000_000_000,
            forall|k: int| 0 <= k < sums@.len() ==> sums@[k] <= 3 * MICRO_PRICE_MAX,
        decreases n3 - i,
    {
        proof {
            assert(sums_int.take(i + 1).drop_last() =~= sums_int.take(i as int));
            assert(sums_int.take(i + 1).last() == sums_int[i as int]);
        }
        let w: u64 = sums[i];
        proof {
            assert((n3 as int) * (w as int) <= 3_000_000_000_000_000) by (nonlinear_arith)
                requires
                    0 <= n3 <= 1000,
                    0 <= w <= 3_000_000_000_000,
            ;
        }
        let nw: i128 = (n3 as i128) * (w as i128);
        let d: i128 = nw - (total as i128);
        proof {
            assert(d * d <= 9_000_000_000_000_000_000_000_000_000_000) by (nonlinear_arith)
                requires
                    -3_000_000_000_000_000 <= d <= 3_000_000_000_000_000,
            ;
            assert(d * d >= 0) by (nonlinear_arith);
            assert((i + 1) * 9_000_000_000_000_000_000_000_000_000_000 == i
                * 9_000_000_000_000_000_000_000_000_000_000
                + 9_000_000_000_000_000_000_000_000_000_000) by (nonlinear_arith);
            assert(i * 9_000_000_000_000_000_000_000_000_000_000 <= 1000
                * 9_000_000_000_000_000_000_000_000_000_000) by (nonlinear_arith)
                requires
                    0 <= i <= 1000,
            ;
        }
        let sq: u128 = (d * d) as u128;
        s_acc = s_acc + sq;
        i = i + 1;
    }
    proof {
        assert(sums_int.take(n3 as int) =~= sums_int);
        assert(s_acc as int <= 1000 * 9_000_000_000_000_000_000_000_000_000_000)
            by (nonlinear_arith)
            requires
                s_acc as int <= n3 * 9_000_000_000_000_000_000_000_000_000_000,
                0 <= n3 <= 1000,
        ;
    }
    // stability: 10000 * S < 9 * n * W^2, all in one machine word
    let lhs: u128 = 10000u128 * s_acc;
    let t1: u128 = 9u128 * (n3 as u128);
    proof {
        assert(t1 as int * (total as int) <= 27_000_000_000_000_000_000) by (nonlinear_arith)
            requires
                0 <= t1 as int <= 9000,
                0 <= total as int <= 3_000_000_000_000_000,
        ;
    }
    let t2: u128 = t1 * (total as u128);
    proof {
        assert(t2 as int * (total as int) <= 81_000_000_000_000_000_000_000_000_000_000_000)
            by (nonlinear_arith)
            requires
                0 <= t2 as int <= 27_000_000_000_000_000_000,
                0 <= total as int <= 3_000_000_000_000_000,
        ;
    }
    let rhs: u128 = t2 * (total as u128);
    let is_stable = lhs < rhs;
    proof {
        assert(is_stable == stable_condition(sums_int)) by {
            assert(sum_of(sums_int) == total as int);
            assert(sq_dev_sum(sums_int, total as int, n3 as int) == s_acc as int);
            assert(9 * (n3 as int) * (total as int) * (total as int) == rhs as int)
                by (nonlinear_arith)
                requires
                    rhs as int == 9 * (n3 as int) * (total as int) * (total as int),
            ;
        }
    }
    // relative standard deviation in parts per million
    let rsd: u64 = if total == 0 {
        u64::MAX
    } else {
        let mean_sq: u128 = s_acc / (n3 as u128);
        proof {
            assert(s_acc as int <= (n3 as int) * 9_000_000_000_000_000_000_000_000_000_000 ==> (
            s_acc as int) / (n3 as int) <= 9_000_000_000_000_000_000_000_000_000_000) by {
                if s_acc as int <= (n3 as int) * 9_000_000_000_000_000_000_000_000_000_000 {
                    vstd::arithmetic::div_mod::lemma_div_is_ordered(
                        s_acc as int,
                        (n3 as int) * 9_000_000_000_000_000_000_000_000_000_000,
                        n3 as int,
                    );
                    assert(((n3 as int) * 9_000_000_000_000_000_000_000_000_000_000) / (
                    n3 as int) == 9_000_000_000_000_000_000_000_000_000_000) by (nonlinear_arith)
                        requires
                            1 <= n3,
                    ;
                }
            }
        }
        let scaled: u128 = mean_sq * 1_000_000u128;
        let r0 = isqrt_u128(scaled);
        proof {
            assert(r0 <= 3_100_000_000_000_000_000) by (nonlinear_arith)
                requires
                    (r0 as int) * (r0 as int) <= scaled as int,
                    scaled as int <= 9_000_000_000_000_000_000_000_000_000_000_000_000,
            ;
        }
        let val: u128 = (r0 * 1000) / (total as u128);
        if val > 0xffff_ffff_ffff_ffffu128 {
            u64::MAX
        } else {
            val as u64
        }
    };
    proof {
        assert(rsd_matches(sums_int, rsd)) by {
            assert(sum_of(sums_int) == total as int);
            assert(sq_dev_sum(sums_int, total as int, n3 as int) == s_acc as int);
        }
    }
    // cached percentile table over the sorted band-filtered series
    let sorted_banded = sort_prices(&banded);
    proof {
        lemma_multiset_elements_bound(sorted_banded@, banded@, MICRO_PRICE_MAX);
    }
    let mut percentiles: Vec<(u8, PriceValue)> = Vec::new();
    percentiles.push((60u8, percentile_to_cents(&sorted_banded, 60)));
    percentiles.push((65u8, percentile_to_cents(&sorted_banded, 65)));
    percentiles.push((70u8, percentile_to_cents(&sorted_banded, 70)));
    percentiles.push((75u8, percentile_to_cents(&sorted_banded, 75)));
    percentiles.push((80u8, percentile_to_cents(&sorted_banded, 80)));
    proof {
        assert(percentiles@ =~= percentile_table(banded@.sort_by(leq_u64())));
    }
    let result = AnalysisResult {
        rsd: Some(rsd),
        is_stable: Some(is_stable),
        sold_per_week: Some(sold),
        percentiles,
        percentiles_no_fee: Vec::new(),
    };
    proof {
        assert(analysis_matches(points@, now as int, result@));
    }
    Some(result)
}

/// Month number of a title-case three-letter English abbreviation, or 0.
pub open spec fn month_num(c0: char, c1: char, c2: char) -> int {
    if c0 == 'J' && c1 == 'a' && c2 == 'n' {
        1
    } else if c0 == 'F' && c1 == 'e' && c2 == 'b' {
        2
    } else if c0 == 'M' && c1 == 'a' && c2 == 'r' {
        3
    } else if c0 == 'A' && c1 == 'p' && c2 == 'r' {
        4
    } else if c0 == 'M' && c1 == 'a' && c2 == 'y' {
        5
    } else if c0 == 'J' && c1 == 'u' && c2 == 'n' {
        6
    } else if c0 == 'J' && c1 == 'u' && c2 == 'l' {
        7
    } else if c0 == 'A' && c1 == 'u' && c2 == 'g' {
        8
    } else if c0 == 'S' && c1 == 'e' && c2 == 'p' {
        9
    } else if c0 == 'O' && c1 == 'c' && c2 == 't' {
        10
    } else if c0 == 'N' && c1 == 'o' && c2 == 'v' {
        11
    } else if c0 == 'D' && c1 == 'e' && c2 == 'c' {
        12
    } else {
        0
    }
}

pub open spec fn is_leap_year(y: int) -> bool {
    y % 4 == 0 && (y % 100 != 0 || y % 400 == 0)
}

pub open spec fn days_in_month(y: int, m: int) -> int {
    if m == 2 {
        if is_leap_year(y) {
            29
        } else {
            28
        }
    } else if m == 4 || m == 6 || m == 9 || m == 11 {
        30
    } else {
        31
    }
}

/// Days between 1970-01-01 and the given civil date, by the standard
/// era-decomposition formula, valid from the year 1600 on.
pub open spec fn days_from_civil(y: int, m: int, d: int) -> int {
    let yy = if m <= 2 {
        y - 1
    } else {
        y
    };
    let era = yy / 400;
    let yoe = yy - era * 400;
    let mp = if m > 2 {
        m - 3
    } else {
        m + 9
    };
    let doy = (153 * mp + 2) / 5 + d - 1;
    let doe = yoe * 365 + yoe / 4 - yoe / 100 + doy;
    era * 146097 + doe - 719468
}

/// The fields (year, month, day, hour) of a history point's date text,
/// cut at the first colon: three-letter month, one or two day digits,
/// four year digits and one or two hour digits, single-space separated
/// and nothing else.
pub open spec fn date_fields_of(b: Seq<char>) -> Option<(int, int, int, int)> {
    if b.len() < 5 {
        None
    } else {
        let m = month_num(b[0], b[1], b[2]);
        if m == 0 || b[3] != ' ' || !crate::textparse::is_digit(b[4]) {
            None
        } else {
            let two = b.len() >= 6 && crate::textparse::is_digit(b[5]);
            let day = if two {
                crate::textparse::digit_val(b[4]) * 10 + crate::textparse::digit_val(b[5])
            } else {
                crate::textparse::digit_val(b[4])
            };
            let di: int = if two {
                6
            } else {
                5
            };
            if di >= b.len() || b[di] != ' ' {
                None
            } else if di + 5 > b.len() || !crate::textparse::is_digit(b[di + 1])
                || !crate::textparse::is_digit(b[di + 2]) || !crate::textparse::is_digit(
                b[di + 3],
            ) || !crate::textparse::is_digit(b[di + 4]) {
                None
            } else {
                let y = crate::textparse::digits_val(b, di + 1, di + 5);
                if di + 5 >= b.len() || b[di + 5] != ' ' {
                    None
                } else if di + 6 >= b.len() || !crate::textparse::is_digit(b[di + 6]) {
                    None
                } else {
                    let htwo = b.len() >= di + 8 && crate::textparse::is_digit(b[di + 7]);
                    let h = if htwo {
                        crate::textparse::digit_val(b[di + 6]) * 10 + crate::textparse::digit_val(
                            b[di + 7],
                        )
                    } else {
                        crate::textparse::digit_val(b[di + 6])
                    };
                    let he: int = if htwo {
                        di + 8
                    } else {
                        di + 7
                    };
                    if he != b.len() {
                        None
                    } else {
                        Some((y, m, day, h))
                    }
                }
            }
        }
    }
}

/// The unix timestamp of a history point's date text: its fields taken
/// before the first colon, checked against the real calendar.
pub open spec fn steam_date_ts(s: Seq<char>) -> Option<int> {
    let cut = crate::textparse::find_char(s, ':', 0);
    let body = if cut < 0 {
        s
    } else {
        s.subrange(0, cut)
    };
    match date_fields_of(body) {
        None => None,
        Some(f) => if 1600 <= f.0 <= 9999 && 1 <= f.2 <= days_in_month(f.0, f.1) && f.3 <= 23 {
            Some(days_from_civil(f.0, f.1, f.2) * 86400 + f.3 * 3600)
        } else {
            None
        },
    }
}

/// Month number of three characters, or 0.
fn month_of_chars(c0: char, c1: char, c2: char) -> (r: u32)
    ensures
        r as int == month_num(c0, c1, c2),
{
    if c0 == 'J' && c1 == 'a' && c2 == 'n' {
        1
    } else if c0 == 'F' && c1 == 'e' && c2 == 'b' {
        2
    } else if c0 == 'M' && c1 == 'a' && c2 == 'r' {
        3
    } else if c0 == 'A' && c1 == 'p' && c2 == 'r' {
        4
    } else if c0 == 'M' && c1 == 'a' && c2 == 'y' {
        5
    } else if c0 == 'J' && c1 == 'u' && c2 == 'n' {
        6
    } else if c0 == 'J' && c1 == 'u' && c2 == 'l' {
        7
    } else if c0 == 'A' && c1 == 'u' && c2 == 'g' {
        8
    } else if c0 == 'S' && c1 == 'e' && c2 == 'p' {
        9
    } else if c0 == 'O' && c1 == 'c' && c2 == 't' {
        10
    } else if c0 == 'N' && c1 == 'o' && c2 == 'v' {
        11
    } else if c0 == 'D' && c1 == 'e' && c2 == 'c' {
        12
    } else {
        0
    }
}

/// Days from the epoch to a civil date in the supported era.
fn civil_to_days(y: i64, m: i64, d: i64) -> (r: i64)
    requires
        1600 <= y <= 9999,
        1 <= m <= 12,
        1 <= d <= 31,
    ensures
        r as int == days_from_civil(y as int, m as int, d as int),
{
    let yy: i64 = if m <= 2 {
        y - 1
    } else {
        y
    };
    let era: i64 = yy / 400;
    let yoe: i64 = yy - era * 400;
    let mp: i64 = if m > 2 {
        m - 3
    } else {
        m + 9
    };
    let doy: i64 = (153 * mp + 2) / 5 + d - 1;
    let doe: i64 = yoe * 365 + yoe / 4 - yoe / 100 + doy;
    era * 146097 + doe - 719468
}

/// Parse a history point's date text to a unix timestamp.
#[verifier::rlimit(60)]
pub fn parse_steam_date(v: &Vec<char>) -> (r: Option<i64>)
    ensures
        r is None <==> steam_date_ts(v@) is None,
        r matches Some(t) ==> steam_date_ts(v@) == Some(t as int),
{
    let cut = crate::textparse::vec_find_char(v, ':', 0);
    let end: usize = match cut {
        Some(j) => j,
        None => v.len(),
    };
    let ghost body = if crate::textparse::find_char(v@, ':', 0) < 0 {
        v@
    } else {
        v@.subrange(0, crate::textparse::find_char(v@, ':', 0))
    };
    proof {
        assert(v@.subrange(0, v@.len() as int) =~= v@);
        assert(body == v@.subrange(0, end as int));
        assert(forall|k: int| 0 <= k < end ==> body[k] == v@[k]);
    }
    if end < 5 {
        return None;
    }
    let m = month_of_chars(v[0], v[1], v[2]);
    if m == 0 || !(v[3] == ' ') || !crate::textparse::char_is_digit(v[4]) {
        return None;
    }
    let two = end >= 6 && crate::textparse::char_is_digit(v[5]);
    let day: u32 = if two {
        (v[4] as u32 - 48) * 10 + (v[5] as u32 - 48)
    } else {
        v[4] as u32 - 48
    };
    let di: usize = if two {
        6
    } else {
        5
    };
    if di >= end || !(v[di] == ' ') {
        return None;
    }
    if di + 5 > end || !crate::textparse::char_is_digit(v[di + 1])
        || !crate::textparse::char_is_digit(v[di + 2]) || !crate::textparse::char_is_digit(
        v[di + 3],
    ) || !crate::textparse::char_is_digit(v[di + 4]) {
        return None;
    }
    let y: u64 = crate::textparse::vec_digits_val(v, di + 1, di + 5);
    proof {
        assert(crate::textparse::digits_val(body, di + 1, di + 5) == crate::textparse::digits_val(
            v@,
            di + 1,
            di + 5,
        )) by {
            lemma_digits_val_prefix(v@, body, di + 1, di + 5);
        }
    }
    if di + 5 >= end || !(v[di + 5] == ' ') {
        return None;
    }
    if di + 6 >= end || !crate::textparse::char_is_digit(v[di + 6]) {
        return None;
    }
    let htwo = end >= di + 8 && crate::textparse::char_is_digit(v[di + 7]);
    let h: u32 = if htwo {
        (v[di + 6] as u32 - 48) * 10 + (v[di + 7] as u32 - 48)
    } else {
        v[di + 6] as u32 - 48
    };
    let he: usize = if htwo {
        di + 8
    } else {
        di + 7
    };
    if he != end {
        return None;
    }
    // calendar validity: day and hour must exist in the real calendar
    if !(1600 <= y && y <= 9999) {
        return None;
    }
    let dim: u32 = if m == 2 {
        if (y % 4 == 0) && (y % 100 != 0 || y % 400 == 0) {
            29
        } else {
            28
        }
    } else if m == 4 || m == 6 || m == 9 || m == 11 {
        30
    } else {
        31
    };
    if !(1 <= day && day <= dim) || h > 23 {
        return None;
    }
    let days = civil_to_days(y as i64, m as i64, day as i64);
    Some(days * 86400 + (h as i64) * 3600)
}

/// The value of a digit span does not depend on the characters after it.
proof fn lemma_digits_val_prefix(s: Seq<char>, b: Seq<char>, from: int, to: int)
    requires
        0 <= from <= to,
        to <= b.len(),
        to <= s.len(),
        forall|k: int| 0 <= k < to ==> b[k] == s[k],
    ensures
        crate::textparse::digits_val(b, from, to) == crate::textparse::digits_val(s, from, to),
    decreases to - from,
{
    if from < to {
        lemma_digits_val_prefix(s, b, from, to - 1);
    }
}

/// Parse a date in the reference market's history format, such as the
/// page text writes it, to a unix timestamp; absent where the text is not
/// such a date.
pub fn steam_date_str_to_datetime(s: &str) -> (r: Option<i64>)
    ensures
        r is None <==> steam_date_ts(s@) is None,
        r matches Some(t) ==> steam_date_ts(s@) == Some(t as int),
{
    let v = crate::strings::chars_of(s);
    parse_steam_date(&v)
}

/// One raw history element before its date is read: the date text, the
/// average price in millionths of a dollar, and the traded amount.
struct RawPoint {
    date: Vec<char>,
    price: u64,
    amount: u32,
}

impl View for RawPoint {
    type V = (Seq<char>, u64, u32);

    closed spec fn view(&self) -> (Seq<char>, u64, u32) {
        (self.date@, self.price, self.amount)
    }
}

/// A plain decimal number at position `i`, as the page writes prices: an
/// integer part without leading zeros and up to six digits, optionally a
/// fraction whose first six digits count.  Yields the value in millionths
/// of a dollar and the position after the digits.
pub open spec fn number_at(s: Seq<char>, i: int) -> Option<(int, int)> {
    let de = crate::textparse::digits_end(s, i);
    let w = de - i;
    if w < 1 || w > 6 || (w > 1 && s[i] == '0') {
        None
    } else {
        let intval = crate::textparse::digits_val(s, i, de);
        if de < s.len() && s[de] == '.' {
            let fe = crate::textparse::digits_end(s, de + 1);
            let fw = fe - (de + 1);
            if fw < 1 {
                None
            } else {
                let used = if fw >= 6 {
                    de + 7
                } else {
                    fe
                };
                let frac = crate::textparse::digits_val(s, de + 1, used) * crate::textparse::pow10(
                    6 - (used - (de + 1)),
                );
                Some((intval * 1000000 + frac, fe))
            }
        } else {
            Some((intval * 1000000, de))
        }
    }
}

/// One `["date",price,"amount"]` element at position `i`: the raw point
/// and the position after the closing bracket.
pub open spec fn element_at(s: Seq<char>, i: int) -> Option<((Seq<char>, u64, u32), int)> {
    if i < 0 || i >= s.len() || s[i] != '[' {
        None
    } else if i + 1 >= s.len() || s[i + 1] != '"' {
        None
    } else {
        let dq = crate::textparse::find_char(s, '"', i + 2);
        if dq < 0 {
            None
        } else {
            let date = s.subrange(i + 2, dq);
            if dq + 1 >= s.len() || s[dq + 1] != ',' {
                None
            } else {
                match number_at(s, dq + 2) {
                    None => None,
                    Some((price, np)) => if np >= s.len() || s[np] != ',' {
                        None
                    } else if np + 1 >= s.len() || s[np + 1] != '"' {
                        None
                    } else {
                        let ae = crate::textparse::digits_end(s, np + 2);
                        let aw = ae - (np + 2);
                        if aw < 1 || aw > 10 {
                            None
                        } else {
                            let av = crate::textparse::digits_val(s, np + 2, ae);
                            if av > 2147483647 {
                                None
                            } else if ae >= s.len() || s[ae] != '"' {
                                None
                            } else if ae + 1 >= s.len() || s[ae + 1] != ']' {
                                None
                            } else {
                                Some(((date, price as u64, av as u32), ae + 2))
                            }
                        }
                    },
                }
            }
        }
    }
}

/// A comma-separated run of elements ending at a closing bracket.
pub open spec fn elements_from(s: Seq<char>, i: int, fuel: nat) -> Option<
    (Seq<(Seq<char>, u64, u32)>, int),
>
    decreases fuel,
{
    if fuel == 0 {
        None
    } else {
        match element_at(s, i) {
            None => None,
            Some((e, j)) => if j < s.len() && s[j] == ',' {
                match elements_from(s, j + 1, (fuel - 1) as nat) {
                    None => None,
                    Some((rest, k)) => Some((seq![e] + rest, k)),
                }
            } else if j < s.len() && s[j] == ']' {
                Some((seq![e], j + 1))
            } else {
                None
            },
        }
    }
}

/// The whole embedded history array, wholly consumed or nothing.
pub open spec fn history_array(s: Seq<char>) -> Option<Seq<(Seq<char>, u64, u32)>> {
    if s.len() < 2 || s[0] != '[' {
        None
    } else if s[1] == ']' {
        if s.len() == 2 {
            Some(Seq::empty())
        } else {
            None
        }
    } else {
        match elements_from(s, 1, s.len() as nat) {
            None => None,
            Some((es, j)) => if j == s.len() {
                Some(es)
            } else {
                None
            },
        }
    }
}

/// A raw point whose date parses and falls inside the window.
pub open spec fn point_recent(r: (Seq<char>, u64, u32), until: int) -> bool {
    match steam_date_ts(r.0) {
        Some(t) => t >= until,
        None => false,
    }
}

/// Length of the maximal run of in-window points at the end of the
/// array: the walk from the newest point back stops at the first point
/// that is older or unreadable.
pub open spec fn recent_count(raws: Seq<(Seq<char>, u64, u32)>, until: int) -> int
    decreases raws.len(),
{
    if raws.len() == 0 {
        0
    } else if point_recent(raws.last(), until) {
        1 + recent_count(raws.drop_last(), until)
    } else {
        0
    }
}

proof fn lemma_recent_count_exact(raws: Seq<(Seq<char>, u64, u32)>, until: int, c: int)
    requires
        0 <= c <= raws.len(),
        forall|k: int| raws.len() - c <= k < raws.len() ==> point_recent(raws[k], until),
        c == raws.len() || !point_recent(raws[raws.len() - c - 1], until),
    ensures
        recent_count(raws, until) == c,
    decreases c, raws.len(),
{
    if raws.len() == 0 {
    } else if c == 0 {
        assert(!point_recent(raws[raws.len() - 1], until));
    } else {
        assert(point_recent(raws.last(), until));
        let init = raws.drop_last();
        assert(forall|k: int|
            init.len() - (c - 1) <= k < init.len() ==> init[k] == raws[k] && point_recent(
                raws[k],
                until,
            ));
        if c - 1 < init.len() {
            assert(init[init.len() - (c - 1) - 1] == raws[raws.len() - c - 1]);
        }
        lemma_recent_count_exact(init, until, c - 1);
    }
}

proof fn lemma_recent_count_nonneg(raws: Seq<(Seq<char>, u64, u32)>, until: int)
    ensures
        0 <= recent_count(raws, until) <= raws.len(),
    decreases raws.len(),
{
    if raws.len() > 0 && point_recent(raws.last(), until) {
        lemma_recent_count_nonneg(raws.drop_last(), until);
    }
}

proof fn lemma_recent_count_min(raws: Seq<(Seq<char>, u64, u32)>, until: int, c: int)
    requires
        0 <= c <= raws.len(),
        forall|k: int| raws.len() - c <= k < raws.len() ==> point_recent(raws[k], until),
    ensures
        recent_count(raws, until) >= c,
    decreases c,
{
    lemma_recent_count_nonneg(raws, until);
    if c > 0 {
        assert(point_recent(raws.last(), until));
        let init = raws.drop_last();
        assert(forall|k: int|
            init.len() - (c - 1) <= k < init.len() ==> init[k] == raws[k] && point_recent(
                raws[k],
                until,
            ));
        lemma_recent_count_min(init, until, c - 1);
    }
}

/// The point a kept raw element turns into.
pub open spec fn walked_point_at(
    raws: Seq<(Seq<char>, u64, u32)>,
    c: int,
    k: int,
) -> PricePoint {
    let r = raws[raws.len() - c + k];
    PricePoint {
        ts: (match steam_date_ts(r.0) {
            Some(t) => t,
            None => 0,
        }) as i64,
        price: r.1,
        amount: r.2,
    }
}

/// The chronological points the walk keeps: the newest run, capped, in
/// original order.
pub open spec fn walked_points(raws: Seq<(Seq<char>, u64, u32)>, until: int) -> Seq<PricePoint> {
    let c0 = recent_count(raws, until);
    let c = if c0 > MAX_POINTS as int {
        MAX_POINTS as int
    } else {
        c0
    };
    Seq::new(c as nat, |k: int| walked_point_at(raws, c, k))
}

/// Each kept point, by index.
proof fn lemma_walked_points_index(raws: Seq<(Seq<char>, u64, u32)>, until: int, k: int)
    requires
        0 <= k < walked_points(raws, until).len(),
    ensures
        walked_points(raws, until)[k] == walked_point_at(
            raws,
            walked_points(raws, until).len() as int,
            k,
        ),
{
    lemma_recent_count_nonneg(raws, until);
    let c0 = recent_count(raws, until);
    let c = if c0 > MAX_POINTS as int {
        MAX_POINTS as int
    } else {
        c0
    };
    let f = |q: int| walked_point_at(raws, c, q);
    assert(walked_points(raws, until) =~= Seq::new(c as nat, f));
    assert(Seq::new(c as nat, f)[k] == f(k));
}

/// What the page yields: the first whitespace-preceded `var line1=`
/// marker, its text up to the next semicolon parsed as the history
/// array, and of that array the newest in-window run, chronologically.
/// Anything malformed yields no points at all.
pub open spec fn extract_spec(s: Seq<char>, parse_until: int) -> Seq<PricePoint> {
    let m = crate::textparse::find_marker_from(s, "var line1="@, 1);
    if m < 0 {
        Seq::empty()
    } else {
        let sc = crate::textparse::find_char(s, ';', m + 10);
        if sc < 0 {
            Seq::empty()
        } else {
            match history_array(s.subrange(m + 10, sc)) {
                None => Seq::empty(),
                Some(raws) => walked_points(raws, parse_until),
            }
        }
    }
}

/// Ten to a small power.
fn pow10_u64(k: u64) -> (r: u64)
    requires
        k <= 6,
    ensures
        r as int == crate::textparse::pow10(k as int),
{
    let mut r: u64 = 1;
    let mut j: u64 = 0;
    while j < k
        invariant
            0 <= j <= k <= 6,
            r as int == crate::textparse::pow10(j as int),
            r <= 1000000,
        decreases k - j,
    {
        proof {
            crate::textparse::lemma_pow10_monotone(j as int + 1, 6);
            lemma_pow10_six();
        }
        r = r * 10;
        j = j + 1;
    }
    r
}

/// The sixth power of ten, spelled out.
proof fn lemma_pow10_six()
    ensures
        crate::textparse::pow10(6) == 1000000,
{
    assert(crate::textparse::pow10(0) == 1);
    assert(crate::textparse::pow10(1) == 10);
    assert(crate::textparse::pow10(2) == 100);
    assert(crate::textparse::pow10(3) == 1000);
    assert(crate::textparse::pow10(4) == 10000);
    assert(crate::textparse::pow10(5) == 100000);
    assert(crate::textparse::pow10(6) == 1000000);
}

/// A price number at position `i`.
fn parse_number(v: &Vec<char>, i: usize) -> (r: Option<(u64, usize)>)
    requires
        i <= v@.len(),
    ensures
        r is None <==> number_at(v@, i as int) is None,
        r matches Some((p, j)) ==> number_at(v@, i as int) == Some((p as int, j as int)) && i < j
            <= v@.len() && p <= MICRO_PRICE_MAX,
{
    let de = crate::textparse::vec_digits_end(v, i);
    let w = de - i;
    if w < 1 || w > 6 || (w > 1 && v[i] == '0') {
        return None;
    }
    let intval = crate::textparse::vec_digits_val(v, i, de);
    proof {
        crate::textparse::lemma_digits_val_width(v@, i as int, de as int);
        crate::textparse::lemma_pow10_monotone(de - i, 6);
        lemma_pow10_six();
        assert(intval < 1000000);
    }
    if de < v.len() && v[de] == '.' {
        let fe = crate::textparse::vec_digits_end(v, de + 1);
        let fw = fe - (de + 1);
        if fw < 1 {
            return None;
        }
        let used: usize = if fw >= 6 {
            de + 7
        } else {
            fe
        };
        let fval = crate::textparse::vec_digits_val(v, de + 1, used);
        proof {
            crate::textparse::lemma_digits_val_width(v@, de + 1, used as int);
            crate::textparse::lemma_pow10_monotone(6 - (used - (de + 1)), 6);
        }
        let scale = pow10_u64(6 - (used - (de + 1)) as u64);
        proof {
            let fw2 = used - (de + 1);
            let pa = crate::textparse::pow10(fw2 as int);
            let pb = crate::textparse::pow10(6 - fw2 as int);
            crate::textparse::lemma_pow10_mul(fw2 as int, 6 - fw2 as int);
            lemma_pow10_six();
            crate::textparse::lemma_pow10_monotone(0, 6 - fw2 as int);
            assert(fval as int * (scale as int) < pa * pb) by (nonlinear_arith)
                requires
                    (fval as int) < pa,
                    0 <= fval,
                    0 < pb,
                    scale as int == pb,
            ;
            assert(fval as int * (scale as int) < 1000000);
        }
        let frac = fval * scale;
        Some((intval * 1000000 + frac, fe))
    } else {
        Some((intval * 1000000, de))
    }
}

/// One raw element at position `i`.
#[verifier::rlimit(60)]
fn parse_element(v: &Vec<char>, i: usize) -> (r: Option<(RawPoint, usize)>)
    requires
        i <= v@.len(),
    ensures
        r is None <==> element_at(v@, i as int) is None,
        r matches Some((rp, j)) ==> element_at(v@, i as int) == Some((rp@, j as int)) && i < j
            <= v@.len() && rp.price <= MICRO_PRICE_MAX,
{
    let n = v.len();
    if i >= n || !(v[i] == '[') {
        return None;
    }
    if i + 1 >= n || !(v[i + 1] == '"') {
        return None;
    }
    let dq = match crate::textparse::vec_find_char(v, '"', i + 2) {
        Some(j) => j,
        None => {
            return None;
        },
    };
    let mut date: Vec<char> = Vec::new();
    let mut k: usize = i + 2;
    while k < dq
        invariant
            i + 2 <= k <= dq <= v@.len(),
            date@ == v@.subrange(i + 2, k as int),
        decreases dq - k,
    {
        date.push(v[k]);
        proof {
            assert(date@ =~= v@.subrange(i + 2, k + 1));
        }
        k = k + 1;
    }
    proof {
        assert(date@ =~= v@.subrange(i + 2, dq as int));
    }
    if dq + 1 >= n || !(v[dq + 1] == ',') {
        return None;
    }
    let (price, np) = match parse_number(v, dq + 2) {
        Some(x) => x,
        None => {
            return None;
        },
    };
    if np >= n || !(v[np] == ',') {
        return None;
    }
    if np + 1 >= n || !(v[np + 1] == '"') {
        return None;
    }
    let ae = crate::textparse::vec_digits_end(v, np + 2);
    let aw = ae - (np + 2);
    if aw < 1 || aw > 10 {
        return None;
    }
    let av = crate::textparse::vec_digits_val(v, np + 2, ae);
    if av > 2147483647 {
        return None;
    }
    if ae >= n || !(v[ae] == '"') {
        return None;
    }
    if ae + 1 >= n || !(v[ae + 1] == ']') {
        return None;
    }
    Some((RawPoint { date, price, amount: av as u32 }, ae + 2))
}

/// The element run from position `i`, mirroring `elements_from`.
fn parse_elements(v: &Vec<char>, i: usize, fuel: usize) -> (r: Option<(Vec<RawPoint>, usize)>)
    requires
        i <= v@.len(),
    ensures
        r is None <==> elements_from(v@, i as int, fuel as nat) is None,
        r matches Some((es, j)) ==> elements_from(v@, i as int, fuel as nat) == Some(
            (es@.map_values(|e: RawPoint| e@), j as int),
        ) && j <= v@.len() && forall|k: int|
            0 <= k < es@.len() ==> (#[trigger] es@[k]).price <= MICRO_PRICE_MAX,
    decreases fuel,
{
    if fuel == 0 {
        return None;
    }
    let (e, j) = match parse_element(v, i) {
        Some(x) => x,
        None => {
            return None;
        },
    };
    if j < v.len() && v[j] == ',' {
        let (mut rest, k) = match parse_elements(v, j + 1, fuel - 1) {
            Some(x) => x,
            None => {
                return None;
            },
        };
        let ghost reste = rest@.map_values(|e: RawPoint| e@);
        let ghost ev = e@;
        rest.insert(0, e);
        proof {
            assert(rest@.map_values(|e: RawPoint| e@) =~= seq![ev] + reste);
        }
        Some((rest, k))
    } else if j < v.len() && v[j] == ']' {
        let ghost ev = e@;
        let mut es: Vec<RawPoint> = Vec::new();
        es.push(e);
        proof {
            assert(es@.map_values(|e: RawPoint| e@) =~= seq![ev]);
        }
        Some((es, j + 1))
    } else {
        None
    }
}

/// Extract the embedded sell history of a market page: the points of the
/// newest run not older than `parse_until`, chronologically.  A missing
/// marker or malformed payload yields no points.
pub fn extract_sell_history(response: &str, parse_until: i64) -> (r: Vec<PricePoint>)
    ensures
        r@ == extract_spec(response@, parse_until as int),
        r@.len() <= MAX_POINTS,
        forall|k: int| 0 <= k < r@.len() ==> (#[trigger] r@[k]).price <= MICRO_PRICE_MAX,
{
    let chars = crate::strings::chars_of(response);
    let total_len = chars.len();
    let marker = crate::strings::chars_of("var line1=");
    proof {
        reveal_strlit("var line1=");
        assert(marker@.len() == 10);
    }
    let m = match crate::textparse::vec_find_marker(&chars, &marker) {
        Some(j) => j,
        None => {
            return Vec::new();
        },
    };
    proof {
        assert(m + marker@.len() <= total_len);
    }
    let sc = match crate::textparse::vec_find_char(&chars, ';', m + 10) {
        Some(j) => j,
        None => {
            return Vec::new();
        },
    };
    let mut payload: Vec<char> = Vec::new();
    let mut k: usize = m + 10;
    while k < sc
        invariant
            m + 10 <= k <= sc <= chars@.len(),
            payload@ == chars@.subrange(m + 10, k as int),
        decreases sc - k,
    {
        payload.push(chars[k]);
        proof {
            assert(payload@ =~= chars@.subrange(m + 10, k + 1));
        }
        k = k + 1;
    }
    proof {
        assert(payload@ =~= chars@.subrange(m + 10, sc as int));
    }
    // the embedded array itself
    let raws: Vec<RawPoint> = if payload.len() < 2 || !(payload[0] == '[') {
        return Vec::new();
    } else if payload[1] == ']' {
        if payload.len() == 2 {
            Vec::new()
        } else {
            return Vec::new();
        }
    } else {
        match parse_elements(&payload, 1, payload.len()) {
            None => {
                return Vec::new();
            },
            Some((es, j)) => if j == payload.len() {
                es
            } else {
                return Vec::new();
            },
        }
    };
    let ghost rawsv = raws@.map_values(|e: RawPoint| e@);
    proof {
        assert(history_array(payload@) == Some(rawsv));
    }
    // walk back from the newest point until one is too old or unreadable
    let total = raws.len();
    let mut cnt: usize = 0;
    let mut stopped = false;
    while !stopped && cnt < total && cnt < MAX_POINTS
        invariant
            total == raws@.len(),
            rawsv == raws@.map_values(|e: RawPoint| e@),
            0 <= cnt <= total,
            cnt <= MAX_POINTS,
            forall|k: int|
                total - cnt <= k < total ==> point_recent(#[trigger] rawsv[k], parse_until as int),
            stopped ==> cnt < total && !point_recent(
                rawsv[total - cnt - 1],
                parse_until as int,
            ),
        decreases total - cnt + (if stopped { 0int } else { 1int }),
    {
        let idx = total - 1 - cnt;
        match parse_steam_date(&raws[idx].date) {
            Some(t) => {
                if t >= parse_until {
                    cnt = cnt + 1;
                } else {
                    stopped = true;
                }
            },
            None => {
                stopped = true;
            },
        }
    }
    let ghost rc = recent_count(rawsv, parse_until as int);
    proof {
        if stopped {
            lemma_recent_count_exact(rawsv, parse_until as int, cnt as int);
        } else if cnt == total {
            lemma_recent_count_exact(rawsv, parse_until as int, cnt as int);
        } else {
            lemma_recent_count_min(rawsv, parse_until as int, cnt as int);
        }
        assert(walked_points(rawsv, parse_until as int).len() == cnt);
    }
    // collect the kept run chronologically
    let mut out: Vec<PricePoint> = Vec::new();
    let mut k: usize = 0;
    while k < cnt
        invariant
            total == raws@.len(),
            rawsv == raws@.map_values(|e: RawPoint| e@),
            0 <= k <= cnt <= total,
            forall|q: int|
                total - cnt <= q < total ==> point_recent(#[trigger] rawsv[q], parse_until as int),
            out@.len() == k,
            forall|q: int|
                0 <= q < k ==> #[trigger] out@[q] == walked_points(rawsv, parse_until as int)[q],
            walked_points(rawsv, parse_until as int).len() == cnt,
        decreases cnt - k,
    {
        let idx = total - cnt + k;
        let t = match parse_steam_date(&raws[idx].date) {
            Some(t) => t,
            None => {
                proof {
                    assert(point_recent(rawsv[idx as int], parse_until as int));
                    assert(false);
                }
                0
            },
        };
        out.push(PricePoint { ts: t, price: raws[idx].price, amount: raws[idx].amount });
        proof {
            let up = parse_until as int;
            let wp = walked_points(rawsv, up);
            let c = wp.len() as int;
            assert(c == cnt);
            assert(rawsv.len() - c + k as int == idx as int);
            let r0 = rawsv[rawsv.len() - c + k];
            assert(r0 == raws@[idx as int]@);
            assert(steam_date_ts(r0.0) == Some(t as int));
            lemma_walked_points_index(rawsv, up, k as int);
            assert(wp[k as int].price == r0.1);
            assert(wp[k as int].amount == r0.2);
            assert(wp[k as int].ts == t);
            assert(out@[k as int] == wp[k as int]);
        }
        k = k + 1;
    }
    proof {
        assert(out@ =~= walked_points(rawsv, parse_until as int));
        assert forall|q: int| 0 <= q < out@.len() implies (#[trigger] out@[q]).price
            <= MICRO_PRICE_MAX by {
            assert(out@[q].price == rawsv[rawsv.len() - out@.len() + q].1);
        }
    }
    out
}

/// Analyze a raw market page against the seven-day window ending at
/// `current_datetime` (unix seconds): extract its embedded sell history
/// and run the statistical pipeline on it.
pub fn analyze_steam_sell_history(response: &str, current_datetime: i64) -> (r: Option<
    AnalysisResult,
>)
    requires
        current_datetime >= i64::MIN + ANALYSIS_WINDOW_SECS,
    ensures
        ({
            let points = extract_spec(
                response@,
                current_datetime as int - ANALYSIS_WINDOW_SECS as int,
            );
            &&& r is None <==> kept_points(points, current_datetime as int).len() < 5
            &&& (r matches Some(a) ==> analysis_matches(points, current_datetime as int, a@))
        }),
{
    let date_range_start = current_datetime - ANALYSIS_WINDOW_SECS;
    let history_data = extract_sell_history(response, date_range_start);
    analyze_price_history(&history_data, current_datetime)
}

} // verus!
