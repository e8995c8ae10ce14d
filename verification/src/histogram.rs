//! Histograms of the lag between a first arrival and its duplicates.
use vstd::prelude::*;

use crate::clock::TWO_POW_64;

verus! {

/// Number of bounded bands in a lag histogram.
pub const DUP_LAG_BANDS: usize = 13;

/// Upper bounds (in microseconds) of the lag bands; lags above the last bound are counted in
/// `DupLagHistogram::overflow`.
pub const DUP_LAG_BUCKETS_US: [u64; DUP_LAG_BANDS] = [
    50, 100, 250, 500, 1_000, 2_500, 5_000, 10_000, 25_000, 50_000, 100_000, 250_000, 500_000,
];

/// The bounds of `DUP_LAG_BUCKETS_US` in seconds, as Prometheus `le` labels.
pub const DUP_LAG_LE_SECONDS: [&'static str; DUP_LAG_BANDS] = [
    "0.00005", "0.0001", "0.00025", "0.0005", "0.001", "0.0025", "0.005", "0.01", "0.025", "0.05",
    "0.1", "0.25", "0.5",
];

/// Lags of one source behind another. Every counter wraps at 64 bits.
#[derive(Clone, Copy, Debug)]
pub struct DupLagHistogram {
    /// One counter per band of `DUP_LAG_BUCKETS_US`; a lag is counted in one band only.
    pub buckets: [u64; DUP_LAG_BANDS],
    /// Lags above the last bound.
    pub overflow: u64,
    /// All lags.
    pub count: u64,
    /// The sum of all lags in microseconds.
    pub sum_micros: u64,
}

/// What a lag histogram holds.
#[verifier::ext_equal]
pub struct LagCounts {
    pub bands: Seq<u64>,
    pub overflow: u64,
    pub count: u64,
    pub sum_micros: u64,
}

impl View for DupLagHistogram {
    type V = LagCounts;

    open spec fn view(&self) -> LagCounts {
        LagCounts {
            bands: self.buckets@,
            overflow: self.overflow,
            count: self.count,
            sum_micros: self.sum_micros,
        }
    }
}

/// The view of a histogram shows its counters as they are.
pub proof fn view_shows_the_counts(hist: DupLagHistogram, i: int)
    ensures
        hist@.bands.len() == DUP_LAG_BANDS,
        0 <= i < DUP_LAG_BANDS ==> hist@.bands[i] == hist.buckets@[i],
        hist@.overflow == hist.overflow,
        hist@.count == hist.count,
        hist@.sum_micros == hist.sum_micros,
{
}

/// Whether a lag belongs to band `band`: above the bound of the band before, and at most its own.
pub open spec fn in_band(lag_us: u64, band: int) -> bool {
    &&& 0 <= band < DUP_LAG_BANDS
    &&& lag_us <= DUP_LAG_BUCKETS_US@[band]
    &&& band > 0 ==> DUP_LAG_BUCKETS_US@[band - 1] < lag_us
}

/// Whether a lag is above every bound.
pub open spec fn above_all_bands(lag_us: u64) -> bool {
    DUP_LAG_BUCKETS_US@[DUP_LAG_BANDS - 1] < lag_us
}

/// The sum of some lags.
pub open spec fn lag_total(lags: Seq<u64>) -> nat
    decreases lags.len(),
{
    if lags.len() == 0 {
        0
    } else {
        lag_total(lags.drop_last()) + lags.last() as nat
    }
}

/// The sum of the first `n` counters.
pub open spec fn band_total(bands: Seq<u64>, n: nat) -> nat
    decreases n,
{
    if n == 0 {
        0
    } else {
        band_total(bands, (n - 1) as nat) + bands[n - 1] as nat
    }
}

impl LagCounts {
    /// The counts of no lag at all.
    pub open spec fn none() -> LagCounts {
        LagCounts {
            bands: Seq::new(DUP_LAG_BANDS as nat, |i: int| 0u64),
            overflow: 0,
            count: 0,
            sum_micros: 0,
        }
    }

    /// The counts with one more lag.
    pub open spec fn recorded(self, lag_us: u64) -> LagCounts {
        LagCounts {
            bands: Seq::new(
                DUP_LAG_BANDS as nat,
                |i: int|
                    if in_band(lag_us, i) {
                        self.bands[i].wrapping_add(1)
                    } else {
                        self.bands[i]
                    },
            ),
            overflow: if above_all_bands(lag_us) {
                self.overflow.wrapping_add(1)
            } else {
                self.overflow
            },
            count: self.count.wrapping_add(1),
            sum_micros: self.sum_micros.wrapping_add(lag_us),
        }
    }

    /// The counts of a series of lags.
    pub open spec fn of(lags: Seq<u64>) -> LagCounts
        decreases lags.len(),
    {
        if lags.len() == 0 {
            LagCounts::none()
        } else {
            LagCounts::of(lags.drop_last()).recorded(lags.last())
        }
    }

    /// The number of lags in the first `n` bands, at 64 bits: what a cumulative histogram shows at
    /// the bound of band `n - 1`.
    pub open spec fn cumulative(self, n: nat) -> u64 {
        (band_total(self.bands, n) % (TWO_POW_64 as nat)) as u64
    }

    /// The bands and the overflow account for every lag that was counted, up to the wrap at 64 bits.
    pub open spec fn balanced(self) -> bool {
        &&& self.bands.len() == DUP_LAG_BANDS
        &&& (band_total(self.bands, DUP_LAG_BANDS as nat) + self.overflow) % (TWO_POW_64 as int)
            == self.count
    }

    /// No band has been counted past what 64 bits hold.
    pub open spec fn unwrapped(self) -> bool {
        band_total(self.bands, DUP_LAG_BANDS as nat) + self.overflow <= u64::MAX
    }
}

/// The bounds of the bands increase.
pub proof fn bounds_increase(i: int, j: int)
    requires
        0 <= i < j < DUP_LAG_BANDS,
    ensures
        DUP_LAG_BUCKETS_US@[i] < DUP_LAG_BUCKETS_US@[j],
{
}

/// The bounds start at 50 microseconds, double, go on to two and a half times that, and from there on
/// grow tenfold every three bands.
pub proof fn bounds_grow_tenfold(i: int)
    ensures
        DUP_LAG_BANDS == 13,
        DUP_LAG_BUCKETS_US@[0] == 50,
        DUP_LAG_BUCKETS_US@[1] == 2 * DUP_LAG_BUCKETS_US@[0],
        2 * DUP_LAG_BUCKETS_US@[2] == 5 * DUP_LAG_BUCKETS_US@[1],
        0 <= i < DUP_LAG_BANDS - 3 ==> DUP_LAG_BUCKETS_US@[i + 3] == 10 * DUP_LAG_BUCKETS_US@[i],
{
}

/// The number that the first `n` decimals of a label spell, behind its zero and its point.
pub open spec fn decimals(label: Seq<char>, n: nat) -> int
    decreases n,
{
    if n == 0 {
        0
    } else {
        10 * decimals(label, (n - 1) as nat) + (label[n as int + 1] as int - '0' as int)
    }
}

/// Ten to the power of `n`.
pub open spec fn ten_to(n: nat) -> int
    decreases n,
{
    if n == 0 {
        1
    } else {
        10 * ten_to((n - 1) as nat)
    }
}

/// Each label spells the bound of its band in seconds: a zero, a point, and decimals.
pub proof fn labels_spell_the_bounds(i: int)
    requires
        0 <= i < DUP_LAG_BANDS,
    ensures
        ({
            let label = DUP_LAG_LE_SECONDS@[i]@;
            let n = (label.len() - 2) as nat;
            &&& label.len() > 2 && label[0] == '0' && label[1] == '.'
            &&& decimals(label, n) * 1_000_000 == DUP_LAG_BUCKETS_US@[i] * ten_to(n)
        }),
{
    reveal_strlit("0.00005");
    reveal_strlit("0.0001");
    reveal_strlit("0.00025");
    reveal_strlit("0.0005");
    reveal_strlit("0.001");
    reveal_strlit("0.0025");
    reveal_strlit("0.005");
    reveal_strlit("0.01");
    reveal_strlit("0.025");
    reveal_strlit("0.05");
    reveal_strlit("0.1");
    reveal_strlit("0.25");
    reveal_strlit("0.5");
    reveal_with_fuel(decimals, 6);
    reveal_with_fuel(ten_to, 6);
    assert(decimals("0.00005"@, 5) == 5);
    assert(decimals("0.0001"@, 4) == 1);
    assert(decimals("0.00025"@, 5) == 25);
    assert(decimals("0.0005"@, 4) == 5);
    assert(decimals("0.001"@, 3) == 1);
    assert(decimals("0.0025"@, 4) == 25);
    assert(decimals("0.005"@, 3) == 5);
    assert(decimals("0.01"@, 2) == 1);
    assert(decimals("0.025"@, 3) == 25);
    assert(decimals("0.05"@, 2) == 5);
    assert(decimals("0.1"@, 1) == 1);
    assert(decimals("0.25"@, 2) == 25);
    assert(decimals("0.5"@, 1) == 5);
    assert(ten_to(1) == 10 && ten_to(2) == 100 && ten_to(3) == 1_000);
    assert(ten_to(4) == 10_000 && ten_to(5) == 100_000);
}

/// Every lag belongs to one band and no other, or is above all of them.
pub proof fn one_band(lag_us: u64)
    ensures
        above_all_bands(lag_us) <==> !exists|band: int| in_band(lag_us, band),
        forall|i: int, j: int| in_band(lag_us, i) && in_band(lag_us, j) ==> i == j,
{
    assert forall|i: int, j: int| in_band(lag_us, i) && in_band(lag_us, j) implies i == j by {
        if i < j - 1 {
            bounds_increase(i, j - 1);
        } else if j < i - 1 {
            bounds_increase(j, i - 1);
        }
    }
    assert forall|band: int| above_all_bands(lag_us) implies !in_band(lag_us, band) by {
        if 0 <= band < DUP_LAG_BANDS - 1 {
            bounds_increase(band, DUP_LAG_BANDS - 1);
        }
    }
    if !above_all_bands(lag_us) {
        let band = lowest_band(lag_us, 0);
        assert(in_band(lag_us, band));
    }
}

proof fn lowest_band(lag_us: u64, from: int) -> (band: int)
    requires
        0 <= from < DUP_LAG_BANDS,
        !above_all_bands(lag_us),
        from > 0 ==> DUP_LAG_BUCKETS_US@[from - 1] < lag_us,
    ensures
        in_band(lag_us, band),
    decreases DUP_LAG_BANDS - from,
{
    if lag_us <= DUP_LAG_BUCKETS_US@[from] {
        from
    } else {
        lowest_band(lag_us, from + 1)
    }
}

/// Adding one lag to a band adds one to the total, up to the wrap at 64 bits.
proof fn band_total_after(before: LagCounts, lag_us: u64, n: nat)
    requires
        before.bands.len() == DUP_LAG_BANDS,
        n <= DUP_LAG_BANDS,
    ensures
        band_total(before.recorded(lag_us).bands, n) % (TWO_POW_64 as nat) == (band_total(
            before.bands,
            n,
        ) + if exists|band: int| band < n && in_band(lag_us, band) {
            1nat
        } else {
            0
        }) % (TWO_POW_64 as nat),
    decreases n,
{
    if n > 0 {
        band_total_after(before, lag_us, (n - 1) as nat);
        one_band(lag_us);
        let earlier = exists|band: int| band < n - 1 && in_band(lag_us, band);
        if in_band(lag_us, n - 1) {
            assert(!earlier);
        } else if exists|band: int| band < n && in_band(lag_us, band) {
            let band = choose|band: int| band < n && in_band(lag_us, band);
            assert(band < n - 1);
        }
    }
}

/// A histogram that accounts for every lag still does after one more, and the empty one does.
pub proof fn recording_keeps_balance(before: LagCounts, lag_us: u64)
    requires
        before.balanced(),
    ensures
        before.recorded(lag_us).balanced(),
{
    band_total_after(before, lag_us, DUP_LAG_BANDS as nat);
    one_band(lag_us);
    if exists|band: int| in_band(lag_us, band) {
        let band = choose|band: int| in_band(lag_us, band);
        assert(band < DUP_LAG_BANDS && in_band(lag_us, band));
    }
}

/// The empty histogram accounts for every lag.
pub proof fn none_is_balanced()
    ensures
        LagCounts::none().balanced(),
        LagCounts::none().unwrapped(),
{
    band_total_none(DUP_LAG_BANDS as nat);
}

proof fn band_total_none(n: nat)
    requires
        n <= DUP_LAG_BANDS,
    ensures
        band_total(LagCounts::none().bands, n) == 0,
    decreases n,
{
    if n > 0 {
        band_total_none((n - 1) as nat);
    }
}

proof fn band_total_increases(bands: Seq<u64>, m: nat, n: nat)
    requires
        m <= n,
    ensures
        band_total(bands, m) <= band_total(bands, n),
    decreases n,
{
    if m < n {
        band_total_increases(bands, m, (n - 1) as nat);
    }
}

/// The counts that a cumulative histogram shows never fall from one bound to the next, and the
/// last of them and the overflow make up the count at infinity.
pub proof fn cumulative_counts_rise(counts: LagCounts, m: nat, n: nat)
    requires
        counts.balanced(),
        counts.unwrapped(),
        m <= n <= DUP_LAG_BANDS,
    ensures
        counts.cumulative(m) <= counts.cumulative(n) <= counts.count,
        counts.cumulative(DUP_LAG_BANDS as nat) + counts.overflow == counts.count,
{
    band_total_increases(counts.bands, m, n);
    band_total_increases(counts.bands, n, DUP_LAG_BANDS as nat);
}

/// How many of `lags` are at most `bound`.
pub open spec fn lags_at_most(lags: Seq<u64>, bound: u64) -> nat {
    lags.filter(|lag: u64| lag <= bound).len()
}

proof fn bands_up_to_bound(lag_us: u64, n: nat)
    requires
        0 < n <= DUP_LAG_BANDS,
    ensures
        lag_us <= DUP_LAG_BUCKETS_US@[n - 1] <==> exists|band: int|
            band < n && in_band(lag_us, band),
{
    if lag_us <= DUP_LAG_BUCKETS_US@[n - 1] {
        if n < DUP_LAG_BANDS {
            bounds_increase(n - 1, DUP_LAG_BANDS - 1);
        }
        let band = lowest_band(lag_us, 0);
        if n < band {
            bounds_increase(n - 1, band - 1);
        }
        assert(band < n && in_band(lag_us, band));
    } else {
        assert forall|band: int| band < n implies !in_band(lag_us, band) by {
            if 0 <= band < n - 1 {
                bounds_increase(band, n - 1);
            }
        }
    }
}

proof fn cumulative_at_bound(lags: Seq<u64>, band: int)
    requires
        0 <= band < DUP_LAG_BANDS,
    ensures
        LagCounts::of(lags).bands.len() == DUP_LAG_BANDS,
        LagCounts::of(lags).cumulative((band + 1) as nat) == lags_at_most(
            lags,
            DUP_LAG_BUCKETS_US@[band],
        ) % (TWO_POW_64 as nat),
    decreases lags.len(),
{
    reveal(Seq::filter);
    if lags.len() == 0 {
        band_total_none((band + 1) as nat);
    } else {
        let rest = lags.drop_last();
        cumulative_at_bound(rest, band);
        band_total_after(LagCounts::of(rest), lags.last(), (band + 1) as nat);
        bands_up_to_bound(lags.last(), (band + 1) as nat);
    }
}

proof fn overall_counts(lags: Seq<u64>)
    ensures
        ({
            let counts = LagCounts::of(lags);
            let last_bound = DUP_LAG_BUCKETS_US@[DUP_LAG_BANDS - 1];
            &&& counts.overflow == (lags.len() - lags_at_most(lags, last_bound)) % (
            TWO_POW_64 as int)
            &&& counts.count == lags.len() % (TWO_POW_64 as nat)
            &&& counts.sum_micros == lag_total(lags) % (TWO_POW_64 as nat)
        }),
    decreases lags.len(),
{
    reveal(Seq::filter);
    if lags.len() > 0 {
        let rest = lags.drop_last();
        overall_counts(rest);
        rest.lemma_filter_len(|lag: u64| lag <= DUP_LAG_BUCKETS_US@[DUP_LAG_BANDS - 1]);
    }
}

/// A cumulative histogram shows at each bound how many of the recorded lags are at or below it, and
/// counts all of them, those above every bound, and their sum; each at 64 bits.
pub proof fn cumulative_counts_lags(lags: Seq<u64>, band: int)
    requires
        0 <= band < DUP_LAG_BANDS,
    ensures
        ({
            let counts = LagCounts::of(lags);
            let last_bound = DUP_LAG_BUCKETS_US@[DUP_LAG_BANDS - 1];
            &&& counts.bands.len() == DUP_LAG_BANDS
            &&& counts.cumulative((band + 1) as nat) == lags_at_most(
                lags,
                DUP_LAG_BUCKETS_US@[band],
            ) % (TWO_POW_64 as nat)
            &&& counts.overflow == (lags.len() - lags_at_most(lags, last_bound)) % (
            TWO_POW_64 as int)
            &&& counts.count == lags.len() % (TWO_POW_64 as nat)
            &&& counts.sum_micros == lag_total(lags) % (TWO_POW_64 as nat)
        }),
{
    cumulative_at_bound(lags, band);
    overall_counts(lags);
}

/// Before any band is full, adding one lag to a band adds just one to the total.
proof fn band_total_before_wrap(before: LagCounts, lag_us: u64, n: nat)
    requires
        before.bands.len() == DUP_LAG_BANDS,
        n <= DUP_LAG_BANDS,
        band_total(before.bands, DUP_LAG_BANDS as nat) < u64::MAX,
    ensures
        band_total(before.recorded(lag_us).bands, n) == band_total(before.bands, n) + if exists|
            band: int,
        |
            band < n && in_band(lag_us, band) {
            1nat
        } else {
            0
        },
    decreases n,
{
    if n > 0 {
        band_total_before_wrap(before, lag_us, (n - 1) as nat);
        band_total_increases(before.bands, n, DUP_LAG_BANDS as nat);
        one_band(lag_us);
        let earlier = exists|band: int| band < n - 1 && in_band(lag_us, band);
        if in_band(lag_us, n - 1) {
            assert(!earlier);
        } else if exists|band: int| band < n && in_band(lag_us, band) {
            let band = choose|band: int| band < n && in_band(lag_us, band);
            assert(band < n - 1);
        }
    }
}

/// As long as 64 bits hold their number, lags are counted without a wrap: the bands and the overflow
/// make up the count, and the count is the number of lags.
pub proof fn few_lags_are_exact(lags: Seq<u64>)
    requires
        lags.len() <= u64::MAX,
    ensures
        ({
            let counts = LagCounts::of(lags);
            &&& counts.balanced()
            &&& counts.unwrapped()
            &&& counts.count == lags.len()
            &&& band_total(counts.bands, DUP_LAG_BANDS as nat) + counts.overflow == counts.count
        }),
    decreases lags.len(),
{
    if lags.len() == 0 {
        none_is_balanced();
    } else {
        few_lags_are_exact(lags.drop_last());
        let lag_us = lags.last();
        band_total_before_wrap(LagCounts::of(lags.drop_last()), lag_us, DUP_LAG_BANDS as nat);
        one_band(lag_us);
        if exists|band: int| in_band(lag_us, band) {
            let band = choose|band: int| in_band(lag_us, band);
            assert(band < DUP_LAG_BANDS && in_band(lag_us, band));
        }
    }
}

impl Default for DupLagHistogram {
    fn default() -> (hist: DupLagHistogram)
        ensures
            hist@ == LagCounts::none(),
    {
        let hist = DupLagHistogram { buckets: [0;DUP_LAG_BANDS], overflow: 0, count: 0, sum_micros: 0 };
        assert(hist@.bands =~= LagCounts::none().bands);
        hist
    }
}

impl DupLagHistogram {
    /// Counts one lag.
    pub fn record(&mut self, lag_us: u64)
        ensures
            final(self)@ == old(self)@.recorded(lag_us),
    {
        let mut band: usize = 0;
        while band < DUP_LAG_BANDS && DUP_LAG_BUCKETS_US[band] < lag_us
            invariant
                band <= DUP_LAG_BANDS,
                forall|i: int| 0 <= i < band ==> DUP_LAG_BUCKETS_US@[i] < lag_us,
            decreases DUP_LAG_BANDS - band,
        {
            band = band + 1;
        }
        proof {
            one_band(lag_us);
        }
        if band < DUP_LAG_BANDS {
            assert(in_band(lag_us, band as int));
            self.buckets[band] = self.buckets[band].wrapping_add(1);
        } else {
            self.overflow = self.overflow.wrapping_add(1);
        }
        self.count = self.count.wrapping_add(1);
        self.sum_micros = self.sum_micros.wrapping_add(lag_us);
        assert(self@.bands =~= old(self)@.recorded(lag_us).bands);
    }

    /// The lags at or below each bound, in the order of the bounds.
    pub fn cumulative_counts(&self) -> (counts: Vec<u64>)
        ensures
            counts@ == Seq::new(DUP_LAG_BANDS as nat, |i: int| self@.cumulative((i + 1) as nat)),
    {
        let mut counts: Vec<u64> = Vec::new();
        let mut total: u64 = 0;
        let mut band: usize = 0;
        while band < DUP_LAG_BANDS
            invariant
                band <= DUP_LAG_BANDS,
                total == self@.cumulative(band as nat),
                counts@ == Seq::new(band as nat, |i: int| self@.cumulative((i + 1) as nat)),
            decreases DUP_LAG_BANDS - band,
        {
            total = total.wrapping_add(self.buckets[band]);
            counts.push(total);
            band = band + 1;
        }
        counts
    }
}

} // verus!
