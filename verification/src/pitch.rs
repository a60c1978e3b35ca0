//! Pitch estimation over one analysis block.
//!
//! The estimator scores every candidate lag by the normalised square
//! difference of the block against itself shifted by that lag, skips the lobe
//! around lag zero, and reports the highest point of the first later lobe
//! that reaches the clarity threshold.

use crate::channel::{Sample, SAMPLE_ONE};
use vstd::prelude::*;

verus! {

/// The fixed-point representation of the clarity 1.0.
pub const CLARITY_ONE: u32 = 1073741824;

/// The longest block the estimator accepts; it keeps every sum inside 128
/// bits.
pub const MAX_WINDOW: usize = 1048576;

/// The sum of the squares of the first `n` samples.
pub open spec fn square_sum(s: Seq<Sample>, n: int) -> int
    decreases n,
{
    if n <= 0 {
        0
    } else {
        square_sum(s, n - 1) + s[n - 1] * s[n - 1]
    }
}

/// The total signal power of a block: the sum of its squared samples.
pub open spec fn power(s: Seq<Sample>) -> int {
    square_sum(s, s.len() as int)
}

/// The sum of `s[j] * s[j + lag]` over the first `n` positions `j`.
pub open spec fn product_sum(s: Seq<Sample>, lag: int, n: int) -> int
    decreases n,
{
    if n <= 0 {
        0
    } else {
        product_sum(s, lag, n - 1) + s[n - 1] * s[n - 1 + lag]
    }
}

/// The sum of `s[j]^2 + s[j + lag]^2` over the first `n` positions `j`.
pub open spec fn energy_sum(s: Seq<Sample>, lag: int, n: int) -> int
    decreases n,
{
    if n <= 0 {
        0
    } else {
        energy_sum(s, lag, n - 1) + s[n - 1] * s[n - 1] + s[n - 1 + lag] * s[n - 1 + lag]
    }
}

/// The autocorrelation of the block at `lag`, over the part where the block
/// and its shifted copy overlap.
pub open spec fn correlation(s: Seq<Sample>, lag: int) -> int {
    product_sum(s, lag, s.len() - lag)
}

/// The energy of the two overlapping parts at `lag`.
pub open spec fn energy(s: Seq<Sample>, lag: int) -> int {
    energy_sum(s, lag, s.len() - lag)
}

/// The clarity of the block at `lag`: the normalised square difference
/// `2 * correlation / energy`, in units of `1 / CLARITY_ONE` and rounded down.
/// Lags at which the block is anticorrelated, or has no energy, score zero.
pub open spec fn clarity_at(s: Seq<Sample>, lag: int) -> int {
    if correlation(s, lag) <= 0 || energy(s, lag) <= 0 {
        0
    } else {
        (2 * correlation(s, lag) * CLARITY_ONE) / energy(s, lag)
    }
}

/// Some lag below `lag` scores zero: `lag` lies beyond the lobe around lag
/// zero.
pub open spec fn crossed_before(s: Seq<Sample>, lag: int) -> bool {
    exists|z: int| 0 <= z < lag && #[trigger] clarity_at(s, z) == 0
}

/// `lag` is a candidate: it lies beyond the first lobe and its clarity is
/// positive and reaches `threshold`.
pub open spec fn qualifies(s: Seq<Sample>, threshold: int, lag: int) -> bool {
    &&& clarity_at(s, lag) > 0
    &&& clarity_at(s, lag) >= threshold
    &&& crossed_before(s, lag)
}

/// Every lag from `a` to `b` scores above zero: the two lie in one lobe.
pub open spec fn unbroken(s: Seq<Sample>, a: int, b: int) -> bool {
    forall|u: int| a <= u <= b ==> #[trigger] clarity_at(s, u) > 0
}

/// `lag` is the first highest point of the first lobe, among the lags below
/// `limit`, that holds a candidate.
pub open spec fn is_key_maximum(s: Seq<Sample>, limit: int, threshold: int, lag: int) -> bool {
    &&& 0 <= lag < limit
    &&& qualifies(s, threshold, lag)
    &&& forall|u: int|
        0 <= u < lag && #[trigger] qualifies(s, threshold, u) ==> unbroken(s, u, lag)
            && clarity_at(s, u) < clarity_at(s, lag)
    &&& forall|u: int|
        lag < u < limit && #[trigger] unbroken(s, lag, u) ==> clarity_at(s, u) <= clarity_at(
            s,
            lag,
        )
}

/// The frequency, in millihertz, of a period of `lag` samples at
/// `sample_rate` samples per second, rounded down.
pub open spec fn frequency_of(sample_rate: int, lag: int) -> int {
    (sample_rate * 1000) / lag
}

/// The key maximum of a block, if it has one.
pub open spec fn key_maximum(s: Seq<Sample>, limit: int, threshold: int) -> Option<int> {
    if exists|t: int| is_key_maximum(s, limit, threshold, t) {
        Some(choose|t: int| is_key_maximum(s, limit, threshold, t))
    } else {
        None
    }
}

/// The fixed parameters of the estimator.
#[derive(Clone, Copy, Debug)]
pub struct DetectorConfig {
    /// The number of samples in an analysis block.
    pub window: usize,
    /// The number of lags examined: lags `0` up to, not including, `padding`.
    pub padding: usize,
    /// Samples per second.
    pub sample_rate: u32,
    /// The least signal power, in squared sample units, of a block worth
    /// analysing.
    pub power_threshold: u64,
    /// The least clarity, in units of `1 / CLARITY_ONE`, of an accepted peak.
    pub clarity_threshold: u32,
}

impl DetectorConfig {
    /// The parameters fit the machine: the block is non-empty and short enough
    /// for 128-bit sums, and no lag exceeds it.
    pub open spec fn wf(&self) -> bool {
        &&& 0 < self.window <= MAX_WINDOW
        &&& self.padding <= self.window
    }

    /// Whether the parameters are usable.
    pub fn is_valid(&self) -> (valid: bool)
        ensures
            valid == self.wf(),
    {
        0 < self.window && self.window <= MAX_WINDOW && self.padding <= self.window
    }

    /// Blocks of 1024 samples at 44.1 kHz, 512 lags, a power threshold of 5.0
    /// and a clarity threshold of 0.5.
    pub fn standard() -> (cfg: Self)
        ensures
            cfg.wf(),
            cfg.window == 1024,
            cfg.padding == 512,
            cfg.sample_rate == 44100,
            cfg.power_threshold == 5 * SAMPLE_ONE * SAMPLE_ONE,
            cfg.clarity_threshold == CLARITY_ONE / 2,
    {
        DetectorConfig {
            window: 1024,
            padding: 512,
            sample_rate: 44100,
            power_threshold: 21474836480,
            clarity_threshold: 536870912,
        }
    }
}

/// The outcome of a successful analysis.
#[derive(Clone, Copy, Debug)]
pub struct PitchEstimate {
    /// The detected period in samples.
    pub lag: usize,
    /// The detected frequency in millihertz.
    pub frequency: u64,
    /// The clarity of the detected period, in units of `1 / CLARITY_ONE`.
    pub clarity: u32,
}

/// The estimate for a block: none below the power threshold or without a key
/// maximum, else the lag of the key maximum with its clarity and frequency.
pub open spec fn estimate(s: Seq<Sample>, cfg: DetectorConfig) -> Option<PitchEstimate> {
    if power(s) < cfg.power_threshold {
        None
    } else {
        match key_maximum(s, cfg.padding as int, cfg.clarity_threshold as int) {
            None => None,
            Some(t) => Some(
                PitchEstimate {
                    lag: t as usize,
                    frequency: frequency_of(cfg.sample_rate as int, t) as u64,
                    clarity: clarity_at(s, t) as u32,
                },
            ),
        }
    }
}

proof fn lemma_sample_product_bounds(a: Sample, b: Sample)
    ensures
        -4611686018427387904 <= a * b <= 4611686018427387904,
        0 <= a * a,
{
    assert(-4611686018427387904 <= a * b <= 4611686018427387904 && 0 <= a * a)
        by (nonlinear_arith)
        requires
            -2147483648 <= a <= 2147483647,
            -2147483648 <= b <= 2147483647,
    ;
}

proof fn lemma_twice_product_below_squares(a: int, b: int)
    ensures
        2 * (a * b) <= a * a + b * b,
{
    assert((a - b) * (a - b) >= 0) by (nonlinear_arith);
    assert((a - b) * (a - b) == a * a + b * b - 2 * (a * b)) by (nonlinear_arith);
}

/// Twice the correlation never exceeds the energy, so no clarity exceeds one.
pub proof fn lemma_products_below_energy(s: Seq<Sample>, lag: int, n: int)
    ensures
        2 * product_sum(s, lag, n) <= energy_sum(s, lag, n),
        0 <= energy_sum(s, lag, n),
    decreases n,
{
    if n > 0 {
        lemma_products_below_energy(s, lag, n - 1);
        let a = s[n - 1] as int;
        let b = s[n - 1 + lag] as int;
        lemma_twice_product_below_squares(a, b);
        assert(0 <= a * a && 0 <= b * b) by (nonlinear_arith);
    }
}

/// Every clarity lies between zero and one.
pub proof fn lemma_clarity_bounds(s: Seq<Sample>, lag: int)
    ensures
        0 <= clarity_at(s, lag) <= CLARITY_ONE,
{
    let c = correlation(s, lag);
    let e = energy(s, lag);
    lemma_products_below_energy(s, lag, s.len() - lag);
    if c > 0 && e > 0 {
        assert(0 <= (2 * c * CLARITY_ONE) / e <= CLARITY_ONE) by (nonlinear_arith)
            requires
                0 < c,
                2 * c <= e,
        ;
    }
}

/// A block has at most one key maximum, so an estimate is determined by the
/// block and the parameters.
pub proof fn lemma_key_maximum_is_unique(
    s: Seq<Sample>,
    limit: int,
    threshold: int,
    a: int,
    b: int,
)
    requires
        is_key_maximum(s, limit, threshold, a),
        is_key_maximum(s, limit, threshold, b),
    ensures
        a == b,
{
    if a < b {
        assert(qualifies(s, threshold, a));
        assert(unbroken(s, a, b));
    } else if b < a {
        assert(qualifies(s, threshold, b));
        assert(unbroken(s, b, a));
    }
}

/// A block of silence has no power.
pub proof fn lemma_silence_has_no_power(s: Seq<Sample>, n: int)
    requires
        n <= s.len(),
        forall|i: int| 0 <= i < s.len() ==> s[i] == 0,
    ensures
        square_sum(s, n) == 0,
    decreases n,
{
    if n > 0 {
        lemma_silence_has_no_power(s, n - 1);
    }
}

/// A block whose power is below the power threshold yields no estimate. A
/// block of silence is such a block under every positive threshold.
pub proof fn lemma_quiet_block_yields_no_estimate(s: Seq<Sample>, cfg: DetectorConfig)
    requires
        power(s) < cfg.power_threshold || (cfg.power_threshold > 0 && forall|i: int|
            0 <= i < s.len() ==> s[i] == 0),
    ensures
        estimate(s, cfg) is None,
{
    if !(power(s) < cfg.power_threshold) {
        lemma_silence_has_no_power(s, s.len() as int);
    }
}

/// Computes the signal power of a block.
pub fn block_power(block: &[Sample]) -> (p: u128)
    requires
        block@.len() <= MAX_WINDOW,
    ensures
        p == power(block@),
{
    let n = block.len();
    let mut total: u128 = 0;
    let mut j: usize = 0;
    while j < n
        invariant
            j <= n,
            n == block@.len(),
            n <= MAX_WINDOW,
            total == square_sum(block@, j as int),
            total <= j * 4611686018427387904,
        decreases n - j,
    {
        let a = block[j];
        proof {
            lemma_sample_product_bounds(a, a);
        }
        let sq: i128 = (a as i128) * (a as i128);
        total = total + (sq as u128);
        j += 1;
    }
    total
}

/// Computes the clarity of a block at one lag.
pub fn clarity_of(block: &[Sample], lag: usize) -> (c: u32)
    requires
        block@.len() <= MAX_WINDOW,
        lag <= block@.len(),
    ensures
        c == clarity_at(block@, lag as int),
        c <= CLARITY_ONE,
{
    let n = block.len() - lag;
    let mut products: i128 = 0;
    let mut squares: i128 = 0;
    let mut j: usize = 0;
    while j < n
        invariant
            j <= n,
            n + lag == block@.len(),
            n <= MAX_WINDOW,
            products == product_sum(block@, lag as int, j as int),
            squares == energy_sum(block@, lag as int, j as int),
            -(j * 4611686018427387904) <= products <= j * 4611686018427387904,
            0 <= squares <= j * 9223372036854775808,
        decreases n - j,
    {
        let a = block[j];
        let b = block[j + lag];
        proof {
            lemma_sample_product_bounds(a, b);
            lemma_sample_product_bounds(a, a);
            lemma_sample_product_bounds(b, b);
        }
        products = products + (a as i128) * (b as i128);
        squares = squares + (a as i128) * (a as i128) + (b as i128) * (b as i128);
        j += 1;
    }
    proof {
        lemma_clarity_bounds(block@, lag as int);
    }
    if products <= 0 || squares <= 0 {
        0
    } else {
        let scaled: i128 = 2 * products * 1073741824;
        let q: i128 = scaled / squares;
        q as u32
    }
}

/// Analyses one block.
///
/// Returns nothing when the block's power is below the power threshold or
/// when no lag beyond the first lobe reaches the clarity threshold. Otherwise
/// the estimate is the key maximum of the block: its lag, its clarity, and the
/// frequency `sample_rate / lag`.
pub fn detect_pitch(block: &[Sample], cfg: &DetectorConfig) -> (found: Option<PitchEstimate>)
    requires
        cfg.wf(),
        block@.len() == cfg.window,
    ensures
        found == estimate(block@, *cfg),
        match found {
            Some(est) => {
                &&& power(block@) >= cfg.power_threshold
                &&& is_key_maximum(
                    block@,
                    cfg.padding as int,
                    cfg.clarity_threshold as int,
                    est.lag as int,
                )
                &&& 1 <= est.lag < cfg.padding
                &&& est.clarity == clarity_at(block@, est.lag as int)
                &&& cfg.clarity_threshold <= est.clarity <= CLARITY_ONE
                &&& est.frequency == frequency_of(cfg.sample_rate as int, est.lag as int)
            },
            None => {
                ||| power(block@) < cfg.power_threshold
                ||| forall|lag: int|
                    0 <= lag < cfg.padding ==> !#[trigger] qualifies(
                        block@,
                        cfg.clarity_threshold as int,
                        lag,
                    )
            },
        },
{
    if block_power(block) < cfg.power_threshold as u128 {
        return None;
    }
    let ghost s = block@;
    let ghost thr = cfg.clarity_threshold as int;
    let limit = cfg.padding;
    let mut crossed = false;
    let mut best: Option<(usize, u32)> = None;
    let mut lag: usize = 0;
    let mut lobe_ended = false;
    while lag < limit && !lobe_ended
        invariant
            lag <= limit,
            limit <= block@.len(),
            block@.len() <= MAX_WINDOW,
            s == block@,
            thr == cfg.clarity_threshold as int,
            crossed == crossed_before(s, lag as int),
            best is None ==> !lobe_ended,
            best is None ==> forall|u: int| 0 <= u < lag ==> !#[trigger] qualifies(s, thr, u),
            best matches Some((t, ct)) ==> {
                &&& t < lag
                &&& ct == clarity_at(s, t as int)
                &&& qualifies(s, thr, t as int)
                &&& forall|u: int|
                    0 <= u < t && #[trigger] qualifies(s, thr, u) ==> unbroken(s, u, t as int)
                        && clarity_at(s, u) < clarity_at(s, t as int)
                &&& forall|u: int|
                    t < u < lag ==> #[trigger] clarity_at(s, u) > 0 && clarity_at(s, u)
                        <= clarity_at(s, t as int)
                &&& lobe_ended ==> clarity_at(s, lag as int) == 0
            },
        decreases (limit - lag) + (if lobe_ended { 0int } else { 1int }),
    {
        let c = clarity_of(block, lag);
        if c == 0 {
            if best.is_some() {
                lobe_ended = true;
            } else {
                crossed = true;
                lag += 1;
            }
        } else {
            if crossed {
                match best {
                    None => {
                        if c >= cfg.clarity_threshold {
                            best = Some((lag, c));
                        }
                    },
                    Some((t, ct)) => {
                        if c > ct {
                            proof {
                                assert forall|u: int|
                                    0 <= u < lag && #[trigger] qualifies(
                                        s,
                                        thr,
                                        u,
                                    ) implies unbroken(s, u, lag as int) && clarity_at(s, u)
                                    < clarity_at(s, lag as int) by {
                                    if u < t {
                                        assert(unbroken(s, u, t as int));
                                    }
                                }
                            }
                            best = Some((lag, c));
                        }
                    },
                }
            } else {
                proof {
                    if let Some((t, ct)) = best {
                        assert(qualifies(s, thr, t as int));
                    }
                }
            }
            lag += 1;
        }
    }
    match best {
        None => {
            proof {
                assert forall|t: int| !is_key_maximum(s, limit as int, thr, t) by {
                    if 0 <= t < limit {
                        assert(!qualifies(s, thr, t));
                    }
                }
            }
            None
        },
        Some((t, ct)) => {
            proof {
                assert forall|u: int| t < u < limit && #[trigger] unbroken(
                    s,
                    t as int,
                    u,
                ) implies clarity_at(s, u) <= clarity_at(s, t as int) by {
                    if u >= lag {
                        assert(clarity_at(s, lag as int) > 0);
                    }
                }
                assert(t >= 1);
                lemma_clarity_bounds(s, t as int);
                assert(is_key_maximum(s, limit as int, thr, t as int));
                let chosen = choose|u: int| is_key_maximum(s, limit as int, thr, u);
                lemma_key_maximum_is_unique(s, limit as int, thr, t as int, chosen);
            }
            let frequency = (cfg.sample_rate as u64 * 1000) / (t as u64);
            Some(PitchEstimate { lag: t, frequency, clarity: ct })
        },
    }
}

} // verus!
