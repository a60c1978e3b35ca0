//! The analysis side: gathers samples into blocks, estimates the pitch of
//! every completed block and extends the trail by one point per block.

use crate::camera::{followed, AxisMask, Camera, Smoothing};
use crate::channel::{Sample, SampleChannel};
use crate::note::{frequency_to_note, label_of, nearest_note, note_to_label, tab_index, Key};
use crate::pitch::{detect_pitch, estimate, DetectorConfig, PitchEstimate};
use crate::trajectory::{origin, pushed, FullPolicy, Point3, PushOutcome, TrajectoryBuffer};
use vstd::prelude::*;

verus! {

/// The fixed parameters of a tracker.
#[derive(Clone, Copy, Debug)]
pub struct TrackerConfig {
    /// The parameters of the pitch estimator.
    pub detector: DetectorConfig,
    /// The greatest number of points in the trail.
    pub trail_limit: usize,
    /// What the trail does with a point pushed while it is full.
    pub policy: FullPolicy,
    /// The lowest expected frequency, in millihertz.
    pub low: u64,
    /// The highest expected frequency, in millihertz.
    pub high: u64,
    /// The horizontal coordinate of the lowest expected frequency.
    pub left: i64,
    /// The horizontal coordinate of the highest expected frequency.
    pub right: i64,
    /// By how much the first forward coordinate grows with every block.
    pub rise: i64,
    /// By how much the second forward coordinate grows with every block.
    pub advance: i64,
    /// The fraction of the remaining distance the camera covers per tick.
    pub smoothing: Smoothing,
    /// The axes along which the camera follows the trail.
    pub follow: AxisMask,
    /// The key of the instrument the labels are for.
    pub key: Key,
}

impl TrackerConfig {
    /// The parameters are usable: the estimator's are, the trail holds at
    /// least one point, the frequency range is not empty, the forward
    /// coordinates do not run backward and the smoothing lies in (0, 1].
    pub open spec fn wf(&self) -> bool {
        &&& self.detector.wf()
        &&& 1 <= self.trail_limit
        &&& self.low < self.high
        &&& 0 <= self.rise
        &&& 0 <= self.advance
        &&& self.smoothing.wf()
    }

    /// Whether the parameters are usable.
    pub fn is_valid(&self) -> (valid: bool)
        ensures
            valid == self.wf(),
    {
        self.detector.is_valid() && 1 <= self.trail_limit && self.low < self.high && 0 <= self.rise
            && 0 <= self.advance && self.smoothing.is_valid()
    }
}

/// What a tracker holds.
pub struct TrackerState {
    /// The samples of the block in progress.
    pub block: Seq<Sample>,
    /// The trail, oldest point first.
    pub trail: Seq<Point3>,
    /// Where the camera is.
    pub camera: Point3,
    /// The point from which the next point of the trail is derived.
    pub cursor: Point3,
    /// The estimate for the block completed last.
    pub latest: Option<PitchEstimate>,
}

/// `a + b`, held inside the range of a coordinate.
pub open spec fn clamped_sum(a: int, b: int) -> int {
    if a + b > i64::MAX {
        i64::MAX as int
    } else if a + b < i64::MIN {
        i64::MIN as int
    } else {
        a + b
    }
}

/// The horizontal coordinate of a frequency: the expected range of
/// frequencies is mapped linearly onto the display range, and frequencies
/// beyond the expected range are shown at its ends.
pub open spec fn horizontal(cfg: TrackerConfig, freq: int) -> int {
    let held = if freq < cfg.low {
        cfg.low as int
    } else if freq > cfg.high {
        cfg.high as int
    } else {
        freq
    };
    if cfg.right >= cfg.left {
        cfg.left + ((held - cfg.low) * (cfg.right - cfg.left)) / (cfg.high - cfg.low)
    } else {
        cfg.left - ((held - cfg.low) * (cfg.left - cfg.right)) / (cfg.high - cfg.low)
    }
}

/// The point that follows `base`: the forward coordinates advance by their
/// fixed increments, and the horizontal coordinate shows the estimated
/// frequency or, without an estimate, stays where it was.
pub open spec fn next_point(cfg: TrackerConfig, base: Point3, est: Option<PitchEstimate>) -> Point3 {
    Point3 {
        x: match est {
            Some(e) => horizontal(cfg, e.frequency as int) as i64,
            None => base.x,
        },
        y: clamped_sum(base.y as int, cfg.rise as int) as i64,
        z: clamped_sum(base.z as int, cfg.advance as int) as i64,
    }
}

/// Whether a push onto `trail` clears it.
pub open spec fn resets(cfg: TrackerConfig, trail: Seq<Point3>) -> bool {
    cfg.policy == FullPolicy::ResetOnFull && trail.len() >= cfg.trail_limit
}

/// The state after the block in progress, now complete, has been analysed:
/// the block is cleared and the trail grows by one point. A trail that is
/// reset starts again from the origin, and the camera with it.
pub open spec fn completed(cfg: TrackerConfig, st: TrackerState) -> TrackerState {
    let est = estimate(st.block, cfg.detector);
    let base = if resets(cfg, st.trail) {
        Point3 { x: st.cursor.x, y: 0, z: 0 }
    } else {
        st.cursor
    };
    let p = next_point(cfg, base, est);
    TrackerState {
        block: Seq::empty(),
        trail: pushed(st.trail, cfg.trail_limit as nat, cfg.policy, p),
        camera: if resets(cfg, st.trail) {
            origin()
        } else {
            st.camera
        },
        cursor: p,
        latest: est,
    }
}

/// The state after one more sample has arrived.
pub open spec fn fed(cfg: TrackerConfig, st: TrackerState, s: Sample) -> TrackerState {
    let grown = TrackerState { block: st.block.push(s), ..st };
    if grown.block.len() == cfg.detector.window {
        completed(cfg, grown)
    } else {
        grown
    }
}

/// The state after the samples `xs` have arrived in order.
pub open spec fn fed_all(cfg: TrackerConfig, st: TrackerState, xs: Seq<Sample>) -> TrackerState
    decreases xs.len(),
{
    if xs.len() == 0 {
        st
    } else {
        fed(cfg, fed_all(cfg, st, xs.drop_last()), xs.last())
    }
}

/// The state after the camera has moved one tick toward the newest point of
/// the trail. Without a trail the camera stays where it is.
pub open spec fn settled(cfg: TrackerConfig, st: TrackerState) -> TrackerState {
    if st.trail.len() == 0 {
        st
    } else {
        TrackerState { camera: followed(st.camera, st.trail.last(), cfg.smoothing, cfg.follow), ..st }
    }
}

/// The state after one tick that found the samples `xs` in the channel.
pub open spec fn ticked(cfg: TrackerConfig, st: TrackerState, xs: Seq<Sample>) -> TrackerState {
    settled(cfg, fed_all(cfg, st, xs))
}

/// The label for an estimate on an instrument in `key`: that of the nearest
/// note, and the empty label without an estimate.
pub open spec fn label_for(latest: Option<PitchEstimate>, key: Key) -> Seq<char> {
    match latest {
        Some(e) => if e.frequency > 0 {
            label_of(tab_index(nearest_note(e.frequency as int), key))
        } else {
            Seq::empty()
        },
        None => Seq::empty(),
    }
}

/// Samples that do not complete a block only lengthen the block in progress:
/// the trail, the camera and the latest estimate stay as they are.
pub proof fn lemma_short_input_grows_nothing(cfg: TrackerConfig, st: TrackerState, xs: Seq<Sample>)
    requires
        st.block.len() + xs.len() < cfg.detector.window,
    ensures
        fed_all(cfg, st, xs) == (TrackerState { block: st.block + xs, ..st }),
    decreases xs.len(),
{
    if xs.len() == 0 {
        assert(st.block + xs =~= st.block);
    } else {
        lemma_short_input_grows_nothing(cfg, st, xs.drop_last());
        assert((st.block + xs.drop_last()).push(xs.last()) =~= st.block + xs);
    }
}

/// The samples that fill the block in progress to its full length complete
/// it: the block is analysed once and the trail grows by one push.
pub proof fn lemma_full_block_completes(cfg: TrackerConfig, st: TrackerState, xs: Seq<Sample>)
    requires
        xs.len() > 0,
        st.block.len() + xs.len() == cfg.detector.window,
    ensures
        fed_all(cfg, st, xs) == completed(cfg, TrackerState { block: st.block + xs, ..st }),
{
    lemma_short_input_grows_nothing(cfg, st, xs.drop_last());
    assert((st.block + xs.drop_last()).push(xs.last()) =~= st.block + xs);
}

/// Every completed block lengthens the trail by exactly one push, whether or
/// not a pitch was found. Without a pitch the new point keeps the horizontal
/// coordinate of the point before it, and the forward coordinates never run
/// backward.
pub proof fn lemma_block_advances_trail(cfg: TrackerConfig, st: TrackerState)
    requires
        cfg.wf(),
    ensures
        completed(cfg, st).trail.len() > 0,
        completed(cfg, st).trail.last() == completed(cfg, st).cursor,
        estimate(st.block, cfg.detector) is None ==> completed(cfg, st).cursor.x == st.cursor.x,
        !resets(cfg, st.trail) ==> completed(cfg, st).cursor.y >= st.cursor.y && completed(
            cfg,
            st,
        ).cursor.z >= st.cursor.z,
        resets(cfg, st.trail) ==> completed(cfg, st).trail.len() == 1 && completed(cfg, st).camera
            == origin(),
{
}

/// The horizontal coordinate of a frequency lies inside the display range.
pub proof fn lemma_horizontal_in_range(cfg: TrackerConfig, freq: int)
    requires
        cfg.low < cfg.high,
    ensures
        cfg.left <= cfg.right ==> cfg.left <= horizontal(cfg, freq) <= cfg.right,
        cfg.right <= cfg.left ==> cfg.right <= horizontal(cfg, freq) <= cfg.left,
{
    let held = if freq < cfg.low {
        cfg.low as int
    } else if freq > cfg.high {
        cfg.high as int
    } else {
        freq
    };
    let t = held - cfg.low;
    let span = cfg.high - cfg.low;
    let width = if cfg.right >= cfg.left {
        cfg.right - cfg.left
    } else {
        cfg.left - cfg.right
    };
    assert(0 <= (t * width) / span <= width) by (nonlinear_arith)
        requires
            0 <= t <= span,
            0 < span,
            0 <= width,
    ;
}

/// Computes the horizontal coordinate of a frequency.
pub fn map_frequency(cfg: &TrackerConfig, freq: u64) -> (x: i64)
    requires
        cfg.low < cfg.high,
    ensures
        x == horizontal(*cfg, freq as int),
{
    let held = if freq < cfg.low {
        cfg.low
    } else if freq > cfg.high {
        cfg.high
    } else {
        freq
    };
    let t: u128 = (held - cfg.low) as u128;
    let span: u128 = (cfg.high - cfg.low) as u128;
    proof {
        lemma_horizontal_in_range(*cfg, freq as int);
    }
    if cfg.right >= cfg.left {
        let width: u128 = (cfg.right as i128 - cfg.left as i128) as u128;
        assert(t * width <= 18446744073709551615 * 18446744073709551615) by (nonlinear_arith)
            requires
                t <= 18446744073709551615,
                width <= 18446744073709551615,
        ;
        let shift: u128 = (t * width) / span;
        (cfg.left as i128 + shift as i128) as i64
    } else {
        let width: u128 = (cfg.left as i128 - cfg.right as i128) as u128;
        assert(t * width <= 18446744073709551615 * 18446744073709551615) by (nonlinear_arith)
            requires
                t <= 18446744073709551615,
                width <= 18446744073709551615,
        ;
        let shift: u128 = (t * width) / span;
        (cfg.left as i128 - shift as i128) as i64
    }
}

/// Adds an increment to a coordinate and holds the sum inside the range of a
/// coordinate.
pub fn advance_coordinate(from: i64, by: i64) -> (to: i64)
    ensures
        to == clamped_sum(from as int, by as int),
{
    let sum: i128 = from as i128 + by as i128;
    if sum > 9223372036854775807 {
        9223372036854775807
    } else if sum < -9223372036854775808 {
        -9223372036854775808
    } else {
        sum as i64
    }
}

/// The analysis side of the pipeline.
pub struct Tracker {
    config: TrackerConfig,
    block: Vec<Sample>,
    trail: TrajectoryBuffer,
    camera: Camera,
    cursor: Point3,
    latest: Option<PitchEstimate>,
}

impl View for Tracker {
    type V = TrackerState;

    closed spec fn view(&self) -> TrackerState {
        TrackerState {
            block: self.block@,
            trail: self.trail@,
            camera: self.camera.position,
            cursor: self.cursor,
            latest: self.latest,
        }
    }
}

impl Tracker {
    /// The parameters the tracker was made with.
    pub closed spec fn spec_config(&self) -> TrackerConfig {
        self.config
    }

    spec fn inv(&self) -> bool {
        &&& self.config.wf()
        &&& self.trail.wf()
        &&& self.trail.spec_limit() == self.config.trail_limit
        &&& self.trail.spec_policy() == self.config.policy
    }

    /// The tracker is consistent with its parameters, and the block in
    /// progress is not yet complete.
    pub closed spec fn wf(&self) -> bool {
        &&& self.inv()
        &&& self.block@.len() < self.config.detector.window
    }

    /// A tracker with an empty block, an empty trail and the camera at the
    /// origin.
    pub fn new(config: TrackerConfig) -> (tracker: Self)
        requires
            config.wf(),
        ensures
            tracker.wf(),
            tracker.spec_config() == config,
            tracker@ == (TrackerState {
                block: Seq::empty(),
                trail: Seq::empty(),
                camera: origin(),
                cursor: origin(),
                latest: None,
            }),
    {
        Tracker {
            config,
            block: Vec::new(),
            trail: TrajectoryBuffer::new(config.trail_limit, config.policy),
            camera: Camera::new(),
            cursor: Point3 { x: 0, y: 0, z: 0 },
            latest: None,
        }
    }

    /// The parameters the tracker was made with.
    pub fn config(&self) -> (config: TrackerConfig)
        ensures
            config == self.spec_config(),
    {
        self.config
    }

    /// The trail, oldest point first.
    pub fn trail(&self) -> (points: &[Point3])
        ensures
            points@ == self@.trail,
    {
        self.trail.points()
    }

    /// Where the camera is.
    pub fn camera_position(&self) -> (p: Point3)
        ensures
            p == self@.camera,
    {
        self.camera.position
    }

    /// The estimate for the block completed last.
    pub fn latest(&self) -> (est: Option<PitchEstimate>)
        ensures
            est == self@.latest,
    {
        self.latest
    }

    /// The number of samples in the block in progress.
    pub fn pending(&self) -> (n: usize)
        ensures
            n == self@.block.len(),
    {
        self.block.len()
    }

    /// The note of the latest estimate.
    pub fn note(&self) -> (note: Option<i32>)
        ensures
            note == (match self@.latest {
                Some(e) => if e.frequency > 0 {
                    Some(nearest_note(e.frequency as int) as i32)
                } else {
                    None
                },
                None => None,
            }),
    {
        match self.latest {
            Some(e) => if e.frequency > 0 {
                Some(frequency_to_note(e.frequency))
            } else {
                None
            },
            None => None,
        }
    }

    /// The tablature label of the latest estimate in the configured key, and
    /// the empty label while there is no estimate.
    pub fn label(&self) -> (label: &'static str)
        ensures
            label@ == label_for(self@.latest, self.spec_config().key),
    {
        proof {
            reveal_strlit("");
            assert(""@ =~= Seq::<char>::empty());
        }
        match self.latest {
            Some(e) => if e.frequency > 0 {
                note_to_label(frequency_to_note(e.frequency), self.config.key)
            } else {
                ""
            },
            None => "",
        }
    }

    /// Analyses the complete block, clears it and extends the trail.
    fn complete_block(&mut self)
        requires
            old(self).inv(),
            old(self).block@.len() == old(self).config.detector.window,
        ensures
            final(self).wf(),
            final(self).spec_config() == old(self).spec_config(),
            final(self)@ == completed(old(self).spec_config(), old(self)@),
    {
        let est = detect_pitch(self.block.as_slice(), &self.config.detector);
        self.block.clear();
        let x = match est {
            Some(e) => map_frequency(&self.config, e.frequency),
            None => self.cursor.x,
        };
        let restart = match self.config.policy {
            FullPolicy::ResetOnFull => self.trail.len() >= self.config.trail_limit,
            FullPolicy::EvictOldest => false,
        };
        let (y0, z0) = if restart {
            (0, 0)
        } else {
            (self.cursor.y, self.cursor.z)
        };
        let p = Point3 {
            x,
            y: advance_coordinate(y0, self.config.rise),
            z: advance_coordinate(z0, self.config.advance),
        };
        let outcome = self.trail.push_point(p);
        match outcome {
            PushOutcome::Reset => {
                self.camera.reset();
            },
            _ => {},
        }
        self.cursor = p;
        self.latest = est;
    }

    /// Takes in one sample and reports whether it completed a block. A
    /// completed block is analysed at once and extends the trail by a point.
    pub fn feed(&mut self, sample: Sample) -> (done: bool)
        requires
            old(self).wf(),
        ensures
            final(self).wf(),
            final(self).spec_config() == old(self).spec_config(),
            final(self)@ == fed(old(self).spec_config(), old(self)@, sample),
            done == (old(self)@.block.len() + 1 == old(self).spec_config().detector.window),
    {
        self.block.push(sample);
        if self.block.len() == self.config.detector.window {
            self.complete_block();
            true
        } else {
            false
        }
    }

    /// One tick of the analysis loop: takes every sample the channel holds,
    /// oldest first, without waiting for more, then moves the camera one step
    /// toward the newest point of the trail.
    pub fn tick(&mut self, channel: &mut SampleChannel)
        requires
            old(self).wf(),
            old(channel).wf(),
        ensures
            final(self).wf(),
            final(channel).wf(),
            final(self).spec_config() == old(self).spec_config(),
            final(channel).spec_capacity() == old(channel).spec_capacity(),
            final(channel)@.len() == 0,
            final(self)@ == ticked(old(self).spec_config(), old(self)@, old(channel)@),
    {
        let ghost cfg = self.config;
        let ghost start = self@;
        let ghost arrived = channel@;
        let ghost taken = Seq::<Sample>::empty();
        while !channel.is_empty()
            invariant
                self.wf(),
                channel.wf(),
                self.spec_config() == cfg,
                channel.spec_capacity() == old(channel).spec_capacity(),
                taken + channel@ == arrived,
                self@ == fed_all(cfg, start, taken),
            decreases channel@.len(),
        {
            let ghost rest = channel@;
            let popped = channel.try_pop();
            if let Some(s) = popped {
                self.feed(s);
                proof {
                    let longer = taken.push(s);
                    assert(longer.drop_last() =~= taken);
                    assert(longer + channel@ =~= taken + rest);
                    taken = longer;
                }
            }
        }
        proof {
            assert(taken + channel@ =~= taken);
        }
        match self.trail.last() {
            Some(target) => {
                self.camera.follow(target, self.config.smoothing, self.config.follow);
            },
            None => {},
        }
    }
}

} // verus!
