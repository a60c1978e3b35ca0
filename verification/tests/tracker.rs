use pitch_trail::camera::{AxisMask, Smoothing};
use pitch_trail::channel::{SampleChannel, SAMPLE_ONE};
use pitch_trail::note::Key;
use pitch_trail::pitch::{DetectorConfig, CLARITY_ONE};
use pitch_trail::tracker::{advance_coordinate, map_frequency, Tracker, TrackerConfig};
use pitch_trail::trajectory::{FullPolicy, Point3};

fn config(policy: FullPolicy) -> TrackerConfig {
    TrackerConfig {
        detector: DetectorConfig {
            window: 8,
            padding: 8,
            sample_rate: 1760,
            power_threshold: 1,
            clarity_threshold: CLARITY_ONE / 2,
        },
        trail_limit: 3,
        policy,
        low: 100_000,
        high: 1_100_000,
        left: -500,
        right: 500,
        rise: 2,
        advance: 10,
        smoothing: Smoothing { numerator: 1, denominator: 2 },
        follow: AxisMask { x: true, y: true, z: true },
        key: Key::C,
    }
}

const TONE: [i32; 8] = [1000, 0, -1000, 0, 1000, 0, -1000, 0];
const SILENCE: [i32; 8] = [0; 8];

fn fill(channel: &mut SampleChannel, samples: &[i32]) {
    for &s in samples {
        assert!(channel.try_push(s));
    }
}

#[test]
fn frequency_is_mapped_linearly_onto_the_display() {
    let cfg = config(FullPolicy::EvictOldest);
    assert_eq!(map_frequency(&cfg, 100_000), -500);
    assert_eq!(map_frequency(&cfg, 1_100_000), 500);
    assert_eq!(map_frequency(&cfg, 600_000), 0);
    assert_eq!(map_frequency(&cfg, 440_000), -160);
    assert_eq!(map_frequency(&cfg, 100_999), -500);
    assert_eq!(map_frequency(&cfg, 101_000), -499);
}

#[test]
fn frequencies_beyond_the_range_are_shown_at_its_ends() {
    let cfg = config(FullPolicy::EvictOldest);
    assert_eq!(map_frequency(&cfg, 0), -500);
    assert_eq!(map_frequency(&cfg, u64::MAX), 500);
}

#[test]
fn display_range_may_run_backward() {
    let cfg = TrackerConfig { left: 500, right: -500, ..config(FullPolicy::EvictOldest) };
    assert_eq!(map_frequency(&cfg, 100_000), 500);
    assert_eq!(map_frequency(&cfg, 1_100_000), -500);
    assert_eq!(map_frequency(&cfg, 350_000), 250);
    let wide = TrackerConfig { left: i64::MAX, right: i64::MIN, ..cfg };
    assert_eq!(map_frequency(&wide, 1_100_000), i64::MIN);
    assert_eq!(map_frequency(&wide, 100_000), i64::MAX);
}

#[test]
fn forward_coordinates_stop_at_the_end_of_the_range() {
    assert_eq!(advance_coordinate(5, 7), 12);
    assert_eq!(advance_coordinate(i64::MAX - 1, 7), i64::MAX);
    assert_eq!(advance_coordinate(i64::MIN + 1, -7), i64::MIN);
}

#[test]
fn new_tracker_is_empty() {
    let tracker = Tracker::new(config(FullPolicy::EvictOldest));
    assert!(tracker.trail().is_empty());
    assert_eq!(tracker.camera_position(), Point3 { x: 0, y: 0, z: 0 });
    assert!(tracker.latest().is_none());
    assert_eq!(tracker.note(), None);
    assert_eq!(tracker.label(), "");
    assert_eq!(tracker.pending(), 0);
    assert_eq!(tracker.config().trail_limit, 3);
}

#[test]
fn fewer_samples_than_a_block_grow_no_trail() {
    let mut tracker = Tracker::new(config(FullPolicy::EvictOldest));
    let mut channel = SampleChannel::with_capacity(16);
    fill(&mut channel, &TONE[..7]);
    tracker.tick(&mut channel);
    assert!(channel.is_empty());
    assert!(tracker.trail().is_empty());
    assert_eq!(tracker.pending(), 7);
    assert_eq!(tracker.camera_position(), Point3 { x: 0, y: 0, z: 0 });
    tracker.tick(&mut channel);
    assert!(tracker.trail().is_empty());
    assert_eq!(tracker.pending(), 7);
}

#[test]
fn block_persists_across_ticks() {
    let mut tracker = Tracker::new(config(FullPolicy::EvictOldest));
    let mut channel = SampleChannel::with_capacity(16);
    fill(&mut channel, &TONE[..5]);
    tracker.tick(&mut channel);
    assert!(tracker.trail().is_empty());
    fill(&mut channel, &TONE[5..]);
    tracker.tick(&mut channel);
    assert_eq!(tracker.trail().len(), 1);
    assert_eq!(tracker.pending(), 0);
    assert_eq!(tracker.latest().unwrap().lag, 4);
}

#[test]
fn completed_block_adds_one_point() {
    let mut tracker = Tracker::new(config(FullPolicy::EvictOldest));
    let mut channel = SampleChannel::with_capacity(16);
    fill(&mut channel, &TONE);
    tracker.tick(&mut channel);
    let found = tracker.latest().unwrap();
    assert_eq!(found.lag, 4);
    assert_eq!(found.frequency, 440_000);
    assert_eq!(tracker.note(), Some(69));
    assert_eq!(tracker.label(), "-3''");
    assert_eq!(tracker.trail(), &[Point3 { x: -160, y: 2, z: 10 }]);
    // the camera has covered half the way to the new point
    assert_eq!(tracker.camera_position(), Point3 { x: -80, y: 1, z: 5 });
}

#[test]
fn feed_reports_the_completed_block() {
    let mut tracker = Tracker::new(config(FullPolicy::EvictOldest));
    for &s in &TONE[..7] {
        assert!(!tracker.feed(s));
    }
    assert!(tracker.feed(TONE[7]));
    assert_eq!(tracker.trail().len(), 1);
    assert_eq!(tracker.camera_position(), Point3 { x: 0, y: 0, z: 0 });
    assert!(!tracker.feed(0));
}

#[test]
fn block_without_pitch_draws_a_flat_segment() {
    let mut tracker = Tracker::new(config(FullPolicy::EvictOldest));
    let mut channel = SampleChannel::with_capacity(32);
    fill(&mut channel, &TONE);
    fill(&mut channel, &SILENCE);
    fill(&mut channel, &SILENCE);
    tracker.tick(&mut channel);
    assert!(tracker.latest().is_none());
    assert_eq!(tracker.label(), "");
    assert_eq!(
        tracker.trail(),
        &[
            Point3 { x: -160, y: 2, z: 10 },
            Point3 { x: -160, y: 4, z: 20 },
            Point3 { x: -160, y: 6, z: 30 },
        ]
    );
}

#[test]
fn silence_alone_still_advances_the_trail() {
    let mut tracker = Tracker::new(config(FullPolicy::EvictOldest));
    let mut channel = SampleChannel::with_capacity(32);
    fill(&mut channel, &SILENCE);
    tracker.tick(&mut channel);
    assert_eq!(tracker.trail(), &[Point3 { x: 0, y: 2, z: 10 }]);
}

#[test]
fn evicting_tracker_streams() {
    let mut tracker = Tracker::new(config(FullPolicy::EvictOldest));
    let mut channel = SampleChannel::with_capacity(64);
    for _ in 0..5 {
        fill(&mut channel, &TONE);
    }
    tracker.tick(&mut channel);
    assert_eq!(
        tracker.trail(),
        &[
            Point3 { x: -160, y: 6, z: 30 },
            Point3 { x: -160, y: 8, z: 40 },
            Point3 { x: -160, y: 10, z: 50 },
        ]
    );
}

#[test]
fn resetting_tracker_starts_again_from_the_origin() {
    let mut tracker = Tracker::new(config(FullPolicy::ResetOnFull));
    let mut channel = SampleChannel::with_capacity(64);
    for _ in 0..3 {
        fill(&mut channel, &TONE);
    }
    tracker.tick(&mut channel);
    assert_eq!(tracker.trail().len(), 3);
    assert_ne!(tracker.camera_position(), Point3 { x: 0, y: 0, z: 0 });
    for &s in &TONE {
        tracker.feed(s);
    }
    assert_eq!(tracker.trail(), &[Point3 { x: -160, y: 2, z: 10 }]);
    assert_eq!(tracker.camera_position(), Point3 { x: 0, y: 0, z: 0 });
}

#[test]
fn camera_follows_only_unmasked_axes() {
    let cfg = TrackerConfig {
        follow: AxisMask { x: false, y: true, z: true },
        ..config(FullPolicy::EvictOldest)
    };
    let mut tracker = Tracker::new(cfg);
    let mut channel = SampleChannel::with_capacity(16);
    fill(&mut channel, &TONE);
    tracker.tick(&mut channel);
    assert_eq!(tracker.camera_position(), Point3 { x: 0, y: 1, z: 5 });
    tracker.tick(&mut channel);
    assert_eq!(tracker.camera_position(), Point3 { x: 0, y: 2, z: 8 });
    tracker.tick(&mut channel);
    tracker.tick(&mut channel);
    tracker.tick(&mut channel);
    assert_eq!(tracker.camera_position(), Point3 { x: 0, y: 2, z: 10 });
}

#[test]
fn label_follows_the_key() {
    let cfg = TrackerConfig { key: Key::A, ..config(FullPolicy::EvictOldest) };
    let mut tracker = Tracker::new(cfg);
    for &s in &TONE {
        tracker.feed(s);
    }
    assert_eq!(tracker.note(), Some(69));
    assert_eq!(tracker.label(), "4");
}

#[test]
fn standard_block_of_a_sine_wave() {
    let cfg = TrackerConfig {
        detector: DetectorConfig::standard(),
        trail_limit: 16,
        ..config(FullPolicy::EvictOldest)
    };
    let mut tracker = Tracker::new(cfg);
    let mut channel = SampleChannel::new(1024);
    for j in 0..1024 {
        let phase = 2.0 * std::f64::consts::PI * (j as f64) / 100.0;
        assert!(channel.try_push((0.5 * phase.sin() * (SAMPLE_ONE as f64)).round() as i32));
    }
    // the silence the channel started with completes the first block, the
    // sine wave the second
    tracker.tick(&mut channel);
    assert_eq!(tracker.trail().len(), 2);
    assert_eq!(tracker.latest().unwrap().frequency, 441_000);
    assert_eq!(tracker.note(), Some(69));
}

#[test]
fn parameters_are_checked() {
    let good = config(FullPolicy::EvictOldest);
    assert!(good.is_valid());
    assert!(!TrackerConfig { trail_limit: 0, ..good }.is_valid());
    assert!(!TrackerConfig { low: 5, high: 5, ..good }.is_valid());
    assert!(!TrackerConfig { rise: -1, ..good }.is_valid());
    assert!(!TrackerConfig { advance: -1, ..good }.is_valid());
    assert!(!TrackerConfig { smoothing: Smoothing { numerator: 0, denominator: 2 }, ..good }
        .is_valid());
    assert!(!TrackerConfig { smoothing: Smoothing { numerator: 3, denominator: 2 }, ..good }
        .is_valid());
    let detector = DetectorConfig { window: 0, padding: 0, ..good.detector };
    assert!(!TrackerConfig { detector, ..good }.is_valid());
    let detector = DetectorConfig { padding: 9, ..good.detector };
    assert!(!TrackerConfig { detector, ..good }.is_valid());
    let detector = DetectorConfig { window: (1 << 20) + 1, ..good.detector };
    assert!(!TrackerConfig { detector, ..good }.is_valid());
    assert!(DetectorConfig::standard().is_valid());
}
