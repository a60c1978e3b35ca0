use pitch_trail::channel::SAMPLE_ONE;
use pitch_trail::pitch::{
    block_power, clarity_of, detect_pitch, DetectorConfig, PitchEstimate, CLARITY_ONE,
};

fn sine(freq_hz: f64, amplitude: f64, len: usize) -> Vec<i32> {
    (0..len)
        .map(|j| {
            let phase = 2.0 * std::f64::consts::PI * freq_hz * (j as f64) / 44100.0;
            (amplitude * phase.sin() * (SAMPLE_ONE as f64)).round() as i32
        })
        .collect()
}

fn small(window: usize, padding: usize) -> DetectorConfig {
    DetectorConfig {
        window,
        padding,
        sample_rate: 8000,
        power_threshold: 1,
        clarity_threshold: CLARITY_ONE / 2,
    }
}

fn lag_of(found: Option<PitchEstimate>) -> Option<usize> {
    found.map(|est| est.lag)
}

#[test]
fn standard_parameters() {
    let cfg = DetectorConfig::standard();
    assert_eq!(cfg.window, 1024);
    assert_eq!(cfg.padding, 512);
    assert_eq!(cfg.sample_rate, 44100);
    assert_eq!(cfg.power_threshold, 5 * 65536 * 65536);
    assert_eq!(cfg.clarity_threshold, 1 << 29);
}

#[test]
fn power_is_the_sum_of_squares() {
    assert_eq!(block_power(&[]), 0);
    assert_eq!(block_power(&[3, -4]), 25);
    assert_eq!(block_power(&[i32::MIN, i32::MAX]), (1u128 << 62) + ((1u128 << 31) - 1).pow(2));
    assert_eq!(block_power(&[SAMPLE_ONE; 5]), 5 * 65536 * 65536);
}

#[test]
fn clarity_is_twice_correlation_over_energy() {
    let block = [3, 4, 3, 4];
    assert_eq!(clarity_of(&block, 0), CLARITY_ONE);
    // correlation 36, energy 75
    assert_eq!(clarity_of(&block, 1), 1030792151);
    // correlation 25, energy 50
    assert_eq!(clarity_of(&block, 2), CLARITY_ONE);
    // correlation 12, energy 25
    assert_eq!(clarity_of(&block, 3), 1030792151);
    assert_eq!(clarity_of(&block, 4), 0);
}

#[test]
fn clarity_is_zero_where_the_block_is_anticorrelated() {
    let block = [5, -5, 5, -5, 5, -5];
    assert_eq!(clarity_of(&block, 1), 0);
    assert_eq!(clarity_of(&block, 2), CLARITY_ONE);
    assert_eq!(clarity_of(&block, 3), 0);
    assert_eq!(clarity_of(&[0, 0, 0, 0], 1), 0);
}

#[test]
fn clarity_survives_extreme_samples() {
    let block = [i32::MIN; 64];
    for lag in 0..64 {
        assert_eq!(clarity_of(&block, lag), CLARITY_ONE);
    }
    assert_eq!(clarity_of(&block, 64), 0);
}

#[test]
fn silence_yields_no_estimate() {
    let cfg = DetectorConfig::standard();
    assert!(detect_pitch(&vec![0; 1024], &cfg).is_none());
}

#[test]
fn block_below_power_threshold_yields_no_estimate() {
    let cfg = DetectorConfig::standard();
    // amplitude 0.05: power 1024 * 0.05^2 / 2 = 1.28 < 5
    let quiet = sine(441.0, 0.05, 1024);
    assert!((block_power(&quiet) as f64) < 5.0 * 65536.0 * 65536.0);
    assert!(detect_pitch(&quiet, &cfg).is_none());
    // the same signal is found once the threshold is lowered
    let keen = DetectorConfig { power_threshold: 1, ..cfg };
    assert_eq!(lag_of(detect_pitch(&quiet, &keen)), Some(100));
}

#[test]
fn power_threshold_is_inclusive() {
    let block = [1000, 0, -1000, 0, 1000, 0, -1000, 0];
    let at = DetectorConfig { power_threshold: 4_000_000, ..small(8, 8) };
    let above = DetectorConfig { power_threshold: 4_000_001, ..small(8, 8) };
    assert_eq!(lag_of(detect_pitch(&block, &at)), Some(4));
    assert!(detect_pitch(&block, &above).is_none());
}

#[test]
fn period_of_a_short_block() {
    let block = [1000, 0, -1000, 0, 1000, 0, -1000, 0];
    let found = detect_pitch(&block, &small(8, 8)).unwrap();
    assert_eq!(found.lag, 4);
    assert_eq!(found.clarity, CLARITY_ONE);
    assert_eq!(found.frequency, 2_000_000);
}

#[test]
fn frequency_is_sample_rate_over_lag() {
    let block = [7, 0, 0, 7, 0, 0, 7, 0, 0, 7, 0, 0];
    let found = detect_pitch(&block, &small(12, 12)).unwrap();
    assert_eq!(found.lag, 3);
    // 8000 Hz / 3 in millihertz, rounded down
    assert_eq!(found.frequency, 2_666_666);
}

#[test]
fn lags_at_or_beyond_the_padding_are_not_examined() {
    let block = [1000, 0, -1000, 0, 1000, 0, -1000, 0];
    assert!(detect_pitch(&block, &small(8, 4)).is_none());
    assert_eq!(lag_of(detect_pitch(&block, &small(8, 5))), Some(4));
    assert!(detect_pitch(&block, &small(8, 0)).is_none());
}

#[test]
fn first_lobe_is_skipped() {
    // A constant block has clarity one at every lag: there is no crossing,
    // so no lag is a candidate.
    assert!(detect_pitch(&[500; 16], &small(16, 16)).is_none());
}

#[test]
fn peaks_below_the_clarity_threshold_are_rejected() {
    // period 4 with a strong disturbance: the peak at lag 4 is low
    let block = [1000, 0, -1000, 0, 300, 0, -1000, 900];
    let found = clarity_of(&block, 4);
    assert!(found > 0);
    let strict = DetectorConfig { clarity_threshold: found + 1, ..small(8, 5) };
    let lenient = DetectorConfig { clarity_threshold: found, ..small(8, 5) };
    assert!(detect_pitch(&block, &strict).is_none());
    assert_eq!(lag_of(detect_pitch(&block, &lenient)), Some(4));
}

#[test]
fn highest_point_of_the_lobe_is_chosen() {
    let cfg = DetectorConfig::standard();
    let block = sine(441.0, 0.5, 1024);
    let found = detect_pitch(&block, &cfg).unwrap();
    assert_eq!(found.lag, 100);
    assert_eq!(found.frequency, 441_000);
    for lag in 76..125 {
        assert!(clarity_of(&block, lag) <= found.clarity);
    }
    assert_eq!(found.clarity, clarity_of(&block, 100));
}

#[test]
fn sine_wave_is_found_within_two_percent() {
    let cfg = DetectorConfig::standard();
    for &freq in &[110.0, 196.0, 261.63, 329.63, 440.0, 523.25, 880.0, 1000.0, 1318.5] {
        let block = sine(freq, 0.5, 1024);
        let found = detect_pitch(&block, &cfg).unwrap();
        let hz = found.frequency as f64 / 1000.0;
        assert!((hz - freq).abs() <= 0.02 * freq, "{} Hz found as {} Hz", freq, hz);
        assert!(found.clarity > CLARITY_ONE / 10 * 9);
    }
}

#[test]
fn sine_wave_at_concert_pitch() {
    let cfg = DetectorConfig::standard();
    let found = detect_pitch(&sine(440.0, 0.8, 1024), &cfg).unwrap();
    assert_eq!(found.lag, 100);
    assert_eq!(found.frequency, 441_000);
}
