use pitch_trail::capture::capture;
use pitch_trail::channel::SampleChannel;

#[test]
fn capture_takes_first_channel_of_each_frame() {
    let mut ch = SampleChannel::with_capacity(8);
    let stereo = [1, 100, 2, 200, 3, 300];
    assert_eq!(capture(&mut ch, &stereo, 2), 3);
    assert_eq!(ch.try_pop(), Some(1));
    assert_eq!(ch.try_pop(), Some(2));
    assert_eq!(ch.try_pop(), Some(3));
    assert_eq!(ch.try_pop(), None);
}

#[test]
fn capture_of_mono_takes_every_sample() {
    let mut ch = SampleChannel::with_capacity(8);
    assert_eq!(capture(&mut ch, &[5, 6, 7, 8], 1), 4);
    assert_eq!(ch.len(), 4);
    assert_eq!(ch.try_pop(), Some(5));
}

#[test]
fn capture_drops_what_does_not_fit() {
    let mut ch = SampleChannel::with_capacity(3);
    assert!(ch.try_push(-1));
    assert_eq!(capture(&mut ch, &[10, 20, 30, 40], 1), 2);
    assert_eq!(ch.len(), 3);
    assert_eq!(ch.try_pop(), Some(-1));
    assert_eq!(ch.try_pop(), Some(10));
    assert_eq!(ch.try_pop(), Some(20));
    assert_eq!(ch.try_pop(), None);
}

#[test]
fn capture_ignores_trailing_partial_frame() {
    let mut ch = SampleChannel::with_capacity(8);
    assert_eq!(capture(&mut ch, &[1, 2, 3, 4, 5, 6, 7], 3), 2);
    assert_eq!(ch.try_pop(), Some(1));
    assert_eq!(ch.try_pop(), Some(4));
    assert_eq!(ch.try_pop(), None);
}

#[test]
fn capture_of_empty_buffer_changes_nothing() {
    let mut ch = SampleChannel::with_capacity(2);
    assert!(ch.try_push(7));
    assert_eq!(capture(&mut ch, &[], 2), 0);
    assert_eq!(ch.len(), 1);
}

#[test]
fn capture_into_full_channel_accepts_nothing() {
    let mut ch = SampleChannel::new(2);
    assert!(ch.try_push(1));
    assert!(ch.try_push(2));
    assert_eq!(capture(&mut ch, &[3, 4], 1), 0);
    assert_eq!(ch.len(), 4);
}
