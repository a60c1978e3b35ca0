//! The capture side: copies newly captured audio into the channel.
//!
//! The adapter runs on the audio subsystem's schedule. It never blocks and
//! never allocates: a sample that finds the channel full is dropped.

use crate::channel::{lemma_offer_all_admits_prefix, lemma_offer_all_push, offer_all, room};
use crate::channel::{Sample, SampleChannel};
use vstd::prelude::*;

verus! {

/// The number of complete frames in `data`.
pub open spec fn frame_count(data: Seq<Sample>, channels: int) -> int {
    (data.len() as int) / channels
}

/// The samples of the first channel of interleaved frames of `channels`
/// samples each.
pub open spec fn first_channel(data: Seq<Sample>, channels: int) -> Seq<Sample> {
    Seq::new(frame_count(data, channels) as nat, |i: int| data[i * channels])
}

proof fn lemma_frame_in_bounds(len: int, channels: int, frame: int)
    requires
        1 <= channels,
        0 <= frame < len / channels,
        0 <= len,
    ensures
        frame * channels + channels <= len,
        0 <= frame * channels,
        (frame + 1) * channels == frame * channels + channels,
{
    assert(frame * channels + channels <= len && 0 <= frame * channels && (frame + 1) * channels
        == frame * channels + channels) by (nonlinear_arith)
        requires
            1 <= channels,
            0 <= frame < len / channels,
            0 <= len,
    ;
}

/// Pushes the first channel of every complete frame of `buffer` onto the
/// channel, in order, and returns how many samples were accepted. Samples that
/// find the channel full are dropped: the channel ends up holding what it held
/// before followed by the longest prefix of the new samples that fits.
pub fn capture(channel: &mut SampleChannel, buffer: &[Sample], channels: usize) -> (accepted:
    usize)
    requires
        old(channel).wf(),
        1 <= channels,
    ensures
        final(channel).wf(),
        final(channel).spec_capacity() == old(channel).spec_capacity(),
        final(channel)@ == offer_all(
            old(channel)@,
            old(channel).spec_capacity(),
            first_channel(buffer@, channels as int),
        ),
        final(channel)@ == old(channel)@ + first_channel(buffer@, channels as int).subrange(
            0,
            accepted as int,
        ),
        accepted == vstd::math::min(
            frame_count(buffer@, channels as int),
            room(old(channel)@, old(channel).spec_capacity()) as int,
        ),
{
    let frames = buffer.len() / channels;
    let ghost start = channel@;
    let ghost capacity = channel.spec_capacity();
    let ghost samples = first_channel(buffer@, channels as int);
    proof {
        channel.lemma_within_capacity();
    }
    let mut accepted: usize = 0;
    let mut frame: usize = 0;
    let mut at: usize = 0;
    while frame < frames
        invariant
            1 <= channels,
            frames == (buffer@.len() as int) / (channels as int),
            frame <= frames,
            at == frame * channels,
            channel.wf(),
            channel.spec_capacity() == capacity,
            start.len() <= capacity,
            samples == first_channel(buffer@, channels as int),
            channel@ == offer_all(start, capacity, samples.subrange(0, frame as int)),
            channel@.len() == start.len() + accepted,
            accepted <= frame,
        decreases frames - frame,
    {
        proof {
            lemma_frame_in_bounds(buffer@.len() as int, channels as int, frame as int);
            lemma_offer_all_push(
                start,
                capacity,
                samples.subrange(0, frame as int),
                samples[frame as int],
            );
            assert(samples.subrange(0, frame as int).push(samples[frame as int])
                =~= samples.subrange(0, frame + 1));
        }
        if channel.try_push(buffer[at]) {
            accepted = accepted + 1;
        }
        at = at + channels;
        frame = frame + 1;
    }
    proof {
        assert(samples.subrange(0, frames as int) =~= samples);
        lemma_offer_all_admits_prefix(start, capacity, samples);
    }
    accepted
}

} // verus!
