//! The render cycle: what the voice does for one buffer of the device.
//!
//! A cycle first takes the latest pending target, if there is one, and then
//! steps the voice once per frame. The phases that come out are what the
//! caller shapes into samples, one per frame, the same on every channel.

use std::sync::mpsc::Receiver;
use vstd::arithmetic::div_mod::lemma_div_is_ordered_by_denominator;
use vstd::prelude::*;
use crate::channel::{drain, ChannelError, Retarget};
use crate::glide::{lemma_after_course, lemma_retarget_wf, WaveState};
use crate::wave::{Phase, Wave};

verus! {

/// The number of frames in a buffer of `samples` samples for `channels`
/// channels: a last frame that is cut short counts, and there is no frame
/// without a channel.
pub open spec fn frames_of(samples: int, channels: int) -> int {
    if channels <= 0 {
        0
    } else if samples % channels == 0 {
        samples / channels
    } else {
        samples / channels + 1
    }
}

/// The state in which a cycle starts to step: with the pending target set,
/// if there is one.
pub open spec fn retuned(s: WaveState, pending: Option<Retarget>, glide_ratio: u64) -> WaveState {
    match pending {
        Some(message) => s.retarget(message.frequency as int, glide_ratio as int),
        None => s,
    }
}

/// The phase at which a voice in state `s` takes its next sample.
pub open spec fn phase_of(s: WaveState) -> Phase {
    Phase { position: s.phase as u128, period: s.period() as u128 }
}

/// The phases of the first `frames` samples of a voice that starts in
/// `start`.
pub open spec fn phases_from(start: WaveState, frames: nat) -> Seq<Phase> {
    Seq::new(frames, |i: int| phase_of(start.after(i as nat)))
}

/// The sample at place `i` of a buffer for `channels` channels that holds
/// one value per frame, the same on every channel of the frame: the value
/// of frame `i / channels`, and `rest` where there is no value for that
/// frame or no channel at all.
pub open spec fn spread_at<T>(values: Seq<T>, channels: int, rest: T, i: int) -> T {
    if channels > 0 && i / channels < values.len() {
        values[i / channels]
    } else {
        rest
    }
}

/// The number of frames in a buffer of `samples` samples for `channels`
/// channels.
pub fn frames_in(samples: usize, channels: usize) -> (frames: usize)
    ensures
        frames == frames_of(samples as int, channels as int),
{
    if channels == 0 {
        0
    } else if samples % channels == 0 {
        samples / channels
    } else {
        proof {
            lemma_div_is_ordered_by_denominator(samples as int, 2, channels as int);
        }
        samples / channels + 1
    }
}

/// Renders one buffer: sets the pending target, if there is one, and steps
/// the voice `frames` times. `phases` then holds the phase of each frame's
/// sample, in order, in place of what it held.
pub fn render<W: Wave>(
    wave: &mut W,
    pending: Option<Retarget>,
    glide_ratio: u64,
    frames: usize,
    phases: &mut Vec<Phase>,
)
    requires
        old(wave)@.wf(),
    ensures
        final(wave)@ == retuned(old(wave)@, pending, glide_ratio).after(frames as nat),
        final(wave)@.wf(),
        final(phases)@ == phases_from(retuned(old(wave)@, pending, glide_ratio), frames as nat),
{
    if let Some(message) = pending {
        wave.prog_frequency(message.frequency, glide_ratio);
    }
    let ghost start = wave@;
    phases.clear();
    let mut i: usize = 0;
    while i < frames
        invariant
            i <= frames,
            start.wf(),
            wave@ == start.after(i as nat),
            wave@.wf(),
            phases@ == phases_from(start, i as nat),
        decreases frames - i,
    {
        proof {
            lemma_after_course(start, i as nat);
            assert(start.after((i + 1) as nat) == start.after(i as nat).step());
        }
        let phase = wave.next();
        phases.push(phase);
        i = i + 1;
        assert(phases@ =~= phases_from(start, i as nat));
    }
}

/// Lays out a buffer of `samples` samples for `channels` channels from one
/// value per frame: every channel of a frame gets the frame's value, and
/// `rest` where the values run out. `out` then holds the buffer, in place of
/// what it held.
pub fn spread<T: Copy>(values: &Vec<T>, channels: usize, samples: usize, rest: T, out: &mut Vec<T>)
    ensures
        final(out)@.len() == samples,
        forall|i: int|
            0 <= i < samples ==> #[trigger] final(out)@[i] == spread_at(
                values@,
                channels as int,
                rest,
                i,
            ),
{
    out.clear();
    let mut i: usize = 0;
    while i < samples
        invariant
            i <= samples,
            out@.len() == i,
            forall|k: int|
                0 <= k < i ==> #[trigger] out@[k] == spread_at(values@, channels as int, rest, k),
        decreases samples - i,
    {
        let value = if channels > 0 && i / channels < values.len() {
            values[i / channels]
        } else {
            rest
        };
        out.push(value);
        i = i + 1;
    }
}

/// Runs one cycle against the channel: drains it, polling at most `budget`
/// times, and renders with the latest target that was waiting. That target
/// comes back. Where the sender is found gone, nothing is rendered and the
/// voice is left as it was.
pub fn cycle<W: Wave>(
    wave: &mut W,
    source: &Receiver<Retarget>,
    budget: usize,
    glide_ratio: u64,
    frames: usize,
    phases: &mut Vec<Phase>,
) -> (r: Result<Option<Retarget>, ChannelError>)
    requires
        old(wave)@.wf(),
    ensures
        final(wave)@.wf(),
        match r {
            Ok(pending) => {
                &&& final(wave)@ == retuned(old(wave)@, pending, glide_ratio).after(frames as nat)
                &&& final(phases)@ == phases_from(
                    retuned(old(wave)@, pending, glide_ratio),
                    frames as nat,
                )
            },
            Err(_) => final(wave)@ == old(wave)@ && final(phases)@ == old(phases)@,
        },
        budget == 0 ==> r == Ok::<Option<Retarget>, ChannelError>(None),
{
    match drain(source, budget) {
        Ok(pending) => {
            render(wave, pending, glide_ratio, frames, phases);
            Ok(pending)
        },
        Err(e) => Err(e),
    }
}

} // verus!
