//! The oscillator: a sine voice whose frequency glides towards a target.

use vstd::prelude::*;
use crate::glide::{
    glide_stride, lemma_retarget_wf, lemma_step_approaches, lemma_step_wf, WaveState,
};
use crate::units::{DEFAULT_SAMPLE_RATE, HERTZ, RATIO_ONE};

verus! {

/// A point in the turn of a wave: `position` steps out of `period`. The
/// sample that belongs to it is the wave's shape at the angle
/// `2 pi * position / period`.
#[derive(Clone, Copy, Debug, PartialEq, Eq)]
pub struct Phase {
    pub position: u128,
    pub period: u128,
}

/// Why an oscillator could not be made.
#[derive(Clone, Copy, Debug, PartialEq, Eq)]
pub enum WaveError {
    /// The sample rate was zero or negative.
    InvalidSampleRate,
}

/// What a voice can do: be made, give the phase of its next sample, and be
/// given a new target frequency.
pub trait Wave: Sized + View<V = WaveState> {
    /// Makes a voice at rest on `frequency` (micro-hertz), sampled
    /// `sample_rate` times a second. A sample rate that is not positive is
    /// refused.
    fn new(frequency: u64, sample_rate: i64) -> (r: Result<Self, WaveError>)
        ensures
            sample_rate <= 0 ==> r == Err::<Self, WaveError>(WaveError::InvalidSampleRate),
            sample_rate > 0 ==> r is Ok && r->Ok_0@ == WaveState::start(
                frequency as int,
                sample_rate as int,
            ),
            r is Ok ==> r->Ok_0@.wf(),
    ;

    /// Gives the phase at which the next sample is taken, and moves on by
    /// one sample: the frequency goes one stride towards the target, never
    /// past it, and the phase advances by the frequency it has then.
    fn next(&mut self) -> (phase: Phase)
        requires
            old(self)@.wf(),
        ensures
            final(self)@ == old(self)@.step(),
            final(self)@.wf(),
            final(self)@.distance() <= old(self)@.distance(),
            phase.position == old(self)@.phase,
            phase.period == old(self)@.period(),
            phase.position < phase.period,
    ;

    /// Sets a new target `frequency` (micro-hertz) to glide to at
    /// `glide_ratio` (millionths; zero for no glide), and starts the turn
    /// over.
    fn prog_frequency(&mut self, frequency: u64, glide_ratio: u64)
        requires
            old(self)@.wf(),
        ensures
            final(self)@ == old(self)@.retarget(frequency as int, glide_ratio as int),
            final(self)@.wf(),
    ;
}

/// A sine voice.
pub struct SinWave {
    frequency: u64,
    target_freq: u64,
    phase: u128,
    sample_rate: u64,
    delta_freq: u128,
}

impl View for SinWave {
    type V = WaveState;

    closed spec fn view(&self) -> WaveState {
        WaveState {
            frequency: self.frequency as int,
            target: self.target_freq as int,
            stride: self.delta_freq as int,
            phase: self.phase as int,
            sample_rate: self.sample_rate as int,
        }
    }
}

/// The stride of a glide over `distance` at `ratio`.
fn stride_of(distance: u64, ratio: u64) -> (stride: u128)
    ensures
        stride == glide_stride(distance as int, ratio as int),
{
    let effective: u64 = if ratio == 0 {
        RATIO_ONE
    } else {
        ratio
    };
    assert(distance * effective <= u64::MAX * u64::MAX) by (nonlinear_arith)
        requires
            0 <= distance <= u64::MAX,
            0 <= effective <= u64::MAX,
    ;
    let product: u128 = (distance as u128) * (effective as u128);
    let one: u128 = RATIO_ONE as u128;
    let whole: u128 = product / one;
    if product % one == 0 {
        whole
    } else {
        whole + 1
    }
}

impl SinWave {
    /// The frequency that sounds now, in micro-hertz.
    pub fn frequency(&self) -> (f: u64)
        ensures
            f == self@.frequency,
    {
        self.frequency
    }

    /// The frequency that the glide heads for, in micro-hertz.
    pub fn target(&self) -> (f: u64)
        ensures
            f == self@.target,
    {
        self.target_freq
    }

    /// Samples per second.
    pub fn sample_rate(&self) -> (rate: u64)
        ensures
            rate == self@.sample_rate,
    {
        self.sample_rate
    }
}

impl Wave for SinWave {
    fn new(frequency: u64, sample_rate: i64) -> (r: Result<SinWave, WaveError>) {
        if sample_rate <= 0 {
            return Err(WaveError::InvalidSampleRate);
        }
        Ok(
            SinWave {
                frequency,
                target_freq: frequency,
                phase: 0,
                sample_rate: sample_rate as u64,
                delta_freq: 0,
            },
        )
    }

    fn next(&mut self) -> (phase: Phase) {
        proof {
            lemma_step_wf(self@);
            lemma_step_approaches(self@);
        }
        let period: u128 = (self.sample_rate as u128) * (HERTZ as u128);
        let taken = Phase { position: self.phase, period };
        if self.frequency < self.target_freq {
            let distance: u64 = self.target_freq - self.frequency;
            if self.delta_freq >= distance as u128 {
                self.frequency = self.target_freq;
            } else {
                self.frequency = self.frequency + self.delta_freq as u64;
            }
        } else if self.frequency > self.target_freq {
            let distance: u64 = self.frequency - self.target_freq;
            if self.delta_freq >= distance as u128 {
                self.frequency = self.target_freq;
            } else {
                self.frequency = self.frequency - self.delta_freq as u64;
            }
        }
        self.phase = (self.phase + self.frequency as u128) % period;
        taken
    }

    fn prog_frequency(&mut self, frequency: u64, glide_ratio: u64) {
        proof {
            lemma_retarget_wf(self@, frequency as int, glide_ratio as int);
        }
        let distance: u64 = if self.frequency <= frequency {
            frequency - self.frequency
        } else {
            self.frequency - frequency
        };
        self.phase = 0;
        self.target_freq = frequency;
        self.delta_freq = stride_of(distance, glide_ratio);
    }
}

impl Default for SinWave {
    /// A silent voice: at rest on zero hertz, at the default sample rate.
    fn default() -> (r: SinWave)
        ensures
            r@ == WaveState::start(0, DEFAULT_SAMPLE_RATE as int),
            r@.wf(),
    {
        SinWave {
            frequency: 0,
            target_freq: 0,
            phase: 0,
            sample_rate: DEFAULT_SAMPLE_RATE as u64,
            delta_freq: 0,
        }
    }
}

} // verus!
