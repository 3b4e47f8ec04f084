//! The glide of an oscillator as mathematics: the state as unbounded
//! integers, the two transitions, and the laws that hold of them.

use vstd::arithmetic::div_mod::{lemma_add_mod_noop_right, lemma_mod_pos_bound, lemma_small_mod};
use vstd::prelude::*;
use crate::units::{HERTZ, RATIO_ONE};

verus! {

/// The state of an oscillator, in unbounded integers.
pub struct WaveState {
    /// The frequency that sounds now, in micro-hertz.
    pub frequency: int,
    /// The frequency that the glide heads for, in micro-hertz.
    pub target: int,
    /// By how many micro-hertz one sample moves `frequency` towards `target`.
    pub stride: int,
    /// Where in the turn the next sample is taken, out of `period()`.
    pub phase: int,
    /// Samples per second.
    pub sample_rate: int,
}

/// The distance between two frequencies.
pub open spec fn gap(a: int, b: int) -> int {
    if a <= b {
        b - a
    } else {
        a - b
    }
}

/// The ratio that a glide setting stands for: zero means "no glide", which
/// is the same as covering the whole distance at once.
pub open spec fn effective_ratio(ratio: int) -> int {
    if ratio == 0 {
        RATIO_ONE as int
    } else {
        ratio
    }
}

/// The per-sample stride of a glide over `distance` at `ratio`: the product
/// `distance * ratio / RATIO_ONE`, rounded up so that a glide with some way
/// to go always moves.
pub open spec fn glide_stride(distance: int, ratio: int) -> int {
    (distance * effective_ratio(ratio) + RATIO_ONE - 1) / (RATIO_ONE as int)
}

/// The number of samples within which a glide at `ratio` is over, whatever
/// the distance: `RATIO_ONE / ratio`, rounded up.
pub open spec fn glide_bound(ratio: int) -> int {
    (RATIO_ONE + effective_ratio(ratio) - 1) / effective_ratio(ratio)
}

impl WaveState {
    /// The number of phase steps in one turn.
    pub open spec fn period(self) -> int {
        self.sample_rate * HERTZ
    }

    /// How far the frequency is from its target.
    pub open spec fn distance(self) -> int {
        gap(self.frequency, self.target)
    }

    /// The states that an oscillator can be in: frequencies are not
    /// negative, the sample rate is positive, the phase lies within one
    /// turn, and a glide that has not arrived has a stride to move by.
    pub open spec fn wf(self) -> bool {
        &&& 0 <= self.frequency
        &&& 0 <= self.target
        &&& 0 <= self.stride
        &&& 0 < self.sample_rate
        &&& 0 <= self.phase < self.period()
        &&& self.frequency != self.target ==> 0 < self.stride
    }

    /// A fresh oscillator: at rest on `frequency`, at the start of a turn.
    pub open spec fn start(frequency: int, sample_rate: int) -> WaveState {
        WaveState { frequency, target: frequency, stride: 0, phase: 0, sample_rate }
    }

    /// The state after a new target is set: the turn starts over, and the
    /// stride is fixed from the distance at this moment.
    pub open spec fn retarget(self, frequency: int, ratio: int) -> WaveState {
        WaveState {
            frequency: self.frequency,
            target: frequency,
            stride: glide_stride(gap(self.frequency, frequency), ratio),
            phase: 0,
            sample_rate: self.sample_rate,
        }
    }

    /// The frequency one sample later: one stride nearer the target, or the
    /// target itself where a stride would reach or pass it.
    pub open spec fn next_frequency(self) -> int {
        if self.stride >= self.distance() {
            self.target
        } else if self.frequency < self.target {
            self.frequency + self.stride
        } else {
            self.frequency - self.stride
        }
    }

    /// The state one sample later: the frequency moves first, and the phase
    /// then advances by the new frequency, wrapping at a full turn.
    pub open spec fn step(self) -> WaveState {
        WaveState {
            frequency: self.next_frequency(),
            target: self.target,
            stride: self.stride,
            phase: (self.phase + self.next_frequency()) % self.period(),
            sample_rate: self.sample_rate,
        }
    }

    /// The state `n` samples later.
    pub open spec fn after(self, n: nat) -> WaveState
        decreases n,
    {
        if n == 0 {
            self
        } else {
            self.after((n - 1) as nat).step()
        }
    }
}

/// A glide that has some way to go moves by at least one micro-hertz a
/// sample, and by no more than the ratio's share of the distance, rounded up.
pub proof fn lemma_stride_bounds(distance: int, ratio: int)
    requires
        0 <= distance,
        0 <= ratio,
    ensures
        0 <= glide_stride(distance, ratio),
        distance > 0 ==> glide_stride(distance, ratio) >= 1,
        glide_stride(distance, ratio) * RATIO_ONE >= distance * effective_ratio(ratio),
        glide_stride(distance, ratio) * RATIO_ONE < distance * effective_ratio(ratio) + RATIO_ONE,
        effective_ratio(ratio) >= RATIO_ONE ==> glide_stride(distance, ratio) >= distance,
        effective_ratio(ratio) == RATIO_ONE ==> glide_stride(distance, ratio) == distance,
{
    let r = effective_ratio(ratio);
    let p = distance * r;
    assert(0 <= p && (distance > 0 ==> p >= 1) && (r >= RATIO_ONE ==> p >= distance * RATIO_ONE))
        by (nonlinear_arith)
        requires
            0 <= distance,
            1 <= r,
            p == distance * r,
    ;
}

/// Setting a target leaves the oscillator in a state it can be in.
pub proof fn lemma_retarget_wf(s: WaveState, frequency: int, ratio: int)
    requires
        s.wf(),
        0 <= frequency,
        0 <= ratio,
    ensures
        s.retarget(frequency, ratio).wf(),
{
    lemma_stride_bounds(gap(s.frequency, frequency), ratio);
}

/// One sample leaves the oscillator in a state it can be in, and changes
/// neither the target, nor the stride, nor the sample rate.
pub proof fn lemma_step_wf(s: WaveState)
    requires
        s.wf(),
    ensures
        s.step().wf(),
        s.step().target == s.target,
        s.step().stride == s.stride,
        s.step().sample_rate == s.sample_rate,
{
    lemma_mod_pos_bound(s.phase + s.next_frequency(), s.period());
}

/// One sample never takes the frequency further from the target, never
/// carries it past the target, and brings it nearer while it has not
/// arrived.
pub proof fn lemma_step_approaches(s: WaveState)
    requires
        s.wf(),
    ensures
        s.step().distance() <= s.distance(),
        s.frequency != s.target ==> s.step().distance() < s.distance(),
        s.frequency <= s.target ==> s.frequency <= s.step().frequency <= s.target,
        s.frequency >= s.target ==> s.frequency >= s.step().frequency >= s.target,
{
}

/// Where the oscillator is `n` samples into a glide: `n` strides nearer the
/// target, or on the target once `n` strides cover the distance.
pub proof fn lemma_after_course(s: WaveState, n: nat)
    requires
        s.wf(),
    ensures
        s.after(n).wf(),
        s.after(n).target == s.target,
        s.after(n).stride == s.stride,
        s.after(n).sample_rate == s.sample_rate,
        s.after(n).frequency == if n * s.stride >= s.distance() {
            s.target
        } else if s.frequency < s.target {
            s.frequency + n * s.stride
        } else {
            s.frequency - n * s.stride
        },
    decreases n,
{
    if n == 0 {
        assert(n * s.stride == 0);
    } else {
        let m = (n - 1) as nat;
        lemma_after_course(s, m);
        lemma_step_wf(s.after(m));
        assert(n * s.stride == m * s.stride + s.stride) by (nonlinear_arith)
            requires
                n == m + 1,
        ;
        assert(m * s.stride >= 0) by (nonlinear_arith)
            requires
                s.stride >= 0,
        ;
    }
}

/// Through a whole glide the frequency only ever approaches the target: each
/// sample leaves it no further away than the one before, and it stays
/// between where it started and the target.
pub proof fn lemma_glide_monotone(s: WaveState, n: nat)
    requires
        s.wf(),
    ensures
        s.after(n + 1).distance() <= s.after(n).distance(),
        s.after(n).distance() <= s.distance(),
        s.frequency <= s.target ==> s.frequency <= s.after(n).frequency <= s.target,
        s.frequency >= s.target ==> s.frequency >= s.after(n).frequency >= s.target,
    decreases n,
{
    lemma_after_course(s, n);
    lemma_step_approaches(s.after(n));
    assert(s.after(n + 1) == s.after(n).step());
    if n > 0 {
        let m = (n - 1) as nat;
        lemma_glide_monotone(s, m);
        assert(s.after(n) == s.after(m).step());
    }
}

/// A glide arrives: once a target is set at `ratio`, the frequency is
/// exactly the target after `glide_bound(ratio)` samples, and stays there.
pub proof fn lemma_glide_reaches(s: WaveState, frequency: int, ratio: int, n: nat)
    requires
        s.wf(),
        0 <= frequency,
        0 <= ratio,
        n >= glide_bound(ratio),
    ensures
        s.retarget(frequency, ratio).after(n).frequency == frequency,
{
    let t = s.retarget(frequency, ratio);
    let d = gap(s.frequency, frequency);
    let r = effective_ratio(ratio);
    lemma_retarget_wf(s, frequency, ratio);
    lemma_stride_bounds(d, ratio);
    lemma_after_course(t, n);
    assert(t.distance() == d);
    assert(n * r >= RATIO_ONE) by (nonlinear_arith)
        requires
            1 <= r,
            n >= (RATIO_ONE + r - 1) / r,
    ;
    assert(n * t.stride >= d) by (nonlinear_arith)
        requires
            0 <= d,
            1 <= r,
            0 <= t.stride,
            n * r >= RATIO_ONE,
            t.stride * RATIO_ONE >= d * r,
    ;
}

/// Stepping once and then `n` times is stepping `n + 1` times.
pub proof fn lemma_after_step(s: WaveState, n: nat)
    ensures
        s.step().after(n) == s.after(n + 1),
    decreases n,
{
    if n > 0 {
        lemma_after_step(s, (n - 1) as nat);
    }
    assert(s.after(1) == s.after(0).step());
}

/// A voice at rest turns evenly: its frequency stays, and `n` samples on
/// its phase has advanced by `n` times the frequency, wrapped into a turn.
pub proof fn lemma_steady_phase(s: WaveState, n: nat)
    requires
        s.wf(),
        s.frequency == s.target,
    ensures
        s.after(n).frequency == s.frequency,
        s.after(n).phase == (s.phase + n * s.frequency) % s.period(),
    decreases n,
{
    if n == 0 {
        assert(n * s.frequency == 0);
        lemma_small_mod(s.phase as nat, s.period() as nat);
    } else {
        let m = (n - 1) as nat;
        lemma_steady_phase(s, m);
        lemma_after_course(s, m);
        lemma_add_mod_noop_right(s.frequency, s.phase + m * s.frequency, s.period());
        assert(n * s.frequency == m * s.frequency + s.frequency) by (nonlinear_arith)
            requires
                n == m + 1,
        ;
    }
}

/// Without a glide (ratio zero, or one whole) there is no lag: the first
/// sample after a new target is taken at the start of a turn, and from then
/// on the voice turns as one at rest on the target does: `n` samples on, the
/// phase is `n` times the target, wrapped into a turn.
pub proof fn lemma_no_glide_is_immediate(s: WaveState, frequency: int, ratio: int, n: nat)
    requires
        s.wf(),
        0 <= frequency,
        ratio == 0 || ratio == RATIO_ONE,
    ensures
        s.retarget(frequency, ratio).phase == 0,
        n >= 1 ==> s.retarget(frequency, ratio).after(n).frequency == frequency,
        s.retarget(frequency, ratio).after(n).phase == (n * frequency) % s.period(),
{
    let t = s.retarget(frequency, ratio);
    lemma_stride_bounds(gap(s.frequency, frequency), ratio);
    lemma_retarget_wf(s, frequency, ratio);
    if n == 0 {
        assert(n * frequency == 0);
    } else {
        let m = (n - 1) as nat;
        let u = t.step();
        lemma_step_wf(t);
        lemma_after_step(t, m);
        lemma_steady_phase(u, m);
        assert(u.phase == frequency % s.period());
        lemma_add_mod_noop_right(m * frequency, frequency, s.period());
        assert(n * frequency == m * frequency + frequency) by (nonlinear_arith)
            requires
                n == m + 1,
        ;
    }
}

/// Setting the target that is already set starts the turn over and changes
/// neither frequency nor target. It leaves the course of the frequency as it
/// was exactly where the first sample lands on the same frequency as before:
/// always for an oscillator at rest, and in the middle of a glide only where
/// the stride comes out the same or both strides reach the target at once.
pub proof fn lemma_same_target(s: WaveState, ratio: int, n: nat)
    requires
        s.wf(),
        0 <= ratio,
        s.retarget(s.target, ratio).step().frequency == s.step().frequency,
    ensures
        s.retarget(s.target, ratio).phase == 0,
        s.retarget(s.target, ratio).target == s.target,
        s.retarget(s.target, ratio).after(n).frequency == s.after(n).frequency,
{
    let t = s.retarget(s.target, ratio);
    lemma_retarget_wf(s, s.target, ratio);
    lemma_after_course(s, n);
    lemma_after_course(t, n);
    if n > 0 && s.frequency != s.target {
        let d = s.distance();
        if s.stride >= d || t.stride >= d {
            assert(s.stride >= d && t.stride >= d);
            assert(n * s.stride >= d && n * t.stride >= d) by (nonlinear_arith)
                requires
                    n >= 1,
                    s.stride >= d,
                    t.stride >= d,
                    d >= 0,
            ;
        } else {
            assert(s.stride == t.stride);
        }
    } else if n == 0 {
        assert(n * s.stride == 0 && n * t.stride == 0);
    } else {
        assert(n * s.stride >= 0 && n * t.stride >= 0) by (nonlinear_arith)
            requires
                s.stride >= 0,
                t.stride >= 0,
        ;
    }
}

/// An oscillator at rest on its target stays on it when the same target is
/// set again, at whatever ratio.
pub proof fn lemma_same_target_at_rest(s: WaveState, ratio: int, n: nat)
    requires
        s.wf(),
        0 <= ratio,
        s.frequency == s.target,
    ensures
        s.retarget(s.target, ratio).after(n).frequency == s.target,
        s.after(n).frequency == s.target,
{
    lemma_retarget_wf(s, s.target, ratio);
    lemma_same_target(s, ratio, n);
    lemma_glide_monotone(s, n);
}

} // verus!
