use std::sync::mpsc::channel;
use theremo::channel::{ChannelError, Retarget};
use theremo::render::{cycle, frames_in, render, spread};
use theremo::units::{HERTZ, RATIO_ONE};
use theremo::wave::{Phase, SinWave, Wave};

fn at(position: u128) -> Phase {
    Phase { position, period: 1_000_000_000 }
}

#[test]
fn frames_count_every_started_frame() {
    assert_eq!(frames_in(512, 2), 256);
    assert_eq!(frames_in(513, 2), 257);
    assert_eq!(frames_in(4, 1), 4);
    assert_eq!(frames_in(1, 6), 1);
    assert_eq!(frames_in(0, 2), 0);
    assert_eq!(frames_in(usize::MAX, 1), usize::MAX);
    assert_eq!(frames_in(usize::MAX, usize::MAX), 1);
}

#[test]
fn no_channel_means_no_frame() {
    assert_eq!(frames_in(512, 0), 0);
    assert_eq!(frames_in(0, 0), 0);
}

#[test]
fn render_steps_once_per_frame() {
    let mut wave = SinWave::new(100 * HERTZ, 1_000).unwrap();
    let mut phases = vec![at(7)];
    render(&mut wave, None, 0, 4, &mut phases);
    assert_eq!(phases, vec![at(0), at(100_000_000), at(200_000_000), at(300_000_000)]);
    render(&mut wave, None, 0, 2, &mut phases);
    assert_eq!(phases, vec![at(400_000_000), at(500_000_000)]);
}

#[test]
fn render_sets_the_pending_target_first() {
    let mut wave = SinWave::new(100 * HERTZ, 1_000).unwrap();
    let mut phases = Vec::new();
    render(&mut wave, None, RATIO_ONE / 2, 3, &mut phases);
    let pending = Some(Retarget { frequency: 200 * HERTZ });
    render(&mut wave, pending, RATIO_ONE / 2, 4, &mut phases);
    assert_eq!(phases, vec![at(0), at(150_000_000), at(350_000_000), at(550_000_000)]);
    assert_eq!(wave.frequency(), 200 * HERTZ);
    assert_eq!(wave.target(), 200 * HERTZ);
}

#[test]
fn render_of_no_frame_still_sets_the_target() {
    let mut wave = SinWave::new(100 * HERTZ, 1_000).unwrap();
    let mut phases = vec![at(1), at(2)];
    render(&mut wave, Some(Retarget { frequency: 50 * HERTZ }), 0, 0, &mut phases);
    assert!(phases.is_empty());
    assert_eq!(wave.frequency(), 100 * HERTZ);
    assert_eq!(wave.target(), 50 * HERTZ);
}

#[test]
fn cycle_applies_only_the_last_of_a_burst() {
    let (sender, receiver) = channel();
    for hz in [110, 220, 330, 440, 550] {
        sender.send(Retarget { frequency: hz * HERTZ }).unwrap();
    }
    let mut wave = SinWave::new(0, 1_000).unwrap();
    let mut phases = Vec::new();
    let applied = cycle(&mut wave, &receiver, 64, RATIO_ONE, 2, &mut phases);
    assert_eq!(applied, Ok(Some(Retarget { frequency: 550 * HERTZ })));
    assert_eq!(wave.frequency(), 550 * HERTZ);
    assert_eq!(phases, vec![at(0), at(550_000_000)]);
    let applied = cycle(&mut wave, &receiver, 64, RATIO_ONE, 1, &mut phases);
    assert_eq!(applied, Ok(None));
    assert_eq!(phases, vec![at(100_000_000)]);
}

#[test]
fn cycle_stops_where_the_sender_is_gone() {
    let (sender, receiver) = channel::<Retarget>();
    drop(sender);
    let mut wave = SinWave::new(100 * HERTZ, 1_000).unwrap();
    let mut phases = vec![at(9)];
    let applied = cycle(&mut wave, &receiver, 64, RATIO_ONE, 4, &mut phases);
    assert_eq!(applied, Err(ChannelError::Disconnected));
    assert_eq!(phases, vec![at(9)]);
    assert_eq!(wave.next(), at(0));
}

#[test]
fn cycle_without_budget_leaves_the_channel_alone() {
    let (sender, receiver) = channel();
    sender.send(Retarget { frequency: 5 * HERTZ }).unwrap();
    let mut wave = SinWave::new(100 * HERTZ, 1_000).unwrap();
    let mut phases = Vec::new();
    assert_eq!(cycle(&mut wave, &receiver, 0, 0, 1, &mut phases), Ok(None));
    assert_eq!(wave.target(), 100 * HERTZ);
    assert_eq!(cycle(&mut wave, &receiver, 1, 0, 1, &mut phases), Ok(Some(Retarget { frequency: 5 * HERTZ })));
    assert_eq!(wave.target(), 5 * HERTZ);
}

#[test]
fn spread_gives_every_channel_the_value_of_its_frame() {
    let mut out = vec![9u16; 3];
    spread(&vec![10, 20, 30], 2, 6, 0, &mut out);
    assert_eq!(out, vec![10, 10, 20, 20, 30, 30]);
    spread(&vec![10, 20, 30], 1, 3, 0, &mut out);
    assert_eq!(out, vec![10, 20, 30]);
    spread(&vec![10, 20, 30], 3, 9, 0, &mut out);
    assert_eq!(out, vec![10, 10, 10, 20, 20, 20, 30, 30, 30]);
}

#[test]
fn spread_cuts_the_last_frame_short_with_the_buffer() {
    let mut out = Vec::new();
    spread(&vec![1i16, 2, 3], 2, 5, 0, &mut out);
    assert_eq!(out, vec![1, 1, 2, 2, 3]);
    spread(&vec![1i16, 2, 3], 2, 0, 0, &mut out);
    assert!(out.is_empty());
}

#[test]
fn spread_fills_with_the_rest_where_values_run_out() {
    let mut out = Vec::new();
    spread(&vec![7u16], 2, 5, 32_767, &mut out);
    assert_eq!(out, vec![7, 7, 32_767, 32_767, 32_767]);
    spread(&Vec::new(), 2, 3, 32_767u16, &mut out);
    assert_eq!(out, vec![32_767, 32_767, 32_767]);
    spread(&vec![7u16, 8], 0, 3, 1, &mut out);
    assert_eq!(out, vec![1, 1, 1]);
}

#[test]
fn rendered_buffer_holds_one_value_per_frame() {
    let mut wave = SinWave::new(250 * HERTZ, 1_000).unwrap();
    let mut phases = Vec::new();
    let samples = 8;
    let channels = 2;
    render(&mut wave, None, 0, frames_in(samples, channels), &mut phases);
    let quarters: Vec<u128> = phases.iter().map(|phase| phase.position * 4 / phase.period).collect();
    let mut out = Vec::new();
    spread(&quarters, channels, samples, 0, &mut out);
    assert_eq!(out, vec![0, 0, 1, 1, 2, 2, 3, 3]);
}
