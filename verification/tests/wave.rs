use theremo::units::{DEFAULT_SAMPLE_RATE, HERTZ, RATIO_ONE};
use theremo::wave::{Phase, SinWave, Wave, WaveError};

fn hertz(frequency: u64) -> f64 {
    frequency as f64 / HERTZ as f64
}

#[test]
fn new_voice_rests_on_its_frequency() {
    let mut wave = SinWave::new(440 * HERTZ, 44_100).unwrap();
    assert_eq!(wave.frequency(), 440 * HERTZ);
    assert_eq!(wave.target(), 440 * HERTZ);
    assert_eq!(wave.sample_rate(), 44_100);
    let first = wave.next();
    assert_eq!(first, Phase { position: 0, period: 44_100_000_000 });
    assert_eq!(wave.frequency(), 440 * HERTZ);
    let second = wave.next();
    assert_eq!(second, Phase { position: 440_000_000, period: 44_100_000_000 });
}

#[test]
fn zero_sample_rate_is_refused() {
    assert_eq!(SinWave::new(440 * HERTZ, 0).err(), Some(WaveError::InvalidSampleRate));
}

#[test]
fn negative_sample_rate_is_refused() {
    assert_eq!(SinWave::new(440 * HERTZ, -44_100).err(), Some(WaveError::InvalidSampleRate));
    assert_eq!(SinWave::new(0, i64::MIN).err(), Some(WaveError::InvalidSampleRate));
}

#[test]
fn largest_sample_rate_is_taken() {
    let mut wave = SinWave::new(u64::MAX, i64::MAX).unwrap();
    let period = i64::MAX as u128 * HERTZ as u128;
    assert_eq!(wave.next(), Phase { position: 0, period });
    assert_eq!(wave.next(), Phase { position: u64::MAX as u128, period });
}

#[test]
fn glide_converges_to_concert_pitch() {
    let mut wave = SinWave::new(0, 44_100).unwrap();
    wave.prog_frequency(440 * HERTZ, RATIO_ONE / 10);
    for _ in 0..64 {
        wave.next();
    }
    assert!((hertz(wave.frequency()) - 440.0).abs() < 1e-6);
    assert_eq!(wave.frequency(), 440_000_000);
}

#[test]
fn glide_moves_by_a_tenth_of_the_distance() {
    let mut wave = SinWave::new(0, 44_100).unwrap();
    wave.prog_frequency(440 * HERTZ, RATIO_ONE / 10);
    assert_eq!(wave.frequency(), 0);
    assert_eq!(wave.target(), 440 * HERTZ);
    for step in 1..=10u64 {
        wave.next();
        assert_eq!(wave.frequency(), step * 44_000_000);
    }
    wave.next();
    assert_eq!(wave.frequency(), 440_000_000);
}

#[test]
fn glide_approaches_without_overshoot() {
    let mut wave = SinWave::new(1_000, 48_000).unwrap();
    wave.prog_frequency(0, RATIO_ONE / 4);
    let mut seen = Vec::new();
    for _ in 0..6 {
        wave.next();
        seen.push(wave.frequency());
    }
    assert_eq!(seen, vec![750, 500, 250, 0, 0, 0]);
}

#[test]
fn glide_snaps_where_a_stride_would_pass_the_target() {
    let mut wave = SinWave::new(0, 48_000).unwrap();
    wave.prog_frequency(3, RATIO_ONE / 2);
    wave.next();
    assert_eq!(wave.frequency(), 2);
    wave.next();
    assert_eq!(wave.frequency(), 3);
    wave.next();
    assert_eq!(wave.frequency(), 3);
}

#[test]
fn glide_is_over_within_its_bound() {
    let mut wave = SinWave::new(0, 48_000).unwrap();
    wave.prog_frequency(1_000, 300_000);
    let mut seen = Vec::new();
    for _ in 0..4 {
        wave.next();
        seen.push(wave.frequency());
    }
    assert_eq!(seen, vec![300, 600, 900, 1_000]);
}

#[test]
fn smallest_ratio_still_moves() {
    let mut wave = SinWave::new(0, 48_000).unwrap();
    wave.prog_frequency(5, 1);
    let mut seen = Vec::new();
    for _ in 0..6 {
        wave.next();
        seen.push(wave.frequency());
    }
    assert_eq!(seen, vec![1, 2, 3, 4, 5, 5]);
}

#[test]
fn ratio_above_one_arrives_at_once() {
    let mut wave = SinWave::new(100, 48_000).unwrap();
    wave.prog_frequency(u64::MAX, u64::MAX);
    wave.next();
    assert_eq!(wave.frequency(), u64::MAX);
    wave.prog_frequency(0, 3 * RATIO_ONE);
    wave.next();
    assert_eq!(wave.frequency(), 0);
}

#[test]
fn whole_ratio_has_no_lag() {
    let mut wave = SinWave::new(0, 44_100).unwrap();
    wave.next();
    wave.prog_frequency(440 * HERTZ, RATIO_ONE);
    assert_eq!(wave.next(), Phase { position: 0, period: 44_100_000_000 });
    assert_eq!(wave.frequency(), 440 * HERTZ);
    assert_eq!(wave.next(), Phase { position: 440_000_000, period: 44_100_000_000 });
}

#[test]
fn zero_ratio_has_no_lag() {
    let mut wave = SinWave::new(880 * HERTZ, 44_100).unwrap();
    wave.next();
    wave.prog_frequency(440 * HERTZ, 0);
    assert_eq!(wave.next().position, 0);
    assert_eq!(wave.frequency(), 440 * HERTZ);
    assert_eq!(wave.next().position, 440_000_000);
}

#[test]
fn same_target_at_rest_only_restarts_the_turn() {
    let mut wave = SinWave::new(440 * HERTZ, 44_100).unwrap();
    wave.next();
    wave.next();
    wave.prog_frequency(440 * HERTZ, RATIO_ONE / 10);
    assert_eq!(wave.frequency(), 440 * HERTZ);
    assert_eq!(wave.target(), 440 * HERTZ);
    assert_eq!(wave.next().position, 0);
    assert_eq!(wave.frequency(), 440 * HERTZ);
    assert_eq!(wave.next().position, 440_000_000);
    assert_eq!(wave.frequency(), 440 * HERTZ);
}

#[test]
fn same_target_in_a_glide_sets_the_stride_anew() {
    let mut wave = SinWave::new(0, 44_100).unwrap();
    wave.prog_frequency(440 * HERTZ, RATIO_ONE / 10);
    for _ in 0..5 {
        wave.next();
    }
    assert_eq!(wave.frequency(), 220 * HERTZ);
    wave.prog_frequency(440 * HERTZ, RATIO_ONE / 10);
    assert_eq!(wave.next().position, 0);
    assert_eq!(wave.frequency(), 242 * HERTZ);
}

#[test]
fn new_target_restarts_the_turn() {
    let mut wave = SinWave::new(100 * HERTZ, 1_000).unwrap();
    wave.next();
    wave.next();
    assert_eq!(wave.next().position, 200_000_000);
    wave.prog_frequency(50 * HERTZ, RATIO_ONE / 2);
    assert_eq!(wave.next().position, 0);
    assert_eq!(wave.frequency(), 75 * HERTZ);
    assert_eq!(wave.next().position, 75_000_000);
}

#[test]
fn phase_wraps_at_a_full_turn() {
    let mut wave = SinWave::new(2_500_000, 1).unwrap();
    let period = 1_000_000;
    assert_eq!(wave.next(), Phase { position: 0, period });
    assert_eq!(wave.next(), Phase { position: 500_000, period });
    assert_eq!(wave.next(), Phase { position: 0, period });
}

#[test]
fn default_voice_is_silent() {
    let mut wave = SinWave::default();
    assert_eq!(wave.frequency(), 0);
    assert_eq!(wave.target(), 0);
    assert_eq!(wave.sample_rate(), DEFAULT_SAMPLE_RATE as u64);
    assert_eq!(wave.next(), Phase { position: 0, period: 44_100_000_000 });
    assert_eq!(wave.next(), Phase { position: 0, period: 44_100_000_000 });
}

#[test]
fn every_glide_approaches_and_arrives_within_its_bound() {
    let frequencies = [0u64, 1, 999, 440 * HERTZ, 20_000 * HERTZ, u64::MAX];
    let ratios = [0u64, 1, 3, 100_000, 333_333, 999_999, RATIO_ONE, 2 * RATIO_ONE, u64::MAX];
    for from in frequencies {
        for to in frequencies {
            for ratio in ratios {
                let mut wave = SinWave::new(from, 48_000).unwrap();
                wave.prog_frequency(to, ratio);
                let effective = if ratio == 0 { RATIO_ONE as u128 } else { ratio as u128 };
                let bound = (RATIO_ONE as u128 + effective - 1) / effective;
                let mut gap = from.abs_diff(to);
                for _ in 0..bound.min(2_000) {
                    wave.next();
                    let now = wave.frequency();
                    assert!(now.abs_diff(to) <= gap);
                    assert!(from.min(to) <= now && now <= from.max(to));
                    gap = now.abs_diff(to);
                }
                if bound <= 2_000 {
                    assert_eq!(wave.frequency(), to);
                }
            }
        }
    }
}

#[test]
fn phase_stays_within_the_turn() {
    let mut wave = SinWave::new(0, 7).unwrap();
    wave.prog_frequency(u64::MAX, 250_000);
    for _ in 0..32 {
        let phase = wave.next();
        assert_eq!(phase.period, 7_000_000);
        assert!(phase.position < phase.period);
    }
}
