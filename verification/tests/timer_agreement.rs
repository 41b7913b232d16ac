use std::time::Duration;

use blackfriday::timer::Timer;
use blackfriday::timer::TimerMode;

fn engine_mode(mode: TimerMode) -> bevy::time::TimerMode {
    match mode {
        TimerMode::Once => bevy::time::TimerMode::Once,
        TimerMode::Repeating => bevy::time::TimerMode::Repeating,
    }
}

fn assert_same(ours: &Timer, theirs: &bevy::time::Timer) {
    assert_eq!(ours.duration(), theirs.duration().as_nanos());
    assert_eq!(ours.elapsed(), theirs.elapsed().as_nanos());
    assert_eq!(ours.remaining(), theirs.remaining().as_nanos());
    assert_eq!(ours.finished(), theirs.finished());
    assert_eq!(ours.just_finished(), theirs.just_finished());
}

fn run(duration: u64, mode: TimerMode, deltas: &[u64]) {
    let mut ours = Timer::new(duration as u128, mode);
    let mut theirs = bevy::time::Timer::new(Duration::from_nanos(duration), engine_mode(mode));
    assert_same(&ours, &theirs);
    for delta in deltas {
        ours.tick(*delta as u128);
        theirs.tick(Duration::from_nanos(*delta));
        assert_same(&ours, &theirs);
    }
}

fn next(state: &mut u64) -> u64 {
    *state = state
        .wrapping_mul(6_364_136_223_846_793_005)
        .wrapping_add(1_442_695_040_888_963_407);
    *state >> 33
}

#[test]
fn once_timer_ticks_like_the_engines() {
    run(600_000_000, TimerMode::Once, &[0, 1, 599_999_998, 1, 0, 5, 1_000_000_000]);
    run(600_000_000, TimerMode::Once, &[600_000_000, 1]);
    run(600_000_000, TimerMode::Once, &[u32::MAX as u64 * 1000, 7]);
    run(0, TimerMode::Once, &[0, 0, 1]);
    run(1, TimerMode::Once, &[0, 1, 1]);
}

#[test]
fn repeating_timer_ticks_like_the_engines() {
    run(3_000_000_000, TimerMode::Repeating, &[0, 2_999_999_999, 1, 1, 3_000_000_000]);
    run(3_000_000_000, TimerMode::Repeating, &[3_500_000_000, 2_500_000_000, 16_666_667]);
    run(700_000_000, TimerMode::Repeating, &[10_000_000_000, 1, 699_999_999]);
    run(1, TimerMode::Repeating, &[0, 1, 5, 4_000_000_000]);
}

#[test]
fn frame_by_frame_ticks_agree_with_the_engines() {
    let frame = [16_666_667u64; 400];
    run(3_000_000_000, TimerMode::Repeating, &frame);
    run(2_650_000_000, TimerMode::Repeating, &frame);
    run(600_000_000, TimerMode::Once, &frame);
    run(3_000_000_000, TimerMode::Once, &frame);
}

#[test]
fn drawn_ticks_agree_with_the_engines() {
    let mut state: u64 = 2022;
    let mut round = 0;
    while round < 300 {
        let duration = next(&mut state) % 5_000_000_000 + 1;
        let mode = if next(&mut state) % 2 == 0 {
            TimerMode::Once
        } else {
            TimerMode::Repeating
        };
        let mut deltas = Vec::new();
        let mut i = 0;
        while i < 40 {
            deltas.push(next(&mut state) % (2 * duration));
            i += 1;
        }
        run(duration, mode, &deltas);
        round += 1;
    }
}

#[test]
fn ticks_at_the_edges_agree_with_the_engines() {
    run(1, TimerMode::Repeating, &[u32::MAX as u64, 0, 1, u32::MAX as u64]);
    run(2, TimerMode::Repeating, &[2 * (u32::MAX as u64) + 1, 1]);
    run(
        700_000_000,
        TimerMode::Repeating,
        &[700_000_000 * (u32::MAX as u64), 699_999_999, 1],
    );
    run(u64::MAX, TimerMode::Repeating, &[u64::MAX - 1, 1, u64::MAX, u64::MAX]);
    run(u64::MAX, TimerMode::Once, &[u64::MAX - 1, 0, 1, u64::MAX]);
    run(u64::MAX, TimerMode::Once, &[u64::MAX, u64::MAX]);
    run(1, TimerMode::Once, &[u64::MAX, u64::MAX]);
}
