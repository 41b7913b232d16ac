use blackfriday::timer::Timer;
use blackfriday::timer::TimerMode;

#[test]
fn fresh_timer_has_not_started() {
    let timer = Timer::new(42, TimerMode::Once);
    assert_eq!(timer.duration(), 42);
    assert_eq!(timer.elapsed(), 0);
    assert_eq!(timer.remaining(), 42);
    assert_eq!(timer.mode(), TimerMode::Once);
    assert!(!timer.finished());
    assert!(!timer.just_finished());
}

#[test]
fn durations_are_counted_in_nanoseconds() {
    assert_eq!(Timer::from_millis(600, TimerMode::Once).duration(), 600_000_000);
    assert_eq!(Timer::from_secs(3, TimerMode::Once).duration(), 3_000_000_000);
    assert_eq!(
        Timer::from_secs(u64::MAX, TimerMode::Repeating).duration(),
        18_446_744_073_709_551_615_000_000_000
    );
    assert_eq!(
        Timer::from_millis(u64::MAX, TimerMode::Repeating).duration(),
        18_446_744_073_709_551_615_000_000
    );
}

#[test]
fn once_timer_completes_once() {
    let mut timer = Timer::from_millis(600, TimerMode::Once);
    timer.tick(599_999_999);
    assert!(!timer.finished());
    assert!(!timer.just_finished());
    assert_eq!(timer.elapsed(), 599_999_999);
    assert_eq!(timer.remaining(), 1);
    timer.tick(1);
    assert!(timer.finished());
    assert!(timer.just_finished());
    assert_eq!(timer.elapsed(), 600_000_000);
    timer.tick(1_000);
    assert!(timer.finished());
    assert!(!timer.just_finished());
    assert_eq!(timer.elapsed(), 600_000_000);
    assert_eq!(timer.remaining(), 0);
}

#[test]
fn once_timer_stops_at_its_duration() {
    let mut timer = Timer::from_secs(1, TimerMode::Once);
    timer.tick(u128::MAX);
    assert!(timer.just_finished());
    assert_eq!(timer.elapsed(), 1_000_000_000);
}

#[test]
fn once_timer_of_no_duration_completes_with_the_first_tick() {
    let mut timer = Timer::new(0, TimerMode::Once);
    timer.tick(0);
    assert!(timer.finished());
    assert!(timer.just_finished());
    timer.tick(0);
    assert!(timer.finished());
    assert!(!timer.just_finished());
}

#[test]
fn repeating_timer_wraps_around() {
    let mut timer = Timer::from_secs(3, TimerMode::Repeating);
    timer.tick(3_500_000_000);
    assert!(timer.just_finished());
    assert!(timer.finished());
    assert_eq!(timer.elapsed(), 500_000_000);
    timer.tick(1_000_000_000);
    assert!(!timer.just_finished());
    assert!(!timer.finished());
    assert_eq!(timer.elapsed(), 1_500_000_000);
    timer.tick(1_500_000_000);
    assert!(timer.just_finished());
    assert_eq!(timer.elapsed(), 0);
}

#[test]
fn repeating_timer_wraps_around_more_than_once() {
    let mut timer = Timer::new(7, TimerMode::Repeating);
    timer.tick(5);
    assert!(!timer.just_finished());
    timer.tick(100);
    assert!(timer.just_finished());
    assert_eq!(timer.elapsed(), 0);
    timer.tick(u128::MAX);
    assert!(timer.just_finished());
    assert_eq!(timer.elapsed(), u128::MAX % 7);
}

#[test]
fn repeating_timer_with_a_huge_duration_does_not_overflow() {
    let mut timer = Timer::new(u128::MAX, TimerMode::Repeating);
    timer.tick(u128::MAX - 1);
    assert!(!timer.just_finished());
    assert_eq!(timer.elapsed(), u128::MAX - 1);
    timer.tick(3);
    assert!(timer.just_finished());
    assert_eq!(timer.elapsed(), 2);
}

#[test]
fn repeating_timer_needs_a_duration() {
    assert!(!Timer::new(0, TimerMode::Repeating).is_wf());
    assert!(!Timer::from_millis(0, TimerMode::Repeating).is_wf());
    assert!(!Timer::from_secs(0, TimerMode::Repeating).is_wf());
    assert!(Timer::new(1, TimerMode::Repeating).is_wf());
    assert!(Timer::new(0, TimerMode::Once).is_wf());
}

#[test]
fn timer_tells_whether_the_next_tick_completes_it() {
    let mut timer = Timer::from_millis(600, TimerMode::Once);
    assert!(!timer.completes_after(599_999_999));
    assert!(timer.completes_after(600_000_000));
    timer.tick(600_000_000);
    assert!(!timer.completes_after(1));
    let mut timer = Timer::from_secs(3, TimerMode::Repeating);
    timer.tick(1_000_000_000);
    assert!(!timer.completes_after(1_999_999_999));
    assert!(timer.completes_after(2_000_000_000));
    assert!(timer.completes_after(u128::MAX));
}
