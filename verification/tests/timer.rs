use rusty_snake::timer::Timer;

#[test]
fn fresh_timer_has_gathered_nothing() {
    let timer = Timer::new(5);
    assert_eq!(timer, Timer { duration: 5, elapsed: 0, times_finished_this_tick: 0 });
    assert!(!timer.just_finished());
    assert_eq!(Timer::from_millis(200).duration, 200_000_000);
    assert_eq!(Timer::from_millis(u32::MAX).duration, 4_294_967_295_000_000);
}

#[test]
fn tick_below_the_interval_gathers_time() {
    let mut timer = Timer::from_millis(200);
    timer.tick(150_000_000);
    assert_eq!(timer.elapsed, 150_000_000);
    assert_eq!(timer.times_finished_this_tick, 0);
    assert!(!timer.just_finished());
}

#[test]
fn tick_across_the_interval_fires_and_keeps_the_rest() {
    let mut timer = Timer::from_millis(200);
    timer.tick(150_000_000);
    timer.tick(100_000_000);
    assert_eq!(timer.elapsed, 50_000_000);
    assert_eq!(timer.times_finished_this_tick, 1);
    assert!(timer.just_finished());
    timer.tick(1);
    assert_eq!(timer.elapsed, 50_000_001);
    assert!(!timer.just_finished());
}

#[test]
fn tick_onto_the_interval_fires_with_nothing_left() {
    let mut timer = Timer::new(200);
    timer.tick(200);
    assert_eq!(timer.elapsed, 0);
    assert_eq!(timer.times_finished_this_tick, 1);
}

#[test]
fn tick_across_several_intervals_counts_them() {
    let mut timer = Timer::new(200);
    timer.tick(1_050);
    assert_eq!(timer.elapsed, 50);
    assert_eq!(timer.times_finished_this_tick, 5);
    assert!(timer.just_finished());
}

#[test]
fn tick_counts_intervals_in_32_bits() {
    let mut timer = Timer::new(1);
    timer.tick(0x1_0000_0000);
    assert_eq!(timer.elapsed, 0);
    assert_eq!(timer.times_finished_this_tick, 0);
    assert!(!timer.just_finished());
    timer.tick(0x2_0000_0003);
    assert_eq!(timer.times_finished_this_tick, 3);
}

#[test]
fn tick_of_a_timer_without_interval() {
    let mut timer = Timer::new(0);
    timer.tick(7);
    assert_eq!(timer.elapsed, 0);
    assert_eq!(timer.times_finished_this_tick, u32::MAX);
    assert!(timer.just_finished());
    timer.tick(0);
    assert_eq!(timer.times_finished_this_tick, u32::MAX);
}

#[test]
fn tick_with_the_largest_values() {
    let mut timer = Timer { duration: u64::MAX, elapsed: u64::MAX - 1, times_finished_this_tick: 0 };
    timer.tick(u64::MAX);
    assert_eq!(timer.elapsed, u64::MAX - 1);
    assert_eq!(timer.times_finished_this_tick, 1);
}
