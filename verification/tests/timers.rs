use ghost_behavior::fixed::ONE;
use ghost_behavior::ghost::{
    ghost_attack_system, AttackBehaviorType, DirectPursuitWithBreakData, GhostEntity,
    UpandDownWithBreakData, GHOST_SPEED, OSCILLATION_PERIOD,
};
use ghost_behavior::timer::RepeatingTimer;
use ghost_behavior::vector::Vec2;

type Wave = fn(i32) -> i32;

const SECOND: u64 = 1_000_000_000;

fn units(x: i32, y: i32) -> Vec2 {
    Vec2::new(x * ONE, y * ONE)
}

#[test]
fn new_timer_holds_no_time() {
    let timer = RepeatingTimer::new(1_500_000_000);
    assert_eq!(timer, RepeatingTimer { elapsed: 0, period: 1_500_000_000 });
}

#[test]
fn timer_counts_up_to_its_period() {
    let mut timer = RepeatingTimer::new(3 * SECOND);
    assert!(!timer.tick(SECOND));
    assert_eq!(timer.elapsed, SECOND);
    assert!(!timer.tick(SECOND));
    assert_eq!(timer.elapsed, 2 * SECOND);
    assert!(timer.tick(SECOND));
    assert_eq!(timer.elapsed, 0);
    assert_eq!(timer.period, 3 * SECOND);
}

#[test]
fn timer_keeps_the_time_beyond_the_period() {
    let mut timer = RepeatingTimer::new(1_500_000_000);
    assert!(!timer.tick(SECOND));
    assert!(timer.tick(SECOND));
    assert_eq!(timer.elapsed, 500_000_000);
    assert!(timer.tick(SECOND));
    assert_eq!(timer.elapsed, 0);
}

#[test]
fn timer_reports_many_periods_in_a_tick_once() {
    let mut timer = RepeatingTimer::new(SECOND);
    assert!(timer.tick(10 * SECOND + 7));
    assert_eq!(timer.elapsed, 7);
}

#[test]
fn timer_with_no_time_gone_by_does_not_come_round() {
    let mut timer = RepeatingTimer::new(SECOND);
    assert!(!timer.tick(0));
    assert_eq!(timer.elapsed, 0);
}

#[test]
fn timer_of_period_zero_comes_round_at_every_tick() {
    let mut timer = RepeatingTimer::new(0);
    assert!(timer.tick(0));
    assert_eq!(timer.elapsed, 0);
    assert!(timer.tick(5));
    assert_eq!(timer.elapsed, 0);
}

#[test]
fn timer_handles_the_longest_times() {
    let mut timer = RepeatingTimer { elapsed: u64::MAX - 1, period: u64::MAX };
    assert!(timer.tick(u64::MAX));
    // (2^64 - 2 + 2^64 - 1) mod (2^64 - 1) = 2^64 - 2
    assert_eq!(timer.elapsed, u64::MAX - 1);
    let mut timer = RepeatingTimer::new(u64::MAX);
    assert!(!timer.tick(u64::MAX - 1));
    assert!(timer.tick(1));
    assert_eq!(timer.elapsed, 0);
}

#[test]
fn break_data_begins_at_rest() {
    let data = DirectPursuitWithBreakData::new(1_500_000_000);
    assert!(data.rest);
    assert_eq!(data.timer, RepeatingTimer { elapsed: 0, period: 1_500_000_000 });
}

#[test]
fn break_ghost_rests_then_chases_then_rests() {
    let player = units(0, 0);
    let mut data = DirectPursuitWithBreakData::new(2 * SECOND);
    let mut position = units(100, 0);
    // Resting: the first period.
    data.advance(&mut position, &player, 3 * ONE, SECOND);
    assert!(data.rest);
    assert_eq!(position, units(100, 0));
    // The timer comes round: chasing.
    data.advance(&mut position, &player, 3 * ONE, SECOND);
    assert!(!data.rest);
    assert_eq!(position, units(97, 0));
    data.advance(&mut position, &player, 3 * ONE, SECOND);
    assert!(!data.rest);
    assert_eq!(position, units(94, 0));
    // The timer comes round again: resting.
    data.advance(&mut position, &player, 3 * ONE, SECOND);
    assert!(data.rest);
    assert_eq!(position, units(94, 0));
    data.advance(&mut position, &player, 3 * ONE, SECOND);
    assert!(data.rest);
    assert_eq!(position, units(94, 0));
}

#[test]
fn break_ghost_moves_only_in_its_active_frames() {
    let player = units(0, 0);
    let mut data = DirectPursuitWithBreakData::new(SECOND);
    let mut position = units(300, 400);
    let start = position;
    let mut active = (0i64, 0i64);
    for _ in 0..40 {
        let before = position;
        data.advance(&mut position, &player, 5 * ONE, 250_000_000);
        if data.rest {
            assert_eq!(position, before);
        } else {
            assert_eq!(position, Vec2::new(before.x - 3 * ONE, before.y - 4 * ONE));
            active.0 += (position.x - before.x) as i64;
            active.1 += (position.y - before.y) as i64;
        }
    }
    assert_eq!(((position.x - start.x) as i64, (position.y - start.y) as i64), active);
    // Four frames to a period: of the 40 frames, 20 are active.
    assert_eq!(position, Vec2::new(start.x - 20 * 3 * ONE, start.y - 20 * 4 * ONE));
}

#[test]
fn break_ghost_in_the_system() {
    let mut ghosts: Vec<GhostEntity<Wave>> = vec![GhostEntity::new(
        units(500, 0),
        AttackBehaviorType::DirectPursuitWithBreak(DirectPursuitWithBreakData::new(1_500_000_000)),
        GHOST_SPEED,
    )];
    let player = Some(units(0, 0));
    assert_eq!(ghost_attack_system(&mut ghosts, player, SECOND), Ok(()));
    assert_eq!(ghosts[0].position, units(500, 0));
    assert_eq!(ghost_attack_system(&mut ghosts, player, SECOND), Ok(()));
    assert_eq!(ghosts[0].position, units(497, 0));
    match &ghosts[0].component.attack_behavior {
        AttackBehaviorType::DirectPursuitWithBreak(data) => {
            assert!(!data.rest);
            assert_eq!(data.timer.elapsed, 500_000_000);
        }
        _ => panic!("the behaviour changed"),
    }
    assert_eq!(ghosts[0].component.speed, GHOST_SPEED);
}

#[test]
fn break_ghost_without_a_player_keeps_its_timer() {
    let mut ghosts: Vec<GhostEntity<Wave>> = vec![GhostEntity::new(
        units(500, 0),
        AttackBehaviorType::DirectPursuitWithBreak(DirectPursuitWithBreakData::new(SECOND)),
        GHOST_SPEED,
    )];
    assert!(ghost_attack_system(&mut ghosts, None, 5 * SECOND).is_err());
    match &ghosts[0].component.attack_behavior {
        AttackBehaviorType::DirectPursuitWithBreak(data) => {
            assert!(data.rest);
            assert_eq!(data.timer.elapsed, 0);
        }
        _ => panic!("the behaviour changed"),
    }
}

#[test]
fn up_and_down_data_turns_every_two_seconds() {
    let data = UpandDownWithBreakData::new(2 * ONE);
    assert_eq!(data.y_velocity, 2 * ONE);
    assert_eq!(data.timer, RepeatingTimer { elapsed: 0, period: 2 * SECOND });
    assert_eq!(OSCILLATION_PERIOD, 2 * SECOND);
}

#[test]
fn up_and_down_ghost_loses_its_velocity_in_height() {
    let mut data = UpandDownWithBreakData::new(2 * ONE);
    let mut position = units(0, 500);
    data.advance(&mut position, 16_666_667);
    assert_eq!(position, units(0, 498));
    assert_eq!(data.y_velocity, 2 * ONE);
    data.advance(&mut position, 16_666_667);
    assert_eq!(position, units(0, 496));
}

#[test]
fn up_and_down_ghost_turns_when_the_timer_comes_round() {
    let mut data = UpandDownWithBreakData::new(2 * ONE);
    let mut position = units(7, 500);
    data.advance(&mut position, SECOND);
    assert_eq!((data.y_velocity, position), (2 * ONE, units(7, 498)));
    data.advance(&mut position, SECOND);
    assert_eq!((data.y_velocity, position), (-2 * ONE, units(7, 500)));
    data.advance(&mut position, SECOND);
    assert_eq!((data.y_velocity, position), (-2 * ONE, units(7, 502)));
    data.advance(&mut position, SECOND);
    assert_eq!((data.y_velocity, position), (2 * ONE, units(7, 500)));
}

#[test]
fn up_and_down_ghost_returns_after_two_periods() {
    for per_period in [1u64, 2, 3, 8, 120] {
        let delta = OSCILLATION_PERIOD / per_period;
        let mut data = UpandDownWithBreakData { timer: RepeatingTimer::new(per_period * delta), y_velocity: 2 * ONE };
        let start = units(0, 500);
        let mut position = start;
        let mut turns = 0;
        for _ in 0..2 * per_period {
            let before = data.y_velocity;
            data.advance(&mut position, delta);
            assert_eq!(data.y_velocity.abs(), 2 * ONE);
            if data.y_velocity != before {
                turns += 1;
            }
        }
        assert_eq!(turns, 2);
        assert_eq!(position, start);
        assert_eq!(data.y_velocity, 2 * ONE);
        assert_eq!(data.timer.elapsed, 0);
    }
}

#[test]
fn up_and_down_ghost_saturates() {
    let mut data = UpandDownWithBreakData::new(i32::MIN);
    let mut position = Vec2::new(3, 5);
    data.advance(&mut position, 1);
    assert_eq!(position, Vec2::new(3, i32::MAX));
    data.advance(&mut position, OSCILLATION_PERIOD);
    assert_eq!(data.y_velocity, i32::MAX);
    assert_eq!(position, Vec2::new(3, 0));
}

#[test]
fn up_and_down_ghost_in_the_system() {
    let mut ghosts: Vec<GhostEntity<Wave>> = vec![GhostEntity::new(
        units(0, 500),
        AttackBehaviorType::UpandDown(UpandDownWithBreakData::new(2 * ONE)),
        GHOST_SPEED,
    )];
    assert_eq!(ghost_attack_system(&mut ghosts, Some(units(40, 40)), 2 * SECOND), Ok(()));
    assert_eq!(ghosts[0].position, units(0, 502));
    match &ghosts[0].component.attack_behavior {
        AttackBehaviorType::UpandDown(data) => assert_eq!(data.y_velocity, -2 * ONE),
        _ => panic!("the behaviour changed"),
    }
}
