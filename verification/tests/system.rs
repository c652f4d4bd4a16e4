use ghost_behavior::fixed::ONE;
use ghost_behavior::ghost::{
    ghost_attack_system, spawn_ghosts_system, AttackBehaviorType, DirectPursuitWithBreakData,
    GhostEntity, UpandDownWithBreakData, GHOST_SPEED,
};
use ghost_behavior::orbit::{CirclePursuitData, TWO_PI};
use ghost_behavior::vector::Vec2;

type Wave = fn(i32) -> i32;

const FRAME: u64 = 16_666_667;

fn to_fixed(v: f64) -> i32 {
    (v * 65536.0).round() as i32
}

fn cosine(angle: i32) -> i32 {
    to_fixed((angle as f64 / 65536.0).cos())
}

fn sine(angle: i32) -> i32 {
    to_fixed((angle as f64 / 65536.0).sin())
}

fn units(x: i32, y: i32) -> Vec2 {
    Vec2::new(x * ONE, y * ONE)
}

fn one_of_each() -> Vec<GhostEntity<Wave>> {
    vec![
        GhostEntity::new(units(100, 0), AttackBehaviorType::DirectPursuit, 3 * ONE),
        GhostEntity::new(
            units(500, 0),
            AttackBehaviorType::DirectPursuitWithBreak(DirectPursuitWithBreakData::new(2 * FRAME)),
            GHOST_SPEED,
        ),
        GhostEntity::new(units(30, 40), AttackBehaviorType::ShyPursuit, 5 * ONE),
        GhostEntity::new(
            units(0, 500),
            AttackBehaviorType::UpandDown(UpandDownWithBreakData::new(2 * ONE)),
            GHOST_SPEED,
        ),
        GhostEntity::new(
            units(0, 500),
            AttackBehaviorType::CirclePursuit(CirclePursuitData::new(
                0,
                200 * ONE,
                50 * ONE,
                3 * ONE,
                cosine,
                sine,
                sine,
            )),
            GHOST_SPEED,
        ),
    ]
}

fn angle_of(ghost: &GhostEntity<Wave>) -> Option<i32> {
    match &ghost.component.attack_behavior {
        AttackBehaviorType::CirclePursuit(data) => Some(data.angle),
        _ => None,
    }
}

#[test]
fn every_behaviour_takes_its_own_step() {
    let mut ghosts = one_of_each();
    assert_eq!(ghost_attack_system(&mut ghosts, Some(units(0, 0)), FRAME), Ok(()));
    assert_eq!(ghosts.len(), 5);
    assert_eq!(ghosts[0].position, units(97, 0));
    assert_eq!(ghosts[1].position, units(500, 0));
    assert_eq!(ghosts[2].position, units(33, 44));
    assert_eq!(ghosts[3].position, units(0, 498));
    assert_eq!(angle_of(&ghosts[4]), Some(3276));
    assert_eq!(ghost_attack_system(&mut ghosts, Some(units(0, 0)), FRAME), Ok(()));
    assert_eq!(ghosts[0].position, units(94, 0));
    assert_eq!(ghosts[1].position, units(497, 0));
    assert_eq!(ghosts[2].position, units(36, 48));
    assert_eq!(ghosts[3].position, units(0, 496));
    assert_eq!(angle_of(&ghosts[4]), Some(6552));
}

#[test]
fn speeds_and_behaviours_stay_as_they_were_chosen() {
    let mut ghosts = one_of_each();
    for _ in 0..100 {
        assert_eq!(ghost_attack_system(&mut ghosts, Some(units(7, -7)), FRAME), Ok(()));
    }
    assert_eq!(ghosts[0].component.speed, 3 * ONE);
    assert_eq!(ghosts[1].component.speed, GHOST_SPEED);
    assert_eq!(ghosts[2].component.speed, 5 * ONE);
    assert!(matches!(ghosts[0].component.attack_behavior, AttackBehaviorType::DirectPursuit));
    assert!(matches!(
        ghosts[1].component.attack_behavior,
        AttackBehaviorType::DirectPursuitWithBreak(_)
    ));
    assert!(matches!(ghosts[2].component.attack_behavior, AttackBehaviorType::ShyPursuit));
    assert!(matches!(ghosts[3].component.attack_behavior, AttackBehaviorType::UpandDown(_)));
    assert!(matches!(ghosts[4].component.attack_behavior, AttackBehaviorType::CirclePursuit(_)));
}

#[test]
fn the_order_of_the_ghosts_does_not_matter() {
    let mut forward = one_of_each();
    let mut backward = one_of_each();
    backward.reverse();
    for _ in 0..50 {
        assert_eq!(ghost_attack_system(&mut forward, Some(units(3, 9)), FRAME), Ok(()));
        assert_eq!(ghost_attack_system(&mut backward, Some(units(3, 9)), FRAME), Ok(()));
    }
    backward.reverse();
    for (a, b) in forward.iter().zip(backward.iter()) {
        assert_eq!(a.position, b.position);
        assert_eq!(angle_of(a), angle_of(b));
    }
}

#[test]
fn a_ghost_alone_moves_as_it_does_among_others() {
    let mut together = one_of_each();
    let mut alone = one_of_each();
    for _ in 0..20 {
        assert_eq!(ghost_attack_system(&mut together, Some(units(-40, 12)), FRAME), Ok(()));
        for ghost in alone.iter_mut() {
            ghost.advance(&units(-40, 12), FRAME);
        }
    }
    for (a, b) in together.iter().zip(alone.iter()) {
        assert_eq!(a.position, b.position);
        assert_eq!(angle_of(a), angle_of(b));
    }
}

#[test]
fn a_frame_without_a_player_changes_nothing() {
    let mut ghosts = one_of_each();
    assert_eq!(ghost_attack_system(&mut ghosts, Some(units(0, 0)), FRAME), Ok(()));
    let before: Vec<(Vec2, Option<i32>)> = ghosts.iter().map(|g| (g.position, angle_of(g))).collect();
    let break_before = match &ghosts[1].component.attack_behavior {
        AttackBehaviorType::DirectPursuitWithBreak(data) => *data,
        _ => panic!("the behaviour changed"),
    };
    let up_down_before = match &ghosts[3].component.attack_behavior {
        AttackBehaviorType::UpandDown(data) => *data,
        _ => panic!("the behaviour changed"),
    };
    for _ in 0..3 {
        assert!(ghost_attack_system(&mut ghosts, None, 1_000 * FRAME).is_err());
    }
    let after: Vec<(Vec2, Option<i32>)> = ghosts.iter().map(|g| (g.position, angle_of(g))).collect();
    assert_eq!(before, after);
    match &ghosts[1].component.attack_behavior {
        AttackBehaviorType::DirectPursuitWithBreak(data) => assert_eq!(*data, break_before),
        _ => panic!("the behaviour changed"),
    }
    match &ghosts[3].component.attack_behavior {
        AttackBehaviorType::UpandDown(data) => assert_eq!(*data, up_down_before),
        _ => panic!("the behaviour changed"),
    }
}

#[test]
fn the_opening_ghosts_play_a_minute() {
    let mut ghosts: Vec<GhostEntity<Wave>> = spawn_ghosts_system(cosine, sine, sine);
    let player = units(0, 0);
    for _ in 0..3600 {
        assert_eq!(ghost_attack_system(&mut ghosts, Some(player), FRAME), Ok(()));
        let angle = angle_of(&ghosts[3]).unwrap();
        assert!(0 <= angle && angle < TWO_PI);
        // The circling ghost keeps between 150 and 250 units from the player.
        let dx = ghosts[3].position.x as f64 / 65536.0;
        let dy = ghosts[3].position.y as f64 / 65536.0;
        let distance = (dx * dx + dy * dy).sqrt();
        assert!(149.9 < distance && distance < 250.1, "distance {}", distance);
        // The shy ghost comes to rest in its band and stays there.
        let shy = ghosts[1].position;
        assert!(shy.x >= 200 * ONE && shy.y == 0);
    }
    assert_eq!(ghosts[1].position, units(209, 0));
    assert_eq!(ghosts[2].position.x, 0);
}
