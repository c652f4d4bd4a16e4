use ghost_behavior::fixed::ONE;
use ghost_behavior::ghost::{
    spawn_ghosts_system, AttackBehaviorType, GhostEntity, GHOST_SPEED,
};
use ghost_behavior::player::{
    move_player_system, spawn_player_system, PlayerComponent, PlayerEntity, PressedKeys,
    PLAYER_SPEED,
};
use ghost_behavior::timer::RepeatingTimer;
use ghost_behavior::vector::Vec2;

type Wave = fn(i32) -> i32;

fn first(angle: i32) -> i32 {
    angle + 1
}

fn second(angle: i32) -> i32 {
    angle + 2
}

fn third(angle: i32) -> i32 {
    angle + 3
}

fn keys(up: bool, down: bool, left: bool, right: bool) -> PressedKeys {
    PressedKeys { up, down, left, right }
}

fn player_at(x: i32, y: i32) -> PlayerEntity {
    PlayerEntity { position: Vec2::new(x, y), component: PlayerComponent { speed: PLAYER_SPEED } }
}

#[test]
fn player_begins_at_the_origin() {
    let player = spawn_player_system();
    assert_eq!(player, player_at(0, 0));
    assert_eq!(PLAYER_SPEED, 5 * ONE);
}

#[test]
fn player_without_keys_stands_still() {
    let mut player = player_at(3, 4);
    move_player_system(&keys(false, false, false, false), &mut player);
    assert_eq!(player, player_at(3, 4));
}

#[test]
fn player_moves_five_units_along_an_axis() {
    let mut player = player_at(0, 0);
    move_player_system(&keys(true, false, false, false), &mut player);
    assert_eq!(player, player_at(0, 5 * ONE));
    move_player_system(&keys(false, false, false, true), &mut player);
    assert_eq!(player, player_at(5 * ONE, 5 * ONE));
    move_player_system(&keys(false, true, false, false), &mut player);
    assert_eq!(player, player_at(5 * ONE, 0));
    move_player_system(&keys(false, false, true, false), &mut player);
    assert_eq!(player, player_at(0, 0));
}

#[test]
fn player_moves_five_units_along_a_diagonal() {
    // 5 / sqrt(2) = 3.5355339...; in units of the last place 231704.75...
    let mut player = player_at(0, 0);
    move_player_system(&keys(true, false, false, true), &mut player);
    assert_eq!(player, player_at(231705, 231705));
    move_player_system(&keys(false, true, true, false), &mut player);
    assert_eq!(player, player_at(0, 0));
    move_player_system(&keys(true, false, true, false), &mut player);
    assert_eq!(player, player_at(-231705, 231705));
}

#[test]
fn a_diagonal_step_is_five_units_long() {
    let mut player = player_at(0, 0);
    move_player_system(&keys(true, false, true, false), &mut player);
    let x = player.position.x as f64 / 65536.0;
    let y = player.position.y as f64 / 65536.0;
    assert!((x - -3.5355339).abs() < 1e-5, "x = {}", x);
    assert!((y - 3.5355339).abs() < 1e-5, "y = {}", y);
    assert!(((x * x + y * y).sqrt() - 5.0).abs() < 1e-5);
}

#[test]
fn opposite_keys_cancel() {
    let mut player = player_at(1, 1);
    move_player_system(&keys(true, true, false, false), &mut player);
    assert_eq!(player, player_at(1, 1));
    move_player_system(&keys(true, true, true, true), &mut player);
    assert_eq!(player, player_at(1, 1));
    move_player_system(&keys(true, true, false, true), &mut player);
    assert_eq!(player, player_at(1 + 5 * ONE, 1));
}

#[test]
fn player_stops_at_the_end_of_the_range() {
    let mut player = player_at(i32::MAX - 1, i32::MIN + 1);
    move_player_system(&keys(false, true, false, true), &mut player);
    assert_eq!(player, player_at(i32::MAX, i32::MIN));
}

#[test]
fn four_ghosts_begin_the_game() {
    let ghosts: Vec<GhostEntity<Wave>> = spawn_ghosts_system(first, second, third);
    assert_eq!(ghosts.len(), 4);
    for ghost in &ghosts {
        assert_eq!(ghost.component.speed, GHOST_SPEED);
    }
    assert_eq!(GHOST_SPEED, 3 * ONE);

    assert_eq!(ghosts[0].position, Vec2::new(500 * ONE, 0));
    match &ghosts[0].component.attack_behavior {
        AttackBehaviorType::DirectPursuitWithBreak(data) => {
            assert!(data.rest);
            assert_eq!(data.timer, RepeatingTimer { elapsed: 0, period: 1_500_000_000 });
        }
        _ => panic!("the first ghost chases and rests"),
    }

    assert_eq!(ghosts[1].position, Vec2::new(500 * ONE, 0));
    assert!(matches!(ghosts[1].component.attack_behavior, AttackBehaviorType::ShyPursuit));

    assert_eq!(ghosts[2].position, Vec2::new(0, 500 * ONE));
    match &ghosts[2].component.attack_behavior {
        AttackBehaviorType::UpandDown(data) => {
            assert_eq!(data.y_velocity, 2 * ONE);
            assert_eq!(data.timer, RepeatingTimer { elapsed: 0, period: 2_000_000_000 });
        }
        _ => panic!("the third ghost moves up and down"),
    }

    assert_eq!(ghosts[3].position, Vec2::new(0, 500 * ONE));
    match &ghosts[3].component.attack_behavior {
        AttackBehaviorType::CirclePursuit(data) => {
            assert_eq!(data.angle, 0);
            assert_eq!(data.base_radius, 200 * ONE);
            assert_eq!(data.radius_delta, 50 * ONE);
            assert_eq!(data.angle_rad_mod, 3 * ONE);
            assert_eq!((data.x_angle_func)(10), 11);
            assert_eq!((data.y_angle_func)(10), 12);
            assert_eq!((data.rad_angle_func)(10), 13);
        }
        _ => panic!("the fourth ghost circles"),
    }
}
