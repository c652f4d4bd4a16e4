//! The ghosts, their attack behaviours, and the frame-by-frame update.

use crate::fixed::{fixed_neg, fixed_sub, saturated, ONE};
use crate::orbit::CirclePursuitData;
use crate::timer::RepeatingTimer;
use crate::vector::{distance_sq, step_toward, Vec2};
use vstd::prelude::*;

verus! {

/// The distance that a ghost covers in a frame, unless it is given
/// another: 3.0.
pub const GHOST_SPEED: i32 = 3 * ONE;

/// The squared distance below which a shy ghost flees: that of 200 units.
pub const SHY_NEAR_SQ: u128 = 171_798_691_840_000;

/// The squared distance above which a shy ghost gives chase: that of 210
/// units.
pub const SHY_FAR_SQ: u128 = 189_408_057_753_600;

/// The time after which a ghost that moves up and down turns round.
pub const OSCILLATION_PERIOD: u64 = 2_000_000_000;

/// The state of a ghost that chases the player and rests in turn.
#[derive(Clone, Copy, Debug, PartialEq, Eq, Structural)]
pub struct DirectPursuitWithBreakData {
    /// Comes round whenever the ghost changes between chasing and resting.
    pub timer: RepeatingTimer,
    /// Whether the ghost is resting.
    pub rest: bool,
}

/// The state of a ghost that moves up and down.
#[derive(Clone, Copy, Debug, PartialEq, Eq, Structural)]
pub struct UpandDownWithBreakData {
    /// Comes round whenever the ghost turns round.
    pub timer: RepeatingTimer,
    /// What the ghost's height loses in a frame.
    pub y_velocity: i32,
}

/// How a ghost goes after the player.
#[derive(Clone)]
pub enum AttackBehaviorType<W> {
    /// Straight toward the player, every frame.
    DirectPursuit,
    /// Straight toward the player, with rests.
    DirectPursuitWithBreak(DirectPursuitWithBreakData),
    /// Away from a player who is near, toward one who is far.
    ShyPursuit,
    /// Up and down, whatever the player does.
    UpandDown(UpandDownWithBreakData),
    /// Round the player.
    CirclePursuit(CirclePursuitData<W>),
}

/// What makes an entity a ghost.
#[derive(Clone)]
pub struct GhostComponent<W> {
    /// The behaviour, chosen once.
    pub attack_behavior: AttackBehaviorType<W>,
    /// The distance covered in a frame.
    pub speed: i32,
}

/// A ghost in the world: where it is, and what it does.
#[derive(Clone)]
pub struct GhostEntity<W> {
    pub position: Vec2,
    pub component: GhostComponent<W>,
}

/// Why a frame was not played.
#[derive(Clone, Copy, Debug, PartialEq, Eq, Structural)]
pub enum UpdateError {
    /// There is no player to go after.
    NoPlayer,
}

impl UpdateError {
    /// The report in words.
    pub fn message(&self) -> (text: &'static str)
        ensures
            text@ == "No player entity found."@,
    {
        "No player entity found."
    }
}

/// Where a ghost at `position` stands after one step of length `speed` toward
/// `player`.
pub open spec fn pursuit_position(position: Vec2, player: Vec2, speed: int) -> Vec2 {
    position.offset(
        step_toward(position, player, speed).0,
        step_toward(position, player, speed).1,
    )
}

/// Where a ghost at `position` stands after one step of length `speed` straight
/// away from `player`.
pub open spec fn flight_position(position: Vec2, player: Vec2, speed: int) -> Vec2 {
    position.offset(
        -step_toward(position, player, speed).0,
        -step_toward(position, player, speed).1,
    )
}

/// Where a shy ghost at `position` stands after one frame: a step away from a
/// player nearer than the near threshold, a step toward one farther than the
/// far threshold, and the same place between the two.
pub open spec fn shy_position(position: Vec2, player: Vec2, speed: int) -> Vec2 {
    if distance_sq(position, player) < SHY_NEAR_SQ {
        flight_position(position, player, speed)
    } else if distance_sq(position, player) > SHY_FAR_SQ {
        pursuit_position(position, player, speed)
    } else {
        position
    }
}

/// The two thresholds of a shy ghost are the squares of 200 and of 210
/// units.
pub proof fn lemma_shy_thresholds()
    ensures
        SHY_NEAR_SQ == (200 * ONE) * (200 * ONE),
        SHY_FAR_SQ == (210 * ONE) * (210 * ONE),
{
    assert(200 * ONE == 13107200 && 210 * ONE == 13762560);
}

/// One frame of straight pursuit: a step of length `speed` toward the
/// player, however near the player is. A ghost nearer than its step goes
/// past the player.
pub fn direct_pursuit(position: &Vec2, player: &Vec2, speed: i32) -> (moved: Vec2)
    ensures
        moved == pursuit_position(*position, *player, speed as int),
{
    let step = position.step_toward(player, speed);
    position.moved_by(step.0, step.1)
}

/// One frame of shy pursuit: away from a player nearer than 200 units,
/// toward one farther than 210 units, and no step between the two.
pub fn shy_pursuit(position: &Vec2, player: &Vec2, speed: i32) -> (moved: Vec2)
    ensures
        moved == shy_position(*position, *player, speed as int),
{
    let distance = position.distance_squared(player);
    if distance < SHY_NEAR_SQ {
        let step = position.step_toward(player, speed);
        position.moved_by(-step.0, -step.1)
    } else if distance > SHY_FAR_SQ {
        direct_pursuit(position, player, speed)
    } else {
        *position
    }
}

impl DirectPursuitWithBreakData {
    /// The timer is in order.
    pub open spec fn wf(self) -> bool {
        self.timer.wf()
    }

    /// This state `delta` nanoseconds later: the ghost has changed between
    /// chasing and resting if the timer came round.
    pub open spec fn after(self, delta: u64) -> Self {
        DirectPursuitWithBreakData {
            timer: self.timer.after(delta),
            rest: if self.timer.completes(delta) {
                !self.rest
            } else {
                self.rest
            },
        }
    }

    /// Where a ghost in this state, at `position`, stands `delta` nanoseconds
    /// later: where it stood if it then rests, one step nearer the player if
    /// it does not.
    pub open spec fn position_after(
        self,
        position: Vec2,
        player: Vec2,
        speed: int,
        delta: u64,
    ) -> Vec2 {
        if self.after(delta).rest {
            position
        } else {
            pursuit_position(position, player, speed)
        }
    }

    /// The state of a ghost that changes between chasing and resting every
    /// `rest_time` nanoseconds, and begins at rest.
    pub fn new(rest_time: u64) -> (data: Self)
        ensures
            data == (DirectPursuitWithBreakData {
                timer: RepeatingTimer { elapsed: 0, period: rest_time },
                rest: true,
            }),
            data.wf(),
    {
        DirectPursuitWithBreakData { timer: RepeatingTimer::new(rest_time), rest: true }
    }

    /// One frame of `delta` nanoseconds for a ghost at `position`.
    pub fn advance(&mut self, position: &mut Vec2, player: &Vec2, speed: i32, delta: u64)
        ensures
            *final(self) == old(self).after(delta),
            *final(position) == old(self).position_after(
                *old(position),
                *player,
                speed as int,
                delta,
            ),
            final(self).wf(),
    {
        if self.timer.tick(delta) {
            self.rest = !self.rest;
        }
        if !self.rest {
            *position = direct_pursuit(position, player, speed);
        }
    }
}

impl UpandDownWithBreakData {
    /// The timer is in order, and the velocity has a negative in range.
    pub open spec fn wf(self) -> bool {
        self.timer.wf() && self.y_velocity > i32::MIN
    }

    /// This state `delta` nanoseconds later: the velocity has changed its
    /// sign if the timer came round.
    pub open spec fn after(self, delta: u64) -> Self {
        UpandDownWithBreakData {
            timer: self.timer.after(delta),
            y_velocity: if self.timer.completes(delta) {
                saturated(-self.y_velocity) as i32
            } else {
                self.y_velocity
            },
        }
    }

    /// Where a ghost in this state, at `position`, stands `delta` nanoseconds
    /// later: lower by the velocity that it then has.
    pub open spec fn position_after(self, position: Vec2, delta: u64) -> Vec2 {
        Vec2 { x: position.x, y: saturated(position.y - self.after(delta).y_velocity) as i32 }
    }

    /// The state of a ghost that loses `y_velocity` of height in a frame and
    /// turns round every two seconds.
    pub fn new(y_velocity: i32) -> (data: Self)
        ensures
            data == (UpandDownWithBreakData {
                timer: RepeatingTimer { elapsed: 0, period: OSCILLATION_PERIOD },
                y_velocity,
            }),
            y_velocity > i32::MIN ==> data.wf(),
    {
        UpandDownWithBreakData { y_velocity, timer: RepeatingTimer::new(OSCILLATION_PERIOD) }
    }

    /// One frame of `delta` nanoseconds for a ghost at `position`.
    pub fn advance(&mut self, position: &mut Vec2, delta: u64)
        ensures
            *final(self) == old(self).after(delta),
            *final(position) == old(self).position_after(*old(position), delta),
            old(self).y_velocity > i32::MIN ==> final(self).wf(),
    {
        if self.timer.tick(delta) {
            self.y_velocity = fixed_neg(self.y_velocity);
        }
        position.y = fixed_sub(position.y, self.y_velocity);
    }
}

impl<W: Fn(i32) -> i32> GhostEntity<W> {
    /// A ghost at `position` with the given behaviour and speed.
    pub fn new(
        position: Vec2,
        attack_behavior: AttackBehaviorType<W>,
        speed: i32,
    ) -> (entity: Self)
        ensures
            entity == (GhostEntity {
                position,
                component: GhostComponent { attack_behavior, speed },
            }),
    {
        GhostEntity { position, component: GhostComponent { attack_behavior, speed } }
    }

    /// The state of the behaviour is in order.
    pub open spec fn wf(self) -> bool {
        match self.component.attack_behavior {
            AttackBehaviorType::DirectPursuitWithBreak(data) => data.wf(),
            AttackBehaviorType::UpandDown(data) => data.wf(),
            AttackBehaviorType::CirclePursuit(data) => data.wf(),
            _ => true,
        }
    }

    /// The waveforms of a circling ghost can be asked at every angle.
    pub open spec fn callable(self) -> bool {
        match self.component.attack_behavior {
            AttackBehaviorType::CirclePursuit(data) => data.callable(),
            _ => true,
        }
    }

    /// `next` is this ghost one frame of `delta` nanoseconds later, with
    /// the player at `player`: the behaviour has taken its step, and the
    /// speed is what it was.
    pub open spec fn advances_to(self, player: Vec2, delta: u64, next: GhostEntity<W>) -> bool {
        &&& next.component.speed == self.component.speed
        &&& match self.component.attack_behavior {
            AttackBehaviorType::DirectPursuit => {
                &&& next.component.attack_behavior is DirectPursuit
                &&& next.position == pursuit_position(
                    self.position,
                    player,
                    self.component.speed as int,
                )
            },
            AttackBehaviorType::DirectPursuitWithBreak(data) => {
                &&& next.component.attack_behavior
                    == AttackBehaviorType::<W>::DirectPursuitWithBreak(data.after(delta))
                &&& next.position == data.position_after(
                    self.position,
                    player,
                    self.component.speed as int,
                    delta,
                )
            },
            AttackBehaviorType::ShyPursuit => {
                &&& next.component.attack_behavior is ShyPursuit
                &&& next.position == shy_position(
                    self.position,
                    player,
                    self.component.speed as int,
                )
            },
            AttackBehaviorType::UpandDown(data) => {
                &&& next.component.attack_behavior == AttackBehaviorType::<W>::UpandDown(
                    data.after(delta),
                )
                &&& next.position == data.position_after(self.position, delta)
            },
            AttackBehaviorType::CirclePursuit(data) => {
                &&& next.component.attack_behavior == AttackBehaviorType::CirclePursuit(
                    data.after(delta),
                )
                &&& data.after(delta).places(player, next.position)
            },
        }
    }

    /// Plays one frame of `delta` nanoseconds for this ghost, with the
    /// player at `player`.
    pub fn advance(&mut self, player: &Vec2, delta: u64)
        requires
            old(self).callable(),
        ensures
            old(self).advances_to(*player, delta, *final(self)),
    {
        let speed = self.component.speed;
        match &mut self.component.attack_behavior {
            AttackBehaviorType::DirectPursuit => {
                self.position = direct_pursuit(&self.position, player, speed);
            },
            AttackBehaviorType::UpandDown(data) => {
                data.advance(&mut self.position, delta);
            },
            AttackBehaviorType::ShyPursuit => {
                self.position = shy_pursuit(&self.position, player, speed);
            },
            AttackBehaviorType::DirectPursuitWithBreak(data) => {
                data.advance(&mut self.position, player, speed, delta);
            },
            AttackBehaviorType::CirclePursuit(data) => {
                data.update_angle(delta);
                data.update_transform(player, &mut self.position);
            },
        }
    }
}

/// Plays one frame of `delta` nanoseconds: every ghost takes the step of
/// its behaviour, with the player where `player` says. Without a player
/// nothing moves, and the frame is reported as not played.
pub fn ghost_attack_system<W: Fn(i32) -> i32>(
    ghosts: &mut Vec<GhostEntity<W>>,
    player: Option<Vec2>,
    delta: u64,
) -> (played: Result<(), UpdateError>)
    requires
        player is Some ==> forall|i: int|
            0 <= i < old(ghosts).len() ==> (#[trigger] old(ghosts)[i]).callable(),
    ensures
        player is None ==> played == Err::<(), UpdateError>(UpdateError::NoPlayer),
        player is None ==> final(ghosts)@ == old(ghosts)@,
        player is Some ==> played is Ok && final(ghosts).len() == old(ghosts).len(),
        player is Some ==> forall|i: int|
            #![trigger old(ghosts)[i]]
            #![trigger final(ghosts)[i]]
            0 <= i < old(ghosts).len() ==> old(ghosts)[i].advances_to(
                player->0,
                delta,
                final(ghosts)[i],
            ),
{
    match player {
        None => Err(UpdateError::NoPlayer),
        Some(target) => {
            let count = ghosts.len();
            let mut index: usize = 0;
            while index < count
                invariant
                    index <= count,
                    ghosts.len() == count,
                    old(ghosts).len() == count,
                    forall|i: int| index <= i < count ==> ghosts[i] == old(ghosts)[i],
                    forall|i: int| 0 <= i < count ==> (#[trigger] old(ghosts)[i]).callable(),
                    forall|i: int|
                        0 <= i < index ==> (#[trigger] old(ghosts)[i]).advances_to(
                            target,
                            delta,
                            ghosts[i],
                        ),
                decreases count - index,
            {
                ghosts[index].advance(&target, delta);
                index += 1;
            }
            Ok(())
        },
    }
}

/// The four ghosts of the game as it begins, in the order red, brown,
/// pink, purple: one that chases and rests by turns of a second and a half
/// and one that is shy, both 500 units to the right of the origin; one that
/// moves up and down by two units a frame and one that circles the player,
/// both 500 units above the origin. The circling ghost begins at angle zero
/// on a path of radius 200 that swings by 50 at three times the angle, with
/// `x_wave`, `y_wave` and `radius_wave` as its waveforms.
pub fn spawn_ghosts_system<W: Fn(i32) -> i32>(
    x_wave: W,
    y_wave: W,
    radius_wave: W,
) -> (ghosts: Vec<GhostEntity<W>>)
    ensures
        ghosts@ == seq![
            GhostEntity {
                position: Vec2 { x: 32768000, y: 0 },
                component: GhostComponent {
                    attack_behavior: AttackBehaviorType::DirectPursuitWithBreak(
                        DirectPursuitWithBreakData {
                            timer: RepeatingTimer { elapsed: 0, period: 1_500_000_000 },
                            rest: true,
                        },
                    ),
                    speed: GHOST_SPEED,
                },
            },
            GhostEntity {
                position: Vec2 { x: 32768000, y: 0 },
                component: GhostComponent {
                    attack_behavior: AttackBehaviorType::ShyPursuit,
                    speed: GHOST_SPEED,
                },
            },
            GhostEntity {
                position: Vec2 { x: 0, y: 32768000 },
                component: GhostComponent {
                    attack_behavior: AttackBehaviorType::UpandDown(
                        UpandDownWithBreakData {
                            timer: RepeatingTimer { elapsed: 0, period: OSCILLATION_PERIOD },
                            y_velocity: 131072,
                        },
                    ),
                    speed: GHOST_SPEED,
                },
            },
            GhostEntity {
                position: Vec2 { x: 0, y: 32768000 },
                component: GhostComponent {
                    attack_behavior: AttackBehaviorType::CirclePursuit(
                        CirclePursuitData {
                            angle: 0,
                            base_radius: 13107200,
                            radius_delta: 3276800,
                            angle_rad_mod: 196608,
                            x_angle_func: x_wave,
                            y_angle_func: y_wave,
                            rad_angle_func: radius_wave,
                        },
                    ),
                    speed: GHOST_SPEED,
                },
            },
        ],
{
    let mut ghosts: Vec<GhostEntity<W>> = Vec::new();
    ghosts.push(
        GhostEntity::new(
            Vec2::new(32768000, 0),
            AttackBehaviorType::DirectPursuitWithBreak(
                DirectPursuitWithBreakData::new(1_500_000_000),
            ),
            GHOST_SPEED,
        ),
    );
    ghosts.push(
        GhostEntity::new(Vec2::new(32768000, 0), AttackBehaviorType::ShyPursuit, GHOST_SPEED),
    );
    ghosts.push(
        GhostEntity::new(
            Vec2::new(0, 32768000),
            AttackBehaviorType::UpandDown(UpandDownWithBreakData::new(131072)),
            GHOST_SPEED,
        ),
    );
    ghosts.push(
        GhostEntity::new(
            Vec2::new(0, 32768000),
            AttackBehaviorType::CirclePursuit(
                CirclePursuitData::new(0, 13107200, 3276800, 196608, x_wave, y_wave, radius_wave),
            ),
            GHOST_SPEED,
        ),
    );
    ghosts
}

} // verus!
