//! Motion round the player on a path shaped by three waveforms.

use crate::fixed::{fixed_add, fixed_mul, fixed_product, saturated, NANOS_PER_SECOND, ONE};
use crate::vector::Vec2;
use vstd::prelude::*;

verus! {

/// A full turn, in fixed-point radians.
pub const TWO_PI: i32 = 411775;

/// The angle gained in a second, in fixed-point radians: 3.0.
pub const BASE_ANGULAR_SPEED: i32 = 3 * ONE;

/// The state of a ghost that circles the player. The three waveforms are
/// functions from a fixed-point angle in radians to a fixed-point factor.
#[derive(Clone)]
pub struct CirclePursuitData<W> {
    /// Where round the player the ghost is.
    pub angle: i32,
    /// The radius about which the path swings.
    pub base_radius: i32,
    /// How far the radius swings to either side of the base radius.
    pub radius_delta: i32,
    /// The factor on the angle that is handed to the radius waveform.
    pub angle_rad_mod: i32,
    /// The waveform of the horizontal coordinate.
    pub x_angle_func: W,
    /// The waveform of the vertical coordinate.
    pub y_angle_func: W,
    /// The waveform of the radius.
    pub rad_angle_func: W,
}

/// The angle gained in `dt` nanoseconds, rounded down.
pub open spec fn angle_increment(dt: u64) -> int {
    (BASE_ANGULAR_SPEED * dt) / (NANOS_PER_SECOND as int)
}

/// The angle `dt` nanoseconds later, wrapped into a full turn.
pub open spec fn advanced_angle(angle: int, dt: u64) -> int {
    (angle + angle_increment(dt)) % (TWO_PI as int)
}

/// The angle that the radius waveform is asked at.
pub open spec fn radius_argument(angle: int, multiplier: int) -> int {
    saturated(fixed_product(angle, multiplier))
}

/// The radius of the path where the radius waveform gives `wave`.
pub open spec fn orbit_radius(base: int, wave: int, amplitude: int) -> int {
    saturated(base + saturated(fixed_product(wave, amplitude)))
}

/// One coordinate on the path: the centre's, and `wave` times the radius.
pub open spec fn orbit_coordinate(center: int, wave: int, radius: int) -> int {
    saturated(center + saturated(fixed_product(wave, radius)))
}

/// The point on the path round `player` where the three waveforms give
/// `wave_r` for the radius and `wave_x`, `wave_y` for the coordinates.
pub open spec fn orbit_point(
    player: Vec2,
    base: int,
    amplitude: int,
    wave_r: int,
    wave_x: int,
    wave_y: int,
) -> Vec2 {
    Vec2 {
        x: orbit_coordinate(player.x as int, wave_x, orbit_radius(base, wave_r, amplitude)) as i32,
        y: orbit_coordinate(player.y as int, wave_y, orbit_radius(base, wave_r, amplitude)) as i32,
    }
}

/// The angle `dt` nanoseconds after `angle`.
pub fn advance_angle(angle: i32, dt: u64) -> (next: i32)
    ensures
        next == advanced_angle(angle as int, dt),
        0 <= next < TWO_PI,
{
    let gained: u128 = (BASE_ANGULAR_SPEED as u128 * dt as u128) / (NANOS_PER_SECOND as u128);
    let sum: i128 = angle as i128 + gained as i128;
    let turn: i128 = TWO_PI as i128;
    // The remainder that is never negative.
    let wrapped: i128 = if sum >= 0 {
        sum % turn
    } else if (-sum) % turn == 0 {
        0
    } else {
        turn - (-sum) % turn
    };
    wrapped as i32
}

/// The point on the path round `player` for the given values of the three
/// waveforms.
pub fn orbit_position(
    player: &Vec2,
    base_radius: i32,
    radius_delta: i32,
    wave_r: i32,
    wave_x: i32,
    wave_y: i32,
) -> (point: Vec2)
    ensures
        point == orbit_point(
            *player,
            base_radius as int,
            radius_delta as int,
            wave_r as int,
            wave_x as int,
            wave_y as int,
        ),
{
    let radius = fixed_add(base_radius, fixed_mul(wave_r, radius_delta));
    Vec2 {
        x: fixed_add(player.x, fixed_mul(wave_x, radius)),
        y: fixed_add(player.y, fixed_mul(wave_y, radius)),
    }
}

impl<W: Fn(i32) -> i32> CirclePursuitData<W> {
    /// The angle lies within a full turn.
    pub open spec fn wf(&self) -> bool {
        0 <= self.angle < TWO_PI
    }

    /// Each of the three waveforms can be asked at every angle.
    pub open spec fn callable(&self) -> bool {
        &&& forall|a: i32| call_requires(self.x_angle_func, (a,))
        &&& forall|a: i32| call_requires(self.y_angle_func, (a,))
        &&& forall|a: i32| call_requires(self.rad_angle_func, (a,))
    }

    /// `placed` is a point that this state puts a ghost at round `player`:
    /// the point of the path for values that the three waveforms can give
    /// at this state's angle.
    pub open spec fn places(&self, player: Vec2, placed: Vec2) -> bool {
        exists|wave_r: i32, wave_x: i32, wave_y: i32|
            {
                &&& #[trigger] call_ensures(
                    self.rad_angle_func,
                    (radius_argument(self.angle as int, self.angle_rad_mod as int) as i32,),
                    wave_r,
                )
                &&& #[trigger] call_ensures(self.x_angle_func, (self.angle,), wave_x)
                &&& #[trigger] call_ensures(self.y_angle_func, (self.angle,), wave_y)
                &&& placed == orbit_point(
                    player,
                    self.base_radius as int,
                    self.radius_delta as int,
                    wave_r as int,
                    wave_x as int,
                    wave_y as int,
                )
            }
    }

    /// This state `dt` nanoseconds later: the angle has advanced, and
    /// nothing else has changed.
    pub open spec fn after(self, dt: u64) -> Self {
        CirclePursuitData { angle: advanced_angle(self.angle as int, dt) as i32, ..self }
    }

    /// A state at angle `a` with base radius `br`, radius swing `rd`, angle
    /// factor `arm` and the waveforms `xaf`, `yaf` and `raf`.
    pub fn new(a: i32, br: i32, rd: i32, arm: i32, xaf: W, yaf: W, raf: W) -> (data: Self)
        ensures
            data == (CirclePursuitData {
                angle: a,
                base_radius: br,
                radius_delta: rd,
                angle_rad_mod: arm,
                x_angle_func: xaf,
                y_angle_func: yaf,
                rad_angle_func: raf,
            }),
            0 <= a < TWO_PI ==> data.wf(),
    {
        CirclePursuitData {
            angle: a,
            base_radius: br,
            radius_delta: rd,
            angle_rad_mod: arm,
            x_angle_func: xaf,
            y_angle_func: yaf,
            rad_angle_func: raf,
        }
    }

    /// Advances the angle by `dt` nanoseconds at the base angular speed and
    /// wraps it into a full turn.
    pub fn update_angle(&mut self, dt: u64)
        ensures
            *final(self) == old(self).after(dt),
            final(self).wf(),
    {
        self.angle = advance_angle(self.angle, dt);
    }

    /// Puts `gt` on the path round `pt`, at this state's angle.
    pub fn update_transform(&self, pt: &Vec2, gt: &mut Vec2)
        requires
            self.callable(),
        ensures
            self.places(*pt, *final(gt)),
    {
        let wave_r = (self.rad_angle_func)(fixed_mul(self.angle, self.angle_rad_mod));
        let wave_x = (self.x_angle_func)(self.angle);
        let wave_y = (self.y_angle_func)(self.angle);
        *gt = orbit_position(pt, self.base_radius, self.radius_delta, wave_r, wave_x, wave_y);
        proof {
            // The radius waveform was asked at the angle that `places` names.
            let asked = radius_argument(self.angle as int, self.angle_rad_mod as int) as i32;
            assert(call_ensures(self.rad_angle_func, (asked,), wave_r));
        }
    }
}

} // verus!
