//! What holds of the behaviours, over one frame and over many.

use crate::fixed::{floor_sqrt, lemma_floor_sqrt_exists, saturated};
use crate::ghost::{
    pursuit_position, shy_position, DirectPursuitWithBreakData, GhostEntity,
    UpandDownWithBreakData, SHY_FAR_SQ, SHY_NEAR_SQ,
};
use crate::orbit::{advanced_angle, angle_increment, TWO_PI};
use crate::timer::{lemma_short_tick_completes_once, RepeatingTimer};
use crate::vector::{
    distance_sq, lemma_component_size_bounds, lemma_coordinate_left,
    lemma_scaled_direction_length, lemma_scaled_direction_on_axis,
    lemma_scaled_direction_reversed, lemma_step_toward_closes_in, lemma_step_within_distance,
    magnitude, norm_sq, scaled_direction, step_toward, twice_least, Vec2,
};
use vstd::arithmetic::div_mod::lemma_small_mod;
use vstd::prelude::*;

verus! {

/// A frame keeps the state of every behaviour in order, and brings the
/// angle of a circling ghost into a full turn wherever it was.
pub proof fn lemma_frame_keeps_order<W: Fn(i32) -> i32>(
    before: GhostEntity<W>,
    player: Vec2,
    delta: u64,
    after: GhostEntity<W>,
)
    requires
        before.advances_to(player, delta, after),
    ensures
        before.wf() ==> after.wf(),
        after.component.attack_behavior is CirclePursuit ==> after.wf(),
{
}

/// One frame of a ghost in straight pursuit, whatever the length of the
/// frame: speed and behaviour are kept, and the ghost takes the step of its
/// speed toward the player. At any speed above zero it ends strictly nearer
/// to a player who was at least half its step and half a unit of the last
/// place away; where the player was no nearer than its step, it is moved by
/// exactly the step, and the way is shorter by its speed, within the
/// rounding.
pub proof fn lemma_frame_of_direct_pursuit<W: Fn(i32) -> i32>(
    before: GhostEntity<W>,
    player: Vec2,
    delta: u64,
    after: GhostEntity<W>,
)
    requires
        before.advances_to(player, delta, after),
        before.component.attack_behavior is DirectPursuit,
    ensures
        after.component.speed == before.component.speed,
        after.component.attack_behavior is DirectPursuit,
        after.position == pursuit_position(
            before.position,
            player,
            before.component.speed as int,
        ),
        ({
            let speed = before.component.speed as int;
            let way = distance_sq(before.position, player);
            let (x, y) = step_toward(before.position, player, speed);
            &&& 1 <= speed && (speed + 1) * (speed + 1) <= 4 * way ==> distance_sq(
                after.position,
                player,
            ) < way
            &&& 0 <= speed && speed * speed <= way ==> after.position.x == before.position.x + x
                && after.position.y == before.position.y + y
            &&& 0 <= speed <= floor_sqrt(way as nat) ==> {
                let whole = floor_sqrt(way as nat) as int;
                let left_x = magnitude(player.x - after.position.x);
                let left_y = magnitude(player.y - after.position.y);
                &&& 4 * ((whole - speed) * (whole - speed)) <= norm_sq(
                    2 * left_x + 1,
                    2 * left_y + 1,
                )
                &&& norm_sq(twice_least(left_x), twice_least(left_y)) < 4 * ((whole + 1 - speed)
                    * (whole + 1 - speed))
            }
        }),
{
    let speed = before.component.speed as int;
    let way = distance_sq(before.position, player);
    if 1 <= speed && (speed + 1) * (speed + 1) <= 4 * way {
        lemma_pursuit_closes_in(before.position, player, speed);
    }
    if 0 <= speed && speed * speed <= way {
        lemma_pursuit_lands_short(before.position, player, speed);
    }
    if 0 <= speed <= floor_sqrt(way as nat) {
        lemma_pursuit_shortens_the_way(before.position, player, speed);
    }
}

/// One frame of a shy ghost: speed and behaviour are kept; between the two
/// thresholds, ends included, the ghost keeps its place; nearer than the
/// near one it takes the step of a pursuer with each coordinate negated; and
/// farther than the far one it takes the step of a pursuer.
pub proof fn lemma_frame_of_shy_pursuit<W: Fn(i32) -> i32>(
    before: GhostEntity<W>,
    player: Vec2,
    delta: u64,
    after: GhostEntity<W>,
)
    requires
        before.advances_to(player, delta, after),
        before.component.attack_behavior is ShyPursuit,
    ensures
        after.component.speed == before.component.speed,
        after.component.attack_behavior is ShyPursuit,
        ({
            let way = distance_sq(before.position, player);
            let (x, y) = step_toward(before.position, player, before.component.speed as int);
            &&& SHY_NEAR_SQ <= way <= SHY_FAR_SQ ==> after.position == before.position
            &&& way < SHY_NEAR_SQ ==> after.position == before.position.offset(-x, -y)
            &&& way > SHY_FAR_SQ ==> after.position == before.position.offset(x, y)
        }),
{
}

/// One frame of a ghost that moves up and down, with a velocity that has a
/// negative in range: the velocity changes its sign if the time held by the
/// timer and the frame together reach the period, and not otherwise; it
/// keeps its size; and the ghost loses the new velocity in height, as far
/// as the range of heights goes, and keeps its place from left to right.
pub proof fn lemma_frame_of_up_and_down<W: Fn(i32) -> i32>(
    before: GhostEntity<W>,
    player: Vec2,
    delta: u64,
    after: GhostEntity<W>,
)
    requires
        before.advances_to(player, delta, after),
        before.component.attack_behavior is UpandDown,
        before.component.attack_behavior->UpandDown_0.y_velocity > i32::MIN,
    ensures
        after.component.speed == before.component.speed,
        after.component.attack_behavior is UpandDown,
        ({
            let data = before.component.attack_behavior->UpandDown_0;
            let next = after.component.attack_behavior->UpandDown_0;
            &&& next.timer == data.timer.after(delta)
            &&& next.y_velocity == if data.timer.completes(delta) {
                -data.y_velocity
            } else {
                data.y_velocity as int
            }
            &&& magnitude(next.y_velocity as int) == magnitude(data.y_velocity as int)
            &&& after.position.x == before.position.x
            &&& after.position.y == saturated(before.position.y - next.y_velocity)
        }),
{
}

/// One frame of a ghost that chases and rests: the ghost changes between
/// the two if the time held by the timer and the frame together reach the
/// period, and not otherwise; at rest it keeps its place exactly; and
/// otherwise it takes the step of a pursuer.
pub proof fn lemma_frame_of_break<W: Fn(i32) -> i32>(
    before: GhostEntity<W>,
    player: Vec2,
    delta: u64,
    after: GhostEntity<W>,
)
    requires
        before.advances_to(player, delta, after),
        before.component.attack_behavior is DirectPursuitWithBreak,
    ensures
        after.component.speed == before.component.speed,
        after.component.attack_behavior is DirectPursuitWithBreak,
        ({
            let data = before.component.attack_behavior->DirectPursuitWithBreak_0;
            let next = after.component.attack_behavior->DirectPursuitWithBreak_0;
            &&& next.timer == data.timer.after(delta)
            &&& next.rest == if data.timer.completes(delta) {
                !data.rest
            } else {
                data.rest
            }
            &&& next.rest ==> after.position == before.position
            &&& !next.rest ==> after.position == pursuit_position(
                before.position,
                player,
                before.component.speed as int,
            )
        }),
{
}

/// One frame of a ghost that circles the player: speed and behaviour are
/// kept, the angle has advanced by the frame and lies within a full turn,
/// and the ghost stands on its path round the player at that angle.
pub proof fn lemma_frame_of_circle_pursuit<W: Fn(i32) -> i32>(
    before: GhostEntity<W>,
    player: Vec2,
    delta: u64,
    after: GhostEntity<W>,
)
    requires
        before.advances_to(player, delta, after),
        before.component.attack_behavior is CirclePursuit,
    ensures
        after.component.speed == before.component.speed,
        after.component.attack_behavior is CirclePursuit,
        ({
            let data = before.component.attack_behavior->CirclePursuit_0;
            let next = after.component.attack_behavior->CirclePursuit_0;
            &&& next == data.after(delta)
            &&& next.angle == advanced_angle(data.angle as int, delta)
            &&& 0 <= next.angle < TWO_PI
            &&& next.places(player, after.position)
        }),
{
}

/// A ghost in straight pursuit, at any speed above zero, ends a frame
/// strictly nearer to a player who was at least half its step and half a
/// unit of the last place away: `(speed + 1)^2 <= 4 * distance^2`.
pub proof fn lemma_pursuit_closes_in(position: Vec2, player: Vec2, speed: int)
    requires
        1 <= speed,
        (speed + 1) * (speed + 1) <= 4 * distance_sq(position, player),
    ensures
        distance_sq(pursuit_position(position, player, speed), player) < distance_sq(
            position,
            player,
        ),
{
    lemma_step_toward_closes_in(position, player, speed);
}

/// The step of a ghost in straight pursuit toward a player who stands
/// elsewhere is the exact step of length `speed` with each coordinate
/// rounded to the nearest unit of the last place: in doubled units, the
/// squares of the least values that are rounded to its coordinates sum to no
/// more than `(2 * speed)^2`, and those of the greatest to more. Inside the
/// range of positions the ghost is moved by that step.
pub proof fn lemma_pursuit_step_length(position: Vec2, player: Vec2, speed: int)
    requires
        position != player,
    ensures
        ({
            let (x, y) = step_toward(position, player, speed);
            &&& norm_sq(twice_least(magnitude(x)), twice_least(magnitude(y))) <= 4 * (speed
                * speed)
            &&& 4 * (speed * speed) < norm_sq(2 * magnitude(x) + 1, 2 * magnitude(y) + 1)
            &&& i32::MIN <= position.x + x <= i32::MAX && i32::MIN <= position.y + y <= i32::MAX
                ==> pursuit_position(position, player, speed).x == position.x + x
                && pursuit_position(position, player, speed).y == position.y + y
        }),
{
    let dx = player.x - position.x;
    let dy = player.y - position.y;
    assert(norm_sq(dx, dy) > 0) by (nonlinear_arith)
        requires
            dx != 0 || dy != 0,
    ;
    lemma_scaled_direction_length(dx, dy, speed);
}

/// A ghost in straight pursuit of a player who is no nearer than its step
/// is moved by exactly its step, wherever in the range it stands, and does
/// not pass the player along either coordinate: what is left of the way is
/// the way less the step.
pub proof fn lemma_pursuit_lands_short(position: Vec2, player: Vec2, speed: int)
    requires
        0 <= speed,
        speed * speed <= distance_sq(position, player),
    ensures
        ({
            let (x, y) = step_toward(position, player, speed);
            let moved = pursuit_position(position, player, speed);
            &&& moved.x == position.x + x
            &&& moved.y == position.y + y
            &&& magnitude(player.x - moved.x) == magnitude(player.x - position.x) - magnitude(x)
            &&& magnitude(player.y - moved.y) == magnitude(player.y - position.y) - magnitude(y)
        }),
{
    lemma_step_within_distance(player.x - position.x, player.y - position.y, speed);
}

/// A ghost in straight pursuit of a player who is no nearer than its step
/// shortens the way by its speed, within the rounding. With `way` the whole
/// units of the way before the step: what is left of the way, each
/// coordinate taken half a unit longer, is no shorter than `way - speed`,
/// and, each coordinate taken half a unit shorter, it is shorter than
/// `way + 1 - speed`.
pub proof fn lemma_pursuit_shortens_the_way(position: Vec2, player: Vec2, speed: int)
    requires
        0 <= speed <= floor_sqrt(distance_sq(position, player) as nat),
    ensures
        ({
            let way = floor_sqrt(distance_sq(position, player) as nat) as int;
            let moved = pursuit_position(position, player, speed);
            let left_x = magnitude(player.x - moved.x);
            let left_y = magnitude(player.y - moved.y);
            &&& 4 * ((way - speed) * (way - speed)) <= norm_sq(2 * left_x + 1, 2 * left_y + 1)
            &&& norm_sq(twice_least(left_x), twice_least(left_y)) < 4 * ((way + 1 - speed) * (way
                + 1 - speed))
        }),
{
    let dx = player.x - position.x;
    let dy = player.y - position.y;
    let a = magnitude(dx);
    let b = magnitude(dy);
    let n2 = distance_sq(position, player);
    assert(n2 >= 0 && n2 == a * a + b * b) by (nonlinear_arith)
        requires
            n2 == dx * dx + dy * dy,
            a == dx || a == -dx,
            b == dy || b == -dy,
    ;
    let way = floor_sqrt(n2 as nat) as int;
    lemma_floor_sqrt_exists(n2 as nat);
    assert(speed * speed <= n2) by (nonlinear_arith)
        requires
            0 <= speed <= way,
            way * way <= n2,
    ;
    lemma_pursuit_lands_short(position, player, speed);
    let (x, y) = step_toward(position, player, speed);
    let mx = magnitude(x);
    let my = magnitude(y);
    let left_x = a - mx;
    let left_y = b - my;
    let low = way - speed;
    let high = way + 1 - speed;
    if n2 == 0 {
        assert(a == 0 && b == 0) by (nonlinear_arith)
            requires
                a * a + b * b == 0,
        ;
        assert(low * low == 0 && high * high == 1) by (nonlinear_arith)
            requires
                way * way <= 0,
                0 <= way,
                0 <= speed <= way,
                low == way - speed,
                high == way + 1 - speed,
        ;
    } else {
        lemma_component_size_bounds(dx, speed, n2);
        lemma_component_size_bounds(dy, speed, n2);
        assert(a * a == dx * dx && b * b == dy * dy) by (nonlinear_arith)
            requires
                a == dx || a == -dx,
                b == dy || b == -dy,
        ;
        lemma_coordinate_left(a, mx, speed, n2, way);
        lemma_coordinate_left(b, my, speed, n2, way);
        let tx = 2 * left_x + 1;
        let ty = 2 * left_y + 1;
        let vx = twice_least(left_x);
        let vy = twice_least(left_y);
        let top = way + 1;
        assert(4 * (low * low) <= tx * tx + ty * ty) by (nonlinear_arith)
            requires
                4 * (a * a) * (low * low) <= tx * tx * n2,
                4 * (b * b) * (low * low) <= ty * ty * n2,
                n2 == a * a + b * b,
                n2 > 0,
        ;
        assert(vx * vx + vy * vy < 4 * (high * high)) by (nonlinear_arith)
            requires
                vx * vx * (top * top) <= 4 * (a * a) * (high * high),
                vy * vy * (top * top) <= 4 * (b * b) * (high * high),
                n2 == a * a + b * b,
                0 < n2 < top * top,
                high >= 1,
        {
            assert((vx * vx + vy * vy) * (top * top) <= 4 * n2 * (high * high));
        }
    }
}

/// A ghost in straight pursuit along the horizontal axis is moved by
/// exactly its speed, inside the range of positions: what is left of the
/// way is the way less the speed, and past the player the speed less the
/// way.
pub proof fn lemma_pursuit_on_axis(position: Vec2, player: Vec2, speed: int)
    requires
        0 <= speed,
        position.y == player.y,
        position.x != player.x,
        i32::MIN <= position.x - speed,
        position.x + speed <= i32::MAX,
    ensures
        pursuit_position(position, player, speed).y == position.y,
        magnitude(player.x - pursuit_position(position, player, speed).x) == magnitude(
            magnitude(player.x - position.x) - speed,
        ),
{
    lemma_scaled_direction_on_axis(player.x - position.x, speed);
}

/// A shy ghost whose squared distance to the player lies between the two
/// thresholds, ends included, stays where it is.
pub proof fn lemma_shy_stays_in_band(position: Vec2, player: Vec2, speed: int)
    requires
        SHY_NEAR_SQ <= distance_sq(position, player) <= SHY_FAR_SQ,
    ensures
        shy_position(position, player, speed) == position,
{
}

/// A shy ghost nearer to the player than the near threshold takes the step
/// of a ghost in straight pursuit the other way round: each coordinate of
/// its step is the negative of the pursuer's, which is the step toward the
/// point that mirrors the player in the ghost.
pub proof fn lemma_shy_flees_opposite(position: Vec2, player: Vec2, speed: int)
    requires
        distance_sq(position, player) < SHY_NEAR_SQ,
    ensures
        ({
            let (x, y) = step_toward(position, player, speed);
            &&& shy_position(position, player, speed) == position.offset(-x, -y)
            &&& scaled_direction(position.x - player.x, position.y - player.y, speed) == (-x, -y)
        }),
{
    lemma_scaled_direction_reversed(player.x - position.x, player.y - position.y, speed);
}

/// The angle of a circling ghost after the frames `deltas`, one after
/// another.
pub open spec fn angle_after_frames(angle: int, deltas: Seq<u64>) -> int
    decreases deltas.len(),
{
    if deltas.len() == 0 {
        angle
    } else {
        advanced_angle(angle_after_frames(angle, deltas.drop_last()), deltas.last())
    }
}

/// After any frames at all the angle of a circling ghost lies within a full
/// turn, and without any it still does if it did at the start.
pub proof fn lemma_angle_stays_in_turn(angle: int, deltas: Seq<u64>)
    requires
        deltas.len() > 0 || 0 <= angle < TWO_PI,
    ensures
        0 <= angle_after_frames(angle, deltas) < TWO_PI,
{
}

/// Where a frame gains less than a full turn, on an angle within a full
/// turn, the wrapping takes off one full turn at most.
pub proof fn lemma_angle_wraps_once(angle: int, dt: u64)
    requires
        0 <= angle < TWO_PI,
        angle_increment(dt) < TWO_PI,
    ensures
        advanced_angle(angle, dt) == if angle + angle_increment(dt) >= TWO_PI {
            angle + angle_increment(dt) - TWO_PI
        } else {
            angle + angle_increment(dt)
        },
{
}

/// The velocity of a ghost that moves up and down changes its sign in the
/// frames in which the timer comes round, and in no others; its size never
/// changes.
pub proof fn lemma_up_and_down_turns_with_timer(data: UpandDownWithBreakData, delta: u64)
    requires
        data.y_velocity > i32::MIN,
    ensures
        data.after(delta).y_velocity == if data.timer.completes(delta) {
            -data.y_velocity
        } else {
            data.y_velocity as int
        },
        magnitude(data.after(delta).y_velocity as int) == magnitude(data.y_velocity as int),
        data.after(delta).y_velocity > i32::MIN,
{
}

/// The state and the place of a ghost that chases and rests, after the
/// frames `deltas`, one after another.
pub open spec fn break_after_frames(
    data: DirectPursuitWithBreakData,
    position: Vec2,
    player: Vec2,
    speed: int,
    deltas: Seq<u64>,
) -> (DirectPursuitWithBreakData, Vec2)
    decreases deltas.len(),
{
    if deltas.len() == 0 {
        (data, position)
    } else {
        let (before, place) = break_after_frames(data, position, player, speed, deltas.drop_last());
        (before.after(deltas.last()), before.position_after(place, player, speed, deltas.last()))
    }
}

/// The sum, over those of the frames `deltas` in which the ghost is not
/// resting, of what the frame moved it by.
pub open spec fn active_displacement(
    data: DirectPursuitWithBreakData,
    position: Vec2,
    player: Vec2,
    speed: int,
    deltas: Seq<u64>,
) -> (int, int)
    decreases deltas.len(),
{
    if deltas.len() == 0 {
        (0, 0)
    } else {
        let earlier = active_displacement(data, position, player, speed, deltas.drop_last());
        let (before, place) = break_after_frames(data, position, player, speed, deltas.drop_last());
        if before.after(deltas.last()).rest {
            earlier
        } else {
            (
                earlier.0 + pursuit_position(place, player, speed).x - place.x,
                earlier.1 + pursuit_position(place, player, speed).y - place.y,
            )
        }
    }
}

/// A ghost that chases and rests does not move in a frame in which it
/// rests.
pub proof fn lemma_break_rests_in_place(
    data: DirectPursuitWithBreakData,
    position: Vec2,
    player: Vec2,
    speed: int,
    delta: u64,
)
    requires
        data.after(delta).rest,
    ensures
        data.position_after(position, player, speed, delta) == position,
{
}

/// Over any frames, a ghost that chases and rests is moved by what the
/// frames in which it was not resting moved it by.
pub proof fn lemma_break_moves_only_when_active(
    data: DirectPursuitWithBreakData,
    position: Vec2,
    player: Vec2,
    speed: int,
    deltas: Seq<u64>,
)
    ensures
        ({
            let (_, place) = break_after_frames(data, position, player, speed, deltas);
            let moved = active_displacement(data, position, player, speed, deltas);
            place.x - position.x == moved.0 && place.y - position.y == moved.1
        }),
    decreases deltas.len(),
{
    if deltas.len() > 0 {
        lemma_break_moves_only_when_active(data, position, player, speed, deltas.drop_last());
    }
}

/// A timer after the ticks `deltas`, one after another.
pub open spec fn timer_after_frames(timer: RepeatingTimer, deltas: Seq<u64>) -> RepeatingTimer
    decreases deltas.len(),
{
    if deltas.len() == 0 {
        timer
    } else {
        timer_after_frames(timer, deltas.drop_last()).after(deltas.last())
    }
}

/// In how many of the ticks `deltas` the timer says that its period came
/// round.
pub open spec fn completions_during(timer: RepeatingTimer, deltas: Seq<u64>) -> nat
    decreases deltas.len(),
{
    if deltas.len() == 0 {
        0
    } else if timer_after_frames(timer, deltas.drop_last()).completes(deltas.last()) {
        completions_during(timer, deltas.drop_last()) + 1
    } else {
        completions_during(timer, deltas.drop_last())
    }
}

/// How many times the period of the timer comes round during the ticks
/// `deltas`.
pub open spec fn periods_during(timer: RepeatingTimer, deltas: Seq<u64>) -> int
    decreases deltas.len(),
{
    if deltas.len() == 0 {
        0
    } else {
        periods_during(timer, deltas.drop_last()) + timer_after_frames(
            timer,
            deltas.drop_last(),
        ).periods_within(deltas.last())
    }
}

/// Ticked in steps that are no longer than its period, a timer says that its
/// period came round once for each time that it did.
pub proof fn lemma_one_completion_per_period(timer: RepeatingTimer, deltas: Seq<u64>)
    requires
        timer.wf(),
        0 < timer.period,
        forall|i: int| 0 <= i < deltas.len() ==> deltas[i] <= timer.period,
    ensures
        timer_after_frames(timer, deltas).wf(),
        timer_after_frames(timer, deltas).period == timer.period,
        completions_during(timer, deltas) == periods_during(timer, deltas),
    decreases deltas.len(),
{
    if deltas.len() > 0 {
        lemma_one_completion_per_period(timer, deltas.drop_last());
        let before = timer_after_frames(timer, deltas.drop_last());
        lemma_short_tick_completes_once(before, deltas.last());
    }
}

/// The state and the place of a ghost that moves up and down, after the
/// frames `deltas`, one after another.
pub open spec fn up_and_down_after_frames(
    data: UpandDownWithBreakData,
    position: Vec2,
    deltas: Seq<u64>,
) -> (UpandDownWithBreakData, Vec2)
    decreases deltas.len(),
{
    if deltas.len() == 0 {
        (data, position)
    } else {
        let (before, place) = up_and_down_after_frames(data, position, deltas.drop_last());
        (before.after(deltas.last()), before.position_after(place, deltas.last()))
    }
}

/// After any frames, a ghost that moves up and down has the velocity with
/// which it began if its timer has come round an even number of times, and
/// the opposite velocity if an odd number of times.
pub proof fn lemma_up_and_down_alternates(
    data: UpandDownWithBreakData,
    position: Vec2,
    deltas: Seq<u64>,
)
    requires
        data.y_velocity > i32::MIN,
    ensures
        ({
            let (state, _) = up_and_down_after_frames(data, position, deltas);
            &&& state.timer == timer_after_frames(data.timer, deltas)
            &&& state.y_velocity == if completions_during(data.timer, deltas) % 2 == 0 {
                data.y_velocity as int
            } else {
                -data.y_velocity
            }
        }),
    decreases deltas.len(),
{
    if deltas.len() > 0 {
        lemma_up_and_down_alternates(data, position, deltas.drop_last());
    }
}

/// After any frames, a ghost that chases and rests is at rest, as it was to
/// begin with, if its timer has come round an even number of times, and in
/// the other state if an odd number of times.
pub proof fn lemma_break_alternates(
    data: DirectPursuitWithBreakData,
    position: Vec2,
    player: Vec2,
    speed: int,
    deltas: Seq<u64>,
)
    ensures
        ({
            let (state, _) = break_after_frames(data, position, player, speed, deltas);
            &&& state.timer == timer_after_frames(data.timer, deltas)
            &&& state.rest == if completions_during(data.timer, deltas) % 2 == 0 {
                data.rest
            } else {
                !data.rest
            }
        }),
    decreases deltas.len(),
{
    if deltas.len() > 0 {
        lemma_break_alternates(data, position, player, speed, deltas.drop_last());
    }
}

/// Frames played one after another: the frames `first + then` are the
/// frames `first` and then the frames `then`.
pub proof fn lemma_up_and_down_frames_compose(
    data: UpandDownWithBreakData,
    position: Vec2,
    first: Seq<u64>,
    then: Seq<u64>,
)
    ensures
        ({
            let (middle, place) = up_and_down_after_frames(data, position, first);
            up_and_down_after_frames(data, position, first + then) == up_and_down_after_frames(
                middle,
                place,
                then,
            )
        }),
    decreases then.len(),
{
    if then.len() == 0 {
    } else {
        lemma_up_and_down_frames_compose(data, position, first, then.drop_last());
        assert((first + then).drop_last() =~= first + then.drop_last());
    }
}

/// `frames` frames of `delta` nanoseconds each.
pub open spec fn equal_frames(delta: u64, frames: nat) -> Seq<u64> {
    Seq::new(frames, |i: int| delta)
}

/// A value between two values of the range lies in the range: `y - k * v`
/// for `k` from zero to `last`.
proof fn lemma_height_in_range(y: int, v: int, k: int, last: int)
    requires
        0 <= k <= last,
        i32::MIN <= y <= i32::MAX,
        i32::MIN <= y - last * v <= i32::MAX,
    ensures
        i32::MIN <= y - k * v <= i32::MAX,
{
    assert(i32::MIN <= y - k * v <= i32::MAX) by (nonlinear_arith)
        requires
            0 <= k <= last,
            i32::MIN <= y <= i32::MAX,
            i32::MIN <= y - last * v <= i32::MAX,
    ;
}

/// Before the timer first comes round, a ghost that moves up and down
/// loses its velocity in height with every frame.
proof fn lemma_up_and_down_before_turn(
    data: UpandDownWithBreakData,
    position: Vec2,
    delta: u64,
    per_period: nat,
    frames: nat,
)
    requires
        data.timer.elapsed == 0,
        data.timer.period == per_period * delta,
        0 < delta,
        frames < per_period,
        i32::MIN <= position.y - (per_period - 1) * data.y_velocity <= i32::MAX,
    ensures
        up_and_down_after_frames(data, position, equal_frames(delta, frames)) == (
            UpandDownWithBreakData {
                timer: RepeatingTimer {
                    elapsed: (frames * delta) as u64,
                    period: data.timer.period,
                },
                y_velocity: data.y_velocity,
            },
            Vec2 { x: position.x, y: (position.y - frames * data.y_velocity) as i32 },
        ),
        frames * delta < data.timer.period,
        i32::MIN <= position.y - frames * data.y_velocity <= i32::MAX,
    decreases frames,
{
    let v = data.y_velocity as int;
    let period = data.timer.period as int;
    lemma_height_in_range(position.y as int, v, frames as int, per_period - 1);
    assert(frames * delta < per_period * delta) by (nonlinear_arith)
        requires
            frames < per_period,
            0 < delta,
    ;
    if frames == 0 {
        assert(frames * delta == 0) by (nonlinear_arith)
            requires
                frames == 0,
        ;
        assert(frames * v == 0) by (nonlinear_arith)
            requires
                frames == 0,
        ;
    } else {
        let earlier = (frames - 1) as nat;
        lemma_up_and_down_before_turn(data, position, delta, per_period, earlier);
        assert(equal_frames(delta, frames).drop_last() =~= equal_frames(delta, earlier));
        assert(earlier * delta + delta == frames * delta) by (nonlinear_arith)
            requires
                earlier + 1 == frames,
        ;
        assert(earlier * v + v == frames * v) by (nonlinear_arith)
            requires
                earlier + 1 == frames,
        ;
        lemma_small_mod((frames * delta) as nat, period as nat);
    }
}

/// From one turn to the next: a ghost that moves up and down, whose timer
/// has just come round and comes round every `per_period` frames, has after
/// that many frames the opposite velocity, a timer that has just come round
/// again, and a height less by `per_period - 2` times its old velocity.
proof fn lemma_up_and_down_half_cycle(
    data: UpandDownWithBreakData,
    position: Vec2,
    delta: u64,
    per_period: nat,
)
    requires
        data.timer.elapsed == 0,
        data.timer.period == per_period * delta,
        0 < delta,
        1 <= per_period,
        i32::MIN < data.y_velocity,
        i32::MIN <= position.y - (per_period - 1) * data.y_velocity <= i32::MAX,
        i32::MIN <= position.y + data.y_velocity <= i32::MAX,
    ensures
        i32::MIN <= position.y - (per_period - 2) * data.y_velocity <= i32::MAX,
        up_and_down_after_frames(data, position, equal_frames(delta, per_period)) == (
            UpandDownWithBreakData { timer: data.timer, y_velocity: (-data.y_velocity) as i32 },
            Vec2 {
                x: position.x,
                y: (position.y - (per_period - 2) * data.y_velocity) as i32,
            },
        ),
{
    let v = data.y_velocity as int;
    let period = data.timer.period as int;
    let earlier = (per_period - 1) as nat;
    lemma_up_and_down_before_turn(data, position, delta, per_period, earlier);
    assert(equal_frames(delta, per_period).drop_last() =~= equal_frames(delta, earlier));
    assert(earlier * delta + delta == per_period * delta) by (nonlinear_arith)
        requires
            earlier + 1 == per_period,
    ;
    assert((per_period - 2) * v == earlier * v - v) by (nonlinear_arith)
        requires
            earlier == per_period - 1,
    ;
}

/// A ghost that moves up and down in frames of equal length, of which a
/// whole number make up its period, is after two periods where it began, in
/// the state in which it began: what it lost in height before each turn it
/// has gained after it. This holds where the ghost does not reach the end of
/// the range of heights on its way.
pub proof fn lemma_up_and_down_returns(
    data: UpandDownWithBreakData,
    position: Vec2,
    delta: u64,
    per_period: nat,
)
    requires
        data.timer.elapsed == 0,
        data.timer.period == per_period * delta,
        0 < delta,
        1 <= per_period,
        i32::MIN < data.y_velocity,
        i32::MIN <= position.y - (per_period - 1) * data.y_velocity <= i32::MAX,
        i32::MIN <= position.y + data.y_velocity <= i32::MAX,
    ensures
        up_and_down_after_frames(data, position, equal_frames(delta, 2 * per_period)) == (
            data,
            position,
        ),
{
    let v = data.y_velocity as int;
    let half = equal_frames(delta, per_period);
    lemma_up_and_down_half_cycle(data, position, delta, per_period);
    let (turned, low) = up_and_down_after_frames(data, position, half);
    assert(low.y - (per_period - 1) * turned.y_velocity == position.y + v) by (nonlinear_arith)
        requires
            low.y == position.y - (per_period - 2) * v,
            turned.y_velocity == -v,
    ;
    assert(low.y - (per_period - 2) * turned.y_velocity == position.y) by (nonlinear_arith)
        requires
            low.y == position.y - (per_period - 2) * v,
            turned.y_velocity == -v,
    ;
    lemma_up_and_down_half_cycle(turned, low, delta, per_period);
    lemma_up_and_down_frames_compose(data, position, half, half);
    assert(half + half =~= equal_frames(delta, 2 * per_period));
}

} // verus!
