//! Points of the plane and the step of a given length toward a target.

use crate::fixed::{
    floor_sqrt, isqrt, lemma_floor_sqrt_exists, lemma_floor_sqrt_monotonic,
    lemma_floor_sqrt_of_square, saturate, saturated,
};
use vstd::arithmetic::div_mod::lemma_fundamental_div_mod;
use vstd::prelude::*;

verus! {

/// A point of the plane, in fixed-point coordinates.
#[derive(Clone, Copy, Debug, PartialEq, Eq, Structural)]
pub struct Vec2 {
    pub x: i32,
    pub y: i32,
}

/// The absolute value of `v`.
pub open spec fn magnitude(v: int) -> int {
    if v < 0 {
        -v
    } else {
        v
    }
}

/// The squared length of the vector `(dx, dy)`.
pub open spec fn norm_sq(dx: int, dy: int) -> int {
    dx * dx + dy * dy
}

/// The squared distance between two points.
pub open spec fn distance_sq(a: Vec2, b: Vec2) -> int {
    norm_sq(b.x - a.x, b.y - a.y)
}

/// The size of one coordinate of the vector of length `|speed|` along a
/// direction of squared length `n2`, of which `c` is the same coordinate:
/// `|c| * |speed| / sqrt(n2)`, rounded to the nearest whole number, and upward
/// from a half: twice that value is cut to a whole number, one is added, and
/// the sum is halved.
pub open spec fn component_size(c: int, speed: int, n2: int) -> nat {
    ((floor_sqrt(((4 * ((c * c) * (speed * speed))) / n2) as nat) + 1) / 2) as nat
}

/// One coordinate of the vector of length `|speed|` along a direction of
/// squared length `n2`, of which `c` is the same coordinate: the exact value
/// `c * speed / sqrt(n2)`, rounded to the nearest whole number, and away from
/// zero from a half.
pub open spec fn scaled_component(c: int, speed: int, n2: int) -> int {
    if n2 <= 0 {
        0
    } else if (c < 0) != (speed < 0) {
        -(component_size(c, speed, n2) as int)
    } else {
        component_size(c, speed, n2) as int
    }
}

/// Twice a size less one, and nothing for the size nothing: twice the least
/// value that is rounded to the size `m`.
pub open spec fn twice_least(m: int) -> int {
    if m <= 0 {
        0
    } else {
        2 * m - 1
    }
}

/// The direction `(dx, dy)` brought to the length `|speed|`, each coordinate
/// rounded to the nearest whole number; the zero vector where the direction
/// is zero. A negative speed turns the vector round.
pub open spec fn scaled_direction(dx: int, dy: int, speed: int) -> (int, int) {
    (
        scaled_component(dx, speed, norm_sq(dx, dy)),
        scaled_component(dy, speed, norm_sq(dx, dy)),
    )
}

/// The step of length `|speed|` from `from` toward `to`.
pub open spec fn step_toward(from: Vec2, to: Vec2, speed: int) -> (int, int) {
    scaled_direction(to.x - from.x, to.y - from.y, speed)
}

impl Vec2 {
    /// The point `(x, y)`.
    pub fn new(x: i32, y: i32) -> (point: Self)
        ensures
            point == (Vec2 { x, y }),
    {
        Vec2 { x, y }
    }

    /// This point moved by `(dx, dy)`, each coordinate saturating at the
    /// ends of the range.
    pub open spec fn offset(self, dx: int, dy: int) -> Vec2 {
        Vec2 { x: saturated(self.x + dx) as i32, y: saturated(self.y + dy) as i32 }
    }

    /// This point moved by `(dx, dy)`.
    pub fn moved_by(&self, dx: i64, dy: i64) -> (moved: Vec2)
        ensures
            moved == self.offset(dx as int, dy as int),
    {
        Vec2 { x: saturate(self.x as i128 + dx as i128), y: saturate(self.y as i128 + dy as i128) }
    }

    /// The squared distance from this point to `other`.
    pub fn distance_squared(&self, other: &Vec2) -> (d2: u128)
        ensures
            d2 == distance_sq(*self, *other),
    {
        let dx: i128 = other.x as i128 - self.x as i128;
        let dy: i128 = other.y as i128 - self.y as i128;
        proof {
            lemma_square_bound(dx as int, 0xffff_ffff);
            lemma_square_bound(dy as int, 0xffff_ffff);
        }
        (dx * dx + dy * dy) as u128
    }

    /// The step of length `|speed|` from this point toward `target`.
    pub fn step_toward(&self, target: &Vec2, speed: i32) -> (step: (i64, i64))
        ensures
            step.0 == step_toward(*self, *target, speed as int).0,
            step.1 == step_toward(*self, *target, speed as int).1,
            magnitude(step.0 as int) <= magnitude(speed as int),
            magnitude(step.1 as int) <= magnitude(speed as int),
    {
        scale_direction(target.x as i64 - self.x as i64, target.y as i64 - self.y as i64, speed)
    }
}

/// A number no larger in size than `bound` has a square no larger than
/// that of `bound`.
proof fn lemma_square_bound(v: int, bound: int)
    requires
        -bound <= v <= bound,
    ensures
        0 <= v * v <= bound * bound,
{
    assert(0 <= v * v <= bound * bound) by (nonlinear_arith)
        requires
            -bound <= v <= bound,
    ;
}

/// The size `m` of a coordinate of the scaled direction is within a half of
/// the exact value: `(2m - 1)^2 * n2 <= 4 * c^2 * speed^2 < (2m + 1)^2 * n2`,
/// the lower bound for every size but zero.
pub proof fn lemma_component_size_bounds(c: int, speed: int, n2: int)
    requires
        n2 > 0,
    ensures
        ({
            let m = component_size(c, speed, n2);
            &&& magnitude(scaled_component(c, speed, n2)) == m
            &&& twice_least(m as int) * twice_least(m as int) * n2 <= 4 * ((c * c) * (speed
                * speed))
            &&& 4 * ((c * c) * (speed * speed)) < (2 * m + 1) * (2 * m + 1) * n2
        }),
{
    let t = 4 * ((c * c) * (speed * speed));
    assert(t >= 0) by (nonlinear_arith)
        requires
            t == 4 * ((c * c) * (speed * speed)),
    ;
    let q = t / n2;
    lemma_fundamental_div_mod(t, n2);
    assert(q >= 0 && q * n2 <= t && t < (q + 1) * n2) by (nonlinear_arith)
        requires
            t == n2 * q + t % n2,
            0 <= t % n2 < n2,
            t >= 0,
            n2 > 0,
    ;
    let r = floor_sqrt(q as nat);
    lemma_floor_sqrt_exists(q as nat);
    let m = component_size(c, speed, n2);
    let low = twice_least(m as int);
    let high = 2 * m + 1;
    assert(low * low * n2 <= t) by (nonlinear_arith)
        requires
            0 <= low <= r,
            r * r <= q,
            q * n2 <= t,
            n2 > 0,
    ;
    assert(t < high * high * n2) by (nonlinear_arith)
        requires
            0 <= r + 1 <= high,
            q + 1 <= (r + 1) * (r + 1),
            t < (q + 1) * n2,
            n2 > 0,
    ;
}

/// Along a coordinate that is zero, or at speed zero, nothing moves.
pub proof fn lemma_component_size_zero(c: int, speed: int, n2: int)
    requires
        n2 > 0,
        c == 0 || speed == 0,
    ensures
        component_size(c, speed, n2) == 0,
        scaled_component(c, speed, n2) == 0,
{
    lemma_floor_sqrt_of_square(0);
}

/// The absolute value of `v`.
pub fn absolute(v: i64) -> (size: u128)
    ensures
        size == magnitude(v as int),
{
    if v < 0 {
        (-(v as i128)) as u128
    } else {
        v as u128
    }
}

/// The direction `(dx, dy)` brought to the length `|speed|`. The direction is
/// the difference of two points, or smaller: wider ones have squares that no
/// machine integer holds.
pub fn scale_direction(dx: i64, dy: i64, speed: i32) -> (step: (i64, i64))
    requires
        -0xffff_ffff <= dx <= 0xffff_ffff,
        -0xffff_ffff <= dy <= 0xffff_ffff,
    ensures
        step.0 == scaled_direction(dx as int, dy as int, speed as int).0,
        step.1 == scaled_direction(dx as int, dy as int, speed as int).1,
        magnitude(step.0 as int) <= magnitude(speed as int),
        magnitude(step.1 as int) <= magnitude(speed as int),
{
    let a: u128 = absolute(dx);
    let b: u128 = absolute(dy);
    let s: u128 = absolute(speed as i64);
    proof {
        lemma_square_bound(a as int, 0xffff_ffff);
        lemma_square_bound(b as int, 0xffff_ffff);
    }
    let n2: u128 = a * a + b * b;
    proof {
        assert(a * a == dx * dx) by (nonlinear_arith)
            requires
                a == dx || a == -dx,
        ;
        assert(b * b == dy * dy) by (nonlinear_arith)
            requires
                b == dy || b == -dy,
        ;
    }
    if n2 == 0 {
        return (0, 0);
    }
    let x = scale_component(a, s, n2);
    let y = scale_component(b, s, n2);
    let turned = speed < 0;
    let step_x: i64 = if (dx < 0) != turned { -(x as i64) } else { x as i64 };
    let step_y: i64 = if (dy < 0) != turned { -(y as i64) } else { y as i64 };
    proof {
        assert(s * s == speed * speed) by (nonlinear_arith)
            requires
                s == speed || s == -speed,
        ;
    }
    (step_x, step_y)
}

/// The size of one coordinate of the scaled direction: `c * s / sqrt(n2)`,
/// rounded to the nearest whole number.
fn scale_component(c: u128, s: u128, n2: u128) -> (m: u64)
    requires
        c <= 0xffff_ffff,
        s <= 0x8000_0000,
        0 < n2,
        c * c <= n2,
    ensures
        m == (floor_sqrt(((4 * ((c * c) * (s * s))) / (n2 as int)) as nat) + 1) / 2,
        m <= s,
{
    proof {
        lemma_square_bound(c as int, 0xffff_ffff);
        lemma_square_bound(s as int, 0x8000_0000);
        assert(4 * ((c * c) * (s * s)) <= 4 * ((0xffff_ffffint * 0xffff_ffffint) * (0x8000_0000int
            * 0x8000_0000int))) by (nonlinear_arith)
            requires
                0 <= c * c <= 0xffff_ffffint * 0xffff_ffffint,
                0 <= s * s <= 0x8000_0000int * 0x8000_0000int,
        ;
    }
    let cc: u128 = c * c;
    let ss: u128 = s * s;
    let scaled: u128 = (4 * (cc * ss)) / n2;
    proof {
        assert((4 * (cc * ss)) / (n2 as int) <= 4 * ss) by (nonlinear_arith)
            requires
                0 <= cc <= n2,
                0 < n2,
                0 <= ss,
        ;
        assert(4 * ss == (2 * s) * (2 * s)) by (nonlinear_arith)
            requires
                ss == s * s,
        ;
        lemma_floor_sqrt_monotonic(scaled as nat, (4 * ss) as nat);
        lemma_floor_sqrt_of_square((2 * s) as nat);
    }
    let doubled: u128 = isqrt(scaled) as u128;
    ((doubled + 1) / 2) as u64
}

/// The scaled direction is the exact vector of length `|speed|` along the
/// direction with each coordinate rounded: the exact vector lies within half
/// a unit of it in each coordinate. In doubled units, where the size `m` of a
/// coordinate stands for the values from `2m - 1` up to, but not including,
/// `2m + 1`: the squares of the least values sum to no more than
/// `(2 * speed)^2`, and those of the greatest to more.
pub proof fn lemma_scaled_direction_length(dx: int, dy: int, speed: int)
    requires
        norm_sq(dx, dy) > 0,
    ensures
        ({
            let (x, y) = scaled_direction(dx, dy, speed);
            &&& norm_sq(twice_least(magnitude(x)), twice_least(magnitude(y))) <= 4 * (speed
                * speed)
            &&& 4 * (speed * speed) < norm_sq(2 * magnitude(x) + 1, 2 * magnitude(y) + 1)
        }),
{
    let n2 = norm_sq(dx, dy);
    let (x, y) = scaled_direction(dx, dy, speed);
    let mx = magnitude(x);
    let my = magnitude(y);
    let lx = twice_least(mx);
    let ly = twice_least(my);
    let ss = speed * speed;
    lemma_component_size_bounds(dx, speed, n2);
    lemma_component_size_bounds(dy, speed, n2);
    assert(lx * lx + ly * ly <= 4 * ss) by (nonlinear_arith)
        requires
            lx * lx * n2 <= 4 * ((dx * dx) * ss),
            ly * ly * n2 <= 4 * ((dy * dy) * ss),
            n2 == dx * dx + dy * dy,
            n2 > 0,
    ;
    assert(4 * ss < (2 * mx + 1) * (2 * mx + 1) + (2 * my + 1) * (2 * my + 1)) by (nonlinear_arith)
        requires
            4 * ((dx * dx) * ss) < (2 * mx + 1) * (2 * mx + 1) * n2,
            4 * ((dy * dy) * ss) < (2 * my + 1) * (2 * my + 1) * n2,
            n2 == dx * dx + dy * dy,
            n2 > 0,
    ;
}

/// Along an axis the scaled direction is exact: a direction with one
/// coordinate zero gives the speed itself along the other.
pub proof fn lemma_scaled_direction_on_axis(d: int, speed: int)
    requires
        d != 0,
    ensures
        scaled_direction(d, 0, speed) == (if d > 0 { speed } else { -speed }, 0int),
        scaled_direction(0, d, speed) == (0int, if d > 0 { speed } else { -speed }),
{
    let n2 = d * d;
    assert(n2 > 0) by (nonlinear_arith)
        requires
            d != 0,
            n2 == d * d,
    ;
    lemma_component_size_zero(0, speed, n2);
    let ss = speed * speed;
    assert((4 * (n2 * ss)) / n2 == 4 * ss) by (nonlinear_arith)
        requires
            n2 > 0,
    ;
    let m = magnitude(speed);
    assert((2 * m) * (2 * m) == 4 * ss) by (nonlinear_arith)
        requires
            m == speed || m == -speed,
            ss == speed * speed,
    ;
    lemma_floor_sqrt_of_square((2 * m) as nat);
}

/// A step toward a target brings the point strictly nearer to it, at any
/// speed above zero, where the target is at least half the step and half a
/// unit of the last place away: `(speed + 1)^2 <= 4 * distance^2`.
pub proof fn lemma_step_toward_closes_in(from: Vec2, to: Vec2, speed: int)
    requires
        1 <= speed,
        (speed + 1) * (speed + 1) <= 4 * distance_sq(from, to),
    ensures
        ({
            let (x, y) = step_toward(from, to, speed);
            distance_sq(from.offset(x, y), to) < distance_sq(from, to)
        }),
{
    let dx = to.x - from.x;
    let dy = to.y - from.y;
    let n2 = norm_sq(dx, dy);
    assert(n2 > 0) by (nonlinear_arith)
        requires
            1 <= speed,
            (speed + 1) * (speed + 1) <= 4 * n2,
    ;
    let (x, y) = step_toward(from, to, speed);
    lemma_coordinate_closes_in(from.x as int, to.x as int, x, speed, n2);
    lemma_coordinate_closes_in(from.y as int, to.y as int, y, speed, n2);
    lemma_some_coordinate_moves(dx, dy, speed);
}

/// One coordinate of a step toward a target that is at least half the step
/// and half a unit away: the step is at most twice the distance along the
/// coordinate, so that the coordinate ends no farther from the target's than
/// it began, and nearer where the step is neither nothing nor all of twice
/// the distance.
proof fn lemma_coordinate_closes_in(from: int, to: int, step: int, speed: int, n2: int)
    requires
        i32::MIN <= from <= i32::MAX,
        i32::MIN <= to <= i32::MAX,
        0 < speed,
        0 < n2,
        (speed + 1) * (speed + 1) <= 4 * n2,
        step == scaled_component(to - from, speed, n2),
    ensures
        magnitude(step) <= 2 * magnitude(to - from),
        ({
            let rest = to - saturated(from + step);
            &&& rest * rest <= (to - from) * (to - from)
            &&& (0 < magnitude(step) < 2 * magnitude(to - from) ==> rest * rest < (to - from) * (to
                - from))
        }),
{
    let d = to - from;
    let a = magnitude(d);
    let m = magnitude(step);
    lemma_component_size_bounds(d, speed, n2);
    assert(a * a == d * d) by (nonlinear_arith)
        requires
            a == d || a == -d,
    ;
    if m >= 1 {
        lemma_coordinate_at_most_twice(a, m, speed, n2);
    }
    let rest = to - saturated(from + step);
    let r = magnitude(rest);
    assert(rest * rest == r * r) by (nonlinear_arith)
        requires
            r == rest || r == -rest,
    ;
    assert(r * r <= a * a && (r < a ==> r * r < a * a)) by (nonlinear_arith)
        requires
            0 <= r <= a,
    ;
}

/// Of a step toward a target that is at least half the step and half a unit
/// away, at a speed above zero, one coordinate at least is neither nothing
/// nor all of twice the distance along it.
proof fn lemma_some_coordinate_moves(dx: int, dy: int, speed: int)
    requires
        1 <= speed,
        (speed + 1) * (speed + 1) <= 4 * norm_sq(dx, dy),
    ensures
        ({
            let (x, y) = scaled_direction(dx, dy, speed);
            ||| 0 < magnitude(x) < 2 * magnitude(dx)
            ||| 0 < magnitude(y) < 2 * magnitude(dy)
        }),
{
    let n2 = norm_sq(dx, dy);
    let ss = speed * speed;
    let a = magnitude(dx);
    let b = magnitude(dy);
    let (x, y) = scaled_direction(dx, dy, speed);
    let mx = magnitude(x);
    let my = magnitude(y);
    assert(n2 > 0) by (nonlinear_arith)
        requires
            1 <= speed,
            (speed + 1) * (speed + 1) <= 4 * n2,
    ;
    assert(ss >= 1) by (nonlinear_arith)
        requires
            1 <= speed,
            ss == speed * speed,
    ;
    assert(a * a == dx * dx && b * b == dy * dy) by (nonlinear_arith)
        requires
            a == dx || a == -dx,
            b == dy || b == -dy,
    ;
    lemma_component_size_bounds(dx, speed, n2);
    lemma_component_size_bounds(dy, speed, n2);
    assert(mx == 0 ==> 4 * ((a * a) * ss) < n2) by (nonlinear_arith)
        requires
            4 * ((a * a) * ss) < (2 * mx + 1) * (2 * mx + 1) * n2,
    ;
    assert(my == 0 ==> 4 * ((b * b) * ss) < n2) by (nonlinear_arith)
        requires
            4 * ((b * b) * ss) < (2 * my + 1) * (2 * my + 1) * n2,
    ;
    if mx == 0 && my == 0 {
        // Both exact coordinates would be under a half, and the speed with them.
        assert(false) by (nonlinear_arith)
            requires
                4 * ((a * a) * ss) < n2,
                4 * ((b * b) * ss) < n2,
                n2 == a * a + b * b,
                n2 > 0,
                ss >= 1,
        ;
    } else {
        if mx > 0 {
            lemma_coordinate_at_most_twice(a, mx, speed, n2);
        }
        if my > 0 {
            lemma_coordinate_at_most_twice(b, my, speed, n2);
        }
        if my == 0 {
            lemma_no_full_turn_on_one_coordinate(a, b, mx, speed);
        } else if mx == 0 {
            lemma_no_full_turn_on_one_coordinate(b, a, my, speed);
        } else {
            lemma_no_full_turn_on_both_coordinates(a, b, mx, my, speed);
        }
    }
}

/// The size of a coordinate of the step is at most twice the distance along
/// the coordinate.
proof fn lemma_coordinate_at_most_twice(a: int, m: int, speed: int, n2: int)
    requires
        0 <= a,
        1 <= m,
        0 < speed,
        0 < n2,
        (speed + 1) * (speed + 1) <= 4 * n2,
        (2 * m - 1) * (2 * m - 1) * n2 <= 4 * ((a * a) * (speed * speed)),
    ensures
        m <= 2 * a,
{
    let w = 2 * m - 1;
    let ss = speed * speed;
    let left = w * (speed + 1);
    let right = 4 * a * speed;
    // In squares: w^2 * (speed + 1)^2 <= w^2 * 4 * n2 <= 16 * a^2 * speed^2.
    assert(left * left <= right * right) by (nonlinear_arith)
        requires
            w * w * n2 <= 4 * ((a * a) * ss),
            ss == speed * speed,
            (speed + 1) * (speed + 1) <= 4 * n2,
            left == w * (speed + 1),
            right == 4 * a * speed,
    ;
    assert(left >= 1 && right >= 0) by (nonlinear_arith)
        requires
            left == w * (speed + 1),
            right == 4 * a * speed,
            w >= 1,
            speed >= 1,
            a >= 0,
    ;
    assert(left <= right) by (nonlinear_arith)
        requires
            left * left <= right * right,
            0 <= left,
            0 <= right,
    ;
    // So a is not zero, and w * (speed + 1) <= 4 * a * speed < 4 * a * (speed + 1).
    assert(w < 4 * a) by (nonlinear_arith)
        requires
            left <= right,
            left == w * (speed + 1),
            right == 4 * a * speed,
            1 <= left,
            0 < speed,
            0 <= a,
    ;
}

/// A step that is nothing along one coordinate is less than twice the
/// distance along the other.
proof fn lemma_no_full_turn_on_one_coordinate(a: int, b: int, m: int, speed: int)
    requires
        0 <= a,
        0 <= b,
        1 <= m <= 2 * a,
        1 <= speed,
        (speed + 1) * (speed + 1) <= 4 * (a * a + b * b),
        (2 * m - 1) * (2 * m - 1) * (a * a + b * b) <= 4 * ((a * a) * (speed * speed)),
        4 * ((b * b) * (speed * speed)) < a * a + b * b,
    ensures
        m < 2 * a,
{
    if m < 2 * a {
        return ;
    }
    let n2 = a * a + b * b;
    let ss = speed * speed;
    let w = 4 * a - 1;
    // The step is at least three halves of the distance.
    assert(9 * n2 <= 4 * ss) by (nonlinear_arith)
        requires
            w * w * n2 <= 4 * ((a * a) * ss),
            w == 4 * a - 1,
            a >= 1,
            n2 >= 0,
            ss >= 0,
    ;
    // So the other coordinate of the direction is nothing.
    assert(b == 0) by (nonlinear_arith)
        requires
            4 * ((b * b) * ss) < n2,
            9 * n2 <= 4 * ss,
            0 <= b,
            ss >= 1,
    ;
    // On the axis the step is the speed, which is less than twice the distance.
    assert(speed + 1 <= 2 * a) by (nonlinear_arith)
        requires
            (speed + 1) * (speed + 1) <= 4 * (a * a),
            1 <= speed,
            1 <= a,
    ;
    assert(w <= 2 * speed) by (nonlinear_arith)
        requires
            w * w * (a * a) <= 4 * ((a * a) * ss),
            ss == speed * speed,
            a >= 1,
            w >= 0,
            speed >= 1,
    ;
}

/// A step is less than twice the distance along one coordinate at least.
proof fn lemma_no_full_turn_on_both_coordinates(a: int, b: int, mx: int, my: int, speed: int)
    requires
        1 <= mx <= 2 * a,
        1 <= my <= 2 * b,
        1 <= speed,
        (speed + 1) * (speed + 1) <= 4 * (a * a + b * b),
        (2 * mx - 1) * (2 * mx - 1) * (a * a + b * b) <= 4 * ((a * a) * (speed * speed)),
        (2 * my - 1) * (2 * my - 1) * (a * a + b * b) <= 4 * ((b * b) * (speed * speed)),
    ensures
        mx < 2 * a || my < 2 * b,
{
    if mx < 2 * a || my < 2 * b {
        return ;
    }
    let n2 = a * a + b * b;
    let ss = speed * speed;
    let u = 4 * a - 1;
    let v = 4 * b - 1;
    assert(n2 > 0) by (nonlinear_arith)
        requires
            n2 == a * a + b * b,
            1 <= a,
    ;
    assert(u * u + v * v <= 4 * ss) by (nonlinear_arith)
        requires
            u * u * n2 <= 4 * ((a * a) * ss),
            v * v * n2 <= 4 * ((b * b) * ss),
            n2 == a * a + b * b,
            n2 > 0,
    ;
    assert(u * u + v * v == 16 * n2 - 8 * (a + b) + 2) by (nonlinear_arith)
        requires
            u == 4 * a - 1,
            v == 4 * b - 1,
            n2 == a * a + b * b,
    ;
    assert(4 * ss <= 16 * n2 - 8 * speed - 4) by (nonlinear_arith)
        requires
            (speed + 1) * (speed + 1) <= 4 * n2,
            ss == speed * speed,
    ;
    // So the speed is less than the two distances together, and a step of
    // twice the distance is longer than the speed allows.
    assert(false) by (nonlinear_arith)
        requires
            u * u + v * v <= 4 * ss,
            u * u + v * v == 16 * (a * a + b * b) - 8 * (a + b) + 2,
            ss == speed * speed,
            1 <= speed <= a + b - 1,
            1 <= a,
            1 <= b,
    ;
}

/// A step no longer than the distance does not pass the target along
/// either coordinate.
pub proof fn lemma_step_within_distance(dx: int, dy: int, speed: int)
    requires
        0 <= speed,
        speed * speed <= norm_sq(dx, dy),
    ensures
        magnitude(scaled_direction(dx, dy, speed).0) <= magnitude(dx),
        magnitude(scaled_direction(dx, dy, speed).1) <= magnitude(dy),
{
    let n2 = norm_sq(dx, dy);
    if n2 > 0 {
        lemma_coordinate_within_distance(dx, speed, n2);
        lemma_coordinate_within_distance(dy, speed, n2);
    }
}

/// One coordinate of a step no longer than the distance.
proof fn lemma_coordinate_within_distance(c: int, speed: int, n2: int)
    requires
        0 <= speed,
        0 < n2,
        speed * speed <= n2,
    ensures
        magnitude(scaled_component(c, speed, n2)) <= magnitude(c),
{
    let a = magnitude(c);
    let m = magnitude(scaled_component(c, speed, n2));
    let ss = speed * speed;
    lemma_component_size_bounds(c, speed, n2);
    assert(a * a == c * c) by (nonlinear_arith)
        requires
            a == c || a == -c,
    ;
    if m >= 1 {
        let w = 2 * m - 1;
        // w^2 * n2 <= 4 * a^2 * speed^2 <= 4 * a^2 * n2
        assert(w * w <= (2 * a) * (2 * a)) by (nonlinear_arith)
            requires
                w * w * n2 <= 4 * ((a * a) * ss),
                0 <= ss <= n2,
                0 < n2,
        ;
        assert(w <= 2 * a) by (nonlinear_arith)
            requires
                w * w <= (2 * a) * (2 * a),
                0 <= w,
                0 <= a,
        ;
    }
}

/// What a step of size `m` leaves of a distance `a` along one coordinate,
/// held against the whole part `whole` of the distance: with half a unit
/// more it is no less than its share of the distance less the speed, and
/// with half a unit less it is no more than its share of the distance plus
/// one less the speed.
pub proof fn lemma_coordinate_left(a: int, m: int, speed: int, n2: int, whole: int)
    requires
        0 <= m <= a,
        0 <= speed <= whole,
        0 < n2,
        whole * whole <= n2 < (whole + 1) * (whole + 1),
        twice_least(m) * twice_least(m) * n2 <= 4 * ((a * a) * (speed * speed)),
        4 * ((a * a) * (speed * speed)) < (2 * m + 1) * (2 * m + 1) * n2,
    ensures
        4 * (a * a) * ((whole - speed) * (whole - speed)) <= (2 * (a - m) + 1) * (2 * (a - m) + 1)
            * n2,
        ({
            let v = twice_least(a - m);
            let top = whole + 1;
            v * v * (top * top) <= 4 * (a * a) * ((top - speed) * (top - speed))
        }),
{
    let w = twice_least(m);
    let t = 2 * (a - m) + 1;
    let v = twice_least(a - m);
    let top = whole + 1;
    let ss = speed * speed;
    // From below: w * whole <= 2 * a * speed, so t * whole >= 2 * a * (whole - speed).
    assert((w * whole) * (w * whole) <= (2 * a * speed) * (2 * a * speed)) by (nonlinear_arith)
        requires
            w * w * n2 <= 4 * ((a * a) * ss),
            ss == speed * speed,
            whole * whole <= n2,
            0 <= w,
    ;
    assert(w * whole <= 2 * a * speed) by (nonlinear_arith)
        requires
            (w * whole) * (w * whole) <= (2 * a * speed) * (2 * a * speed),
            0 <= w,
            0 <= whole,
            0 <= a,
            0 <= speed,
    ;
    assert(t * whole >= 2 * a * (whole - speed) && 2 * a * (whole - speed) >= 0)
        by (nonlinear_arith)
        requires
            w * whole <= 2 * a * speed,
            t >= 2 * a - w,
            0 <= whole,
            0 <= a,
            0 <= speed <= whole,
    ;
    assert(4 * (a * a) * ((whole - speed) * (whole - speed)) <= t * t * n2) by (nonlinear_arith)
        requires
            t * whole >= 2 * a * (whole - speed),
            2 * a * (whole - speed) >= 0,
            whole * whole <= n2,
            0 <= t,
    ;
    // From above: 2 * a * speed < (2 * m + 1) * (whole + 1), so
    // v * (whole + 1) <= 2 * a * (whole + 1 - speed).
    if a - m >= 1 {
        let u = 2 * m + 1;
        assert((2 * a * speed) * (2 * a * speed) < (u * top) * (u * top)) by (nonlinear_arith)
            requires
                4 * ((a * a) * ss) < u * u * n2,
                ss == speed * speed,
                n2 < top * top,
                0 < u,
        ;
        assert(2 * a * speed < u * top) by (nonlinear_arith)
            requires
                (2 * a * speed) * (2 * a * speed) < (u * top) * (u * top),
                0 <= a,
                0 <= speed,
                0 < u,
                0 < top,
        ;
        assert(0 <= v * top <= 2 * a * (top - speed)) by (nonlinear_arith)
            requires
                2 * a * speed < u * top,
                v == 2 * a - u,
                0 <= v,
                0 < top,
        ;
        assert(v * v * (top * top) <= 4 * (a * a) * ((top - speed) * (top - speed)))
            by (nonlinear_arith)
            requires
                0 <= v * top <= 2 * a * (top - speed),
        ;
    } else {
        assert(v * v * (top * top) <= 4 * (a * a) * ((top - speed) * (top - speed)))
            by (nonlinear_arith)
            requires
                v == 0,
        ;
    }
}

/// Turning the direction round turns the step round: the step away from a
/// target is the step toward it with each coordinate negated.
pub proof fn lemma_scaled_direction_reversed(dx: int, dy: int, speed: int)
    ensures
        scaled_direction(-dx, -dy, speed).0 == -scaled_direction(dx, dy, speed).0,
        scaled_direction(-dx, -dy, speed).1 == -scaled_direction(dx, dy, speed).1,
{
    let n2 = norm_sq(dx, dy);
    assert((-dx) * (-dx) == dx * dx) by (nonlinear_arith);
    assert((-dy) * (-dy) == dy * dy) by (nonlinear_arith);
    if n2 > 0 {
        if dx == 0 || speed == 0 {
            lemma_component_size_zero(dx, speed, n2);
        }
        if dy == 0 || speed == 0 {
            lemma_component_size_zero(dy, speed, n2);
        }
    }
}

} // verus!
