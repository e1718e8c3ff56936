//! Moving a character: gravity with a terminal velocity, and the rules of
//! collide-and-slide, in which the character's shape is cast along what is
//! left of its movement, advanced to just before what it hits, and turned
//! along the surface, a bounded number of times.

use vstd::prelude::*;
use crate::grid::WorldPos;
use crate::kcc::{KCCFloorDetection, KCCGravity, KCCSlope, KinematicCharacterController, ShapeHit};
use crate::math::{
    ceil_sqrt, clamp_i32, cross, dot, is_ceil_sqrt, lemma_square_monotonic,
    lemma_square_nonnegative, lemma_square_strictly_monotonic, lemma_trunc_div_bounds,
    length_squared, trunc_div, Normal, SpecVector, Vector3,
};

verus! {

/// Most casts in one pass of movement.
pub const MAX_BUMPS: u32 = 4;

/// A movement whose squared length, in thousandths, is below this is not
/// worth making.
pub const MIN_MOVEMENT: u64 = 100;

/// How far before a surface an advancing character stops.
pub const COLLISION_EPSILON: i32 = 10;

/// How far beyond the surface a character is pushed out of what it
/// overlaps.
pub const DEPENETRATION_EPSILON: i32 = 10;

/// Whether the speed of `v` is `limit` or more.
pub open spec fn speed_reaches(v: SpecVector, limit: int) -> bool {
    limit <= 0 || length_squared(v) >= limit * limit
}

/// Whether the speed of `v` is more than `limit`.
pub open spec fn speed_exceeds(v: SpecVector, limit: int) -> bool {
    limit < 0 || length_squared(v) > limit * limit
}

/// A speed after one tick above the terminal velocity: ninety-nine
/// hundredths of it, rounded towards zero.
pub open spec fn decayed(speed: int) -> int {
    trunc_div(speed * 99, 100)
}

/// What gravity adds to a speed in `dt` thousandths of a second, along one
/// axis of its direction.
pub open spec fn gravity_gain(direction: int, acceleration: int, dt: int) -> int {
    clamp_i32(trunc_div(direction * acceleration * dt, 1000000))
}

/// The square root of `n` rounded up.
pub open spec fn ceil_sqrt_of(n: int) -> int {
    choose|r: int| is_ceil_sqrt(n, r)
}

/// A vector scaled down to the length `limit`, each coordinate rounded
/// towards zero.
pub open spec fn rescaled(v: SpecVector, limit: int) -> SpecVector {
    let length = ceil_sqrt_of(length_squared(v));
    SpecVector {
        x: trunc_div(v.x * limit, length),
        y: trunc_div(v.y * limit, length),
        z: trunc_div(v.z * limit, length),
    }
}

/// The velocity that gravity has built up, one tick of `dt` thousandths of a
/// second later. At or above the terminal velocity it decays; below, it
/// grows along the direction of gravity and is scaled back to the terminal
/// velocity where it would pass it.
pub open spec fn gravity_step(gravity: KCCGravity, dt: int) -> SpecVector {
    let v = gravity.current_velocity@;
    let limit = gravity.terminal_velocity as int;
    if speed_reaches(v, limit) {
        SpecVector { x: decayed(v.x), y: decayed(v.y), z: decayed(v.z) }
    } else {
        let faster = SpecVector {
            x: clamp_i32(
                v.x + gravity_gain(
                    gravity.direction.x as int,
                    gravity.acceleration_factor as int,
                    dt,
                ),
            ),
            y: clamp_i32(
                v.y + gravity_gain(
                    gravity.direction.y as int,
                    gravity.acceleration_factor as int,
                    dt,
                ),
            ),
            z: clamp_i32(
                v.z + gravity_gain(
                    gravity.direction.z as int,
                    gravity.acceleration_factor as int,
                    dt,
                ),
            ),
        };
        if speed_exceeds(faster, limit) {
            rescaled(faster, limit)
        } else {
            faster
        }
    }
}

/// A character's gravity one tick of `dt` thousandths of a second later.
pub open spec fn gravity_after(gravity: KCCGravity, dt: int) -> KCCGravity {
    let v = gravity_step(gravity, dt);
    KCCGravity { current_velocity: Vector3 { x: v.x as i32, y: v.y as i32, z: v.z as i32 }, ..gravity }
}

/// A character's gravity after ticks of the given lengths, one after the
/// other.
pub open spec fn gravity_run(gravity: KCCGravity, ticks: Seq<int>) -> KCCGravity
    decreases ticks.len(),
{
    if ticks.len() == 0 {
        gravity
    } else {
        gravity_after(gravity_run(gravity, ticks.drop_last()), ticks.last())
    }
}

/// Every number that is not negative has a square root rounded up.
pub proof fn lemma_ceil_sqrt_exists(n: int)
    requires
        0 <= n,
    ensures
        is_ceil_sqrt(n, ceil_sqrt_of(n)),
    decreases n,
{
    if n == 0 {
        assert(is_ceil_sqrt(0, 0));
    } else {
        lemma_ceil_sqrt_exists(n - 1);
        let r = ceil_sqrt_of(n - 1);
        if r * r >= n {
            assert(is_ceil_sqrt(n, r));
        } else {
            assert((r + 1) * (r + 1) == r * r + 2 * r + 1) by (nonlinear_arith);
            assert(is_ceil_sqrt(n, r + 1));
        }
    }
}

/// Decay shrinks a speed that is not zero and keeps its sign.
pub proof fn lemma_decay_shrinks(speed: int)
    ensures
        decayed(speed) * decayed(speed) <= speed * speed,
        speed != 0 ==> decayed(speed) * decayed(speed) < speed * speed,
{
    let q = decayed(speed);
    lemma_trunc_div_bounds(speed * 99, 100);
    if speed > 0 {
        assert(0 <= q < speed);
        lemma_square_strictly_monotonic(q, speed);
    } else if speed < 0 {
        assert(speed < q <= 0);
        lemma_square_strictly_monotonic(-q, -speed);
        assert((-q) * (-q) == q * q) by (nonlinear_arith);
        assert((-speed) * (-speed) == speed * speed) by (nonlinear_arith);
    } else {
        assert(q == 0);
    }
}

/// Scaling by `limit / length` and rounding towards zero gives a square of
/// at most the exact one.
proof fn lemma_rescaled_square(speed: int, limit: int, length: int)
    requires
        0 < limit,
        0 < length,
    ensures
        ({
            let q = trunc_div(speed * limit, length);
            q * q * (length * length) <= speed * speed * (limit * limit)
        }),
{
    let q = trunc_div(speed * limit, length);
    let p = speed * limit;
    lemma_trunc_div_bounds(p, length);
    let a = q * length;
    if p >= 0 {
        assert(0 <= a) by (nonlinear_arith)
            requires
                0 <= q,
                0 < length,
                a == q * length,
        ;
        lemma_square_monotonic(a, p);
    } else {
        assert(a <= 0) by (nonlinear_arith)
            requires
                q <= 0,
                0 < length,
                a == q * length,
        ;
        lemma_square_monotonic(-a, -p);
        assert((-a) * (-a) == a * a) by (nonlinear_arith);
        assert((-p) * (-p) == p * p) by (nonlinear_arith);
    }
    assert(a * a <= p * p);
    assert(a * a == q * q * (length * length)) by (nonlinear_arith)
        requires
            a == q * length,
    ;
    assert(p * p == speed * speed * (limit * limit)) by (nonlinear_arith)
        requires
            p == speed * limit,
    ;
}

/// A vector scaled down to the length `limit` is no longer than `limit`.
pub proof fn lemma_rescaled_within(v: SpecVector, limit: int)
    requires
        0 < limit,
        0 < length_squared(v),
    ensures
        length_squared(rescaled(v, limit)) <= limit * limit,
{
    let n = length_squared(v);
    lemma_ceil_sqrt_exists(n);
    let length = ceil_sqrt_of(n);
    assert(length > 0) by {
        if length == 0 {
            assert(length * length == 0) by (nonlinear_arith)
                requires
                    length == 0,
            ;
        }
    }
    let r = rescaled(v, limit);
    lemma_rescaled_square(v.x, limit, length);
    lemma_rescaled_square(v.y, limit, length);
    lemma_rescaled_square(v.z, limit, length);
    let ll = length * length;
    let tt = limit * limit;
    let s = length_squared(r);
    assert(s * ll == r.x * r.x * ll + r.y * r.y * ll + r.z * r.z * ll) by (nonlinear_arith)
        requires
            s == r.x * r.x + r.y * r.y + r.z * r.z,
    ;
    assert(n * tt == v.x * v.x * tt + v.y * v.y * tt + v.z * v.z * tt) by (nonlinear_arith)
        requires
            n == v.x * v.x + v.y * v.y + v.z * v.z,
    ;
    assert(s * ll <= n * tt);
    lemma_square_nonnegative(limit);
    assert(n * tt <= ll * tt) by (nonlinear_arith)
        requires
            n <= ll,
            0 <= tt,
    ;
    assert(s <= tt) by (nonlinear_arith)
        requires
            s * ll <= ll * tt,
            0 < ll,
    ;
}

/// Gravity never carries a speed below the terminal velocity past it: one
/// tick later the speed is the terminal velocity at most.
pub proof fn lemma_gravity_bounded(gravity: KCCGravity, dt: int)
    requires
        0 < gravity.terminal_velocity,
        !speed_reaches(gravity.current_velocity@, gravity.terminal_velocity as int),
    ensures
        length_squared(gravity_step(gravity, dt)) <= gravity.terminal_velocity
            * gravity.terminal_velocity,
{
    let limit = gravity.terminal_velocity as int;
    let v = gravity.current_velocity@;
    let faster = SpecVector {
        x: clamp_i32(
            v.x + gravity_gain(gravity.direction.x as int, gravity.acceleration_factor as int, dt),
        ),
        y: clamp_i32(
            v.y + gravity_gain(gravity.direction.y as int, gravity.acceleration_factor as int, dt),
        ),
        z: clamp_i32(
            v.z + gravity_gain(gravity.direction.z as int, gravity.acceleration_factor as int, dt),
        ),
    };
    if speed_exceeds(faster, limit) {
        lemma_square_nonnegative(limit);
        lemma_rescaled_within(faster, limit);
    }
}

/// At or above the terminal velocity the speed strictly falls from one tick
/// to the next.
pub proof fn lemma_gravity_decays(gravity: KCCGravity, dt: int)
    requires
        0 < gravity.terminal_velocity,
        speed_reaches(gravity.current_velocity@, gravity.terminal_velocity as int),
    ensures
        length_squared(gravity_step(gravity, dt)) < length_squared(gravity.current_velocity@),
{
    let v = gravity.current_velocity@;
    let limit = gravity.terminal_velocity as int;
    lemma_decay_shrinks(v.x);
    lemma_decay_shrinks(v.y);
    lemma_decay_shrinks(v.z);
    assert(0 < limit * limit) by (nonlinear_arith)
        requires
            0 < limit,
    ;
    if v.x == 0 && v.y == 0 && v.z == 0 {
        assert(length_squared(v) == 0);
    }
}

/// The velocity that gravity builds up always fits its coordinates.
pub proof fn lemma_gravity_step_fits(gravity: KCCGravity, dt: int)
    ensures
        gravity_after(gravity, dt).current_velocity@ == gravity_step(gravity, dt),
        gravity_after(gravity, dt).terminal_velocity == gravity.terminal_velocity,
{
    let v = gravity.current_velocity@;
    let limit = gravity.terminal_velocity as int;
    if speed_reaches(v, limit) {
        lemma_trunc_div_bounds(v.x * 99, 100);
        lemma_trunc_div_bounds(v.y * 99, 100);
        lemma_trunc_div_bounds(v.z * 99, 100);
    } else {
        let faster = SpecVector {
            x: clamp_i32(
                v.x + gravity_gain(
                    gravity.direction.x as int,
                    gravity.acceleration_factor as int,
                    dt,
                ),
            ),
            y: clamp_i32(
                v.y + gravity_gain(
                    gravity.direction.y as int,
                    gravity.acceleration_factor as int,
                    dt,
                ),
            ),
            z: clamp_i32(
                v.z + gravity_gain(
                    gravity.direction.z as int,
                    gravity.acceleration_factor as int,
                    dt,
                ),
            ),
        };
        if speed_exceeds(faster, limit) {
            lemma_square_nonnegative(limit);
            lemma_rescaled_within(faster, limit);
            let r = rescaled(faster, limit);
            lemma_square_nonnegative(r.x);
            lemma_square_nonnegative(r.y);
            lemma_square_nonnegative(r.z);
            lemma_square_monotonic(limit, 0x7fff_ffff);
            if r.x > 0x7fff_ffff {
                lemma_square_strictly_monotonic(0x7fff_ffff, r.x);
            }
            if r.x < -0x7fff_ffff {
                lemma_square_strictly_monotonic(0x7fff_ffff, -r.x);
                assert((-r.x) * (-r.x) == r.x * r.x) by (nonlinear_arith);
            }
            if r.y > 0x7fff_ffff {
                lemma_square_strictly_monotonic(0x7fff_ffff, r.y);
            }
            if r.y < -0x7fff_ffff {
                lemma_square_strictly_monotonic(0x7fff_ffff, -r.y);
                assert((-r.y) * (-r.y) == r.y * r.y) by (nonlinear_arith);
            }
            if r.z > 0x7fff_ffff {
                lemma_square_strictly_monotonic(0x7fff_ffff, r.z);
            }
            if r.z < -0x7fff_ffff {
                lemma_square_strictly_monotonic(0x7fff_ffff, -r.z);
                assert((-r.z) * (-r.z) == r.z * r.z) by (nonlinear_arith);
            }
        }
    }
}

/// Falling from rest never passes the terminal velocity, however many ticks
/// go by and however long each one is.
pub proof fn lemma_gravity_from_rest(gravity: KCCGravity, ticks: Seq<int>)
    requires
        0 < gravity.terminal_velocity,
        gravity.current_velocity == (Vector3 { x: 0, y: 0, z: 0 }),
    ensures
        gravity_run(gravity, ticks).terminal_velocity == gravity.terminal_velocity,
        length_squared(gravity_run(gravity, ticks).current_velocity@) <= gravity.terminal_velocity
            * gravity.terminal_velocity,
    decreases ticks.len(),
{
    let limit = gravity.terminal_velocity as int;
    lemma_square_nonnegative(limit);
    if ticks.len() > 0 {
        lemma_gravity_from_rest(gravity, ticks.drop_last());
        let earlier = gravity_run(gravity, ticks.drop_last());
        lemma_gravity_step_fits(earlier, ticks.last());
        if speed_reaches(earlier.current_velocity@, limit) {
            lemma_gravity_decays(earlier, ticks.last());
        } else {
            lemma_gravity_bounded(earlier, ticks.last());
        }
    }
}

/// There is only one square root rounded up.
pub proof fn lemma_ceil_sqrt_unique(n: int, r: int)
    requires
        is_ceil_sqrt(n, r),
    ensures
        ceil_sqrt_of(n) == r,
{
    let c = ceil_sqrt_of(n);
    assert(is_ceil_sqrt(n, c));
    if c < r {
        lemma_square_monotonic(c, r - 1);
    }
    if r < c {
        lemma_square_monotonic(r, c - 1);
    }
}

/// Rounds `a / d` towards zero and brings it into the range of a
/// coordinate.
fn clamped_quotient(a: i128, d: i128) -> (r: i32)
    requires
        0 < d,
        -0x4000_0000_0000_0000_0000_0000_0000_0000 <= a <= 0x4000_0000_0000_0000_0000_0000_0000_0000,
    ensures
        r == clamp_i32(trunc_div(a as int, d as int)),
{
    let q: i128 = if a >= 0 {
        a / d
    } else {
        -((-a) / d)
    };
    clamp(q)
}

/// Brings a number into the range of a coordinate.
fn clamp(a: i128) -> (r: i32)
    ensures
        r == clamp_i32(a as int),
{
    if a < i32::MIN as i128 {
        i32::MIN
    } else if a > i32::MAX as i128 {
        i32::MAX
    } else {
        a as i32
    }
}

/// The product of three coordinates fits in 96 bits.
proof fn lemma_triple_product(a: int, b: int, c: int)
    requires
        i32::MIN <= a <= i32::MAX,
        i32::MIN <= b <= i32::MAX,
        0 <= c <= u32::MAX,
    ensures
        -0x8000_0000_0000_0000_0000_0000 <= a * b * c <= 0x8000_0000_0000_0000_0000_0000,
        -0x4000_0000_0000_0000 <= a * b <= 0x4000_0000_0000_0000,
{
    assert(-0x4000_0000_0000_0000 <= a * b <= 0x4000_0000_0000_0000) by (nonlinear_arith)
        requires
            -0x8000_0000 <= a <= 0x7fff_ffff,
            -0x8000_0000 <= b <= 0x7fff_ffff,
    ;
    let p = a * b;
    assert(-0x8000_0000_0000_0000_0000_0000 <= p * c <= 0x8000_0000_0000_0000_0000_0000)
        by (nonlinear_arith)
        requires
            -0x4000_0000_0000_0000 <= p <= 0x4000_0000_0000_0000,
            0 <= c <= 0xffff_ffff,
    ;
}

/// One coordinate of a velocity after gravity was added to it.
fn accelerate(speed: i32, direction: i32, acceleration: i32, dt: u32) -> (r: i32)
    ensures
        r == clamp_i32(speed + gravity_gain(direction as int, acceleration as int, dt as int)),
{
    proof {
        lemma_triple_product(direction as int, acceleration as int, dt as int);
    }
    let product: i128 = direction as i128 * acceleration as i128 * dt as i128;
    let gain = clamped_quotient(product, 1000000);
    clamp(speed as i128 + gain as i128)
}

/// One coordinate of a velocity after it decayed.
fn decay(speed: i32) -> (r: i32)
    ensures
        r == decayed(speed as int),
{
    let wide: i64 = speed as i64 * 99;
    if wide >= 0 {
        (wide / 100) as i32
    } else {
        (-((-wide) / 100)) as i32
    }
}

/// One coordinate of a vector of length at most `length` after it was
/// scaled to the length `limit`.
fn rescale(speed: i32, limit: i32, length: u64) -> (r: i32)
    requires
        0 < limit,
        0 < length,
        -(length as int) <= speed <= length as int,
    ensures
        r == trunc_div(speed * limit, length as int),
        -limit <= r <= limit,
{
    proof {
        lemma_triple_product(speed as int, limit as int, 1);
    }
    let product: i128 = speed as i128 * limit as i128;
    proof {
        assert(-(length * limit) <= speed * limit <= length * limit) by (nonlinear_arith)
            requires
                -(length as int) <= speed <= length as int,
                0 < limit,
        ;
        lemma_trunc_div_bounds(speed * limit, length as int);
        let q = trunc_div(speed * limit, length as int);
        assert(-limit <= q <= limit) by (nonlinear_arith)
            requires
                -(length * limit) <= speed * limit <= length * limit,
                0 < length,
                speed * limit >= 0 ==> 0 <= q && q * length <= speed * limit,
                speed * limit < 0 ==> q <= 0 && speed * limit <= q * length,
        ;
    }
    let d: i128 = length as i128;
    if product >= 0 {
        (product / d) as i32
    } else {
        (-((-product) / d)) as i32
    }
}

/// A coordinate is no longer than the vector it belongs to.
proof fn lemma_coordinate_within_length(v: SpecVector, length: int)
    requires
        is_ceil_sqrt(length_squared(v), length),
    ensures
        -length <= v.x <= length,
        -length <= v.y <= length,
        -length <= v.z <= length,
{
    lemma_square_nonnegative(v.x);
    lemma_square_nonnegative(v.y);
    lemma_square_nonnegative(v.z);
    if v.x > length {
        lemma_square_strictly_monotonic(length, v.x);
    }
    if -v.x > length {
        lemma_square_strictly_monotonic(length, -v.x);
        assert((-v.x) * (-v.x) == v.x * v.x) by (nonlinear_arith);
    }
    if v.y > length {
        lemma_square_strictly_monotonic(length, v.y);
    }
    if -v.y > length {
        lemma_square_strictly_monotonic(length, -v.y);
        assert((-v.y) * (-v.y) == v.y * v.y) by (nonlinear_arith);
    }
    if v.z > length {
        lemma_square_strictly_monotonic(length, v.z);
    }
    if -v.z > length {
        lemma_square_strictly_monotonic(length, -v.z);
        assert((-v.z) * (-v.z) == v.z * v.z) by (nonlinear_arith);
    }
}

/// Lets gravity act on a character for one tick of `dt` thousandths of a
/// second.
pub fn gravity_system(gravity: &mut KCCGravity, dt: u32)
    ensures
        *final(gravity) == gravity_after(*old(gravity), dt as int),
        final(gravity).current_velocity@ == gravity_step(*old(gravity), dt as int),
{
    proof {
        lemma_gravity_step_fits(*gravity, dt as int);
    }
    let v = gravity.current_velocity;
    let limit = gravity.terminal_velocity;
    let current: u64 = v.length_squared();
    proof {
        if limit > 0 {
            lemma_square_monotonic(limit as int, 0x7fff_ffff);
        }
    }
    if limit <= 0 || current >= (limit as u64) * (limit as u64) {
        gravity.current_velocity = Vector3 { x: decay(v.x), y: decay(v.y), z: decay(v.z) };
        return ;
    }
    let new_velocity = Vector3 {
        x: accelerate(v.x, gravity.direction.x, gravity.acceleration_factor, dt),
        y: accelerate(v.y, gravity.direction.y, gravity.acceleration_factor, dt),
        z: accelerate(v.z, gravity.direction.z, gravity.acceleration_factor, dt),
    };
    let reached: u64 = new_velocity.length_squared();
    if reached > (limit as u64) * (limit as u64) {
        let length = ceil_sqrt(reached);
        proof {
            lemma_ceil_sqrt_unique(reached as int, length as int);
            lemma_coordinate_within_length(new_velocity@, length as int);
        }
        gravity.current_velocity = Vector3 {
            x: rescale(new_velocity.x, limit, length),
            y: rescale(new_velocity.y, limit, length),
            z: rescale(new_velocity.z, limit, length),
        };
    } else {
        gravity.current_velocity = new_velocity;
    }
}

/// Whether a movement is too small to be worth making.
pub open spec fn too_slow(v: SpecVector) -> bool {
    length_squared(v) < MIN_MOVEMENT
}

/// How far a character advances towards a surface that lies `distance`
/// ahead: up to the collision epsilon before it, and never backwards.
pub open spec fn safe_distance(distance: int) -> int {
    if distance > COLLISION_EPSILON {
        distance - COLLISION_EPSILON
    } else {
        0
    }
}

/// `speed * numerator / denominator`, rounded towards zero and brought into
/// the range of a coordinate.
pub open spec fn scaled(speed: int, numerator: int, denominator: int) -> int {
    clamp_i32(trunc_div(speed * numerator, denominator))
}

/// The part of the movement `v` that is `distance` long.
pub open spec fn advance(v: SpecVector, distance: int) -> SpecVector {
    let length = ceil_sqrt_of(length_squared(v));
    SpecVector {
        x: scaled(v.x, distance, length),
        y: scaled(v.y, distance, length),
        z: scaled(v.z, distance, length),
    }
}

/// The sum of two vectors, each coordinate brought into range.
pub open spec fn clamped_sum(a: SpecVector, b: SpecVector) -> SpecVector {
    SpecVector { x: clamp_i32(a.x + b.x), y: clamp_i32(a.y + b.y), z: clamp_i32(a.z + b.z) }
}

/// The difference of two vectors, each coordinate brought into range.
pub open spec fn clamped_difference(a: SpecVector, b: SpecVector) -> SpecVector {
    SpecVector { x: clamp_i32(a.x - b.x), y: clamp_i32(a.y - b.y), z: clamp_i32(a.z - b.z) }
}

/// What is left of `v` once its part along the normal `n` is taken away:
/// the movement along the surface. A normal of length zero takes nothing
/// away.
pub open spec fn rejected(v: SpecVector, n: SpecVector) -> SpecVector {
    let nn = dot(n, n);
    if nn == 0 {
        v
    } else {
        SpecVector {
            x: clamp_i32(v.x - trunc_div(n.x * dot(v, n), nn)),
            y: clamp_i32(v.y - trunc_div(n.y * dot(v, n), nn)),
            z: clamp_i32(v.z - trunc_div(n.z * dot(v, n), nn)),
        }
    }
}

/// The part of `v` along `axis`. Nothing lies along an axis of length zero.
pub open spec fn projected(v: SpecVector, axis: SpecVector) -> SpecVector {
    let aa = dot(axis, axis);
    if aa == 0 {
        SpecVector { x: 0, y: 0, z: 0 }
    } else {
        SpecVector {
            x: clamp_i32(trunc_div(axis.x * dot(v, axis), aa)),
            y: clamp_i32(trunc_div(axis.y * dot(v, axis), aa)),
            z: clamp_i32(trunc_div(axis.z * dot(v, axis), aa)),
        }
    }
}

/// `v` projected, in turn, onto the crease between each of the first
/// `pairs` pairs of planes that were hit one after the other.
pub open spec fn creased(planes: Seq<Normal>, v: SpecVector, pairs: nat) -> SpecVector
    decreases pairs,
{
    if pairs == 0 {
        v
    } else {
        projected(
            creased(planes, v, (pairs - 1) as nat),
            cross(planes[pairs - 1]@, planes[pairs as int]@),
        )
    }
}

/// What is left of the movement `v` after it met the last of `planes`: the
/// part along that plane, and, once more than one plane was met, of that
/// the part along every crease between two planes met one after the other.
pub open spec fn slid(planes: Seq<Normal>, v: SpecVector) -> SpecVector {
    creased(planes, rejected(v, planes.last()@), (planes.len() - 1) as nat)
}

/// Whether falling stops at a surface that is `angle` away from level: it
/// does on every surface where slopes or the floor probe are not set up,
/// and else on those that are less steep than the steepest walkable slope.
pub open spec fn stops_on_slope(
    slope: Option<&KCCSlope>,
    floor_detection: Option<&KCCFloorDetection>,
    angle: int,
) -> bool {
    match (slope, floor_detection) {
        (Some(slope), Some(_)) => angle < slope.max_slope_angle,
        _ => true,
    }
}

/// Computes `stops_on_slope`. `angle` is the angle between the surface's
/// normal and straight up.
pub fn should_stop_on_slope(
    slope: Option<&KCCSlope>,
    floor_detection: Option<&KCCFloorDetection>,
    angle: i32,
) -> (r: bool)
    ensures
        r == stops_on_slope(slope, floor_detection, angle as int),
{
    match (slope, floor_detection) {
        (Some(slope), Some(_)) => angle < slope.max_slope_angle,
        _ => true,
    }
}

/// What a pass of movement came to.
#[derive(Clone, Copy, Debug, PartialEq, Eq, Structural)]
pub struct MovementResult {
    /// How far the character moved.
    pub movement: Vector3,
    /// What is left of the movement it was asked to make.
    pub remaining_velocity: Vector3,
    /// The normal of the last surface it met, if it met any.
    pub hit_normal: Option<Normal>,
}

/// A cast that a pass of movement asks for: the character's shape, from
/// `origin`, along `direction`, no further than `max_distance`.
#[derive(Clone, Copy, Debug, PartialEq, Eq, Structural)]
pub struct CastRequest {
    pub origin: WorldPos,
    pub direction: Vector3,
    pub max_distance: u64,
}

/// What contracts see of a pass of movement.
pub struct SlideModel {
    /// Where the character is.
    pub translation: SpecVector,
    /// How far it has moved in this pass.
    pub total_movement: SpecVector,
    /// What is left of the movement it was asked to make.
    pub current_velocity: SpecVector,
    /// The normals of the surfaces it slid along, oldest first.
    pub collision_planes: Seq<Normal>,
    /// The normal of the last surface it met.
    pub last_hit_normal: Option<Normal>,
    /// How many casts met a surface.
    pub bumps: int,
    /// Whether the pass is over.
    pub done: bool,
    /// Whether the pass moves the character by gravity.
    pub is_gravity_pass: bool,
}

/// Whether the pass asks for another cast: it is not over, has casts left,
/// and what is left of the movement is worth making.
pub open spec fn awaits_cast(pass: SlideModel) -> bool {
    !pass.done && pass.bumps < MAX_BUMPS && !too_slow(pass.current_velocity)
}

/// The pass at its start.
pub open spec fn slide_start(
    translation: SpecVector,
    velocity: SpecVector,
    is_gravity_pass: bool,
) -> SlideModel {
    SlideModel {
        translation,
        total_movement: SpecVector { x: 0, y: 0, z: 0 },
        current_velocity: if too_slow(velocity) {
            SpecVector { x: 0, y: 0, z: 0 }
        } else {
            velocity
        },
        collision_planes: Seq::empty(),
        last_hit_normal: None,
        bumps: 0,
        done: too_slow(velocity),
        is_gravity_pass,
    }
}

/// The pass after a cast that met nothing: the character makes all that is
/// left of its movement, and the pass is over.
pub open spec fn after_miss(pass: SlideModel) -> SlideModel {
    if awaits_cast(pass) {
        SlideModel {
            translation: clamped_sum(pass.translation, pass.current_velocity),
            total_movement: clamped_sum(pass.total_movement, pass.current_velocity),
            current_velocity: SpecVector { x: 0, y: 0, z: 0 },
            done: true,
            ..pass
        }
    } else {
        pass
    }
}

/// The pass after a cast that met a surface: the character advances to just
/// before the surface, and what is left of its movement is turned along the
/// surfaces it has met, unless it is falling and stops here.
pub open spec fn after_hit(pass: SlideModel, hit: ShapeHit, stop: bool) -> SlideModel {
    if awaits_cast(pass) {
        let step = advance(pass.current_velocity, safe_distance(hit.distance as int));
        let left = clamped_difference(pass.current_velocity, step);
        let moved = SlideModel {
            translation: clamped_sum(pass.translation, step),
            total_movement: clamped_sum(pass.total_movement, step),
            current_velocity: left,
            last_hit_normal: Some(hit.normal),
            bumps: pass.bumps + 1,
            ..pass
        };
        if pass.is_gravity_pass && stop {
            SlideModel { done: true, ..moved }
        } else {
            let planes = pass.collision_planes.push(hit.normal);
            SlideModel { collision_planes: planes, current_velocity: slid(planes, left), ..moved }
        }
    } else {
        pass
    }
}

/// `a / d` rounded towards zero.
fn quotient(a: i128, d: i128) -> (r: i128)
    requires
        0 < d,
        -0x4000_0000_0000_0000_0000_0000_0000_0000 <= a <= 0x4000_0000_0000_0000_0000_0000_0000_0000,
    ensures
        r == trunc_div(a as int, d as int),
        -0x4000_0000_0000_0000_0000_0000_0000_0000 <= r <= 0x4000_0000_0000_0000_0000_0000_0000_0000,
{
    proof {
        lemma_trunc_div_bounds(a as int, d as int);
        let q = trunc_div(a as int, d as int);
        if a >= 0 {
            assert(q <= a) by (nonlinear_arith)
                requires
                    q * d <= a,
                    0 <= q,
                    1 <= d,
            ;
        } else {
            assert(a <= q) by (nonlinear_arith)
                requires
                    a <= q * d,
                    q <= 0,
                    1 <= d,
            ;
        }
    }
    if a >= 0 {
        a / d
    } else {
        -((-a) / d)
    }
}

/// The dot product of two vectors whose coordinates fit in 33 bits.
fn dot_wide(a: (i128, i128, i128), b: (i128, i128, i128)) -> (r: i128)
    requires
        -0x1_0000_0000 <= a.0 <= 0x1_0000_0000,
        -0x1_0000_0000 <= a.1 <= 0x1_0000_0000,
        -0x1_0000_0000 <= a.2 <= 0x1_0000_0000,
        -0x1_0000_0000 <= b.0 <= 0x1_0000_0000,
        -0x1_0000_0000 <= b.1 <= 0x1_0000_0000,
        -0x1_0000_0000 <= b.2 <= 0x1_0000_0000,
    ensures
        r == a.0 * b.0 + a.1 * b.1 + a.2 * b.2,
        -0x3_0000_0000_0000_0000 <= r <= 0x3_0000_0000_0000_0000,
{
    proof {
        lemma_product_bound(a.0 as int, b.0 as int, 0x1_0000_0000, 0x1_0000_0000);
        lemma_product_bound(a.1 as int, b.1 as int, 0x1_0000_0000, 0x1_0000_0000);
        lemma_product_bound(a.2 as int, b.2 as int, 0x1_0000_0000, 0x1_0000_0000);
    }
    a.0 * b.0 + a.1 * b.1 + a.2 * b.2
}

/// A product is no larger in size than the product of the bounds of its
/// factors.
proof fn lemma_product_bound(a: int, b: int, bound_a: int, bound_b: int)
    requires
        -bound_a <= a <= bound_a,
        -bound_b <= b <= bound_b,
    ensures
        -(bound_a * bound_b) <= a * b <= bound_a * bound_b,
{
    assert(-(bound_a * bound_b) <= a * b <= bound_a * bound_b) by (nonlinear_arith)
        requires
            -bound_a <= a <= bound_a,
            -bound_b <= b <= bound_b,
    ;
}

/// A vector's coordinates, widened.
fn widen(v: Vector3) -> (r: (i128, i128, i128))
    ensures
        r.0 == v.x,
        r.1 == v.y,
        r.2 == v.z,
{
    (v.x as i128, v.y as i128, v.z as i128)
}

/// A normal's coordinates, widened.
fn widen_normal(n: Normal) -> (r: (i128, i128, i128))
    ensures
        r.0 == n.x,
        r.1 == n.y,
        r.2 == n.z,
{
    (n.x as i128, n.y as i128, n.z as i128)
}

/// The cross product of two normals.
fn cross_normals(a: Normal, b: Normal) -> (r: (i128, i128, i128))
    ensures
        (SpecVector { x: r.0 as int, y: r.1 as int, z: r.2 as int }) == cross(a@, b@),
        -0x1_0000_0000 <= r.0 <= 0x1_0000_0000,
        -0x1_0000_0000 <= r.1 <= 0x1_0000_0000,
        -0x1_0000_0000 <= r.2 <= 0x1_0000_0000,
{
    let a = widen_normal(a);
    let b = widen_normal(b);
    proof {
        lemma_product_bound(a.1 as int, b.2 as int, 0x8000, 0x8000);
        lemma_product_bound(a.2 as int, b.1 as int, 0x8000, 0x8000);
        lemma_product_bound(a.2 as int, b.0 as int, 0x8000, 0x8000);
        lemma_product_bound(a.0 as int, b.2 as int, 0x8000, 0x8000);
        lemma_product_bound(a.0 as int, b.1 as int, 0x8000, 0x8000);
        lemma_product_bound(a.1 as int, b.0 as int, 0x8000, 0x8000);
    }
    (a.1 * b.2 - a.2 * b.1, a.2 * b.0 - a.0 * b.2, a.0 * b.1 - a.1 * b.0)
}

/// Computes `rejected`.
fn reject_from(v: Vector3, n: Normal) -> (r: Vector3)
    ensures
        r@ == rejected(v@, n@),
{
    let wide_n = widen_normal(n);
    let wide_v = widen(v);
    let nn = dot_wide(wide_n, wide_n);
    proof {
        lemma_square_nonnegative(n.x as int);
        lemma_square_nonnegative(n.y as int);
        lemma_square_nonnegative(n.z as int);
    }
    if nn == 0 {
        return v;
    }
    let along = dot_wide(wide_v, wide_n);
    proof {
        lemma_product_bound(n.x as int, along as int, 0x8000, 0x3_0000_0000_0000_0000);
        lemma_product_bound(n.y as int, along as int, 0x8000, 0x3_0000_0000_0000_0000);
        lemma_product_bound(n.z as int, along as int, 0x8000, 0x3_0000_0000_0000_0000);
    }
    Vector3 {
        x: clamp(wide_v.0 - quotient(wide_n.0 * along, nn)),
        y: clamp(wide_v.1 - quotient(wide_n.1 * along, nn)),
        z: clamp(wide_v.2 - quotient(wide_n.2 * along, nn)),
    }
}

/// Computes `projected` for an axis whose coordinates fit in 33 bits.
fn project_onto(v: Vector3, axis: (i128, i128, i128)) -> (r: Vector3)
    requires
        -0x1_0000_0000 <= axis.0 <= 0x1_0000_0000,
        -0x1_0000_0000 <= axis.1 <= 0x1_0000_0000,
        -0x1_0000_0000 <= axis.2 <= 0x1_0000_0000,
    ensures
        r@ == projected(v@, SpecVector { x: axis.0 as int, y: axis.1 as int, z: axis.2 as int }),
{
    let wide_v = widen(v);
    let aa = dot_wide(axis, axis);
    proof {
        lemma_square_nonnegative(axis.0 as int);
        lemma_square_nonnegative(axis.1 as int);
        lemma_square_nonnegative(axis.2 as int);
    }
    if aa == 0 {
        return Vector3::zero();
    }
    let along = dot_wide(wide_v, axis);
    proof {
        lemma_product_bound(axis.0 as int, along as int, 0x1_0000_0000, 0x3_0000_0000_0000_0000);
        lemma_product_bound(axis.1 as int, along as int, 0x1_0000_0000, 0x3_0000_0000_0000_0000);
        lemma_product_bound(axis.2 as int, along as int, 0x1_0000_0000, 0x3_0000_0000_0000_0000);
    }
    Vector3 {
        x: clamp(quotient(axis.0 * along, aa)),
        y: clamp(quotient(axis.1 * along, aa)),
        z: clamp(quotient(axis.2 * along, aa)),
    }
}

/// Computes `clamped_sum`.
fn add_clamped(a: Vector3, b: Vector3) -> (r: Vector3)
    ensures
        r@ == clamped_sum(a@, b@),
{
    Vector3 {
        x: clamp(a.x as i128 + b.x as i128),
        y: clamp(a.y as i128 + b.y as i128),
        z: clamp(a.z as i128 + b.z as i128),
    }
}

/// Computes `clamped_difference`.
fn subtract_clamped(a: Vector3, b: Vector3) -> (r: Vector3)
    ensures
        r@ == clamped_difference(a@, b@),
{
    Vector3 {
        x: clamp(a.x as i128 - b.x as i128),
        y: clamp(a.y as i128 - b.y as i128),
        z: clamp(a.z as i128 - b.z as i128),
    }
}

/// Turns what is left of a movement along a surface that was met just now:
/// adds the surface's normal to the planes met so far, and computes `slid`.
pub fn calculate_sliding_velocity(
    planes: &mut Vec<Normal>,
    normal: Normal,
    velocity: Vector3,
) -> (r: Vector3)
    ensures
        final(planes)@ == old(planes)@.push(normal),
        r@ == slid(final(planes)@, velocity@),
{
    planes.push(normal);
    let mut result = reject_from(velocity, normal);
    let ghost start = result@;
    let mut j: usize = 1;
    while j < planes.len()
        invariant
            1 <= j <= planes@.len(),
            planes@ == old(planes)@.push(normal),
            result@ == creased(planes@, start, (j - 1) as nat),
        decreases planes@.len() - j,
    {
        let axis = cross_normals(planes[j - 1], planes[j]);
        result = project_onto(result, axis);
        j += 1;
    }
    result
}

/// A pass of movement: a character on its way through the world.
#[derive(Debug)]
pub struct SlidePass {
    translation: WorldPos,
    total_movement: Vector3,
    current_velocity: Vector3,
    collision_planes: Vec<Normal>,
    last_hit_normal: Option<Normal>,
    bumps: u32,
    done: bool,
    is_gravity_pass: bool,
}

impl View for SlidePass {
    type V = SlideModel;

    closed spec fn view(&self) -> SlideModel {
        SlideModel {
            translation: self.translation@,
            total_movement: self.total_movement@,
            current_velocity: self.current_velocity@,
            collision_planes: self.collision_planes@,
            last_hit_normal: self.last_hit_normal,
            bumps: self.bumps as int,
            done: self.done,
            is_gravity_pass: self.is_gravity_pass,
        }
    }
}

impl SlidePass {
    /// A pass uses no more casts than it may.
    pub open spec fn wf(&self) -> bool {
        0 <= self@.bumps <= MAX_BUMPS
    }

    /// Starts a pass that is to move a character, from `translation`, by
    /// `velocity`. A movement that is too small is not made at all.
    pub fn begin(translation: WorldPos, velocity: Vector3, is_gravity_pass: bool) -> (r: SlidePass)
        ensures
            r.wf(),
            r@ == slide_start(translation@, velocity@, is_gravity_pass),
    {
        let still = velocity.length_squared() < MIN_MOVEMENT;
        SlidePass {
            translation,
            total_movement: Vector3::zero(),
            current_velocity: if still {
                Vector3::zero()
            } else {
                velocity
            },
            collision_planes: Vec::new(),
            last_hit_normal: None,
            bumps: 0,
            done: still,
            is_gravity_pass,
        }
    }

    /// The cast that the pass asks for next, if it asks for any: the
    /// character's shape, from where it is, along what is left of its
    /// movement and no further.
    pub fn next_cast(&self) -> (r: Option<CastRequest>)
        ensures
            r is Some == awaits_cast(self@),
            r matches Some(request) ==> {
                &&& request.origin@ == self@.translation
                &&& request.direction@ == self@.current_velocity
                &&& is_ceil_sqrt(length_squared(self@.current_velocity), request.max_distance as int)
            },
    {
        if self.done || self.bumps >= MAX_BUMPS {
            return None;
        }
        let reach = self.current_velocity.length_squared();
        if reach < MIN_MOVEMENT {
            return None;
        }
        Some(
            CastRequest {
                origin: self.translation,
                direction: self.current_velocity,
                max_distance: ceil_sqrt(reach),
            },
        )
    }

    /// Takes note that the cast met nothing.
    pub fn on_miss(&mut self)
        requires
            old(self).wf(),
        ensures
            final(self).wf(),
            final(self)@ == after_miss(old(self)@),
    {
        if self.next_cast().is_none() {
            return ;
        }
        self.translation = to_position(
            add_clamped(to_vector(self.translation), self.current_velocity),
        );
        self.total_movement = add_clamped(self.total_movement, self.current_velocity);
        self.current_velocity = Vector3::zero();
        self.done = true;
    }

    /// Takes note that the cast met a surface. `angle` is the angle between
    /// the surface's normal and straight up.
    pub fn on_hit(
        &mut self,
        hit: ShapeHit,
        angle: i32,
        slope: Option<&KCCSlope>,
        floor_detection: Option<&KCCFloorDetection>,
    )
        requires
            old(self).wf(),
        ensures
            final(self).wf(),
            final(self)@ == after_hit(
                old(self)@,
                hit,
                stops_on_slope(slope, floor_detection, angle as int),
            ),
    {
        let request = match self.next_cast() {
            Some(request) => request,
            None => {
                return ;
            },
        };
        let length = request.max_distance;
        proof {
            lemma_ceil_sqrt_unique(length_squared(self@.current_velocity), length as int);
            if length == 0 {
                assert(length * length == 0) by (nonlinear_arith)
                    requires
                        length == 0,
                ;
            }
        }
        let safe: i128 = if hit.distance > COLLISION_EPSILON {
            hit.distance as i128 - COLLISION_EPSILON as i128
        } else {
            0
        };
        let v = self.current_velocity;
        proof {
            lemma_product_bound(v.x as int, safe as int, 0x8000_0000, 0x8000_0000);
            lemma_product_bound(v.y as int, safe as int, 0x8000_0000, 0x8000_0000);
            lemma_product_bound(v.z as int, safe as int, 0x8000_0000, 0x8000_0000);
        }
        let step = Vector3 {
            x: clamped_quotient(v.x as i128 * safe, length as i128),
            y: clamped_quotient(v.y as i128 * safe, length as i128),
            z: clamped_quotient(v.z as i128 * safe, length as i128),
        };
        assert(step@ == advance(v@, safe_distance(hit.distance as int)));
        self.translation = to_position(add_clamped(to_vector(self.translation), step));
        self.total_movement = add_clamped(self.total_movement, step);
        self.current_velocity = subtract_clamped(v, step);
        self.last_hit_normal = Some(hit.normal);
        self.bumps = self.bumps + 1;
        if self.is_gravity_pass && should_stop_on_slope(slope, floor_detection, angle) {
            self.done = true;
            return ;
        }
        let left = self.current_velocity;
        self.current_velocity = calculate_sliding_velocity(
            &mut self.collision_planes,
            hit.normal,
            left,
        );
    }

    /// Where the character is now.
    pub fn translation(&self) -> (r: WorldPos)
        ensures
            r@ == self@.translation,
    {
        self.translation
    }

    /// What the pass has come to so far.
    pub fn result(&self) -> (r: MovementResult)
        ensures
            r.movement@ == self@.total_movement,
            r.remaining_velocity@ == self@.current_velocity,
            r.hit_normal == self@.last_hit_normal,
    {
        MovementResult {
            movement: self.total_movement,
            remaining_velocity: self.current_velocity,
            hit_normal: self.last_hit_normal,
        }
    }
}

/// A point as the vector from the origin to it.
fn to_vector(p: WorldPos) -> (r: Vector3)
    ensures
        r@.x == p@.x,
        r@.y == p@.y,
        r@.z == p@.z,
{
    Vector3 { x: p.x, y: p.y, z: p.z }
}

/// The point that a vector from the origin leads to.
fn to_position(v: Vector3) -> (r: WorldPos)
    ensures
        r@.x == v@.x,
        r@.y == v@.y,
        r@.z == v@.z,
{
    WorldPos { x: v.x, y: v.y, z: v.z }
}

/// How far a character moves in `dt` thousandths of a second at the
/// velocity `v`.
pub open spec fn displacement_of(v: SpecVector, dt: int) -> SpecVector {
    SpecVector { x: scaled(v.x, dt, 1000), y: scaled(v.y, dt, 1000), z: scaled(v.z, dt, 1000) }
}

/// The velocity that covers `moved` in `dt` thousandths of a second, and
/// none where no time passes.
pub open spec fn velocity_of(moved: SpecVector, dt: int) -> SpecVector {
    if dt == 0 {
        SpecVector { x: 0, y: 0, z: 0 }
    } else {
        SpecVector {
            x: scaled(moved.x, 1000, dt),
            y: scaled(moved.y, 1000, dt),
            z: scaled(moved.z, 1000, dt),
        }
    }
}

/// Computes `displacement_of`.
pub fn displacement(velocity: Vector3, dt: u32) -> (r: Vector3)
    ensures
        r@ == displacement_of(velocity@, dt as int),
{
    proof {
        lemma_product_bound(velocity.x as int, dt as int, 0x8000_0000, 0x1_0000_0000);
        lemma_product_bound(velocity.y as int, dt as int, 0x8000_0000, 0x1_0000_0000);
        lemma_product_bound(velocity.z as int, dt as int, 0x8000_0000, 0x1_0000_0000);
    }
    Vector3 {
        x: clamped_quotient(velocity.x as i128 * dt as i128, 1000),
        y: clamped_quotient(velocity.y as i128 * dt as i128, 1000),
        z: clamped_quotient(velocity.z as i128 * dt as i128, 1000),
    }
}

/// Computes `velocity_of`.
pub fn velocity_from(moved: Vector3, dt: u32) -> (r: Vector3)
    ensures
        r@ == velocity_of(moved@, dt as int),
{
    if dt == 0 {
        return Vector3::zero();
    }
    Vector3 {
        x: clamped_quotient(moved.x as i128 * 1000, dt as i128),
        y: clamped_quotient(moved.y as i128 * 1000, dt as i128),
        z: clamped_quotient(moved.z as i128 * 1000, dt as i128),
    }
}

/// Starts the pass that moves a character by its own velocity for one tick
/// of `dt` thousandths of a second.
pub fn begin_movement(
    controller: &KinematicCharacterController,
    translation: WorldPos,
    dt: u32,
) -> (r: SlidePass)
    ensures
        r.wf(),
        r@ == slide_start(translation@, displacement_of(controller.velocity@, dt as int), false),
{
    SlidePass::begin(translation, displacement(controller.velocity, dt), false)
}

/// Ends the pass that moved a character by its own velocity: what is left
/// of the movement becomes the character's velocity.
pub fn end_movement(controller: &mut KinematicCharacterController, pass: &SlidePass, dt: u32)
    ensures
        final(controller).velocity@ == velocity_of(pass@.current_velocity, dt as int),
        final(controller).prev_velocity == old(controller).prev_velocity,
        final(controller).up == old(controller).up,
        final(controller).bounces == old(controller).bounces,
        final(controller).collider == old(controller).collider,
{
    controller.velocity = velocity_from(pass.result().remaining_velocity, dt);
}

/// Starts the pass that moves a character by the velocity that gravity has
/// built up, for one tick of `dt` thousandths of a second.
pub fn begin_gravity(gravity: &KCCGravity, translation: WorldPos, dt: u32) -> (r: SlidePass)
    ensures
        r.wf(),
        r@ == slide_start(
            translation@,
            displacement_of(gravity.current_velocity@, dt as int),
            true,
        ),
{
    SlidePass::begin(translation, displacement(gravity.current_velocity, dt), true)
}

/// Ends the pass that moved a character by gravity: if it met a surface,
/// what is left of the movement becomes the velocity that gravity has built
/// up.
pub fn end_gravity(gravity: &mut KCCGravity, pass: &SlidePass, dt: u32)
    ensures
        final(gravity).current_velocity@ == (if pass@.last_hit_normal is Some {
            velocity_of(pass@.current_velocity, dt as int)
        } else {
            old(gravity).current_velocity@
        }),
        final(gravity).terminal_velocity == old(gravity).terminal_velocity,
        final(gravity).acceleration_factor == old(gravity).acceleration_factor,
        final(gravity).direction == old(gravity).direction,
{
    let result = pass.result();
    if result.hit_normal.is_some() {
        gravity.current_velocity = velocity_from(result.remaining_velocity, dt);
    }
}

/// Where a character lies after it was pushed out of a surface that it
/// overlaps: along the surface's normal, by the depth of the overlap and the
/// depenetration epsilon.
pub open spec fn pushed_out(translation: SpecVector, hit: ShapeHit) -> SpecVector {
    let depth = hit.distance + DEPENETRATION_EPSILON;
    SpecVector {
        x: clamp_i32(translation.x + trunc_div(hit.normal.x * depth, 1000)),
        y: clamp_i32(translation.y + trunc_div(hit.normal.y * depth, 1000)),
        z: clamp_i32(translation.z + trunc_div(hit.normal.z * depth, 1000)),
    }
}

/// Pushes a character out of what a cast of no length found it to
/// overlap, and leaves it where the cast found nothing.
pub fn depenetrate(translation: &mut WorldPos, hit: Option<ShapeHit>)
    ensures
        final(translation)@ == match hit {
            Some(h) => pushed_out(old(translation)@, h),
            None => old(translation)@,
        },
{
    if let Some(h) = hit {
        let depth: i128 = h.distance as i128 + DEPENETRATION_EPSILON as i128;
        proof {
            lemma_product_bound(h.normal.x as int, depth as int, 0x8000, 0x1_0000_0000);
            lemma_product_bound(h.normal.y as int, depth as int, 0x8000, 0x1_0000_0000);
            lemma_product_bound(h.normal.z as int, depth as int, 0x8000, 0x1_0000_0000);
        }
        translation.x = clamp(translation.x as i128 + quotient(h.normal.x as i128 * depth, 1000));
        translation.y = clamp(translation.y as i128 + quotient(h.normal.y as i128 * depth, 1000));
        translation.z = clamp(translation.z as i128 + quotient(h.normal.z as i128 * depth, 1000));
    }
}

/// Where a tick of movement stands.
#[derive(Clone, Copy, Debug, PartialEq, Eq, Structural)]
pub enum TickPhase {
    /// The character moves by its own velocity.
    Movement,
    /// The character moves by the velocity that gravity has built up.
    Gravity,
    /// The character is about to be pushed out of what it overlaps.
    Depenetration,
    /// The tick is over.
    Done,
}

/// A cast that a tick of movement asks for.
#[derive(Clone, Copy, Debug, PartialEq, Eq, Structural)]
pub enum TickCast {
    /// The character's shape along what is left of its movement.
    Sweep(CastRequest),
    /// The character's shape where it is, straight down and no further than
    /// where it is, to find what it overlaps.
    Overlap(WorldPos),
}

/// What contracts see of a tick of movement.
pub struct TickModel {
    /// Where the tick stands.
    pub phase: TickPhase,
    /// The pass of movement in progress, or the last one made.
    pub pass: SlideModel,
    /// The length of the tick in thousandths of a second.
    pub dt: int,
    /// The character's velocity: as it was, until the pass that moves the
    /// character by it is over.
    pub velocity: SpecVector,
    /// The character's gravity, if it has any: as it was, until the pass
    /// that moves the character by it is over.
    pub gravity: Option<KCCGravity>,
    /// Where the character is once the tick is over.
    pub translation: SpecVector,
}

/// A character's gravity with the velocity `v` built up.
pub open spec fn with_velocity(gravity: KCCGravity, v: SpecVector) -> KCCGravity {
    KCCGravity { current_velocity: Vector3 { x: v.x as i32, y: v.y as i32, z: v.z as i32 }, ..gravity }
}

/// Leaves the pass that moves the character by its own velocity once it
/// asks for no more casts: what is left of the movement becomes the
/// character's velocity, and the pass that moves it by gravity begins where
/// the character has gravity. Without gravity the tick goes on to push the
/// character out of what it overlaps.
pub open spec fn settle_movement(tick: TickModel) -> TickModel {
    if tick.phase == TickPhase::Movement && !awaits_cast(tick.pass) {
        let velocity = velocity_of(tick.pass.current_velocity, tick.dt);
        match tick.gravity {
            Some(gravity) => TickModel {
                phase: TickPhase::Gravity,
                pass: slide_start(
                    tick.pass.translation,
                    displacement_of(gravity.current_velocity@, tick.dt),
                    true,
                ),
                velocity,
                ..tick
            },
            None => TickModel { phase: TickPhase::Depenetration, velocity, ..tick },
        }
    } else {
        tick
    }
}

/// Leaves the pass that moves the character by gravity once it asks for no
/// more casts: if the character met a surface, what is left of the movement
/// becomes the velocity that gravity has built up. The tick goes on to push
/// the character out of what it overlaps.
pub open spec fn settle_gravity(tick: TickModel) -> TickModel {
    if tick.phase == TickPhase::Gravity && !awaits_cast(tick.pass) {
        TickModel {
            phase: TickPhase::Depenetration,
            gravity: match tick.gravity {
                Some(gravity) => Some(
                    if tick.pass.last_hit_normal is Some {
                        with_velocity(gravity, velocity_of(tick.pass.current_velocity, tick.dt))
                    } else {
                        gravity
                    },
                ),
                None => None,
            },
            ..tick
        }
    } else {
        tick
    }
}

/// Moves a tick on to where it asks for its next cast.
pub open spec fn settle(tick: TickModel) -> TickModel {
    settle_gravity(settle_movement(tick))
}

/// A tick of movement at its start: the character is first moved by its own
/// velocity, then by gravity if it has any, and last pushed out of what it
/// overlaps.
pub open spec fn tick_start(
    controller: KinematicCharacterController,
    gravity: Option<KCCGravity>,
    translation: SpecVector,
    dt: int,
) -> TickModel {
    settle(
        TickModel {
            phase: TickPhase::Movement,
            pass: slide_start(translation, displacement_of(controller.velocity@, dt), false),
            dt,
            velocity: controller.velocity@,
            gravity,
            translation,
        },
    )
}

/// A tick of movement after the cast it asked for. `stop` tells whether
/// falling stops on the surface that was met.
pub open spec fn tick_after_cast(tick: TickModel, hit: Option<ShapeHit>, stop: bool) -> TickModel {
    match tick.phase {
        TickPhase::Movement | TickPhase::Gravity => settle(
            TickModel {
                pass: match hit {
                    Some(h) => after_hit(tick.pass, h, stop),
                    None => after_miss(tick.pass),
                },
                ..tick
            },
        ),
        TickPhase::Depenetration => TickModel {
            phase: TickPhase::Done,
            translation: match hit {
                Some(h) => pushed_out(tick.pass.translation, h),
                None => tick.pass.translation,
            },
            ..tick
        },
        TickPhase::Done => tick,
    }
}

/// A tick of movement after a run of casts, each with whether falling stops
/// on what it met.
pub open spec fn tick_after_casts(tick: TickModel, casts: Seq<(Option<ShapeHit>, bool)>) -> TickModel
    decreases casts.len(),
{
    if casts.len() == 0 {
        tick
    } else {
        tick_after_cast(tick_after_casts(tick, casts.drop_last()), casts.last().0, casts.last().1)
    }
}

/// The most casts that a tick may still ask for.
pub open spec fn casts_left(tick: TickModel) -> int {
    match tick.phase {
        TickPhase::Movement => (MAX_BUMPS - tick.pass.bumps) + MAX_BUMPS + 1,
        TickPhase::Gravity => (MAX_BUMPS - tick.pass.bumps) + 1,
        TickPhase::Depenetration => 1,
        TickPhase::Done => 0,
    }
}

/// A tick in which no pass has used more casts than it may, and which
/// stands where it asks for a cast.
pub open spec fn tick_wf(tick: TickModel) -> bool {
    &&& 0 <= tick.pass.bumps <= MAX_BUMPS
    &&& (tick.phase == TickPhase::Movement || tick.phase == TickPhase::Gravity) ==> awaits_cast(
        tick.pass,
    )
}

/// Moving a tick on leaves it where it asks for a cast, with no more casts
/// to go than before.
proof fn lemma_settle(tick: TickModel)
    requires
        0 <= tick.pass.bumps <= MAX_BUMPS,
    ensures
        tick_wf(settle(tick)),
        casts_left(settle(tick)) <= casts_left(tick),
{
}

/// Every cast brings a tick nearer to its end.
pub proof fn lemma_tick_progress(tick: TickModel, hit: Option<ShapeHit>, stop: bool)
    requires
        tick_wf(tick),
    ensures
        tick_wf(tick_after_cast(tick, hit, stop)),
        tick.phase != TickPhase::Done ==> casts_left(tick_after_cast(tick, hit, stop))
            < casts_left(tick),
        tick.phase == TickPhase::Done ==> tick_after_cast(tick, hit, stop) == tick,
{
    match tick.phase {
        TickPhase::Movement | TickPhase::Gravity => {
            let pass = match hit {
                Some(h) => after_hit(tick.pass, h, stop),
                None => after_miss(tick.pass),
            };
            let moved = TickModel { pass, ..tick };
            lemma_settle(moved);
            if !awaits_cast(pass) {
                assert(settle_movement(moved).phase != TickPhase::Movement);
            }
        },
        _ => {},
    }
}

/// A tick of movement terminates: whatever the casts meet, it asks for no
/// more than `MAX_BUMPS` casts in either pass and one more to find what the
/// character overlaps.
pub proof fn lemma_tick_terminates(
    controller: KinematicCharacterController,
    gravity: Option<KCCGravity>,
    translation: SpecVector,
    dt: int,
    casts: Seq<(Option<ShapeHit>, bool)>,
)
    requires
        casts.len() >= 2 * MAX_BUMPS + 1,
    ensures
        tick_after_casts(tick_start(controller, gravity, translation, dt), casts).phase
            == TickPhase::Done,
{
    let start = tick_start(controller, gravity, translation, dt);
    lemma_tick_start(controller, gravity, translation, dt);
    lemma_tick_run(start, casts);
}

/// A tick starts where it asks for a cast, with at most all of its casts to
/// go.
proof fn lemma_tick_start(
    controller: KinematicCharacterController,
    gravity: Option<KCCGravity>,
    translation: SpecVector,
    dt: int,
)
    ensures
        tick_wf(tick_start(controller, gravity, translation, dt)),
        casts_left(tick_start(controller, gravity, translation, dt)) <= 2 * MAX_BUMPS + 1,
{
    let first = TickModel {
        phase: TickPhase::Movement,
        pass: slide_start(translation, displacement_of(controller.velocity@, dt), false),
        dt,
        velocity: controller.velocity@,
        gravity,
        translation,
    };
    lemma_settle(first);
}

/// After `k` casts a tick has `k` casts fewer to go, or none.
proof fn lemma_tick_run(start: TickModel, casts: Seq<(Option<ShapeHit>, bool)>)
    requires
        tick_wf(start),
    ensures
        tick_wf(tick_after_casts(start, casts)),
        casts_left(tick_after_casts(start, casts)) <= casts_left(start) - casts.len()
            || tick_after_casts(start, casts).phase == TickPhase::Done,
        0 <= casts_left(tick_after_casts(start, casts)),
    decreases casts.len(),
{
    if casts.len() > 0 {
        lemma_tick_run(start, casts.drop_last());
        lemma_tick_progress(
            tick_after_casts(start, casts.drop_last()),
            casts.last().0,
            casts.last().1,
        );
    }
}

/// A tick of movement of one character: its passes of movement and what
/// they come to.
#[derive(Debug)]
pub struct CollideAndSlide {
    phase: TickPhase,
    pass: SlidePass,
    dt: u32,
    controller: KinematicCharacterController,
    gravity: Option<KCCGravity>,
    translation: WorldPos,
}

impl View for CollideAndSlide {
    type V = TickModel;

    closed spec fn view(&self) -> TickModel {
        TickModel {
            phase: self.phase,
            pass: self.pass@,
            dt: self.dt as int,
            velocity: self.controller.velocity@,
            gravity: self.gravity,
            translation: self.translation@,
        }
    }
}

/// Starts a tick of movement of `dt` thousandths of a second for a
/// character at `translation`.
pub fn collide_and_slide_system(
    controller: &KinematicCharacterController,
    gravity: Option<&KCCGravity>,
    translation: WorldPos,
    dt: u32,
) -> (r: CollideAndSlide)
    ensures
        r.wf(),
        r@ == tick_start(
            *controller,
            match gravity {
                Some(g) => Some(*g),
                None => None,
            },
            translation@,
            dt as int,
        ),
{
    let mut tick = CollideAndSlide {
        phase: TickPhase::Movement,
        pass: begin_movement(controller, translation, dt),
        dt,
        controller: *controller,
        gravity: match gravity {
            Some(g) => Some(*g),
            None => None,
        },
        translation,
    };
    proof {
        lemma_settle(tick@);
    }
    tick.settle();
    tick
}

impl CollideAndSlide {
    /// No pass has used more casts than it may, and the tick stands where
    /// it asks for a cast.
    pub open spec fn wf(&self) -> bool {
        tick_wf(self@)
    }

    /// Moves the tick on to where it asks for its next cast.
    fn settle(&mut self)
        requires
            0 <= old(self)@.pass.bumps <= MAX_BUMPS,
        ensures
            final(self)@ == settle(old(self)@),
    {
        if self.phase == TickPhase::Movement && self.pass.next_cast().is_none() {
            end_movement(&mut self.controller, &self.pass, self.dt);
            match self.gravity {
                Some(gravity) => {
                    self.pass = begin_gravity(&gravity, self.pass.translation(), self.dt);
                    self.phase = TickPhase::Gravity;
                },
                None => {
                    self.phase = TickPhase::Depenetration;
                },
            }
        }
        if self.phase == TickPhase::Gravity && self.pass.next_cast().is_none() {
            if let Some(gravity) = self.gravity {
                let mut after = gravity;
                end_gravity(&mut after, &self.pass, self.dt);
                proof {
                    lemma_velocity_fits(self.pass@.current_velocity, self.dt as int);
                }
                self.gravity = Some(after);
            }
            self.phase = TickPhase::Depenetration;
        }
    }

    /// Where the tick stands.
    pub fn phase(&self) -> (r: TickPhase)
        ensures
            r == self@.phase,
    {
        self.phase
    }

    /// The cast that the tick asks for next, if it asks for any.
    pub fn next_cast(&self) -> (r: Option<TickCast>)
        requires
            self.wf(),
        ensures
            match self@.phase {
                TickPhase::Movement | TickPhase::Gravity => r matches Some(TickCast::Sweep(request))
                    && request.origin@ == self@.pass.translation && request.direction@
                    == self@.pass.current_velocity && is_ceil_sqrt(
                    length_squared(self@.pass.current_velocity),
                    request.max_distance as int,
                ),
                TickPhase::Depenetration => r matches Some(TickCast::Overlap(origin)) && origin@
                    == self@.pass.translation,
                TickPhase::Done => r is None,
            },
    {
        match self.phase {
            TickPhase::Movement | TickPhase::Gravity => match self.pass.next_cast() {
                Some(request) => Some(TickCast::Sweep(request)),
                None => None,
            },
            TickPhase::Depenetration => Some(TickCast::Overlap(self.pass.translation())),
            TickPhase::Done => None,
        }
    }

    /// Takes note of what the cast that the tick asked for has met. `angle`
    /// is the angle between the normal of the surface met and straight up.
    pub fn on_cast(
        &mut self,
        hit: Option<ShapeHit>,
        angle: i32,
        slope: Option<&KCCSlope>,
        floor_detection: Option<&KCCFloorDetection>,
    )
        requires
            old(self).wf(),
        ensures
            final(self).wf(),
            final(self)@ == tick_after_cast(
                old(self)@,
                hit,
                stops_on_slope(slope, floor_detection, angle as int),
            ),
    {
        proof {
            lemma_tick_progress(self@, hit, stops_on_slope(slope, floor_detection, angle as int));
        }
        match self.phase {
            TickPhase::Movement | TickPhase::Gravity => {
                match hit {
                    Some(h) => self.pass.on_hit(h, angle, slope, floor_detection),
                    None => self.pass.on_miss(),
                }
                self.settle();
            },
            TickPhase::Depenetration => {
                let mut translation = self.pass.translation();
                depenetrate(&mut translation, hit);
                self.translation = translation;
                self.phase = TickPhase::Done;
            },
            TickPhase::Done => {},
        }
    }

    /// What the tick has come to: the character's velocity, its gravity and
    /// where it is. Until the tick is over, they are as they were when it
    /// began, but for what the passes that are over have changed.
    pub fn finish(
        &self,
        controller: &mut KinematicCharacterController,
        gravity: &mut Option<KCCGravity>,
        translation: &mut WorldPos,
    )
        ensures
            final(controller).velocity@ == self@.velocity,
            final(controller).prev_velocity == old(controller).prev_velocity,
            final(controller).up == old(controller).up,
            final(controller).bounces == old(controller).bounces,
            final(controller).collider == old(controller).collider,
            *final(gravity) == self@.gravity,
            final(translation)@ == self@.translation,
    {
        controller.velocity = self.controller.velocity;
        *gravity = self.gravity;
        *translation = self.translation;
    }
}

/// A velocity fits its coordinates.
proof fn lemma_velocity_fits(moved: SpecVector, dt: int)
    ensures
        i32::MIN <= velocity_of(moved, dt).x <= i32::MAX,
        i32::MIN <= velocity_of(moved, dt).y <= i32::MAX,
        i32::MIN <= velocity_of(moved, dt).z <= i32::MAX,
{
}

/// What a cast can come to.
pub enum CastOutcome {
    /// Nothing lies within reach.
    Miss,
    /// A surface lies within reach, and falling stops on it or not.
    Hit(ShapeHit, bool),
}

/// The pass after one cast.
pub open spec fn after_cast(pass: SlideModel, outcome: CastOutcome) -> SlideModel {
    match outcome {
        CastOutcome::Miss => after_miss(pass),
        CastOutcome::Hit(hit, stop) => after_hit(pass, hit, stop),
    }
}

/// The pass after a run of casts.
pub open spec fn after_casts(pass: SlideModel, outcomes: Seq<CastOutcome>) -> SlideModel
    decreases outcomes.len(),
{
    if outcomes.len() == 0 {
        pass
    } else {
        after_cast(after_casts(pass, outcomes.drop_last()), outcomes.last())
    }
}

/// A cast either ends the pass, uses up one of its casts, or finds it
/// over already and leaves it as it is.
pub proof fn lemma_cast_progress(pass: SlideModel, outcome: CastOutcome)
    requires
        0 <= pass.bumps <= MAX_BUMPS,
    ensures
        0 <= after_cast(pass, outcome).bumps <= MAX_BUMPS,
        !awaits_cast(pass) ==> after_cast(pass, outcome) == pass,
        awaits_cast(pass) ==> after_cast(pass, outcome).done || after_cast(pass, outcome).bumps
            == pass.bumps + 1,
        pass.done ==> after_cast(pass, outcome).done,
{
}

/// Collide-and-slide terminates: whatever the casts meet, a pass asks for no
/// more than `MAX_BUMPS` of them.
pub proof fn lemma_slide_terminates(
    translation: SpecVector,
    velocity: SpecVector,
    is_gravity_pass: bool,
    outcomes: Seq<CastOutcome>,
)
    requires
        outcomes.len() >= MAX_BUMPS,
    ensures
        !awaits_cast(after_casts(slide_start(translation, velocity, is_gravity_pass), outcomes)),
{
    let start = slide_start(translation, velocity, is_gravity_pass);
    lemma_slide_progress(start, outcomes);
}

/// After `k` casts a pass is at rest or has used up `k` casts.
proof fn lemma_slide_progress(start: SlideModel, outcomes: Seq<CastOutcome>)
    requires
        start.bumps == 0,
    ensures
        0 <= after_casts(start, outcomes).bumps <= MAX_BUMPS,
        !awaits_cast(after_casts(start, outcomes)) || after_casts(start, outcomes).bumps
            == outcomes.len(),
    decreases outcomes.len(),
{
    if outcomes.len() > 0 {
        lemma_slide_progress(start, outcomes.drop_last());
        lemma_cast_progress(after_casts(start, outcomes.drop_last()), outcomes.last());
    }
}

} // verus!
