//! Plane vectors with fixed-point components.

use vstd::prelude::*;
use vstd::arithmetic::div_mod::{lemma_fundamental_div_mod, lemma_mod_bound};
use crate::fixed::{
    ceil_sqrt, confined, div_toward_zero, is_floor_sqrt, isqrt_ceil, lemma_ceil_sqrt,
    lemma_floor_sqrt, lemma_floor_sqrt_is, lemma_quotient_magnitude, lemma_quotient_odd,
    lemma_quotient_scaled, magnitude, quotient, LIMIT,
};

verus! {

/// A vector of the plane over the integers: what a `Vec2` stands for, and
/// what the contracts compute with.
pub struct Vector {
    pub x: int,
    pub y: int,
}

impl Vector {
    /// The zero vector.
    pub open spec fn zero() -> Vector {
        Vector { x: 0, y: 0 }
    }

    /// The sum of two vectors.
    pub open spec fn plus(self, other: Vector) -> Vector {
        Vector { x: self.x + other.x, y: self.y + other.y }
    }

    /// The difference of two vectors.
    pub open spec fn minus(self, other: Vector) -> Vector {
        Vector { x: self.x - other.x, y: self.y - other.y }
    }

    /// The opposite vector.
    pub open spec fn negated(self) -> Vector {
        Vector { x: -self.x, y: -self.y }
    }

    /// The square of the vector's length.
    pub open spec fn length_squared(self) -> int {
        self.x * self.x + self.y * self.y
    }

    /// Both components lie within `bound` of zero.
    pub open spec fn within(self, bound: int) -> bool {
        -bound <= self.x <= bound && -bound <= self.y <= bound
    }

    /// The vector with each component confined to the interval from
    /// `-bound` to `bound`.
    pub open spec fn confined(self, bound: int) -> Vector {
        Vector { x: confined(self.x, bound), y: confined(self.y, bound) }
    }

    /// The vector of signed length `a` along `self`: each component times
    /// `a`, over the length of `self` rounded up, rounded toward zero. The
    /// zero vector has no direction and gives the zero vector.
    pub open spec fn along(self, a: int) -> Vector {
        let len = ceil_sqrt(self.length_squared());
        if len == 0 {
            Vector::zero()
        } else {
            Vector { x: quotient(self.x * a, len), y: quotient(self.y * a, len) }
        }
    }

    /// The vector with its length capped at `max`: itself where its length
    /// does not exceed `max`, else rescaled to `max` along its own
    /// direction, each component rounded toward zero. A negative `max` caps
    /// at zero.
    pub open spec fn clamp_length_max(self, max: int) -> Vector {
        let cap = if max < 0 { 0 } else { max };
        if self.length_squared() <= cap * cap {
            self
        } else {
            let len = ceil_sqrt(self.length_squared());
            Vector { x: quotient(self.x * cap, len), y: quotient(self.y * cap, len) }
        }
    }
}

/// A vector of the plane with fixed-point components, in thousandths. The
/// passes over a swarm take positions and velocities whose components lie
/// within `LIMIT`; `Vec2::clamped` confines any pair of components to it.
#[derive(Clone, Copy, Debug, PartialEq, Eq, Structural)]
pub struct Vec2 {
    pub x: i64,
    pub y: i64,
}

impl View for Vec2 {
    type V = Vector;

    open spec fn view(&self) -> Vector {
        Vector { x: self.x as int, y: self.y as int }
    }
}

impl Vec2 {
    /// The vector with the given components.
    pub fn new(x: i64, y: i64) -> (r: Vec2)
        ensures
            r.x == x,
            r.y == y,
    {
        Vec2 { x, y }
    }

    /// The zero vector.
    pub fn zero() -> (r: Vec2)
        ensures
            r@ == Vector::zero(),
    {
        Vec2 { x: 0, y: 0 }
    }

    /// The vector with the given components, each confined to `LIMIT`.
    pub fn clamped(x: i64, y: i64) -> (r: Vec2)
        ensures
            r.x == confined(x as int, LIMIT as int),
            r.y == confined(y as int, LIMIT as int),
            r@.within(LIMIT as int),
    {
        let cx: i64 = if x < -LIMIT {
            -LIMIT
        } else if x > LIMIT {
            LIMIT
        } else {
            x
        };
        let cy: i64 = if y < -LIMIT {
            -LIMIT
        } else if y > LIMIT {
            LIMIT
        } else {
            y
        };
        Vec2 { x: cx, y: cy }
    }

    /// Whether both components lie within `LIMIT` of zero.
    pub fn is_within_limit(&self) -> (r: bool)
        ensures
            r == self@.within(LIMIT as int),
    {
        -LIMIT <= self.x && self.x <= LIMIT && -LIMIT <= self.y && self.y <= LIMIT
    }

    /// The square of the vector's length.
    pub fn length_squared(&self) -> (r: u128)
        ensures
            r as int == self@.length_squared(),
    {
        let wx: i128 = self.x as i128;
        let wy: i128 = self.y as i128;
        assert(0 <= wx * wx <= 0x4000_0000_0000_0000_0000_0000_0000_0000) by (nonlinear_arith)
            requires
                -0x8000_0000_0000_0000 <= wx <= 0x8000_0000_0000_0000,
        ;
        assert(0 <= wy * wy <= 0x4000_0000_0000_0000_0000_0000_0000_0000) by (nonlinear_arith)
            requires
                -0x8000_0000_0000_0000 <= wy <= 0x8000_0000_0000_0000,
        ;
        let sx: u128 = (wx * wx) as u128;
        let sy: u128 = (wy * wy) as u128;
        sx + sy
    }

    /// The difference `self - other` of two vectors within `LIMIT`.
    pub fn minus(self, other: Vec2) -> (r: Vec2)
        requires
            self@.within(LIMIT as int),
            other@.within(LIMIT as int),
        ensures
            r@ == self@.minus(other@),
            r@.within(2 * LIMIT),
    {
        Vec2 { x: self.x - other.x, y: self.y - other.y }
    }

    /// The vector of signed length `a` along `self`; the zero vector where
    /// `self` is the zero vector.
    pub fn along(self, a: i64) -> (r: Vec2)
        requires
            a > i64::MIN,
        ensures
            r@ == self@.along(a as int),
            r@.length_squared() <= a * a,
            r@.within(magnitude(a as int)),
    {
        let len: u128 = isqrt_ceil(self.length_squared());
        proof {
            lemma_length_squared(self@);
            lemma_ceil_sqrt(self@.length_squared());
            lemma_along_bound(self@, a as int);
        }
        if len == 0 {
            Vec2 { x: 0, y: 0 }
        } else {
            let wa: i128 = a as i128;
            let wx: i128 = self.x as i128;
            let wy: i128 = self.y as i128;
            assert(-0x4000_0000_0000_0000_0000_0000_0000_0000 <= wx * wa
                <= 0x4000_0000_0000_0000_0000_0000_0000_0000) by (nonlinear_arith)
                requires
                    -0x8000_0000_0000_0000 <= wx <= 0x8000_0000_0000_0000,
                    -0x8000_0000_0000_0000 <= wa <= 0x8000_0000_0000_0000,
            ;
            assert(-0x4000_0000_0000_0000_0000_0000_0000_0000 <= wy * wa
                <= 0x4000_0000_0000_0000_0000_0000_0000_0000) by (nonlinear_arith)
                requires
                    -0x8000_0000_0000_0000 <= wy <= 0x8000_0000_0000_0000,
                    -0x8000_0000_0000_0000 <= wa <= 0x8000_0000_0000_0000,
            ;
            let qx: i128 = div_toward_zero(wx * wa, len as i128);
            let qy: i128 = div_toward_zero(wy * wa, len as i128);
            Vec2 { x: qx as i64, y: qy as i64 }
        }
    }

    /// The vector with its length capped at `max`; a negative `max` caps at
    /// zero.
    pub fn clamp_length_max(self, max: i64) -> (r: Vec2)
        ensures
            r@ == self@.clamp_length_max(max as int),
            max >= 0 ==> r@.length_squared() <= max * max,
    {
        let cap: i64 = if max < 0 {
            0
        } else {
            max
        };
        let l2: u128 = self.length_squared();
        let wc: u128 = cap as u128;
        assert(wc * wc <= 0x4000_0000_0000_0000_0000_0000_0000_0000) by (nonlinear_arith)
            requires
                0 <= wc <= 0x8000_0000_0000_0000,
        ;
        proof {
            lemma_clamp_length_max(self@, max as int);
        }
        if l2 <= wc * wc {
            self
        } else {
            let len: u128 = isqrt_ceil(l2);
            let sc: i128 = cap as i128;
            let wx: i128 = self.x as i128;
            let wy: i128 = self.y as i128;
            assert(-0x4000_0000_0000_0000_0000_0000_0000_0000 <= wx * sc
                <= 0x4000_0000_0000_0000_0000_0000_0000_0000) by (nonlinear_arith)
                requires
                    -0x8000_0000_0000_0000 <= wx <= 0x8000_0000_0000_0000,
                    0 <= sc <= 0x8000_0000_0000_0000,
            ;
            assert(-0x4000_0000_0000_0000_0000_0000_0000_0000 <= wy * sc
                <= 0x4000_0000_0000_0000_0000_0000_0000_0000) by (nonlinear_arith)
                requires
                    -0x8000_0000_0000_0000 <= wy <= 0x8000_0000_0000_0000,
                    0 <= sc <= 0x8000_0000_0000_0000,
            ;
            proof {
                lemma_length_squared(self@);
                lemma_ceil_sqrt(l2 as int);
            }
            let qx: i128 = div_toward_zero(wx * sc, len as i128);
            let qy: i128 = div_toward_zero(wy * sc, len as i128);
            Vec2 { x: qx as i64, y: qy as i64 }
        }
    }
}

/// Every vector of `vs` has both components within `LIMIT`.
pub open spec fn all_within_limit(vs: Seq<Vec2>) -> bool {
    forall|i: int| 0 <= i < vs.len() ==> (#[trigger] vs[i])@.within(LIMIT as int)
}

/// Whether every vector of `vs` has both components within `LIMIT`.
pub fn is_all_within_limit(vs: &Vec<Vec2>) -> (r: bool)
    ensures
        r == all_within_limit(vs@),
{
    let mut i: usize = 0;
    while i < vs.len()
        invariant
            i <= vs.len(),
            forall|k: int| 0 <= k < i ==> (#[trigger] vs@[k])@.within(LIMIT as int),
        decreases vs.len() - i,
    {
        if !vs[i].is_within_limit() {
            return false;
        }
        i = i + 1;
    }
    true
}

/// A component is no longer than the vector: where the squared length is
/// below the square of `s + 1`, the magnitude of each component is at most
/// `s`.
pub proof fn lemma_component_below_length(v: Vector, s: int)
    requires
        0 <= s,
        v.length_squared() < (s + 1) * (s + 1),
    ensures
        magnitude(v.x) <= s,
        magnitude(v.y) <= s,
{
    let ax = magnitude(v.x);
    let ay = magnitude(v.y);
    assert(ax * ax == v.x * v.x) by (nonlinear_arith)
        requires
            ax == magnitude(v.x),
    ;
    assert(ay * ay == v.y * v.y) by (nonlinear_arith)
        requires
            ay == magnitude(v.y),
    ;
    assert(ax * ax >= 0 && ay * ay >= 0) by (nonlinear_arith);
    if ax > s {
        assert(ax * ax >= (s + 1) * (s + 1)) by (nonlinear_arith)
            requires
                ax >= s + 1,
                s >= 0,
        ;
    }
    if ay > s {
        assert(ay * ay >= (s + 1) * (s + 1)) by (nonlinear_arith)
            requires
                ay >= s + 1,
                s >= 0,
        ;
    }
}

/// The squared length is never negative, and is zero for the zero vector
/// alone.
pub proof fn lemma_length_squared(v: Vector)
    ensures
        v.length_squared() >= 0,
        v.length_squared() == 0 <==> v == Vector::zero(),
        v.negated().length_squared() == v.length_squared(),
{
    assert(v.x * v.x >= 0 && v.y * v.y >= 0) by (nonlinear_arith);
    assert(v.x != 0 ==> v.x * v.x > 0) by (nonlinear_arith);
    assert(v.y != 0 ==> v.y * v.y > 0) by (nonlinear_arith);
    assert((-v.x) * (-v.x) == v.x * v.x) by (nonlinear_arith);
    assert((-v.y) * (-v.y) == v.y * v.y) by (nonlinear_arith);
}

/// A vector rescaled by `c` over `s`, where `s` is positive and at least
/// the vector's length, is no longer than `c`.
pub proof fn lemma_rescaled_bound(v: Vector, c: int, s: int)
    requires
        s > 0,
        v.length_squared() <= s * s,
    ensures
        quotient(v.x * c, s) * quotient(v.x * c, s) + quotient(v.y * c, s) * quotient(v.y * c, s)
            <= c * c,
        magnitude(quotient(v.x * c, s)) <= magnitude(c),
        magnitude(quotient(v.y * c, s)) <= magnitude(c),
{
    let l2 = v.length_squared();
    let k = magnitude(c);
    let ax = magnitude(v.x);
    let ay = magnitude(v.y);
    let rx = quotient(v.x * c, s);
    let ry = quotient(v.y * c, s);
    let qx = magnitude(rx);
    let qy = magnitude(ry);
    assert(s * s < (s + 1) * (s + 1)) by (nonlinear_arith)
        requires
            s >= 0,
    ;
    lemma_component_below_length(v, s);
    lemma_quotient_scaled(v.x, c, s);
    lemma_quotient_scaled(v.y, c, s);
    lemma_quotient_magnitude(v.x * c, s);
    lemma_quotient_magnitude(v.y * c, s);
    assert(magnitude(v.x * c) == ax * k && magnitude(v.y * c) == ay * k) by (nonlinear_arith)
        requires
            k == magnitude(c),
            ax == magnitude(v.x),
            ay == magnitude(v.y),
    ;
    assert(0 <= qx * s && 0 <= qy * s) by (nonlinear_arith)
        requires
            0 <= qx,
            0 <= qy,
            0 < s,
    ;
    assert((qx * s) * (qx * s) <= (ax * k) * (ax * k)) by (nonlinear_arith)
        requires
            0 <= qx * s <= ax * k,
    ;
    assert((qy * s) * (qy * s) <= (ay * k) * (ay * k)) by (nonlinear_arith)
        requires
            0 <= qy * s <= ay * k,
    ;
    let s2 = s * s;
    let c2 = c * c;
    assert(s2 > 0) by (nonlinear_arith)
        requires
            s2 == s * s,
            s > 0,
    ;
    assert((qx * s) * (qx * s) == (qx * qx) * s2) by (nonlinear_arith)
        requires
            s2 == s * s,
    ;
    assert((qy * s) * (qy * s) == (qy * qy) * s2) by (nonlinear_arith)
        requires
            s2 == s * s,
    ;
    assert((ax * k) * (ax * k) == (v.x * v.x) * c2) by (nonlinear_arith)
        requires
            ax == magnitude(v.x),
            k == magnitude(c),
            c2 == c * c,
    ;
    assert((ay * k) * (ay * k) == (v.y * v.y) * c2) by (nonlinear_arith)
        requires
            ay == magnitude(v.y),
            k == magnitude(c),
            c2 == c * c,
    ;
    let q2 = qx * qx + qy * qy;
    assert(q2 * s2 <= l2 * c2) by (nonlinear_arith)
        requires
            (qx * qx) * s2 <= (v.x * v.x) * c2,
            (qy * qy) * s2 <= (v.y * v.y) * c2,
            q2 == qx * qx + qy * qy,
            l2 == v.x * v.x + v.y * v.y,
    ;
    assert(l2 * c2 <= s2 * c2) by (nonlinear_arith)
        requires
            l2 <= s2,
            c2 == c * c,
    ;
    assert(q2 <= c2) by (nonlinear_arith)
        requires
            q2 * s2 <= s2 * c2,
            s2 > 0,
    ;
    assert(rx * rx == qx * qx && ry * ry == qy * qy) by (nonlinear_arith)
        requires
            qx == magnitude(rx),
            qy == magnitude(ry),
    ;
}

/// What lies along a vector with signed length `a` is no longer than `a`,
/// and the zero vector gives the zero vector.
pub proof fn lemma_along_bound(v: Vector, a: int)
    ensures
        v.along(a).length_squared() <= a * a,
        v.along(a).within(magnitude(a)),
        v == Vector::zero() ==> v.along(a) == Vector::zero(),
{
    lemma_length_squared(v);
    lemma_ceil_sqrt(v.length_squared());
    lemma_floor_sqrt(v.length_squared());
    let len = ceil_sqrt(v.length_squared());
    if len != 0 {
        lemma_rescaled_bound(v, a, len);
    } else {
        assert(a * a >= 0) by (nonlinear_arith);
    }
    if v == Vector::zero() {
        assert(is_floor_sqrt(0, 0));
        lemma_floor_sqrt_is(0, 0);
    }
}

/// Turning a vector round turns round what lies along it.
pub proof fn lemma_along_negated(v: Vector, a: int)
    ensures
        v.negated().along(a) == v.along(a).negated(),
{
    lemma_length_squared(v);
    lemma_ceil_sqrt(v.length_squared());
    let len = ceil_sqrt(v.length_squared());
    if len != 0 {
        assert((-v.x) * a == -(v.x * a)) by (nonlinear_arith);
        assert((-v.y) * a == -(v.y * a)) by (nonlinear_arith);
        lemma_quotient_odd(v.x * a, len);
        lemma_quotient_odd(v.y * a, len);
    }
}

/// A capped vector is no longer than the cap, no component of it is longer
/// than the cap or than it was, and none has changed sign. A vector that
/// was within the cap is unchanged.
pub proof fn lemma_clamp_length_max(v: Vector, max: int)
    ensures
        max >= 0 ==> v.clamp_length_max(max).length_squared() <= max * max,
        max < 0 ==> v.clamp_length_max(max) == Vector::zero(),
        max >= 0 && v.length_squared() <= max * max ==> v.clamp_length_max(max) == v,
        v.clamp_length_max(max).within(if max < 0 { 0 } else { max }),
        magnitude(v.clamp_length_max(max).x) <= magnitude(v.x),
        magnitude(v.clamp_length_max(max).y) <= magnitude(v.y),
        v.x >= 0 ==> v.clamp_length_max(max).x >= 0,
        v.x <= 0 ==> v.clamp_length_max(max).x <= 0,
        v.y >= 0 ==> v.clamp_length_max(max).y >= 0,
        v.y <= 0 ==> v.clamp_length_max(max).y <= 0,
{
    let cap = if max < 0 { 0 } else { max };
    let l2 = v.length_squared();
    let r = v.clamp_length_max(max);
    lemma_length_squared(v);
    if l2 <= cap * cap {
        assert(cap * cap < (cap + 1) * (cap + 1)) by (nonlinear_arith)
            requires
                cap >= 0,
        ;
        lemma_component_below_length(v, cap);
    } else {
        assert(l2 > 0) by (nonlinear_arith)
            requires
                l2 > cap * cap,
        ;
        lemma_ceil_sqrt(l2);
        let s = ceil_sqrt(l2);
        lemma_rescaled_bound(v, cap, s);
        lemma_quotient_magnitude(v.x * cap, s);
        lemma_quotient_magnitude(v.y * cap, s);
        let qx = magnitude(r.x);
        let qy = magnitude(r.y);
        let ax = magnitude(v.x);
        let ay = magnitude(v.y);
        assert(magnitude(v.x * cap) == ax * cap && magnitude(v.y * cap) == ay * cap)
            by (nonlinear_arith)
            requires
                cap >= 0,
                ax == magnitude(v.x),
                ay == magnitude(v.y),
        ;
        // the cap is below the length, so rescaling shortens each component
        assert(cap < s) by (nonlinear_arith)
            requires
                cap * cap < l2,
                l2 <= s * s,
                cap >= 0,
                s >= 0,
        ;
        assert(qx <= ax) by (nonlinear_arith)
            requires
                qx * s <= ax * cap,
                cap < s,
                0 <= cap,
                0 <= ax,
                0 <= qx,
        ;
        assert(qy <= ay) by (nonlinear_arith)
            requires
                qy * s <= ay * cap,
                cap < s,
                0 <= cap,
                0 <= ay,
                0 <= qy,
        ;
        assert(v.x >= 0 ==> v.x * cap >= 0) by (nonlinear_arith)
            requires
                cap >= 0,
        ;
        assert(v.x <= 0 ==> v.x * cap <= 0) by (nonlinear_arith)
            requires
                cap >= 0,
        ;
        assert(v.y >= 0 ==> v.y * cap >= 0) by (nonlinear_arith)
            requires
                cap >= 0,
        ;
        assert(v.y <= 0 ==> v.y * cap <= 0) by (nonlinear_arith)
            requires
                cap >= 0,
        ;
    }
}

/// A vector that was longer than a positive cap comes out as long as the
/// cap, up to rounding: lengthen each component of the capped vector by one
/// thousandth, and it is longer than the cap less one thousandth.
pub proof fn lemma_clamp_length_max_reaches_cap(v: Vector, max: int)
    requires
        max >= 1,
        v.length_squared() > max * max,
    ensures
        (magnitude(v.clamp_length_max(max).x) + 1) * (magnitude(v.clamp_length_max(max).x) + 1) + (
        magnitude(v.clamp_length_max(max).y) + 1) * (magnitude(v.clamp_length_max(max).y) + 1) > (
        max - 1) * (max - 1),
{
    let c = max;
    let l2 = v.length_squared();
    let r = v.clamp_length_max(max);
    assert(l2 > 0) by (nonlinear_arith)
        requires
            l2 > c * c,
    ;
    lemma_ceil_sqrt(l2);
    let s = ceil_sqrt(l2);
    assert(c < s) by (nonlinear_arith)
        requires
            c * c < l2,
            l2 <= s * s,
            c >= 0,
            s >= 0,
    ;
    let ax = magnitude(v.x);
    let ay = magnitude(v.y);
    let qx = magnitude(r.x);
    let qy = magnitude(r.y);
    lemma_quotient_magnitude(v.x * c, s);
    lemma_quotient_magnitude(v.y * c, s);
    assert(magnitude(v.x * c) == ax * c && magnitude(v.y * c) == ay * c) by (nonlinear_arith)
        requires
            c >= 0,
            ax == magnitude(v.x),
            ay == magnitude(v.y),
    ;
    lemma_fundamental_div_mod(ax * c, s);
    lemma_mod_bound(ax * c, s);
    lemma_fundamental_div_mod(ay * c, s);
    lemma_mod_bound(ay * c, s);
    let hx = (qx + 1) * s;
    let hy = (qy + 1) * s;
    assert(hx > ax * c && hy > ay * c) by (nonlinear_arith)
        requires
            hx == (qx + 1) * s,
            hy == (qy + 1) * s,
            ax * c == s * qx + (ax * c) % s,
            ay * c == s * qy + (ay * c) % s,
            (ax * c) % s < s,
            (ay * c) % s < s,
    ;
    assert(ax * c >= 0 && ay * c >= 0) by (nonlinear_arith)
        requires
            ax >= 0,
            ay >= 0,
            c >= 0,
    ;
    assert(hx * hx > (ax * c) * (ax * c)) by (nonlinear_arith)
        requires
            hx > ax * c,
            ax * c >= 0,
    ;
    assert(hy * hy > (ay * c) * (ay * c)) by (nonlinear_arith)
        requires
            hy > ay * c,
            ay * c >= 0,
    ;
    let s2 = s * s;
    let c2 = c * c;
    assert(hx * hx == ((qx + 1) * (qx + 1)) * s2) by (nonlinear_arith)
        requires
            hx == (qx + 1) * s,
            s2 == s * s,
    ;
    assert(hy * hy == ((qy + 1) * (qy + 1)) * s2) by (nonlinear_arith)
        requires
            hy == (qy + 1) * s,
            s2 == s * s,
    ;
    assert((ax * c) * (ax * c) == (v.x * v.x) * c2) by (nonlinear_arith)
        requires
            ax == magnitude(v.x),
            c2 == c * c,
    ;
    assert((ay * c) * (ay * c) == (v.y * v.y) * c2) by (nonlinear_arith)
        requires
            ay == magnitude(v.y),
            c2 == c * c,
    ;
    let t = (qx + 1) * (qx + 1) + (qy + 1) * (qy + 1);
    assert(t * s2 > l2 * c2) by (nonlinear_arith)
        requires
            ((qx + 1) * (qx + 1)) * s2 > (v.x * v.x) * c2,
            ((qy + 1) * (qy + 1)) * s2 > (v.y * v.y) * c2,
            t == (qx + 1) * (qx + 1) + (qy + 1) * (qy + 1),
            l2 == v.x * v.x + v.y * v.y,
    ;
    let below = (s - 1) * (s - 1);
    assert(l2 * c2 >= below * c2) by (nonlinear_arith)
        requires
            l2 > below,
            c2 >= 0,
    ;
    let near = (s - 1) * c;
    let far = (c - 1) * s;
    assert(near >= far && far >= 0) by (nonlinear_arith)
        requires
            near == (s - 1) * c,
            far == (c - 1) * s,
            s > c,
            c >= 1,
    ;
    assert(near * near >= far * far) by (nonlinear_arith)
        requires
            near >= far,
            far >= 0,
    ;
    assert(near * near == below * c2) by (nonlinear_arith)
        requires
            near == (s - 1) * c,
            below == (s - 1) * (s - 1),
            c2 == c * c,
    ;
    assert(far * far == ((c - 1) * (c - 1)) * s2) by (nonlinear_arith)
        requires
            far == (c - 1) * s,
            s2 == s * s,
    ;
    assert(t > (c - 1) * (c - 1)) by (nonlinear_arith)
        requires
            t * s2 > ((c - 1) * (c - 1)) * s2,
            s2 > 0,
    ;
}

/// Capping the opposite vector gives the opposite of the capped vector.
pub proof fn lemma_clamp_length_max_negated(v: Vector, max: int)
    ensures
        v.negated().clamp_length_max(max) == v.clamp_length_max(max).negated(),
{
    let cap = if max < 0 { 0 } else { max };
    lemma_length_squared(v);
    if v.length_squared() > cap * cap {
        assert(v.length_squared() > 0) by (nonlinear_arith)
            requires
                v.length_squared() > cap * cap,
        ;
        lemma_ceil_sqrt(v.length_squared());
        let len = ceil_sqrt(v.length_squared());
        assert((-v.x) * cap == -(v.x * cap)) by (nonlinear_arith);
        assert((-v.y) * cap == -(v.y * cap)) by (nonlinear_arith);
        lemma_quotient_odd(v.x * cap, len);
        lemma_quotient_odd(v.y * cap, len);
    }
}

} // verus!
