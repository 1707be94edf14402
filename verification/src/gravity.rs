//! The force and integration pass: inverse-square attraction between the
//! particles and toward the pointer, a cap on acceleration, one explicit
//! Euler step, and a cap on velocity.
//!
//! Every particle is pulled by every other one, so one tick of `n`
//! particles evaluates `n * (n - 1)` pairs: the pass is meant for hundreds
//! of particles, not for millions.

use vstd::prelude::*;
use vstd::arithmetic::div_mod::lemma_div_multiples_vanish;
use crate::constants::{PName, Physics};
use crate::fixed::{
    ceil_sqrt, confine, confined, div_toward_zero, is_floor_sqrt, lemma_floor_sqrt_is,
    lemma_quotient_bounds, lemma_quotient_magnitude, magnitude, quotient, within_limit, LIMIT,
    ONE,
};
use crate::vec2::{
    all_within_limit, lemma_along_bound, lemma_along_negated, lemma_clamp_length_max,
    lemma_clamp_length_max_negated, lemma_clamp_length_max_reaches_cap, lemma_length_squared,
    Vec2, Vector,
};

verus! {

/// The gravitational constant of the pointer, 50000.0.
pub const CURSOR_GRAVITY: i64 = 50_000_000;

/// The mass of the pointer, 10000.0.
pub const CURSOR_MASS: i64 = 10_000_000;

/// The mass of a particle, 1.0.
pub const PARTICLE_MASS: i64 = 1_000;

/// The greatest speed of a particle, 500.0.
pub const MAX_PARTICLE_VELOCITY: i64 = 500_000;

/// The least squared distance that the inverse-square law is applied to,
/// 1.0 in squared units: nearer pairs attract as if at distance 1.0.
pub const SOFTENING: i64 = 1_000_000;

/// The microseconds in a second: time steps are given in microseconds.
pub const MICROS_PER_SECOND: i64 = 1_000_000;

/// The strength with which two particles attract each other under the
/// gravitational constant `g`: `g` times both masses.
pub open spec fn pair_strength(g: int) -> int {
    g * PARTICLE_MASS * PARTICLE_MASS
}

/// The strength with which the pointer attracts a particle: its
/// gravitational constant times its mass, on the scale of `pair_strength`.
pub open spec fn cursor_strength() -> int {
    CURSOR_GRAVITY * CURSOR_MASS * ONE
}

/// The acceleration that a source of the given strength causes at squared
/// distance `d2`: the strength over the squared distance, which counts as
/// `SOFTENING` where it is less.
pub open spec fn inverse_square(strength: int, d2: int) -> int {
    quotient(strength, if d2 < SOFTENING { SOFTENING as int } else { d2 })
}

/// The acceleration of a body at `from` toward a source of the given
/// strength at `to`: of the inverse-square magnitude, along `to - from`.
/// Where the two coincide there is no direction and no acceleration.
pub open spec fn attraction(from: Vector, to: Vector, strength: int) -> Vector {
    let delta = to.minus(from);
    delta.along(inverse_square(strength, delta.length_squared()))
}

/// The pull on particle `i` of the particles before `upto`, itself left
/// out: the sum of their attractions.
pub open spec fn swarm_pull(positions: Seq<Vec2>, i: int, g: int, upto: int) -> Vector
    decreases upto,
{
    if upto <= 0 {
        Vector::zero()
    } else if upto - 1 == i {
        swarm_pull(positions, i, g, upto - 1)
    } else {
        swarm_pull(positions, i, g, upto - 1).plus(
            attraction(positions[i]@, positions[upto - 1]@, pair_strength(g)),
        )
    }
}

/// The pull of the pointer on a particle at `position`: none where there is
/// no pointer.
pub open spec fn cursor_pull(position: Vector, cursor: Option<Vec2>) -> Vector {
    match cursor {
        Some(c) => attraction(position, c@, cursor_strength()),
        None => Vector::zero(),
    }
}

/// The whole acceleration of particle `i` before any cap: the pull of all
/// other particles and that of the pointer.
pub open spec fn net_acceleration(
    positions: Seq<Vec2>,
    i: int,
    g: int,
    cursor: Option<Vec2>,
) -> Vector {
    swarm_pull(positions, i, g, positions.len() as int).plus(cursor_pull(positions[i]@, cursor))
}

/// One explicit Euler step: the velocity plus the acceleration times the
/// time step of `dt` microseconds, each product rounded toward zero.
pub open spec fn integrate(velocity: Vector, acceleration: Vector, dt: int) -> Vector {
    Vector {
        x: velocity.x + quotient(acceleration.x * dt, MICROS_PER_SECOND as int),
        y: velocity.y + quotient(acceleration.y * dt, MICROS_PER_SECOND as int),
    }
}

/// The acceleration that is applied: the given one, capped at
/// `max_acceleration`. A component beyond the range of a 64-bit integer
/// counts as the end of that range.
pub open spec fn applied_acceleration(acceleration: Vector, max_acceleration: int) -> Vector {
    acceleration.confined(i64::MAX as int).clamp_length_max(max_acceleration)
}

/// The gravitational constant that a pass computes with: the store's,
/// confined to `LIMIT` where it is read.
pub open spec fn gravity_in_use(physics: Physics) -> int {
    confined(physics.entry(PName::InterParticleGravity).value as int, LIMIT as int)
}

/// The cap on acceleration that a pass computes with: the store's,
/// confined to `LIMIT` where it is read.
pub open spec fn max_acceleration_in_use(physics: Physics) -> int {
    confined(physics.entry(PName::MaxAcceleration).value as int, LIMIT as int)
}

/// The velocity after one tick: the acceleration capped at
/// `max_acceleration`, one Euler step of `dt` microseconds, and the outcome
/// capped at `MAX_PARTICLE_VELOCITY`.
pub open spec fn next_velocity(
    velocity: Vector,
    acceleration: Vector,
    max_acceleration: int,
    dt: int,
) -> Vector {
    integrate(velocity, applied_acceleration(acceleration, max_acceleration), dt).clamp_length_max(
        MAX_PARTICLE_VELOCITY as int,
    )
}

/// No velocity of `velocities` is longer than `MAX_PARTICLE_VELOCITY`.
pub open spec fn speeds_capped(velocities: Seq<Vec2>) -> bool {
    forall|i: int|
        0 <= i < velocities.len() ==> (#[trigger] velocities[i])@.length_squared()
            <= MAX_PARTICLE_VELOCITY * MAX_PARTICLE_VELOCITY
}

/// `after` are the velocities that one tick of mutual and pointer gravity
/// makes of `before`: each particle's own, moved by its whole acceleration.
pub open spec fn swarm_tick(
    before: Seq<Vec2>,
    after: Seq<Vec2>,
    positions: Seq<Vec2>,
    g: int,
    max_acceleration: int,
    cursor: Option<Vec2>,
    dt: int,
) -> bool {
    &&& after.len() == before.len()
    &&& forall|i: int|
        0 <= i < before.len() ==> (#[trigger] after[i])@ == next_velocity(
            before[i]@,
            net_acceleration(positions, i, g, cursor),
            max_acceleration,
            dt,
        )
}

/// `after` are the velocities that one tick of the pointer-only mode makes
/// of `before`: each particle's own, moved by the pull of the pointer
/// alone, while the pointer is engaged and present; else `before` itself.
pub open spec fn pointer_tick(
    before: Seq<Vec2>,
    after: Seq<Vec2>,
    positions: Seq<Vec2>,
    max_acceleration: int,
    cursor: Option<Vec2>,
    engaged: bool,
    dt: int,
) -> bool {
    if engaged && cursor is Some {
        &&& after.len() == before.len()
        &&& forall|i: int|
            0 <= i < before.len() ==> (#[trigger] after[i])@ == next_velocity(
                before[i]@,
                cursor_pull(positions[i]@, cursor),
                max_acceleration,
                dt,
            )
    } else {
        after == before
    }
}

/// The pass that a tick runs.
#[derive(Clone, Copy, Debug, PartialEq, Eq, Structural)]
pub enum Mode {
    /// Every particle is pulled by every other one and by the pointer.
    Swarm,
    /// Every particle is pulled by the pointer alone, while it is engaged.
    PointerOnly,
}

/// Two particles attract each other with the gravitational constant
/// itself at the softening distance, and never more.
pub proof fn lemma_pair_strength(g: int)
    ensures
        magnitude(pair_strength(g)) / (SOFTENING as int) == magnitude(g),
{
    assert(magnitude(pair_strength(g)) == magnitude(g) * 1_000_000);
    lemma_div_multiples_vanish(magnitude(g), 1_000_000);
}

/// An attraction is no longer than the inverse-square magnitude at the
/// distance of the two, and so no component of it is longer than the
/// strength over `SOFTENING`.
pub proof fn lemma_attraction_bound(from: Vector, to: Vector, strength: int)
    ensures
        attraction(from, to, strength).length_squared() <= inverse_square(
            strength,
            to.minus(from).length_squared(),
        ) * inverse_square(strength, to.minus(from).length_squared()),
        attraction(from, to, strength).within(magnitude(strength) / (SOFTENING as int)),
{
    let delta = to.minus(from);
    let d2 = delta.length_squared();
    let r2 = if d2 < SOFTENING { SOFTENING as int } else { d2 };
    lemma_quotient_bounds(strength, r2, SOFTENING as int);
    lemma_along_bound(delta, inverse_square(strength, d2));
}

/// Two bodies pull each other with equal strength in opposite directions:
/// the attraction of `a` toward `b` is the opposite of that of `b` toward
/// `a`.
pub proof fn lemma_attraction_opposite(a: Vector, b: Vector, strength: int)
    ensures
        attraction(a, b, strength) == attraction(b, a, strength).negated(),
        attraction(a, b, strength).length_squared() == attraction(
            b,
            a,
            strength,
        ).length_squared(),
{
    let ab = b.minus(a);
    let ba = a.minus(b);
    assert(ab == ba.negated());
    lemma_length_squared(ba);
    lemma_along_negated(ba, inverse_square(strength, ba.length_squared()));
    lemma_length_squared(attraction(b, a, strength));
}

/// Two particles at one position exert nothing on each other, whatever the
/// strength.
pub proof fn lemma_coincident_attraction_is_zero(p: Vector, strength: int)
    ensures
        attraction(p, p, strength) == Vector::zero(),
{
    let delta = p.minus(p);
    assert(delta == Vector::zero());
    lemma_along_bound(delta, inverse_square(strength, delta.length_squared()));
}

/// With exactly two particles and no pointer, the accelerations of the two
/// are opposite and equally long, before the cap and after it.
pub proof fn lemma_two_particles_mirror(a: Vec2, b: Vec2, g: int, max_acceleration: int)
    ensures
        net_acceleration(seq![a, b], 0, g, None) == net_acceleration(
            seq![a, b],
            1,
            g,
            None,
        ).negated(),
        net_acceleration(seq![a, b], 0, g, None).length_squared() == net_acceleration(
            seq![a, b],
            1,
            g,
            None,
        ).length_squared(),
        applied_acceleration(net_acceleration(seq![a, b], 0, g, None), max_acceleration)
            == applied_acceleration(
            net_acceleration(seq![a, b], 1, g, None),
            max_acceleration,
        ).negated(),
{
    let s = seq![a, b];
    reveal_with_fuel(swarm_pull, 3);
    assert(s[0] == a && s[1] == b);
    assert(swarm_pull(s, 0, g, 2) == Vector::zero().plus(attraction(a@, b@, pair_strength(g))));
    assert(swarm_pull(s, 1, g, 2) == Vector::zero().plus(attraction(b@, a@, pair_strength(g))));
    lemma_attraction_opposite(a@, b@, pair_strength(g));
    let second = net_acceleration(s, 1, g, None);
    assert(net_acceleration(s, 0, g, None) == second.negated());
    lemma_length_squared(second);
    let held = second.confined(i64::MAX as int);
    assert(second.negated().confined(i64::MAX as int) == held.negated());
    lemma_clamp_length_max_negated(held, max_acceleration);
}

/// A lone particle is pulled by the pointer alone.
pub proof fn lemma_lone_particle(p: Vec2, g: int, cursor: Option<Vec2>)
    ensures
        net_acceleration(seq![p], 0, g, cursor) == cursor_pull(p@, cursor),
        net_acceleration(seq![p], 0, g, None) == Vector::zero(),
{
    reveal_with_fuel(swarm_pull, 2);
    assert(seq![p][0] == p);
}

/// The acceleration that is applied is never longer than a non-negative
/// cap, whatever was summed, and is left as it is where it was within the
/// cap. Under a negative cap nothing is applied.
pub proof fn lemma_applied_acceleration_capped(acceleration: Vector, max_acceleration: int)
    ensures
        max_acceleration >= 0 ==> applied_acceleration(
            acceleration,
            max_acceleration,
        ).length_squared() <= max_acceleration * max_acceleration,
        max_acceleration >= 0 && acceleration.within(i64::MAX as int)
            && acceleration.length_squared() <= max_acceleration * max_acceleration
            ==> applied_acceleration(acceleration, max_acceleration) == acceleration,
        max_acceleration < 0 ==> applied_acceleration(acceleration, max_acceleration)
            == Vector::zero(),
{
    lemma_clamp_length_max(acceleration.confined(i64::MAX as int), max_acceleration);
}

/// Where neither cap cuts, one tick changes no component of a velocity by
/// more than the cap on acceleration times the time step.
pub proof fn lemma_velocity_change_bounded(
    velocity: Vector,
    acceleration: Vector,
    max_acceleration: int,
    dt: int,
)
    requires
        max_acceleration >= 0,
        dt >= 0,
        integrate(
            velocity,
            applied_acceleration(acceleration, max_acceleration),
            dt,
        ).length_squared() <= MAX_PARTICLE_VELOCITY * MAX_PARTICLE_VELOCITY,
    ensures
        magnitude(next_velocity(velocity, acceleration, max_acceleration, dt).x - velocity.x)
            * MICROS_PER_SECOND <= max_acceleration * dt,
        magnitude(next_velocity(velocity, acceleration, max_acceleration, dt).y - velocity.y)
            * MICROS_PER_SECOND <= max_acceleration * dt,
{
    let applied = applied_acceleration(acceleration, max_acceleration);
    lemma_clamp_length_max(acceleration.confined(i64::MAX as int), max_acceleration);
    lemma_clamp_length_max(integrate(velocity, applied, dt), MAX_PARTICLE_VELOCITY as int);
    lemma_quotient_magnitude(applied.x * dt, MICROS_PER_SECOND as int);
    lemma_quotient_magnitude(applied.y * dt, MICROS_PER_SECOND as int);
    assert(magnitude(applied.x * dt) <= max_acceleration * dt && magnitude(applied.y * dt)
        <= max_acceleration * dt) by (nonlinear_arith)
        requires
            -max_acceleration <= applied.x <= max_acceleration,
            -max_acceleration <= applied.y <= max_acceleration,
            dt >= 0,
    ;
}

/// After a tick no particle is faster than `MAX_PARTICLE_VELOCITY`. A
/// particle that the Euler step left within that speed keeps the velocity
/// that the step gave it; one that the step made faster ends at the
/// greatest speed, up to rounding: with each component lengthened by one
/// thousandth it is faster than that speed less one thousandth.
pub proof fn lemma_next_velocity_capped(
    velocity: Vector,
    acceleration: Vector,
    max_acceleration: int,
    dt: int,
)
    ensures
        next_velocity(velocity, acceleration, max_acceleration, dt).length_squared()
            <= MAX_PARTICLE_VELOCITY * MAX_PARTICLE_VELOCITY,
        integrate(
            velocity,
            applied_acceleration(acceleration, max_acceleration),
            dt,
        ).length_squared() <= MAX_PARTICLE_VELOCITY * MAX_PARTICLE_VELOCITY ==> next_velocity(
            velocity,
            acceleration,
            max_acceleration,
            dt,
        ) == integrate(velocity, applied_acceleration(acceleration, max_acceleration), dt),
        integrate(
            velocity,
            applied_acceleration(acceleration, max_acceleration),
            dt,
        ).length_squared() > MAX_PARTICLE_VELOCITY * MAX_PARTICLE_VELOCITY ==> (magnitude(
            next_velocity(velocity, acceleration, max_acceleration, dt).x,
        ) + 1) * (magnitude(next_velocity(velocity, acceleration, max_acceleration, dt).x) + 1) + (
        magnitude(next_velocity(velocity, acceleration, max_acceleration, dt).y) + 1) * (magnitude(
            next_velocity(velocity, acceleration, max_acceleration, dt).y,
        ) + 1) > (MAX_PARTICLE_VELOCITY - 1) * (MAX_PARTICLE_VELOCITY - 1),
{
    let stepped = integrate(velocity, applied_acceleration(acceleration, max_acceleration), dt);
    lemma_clamp_length_max(stepped, MAX_PARTICLE_VELOCITY as int);
    if stepped.length_squared() > MAX_PARTICLE_VELOCITY * MAX_PARTICLE_VELOCITY {
        lemma_clamp_length_max_reaches_cap(stepped, MAX_PARTICLE_VELOCITY as int);
    }
}

/// A particle at rest one unit below a second one, under a gravitational
/// constant `g` that neither cap cuts, has after one second the velocity
/// `g` straight toward the other.
pub proof fn lemma_unit_separation(g: int, max_acceleration: int)
    requires
        0 <= g <= max_acceleration,
        g <= MAX_PARTICLE_VELOCITY,
    ensures
        next_velocity(
            Vector::zero(),
            net_acceleration(
                seq![Vec2 { x: 0, y: 0 }, Vec2 { x: 0, y: ONE }],
                0,
                g,
                None,
            ),
            max_acceleration,
            MICROS_PER_SECOND as int,
        ) == (Vector { x: 0, y: g }),
{
    let a = Vec2 { x: 0, y: 0 };
    let b = Vec2 { x: 0, y: ONE };
    let s = seq![a, b];
    reveal_with_fuel(swarm_pull, 3);
    assert(s[0] == a && s[1] == b);
    let delta = b@.minus(a@);
    assert(delta == Vector { x: 0, y: 1000 });
    assert(delta.length_squared() == 1_000_000) by (nonlinear_arith)
        requires
            delta.x == 0,
            delta.y == 1000,
            delta.length_squared() == delta.x * delta.x + delta.y * delta.y,
    ;
    assert(is_floor_sqrt(1_000_000, 1000));
    lemma_floor_sqrt_is(1_000_000, 1000);
    assert(ceil_sqrt(1_000_000) == 1000);
    assert(pair_strength(g) == g * 1_000_000);
    lemma_div_multiples_vanish(g, 1_000_000);
    assert(inverse_square(pair_strength(g), 1_000_000) == g);
    lemma_div_multiples_vanish(g, 1000);
    assert(0 * g == 0 && 1000 * g == g * 1000) by (nonlinear_arith);
    assert(0int / 1000 == 0);
    let pull = attraction(a@, b@, pair_strength(g));
    assert(pull == Vector { x: 0, y: g });
    let net = net_acceleration(s, 0, g, None);
    assert(net == pull);
    assert(net.length_squared() == g * g);
    assert(g * g <= max_acceleration * max_acceleration) by (nonlinear_arith)
        requires
            0 <= g <= max_acceleration,
    ;
    let applied = applied_acceleration(net, max_acceleration);
    assert(applied == net);
    assert(0 * 1_000_000 == 0);
    let stepped = integrate(Vector::zero(), applied, MICROS_PER_SECOND as int);
    assert(stepped == Vector { x: 0, y: g });
    assert(g * g <= MAX_PARTICLE_VELOCITY * MAX_PARTICLE_VELOCITY) by (nonlinear_arith)
        requires
            0 <= g <= MAX_PARTICLE_VELOCITY,
    ;
}

/// The acceleration of a body at `from` toward a source of the given
/// strength at `to`.
pub fn attract(from: Vec2, to: Vec2, strength: i64) -> (r: Vec2)
    requires
        from@.within(LIMIT as int),
        to@.within(LIMIT as int),
        strength > i64::MIN,
    ensures
        r@ == attraction(from@, to@, strength as int),
        r@.within(magnitude(strength as int) / (SOFTENING as int)),
{
    let delta = to.minus(from);
    let d2: u128 = delta.length_squared();
    assert(d2 <= 0x8_0000_0000_0000_0000_0000) by (nonlinear_arith)
        requires
            d2 == delta.x * delta.x + delta.y * delta.y,
            -0x200_0000_0000 <= delta.x <= 0x200_0000_0000,
            -0x200_0000_0000 <= delta.y <= 0x200_0000_0000,
    ;
    let r2: u128 = if d2 < SOFTENING as u128 {
        SOFTENING as u128
    } else {
        d2
    };
    let a: i128 = div_toward_zero(strength as i128, r2 as i128);
    proof {
        lemma_attraction_bound(from@, to@, strength as int);
    }
    delta.along(a as i64)
}

/// The pull on particle `i` of all the other particles, summed in 128
/// bits, which hold the sum of any number of pulls.
fn sum_of_swarm(particle_positions: &Vec<Vec2>, i: usize, gravity: i64) -> (r: (i128, i128))
    requires
        i < particle_positions.len(),
        all_within_limit(particle_positions@),
        within_limit(gravity as int),
    ensures
        (Vector { x: r.0 as int, y: r.1 as int }) == swarm_pull(
            particle_positions@,
            i as int,
            gravity as int,
            particle_positions.len() as int,
        ),
        (Vector { x: r.0 as int, y: r.1 as int }).within(particle_positions.len() * LIMIT),
{
    let n: usize = particle_positions.len();
    let strength: i64 = gravity * PARTICLE_MASS * PARTICLE_MASS;
    let pos_i = particle_positions[i];
    let mut sum_x: i128 = 0;
    let mut sum_y: i128 = 0;
    let mut j: usize = 0;
    while j < n
        invariant
            n == particle_positions.len(),
            i < n,
            j <= n,
            all_within_limit(particle_positions@),
            pos_i == particle_positions@[i as int],
            within_limit(gravity as int),
            strength == pair_strength(gravity as int),
            (Vector { x: sum_x as int, y: sum_y as int }) == swarm_pull(
                particle_positions@,
                i as int,
                gravity as int,
                j as int,
            ),
            (Vector { x: sum_x as int, y: sum_y as int }).within(j * LIMIT),
        decreases n - j,
    {
        if j != i {
            let pull = attract(pos_i, particle_positions[j], strength);
            proof {
                lemma_pair_strength(gravity as int);
            }
            sum_x = sum_x + pull.x as i128;
            sum_y = sum_y + pull.y as i128;
        }
        j = j + 1;
    }
    (sum_x, sum_y)
}

/// The pull on particle `i` of all the other particles. A component
/// beyond the range of a 64-bit integer comes out as the end of that range.
pub fn pull_of_swarm(particle_positions: &Vec<Vec2>, i: usize, gravity: i64) -> (r: Vec2)
    requires
        i < particle_positions.len(),
        all_within_limit(particle_positions@),
        within_limit(gravity as int),
    ensures
        r@ == swarm_pull(
            particle_positions@,
            i as int,
            gravity as int,
            particle_positions.len() as int,
        ).confined(i64::MAX as int),
{
    let sum = sum_of_swarm(particle_positions, i, gravity);
    Vec2 { x: confine(sum.0, i64::MAX), y: confine(sum.1, i64::MAX) }
}

/// The pull of the pointer on a particle at `position`.
pub fn pull_of_cursor(position: Vec2, cursor_world: Option<Vec2>) -> (r: Vec2)
    requires
        position@.within(LIMIT as int),
        cursor_world matches Some(c) ==> c@.within(LIMIT as int),
    ensures
        r@ == cursor_pull(position@, cursor_world),
        r@.within(LIMIT as int),
{
    match cursor_world {
        Some(c) => {
            let strength: i64 = CURSOR_GRAVITY * CURSOR_MASS * ONE;
            attract(position, c, strength)
        },
        None => Vec2::zero(),
    }
}

/// The velocity after one tick under the given acceleration: the
/// acceleration capped, one Euler step of `dt` microseconds, and the speed
/// capped.
pub fn apply_acceleration(
    velocity: Vec2,
    acceleration: Vec2,
    max_acceleration: i64,
    dt: u32,
) -> (r: Vec2)
    requires
        velocity@.within(LIMIT as int),
        within_limit(max_acceleration as int),
    ensures
        r@ == next_velocity(velocity@, acceleration@, max_acceleration as int, dt as int),
        r@.length_squared() <= MAX_PARTICLE_VELOCITY * MAX_PARTICLE_VELOCITY,
        r@.within(MAX_PARTICLE_VELOCITY as int),
{
    let summed = Vec2 {
        x: confine(acceleration.x as i128, i64::MAX),
        y: confine(acceleration.y as i128, i64::MAX),
    };
    let applied = summed.clamp_length_max(max_acceleration);
    proof {
        lemma_clamp_length_max(summed@, max_acceleration as int);
    }
    let wide_dt: i128 = dt as i128;
    let ax: i128 = applied.x as i128;
    let ay: i128 = applied.y as i128;
    assert(-0x1_0000_0000_0000_0000_00 <= ax * wide_dt <= 0x1_0000_0000_0000_0000_00)
        by (nonlinear_arith)
        requires
            -0x100_0000_0000 <= ax <= 0x100_0000_0000,
            0 <= wide_dt <= 0x1_0000_0000,
    ;
    assert(-0x1_0000_0000_0000_0000_00 <= ay * wide_dt <= 0x1_0000_0000_0000_0000_00)
        by (nonlinear_arith)
        requires
            -0x100_0000_0000 <= ay <= 0x100_0000_0000,
            0 <= wide_dt <= 0x1_0000_0000,
    ;
    let dvx: i128 = div_toward_zero(ax * wide_dt, MICROS_PER_SECOND as i128);
    let dvy: i128 = div_toward_zero(ay * wide_dt, MICROS_PER_SECOND as i128);
    let stepped = Vec2 { x: (velocity.x as i128 + dvx) as i64, y: (velocity.y as i128 + dvy) as i64 };
    proof {
        lemma_clamp_length_max(stepped@, MAX_PARTICLE_VELOCITY as int);
    }
    stepped.clamp_length_max(MAX_PARTICLE_VELOCITY)
}

/// One tick of the swarm: every particle is pulled by every other one and,
/// where there is a pointer, by the pointer; the summed acceleration is
/// capped at the store's acceleration cap, the velocity takes one Euler
/// step of `dt` microseconds and is capped at `MAX_PARTICLE_VELOCITY`.
/// The two constants of the store are confined to `LIMIT` as they are
/// read. Positions are only read. With no particle nothing is written.
pub fn nbody_and_cursor_gravity(
    dt: u32,
    cursor_world: Option<Vec2>,
    physics_constants: &Physics,
    particle_positions: &Vec<Vec2>,
    velocities: &mut Vec<Vec2>,
)
    requires
        particle_positions.len() == old(velocities).len(),
        all_within_limit(particle_positions@),
        all_within_limit(old(velocities)@),
        cursor_world matches Some(c) ==> c@.within(LIMIT as int),
    ensures
        swarm_tick(
            old(velocities)@,
            final(velocities)@,
            particle_positions@,
            gravity_in_use(*physics_constants),
            max_acceleration_in_use(*physics_constants),
            cursor_world,
            dt as int,
        ),
        speeds_capped(final(velocities)@),
        all_within_limit(final(velocities)@),
        old(velocities)@.len() == 0 ==> final(velocities)@ == old(velocities)@,
{
    let n: usize = particle_positions.len();
    let gravity: i64 = confine(
        physics_constants.get(PName::InterParticleGravity).unwrap().value as i128,
        LIMIT,
    );
    let max_acceleration: i64 = confine(
        physics_constants.get_value(PName::MaxAcceleration).unwrap() as i128,
        LIMIT,
    );
    let mut i: usize = 0;
    while i < n
        invariant
            n == particle_positions.len(),
            n == velocities.len(),
            n == old(velocities).len(),
            i <= n,
            all_within_limit(particle_positions@),
            cursor_world matches Some(c) ==> c@.within(LIMIT as int),
            gravity == gravity_in_use(*physics_constants),
            max_acceleration == max_acceleration_in_use(*physics_constants),
            within_limit(gravity as int),
            within_limit(max_acceleration as int),
            forall|k: int| i <= k < n ==> velocities@[k] == old(velocities)@[k],
            forall|k: int| i <= k < n ==> (#[trigger] velocities@[k])@.within(LIMIT as int),
            forall|k: int|
                0 <= k < i ==> (#[trigger] velocities@[k])@ == next_velocity(
                    old(velocities)@[k]@,
                    net_acceleration(particle_positions@, k, gravity as int, cursor_world),
                    max_acceleration as int,
                    dt as int,
                ),
            forall|k: int|
                0 <= k < i ==> (#[trigger] velocities@[k])@.length_squared()
                    <= MAX_PARTICLE_VELOCITY * MAX_PARTICLE_VELOCITY,
            forall|k: int|
                0 <= k < i ==> (#[trigger] velocities@[k])@.within(MAX_PARTICLE_VELOCITY as int),
        decreases n - i,
    {
        let swarm = sum_of_swarm(particle_positions, i, gravity);
        let pointer = pull_of_cursor(particle_positions[i], cursor_world);
        let accel = Vec2 {
            x: confine(swarm.0 + pointer.x as i128, i64::MAX),
            y: confine(swarm.1 + pointer.y as i128, i64::MAX),
        };
        assert(accel@ == net_acceleration(
            particle_positions@,
            i as int,
            gravity as int,
            cursor_world,
        ).confined(i64::MAX as int));
        let velocity = apply_acceleration(velocities[i], accel, max_acceleration, dt);
        velocities[i] = velocity;
        i = i + 1;
    }
    proof {
        if n == 0 {
            assert(velocities@ =~= old(velocities)@);
        }
    }
}

/// One tick of the pointer-only mode: while the pointer is engaged and
/// present, every particle is pulled by the pointer alone, with the same
/// caps and the same Euler step as in the full pass; otherwise nothing is
/// written.
pub fn attract_particles_to_cursor(
    dt: u32,
    cursor_world: Option<Vec2>,
    engaged: bool,
    physics_constants: &Physics,
    particle_positions: &Vec<Vec2>,
    velocities: &mut Vec<Vec2>,
)
    requires
        particle_positions.len() == old(velocities).len(),
        all_within_limit(particle_positions@),
        all_within_limit(old(velocities)@),
        cursor_world matches Some(c) ==> c@.within(LIMIT as int),
    ensures
        pointer_tick(
            old(velocities)@,
            final(velocities)@,
            particle_positions@,
            max_acceleration_in_use(*physics_constants),
            cursor_world,
            engaged,
            dt as int,
        ),
        engaged && cursor_world is Some ==> speeds_capped(final(velocities)@),
        all_within_limit(final(velocities)@),
{
    if !engaged {
        return ;
    }
    if cursor_world.is_none() {
        return ;
    }
    let n: usize = particle_positions.len();
    let max_acceleration: i64 = confine(
        physics_constants.get_value(PName::MaxAcceleration).unwrap() as i128,
        LIMIT,
    );
    let mut i: usize = 0;
    while i < n
        invariant
            n == particle_positions.len(),
            n == velocities.len(),
            n == old(velocities).len(),
            i <= n,
            cursor_world is Some,
            all_within_limit(particle_positions@),
            cursor_world matches Some(c) ==> c@.within(LIMIT as int),
            max_acceleration == max_acceleration_in_use(*physics_constants),
            within_limit(max_acceleration as int),
            forall|k: int| i <= k < n ==> velocities@[k] == old(velocities)@[k],
            forall|k: int| i <= k < n ==> (#[trigger] velocities@[k])@.within(LIMIT as int),
            forall|k: int|
                0 <= k < i ==> (#[trigger] velocities@[k])@ == next_velocity(
                    old(velocities)@[k]@,
                    cursor_pull(particle_positions@[k]@, cursor_world),
                    max_acceleration as int,
                    dt as int,
                ),
            forall|k: int|
                0 <= k < i ==> (#[trigger] velocities@[k])@.length_squared()
                    <= MAX_PARTICLE_VELOCITY * MAX_PARTICLE_VELOCITY,
            forall|k: int|
                0 <= k < i ==> (#[trigger] velocities@[k])@.within(MAX_PARTICLE_VELOCITY as int),
        decreases n - i,
    {
        let accel = pull_of_cursor(particle_positions[i], cursor_world);
        let velocity = apply_acceleration(velocities[i], accel, max_acceleration, dt);
        velocities[i] = velocity;
        i = i + 1;
    }
}

/// One tick in the given mode: the full pass of `nbody_and_cursor_gravity`
/// or the pointer-only pass of `attract_particles_to_cursor`, never both.
/// `engaged` matters to the pointer-only mode alone.
pub fn tick(
    mode: Mode,
    engaged: bool,
    dt: u32,
    cursor_world: Option<Vec2>,
    physics_constants: &Physics,
    particle_positions: &Vec<Vec2>,
    velocities: &mut Vec<Vec2>,
)
    requires
        particle_positions.len() == old(velocities).len(),
        all_within_limit(particle_positions@),
        all_within_limit(old(velocities)@),
        cursor_world matches Some(c) ==> c@.within(LIMIT as int),
    ensures
        match mode {
            Mode::Swarm => swarm_tick(
                old(velocities)@,
                final(velocities)@,
                particle_positions@,
                gravity_in_use(*physics_constants),
                max_acceleration_in_use(*physics_constants),
                cursor_world,
                dt as int,
            ),
            Mode::PointerOnly => pointer_tick(
                old(velocities)@,
                final(velocities)@,
                particle_positions@,
                max_acceleration_in_use(*physics_constants),
                cursor_world,
                engaged,
                dt as int,
            ),
        },
        all_within_limit(final(velocities)@),
{
    match mode {
        Mode::Swarm => nbody_and_cursor_gravity(
            dt,
            cursor_world,
            physics_constants,
            particle_positions,
            velocities,
        ),
        Mode::PointerOnly => attract_particles_to_cursor(
            dt,
            cursor_world,
            engaged,
            physics_constants,
            particle_positions,
            velocities,
        ),
    }
}

} // verus!
