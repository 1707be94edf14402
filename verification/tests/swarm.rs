use particle_gravity::constants::{PName, Physics};
use particle_gravity::fixed::LIMIT;
use particle_gravity::gravity::{
    apply_acceleration, attract, attract_particles_to_cursor, nbody_and_cursor_gravity,
    pull_of_cursor, pull_of_swarm, tick, Mode, MAX_PARTICLE_VELOCITY,
};
use particle_gravity::vec2::{is_all_within_limit, Vec2};

const SECOND: u32 = 1_000_000;
const FRAME: u32 = 16_667;
const PAIR: i64 = 1_000_000;

fn physics_with(gravity: i64, max_acceleration: i64) -> Physics {
    let mut physics = Physics::default();
    physics.get_mut(PName::InterParticleGravity).unwrap().value = gravity;
    physics.get_mut(PName::MaxAcceleration).unwrap().value = max_acceleration;
    physics
}

fn at_rest(n: usize) -> Vec<Vec2> {
    vec![Vec2::new(0, 0); n]
}

#[test]
fn unit_separation_gives_the_gravitational_constant() {
    let positions = vec![Vec2::new(0, 0), Vec2::new(0, 1000)];
    let mut velocities = at_rest(2);
    let physics = physics_with(300_000, 4_000_000);
    nbody_and_cursor_gravity(SECOND, None, &physics, &positions, &mut velocities);
    assert_eq!(velocities[0], Vec2::new(0, 300_000));
    assert_eq!(velocities[1], Vec2::new(0, -300_000));
}

#[test]
fn no_particle_no_write() {
    let positions: Vec<Vec2> = Vec::new();
    let mut velocities: Vec<Vec2> = Vec::new();
    nbody_and_cursor_gravity(FRAME, Some(Vec2::new(5, 5)), &Physics::default(), &positions, &mut velocities);
    assert!(velocities.is_empty());
    attract_particles_to_cursor(FRAME, Some(Vec2::new(5, 5)), true, &Physics::default(), &positions, &mut velocities);
    assert!(velocities.is_empty());
}

#[test]
fn a_lone_particle_without_pointer_keeps_its_velocity() {
    let positions = vec![Vec2::new(7000, -3000)];
    let mut velocities = vec![Vec2::new(1234, -5678)];
    nbody_and_cursor_gravity(FRAME, None, &Physics::default(), &positions, &mut velocities);
    assert_eq!(velocities, vec![Vec2::new(1234, -5678)]);
}

#[test]
fn a_lone_particle_follows_the_pointer() {
    let positions = vec![Vec2::new(0, 0)];
    let mut velocities = at_rest(1);
    nbody_and_cursor_gravity(SECOND, Some(Vec2::new(30_000, 40_000)), &Physics::default(), &positions, &mut velocities);
    assert_eq!(velocities, vec![Vec2::new(300_000, 400_000)]);
}

#[test]
fn two_particles_mirror_each_other() {
    let positions = vec![Vec2::new(0, 0), Vec2::new(3000, 4000)];
    assert_eq!(pull_of_swarm(&positions, 0, 400_000_000), Vec2::new(9_600_000, 12_800_000));
    assert_eq!(pull_of_swarm(&positions, 1, 400_000_000), Vec2::new(-9_600_000, -12_800_000));
    let mut velocities = at_rest(2);
    nbody_and_cursor_gravity(FRAME, None, &Physics::default(), &positions, &mut velocities);
    assert_eq!(velocities, vec![Vec2::new(40_000, 53_334), Vec2::new(-40_000, -53_334)]);
}

#[test]
fn coincident_particles_exert_nothing() {
    let p = Vec2::new(12_345, -678);
    assert_eq!(attract(p, p, 400_000_000 * PAIR), Vec2::new(0, 0));
    let positions = vec![p, p];
    let mut velocities = vec![Vec2::new(10, 20), Vec2::new(-30, 40)];
    nbody_and_cursor_gravity(SECOND, None, &Physics::default(), &positions, &mut velocities);
    assert_eq!(velocities, vec![Vec2::new(10, 20), Vec2::new(-30, 40)]);
}

#[test]
fn a_pointer_on_a_particle_exerts_nothing() {
    let p = Vec2::new(-4000, 9000);
    assert_eq!(pull_of_cursor(p, Some(p)), Vec2::new(0, 0));
    assert_eq!(pull_of_cursor(p, None), Vec2::new(0, 0));
}

#[test]
fn near_pairs_attract_as_at_unit_distance() {
    let o = Vec2::new(0, 0);
    let s = 400_000_000 * PAIR;
    assert_eq!(attract(o, Vec2::new(0, 500), s), Vec2::new(0, 400_000_000));
    assert_eq!(attract(o, Vec2::new(0, 1), s), Vec2::new(0, 400_000_000));
    assert_eq!(attract(o, Vec2::new(300, 400), s), Vec2::new(240_000_000, 320_000_000));
    assert_eq!(attract(o, Vec2::new(0, 1000), s), Vec2::new(0, 400_000_000));
}

#[test]
fn attraction_falls_with_the_square_of_the_distance() {
    let o = Vec2::new(0, 0);
    let s = 400_000_000 * PAIR;
    assert_eq!(attract(o, Vec2::new(0, 2000), s), Vec2::new(0, 100_000_000));
    assert_eq!(attract(o, Vec2::new(0, -2000), s), Vec2::new(0, -100_000_000));
    assert_eq!(attract(Vec2::new(0, 2000), o, s), Vec2::new(0, -100_000_000));
}

#[test]
fn the_pointer_pulls_with_its_own_strength() {
    let o = Vec2::new(0, 0);
    assert_eq!(pull_of_cursor(o, Some(Vec2::new(30_000, 40_000))), Vec2::new(120_000_000, 160_000_000));
    let mut physics = Physics::default();
    physics.get_mut(PName::InterParticleGravity).unwrap().value = 0;
    let positions = vec![o];
    let mut velocities = at_rest(1);
    nbody_and_cursor_gravity(FRAME, Some(Vec2::new(30_000, 40_000)), &physics, &positions, &mut velocities);
    assert_eq!(velocities, vec![Vec2::new(40_000, 53_334)]);
}

#[test]
fn a_negative_constant_repels() {
    let positions = vec![Vec2::new(0, 0), Vec2::new(0, 1000)];
    assert_eq!(pull_of_swarm(&positions, 0, -2000), Vec2::new(0, -2000));
    assert_eq!(pull_of_swarm(&positions, 1, -2000), Vec2::new(0, 2000));
}

#[test]
fn three_particles_and_a_pointer() {
    let positions = vec![Vec2::new(0, 0), Vec2::new(3000, 4000), Vec2::new(-5000, 12_000)];
    assert_eq!(pull_of_swarm(&positions, 0, 400_000_000), Vec2::new(8_689_669, 14_984_796));
    assert_eq!(pull_of_swarm(&positions, 1, 400_000_000), Vec2::new(-11_809_651, -10_590_349));
    assert_eq!(pull_of_swarm(&positions, 2, 400_000_000), Vec2::new(3_119_982, -4_394_447));
    let mut velocities = vec![Vec2::new(1000, -2000), Vec2::new(0, 0), Vec2::new(250, 250)];
    nbody_and_cursor_gravity(FRAME, Some(Vec2::new(10_000, -10_000)), &Physics::default(), &positions, &mut velocities);
    assert_eq!(velocities, vec![Vec2::new(48_456, -48_824), Vec2::new(29_367, -59_851), Vec2::new(37_814, -54_827)]);
}

#[test]
fn the_acceleration_is_capped_before_the_step() {
    let v = apply_acceleration(Vec2::new(0, 0), Vec2::new(9_600_000, 12_800_000), 4_000_000, SECOND);
    assert_eq!(v, Vec2::new(300_000, 400_000));
    let slow = apply_acceleration(Vec2::new(0, 0), Vec2::new(9_600_000, 12_800_000), 100_000, SECOND);
    assert_eq!(slow, Vec2::new(60_000, 80_000));
    let free = apply_acceleration(Vec2::new(0, 0), Vec2::new(3000, 4000), 100_000, SECOND);
    assert_eq!(free, Vec2::new(3000, 4000));
}

#[test]
fn a_negative_cap_applies_nothing() {
    let v = apply_acceleration(Vec2::new(100, 100), Vec2::new(3000, 4000), -5, SECOND);
    assert_eq!(v, Vec2::new(100, 100));
}

#[test]
fn no_time_no_change() {
    let v = apply_acceleration(Vec2::new(100, -100), Vec2::new(3000, 4000), 4_000_000, 0);
    assert_eq!(v, Vec2::new(100, -100));
}

#[test]
fn the_speed_is_capped_after_the_step() {
    let v = apply_acceleration(Vec2::new(400_000, 300_000), Vec2::new(3_000_000, 4_000_000), 40_000_000, SECOND);
    assert_eq!(v, Vec2::new(310_117, 392_207));
    let cap = (MAX_PARTICLE_VELOCITY as u128) * (MAX_PARTICLE_VELOCITY as u128);
    assert!(v.length_squared() <= cap);
    let exact = apply_acceleration(Vec2::new(0, 0), Vec2::new(600_000, -800_000), 4_000_000, SECOND);
    assert_eq!(exact, Vec2::new(300_000, -400_000));
    assert_eq!(exact.length_squared(), cap);
}

#[test]
fn a_velocity_beyond_the_cap_is_brought_back() {
    let v = apply_acceleration(Vec2::new(LIMIT, 0), Vec2::new(0, 0), 4_000_000, FRAME);
    assert_eq!(v, Vec2::new(500_000, 0));
}

#[test]
fn the_pointer_only_mode_needs_the_pointer_engaged() {
    let positions = vec![Vec2::new(0, 0), Vec2::new(60_000, 80_000)];
    let start = vec![Vec2::new(1, 2), Vec2::new(3, 4)];
    let cursor = Some(Vec2::new(30_000, 40_000));
    let physics = Physics::default();

    let mut velocities = start.clone();
    attract_particles_to_cursor(FRAME, cursor, false, &physics, &positions, &mut velocities);
    assert_eq!(velocities, start);

    let mut velocities = start.clone();
    attract_particles_to_cursor(FRAME, None, true, &physics, &positions, &mut velocities);
    assert_eq!(velocities, start);

    let mut velocities = at_rest(2);
    attract_particles_to_cursor(FRAME, cursor, true, &physics, &positions, &mut velocities);
    assert_eq!(velocities, vec![Vec2::new(40_000, 53_334), Vec2::new(-40_000, -53_334)]);
}

#[test]
fn the_pointer_only_mode_leaves_the_swarm_out() {
    let positions = vec![Vec2::new(0, 0), Vec2::new(0, 1000)];
    let mut velocities = at_rest(2);
    attract_particles_to_cursor(SECOND, Some(Vec2::new(0, 0)), true, &Physics::default(), &positions, &mut velocities);
    assert_eq!(velocities[0], Vec2::new(0, 0));
    assert_eq!(velocities[1], Vec2::new(0, -500_000));
}

#[test]
fn ranges_are_checked_element_by_element() {
    assert!(is_all_within_limit(&Vec::new()));
    assert!(is_all_within_limit(&vec![Vec2::new(LIMIT, -LIMIT), Vec2::new(0, 0)]));
    assert!(!is_all_within_limit(&vec![Vec2::new(0, 0), Vec2::new(LIMIT + 1, 0)]));
    assert!(!is_all_within_limit(&vec![Vec2::new(0, -LIMIT - 1), Vec2::new(0, 0)]));
}

#[test]
fn positions_at_the_limit_are_taken() {
    let positions = vec![Vec2::new(LIMIT, LIMIT), Vec2::new(-LIMIT, -LIMIT)];
    let mut velocities = vec![Vec2::new(LIMIT, -LIMIT), Vec2::new(-LIMIT, LIMIT)];
    let physics = physics_with(LIMIT, LIMIT);
    nbody_and_cursor_gravity(u32::MAX, Some(Vec2::new(LIMIT, -LIMIT)), &physics, &positions, &mut velocities);
    let cap = (MAX_PARTICLE_VELOCITY as u128) * (MAX_PARTICLE_VELOCITY as u128);
    assert!(velocities[0].length_squared() <= cap);
    assert!(velocities[1].length_squared() <= cap);
}

#[test]
fn a_tick_runs_one_mode_only() {
    let positions = vec![Vec2::new(0, 0), Vec2::new(3000, 4000)];
    let cursor = Some(Vec2::new(30_000, 40_000));
    let physics = Physics::default();

    let mut full = at_rest(2);
    tick(Mode::Swarm, false, FRAME, None, &physics, &positions, &mut full);
    assert_eq!(full, vec![Vec2::new(40_000, 53_334), Vec2::new(-40_000, -53_334)]);

    let mut idle = at_rest(2);
    tick(Mode::PointerOnly, false, FRAME, cursor, &physics, &positions, &mut idle);
    assert_eq!(idle, at_rest(2));

    let mut pointer = at_rest(2);
    tick(Mode::PointerOnly, true, FRAME, cursor, &physics, &positions, &mut pointer);
    let mut expected = at_rest(2);
    attract_particles_to_cursor(FRAME, cursor, true, &physics, &positions, &mut expected);
    assert_eq!(pointer, expected);
    assert_eq!(pointer[0], Vec2::new(40_000, 53_334));
}

#[test]
fn a_tick_is_repeatable() {
    let positions = vec![Vec2::new(0, 0), Vec2::new(3000, 4000), Vec2::new(-5000, 12_000)];
    let start = vec![Vec2::new(1000, -2000), Vec2::new(0, 0), Vec2::new(250, 250)];
    let mut first = start.clone();
    let mut second = start.clone();
    nbody_and_cursor_gravity(FRAME, None, &Physics::default(), &positions, &mut first);
    nbody_and_cursor_gravity(FRAME, None, &Physics::default(), &positions, &mut second);
    assert_eq!(first, second);
}

#[test]
fn constants_are_confined_where_they_are_read() {
    let positions = vec![Vec2::new(0, 0), Vec2::new(0, 2000)];
    let mut at_limit = at_rest(2);
    nbody_and_cursor_gravity(1, None, &physics_with(LIMIT, LIMIT), &positions, &mut at_limit);
    assert_eq!(at_limit, vec![Vec2::new(0, 274_877), Vec2::new(0, -274_877)]);

    let mut beyond = at_rest(2);
    nbody_and_cursor_gravity(1, None, &physics_with(i64::MAX, i64::MAX), &positions, &mut beyond);
    assert_eq!(beyond, at_limit);

    let mut just_beyond = at_rest(2);
    nbody_and_cursor_gravity(1, None, &physics_with(LIMIT + 1, LIMIT + 12_345), &positions, &mut just_beyond);
    assert_eq!(just_beyond, at_limit);

    let mut below = at_rest(2);
    nbody_and_cursor_gravity(1, None, &physics_with(i64::MIN, i64::MAX), &positions, &mut below);
    assert_eq!(below, vec![Vec2::new(0, -274_877), Vec2::new(0, 274_877)]);

    let mut no_cap = vec![Vec2::new(5, 6), Vec2::new(7, 8)];
    nbody_and_cursor_gravity(1, None, &physics_with(i64::MAX, i64::MIN), &positions, &mut no_cap);
    assert_eq!(no_cap, vec![Vec2::new(5, 6), Vec2::new(7, 8)]);
}

#[test]
fn the_pointer_only_mode_confines_the_cap_too() {
    let positions = vec![Vec2::new(0, 0)];
    let cursor = Some(Vec2::new(0, 1000));
    let mut at_limit = at_rest(1);
    attract_particles_to_cursor(1, cursor, true, &physics_with(0, LIMIT), &positions, &mut at_limit);
    assert_eq!(at_limit, vec![Vec2::new(0, 500_000)]);
    let mut beyond = at_rest(1);
    attract_particles_to_cursor(1, cursor, true, &physics_with(0, i64::MAX), &positions, &mut beyond);
    assert_eq!(beyond, at_limit);
}

#[test]
fn the_sum_of_many_pulls() {
    let mut positions = vec![Vec2::new(0, 0)];
    for _ in 0..2000 {
        positions.push(Vec2::new(0, 1000));
    }
    assert_eq!(pull_of_swarm(&positions, 0, LIMIT), Vec2::new(0, 2000 * LIMIT));
    assert_eq!(pull_of_swarm(&positions, 1, LIMIT), Vec2::new(0, -LIMIT));
}
