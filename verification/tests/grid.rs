use particle_gravity::layout::{spawn_grid, MAX_GRID_WIDTH, MAX_SPACING};
use particle_gravity::vec2::{is_all_within_limit, Vec2};

#[test]
fn a_grid_of_sixteen_by_sixteen() {
    let places = spawn_grid(16, 5000);
    assert_eq!(places.len(), 256);
    assert_eq!(places[0], Vec2::new(-37_500, -37_500));
    assert_eq!(places[1], Vec2::new(-37_500, -32_500));
    assert_eq!(places[15], Vec2::new(-37_500, 37_500));
    assert_eq!(places[16], Vec2::new(-32_500, -37_500));
    assert_eq!(places[255], Vec2::new(37_500, 37_500));
}

#[test]
fn an_empty_grid() {
    assert!(spawn_grid(0, 5000).is_empty());
}

#[test]
fn a_grid_of_one_sits_on_the_origin() {
    assert_eq!(spawn_grid(1, 5000), vec![Vec2::new(0, 0)]);
    assert_eq!(spawn_grid(1, 5), vec![Vec2::new(0, 0)]);
}

#[test]
fn halves_round_toward_zero() {
    assert_eq!(
        spawn_grid(2, 5),
        vec![Vec2::new(-3, -3), Vec2::new(-3, 2), Vec2::new(2, -3), Vec2::new(2, 2)]
    );
    let odd = spawn_grid(3, 5);
    assert_eq!(odd[0], Vec2::new(-5, -5));
    assert_eq!(odd[4], Vec2::new(0, 0));
    assert_eq!(odd[8], Vec2::new(5, 5));
}

#[test]
fn no_spacing_puts_all_on_the_origin() {
    assert_eq!(spawn_grid(2, 0), vec![Vec2::new(0, 0); 4]);
}

#[test]
fn the_widest_grid_stays_within_the_limit() {
    let places = spawn_grid(MAX_GRID_WIDTH, MAX_SPACING);
    assert_eq!(places.len(), MAX_GRID_WIDTH * MAX_GRID_WIDTH);
    assert!(is_all_within_limit(&places));
    assert_eq!(places[0], Vec2::new(-511_500_000_000, -511_500_000_000));
    assert_eq!(places[places.len() - 1], Vec2::new(511_500_000_000, 511_500_000_000));
}
