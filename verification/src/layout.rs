//! The square grid in which the particles of a swarm start.

use vstd::prelude::*;
use vstd::arithmetic::div_mod::lemma_fundamental_div_mod_converse;
use crate::fixed::{div_toward_zero, quotient};
use crate::vec2::{all_within_limit, Vec2, Vector};

verus! {

/// The greatest number of particles along one side of the grid.
pub const MAX_GRID_WIDTH: usize = 1024;

/// The greatest spacing between neighbours of the grid, a million units.
pub const MAX_SPACING: i64 = 1_000_000_000;

/// The coordinate of the first row and of the first column of a grid that
/// is centred on the origin: half a spacing, less half the grid's side.
pub open spec fn grid_origin(grid_width: int, spacing: int) -> int {
    quotient(spacing, 2) - quotient(grid_width * spacing, 2)
}

/// The place of particle `k` of the grid, counted column by column: column
/// `k / grid_width` and row `k % grid_width`, each `spacing` from the
/// next.
pub open spec fn grid_position(grid_width: int, spacing: int, k: int) -> Vector {
    Vector {
        x: grid_origin(grid_width, spacing) + (k / grid_width) * spacing,
        y: grid_origin(grid_width, spacing) + (k % grid_width) * spacing,
    }
}

/// The places of a square grid of `grid_width` by `grid_width` particles
/// centred on the origin, neighbours `spacing` apart.
pub fn spawn_grid(grid_width: usize, spacing: i64) -> (r: Vec<Vec2>)
    requires
        grid_width <= MAX_GRID_WIDTH,
        0 <= spacing <= MAX_SPACING,
    ensures
        r@.len() == grid_width * grid_width,
        forall|k: int|
            0 <= k < r@.len() ==> (#[trigger] r@[k])@ == grid_position(
                grid_width as int,
                spacing as int,
                k,
            ),
        all_within_limit(r@),
{
    let ghost w = grid_width as int;
    let ghost s = spacing as int;
    assert(0 <= w * s <= 1024 * 1_000_000_000) by (nonlinear_arith)
        requires
            0 <= w <= 1024,
            0 <= s <= 1_000_000_000,
    ;
    let side: i128 = grid_width as i128 * spacing as i128;
    let origin: i64 = (div_toward_zero(spacing as i128, 2) - div_toward_zero(side, 2)) as i64;
    let mut places: Vec<Vec2> = Vec::new();
    let mut i: usize = 0;
    while i < grid_width
        invariant
            w == grid_width,
            s == spacing,
            grid_width <= MAX_GRID_WIDTH,
            0 <= spacing <= MAX_SPACING,
            i <= grid_width,
            origin == grid_origin(w, s),
            -1024 * 1_000_000_000 <= origin <= 1_000_000_000,
            places@.len() == i * grid_width,
            forall|k: int|
                0 <= k < places@.len() ==> (#[trigger] places@[k])@ == grid_position(w, s, k),
            all_within_limit(places@),
        decreases grid_width - i,
    {
        let mut j: usize = 0;
        while j < grid_width
            invariant
                w == grid_width,
                s == spacing,
                grid_width <= MAX_GRID_WIDTH,
                0 <= spacing <= MAX_SPACING,
                i < grid_width,
                j <= grid_width,
                origin == grid_origin(w, s),
                -1024 * 1_000_000_000 <= origin <= 1_000_000_000,
                places@.len() == i * grid_width + j,
                forall|k: int|
                    0 <= k < places@.len() ==> (#[trigger] places@[k])@ == grid_position(w, s, k),
                all_within_limit(places@),
            decreases grid_width - j,
        {
            let ghost k = i * grid_width + j;
            assert(0 <= i * spacing <= 1024 * 1_000_000_000 && 0 <= j * spacing <= 1024
                * 1_000_000_000) by (nonlinear_arith)
                requires
                    0 <= i <= 1024,
                    0 <= j <= 1024,
                    0 <= spacing <= 1_000_000_000,
            ;
            let x: i64 = origin + i as i64 * spacing;
            let y: i64 = origin + j as i64 * spacing;
            proof {
                assert(k == w * i + j) by (nonlinear_arith)
                    requires
                        k == i * grid_width + j,
                        w == grid_width,
                ;
                lemma_fundamental_div_mod_converse(k, w, i as int, j as int);
            }
            places.push(Vec2 { x, y });
            j = j + 1;
        }
        assert(i * grid_width + grid_width == (i + 1) * grid_width) by (nonlinear_arith);
        i = i + 1;
    }
    assert(places@.len() == grid_width * grid_width);
    places
}

} // verus!
