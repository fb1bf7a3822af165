//! Agents: the per-tile cost an agent scores its surroundings by, the choice
//! of heading, and the per-tick lifecycle.

use vstd::prelude::*;
use crate::geometry::{SUB, isqrt, floor_sqrt, lemma_isqrt_unique, dist_sq};
use crate::grid::MAX_SIDE;
use crate::tile::{Tile, TileMaterial};

verus! {

/// Whether an agent is out looking for material or hauling it home.
#[derive(Clone, Copy, PartialEq, Eq, Structural, Debug)]
pub enum AgentMode {
    Foraging,
    Returning,
}

/// An ant, or with `is_spider` a predator. Coordinates are fixed-point
/// sub-units (see [`SUB`]).
#[derive(Clone, Copy, Debug)]
pub struct Agent {
    pub x: i32,
    pub y: i32,
    /// Heading, a vector of length about `SUB`, or zero.
    pub dir_x: i32,
    pub dir_y: i32,
    /// Sub-units moved per tick at full health on flat ground.
    pub speed: u16,
    pub mode: AgentMode,
    pub health: u8,
    pub carrying: Option<TileMaterial>,
    pub is_spider: bool,
    /// Leash anchor of a predator.
    pub home_x: i32,
    pub home_y: i32,
}

/// Cost that no tile is ever chosen at.
pub const COST_MAX: i64 = 2147483647;

/// Penalty for a tile behind the agent.
pub const REVERSE_PENALTY: i64 = 300;

/// Height steps below this are gentle.
pub const STEEP_STEP: i32 = 50;

/// Rows this close to the top are the foraging destination.
pub const DESTINATION_MARGIN: usize = 5;

/// Radius, in sub-units, beyond which a predator is pulled home.
pub const LEASH_RADIUS: i64 = 12800;

/// Penalty added for a step of height `th` from height `here`, times 255.
pub open spec fn height_penalty_num(here: int, th: int) -> int {
    let d = th - here;
    let a = if d < 0 { -d } else { d };
    if d < STEEP_STEP as int {
        a * 100
    } else {
        a * 1000
    }
}

/// Penalty added for a step of height `th` from height `here`.
pub open spec fn height_penalty(here: int, th: int) -> int {
    height_penalty_num(here, th) / 255
}

/// The tile `(x, y)` lies behind the agent's heading.
pub open spec fn behind(a: Agent, x: int, y: int) -> bool {
    (a.x - x * SUB as int) * a.dir_x + (a.y - y * SUB as int) * a.dir_y > 0
}

/// Squared distance, in sub-units, from a predator's home to tile `(x, y)`.
pub open spec fn home_dist_sq(a: Agent, x: int, y: int) -> int {
    dist_sq(x * SUB as int, y * SUB as int, a.home_x as int, a.home_y as int)
}

/// A predator's cost: distance from home, scaled by `10 / 3` per tile, once
/// outside the leash radius; inside it, the fewer visits the better.
pub open spec fn leash_cost(a: Agent, x: int, y: int, t: Tile) -> int {
    let d2 = home_dist_sq(a, x, y);
    if d2 > LEASH_RADIUS * LEASH_RADIUS {
        floor_sqrt(100 * d2) / (3 * SUB as int)
    } else {
        -(t.times_changed as int)
    }
}

/// Cost of tile `(x, y)` holding `t` for agent `a` standing at height `here`
/// on a grid `grid_height` rows high. Lower is better.
pub open spec fn tile_cost(a: Agent, here: int, grid_height: int, x: int, y: int, t: Tile) -> int {
    if a.is_spider {
        leash_cost(a, x, y, t)
    } else if y + DESTINATION_MARGIN as int > grid_height {
        COST_MAX as int
    } else {
        (if a.mode == AgentMode::Returning {
            -(t.pheremone_level as int)
        } else {
            t.pheremone_level as int
        }) + height_penalty(here, t.height as int) + (if behind(a, x, y) {
            REVERSE_PENALTY as int
        } else {
            0
        })
    }
}

/// Computes [`tile_cost`].
pub fn score_tile(a: &Agent, here: u8, grid_height: usize, x: usize, y: usize, t: &Tile) -> (c: i64)
    requires
        x <= MAX_SIDE,
        y <= MAX_SIDE,
    ensures
        c == tile_cost(*a, here as int, grid_height as int, x as int, y as int, *t),
{
    let xs: i128 = x as i128 * SUB as i128;
    let ys: i128 = y as i128 * SUB as i128;
    if a.is_spider {
        let hx = xs - a.home_x as i128;
        let hy = ys - a.home_y as i128;
        proof {
            lemma_square_le(hx as int, 0x2_0000_0000);
            lemma_square_le(hy as int, 0x2_0000_0000);
        }
        let d2 = hx * hx + hy * hy;
        assert(LEASH_RADIUS * LEASH_RADIUS == 163840000);
        let limit: i128 = 163840000;
        if d2 > limit {
            let root = isqrt((100 * d2) as u128);
            proof {
                lemma_isqrt_unique(100 * d2, root as int);
                if root > 0x100_0000_0000 {
                    assert(root * root > 0x100_0000_0000 * 0x100_0000_0000) by (nonlinear_arith)
                        requires
                            root > 0x100_0000_0000,
                    ;
                }
            }
            return (root / (3 * SUB as u64)) as i64;
        } else {
            return -(t.times_changed as i64);
        }
    }
    if y + DESTINATION_MARGIN > grid_height {
        return COST_MAX;
    }
    let pher: i64 = if a.mode == AgentMode::Returning {
        -(t.pheremone_level as i64)
    } else {
        t.pheremone_level as i64
    };
    let d: i32 = t.height as i32 - here as i32;
    let ad: i64 = if d < 0 { -d as i64 } else { d as i64 };
    let num: i64 = if d < STEEP_STEP { ad * 100 } else { ad * 1000 };
    let bx: i128 = a.x as i128 - xs;
    let by: i128 = a.y as i128 - ys;
    proof {
        lemma_product_le(bx as int, a.dir_x as int);
        lemma_product_le(by as int, a.dir_y as int);
    }
    let align: i128 = bx * a.dir_x as i128 + by * a.dir_y as i128;
    let bonus: i64 = if align > 0 { REVERSE_PENALTY } else { 0 };
    pher + num / 255 + bonus
}

/// Squares of values within `b` stay within `b * b`.
proof fn lemma_square_le(d: int, b: int)
    requires
        -b <= d <= b,
    ensures
        0 <= d * d <= b * b,
{
    assert(0 <= d * d <= b * b) by (nonlinear_arith)
        requires
            -b <= d <= b,
    ;
}

/// A coordinate gap of a tile corner times a heading component stays small.
proof fn lemma_product_le(g: int, c: int)
    requires
        -0x2_0000_0000 <= g <= 0x2_0000_0000,
        -0x8000_0000 <= c <= 0x8000_0000,
    ensures
        -0x1_0000_0000_0000_0000 <= g * c <= 0x1_0000_0000_0000_0000,
{
    assert(-0x1_0000_0000_0000_0000 <= g * c <= 0x1_0000_0000_0000_0000) by (nonlinear_arith)
        requires
            -0x2_0000_0000 <= g <= 0x2_0000_0000,
            -0x8000_0000 <= c <= 0x8000_0000,
    ;
}

} // verus!
