//! Choosing where an agent heads: vetoes on tall tiles, the lowest-cost tile
//! with first-in-scan-order tie-breaking, the heading towards it, and how far
//! the agent moves.

use vstd::prelude::*;
use crate::agent::{Agent, AgentMode, tile_cost, score_tile, COST_MAX, height_penalty_num};
use crate::geometry::{SUB, isqrt, floor_sqrt, lemma_isqrt_unique, trunc_tile};
use crate::grid::{GridWorld, MAX_SIDE};
use crate::rolls::{Rolls, nth_draw, cursor_after, lemma_cursor_start, lemma_cursor_step};

verus! {

/// Tiles taller than this are usually avoided.
pub const VETO_HEIGHT: u8 = 230;

/// A tall tile is avoided when its draw exceeds this.
pub const VETO_DRAW: u16 = 100;

/// Radius, in sub-units, an agent scans around itself.
pub const NAV_RADIUS: i32 = 1024;

/// Cost of tile `i` of the grid for agent `a` standing at height `here`.
pub open spec fn cell_cost(g: GridWorld, a: Agent, here: int, i: int) -> int {
    tile_cost(a, here, g.height as int, g.col(i), g.row(i), g.tiles@[i])
}

/// Position `k` of `cells` holds the lowest cost among the candidates that
/// are not vetoed, the first such in scan order, and that cost is below
/// [`COST_MAX`].
pub open spec fn is_lowest(
    g: GridWorld,
    a: Agent,
    here: int,
    cells: Seq<usize>,
    vetoed: Seq<bool>,
    k: int,
) -> bool {
    &&& 0 <= k < cells.len()
    &&& !vetoed[k]
    &&& cell_cost(g, a, here, cells[k] as int) < COST_MAX
    &&& forall|j: int|
        0 <= j < k && !vetoed[j] ==> cell_cost(g, a, here, cells[j] as int) > cell_cost(
            g,
            a,
            here,
            cells[k] as int,
        )
    &&& forall|j: int|
        k < j < cells.len() && !vetoed[j] ==> cell_cost(g, a, here, cells[j] as int) >= cell_cost(
            g,
            a,
            here,
            cells[k] as int,
        )
}

/// Number of candidates among the first `k` of `cells` taller than
/// `VETO_HEIGHT`.
pub open spec fn tall_before(g: GridWorld, cells: Seq<usize>, k: int) -> int
    decreases k,
{
    if k <= 0 {
        0
    } else {
        tall_before(g, cells, k - 1) + if g.tiles@[cells[k - 1] as int].height > VETO_HEIGHT {
            1int
        } else {
            0
        }
    }
}

/// Draws, in scan order, one value for each candidate taller than
/// `VETO_HEIGHT`; such a candidate is vetoed when its draw exceeds
/// `VETO_DRAW`. Other candidates are never vetoed and take no draw.
pub fn draw_vetoes(g: &GridWorld, cells: &Vec<usize>, rolls: &mut Rolls) -> (vetoed: Vec<bool>)
    requires
        g.wf(),
        old(rolls).wf(),
        forall|k: int| 0 <= k < cells.len() ==> #[trigger] cells@[k] < g.tiles.len(),
    ensures
        final(rolls).wf(),
        final(rolls).values@ == old(rolls).values@,
        final(rolls).next == cursor_after(*old(rolls), tall_before(*g, cells@, cells.len() as int)),
        vetoed.len() == cells.len(),
        forall|k: int|
            0 <= k < cells.len() ==> #[trigger] vetoed@[k] == (g.tiles@[cells@[k] as int].height
                > VETO_HEIGHT && nth_draw(*old(rolls), tall_before(*g, cells@, k)) > VETO_DRAW),
{
    let mut vetoed: Vec<bool> = Vec::new();
    let n = cells.len();
    proof {
        lemma_cursor_start(*old(rolls));
    }
    for k in 0..n
        invariant
            n == cells.len(),
            g.wf(),
            rolls.wf(),
            old(rolls).wf(),
            rolls.values@ == old(rolls).values@,
            rolls.next == cursor_after(*old(rolls), tall_before(*g, cells@, k as int)),
            forall|j: int| 0 <= j < cells.len() ==> #[trigger] cells@[j] < g.tiles.len(),
            vetoed.len() == k,
            forall|j: int|
                0 <= j < k ==> #[trigger] vetoed@[j] == (g.tiles@[cells@[j] as int].height
                    > VETO_HEIGHT && nth_draw(*old(rolls), tall_before(*g, cells@, j)) > VETO_DRAW),
    {
        proof {
            lemma_tall_before_nonneg(*g, cells@, k as int);
            lemma_cursor_step(*old(rolls), tall_before(*g, cells@, k as int));
        }
        let tall = g.tiles[cells[k]].height > VETO_HEIGHT;
        let v = if tall {
            rolls.draw() > VETO_DRAW
        } else {
            false
        };
        vetoed.push(v);
    }
    vetoed
}

proof fn lemma_tall_before_nonneg(g: GridWorld, cells: Seq<usize>, k: int)
    ensures
        tall_before(g, cells, k) >= 0,
    decreases k,
{
    if k > 0 {
        lemma_tall_before_nonneg(g, cells, k - 1);
    }
}

/// The position in `cells` of the candidate the agent heads for: the lowest
/// cost among those not vetoed, the first in scan order on ties. `None` when
/// every candidate is vetoed or costs [`COST_MAX`].
pub fn pick_lowest(g: &GridWorld, a: &Agent, here: u8, cells: &Vec<usize>, vetoed: &Vec<bool>) -> (r:
    Option<usize>)
    requires
        g.wf(),
        vetoed.len() == cells.len(),
        forall|k: int| 0 <= k < cells.len() ==> #[trigger] cells@[k] < g.tiles.len(),
    ensures
        match r {
            Some(k) => is_lowest(*g, *a, here as int, cells@, vetoed@, k as int),
            None => forall|j: int|
                0 <= j < cells.len() && !vetoed@[j] ==> cell_cost(*g, *a, here as int, cells@[j] as int)
                    >= COST_MAX,
        },
{
    let mut lowest: i64 = COST_MAX;
    let mut best: Option<usize> = None;
    let n = cells.len();
    let h = g.height;
    for k in 0..n
        invariant
            n == cells.len(),
            n == vetoed.len(),
            h == g.height,
            g.wf(),
            forall|j: int| 0 <= j < cells.len() ==> #[trigger] cells@[j] < g.tiles.len(),
            match best {
                Some(b) => {
                    &&& b < k
                    &&& !vetoed@[b as int]
                    &&& lowest == cell_cost(*g, *a, here as int, cells@[b as int] as int)
                    &&& lowest < COST_MAX
                    &&& forall|j: int|
                        0 <= j < b && !vetoed@[j] ==> cell_cost(*g, *a, here as int, cells@[j] as int)
                            > lowest
                    &&& forall|j: int|
                        b < j < k && !vetoed@[j] ==> cell_cost(*g, *a, here as int, cells@[j] as int)
                            >= lowest
                },
                None => {
                    &&& lowest == COST_MAX
                    &&& forall|j: int|
                        0 <= j < k && !vetoed@[j] ==> cell_cost(*g, *a, here as int, cells@[j] as int)
                            >= COST_MAX
                },
            },
    {
        let i = cells[k];
        assert(h > 0) by (nonlinear_arith)
            requires
                i < g.width * h,
        ;
        let x = i / h;
        let y = i % h;
        assert(x < g.width) by (nonlinear_arith)
            requires
                i < g.width * h,
                x == i / h,
                h > 0,
        ;
        let c = score_tile(a, here, h, x, y, &g.tiles[i]);
        if !vetoed[k] && c < lowest {
            lowest = c;
            best = Some(k);
        }
    }
    best
}

/// Component of the unit vector along `(a, b)`, in sub-units, truncated
/// toward zero; zero for the zero vector.
pub open spec fn unit_part(a: int, b: int) -> int {
    if a == 0 && b == 0 {
        0
    } else {
        let m = floor_sqrt(SUB * SUB * a * a / (a * a + b * b));
        if a < 0 {
            -m
        } else {
            m
        }
    }
}

fn unit_component(a: i64, b: i64) -> (r: i32)
    requires
        -0x100_0000 <= a <= 0x100_0000,
        -0x100_0000 <= b <= 0x100_0000,
    ensures
        r == unit_part(a as int, b as int),
        -SUB <= r <= SUB,
{
    if a == 0 && b == 0 {
        return 0;
    }
    proof {
        lemma_mul_bounds(a as int, a as int, 0x100_0000, 0x100_0000);
        lemma_mul_bounds(b as int, b as int, 0x100_0000, 0x100_0000);
    }
    let aa = a as i128 * a as i128;
    let bb = b as i128 * b as i128;
    assert(0 <= aa <= 0x1_0000_0000_0000) by (nonlinear_arith)
        requires
            aa == a * a,
            -0x100_0000 <= a <= 0x100_0000,
    ;
    assert(0 <= bb <= 0x1_0000_0000_0000) by (nonlinear_arith)
        requires
            bb == b * b,
            -0x100_0000 <= b <= 0x100_0000,
    ;
    assert(aa + bb > 0) by (nonlinear_arith)
        requires
            aa == a * a,
            bb == b * b,
            a != 0 || b != 0,
    ;
    let num = (SUB as i128) * (SUB as i128) * aa;
    let q = num / (aa + bb);
    assert(q <= 65536) by (nonlinear_arith)
        requires
            num == 65536 * aa,
            q == num as int / (aa + bb),
            bb >= 0,
            aa + bb > 0,
            aa >= 0,
    ;
    assert(q >= 0) by (nonlinear_arith)
        requires
            num == 65536 * aa,
            q == num as int / (aa + bb),
            aa + bb > 0,
            aa >= 0,
    ;
    let m = isqrt(q as u128);
    proof {
        lemma_isqrt_unique(q as int, m as int);
        if m > 256 {
            assert(m * m > 65536) by (nonlinear_arith)
                requires
                    m > 256,
            ;
        }
    }
    assert(SUB * SUB * a * a == num) by (nonlinear_arith)
        requires
            num == 256 * 256 * aa,
            aa == a * a,
    ;
    if a < 0 {
        -(m as i32)
    } else {
        m as i32
    }
}

/// Bounds on the factors bound the product.
pub proof fn lemma_mul_bounds(x: int, y: int, bx: int, by: int)
    requires
        -bx <= x <= bx,
        -by <= y <= by,
    ensures
        -(bx * by) <= x * y <= bx * by,
{
    assert(-(bx * by) <= x * y <= bx * by) by (nonlinear_arith)
        requires
            -bx <= x <= bx,
            -by <= y <= by,
    ;
}

/// Truncates a fixed-point coordinate to its tile coordinate.
pub fn tile_of(p: i32) -> (r: i64)
    ensures
        r == trunc_tile(p as int),
{
    if p >= 0 {
        p as i64 / SUB
    } else {
        -((-(p as i64)) / SUB)
    }
}

/// Heading from the tile holding `(px, py)` towards tile `(tx, ty)`.
pub fn heading_towards(px: i32, py: i32, tx: usize, ty: usize) -> (r: (i32, i32))
    requires
        tx <= MAX_SIDE,
        ty <= MAX_SIDE,
    ensures
        r.0 == unit_part(tx - trunc_tile(px as int), ty - trunc_tile(py as int)),
        r.1 == unit_part(ty - trunc_tile(py as int), tx - trunc_tile(px as int)),
{
    let dx = tx as i64 - tile_of(px);
    let dy = ty as i64 - tile_of(py);
    (unit_component(dx, dy), unit_component(dy, dx))
}

/// Speed factor, in sub-units, for a step whose height penalty is
/// `num / 255`: full speed on the flat, down to half on steep steps.
pub open spec fn slope_factor(num: int) -> int {
    let cut = num * SUB / 5100;
    let f = SUB - (if cut < SUB { cut } else { SUB as int });
    if f < SUB / 2 {
        SUB / 2
    } else {
        f
    }
}

/// Computes [`slope_factor`] for a step from height `here` to `th`.
pub fn slope_speed(here: u8, th: u8) -> (r: i64)
    ensures
        r == slope_factor(height_penalty_num(here as int, th as int)),
        SUB / 2 <= r <= SUB,
{
    let d: i64 = th as i64 - here as i64;
    let ad: i64 = if d < 0 { -d } else { d };
    let num: i64 = if d < 50 { ad * 100 } else { ad * 1000 };
    let cut = num * SUB / 5100;
    let f = SUB - (if cut < SUB { cut } else { SUB });
    if f < SUB / 2 {
        SUB / 2
    } else {
        f
    }
}

/// Rust's division of `n` by a positive `d`, rounding toward zero.
pub open spec fn trunc_div(n: int, d: int) -> int {
    if n >= 0 {
        n / d
    } else {
        -((-n) / d)
    }
}

/// Speed multiplier of an agent, in halves: predators run at five times,
/// returning ants at one and a half times the base speed.
pub open spec fn mode_halves(a: Agent) -> int {
    if a.is_spider {
        10
    } else if a.mode == AgentMode::Returning {
        3
    } else {
        2
    }
}

/// Distance moved along one axis: heading component times speed, mode
/// multiplier, slope factor and health fraction, in sub-units.
pub open spec fn displacement(dir: int, a: Agent, slope: int) -> int {
    trunc_div(
        dir * a.speed * mode_halves(a) * slope * a.health,
        2 * SUB * SUB * 255,
    )
}

/// `v` clamped into `i32`.
pub open spec fn clamp_i32(v: int) -> i32 {
    if v < i32::MIN {
        i32::MIN
    } else if v > i32::MAX {
        i32::MAX
    } else {
        v as i32
    }
}

/// Moves the agent along its heading by [`displacement`].
pub fn advance(a: &mut Agent, slope: i64)
    requires
        0 <= slope <= SUB,
    ensures
        final(a).x == clamp_i32(old(a).x + displacement(old(a).dir_x as int, *old(a), slope as int)),
        final(a).y == clamp_i32(old(a).y + displacement(old(a).dir_y as int, *old(a), slope as int)),
        final(a).dir_x == old(a).dir_x,
        final(a).dir_y == old(a).dir_y,
        final(a).speed == old(a).speed,
        final(a).mode == old(a).mode,
        final(a).health == old(a).health,
        final(a).carrying == old(a).carrying,
        final(a).is_spider == old(a).is_spider,
        final(a).home_x == old(a).home_x,
        final(a).home_y == old(a).home_y,
{
    let halves: i128 = if a.is_spider {
        10
    } else if a.mode == AgentMode::Returning {
        3
    } else {
        2
    };
    proof {
        lemma_mul_bounds(a.speed as int, halves as int, 65535, 10);
        lemma_mul_bounds(a.speed * halves, slope as int, 655350, 256);
        lemma_mul_bounds(a.speed * halves * slope, a.health as int, 167769600, 255);
    }
    let k: i128 = a.speed as i128 * halves * slope as i128 * a.health as i128;
    assert(0 <= k <= 65535 * 10 * 256 * 255) by (nonlinear_arith)
        requires
            k == a.speed * halves * slope * a.health,
            0 <= a.speed <= 65535,
            0 <= halves <= 10,
            0 <= slope <= 256,
            0 <= a.health <= 255,
    ;
    let den: i128 = 2 * 256 * 256 * 255;
    proof {
        lemma_mul_bounds(a.dir_x as int, k as int, 0x8000_0000, 0x100_0000_0000);
        lemma_mul_bounds(a.dir_y as int, k as int, 0x8000_0000, 0x100_0000_0000);
    }
    let nx = a.dir_x as i128 * k;
    let ny = a.dir_y as i128 * k;
    assert(-0x8000_0000 * 0x100_0000_0000 <= nx <= 0x8000_0000 * 0x100_0000_0000) by (nonlinear_arith)
        requires
            nx == a.dir_x * k,
            0 <= k <= 0x100_0000_0000,
            -0x8000_0000 <= a.dir_x <= 0x8000_0000,
    ;
    assert(-0x8000_0000 * 0x100_0000_0000 <= ny <= 0x8000_0000 * 0x100_0000_0000) by (nonlinear_arith)
        requires
            ny == a.dir_y * k,
            0 <= k <= 0x100_0000_0000,
            -0x8000_0000 <= a.dir_y <= 0x8000_0000,
    ;
    assert(a.dir_x * a.speed * halves * slope * a.health == nx) by (nonlinear_arith)
        requires
            nx == a.dir_x * k,
            k == a.speed * halves * slope * a.health,
    ;
    assert(a.dir_y * a.speed * halves * slope * a.health == ny) by (nonlinear_arith)
        requires
            ny == a.dir_y * k,
            k == a.speed * halves * slope * a.health,
    ;
    let mx = if nx >= 0 { nx / den } else { -((-nx) / den) };
    let my = if ny >= 0 { ny / den } else { -((-ny) / den) };
    let vx = a.x as i128 + mx;
    let vy = a.y as i128 + my;
    a.x = if vx < i32::MIN as i128 {
        i32::MIN
    } else if vx > i32::MAX as i128 {
        i32::MAX
    } else {
        vx as i32
    };
    a.y = if vy < i32::MIN as i128 {
        i32::MIN
    } else if vy > i32::MAX as i128 {
        i32::MAX
    } else {
        vy as i32
    };
}

} // verus!
