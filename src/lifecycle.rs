//! The per-tick life of an agent: presence marks, harvesting and
//! delivery, hazards, death and its aftermath, then navigation and movement.

use vstd::prelude::*;
use crate::agent::{Agent, AgentMode};
use crate::navigation::{
    NAV_RADIUS, draw_vetoes, pick_lowest, heading_towards, slope_speed, advance,
};
use crate::disk::{saturate_height, add_height};
use crate::geometry::{SUB, dist_sq};
use crate::grid::{GridWorld, queued_before, MAX_SIDE};
use crate::rolls::{Rolls, nth_draw, cursor_after, lemma_cursor_start, lemma_cursor_step};
use crate::tile::{Tile, TileMaterial};

verus! {

/// What a dying agent leaves on the tiles around it.
#[derive(Clone, Copy, PartialEq, Eq, Structural, Debug)]
pub enum Remains {
    /// Scattered by a violent death: guts, raising the ground a little.
    Guts,
    /// The body itself, a mound of fixed height.
    Body,
}

/// Height of the mound a body leaves.
pub const BODY_HEIGHT: u8 = 155;

/// Radius, in sub-units, of the death pheromone mark.
pub const DEATH_MARK_RADIUS: i32 = 2560;

/// Radius, in sub-units, that remains are scattered over.
pub open spec fn remains_radius(kind: Remains) -> int {
    match kind {
        Remains::Guts => 512,
        Remains::Body => 256,
    }
}

/// A tile receives remains when its draw exceeds this.
pub open spec fn remains_draw(kind: Remains) -> int {
    match kind {
        Remains::Guts => 8000,
        Remains::Body => 4000,
    }
}

/// Tile `t` covered with remains.
pub open spec fn with_remains(kind: Remains, t: Tile) -> Tile {
    match kind {
        Remains::Guts => Tile {
            material: TileMaterial::AntGuts,
            height: saturate_height(t.height as int, 5),
            ..t
        },
        Remains::Body => Tile { material: TileMaterial::AntBody, height: BODY_HEIGHT, ..t },
    }
}

/// How much the death mark lowers the pheromone level at squared distance
/// `d2` (sub-units) from the death: `5 * (1 - d / 10)` tiles, truncated.
pub open spec fn death_penalty(d2: int) -> int {
    (if d2 <= 0 { 1int } else { 0 }) + (if d2 <= 4 * SUB * SUB { 1int } else { 0 }) + (if d2 <= 16
        * SUB * SUB {
        1int
    } else {
        0
    }) + (if d2 <= 36 * SUB * SUB { 1int } else { 0 }) + (if d2 <= 64 * SUB * SUB {
        1int
    } else {
        0
    })
}

/// Pheromone level `v` lowered by `p`, floored at zero.
pub open spec fn lowered(v: int, p: int) -> i16 {
    if v - p < 0 {
        0
    } else {
        (v - p) as i16
    }
}

/// Squared distance from the corner of tile `i` to the fixed-point point.
pub open spec fn corner_dist_sq(g: GridWorld, i: int, cx: int, cy: int) -> int {
    dist_sq(g.col(i) * SUB as int, g.row(i) * SUB as int, cx, cy)
}

/// Frame facts every disk-scoped mutation here keeps.
pub open spec fn same_shape(a: GridWorld, b: GridWorld) -> bool {
    &&& b.wf()
    &&& b.width == a.width
    &&& b.height == a.height
    &&& b.tiles.len() == a.tiles.len()
    &&& b.tiles_to_update == a.tiles_to_update
}

/// Scatters remains around `(cx, cy)`: each tile of the disk of
/// [`remains_radius`] draws once, in scan order, and is covered when its draw
/// exceeds [`remains_draw`]. Tiles are not queued for the sweep.
pub fn scatter_remains(g: &mut GridWorld, cx: i32, cy: i32, kind: Remains, rolls: &mut Rolls) -> (cells:
    Vec<usize>)
    requires
        old(g).wf(),
        old(rolls).wf(),
    ensures
        same_shape(*old(g), *final(g)),
        final(rolls).wf(),
        final(rolls).values@ == old(rolls).values@,
        final(rolls).next == cursor_after(*old(rolls), cells.len() as int),
        forall|k: int| 0 <= k < cells.len() ==> #[trigger] cells@[k] < old(g).tiles.len(),
        forall|a: int, b: int| 0 <= a < b < cells.len() ==> cells@[a] < cells@[b],
        forall|i: int|
            0 <= i < old(g).tiles.len() ==> (cells@.contains(i as usize) <==> old(g).tile_in_disk(
                cx as int,
                cy as int,
                remains_radius(kind),
                i,
            )),
        forall|k: int|
            0 <= k < cells.len() ==> #[trigger] final(g).tiles@[cells@[k] as int] == if nth_draw(
                *old(rolls),
                k,
            ) > remains_draw(kind) {
                with_remains(kind, old(g).tiles@[cells@[k] as int])
            } else {
                old(g).tiles@[cells@[k] as int]
            },
        forall|i: int|
            0 <= i < old(g).tiles.len() ==> {
                ||| #[trigger] final(g).tiles@[i] == old(g).tiles@[i]
                ||| old(g).tile_in_disk(cx as int, cy as int, remains_radius(kind), i)
                    && final(g).tiles@[i] == with_remains(kind, old(g).tiles@[i])
            },
{
    let (radius, chance): (i32, u16) = match kind {
        Remains::Guts => (512, 8000),
        Remains::Body => (256, 4000),
    };
    let cells = g.disk_cells(cx, cy, radius);
    let ghost orig = g.tiles@;
    let ghost g0 = *g;
    proof {
        lemma_cursor_start(*old(rolls));
    }
    let n = cells.len();
    for k in 0..n
        invariant
            n == cells.len(),
            g.wf(),
            same_shape(g0, *g),
            g0 == *old(g),
            orig == g0.tiles@,
            rolls.wf(),
            rolls.values@ == old(rolls).values@,
            rolls.next == cursor_after(*old(rolls), k as int),
            old(rolls).wf(),
            forall|m: int|
                0 <= m < k ==> #[trigger] g.tiles@[cells@[m] as int] == if nth_draw(*old(rolls), m)
                    > remains_draw(kind) {
                    with_remains(kind, orig[cells@[m] as int])
                } else {
                    orig[cells@[m] as int]
                },
            radius == remains_radius(kind),
            chance == remains_draw(kind),
            forall|j: int| 0 <= j < cells.len() ==> #[trigger] cells@[j] < orig.len(),
            forall|a: int, b: int| 0 <= a < b < cells.len() ==> cells@[a] < cells@[b],
            forall|i: int|
                0 <= i < orig.len() ==> (cells@.contains(i as usize) <==> g0.tile_in_disk(
                    cx as int,
                    cy as int,
                    radius as int,
                    i,
                )),
            forall|i: int|
                0 <= i < orig.len() && !queued_before(cells@, k as int, i) ==> #[trigger] g.tiles@[i]
                    == orig[i],
            forall|i: int|
                0 <= i < orig.len() ==> {
                    ||| #[trigger] g.tiles@[i] == orig[i]
                    ||| g0.tile_in_disk(cx as int, cy as int, radius as int, i) && g.tiles@[i]
                        == with_remains(kind, orig[i])
                },
    {
        let i = cells[k];
        assert(!queued_before(cells@, k as int, i as int)) by {
            if queued_before(cells@, k as int, i as int) {
                let m = choose|m: int| 0 <= m < k && cells@[m] as int == i as int;
                assert(cells@[m] < cells@[k as int]);
            }
        }
        assert(cells@.contains(i));
        proof {
            lemma_cursor_step(*old(rolls), k as int);
        }
        if rolls.draw() > chance {
            let mut t = g.tiles[i];
            t.material = match kind {
                Remains::Guts => TileMaterial::AntGuts,
                Remains::Body => TileMaterial::AntBody,
            };
            t.height = match kind {
                Remains::Guts => add_height(t.height, 5),
                Remains::Body => BODY_HEIGHT,
            };
            g.tiles.set(i, t);
        }
        assert forall|j: int|
            0 <= j < orig.len() && !queued_before(cells@, k + 1, j) implies #[trigger] g.tiles@[j]
                == orig[j] by {
            if j != i as int && queued_before(cells@, k as int, j) {
                let m = choose|m: int| 0 <= m < k && cells@[m] as int == j;
                assert(queued_before(cells@, k + 1, j));
            }
            if j == i as int {
                assert(cells@[k as int] as int == j);
            }
        }
        assert forall|m: int| 0 <= m < k implies cells@[m] != i by {
            assert(cells@[m] < cells@[k as int]);
        }
    }
    proof {
        lemma_cursor_start(*old(rolls));
    }
    cells
}

/// Marks the death at `(cx, cy)`: every tile of the disk of radius
/// `DEATH_MARK_RADIUS` has its pheromone level lowered by
/// [`death_penalty`], floored at zero.
pub fn mark_death(g: &mut GridWorld, cx: i32, cy: i32)
    requires
        old(g).wf(),
    ensures
        same_shape(*old(g), *final(g)),
        forall|i: int|
            0 <= i < old(g).tiles.len() ==> #[trigger] final(g).tiles@[i] == if old(g).tile_in_disk(
                cx as int,
                cy as int,
                DEATH_MARK_RADIUS as int,
                i,
            ) {
                Tile {
                    pheremone_level: lowered(
                        old(g).tiles@[i].pheremone_level as int,
                        death_penalty(corner_dist_sq(*old(g), i, cx as int, cy as int)),
                    ),
                    ..old(g).tiles@[i]
                }
            } else {
                old(g).tiles@[i]
            },
{
    let cells = g.disk_cells(cx, cy, DEATH_MARK_RADIUS);
    let ghost orig = g.tiles@;
    let ghost g0 = *g;
    let n = cells.len();
    let h = g.height;
    for k in 0..n
        invariant
            n == cells.len(),
            h == g.height,
            g.wf(),
            same_shape(g0, *g),
            g0 == *old(g),
            orig == g0.tiles@,
            forall|j: int| 0 <= j < cells.len() ==> #[trigger] cells@[j] < orig.len(),
            forall|a: int, b: int| 0 <= a < b < cells.len() ==> cells@[a] < cells@[b],
            forall|i: int|
                0 <= i < orig.len() ==> (cells@.contains(i as usize) <==> g0.tile_in_disk(
                    cx as int,
                    cy as int,
                    DEATH_MARK_RADIUS as int,
                    i,
                )),
            forall|i: int|
                0 <= i < orig.len() ==> #[trigger] g.tiles@[i] == if queued_before(
                    cells@,
                    k as int,
                    i,
                ) {
                    Tile {
                        pheremone_level: lowered(
                            orig[i].pheremone_level as int,
                            death_penalty(corner_dist_sq(g0, i, cx as int, cy as int)),
                        ),
                        ..orig[i]
                    }
                } else {
                    orig[i]
                },
    {
        let i = cells[k];
        assert(!queued_before(cells@, k as int, i as int)) by {
            if queued_before(cells@, k as int, i as int) {
                let m = choose|m: int| 0 <= m < k && cells@[m] as int == i as int;
                assert(cells@[m] < cells@[k as int]);
            }
        }
        assert(cells@.contains(i));
        assert(h > 0) by (nonlinear_arith)
            requires
                i < g.width * h,
        ;
        let x = i / h;
        let y = i % h;
        assert(x < g.width) by (nonlinear_arith)
            requires
                i < g.width * h,
                x == i / h,
                h > 0,
        ;
        assert(x * 256 <= 0x40_0000 * 256) by (nonlinear_arith)
            requires
                x <= 0x40_0000,
        ;
        assert(y * 256 <= 0x40_0000 * 256) by (nonlinear_arith)
            requires
                y <= 0x40_0000,
        ;
        let dx: i128 = x as i128 * SUB as i128 - cx as i128;
        let dy: i128 = y as i128 * SUB as i128 - cy as i128;
        assert(0 <= dx * dx <= 0x1_0000_0000 * 0x1_0000_0000) by (nonlinear_arith)
            requires
                -0x1_0000_0000 <= dx <= 0x1_0000_0000,
        ;
        assert(0 <= dy * dy <= 0x1_0000_0000 * 0x1_0000_0000) by (nonlinear_arith)
            requires
                -0x1_0000_0000 <= dy <= 0x1_0000_0000,
        ;
        let d2 = dx * dx + dy * dy;
        let s2: i128 = 65536;
        let mut p: i16 = 0;
        if d2 <= 0 {
            p = p + 1;
        }
        if d2 <= 4 * s2 {
            p = p + 1;
        }
        if d2 <= 16 * s2 {
            p = p + 1;
        }
        if d2 <= 36 * s2 {
            p = p + 1;
        }
        if d2 <= 64 * s2 {
            p = p + 1;
        }
        let mut t = g.tiles[i];
        let v = t.pheremone_level as i32 - p as i32;
        t.pheremone_level = if v < 0 { 0 } else { v as i16 };
        g.tiles.set(i, t);
        assert forall|j: int| 0 <= j < orig.len() implies #[trigger] g.tiles@[j] == if queued_before(
            cells@,
            k + 1,
            j,
        ) {
            Tile {
                pheremone_level: lowered(
                    orig[j].pheremone_level as int,
                    death_penalty(corner_dist_sq(g0, j, cx as int, cy as int)),
                ),
                ..orig[j]
            }
        } else {
            orig[j]
        } by {
            if j == i as int {
                assert(cells@[k as int] as int == j);
            } else if queued_before(cells@, k + 1, j) {
                let m = choose|m: int| 0 <= m < k + 1 && cells@[m] as int == j;
                assert(queued_before(cells@, k as int, j));
            } else if queued_before(cells@, k as int, j) {
                let m = choose|m: int| 0 <= m < k && cells@[m] as int == j;
                assert(queued_before(cells@, k + 1, j));
            }
        }
    }
    assert forall|i: int| 0 <= i < orig.len() implies queued_before(cells@, n as int, i)
        == cells@.contains(i as usize) by {
        if cells@.contains(i as usize) {
            let m = choose|m: int| 0 <= m < cells.len() && cells@[m] == i as usize;
            assert(cells@[m] as int == i);
        }
    }
}

/// Agents below this row, in sub-units, pick up harvestable material.
pub const HARVEST_LINE: i32 = 46080;

/// Returning agents drop their load within this many rows of the top edge.
pub const DROP_BAND: i64 = 20;

/// A returning agent in the drop band drops its load when its draw exceeds this.
pub const DROP_DRAW: u16 = 9500;

/// Tiles taller than this erode under a passing ant ...
pub const EROSION_HEIGHT: u8 = 150;

/// ... when the ant's draw exceeds this.
pub const EROSION_DRAW: u16 = 5000;

/// Agents below this health weaken ...
pub const FRAIL_HEALTH: u8 = 100;

/// ... by one point when their draw exceeds this.
pub const DECAY_DRAW: u16 = 8000;

/// Radius, in sub-units, of the hazard zone a predator carries.
pub const PREDATOR_ZONE_RADIUS: i32 = 2560;

/// `v` clamped into `i16`.
pub open spec fn clamp_i16(v: int) -> i16 {
    if v < i16::MIN {
        i16::MIN
    } else if v > i16::MAX {
        i16::MAX
    } else {
        v as i16
    }
}

/// The tile after an ant has passed over it: foraging raises the pheromone
/// level, returning lowers it and wears the ground down; both count a visit.
/// All of it saturates.
pub open spec fn presence(t: Tile, a: Agent) -> Tile {
    if a.mode == AgentMode::Returning {
        Tile {
            pheremone_level: clamp_i16(t.pheremone_level - 1),
            height: saturate_height(t.height as int, -1),
            times_changed: if t.times_changed == u32::MAX {
                u32::MAX
            } else {
                (t.times_changed + 1) as u32
            },
            ..t
        }
    } else {
        Tile {
            pheremone_level: clamp_i16(t.pheremone_level + 1),
            times_changed: if t.times_changed == u32::MAX {
                u32::MAX
            } else {
                (t.times_changed + 1) as u32
            },
            ..t
        }
    }
}

/// The agent lies in the band, `DROP_BAND` rows deep, below the top edge of
/// a grid `grid_height` rows high.
pub open spec fn in_drop_band(a: Agent, grid_height: int) -> bool {
    a.y > (grid_height - DROP_BAND) * SUB
}

/// A foraging, empty-handed agent below the harvest line finds harvestable
/// material on tile `t`.
pub open spec fn picks_up(t: Tile, a: Agent) -> bool {
    &&& a.mode == AgentMode::Foraging
    &&& a.carrying is None
    &&& t.material.harvestable()
    &&& a.y < HARVEST_LINE
}

/// The agent's fields that only movement and navigation change.
pub open spec fn same_body(a: Agent, b: Agent) -> bool {
    &&& b.x == a.x
    &&& b.y == a.y
    &&& b.dir_x == a.dir_x
    &&& b.dir_y == a.dir_y
    &&& b.speed == a.speed
    &&& b.health == a.health
    &&& b.is_spider == a.is_spider
    &&& b.home_x == a.home_x
    &&& b.home_y == a.home_y
}

/// A returning ant in the drop band whose draw fires puts its load (if any)
/// onto plain earth and goes foraging again.
pub open spec fn after_drop(t: Tile, a: Agent, fires: bool) -> (Tile, Agent) {
    if fires && t.material == TileMaterial::Earth {
        (
            Tile {
                material: match a.carrying {
                    Some(m) => m,
                    None => t.material,
                },
                ..t
            },
            Agent { mode: AgentMode::Foraging, carrying: None, ..a },
        )
    } else {
        (t, a)
    }
}

/// An empty-handed agent below the harvest line takes harvestable material,
/// leaves plain earth, and turns for home.
pub open spec fn after_pickup(t: Tile, a: Agent) -> (Tile, Agent) {
    if a.y < HARVEST_LINE && a.carrying is None && t.material.harvestable() {
        (
            Tile { material: TileMaterial::Earth, ..t },
            Agent { mode: AgentMode::Returning, carrying: Some(t.material), ..a },
        )
    } else {
        (t, a)
    }
}

/// The tile after presence marks is tall enough to erode, and so draws.
pub open spec fn draws_erosion(t: Tile, a: Agent) -> bool {
    presence(t, a).height > EROSION_HEIGHT
}

/// The agent is a returning ant in the drop band, and so draws.
pub open spec fn draws_drop(a: Agent, grid_height: int) -> bool {
    a.mode == AgentMode::Returning && in_drop_band(a, grid_height)
}

/// Number of draws an ant's visit to tile `t` takes.
pub open spec fn visit_draws(t: Tile, a: Agent, grid_height: int) -> int {
    (if draws_erosion(t, a) { 1int } else { 0 }) + (if draws_drop(a, grid_height) {
        1int
    } else {
        0
    })
}

/// Tile and agent after an ant visits tile `t`, drawing from `r`: presence
/// marks; erosion by one when the tile is tall and the first draw exceeds
/// `EROSION_DRAW`; a drop when the next draw exceeds `DROP_DRAW`; then pickup.
pub open spec fn visit_outcome(t: Tile, a: Agent, grid_height: int, r: Rolls) -> (Tile, Agent) {
    let p = presence(t, a);
    let e = Tile {
        height: if draws_erosion(t, a) && nth_draw(r, 0) > EROSION_DRAW {
            (p.height - 1) as u8
        } else {
            p.height
        },
        ..p
    };
    let k = if draws_erosion(t, a) { 1int } else { 0 };
    let fires = draws_drop(a, grid_height) && nth_draw(r, k) > DROP_DRAW;
    let (t2, a2) = after_drop(e, a, fires);
    after_pickup(t2, a2)
}

/// An ant passes over tile `t`; returns the tile afterwards and updates the
/// ant, as [`visit_outcome`] states.
pub fn visit_tile(t: Tile, a: &mut Agent, grid_height: usize, rolls: &mut Rolls) -> (r: Tile)
    requires
        old(rolls).wf(),
        grid_height <= MAX_SIDE,
    ensures
        (r, *final(a)) == visit_outcome(t, *old(a), grid_height as int, *old(rolls)),
        final(rolls).wf(),
        final(rolls).values@ == old(rolls).values@,
        final(rolls).next == cursor_after(*old(rolls), visit_draws(t, *old(a), grid_height as int)),
{
    let ghost r0 = *rolls;
    let ghost a0 = *a;
    proof {
        lemma_cursor_start(r0);
        lemma_cursor_step(r0, 0);
        lemma_cursor_step(r0, 1);
    }
    let mut r = t;
    let returning = a.mode == AgentMode::Returning;
    if returning {
        r.pheremone_level = if t.pheremone_level == i16::MIN { i16::MIN } else { t.pheremone_level - 1 };
        r.height = add_height(t.height, -1);
    } else {
        r.pheremone_level = if t.pheremone_level == i16::MAX { i16::MAX } else { t.pheremone_level + 1 };
    }
    r.times_changed = if t.times_changed == u32::MAX { u32::MAX } else { t.times_changed + 1 };
    assert(r == presence(t, a0));
    if r.height > EROSION_HEIGHT && rolls.draw() > EROSION_DRAW {
        r.height = r.height - 1;
    }
    let ghost k: int = if draws_erosion(t, a0) { 1 } else { 0 };
    assert(rolls.next == cursor_after(r0, k));
    assert(grid_height <= MAX_SIDE);
    let band: i128 = (grid_height as i128 - 20) * 256;
    if returning && a.y as i128 > band && rolls.draw() > DROP_DRAW {
        if r.material == TileMaterial::Earth {
            a.mode = AgentMode::Foraging;
            match a.carrying {
                Some(m) => {
                    r.material = m;
                },
                None => {},
            }
            a.carrying = None;
        }
    }
    if a.y < HARVEST_LINE && a.carrying.is_none() && r.material.is_harvestable() {
        a.mode = AgentMode::Returning;
        a.carrying = Some(r.material);
        r.material = TileMaterial::Earth;
    }
    r
}

/// Why an agent died.
#[derive(Clone, Copy, PartialEq, Eq, Structural, Debug)]
pub enum DeathCause {
    /// It stood on a tile flagged as deadly to it.
    Hazard,
    /// Its health ran out.
    Exhausted,
}

/// What became of an agent in one tick. An agent that was killed or that
/// reached the defender leaves the live set.
#[derive(Clone, Copy, PartialEq, Eq, Structural, Debug)]
pub struct TickOutcome {
    pub killed: Option<DeathCause>,
    /// It reached the defender and hurt it.
    pub delivered: bool,
}

impl TickOutcome {
    pub open spec fn removes(self) -> bool {
        self.killed is Some || self.delivered
    }

    /// Whether the agent leaves the live set.
    pub fn is_removed(&self) -> (r: bool)
        ensures
            r == self.removes(),
    {
        self.killed.is_some() || self.delivered
    }
}

/// The tile under the agent is flagged as deadly to it.
pub open spec fn hazard_here(g: GridWorld, a: Agent) -> bool {
    g.on_grid(a.x as int, a.y as int) && ({
        let t = g.tiles@[g.cell_at(a.x as int, a.y as int)];
        t.kill_flag || (!a.is_spider && t.kill_ants_only)
    })
}

/// Row, in sub-units, of the defender's centre; agents must be above it.
pub const DEFENDER_ROW: i64 = 3840;

/// Radius, in sub-units, around the defender's centre.
pub const DEFENDER_RADIUS: i64 = 2560;

/// The agent stands above the defender's row and within its radius; the
/// defender sits at the middle of the grid's width.
pub open spec fn at_defender(g: GridWorld, a: Agent) -> bool {
    a.y > DEFENDER_ROW && dist_sq(a.x as int, a.y as int, g.width * 128, DEFENDER_ROW as int)
        < DEFENDER_RADIUS * DEFENDER_RADIUS
}

/// The first phase of a tick: the agent arrives on the tile under it. An ant
/// marks it and may erode it, drop its load or pick material up. An agent on
/// a tile deadly to it scatters guts; a predator flags the tiles around it as
/// deadly to ants and queues them for the sweep. Returns the height an ant
/// stands at (0 for a predator or off the grid) and whether it was killed.
fn arrive(g: &mut GridWorld, a: &mut Agent, rolls: &mut Rolls) -> (r: (u8, bool))
    requires
        old(g).wf(),
        old(rolls).wf(),
    ensures
        final(g).wf(),
        final(g).width == old(g).width,
        final(g).height == old(g).height,
        final(g).tiles.len() == old(g).tiles.len(),
        final(rolls).wf(),
        final(rolls).values@ == old(rolls).values@,
        same_body(*old(a), *final(a)),
        r.1 == hazard_here(*old(g), *old(a)),
        forall|i: int|
            0 <= i < old(g).tiles.len() && old(g).tiles@[i].kill_flag
                ==> #[trigger] final(g).tiles@[i].kill_flag,
        !old(a).is_spider ==> final(g).tiles_to_update == old(g).tiles_to_update,
        ({
            let c = old(g).cell_at(old(a).x as int, old(a).y as int);
            !old(a).is_spider && old(g).on_grid(old(a).x as int, old(a).y as int) && picks_up(
                old(g).tiles@[c],
                *old(a),
            ) && !r.1 ==> {
                &&& final(a).mode == AgentMode::Returning
                &&& final(a).carrying == Some(old(g).tiles@[c].material)
                &&& final(g).tiles@[c].material == TileMaterial::Earth
            }
        }),
        old(a).is_spider && old(g).on_grid(old(a).x as int, old(a).y as int) ==> forall|i: int|
            0 <= i < old(g).tiles.len() && old(g).tile_in_disk(
                old(a).x as int,
                old(a).y as int,
                PREDATOR_ZONE_RADIUS as int,
                i,
            ) ==> #[trigger] final(g).tiles@[i].kill_ants_only,
{
    let px = a.x;
    let py = a.y;
    let mut height_here: u8 = 0;
    let mut hazard = false;
    match g.tile_index_at(px, py) {
        Some(i) => {
            if !a.is_spider {
                let t = visit_tile(g.tiles[i], a, g.height, rolls);
                g.tiles.set(i, t);
                height_here = t.height;
            }
            let t = g.tiles[i];
            if t.kill_flag || (!a.is_spider && t.kill_ants_only) {
                hazard = true;
                let _ = scatter_remains(g, px, py, Remains::Guts, rolls);
            }
            if a.is_spider {
                let edit = crate::disk::TileEdit {
                    height_change: 0,
                    material: None,
                    set_kill_flag: false,
                    set_kill_ants_only: true,
                    mark_touched: true,
                };
                let _ = g.for_tile_in_radius(px, py, PREDATOR_ZONE_RADIUS, edit);
            }
        },
        None => {},
    }
    (height_here, hazard)
}

/// Points the agent at the lowest-cost tile within `NAV_RADIUS` (tall tiles
/// vetoed by draws), or stops it when there is none; an agent past the top
/// row is turned back down. Returns the slope factor of the chosen step.
fn steer(g: &GridWorld, a: &mut Agent, here: u8, rolls: &mut Rolls) -> (slope: i64)
    requires
        g.wf(),
        old(rolls).wf(),
    ensures
        final(rolls).wf(),
        final(rolls).values@ == old(rolls).values@,
        SUB / 2 <= slope <= SUB,
        final(a).x == old(a).x,
        final(a).y == old(a).y,
        final(a).speed == old(a).speed,
        final(a).mode == old(a).mode,
        final(a).health == old(a).health,
        final(a).carrying == old(a).carrying,
        final(a).is_spider == old(a).is_spider,
        final(a).home_x == old(a).home_x,
        final(a).home_y == old(a).home_y,
{
    let px = a.x;
    let py = a.y;
    let cells = g.disk_cells(px, py, NAV_RADIUS);
    let vetoed = draw_vetoes(g, &cells, rolls);
    let mut slope: i64 = SUB;
    match pick_lowest(g, a, here, &cells, &vetoed) {
        Some(k) => {
            let i = cells[k];
            let h = g.height;
            assert(h > 0) by (nonlinear_arith)
                requires
                    i < g.width * h,
            ;
            let tx = i / h;
            let ty = i % h;
            assert(tx < g.width) by (nonlinear_arith)
                requires
                    i < g.width * h,
                    tx == i / h,
                    h > 0,
            ;
            let (dx, dy) = heading_towards(px, py, tx, ty);
            a.dir_x = dx;
            a.dir_y = dy;
            slope = slope_speed(here, g.tiles[i].height);
        },
        None => {
            a.dir_x = 0;
            a.dir_y = 0;
        },
    }
    let top: i128 = (g.height as i128 - 1) * 256;
    if py as i128 > top {
        a.dir_x = 0;
        a.dir_y = -256;
    }
    slope
}

/// The aftermath of a death at `(px, py)`: the body is scattered, the
/// pheromone field marked, and the load dropped onto the tile there.
fn bury(g: &mut GridWorld, a: &mut Agent, px: i32, py: i32, rolls: &mut Rolls)
    requires
        old(g).wf(),
        old(rolls).wf(),
    ensures
        same_shape(*old(g), *final(g)),
        final(rolls).wf(),
        final(rolls).values@ == old(rolls).values@,
        forall|i: int|
            0 <= i < old(g).tiles.len() ==> (#[trigger] final(g).tiles@[i]).kill_ants_only == old(
                g,
            ).tiles@[i].kill_ants_only && final(g).tiles@[i].kill_flag == old(g).tiles@[i].kill_flag,
        same_body(*old(a), *final(a)),
        final(a).mode == old(a).mode,
        final(a).carrying is None,
{
    let ghost g0 = *g;
    let _ = scatter_remains(g, px, py, Remains::Body, rolls);
    let ghost g1 = *g;
    mark_death(g, px, py);
    let ghost g2 = *g;
    assert forall|i: int| 0 <= i < g0.tiles.len() implies (#[trigger] g2.tiles@[i]).kill_ants_only
        == g0.tiles@[i].kill_ants_only && g2.tiles@[i].kill_flag == g0.tiles@[i].kill_flag by {
        assert(g1.tiles@[i] == g0.tiles@[i] || g1.tiles@[i] == with_remains(
            Remains::Body,
            g0.tiles@[i],
        ));
    }
    match g.tile_index_at(px, py) {
        Some(i) => {
            match a.carrying {
                Some(m) => {
                    let mut t = g.tiles[i];
                    t.material = m;
                    g.tiles.set(i, t);
                },
                None => {},
            }
        },
        None => {},
    }
    a.carrying = None;
}

/// One tick of one agent. `armed` says whether reaching the defender hurts
/// it (not in a protected mode, defender still standing).
///
/// The agent arrives on its tile (see `arrive`), heads for the lowest-cost
/// tile around it, weakens by one point with a draw when frail, dies when
/// its health is gone, and moves. A dead agent is buried where it stood.
pub fn tick_agent(g: &mut GridWorld, a: &mut Agent, rolls: &mut Rolls, armed: bool) -> (o:
    TickOutcome)
    requires
        old(g).wf(),
        old(rolls).wf(),
    ensures
        final(g).wf(),
        final(g).width == old(g).width,
        final(g).height == old(g).height,
        final(g).tiles.len() == old(g).tiles.len(),
        final(rolls).wf(),
        final(rolls).values@ == old(rolls).values@,
        final(a).speed == old(a).speed,
        final(a).is_spider == old(a).is_spider,
        final(a).home_x == old(a).home_x,
        final(a).home_y == old(a).home_y,
        old(a).health >= FRAIL_HEALTH ==> final(a).health == old(a).health,
        old(a).health < FRAIL_HEALTH ==> final(a).health == old(a).health || (old(a).health > 0
            && final(a).health == old(a).health - 1),
        o.killed == if hazard_here(*old(g), *old(a)) {
            Some(DeathCause::Hazard)
        } else if final(a).health == 0 {
            Some(DeathCause::Exhausted)
        } else {
            None
        },
        o.delivered == (armed && !old(a).is_spider && at_defender(*old(g), *old(a))),
        o.killed is Some ==> final(a).carrying is None,
        forall|i: int|
            0 <= i < old(g).tiles.len() && old(g).tiles@[i].kill_flag
                ==> #[trigger] final(g).tiles@[i].kill_flag,
        !old(a).is_spider ==> final(g).tiles_to_update == old(g).tiles_to_update,
        ({
            let c = old(g).cell_at(old(a).x as int, old(a).y as int);
            !old(a).is_spider && old(g).on_grid(old(a).x as int, old(a).y as int) && picks_up(
                old(g).tiles@[c],
                *old(a),
            ) && o.killed is None ==> {
                &&& final(a).mode == AgentMode::Returning
                &&& final(a).carrying == Some(old(g).tiles@[c].material)
                &&& final(g).tiles@[c].material == TileMaterial::Earth
            }
        }),
        old(a).is_spider && old(g).on_grid(old(a).x as int, old(a).y as int) ==> forall|i: int|
            0 <= i < old(g).tiles.len() && old(g).tile_in_disk(
                old(a).x as int,
                old(a).y as int,
                PREDATOR_ZONE_RADIUS as int,
                i,
            ) ==> #[trigger] final(g).tiles@[i].kill_ants_only,
{
    let px = a.x;
    let py = a.y;
    let (height_here, hazard) = arrive(g, a, rolls);
    let slope = steer(g, a, height_here, rolls);
    if a.health < FRAIL_HEALTH && a.health > 0 {
        if rolls.draw() > DECAY_DRAW {
            a.health = a.health - 1;
        }
    }
    let will_die = hazard || a.health == 0;
    let ddx = px as i128 - g.width as i128 * 128;
    let ddy = py as i128 - DEFENDER_ROW as i128;
    proof {
        crate::navigation::lemma_mul_bounds(ddx as int, ddx as int, 0x1_0000_0000, 0x1_0000_0000);
        crate::navigation::lemma_mul_bounds(ddy as int, ddy as int, 0x1_0000_0000, 0x1_0000_0000);
    }
    let delivered = armed && !a.is_spider && py as i64 > DEFENDER_ROW && ddx * ddx + ddy * ddy
        < 6553600;
    assert(DEFENDER_RADIUS * DEFENDER_RADIUS == 6553600);
    if will_die {
        bury(g, a, px, py, rolls);
    }
    advance(a, slope);
    TickOutcome {
        killed: if hazard {
            Some(DeathCause::Hazard)
        } else if will_die {
            Some(DeathCause::Exhausted)
        } else {
            None
        },
        delivered,
    }
}

/// An agent that left the live set this tick, as it was when it left, with
/// its position in the list of live agents at the start of the tick.
#[derive(Clone, Copy, Debug)]
pub struct AgentEvent {
    pub index: usize,
    pub agent: Agent,
    pub outcome: TickOutcome,
}

/// The agent cannot survive its tick on grid `g`: it stands on a tile whose
/// kill flag is set, or it reaches the defender while `armed`.
pub open spec fn doomed(g: GridWorld, a: Agent, armed: bool) -> bool {
    ||| g.on_grid(a.x as int, a.y as int) && g.tiles@[g.cell_at(a.x as int, a.y as int)].kill_flag
    ||| armed && !a.is_spider && at_defender(g, a)
}

/// Position `k` of the list appears among the events.
pub open spec fn reported(events: Seq<AgentEvent>, k: int) -> bool {
    exists|e: int| 0 <= e < events.len() && events[e].index as int == k
}

/// One simulation tick: every live agent, in storage order, runs
/// [`tick_agent`]; agents that were killed or reached the defender are
/// removed (the others keep their order) and reported in order; finally the
/// sweep clears the hazard flags of every queued tile. An agent that starts
/// the tick on a kill-flagged tile, or at the defender while `armed`, is
/// always among those removed.
pub fn run_tick(g: &mut GridWorld, agents: &mut Vec<Agent>, rolls: &mut Rolls, armed: bool) -> (events:
    Vec<AgentEvent>)
    requires
        old(g).wf(),
        old(rolls).wf(),
    ensures
        final(g).wf(),
        final(g).width == old(g).width,
        final(g).height == old(g).height,
        final(g).tiles.len() == old(g).tiles.len(),
        final(g).tiles_to_update@.len() == 0,
        final(rolls).wf(),
        final(rolls).values@ == old(rolls).values@,
        final(agents).len() + events.len() == old(agents).len(),
        forall|e: int| 0 <= e < events.len() ==> (#[trigger] events@[e]).outcome.removes(),
        forall|e: int| 0 <= e < events.len() ==> #[trigger] events@[e].index < old(agents).len(),
        forall|e: int, f: int| 0 <= e < f < events.len() ==> events@[e].index < events@[f].index,
        forall|k: int|
            0 <= k < old(agents).len() && doomed(*old(g), #[trigger] old(agents)@[k], armed)
                ==> reported(events@, k),
{
    let mut survivors: Vec<Agent> = Vec::new();
    let mut events: Vec<AgentEvent> = Vec::new();
    let n = agents.len();
    let ghost g0 = *g;
    let ghost agents0 = agents@;
    for k in 0..n
        invariant
            n == agents.len(),
            agents@ == agents0,
            agents0 == old(agents)@,
            g0 == *old(g),
            g.wf(),
            g.width == old(g).width,
            g.height == old(g).height,
            g.tiles.len() == old(g).tiles.len(),
            forall|i: int|
                0 <= i < g0.tiles.len() && g0.tiles@[i].kill_flag ==> #[trigger] g.tiles@[i].kill_flag,
            rolls.wf(),
            rolls.values@ == old(rolls).values@,
            survivors.len() + events.len() == k,
            forall|e: int| 0 <= e < events.len() ==> (#[trigger] events@[e]).outcome.removes(),
            forall|e: int| 0 <= e < events.len() ==> #[trigger] events@[e].index < k,
            forall|e: int, f: int| 0 <= e < f < events.len() ==> events@[e].index < events@[f].index,
            forall|j: int|
                0 <= j < k && doomed(g0, #[trigger] agents0[j], armed) ==> reported(events@, j),
    {
        let mut a = agents[k];
        let ghost gk = *g;
        let o = tick_agent(g, &mut a, rolls, armed);
        proof {
            if doomed(g0, agents0[k as int], armed) {
                let ak = agents0[k as int];
                if g0.on_grid(ak.x as int, ak.y as int) && g0.tiles@[g0.cell_at(
                    ak.x as int,
                    ak.y as int,
                )].kill_flag {
                    crate::grid::lemma_index_in_bounds(
                        g0.width as int,
                        g0.height as int,
                        ak.x / 256,
                        ak.y / 256,
                    );
                    assert(gk.tiles@[g0.cell_at(ak.x as int, ak.y as int)].kill_flag);
                    assert(hazard_here(gk, ak));
                }
            }
        }
        let ghost before = events@;
        if o.is_removed() {
            events.push(AgentEvent { index: k, agent: a, outcome: o });
            assert forall|j: int|
                0 <= j < k + 1 && doomed(g0, #[trigger] agents0[j], armed) implies reported(
                events@,
                j,
            ) by {
                if j < k {
                    let e = choose|e: int| 0 <= e < before.len() && before[e].index as int == j;
                    assert(events@[e] == before[e]);
                } else {
                    assert(events@[before.len() as int].index == k);
                }
            }
        } else {
            survivors.push(a);
        }
    }
    *agents = survivors;
    let _ = g.update_tiles();
    events
}

} // verus!
