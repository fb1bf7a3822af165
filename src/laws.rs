//! Properties that relate several operations, or hold of every state.

use vstd::prelude::*;
use crate::agent::Agent;
use crate::grid::{GridWorld, is_sweep_of};
use crate::pheromone::{is_gradient_reset, TOP_MARGIN};
use crate::rolls::Rolls;

verus! {

/// Tile heights and agent health never leave `0..=255`: both are bytes, and
/// every operation on them saturates rather than wraps.
pub proof fn heights_and_health_stay_in_bounds(g: GridWorld, a: Agent)
    ensures
        forall|i: int| 0 <= i < g.tiles.len() ==> 0 <= #[trigger] g.tiles@[i].height <= 255,
        0 <= a.health <= 255,
{
}

/// A disk with a non-positive radius holds no tile, so a query on it visits
/// nothing.
pub proof fn empty_disk_visits_nothing(g: GridWorld, cx: int, cy: int, r: int)
    requires
        r <= 0,
    ensures
        forall|i: int| 0 <= i < g.tiles.len() ==> !#[trigger] g.tile_in_disk(cx, cy, r, i),
{
}

/// The sweep leaves every queued tile with both hazard flags cleared and
/// touches no other tile; how often or in what order an index was queued
/// makes no difference; and a second sweep right after the first changes
/// nothing.
pub proof fn sweep_clears_exactly_the_queued_tiles(
    before1: GridWorld,
    after1: GridWorld,
    before2: GridWorld,
    after2: GridWorld,
    again: GridWorld,
)
    requires
        is_sweep_of(before1, after1),
        is_sweep_of(before2, after2),
        is_sweep_of(after1, again),
        before1.tiles@ == before2.tiles@,
        forall|i: usize| before1.tiles_to_update@.contains(i) <==> before2.tiles_to_update@.contains(i),
    ensures
        forall|i: int|
            0 <= i < after1.tiles.len() && before1.tiles_to_update@.contains(i as usize) ==> {
                &&& !(#[trigger] after1.tiles@[i]).kill_flag
                &&& !after1.tiles@[i].kill_ants_only
            },
        forall|i: int|
            0 <= i < after1.tiles.len() && !before1.tiles_to_update@.contains(i as usize)
                ==> #[trigger] after1.tiles@[i] == before1.tiles@[i],
        after1.tiles@ == after2.tiles@,
        again.tiles@ == after1.tiles@,
{
    assert(after1.tiles@ =~= after2.tiles@);
    assert(again.tiles@ =~= after1.tiles@);
}

/// A gradient reset is reproducible: on grids of the same size, with streams
/// that hold the same draws from the same cursor, it leaves the same
/// pheromone field; and the last `TOP_MARGIN` rows always hold the maximum
/// level.
pub proof fn gradient_reset_is_reproducible(
    before1: GridWorld,
    after1: GridWorld,
    rolls1: Rolls,
    before2: GridWorld,
    after2: GridWorld,
    rolls2: Rolls,
)
    requires
        before1.wf(),
        before2.wf(),
        is_gradient_reset(before1, after1, rolls1),
        is_gradient_reset(before2, after2, rolls2),
        before1.width == before2.width,
        before1.height == before2.height,
        rolls1.values@ == rolls2.values@,
        rolls1.next == rolls2.next,
    ensures
        after1.tiles.len() == after2.tiles.len(),
        forall|i: int|
            0 <= i < after1.tiles.len() ==> #[trigger] after1.tiles@[i].pheremone_level
                == after2.tiles@[i].pheremone_level,
        forall|i: int|
            0 <= i < after1.tiles.len() && before1.row(i) + TOP_MARGIN >= before1.height
                ==> #[trigger] after1.tiles@[i].pheremone_level == i16::MAX,
{
    assert forall|i: int| 0 <= i < after1.tiles.len() implies #[trigger] after1.tiles@[i].pheremone_level
        == after2.tiles@[i].pheremone_level by {
        assert(after1.tiles@[i] == after1.tiles@[i]);
        assert(after2.tiles@[i] == after2.tiles@[i]);
    }
    assert forall|i: int|
        0 <= i < after1.tiles.len() && before1.row(i) + TOP_MARGIN >= before1.height implies #[trigger] after1.tiles@[i].pheremone_level
        == i16::MAX by {
        assert(after1.tiles@[i] == after1.tiles@[i]);
    }
}

} // verus!
