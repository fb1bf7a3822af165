//! The tile grid: storage, point lookup, the pending-update queue and its
//! end-of-tick sweep.

use vstd::prelude::*;
use crate::geometry::SUB;
use crate::tile::{Tile, TileMaterial, blank_tile, cleared};

verus! {

/// Largest grid side: keeps every tile corner addressable in `i32` sub-units.
pub const MAX_SIDE: usize = 0x40_0000;

/// A fixed `width x height` grid of tiles, stored at index `x * height + y`.
pub struct GridWorld {
    pub width: usize,
    pub height: usize,
    pub tiles: Vec<Tile>,
    /// Indices of tiles touched this tick, cleared by [`GridWorld::update_tiles`].
    pub tiles_to_update: Vec<usize>,
}

/// Index of tile `(x, y)` in a grid of the given height.
pub open spec fn tile_index(height: int, x: int, y: int) -> int {
    x * height + y
}

/// `i` names some tile of the grid and appears in `q` before position `k`.
pub open spec fn queued_before(q: Seq<usize>, k: int, i: int) -> bool {
    exists|m: int| 0 <= m < k && q[m] as int == i
}

/// Tile indices of an in-bounds coordinate pair fall inside the storage.
pub proof fn lemma_index_in_bounds(w: int, h: int, x: int, y: int)
    requires
        0 <= x < w,
        0 <= y < h,
    ensures
        0 <= x * h + y < w * h,
{
    assert(x * h + y < w * h) by (nonlinear_arith)
        requires
            0 <= x < w,
            0 <= y < h,
    ;
    assert(0 <= x * h) by (nonlinear_arith)
        requires
            0 <= x,
            0 <= h,
    ;
}

/// `after` is `before` after the end-of-tick sweep: every queued tile has
/// both hazard flags cleared, every other tile is as it was, and the queue
/// is empty.
pub open spec fn is_sweep_of(before: GridWorld, after: GridWorld) -> bool {
    &&& after.width == before.width
    &&& after.height == before.height
    &&& after.tiles.len() == before.tiles.len()
    &&& forall|i: int|
        0 <= i < after.tiles.len() ==> #[trigger] after.tiles@[i] == if before.tiles_to_update@.contains(
            i as usize,
        ) {
            cleared(before.tiles@[i])
        } else {
            before.tiles@[i]
        }
    &&& after.tiles_to_update@.len() == 0
}

impl GridWorld {
    pub open spec fn wf(&self) -> bool {
        &&& self.width <= MAX_SIDE
        &&& self.height <= MAX_SIDE
        &&& self.tiles.len() == self.width * self.height
        &&& forall|k: int|
            0 <= k < self.tiles_to_update.len() ==> #[trigger] self.tiles_to_update@[k]
                < self.tiles.len()
    }

    /// Column of the tile at index `i`.
    pub open spec fn col(&self, i: int) -> int {
        i / self.height as int
    }

    /// Row of the tile at index `i`.
    pub open spec fn row(&self, i: int) -> int {
        i % self.height as int
    }

    /// A grid of blank tiles with an empty pending-update queue.
    pub fn new(width: usize, height: usize) -> (g: GridWorld)
        requires
            width <= MAX_SIDE,
            height <= MAX_SIDE,
            width * height <= usize::MAX,
        ensures
            g.wf(),
            g.width == width,
            g.height == height,
            forall|i: int| 0 <= i < g.tiles.len() ==> g.tiles@[i] == blank_tile(),
            g.tiles_to_update@.len() == 0,
    {
        let blank = Tile {
            height: 128,
            material: TileMaterial::Earth,
            pheremone_level: 0,
            kill_flag: false,
            kill_ants_only: false,
            times_changed: 0,
        };
        let n = width * height;
        let mut tiles: Vec<Tile> = Vec::with_capacity(n);
        for i in 0..n
            invariant
                tiles.len() == i,
                blank == blank_tile(),
                forall|j: int| 0 <= j < i ==> tiles@[j] == blank_tile(),
        {
            tiles.push(blank);
        }
        GridWorld { width, height, tiles, tiles_to_update: Vec::new() }
    }

    /// Drains the pending-update queue, returning its entries, and clears the
    /// hazard flags of every queued tile. Duplicate entries are harmless:
    /// clearing twice equals clearing once.
    pub fn update_tiles(&mut self) -> (drained: Vec<usize>)
        requires
            old(self).wf(),
        ensures
            final(self).wf(),
            is_sweep_of(*old(self), *final(self)),
            drained@ == old(self).tiles_to_update@,
    {
        let ghost orig = self.tiles@;
        let ghost q = self.tiles_to_update@;
        let n = self.tiles_to_update.len();
        let mut drained: Vec<usize> = Vec::new();
        for k in 0..n
            invariant
                drained@ == q.subrange(0, k as int),
                n == self.tiles_to_update.len(),
                self.wf(),
                self.width == old(self).width,
                self.height == old(self).height,
                self.tiles_to_update@ == q,
                self.tiles@.len() == orig.len(),
                forall|i: int|
                    0 <= i < orig.len() ==> #[trigger] self.tiles@[i] == if queued_before(
                        q,
                        k as int,
                        i,
                    ) {
                        cleared(orig[i])
                    } else {
                        orig[i]
                    },
        {
            let i = self.tiles_to_update[k];
            drained.push(i);
            assert(drained@ == q.subrange(0, k + 1));
            let mut t = self.tiles[i];
            t.kill_flag = false;
            t.kill_ants_only = false;
            self.tiles.set(i, t);
            assert forall|j: int| 0 <= j < orig.len() implies #[trigger] self.tiles@[j] == if queued_before(
                q,
                k + 1,
                j,
            ) {
                cleared(orig[j])
            } else {
                orig[j]
            } by {
                if j == i as int {
                    assert(q[k as int] as int == j);
                } else {
                    if queued_before(q, k + 1, j) {
                        let m = choose|m: int| 0 <= m < k + 1 && q[m] as int == j;
                        assert(m != k);
                    }
                }
            }
        }
        self.tiles_to_update.clear();
        assert forall|i: int| 0 <= i < orig.len() implies queued_before(q, n as int, i) == q.contains(
            i as usize,
        ) by {
            if q.contains(i as usize) {
                let m = choose|m: int| 0 <= m < q.len() && q[m] == i as usize;
                assert(q[m] as int == i);
            }
        }
        assert(drained@ == q);
        drained
    }

    /// Whether the fixed-point point `(x, y)` lies on a tile of the grid.
    pub open spec fn on_grid(&self, x: int, y: int) -> bool {
        0 <= x && 0 <= y && x / (SUB as int) < self.width && y / (SUB as int) < self.height
    }

    /// Index of the tile holding the fixed-point point `(x, y)`.
    pub open spec fn cell_at(&self, x: int, y: int) -> int {
        tile_index(self.height as int, x / (SUB as int), y / (SUB as int))
    }

    /// Index of the tile holding the fixed-point point `(x, y)`, or `None`
    /// off the grid.
    pub fn tile_index_at(&self, x: i32, y: i32) -> (r: Option<usize>)
        requires
            self.wf(),
        ensures
            r.is_some() == self.on_grid(x as int, y as int),
            r matches Some(i) ==> i == self.cell_at(x as int, y as int) && i < self.tiles.len(),
    {
        if x < 0 || y < 0 {
            return None;
        }
        let tx = (x as i64 / SUB) as usize;
        let ty = (y as i64 / SUB) as usize;
        if tx >= self.width || ty >= self.height {
            return None;
        }
        proof {
            lemma_index_in_bounds(self.width as int, self.height as int, tx as int, ty as int);
        }
        Some(tx * self.height + ty)
    }

    /// The tile holding the fixed-point point `(x, y)`, or `None` off the grid.
    pub fn get_tile(&mut self, x: i32, y: i32) -> (r: Option<&mut Tile>)
        requires
            old(self).wf(),
        ensures
            r.is_some() == old(self).on_grid(x as int, y as int),
            r matches Some(t) ==> {
                &&& *t == old(self).tiles@[old(self).cell_at(x as int, y as int)]
                &&& final(self).tiles@ == old(self).tiles@.update(
                    old(self).cell_at(x as int, y as int),
                    *final(t),
                )
            },
            r is None ==> *final(self) == *old(self),
            final(self).width == old(self).width,
            final(self).height == old(self).height,
            final(self).tiles_to_update == old(self).tiles_to_update,
    {
        if x < 0 || y < 0 {
            return None;
        }
        let tx = (x as i64 / SUB) as usize;
        let ty = (y as i64 / SUB) as usize;
        if tx >= self.width || ty >= self.height {
            return None;
        }
        proof {
            lemma_index_in_bounds(self.width as int, self.height as int, tx as int, ty as int);
        }
        let i = tx * self.height + ty;
        Some(&mut self.tiles[i])
    }
}

} // verus!
