//! Disk-shaped regions of the grid: which tiles they hold, and bulk edits.

use vstd::prelude::*;
use vstd::arithmetic::div_mod::lemma_fundamental_div_mod_converse;
use vstd::arithmetic::div_mod::lemma_fundamental_div_mod;
use crate::geometry::{SUB, dist_sq};
use crate::grid::{GridWorld, MAX_SIDE};
use crate::tile::{Tile, TileMaterial};

verus! {

/// Tile `(x, y)`, whose corner lies at `(x * SUB, y * SUB)`, is strictly closer
/// than `r` to the fixed-point center `(cx, cy)`. A non-positive radius holds
/// no tile.
pub open spec fn in_disk(cx: int, cy: int, r: int, x: int, y: int) -> bool {
    r > 0 && dist_sq(x * SUB as int, y * SUB as int, cx, cy) < r * r
}

/// First tile coordinate of the bounding box of a disk along one axis.
pub open spec fn box_lo(c: int, r: int) -> int {
    if c - r <= 0 {
        0
    } else {
        (c - r) / SUB as int
    }
}

/// One past the last tile coordinate of the bounding box along one axis,
/// clipped to `n` tiles.
pub open spec fn box_hi(c: int, r: int, n: int) -> int {
    if c + r < 0 {
        0
    } else if (c + r) / SUB as int + 1 < n {
        (c + r) / SUB as int + 1
    } else {
        n
    }
}

/// Along each axis a tile of the disk lies inside the disk's bounding box.
proof fn lemma_disk_axis(c: int, r: int, x: int, other: int, n: int)
    requires
        r > 0,
        0 <= x < n,
        0 <= other,
        (x * SUB as int - c) * (x * SUB as int - c) + other < r * r,
    ensures
        box_lo(c, r) <= x < box_hi(c, r, n),
{
    let d = x * SUB as int - c;
    assert(d < r) by (nonlinear_arith)
        requires
            r > 0,
            d * d < r * r,
    ;
    assert(-r < d) by (nonlinear_arith)
        requires
            r > 0,
            d * d < r * r,
    ;
    assert(x * SUB as int >= 0) by (nonlinear_arith)
        requires
            x >= 0,
    ;
    if c - r > 0 {
        let q = (c - r) / SUB as int;
        lemma_fundamental_div_mod(c - r, SUB as int);
        assert(q <= x) by (nonlinear_arith)
            requires
                q * 256 <= c - r,
                c - r < x * 256,
        ;
    }
    let q2 = (c + r) / SUB as int;
    lemma_fundamental_div_mod(c + r, SUB as int);
    assert(x < q2 + 1) by (nonlinear_arith)
        requires
            x * 256 < c + r,
            c + r < q2 * 256 + 256,
    ;
}

/// Squares of values within `2^32` stay within `2^64`.
proof fn lemma_square_bound(d: int)
    requires
        -0x1_0000_0000 <= d <= 0x1_0000_0000,
    ensures
        0 <= d * d <= 0x1_0000_0000_0000_0000,
{
    assert(0 <= d * d <= 0x1_0000_0000_0000_0000) by (nonlinear_arith)
        requires
            -0x1_0000_0000 <= d <= 0x1_0000_0000,
    ;
}

/// Column and row of an index built from them.
proof fn lemma_col_row(h: int, x: int, y: int)
    requires
        0 <= y < h,
    ensures
        (x * h + y) / h == x,
        (x * h + y) % h == y,
{
    lemma_fundamental_div_mod_converse(x * h + y, h, x, y);
}

/// Indices below `x * h` lie in columns before `x`; those at or above it in
/// column `x` or later.
proof fn lemma_col_bounds(h: int, i: int, x: int)
    requires
        h > 0,
        0 <= i,
    ensures
        i < x * h ==> i / h < x,
        i >= x * h ==> i / h >= x,
        0 <= i % h < h,
{
    lemma_fundamental_div_mod(i, h);
    let q = i / h;
    let m = i % h;
    if i < x * h {
        assert(q < x) by (nonlinear_arith)
            requires
                i == h * q + m,
                0 <= m,
                i < x * h,
                h > 0,
        ;
    }
    if i >= x * h {
        assert(q >= x) by (nonlinear_arith)
            requires
                i == h * q + m,
                m < h,
                i >= x * h,
                h > 0,
        ;
    }
}

impl GridWorld {
    /// Tile `i` lies in the disk of fixed-point center `(cx, cy)` and radius `r`.
    pub open spec fn tile_in_disk(&self, cx: int, cy: int, r: int, i: int) -> bool {
        in_disk(cx, cy, r, self.col(i), self.row(i))
    }

    /// A tile of the disk lies in its clipped bounding box.
    proof fn lemma_tile_in_box(&self, cx: int, cy: int, r: int, i: int)
        requires
            self.wf(),
            0 <= i < self.tiles.len(),
            self.tile_in_disk(cx, cy, r, i),
        ensures
            box_lo(cx, r) <= self.col(i) < box_hi(cx, r, self.width as int),
            box_lo(cy, r) <= self.row(i) < box_hi(cy, r, self.height as int),
    {
        let h = self.height as int;
        let w = self.width as int;
        assert(h > 0) by (nonlinear_arith)
            requires
                0 <= i < w * h,
                w >= 0,
        ;
        lemma_col_bounds(h, i, w);
        let x = self.col(i);
        let y = self.row(i);
        let dx = x * SUB as int - cx;
        let dy = y * SUB as int - cy;
        assert(dx * dx >= 0) by (nonlinear_arith);
        assert(dy * dy >= 0) by (nonlinear_arith);
        assert(x >= 0) by (nonlinear_arith)
            requires
                i >= 0,
                h > 0,
                x == i / h,
        ;
        lemma_disk_axis(cx, r, x, dy * dy, w);
        lemma_disk_axis(cy, r, y, dx * dx, h);
    }

    /// Indices of the tiles strictly closer than `radius` to the fixed-point
    /// point `(cx, cy)`, in scan order: by column, then by row, which is
    /// increasing index order. Each such tile appears exactly once; a
    /// non-positive radius gives none.
    pub fn disk_cells(&self, cx: i32, cy: i32, radius: i32) -> (cells: Vec<usize>)
        requires
            self.wf(),
        ensures
            forall|k: int| 0 <= k < cells.len() ==> #[trigger] cells@[k] < self.tiles.len(),
            forall|a: int, b: int| 0 <= a < b < cells.len() ==> cells@[a] < cells@[b],
            forall|i: int|
                0 <= i < self.tiles.len() ==> (cells@.contains(i as usize) <==> self.tile_in_disk(
                    cx as int,
                    cy as int,
                    radius as int,
                    i,
                )),
    {
        let mut cells: Vec<usize> = Vec::new();
        let h = self.height;
        if radius <= 0 || h == 0 {
            return cells;
        }
        let r = radius as i64;
        let lo_x: usize = if cx as i64 - r <= 0 { 0 } else { ((cx as i64 - r) / SUB) as usize };
        let lo_y: usize = if cy as i64 - r <= 0 { 0 } else { ((cy as i64 - r) / SUB) as usize };
        let hi_x: usize = if cx as i64 + r < 0 {
            0
        } else if ((cx as i64 + r) / SUB + 1) < self.width as i64 {
            ((cx as i64 + r) / SUB + 1) as usize
        } else {
            self.width
        };
        let hi_y: usize = if cy as i64 + r < 0 {
            0
        } else if ((cy as i64 + r) / SUB + 1) < h as i64 {
            ((cy as i64 + r) / SUB + 1) as usize
        } else {
            h
        };
        assert(lo_x == box_lo(cx as int, r as int));
        assert(lo_y == box_lo(cy as int, r as int));
        assert(hi_x == box_hi(cx as int, r as int, self.width as int));
        assert(hi_y == box_hi(cy as int, r as int, h as int));
        if lo_x >= hi_x || lo_y >= hi_y {
            assert forall|i: int|
                0 <= i < self.tiles.len() implies !self.tile_in_disk(
                cx as int,
                cy as int,
                radius as int,
                i,
            ) by {
                if self.tile_in_disk(cx as int, cy as int, radius as int, i) {
                    self.lemma_tile_in_box(cx as int, cy as int, radius as int, i);
                }
            }
            return cells;
        }
        let mut x = lo_x;
        proof {
            assert forall|i: int|
                0 <= i < x * h && #[trigger] self.tile_in_disk(
                    cx as int,
                    cy as int,
                    radius as int,
                    i,
                ) implies cells@.contains(i as usize) by {
                lemma_col_bounds(h as int, i, x as int);
                assert(i < self.tiles.len()) by (nonlinear_arith)
                    requires
                        i < x * h,
                        x <= self.width,
                        self.tiles.len() == self.width * h,
                ;
                self.lemma_tile_in_box(cx as int, cy as int, radius as int, i);
            }
        }
        while x < hi_x
            invariant
                self.wf(),
                h == self.height,
                h > 0,
                radius > 0,
                lo_x <= x <= hi_x <= self.width,
                lo_y < hi_y <= h,
                lo_x == box_lo(cx as int, radius as int),
                lo_y == box_lo(cy as int, radius as int),
                hi_x == box_hi(cx as int, radius as int, self.width as int),
                hi_y == box_hi(cy as int, radius as int, h as int),
                forall|k: int|
                    0 <= k < cells.len() ==> #[trigger] cells@[k] < x * h && self.tile_in_disk(
                        cx as int,
                        cy as int,
                        radius as int,
                        cells@[k] as int,
                    ),
                forall|a: int, b: int| 0 <= a < b < cells.len() ==> cells@[a] < cells@[b],
                forall|i: int|
                    0 <= i < x * h && #[trigger] self.tile_in_disk(
                        cx as int,
                        cy as int,
                        radius as int,
                        i,
                    ) ==> cells@.contains(i as usize),
            decreases hi_x - x,
        {
            let mut y = lo_y;
            proof {
                assert forall|i: int|
                    0 <= i < x * h + y && #[trigger] self.tile_in_disk(
                        cx as int,
                        cy as int,
                        radius as int,
                        i,
                    ) implies cells@.contains(i as usize) by {
                    if i >= x * h {
                        lemma_col_bounds(h as int, i, x as int);
                        lemma_col_bounds(h as int, i, x as int + 1);
                        assert(i < (x + 1) * h) by (nonlinear_arith)
                            requires
                                i < x * h + y,
                                y < h,
                        ;
                        assert(i / h as int == x);
                        lemma_fundamental_div_mod(i, h as int);
                        assert(i % (h as int) == i - x * h) by (nonlinear_arith)
                            requires
                                i == (h as int) * (i / (h as int)) + i % (h as int),
                                i / (h as int) == x,
                        ;
                        assert(i < self.tiles.len()) by (nonlinear_arith)
                            requires
                                i < (x + 1) * h,
                                x < self.width,
                                self.tiles.len() == self.width * h,
                        ;
                        self.lemma_tile_in_box(cx as int, cy as int, radius as int, i);
                        assert(false);
                    }
                }
            }
            while y < hi_y
                invariant
                    self.wf(),
                    h == self.height,
                    h > 0,
                    radius > 0,
                    lo_x <= x < hi_x <= self.width,
                    lo_y <= y <= hi_y <= h,
                    hi_y == box_hi(cy as int, radius as int, h as int),
                    forall|k: int|
                        0 <= k < cells.len() ==> #[trigger] cells@[k] < x * h + y
                            && self.tile_in_disk(cx as int, cy as int, radius as int, cells@[k] as int),
                    forall|a: int, b: int| 0 <= a < b < cells.len() ==> cells@[a] < cells@[b],
                    forall|i: int|
                        0 <= i < x * h + y && #[trigger] self.tile_in_disk(
                            cx as int,
                            cy as int,
                            radius as int,
                            i,
                        ) ==> cells@.contains(i as usize),
                decreases hi_y - y,
            {
                proof {
                    crate::grid::lemma_index_in_bounds(
                        self.width as int,
                        h as int,
                        x as int,
                        y as int,
                    );
                    lemma_col_row(h as int, x as int, y as int);
                    assert(x * 256 <= MAX_SIDE * 256) by (nonlinear_arith)
                        requires
                            x <= MAX_SIDE,
                    ;
                    assert(y * 256 <= MAX_SIDE * 256) by (nonlinear_arith)
                        requires
                            y <= MAX_SIDE,
                    ;
                }
                let i = x * h + y;
                let dx: i128 = x as i128 * SUB as i128 - cx as i128;
                let dy: i128 = y as i128 * SUB as i128 - cy as i128;
                assert(-0x1_0000_0000 <= dx <= 0x1_0000_0000);
                assert(-0x1_0000_0000 <= dy <= 0x1_0000_0000);
                proof {
                    lemma_square_bound(dx as int);
                    lemma_square_bound(dy as int);
                    lemma_square_bound(radius as int);
                }
                let ghost before = cells@;
                if dx * dx + dy * dy < radius as i128 * radius as i128 {
                    assert(self.tile_in_disk(cx as int, cy as int, radius as int, i as int));
                    cells.push(i);
                    assert forall|j: int|
                        0 <= j < x * h + y + 1 && #[trigger] self.tile_in_disk(
                            cx as int,
                            cy as int,
                            radius as int,
                            j,
                        ) implies cells@.contains(j as usize) by {
                        if j < i {
                            assert(before.contains(j as usize));
                            let m = choose|m: int| 0 <= m < before.len() && before[m] == j as usize;
                            assert(cells@[m] == j as usize);
                        } else {
                            assert(cells@[before.len() as int] == i);
                        }
                    }
                } else {
                    assert(!self.tile_in_disk(cx as int, cy as int, radius as int, i as int));
                }
                y = y + 1;
            }
            proof {
                assert forall|i: int|
                    0 <= i < (x + 1) * h && #[trigger] self.tile_in_disk(
                        cx as int,
                        cy as int,
                        radius as int,
                        i,
                    ) implies cells@.contains(i as usize) by {
                    if i >= x * h + y {
                        lemma_col_bounds(h as int, i, x as int);
                        lemma_col_bounds(h as int, i, x as int + 1);
                        assert(i / h as int == x);
                        lemma_fundamental_div_mod(i, h as int);
                        assert(i % (h as int) == i - x * h) by (nonlinear_arith)
                            requires
                                i == (h as int) * (i / (h as int)) + i % (h as int),
                                i / (h as int) == x,
                        ;
                        assert(i < self.tiles.len()) by (nonlinear_arith)
                            requires
                                i < (x + 1) * h,
                                x < self.width,
                                self.tiles.len() == self.width * h,
                        ;
                        self.lemma_tile_in_box(cx as int, cy as int, radius as int, i);
                        assert(false);
                    }
                }
                assert((x + 1) * h == x * h + h) by (nonlinear_arith);
            }
            x = x + 1;
        }
        proof {
            assert forall|i: int|
                0 <= i < self.tiles.len() && #[trigger] self.tile_in_disk(
                    cx as int,
                    cy as int,
                    radius as int,
                    i,
                ) implies cells@.contains(i as usize) by {
                if i >= x * h {
                    lemma_col_bounds(h as int, i, x as int);
                    self.lemma_tile_in_box(cx as int, cy as int, radius as int, i);
                    assert(false);
                }
            }
            assert forall|k: int| 0 <= k < cells.len() implies #[trigger] cells@[k]
                < self.tiles.len() by {
                assert(x * h <= self.width * h) by (nonlinear_arith)
                    requires
                        x <= self.width,
                ;
            }
        }
        cells
    }

    /// Applies `edit` to every tile of the disk of fixed-point center
    /// `(cx, cy)` and radius `radius`, and returns the indices it visited in
    /// scan order. When `edit.mark_touched` holds, those indices are also
    /// appended to the pending-update queue.
    pub fn for_tile_in_radius(&mut self, cx: i32, cy: i32, radius: i32, edit: TileEdit) -> (visited:
        Vec<usize>)
        requires
            old(self).wf(),
        ensures
            final(self).wf(),
            final(self).width == old(self).width,
            final(self).height == old(self).height,
            final(self).tiles.len() == old(self).tiles.len(),
            forall|k: int| 0 <= k < visited.len() ==> #[trigger] visited@[k] < old(self).tiles.len(),
            forall|a: int, b: int| 0 <= a < b < visited.len() ==> visited@[a] < visited@[b],
            forall|i: int|
                0 <= i < old(self).tiles.len() ==> (visited@.contains(i as usize)
                    <==> old(self).tile_in_disk(cx as int, cy as int, radius as int, i)),
            forall|i: int|
                0 <= i < old(self).tiles.len() ==> #[trigger] final(self).tiles@[i] == if old(
                    self,
                ).tile_in_disk(cx as int, cy as int, radius as int, i) {
                    apply_edit(edit, old(self).tiles@[i])
                } else {
                    old(self).tiles@[i]
                },
            final(self).tiles_to_update@ == if edit.mark_touched {
                old(self).tiles_to_update@ + visited@
            } else {
                old(self).tiles_to_update@
            },
    {
        let visited = self.disk_cells(cx, cy, radius);
        let ghost orig = self.tiles@;
        let ghost q = self.tiles_to_update@;
        let n = visited.len();
        for k in 0..n
            invariant
                n == visited.len(),
                self.wf(),
                self.width == old(self).width,
                self.height == old(self).height,
                orig == old(self).tiles@,
                q == old(self).tiles_to_update@,
                self.tiles@.len() == orig.len(),
                forall|j: int| 0 <= j < visited.len() ==> #[trigger] visited@[j] < orig.len(),
                forall|a: int, b: int| 0 <= a < b < visited.len() ==> visited@[a] < visited@[b],
                self.tiles_to_update@ == if edit.mark_touched {
                    q + visited@.subrange(0, k as int)
                } else {
                    q
                },
                forall|i: int|
                    0 <= i < orig.len() ==> #[trigger] self.tiles@[i] == if visited@.subrange(
                        0,
                        k as int,
                    ).contains(i as usize) {
                        apply_edit(edit, orig[i])
                    } else {
                        orig[i]
                    },
        {
            let i = visited[k];
            let t = edit_tile(edit, self.tiles[i]);
            self.tiles.set(i, t);
            if edit.mark_touched {
                self.tiles_to_update.push(i);
            }
            proof {
                let done = visited@.subrange(0, k as int);
                let next = visited@.subrange(0, k + 1);
                assert(next == done.push(i));
                assert forall|j: int| 0 <= j < orig.len() implies #[trigger] self.tiles@[j] == if next.contains(
                    j as usize,
                ) {
                    apply_edit(edit, orig[j])
                } else {
                    orig[j]
                } by {
                    if j != i as int {
                        if next.contains(j as usize) {
                            let m = choose|m: int| 0 <= m < next.len() && next[m] == j as usize;
                            assert(done[m] == j as usize);
                        }
                    } else {
                        assert(next[k as int] == i);
                        if done.contains(i) {
                            let m = choose|m: int| 0 <= m < done.len() && done[m] == i;
                            assert(visited@[m] < visited@[k as int]);
                        }
                    }
                }
                if edit.mark_touched {
                    assert(q + next == (q + done).push(i));
                }
            }
        }
        proof {
            assert(visited@.subrange(0, n as int) == visited@);
        }
        visited
    }
}

/// A uniform change applied to every tile of a disk.
#[derive(Clone, Copy, Debug)]
pub struct TileEdit {
    /// Added to the height, saturating at 0 and 255.
    pub height_change: i16,
    /// Material the tile becomes, if any.
    pub material: Option<TileMaterial>,
    pub set_kill_flag: bool,
    pub set_kill_ants_only: bool,
    /// Queue the visited tiles for the end-of-tick sweep.
    pub mark_touched: bool,
}

/// `h + delta`, saturating at 0 and 255.
pub open spec fn saturate_height(h: int, delta: int) -> u8 {
    if h + delta < 0 {
        0
    } else if h + delta > 255 {
        255
    } else {
        (h + delta) as u8
    }
}

/// The tile `t` after `edit`.
pub open spec fn apply_edit(edit: TileEdit, t: Tile) -> Tile {
    Tile {
        height: saturate_height(t.height as int, edit.height_change as int),
        material: match edit.material {
            Some(m) => m,
            None => t.material,
        },
        kill_flag: t.kill_flag || edit.set_kill_flag,
        kill_ants_only: t.kill_ants_only || edit.set_kill_ants_only,
        ..t
    }
}

/// Adds `delta` to a height, saturating at 0 and 255.
pub fn add_height(h: u8, delta: i16) -> (r: u8)
    ensures
        r == saturate_height(h as int, delta as int),
{
    let v = h as i32 + delta as i32;
    if v < 0 {
        0
    } else if v > 255 {
        255
    } else {
        v as u8
    }
}

fn edit_tile(edit: TileEdit, t: Tile) -> (r: Tile)
    ensures
        r == apply_edit(edit, t),
{
    let mut r = t;
    r.height = add_height(t.height, edit.height_change);
    match edit.material {
        Some(m) => {
            r.material = m;
        },
        None => {},
    }
    r.kill_flag = t.kill_flag || edit.set_kill_flag;
    r.kill_ants_only = t.kill_ants_only || edit.set_kill_ants_only;
    r
}

} // verus!
