//! Bulk reset strategies of the pheromone field.

use vstd::prelude::*;
use crate::geometry::{isqrt, floor_sqrt, lemma_isqrt_unique};
use crate::grid::GridWorld;
use crate::tile::Tile;
use crate::rolls::{Rolls, nth_draw, cursor_after, lemma_cursor_step};

verus! {

/// Level every tile starts from in a gradient reset.
pub const BASE_LEVEL: i64 = 1000;

/// Weight of the normalised row position in a gradient reset.
pub const ROW_WEIGHT: i64 = 200;

/// Jitter of a gradient reset lies in `0..JITTER_RANGE`.
pub const JITTER_RANGE: u16 = 20;

/// Row of the point the gradient measures distance from.
pub const HOME_ROW: i64 = 13;

/// Number of top rows that a gradient reset turns into an attractor wall.
pub const TOP_MARGIN: usize = 3;

/// Rows at least this far below the top get the wall in a region-biased reset.
pub const BIAS_CUTOFF: usize = 60;

/// Twice the whole-tile distance from tile `(x, y)` to the home point, which
/// sits at the middle of the bottom edge, `HOME_ROW` rows up.
pub open spec fn home_distance_term(width: int, x: int, y: int) -> int {
    2 * (floor_sqrt((2 * x - width) * (2 * x - width) + (2 * y - 2 * HOME_ROW) * (2 * y - 2
        * HOME_ROW)) / 2)
}

/// Pheromone level that a gradient reset gives tile `(x, y)` with jitter `j`.
pub open spec fn gradient_level(width: int, height: int, x: int, y: int, j: int) -> i16 {
    if y + TOP_MARGIN as int >= height {
        i16::MAX
    } else {
        let v = BASE_LEVEL + y * ROW_WEIGHT / height + j + home_distance_term(width, x, y);
        if v > i16::MAX as int {
            i16::MAX
        } else {
            v as i16
        }
    }
}

/// `after` is `before` after a gradient reset drawing from `r`.
pub open spec fn is_gradient_reset(before: GridWorld, after: GridWorld, r: Rolls) -> bool {
    &&& after.width == before.width
    &&& after.height == before.height
    &&& after.tiles_to_update == before.tiles_to_update
    &&& after.tiles.len() == before.tiles.len()
    &&& forall|i: int|
        0 <= i < after.tiles.len() ==> #[trigger] after.tiles@[i] == (Tile {
            pheremone_level: gradient_level(
                before.width as int,
                before.height as int,
                before.col(i),
                before.row(i),
                nth_draw(r, i) % JITTER_RANGE as int,
            ),
            times_changed: 0,
            ..before.tiles@[i]
        })
}

impl GridWorld {
    /// Zeroes every pheromone level and every change counter.
    pub fn neutral_pheremones(&mut self)
        requires
            old(self).wf(),
        ensures
            final(self).wf(),
            final(self).width == old(self).width,
            final(self).height == old(self).height,
            final(self).tiles_to_update == old(self).tiles_to_update,
            final(self).tiles.len() == old(self).tiles.len(),
            forall|i: int|
                0 <= i < final(self).tiles.len() ==> #[trigger] final(self).tiles@[i] == (Tile {
                    pheremone_level: 0,
                    times_changed: 0,
                    ..old(self).tiles@[i]
                }),
    {
        let n = self.tiles.len();
        for i in 0..n
            invariant
                n == self.tiles.len(),
                self.wf(),
                self.width == old(self).width,
                self.height == old(self).height,
                self.tiles_to_update == old(self).tiles_to_update,
                self.tiles.len() == old(self).tiles.len(),
                forall|j: int|
                    0 <= j < n ==> #[trigger] self.tiles@[j] == if j < i {
                        Tile { pheremone_level: 0, times_changed: 0, ..old(self).tiles@[j] }
                    } else {
                        old(self).tiles@[j]
                    },
        {
            let mut t = self.tiles[i];
            t.pheremone_level = 0;
            t.times_changed = 0;
            self.tiles.set(i, t);
        }
    }

    /// Raises every row more than `BIAS_CUTOFF` rows below the top to the
    /// maximum level, and zeroes every change counter.
    pub fn reverse_deterent_pheromones(&mut self)
        requires
            old(self).wf(),
        ensures
            final(self).wf(),
            final(self).width == old(self).width,
            final(self).height == old(self).height,
            final(self).tiles_to_update == old(self).tiles_to_update,
            final(self).tiles.len() == old(self).tiles.len(),
            forall|i: int|
                0 <= i < final(self).tiles.len() ==> #[trigger] final(self).tiles@[i] == (Tile {
                    pheremone_level: if old(self).row(i) + BIAS_CUTOFF < old(self).height {
                        i16::MAX
                    } else {
                        old(self).tiles@[i].pheremone_level
                    },
                    times_changed: 0,
                    ..old(self).tiles@[i]
                }),
    {
        let n = self.tiles.len();
        let h = self.height;
        for i in 0..n
            invariant
                n == self.tiles.len(),
                h == self.height,
                self.wf(),
                self.width == old(self).width,
                self.height == old(self).height,
                self.tiles_to_update == old(self).tiles_to_update,
                self.tiles.len() == old(self).tiles.len(),
                forall|j: int|
                    0 <= j < n ==> #[trigger] self.tiles@[j] == if j < i {
                        Tile {
                            pheremone_level: if old(self).row(j) + BIAS_CUTOFF < h {
                                i16::MAX
                            } else {
                                old(self).tiles@[j].pheremone_level
                            },
                            times_changed: 0,
                            ..old(self).tiles@[j]
                        }
                    } else {
                        old(self).tiles@[j]
                    },
        {
            assert(h > 0) by (nonlinear_arith)
                requires
                    i < self.width * h,
            ;
            let y = i % h;
            let mut t = self.tiles[i];
            if y < h && h - y > BIAS_CUTOFF {
                t.pheremone_level = i16::MAX;
            }
            t.times_changed = 0;
            self.tiles.set(i, t);
        }
    }

    /// Gradient reset: each tile gets `BASE_LEVEL`, plus its row scaled to
    /// `0..ROW_WEIGHT`, plus a jitter in `0..JITTER_RANGE` (the next draw of
    /// `rolls`, one per tile in index order), plus twice its whole-tile
    /// distance from the home point, saturating at the maximum level. The
    /// last `TOP_MARGIN` rows get the maximum level. Change counters are
    /// zeroed.
    pub fn reset_pheromones(&mut self, rolls: &mut Rolls)
        requires
            old(self).wf(),
            old(rolls).wf(),
        ensures
            final(self).wf(),
            final(rolls).wf(),
            final(rolls).values@ == old(rolls).values@,
            final(rolls).next == cursor_after(*old(rolls), old(self).tiles.len() as int),
            is_gradient_reset(*old(self), *final(self), *old(rolls)),
    {
        let n = self.tiles.len();
        let h = self.height;
        let w = self.width;
        let ghost r0 = *rolls;
        proof {
            if r0.values.len() > 0 {
                vstd::arithmetic::div_mod::lemma_small_mod(
                    r0.next as nat,
                    r0.values.len() as nat,
                );
            }
        }
        for i in 0..n
            invariant
                n == self.tiles.len(),
                h == self.height,
                w == self.width,
                self.wf(),
                rolls.wf(),
                r0 == *old(rolls),
                r0.wf(),
                rolls.values@ == r0.values@,
                rolls.next == cursor_after(r0, i as int),
                self.width == old(self).width,
                self.height == old(self).height,
                self.tiles_to_update == old(self).tiles_to_update,
                self.tiles.len() == old(self).tiles.len(),
                forall|j: int|
                    0 <= j < n ==> #[trigger] self.tiles@[j] == if j < i {
                        Tile {
                            pheremone_level: gradient_level(
                                w as int,
                                h as int,
                                old(self).col(j),
                                old(self).row(j),
                                nth_draw(r0, j) % JITTER_RANGE as int,
                            ),
                            times_changed: 0,
                            ..old(self).tiles@[j]
                        }
                    } else {
                        old(self).tiles@[j]
                    },
        {
            assert(h > 0) by (nonlinear_arith)
                requires
                    i < w * h,
            ;
            proof {
                lemma_cursor_step(r0, i as int);
            }
            let x = i / h;
            let y = i % h;
            assert(x < w) by (nonlinear_arith)
                requires
                    i < w * h,
                    x == i / h,
                    h > 0,
            ;
            let j = rolls.draw() % JITTER_RANGE;
            let mut t = self.tiles[i];
            if y + TOP_MARGIN >= h {
                t.pheremone_level = i16::MAX;
            } else {
                let dx: i128 = 2 * x as i128 - w as i128;
                let dy: i128 = 2 * y as i128 - 2 * HOME_ROW as i128;
                assert(dx * dx <= 0x40_0000_0000_0000) by (nonlinear_arith)
                    requires
                        -0x80_0000 <= dx <= 0x80_0000,
                ;
                assert(dy * dy <= 0x40_0000_0000_0000) by (nonlinear_arith)
                    requires
                        -0x80_0000 <= dy <= 0x80_0000,
                ;
                assert(dx * dx >= 0 && dy * dy >= 0) by (nonlinear_arith);
                let root = isqrt((dx * dx + dy * dy) as u128);
                proof {
                    lemma_isqrt_unique(dx * dx + dy * dy, root as int);
                }
                assert(root <= 0x1000_0000) by {
                    if root > 0x1000_0000 {
                        assert(root * root > 0x1000_0000 * 0x1000_0000) by (nonlinear_arith)
                            requires
                                root > 0x1000_0000,
                        ;
                    }
                }
                let dist = (root / 2) as i64;
                let row_term = (y as i64 * ROW_WEIGHT) / h as i64;
                let v = BASE_LEVEL + row_term + j as i64 + 2 * dist;
                t.pheremone_level = if v > i16::MAX as i64 { i16::MAX } else { v as i16 };
            }
            t.times_changed = 0;
            self.tiles.set(i, t);
        }
    }
}

} // verus!
