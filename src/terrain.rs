//! Terrain painting from coherent-noise samples, and the per-tile listing a
//! renderer bakes into a texture.

use vstd::prelude::*;
use crate::grid::{GridWorld, tile_index, lemma_index_in_bounds};
use crate::pheromone::{gradient_level, JITTER_RANGE};
use crate::rolls::{Rolls, nth_draw, cursor_after};
use crate::tile::{Tile, TileMaterial};

verus! {

/// A noise sample of `NOISE_ONE` stands for the value 1.0; samples are
/// normalised noise in `[0, 1]` written in these units.
pub const NOISE_ONE: u32 = 10000;

/// Lowest terrain height.
pub const TERRAIN_FLOOR: u32 = 105;

/// Height span that a full noise sample adds to the floor.
pub const TERRAIN_BAND: u32 = 150;

/// Material samples above this become grass.
pub const GRASS_THRESHOLD: u16 = 8000;

/// Height painted for a height-noise sample, saturating at 255.
pub open spec fn terrain_height(s: int) -> u8 {
    let v = TERRAIN_FLOOR as int + s * TERRAIN_BAND as int / NOISE_ONE as int;
    if v > 255 {
        255
    } else {
        v as u8
    }
}

/// Material painted for a material-noise sample.
pub open spec fn terrain_material(s: int) -> TileMaterial {
    if s > GRASS_THRESHOLD as int {
        TileMaterial::Grass
    } else {
        TileMaterial::Earth
    }
}

impl GridWorld {
    /// Paints every tile from its noise samples (one of each kind per tile,
    /// in index order), zeroes the change counters, then runs a gradient
    /// pheromone reset drawing from `rolls`.
    pub fn initial_terrain_setup(
        &mut self,
        height_noise: &Vec<u16>,
        material_noise: &Vec<u16>,
        rolls: &mut Rolls,
    )
        requires
            old(self).wf(),
            old(rolls).wf(),
            height_noise.len() == old(self).tiles.len(),
            material_noise.len() == old(self).tiles.len(),
        ensures
            final(self).wf(),
            final(rolls).wf(),
            final(rolls).values@ == old(rolls).values@,
            final(rolls).next == cursor_after(*old(rolls), old(self).tiles.len() as int),
            final(self).width == old(self).width,
            final(self).height == old(self).height,
            final(self).tiles_to_update == old(self).tiles_to_update,
            final(self).tiles.len() == old(self).tiles.len(),
            forall|i: int|
                0 <= i < final(self).tiles.len() ==> #[trigger] final(self).tiles@[i] == (Tile {
                    height: terrain_height(height_noise@[i] as int),
                    material: terrain_material(material_noise@[i] as int),
                    pheremone_level: gradient_level(
                        old(self).width as int,
                        old(self).height as int,
                        old(self).col(i),
                        old(self).row(i),
                        nth_draw(*old(rolls), i) % JITTER_RANGE as int,
                    ),
                    times_changed: 0,
                    ..old(self).tiles@[i]
                }),
    {
        let n = self.tiles.len();
        for i in 0..n
            invariant
                n == self.tiles.len(),
                n == height_noise.len(),
                n == material_noise.len(),
                self.wf(),
                self.width == old(self).width,
                self.height == old(self).height,
                self.tiles_to_update == old(self).tiles_to_update,
                self.tiles.len() == old(self).tiles.len(),
                forall|j: int|
                    0 <= j < n ==> #[trigger] self.tiles@[j] == if j < i {
                        Tile {
                            height: terrain_height(height_noise@[j] as int),
                            material: terrain_material(material_noise@[j] as int),
                            times_changed: 0,
                            ..old(self).tiles@[j]
                        }
                    } else {
                        old(self).tiles@[j]
                    },
        {
            let mut t = self.tiles[i];
            t.material = if material_noise[i] > GRASS_THRESHOLD {
                TileMaterial::Grass
            } else {
                TileMaterial::Earth
            };
            let v = TERRAIN_FLOOR + height_noise[i] as u32 * TERRAIN_BAND / NOISE_ONE;
            t.height = if v > 255 { 255 } else { v as u8 };
            t.times_changed = 0;
            self.tiles.set(i, t);
        }
        self.reset_pheromones(rolls);
    }

    /// Lists `(material, height)` for every tile in display order: rows from
    /// the top of the grid down, each row from left to right. Entry
    /// `r * width + x` describes tile `(x, height - 1 - r)`.
    pub fn update_texture(&self) -> (cells: Vec<(TileMaterial, u8)>)
        requires
            self.wf(),
        ensures
            cells.len() == self.tiles.len(),
            forall|r: int, x: int|
                0 <= r < self.height && 0 <= x < self.width ==> #[trigger] cells@[r * self.width
                    + x] == ({
                    let t = self.tiles@[tile_index(self.height as int, x, self.height - 1 - r)];
                    (t.material, t.height)
                }),
    {
        let w = self.width;
        let h = self.height;
        let mut cells: Vec<(TileMaterial, u8)> = Vec::new();
        assert(0 * w == 0) by (nonlinear_arith);
        for r in 0..h
            invariant
                w == self.width,
                h == self.height,
                self.wf(),
                cells.len() == r * w,
                forall|rr: int, x: int|
                    0 <= rr < r && 0 <= x < w ==> #[trigger] cells@[rr * w + x] == ({
                        let t = self.tiles@[tile_index(h as int, x, h - 1 - rr)];
                        (t.material, t.height)
                    }),
        {
            assert((r + 1) * w <= h * w) by (nonlinear_arith)
                requires
                    r < h,
            ;
            for x in 0..w
                invariant
                    w == self.width,
                    h == self.height,
                    self.wf(),
                    r < h,
                    (r + 1) * w <= h * w,
                    cells.len() == r * w + x,
                    forall|rr: int, xx: int|
                        0 <= rr < r && 0 <= xx < w ==> #[trigger] cells@[rr * w + xx] == ({
                            let t = self.tiles@[tile_index(h as int, xx, h - 1 - rr)];
                            (t.material, t.height)
                        }),
                    forall|xx: int|
                        0 <= xx < x ==> #[trigger] cells@[r * w + xx] == ({
                            let t = self.tiles@[tile_index(h as int, xx, h - 1 - r)];
                            (t.material, t.height)
                        }),
            {
                proof {
                    lemma_index_in_bounds(w as int, h as int, x as int, (h - 1 - r) as int);
                }
                let t = self.tiles[x * h + (h - 1 - r)];
                let ghost before = cells@;
                cells.push((t.material, t.height));
                assert forall|rr: int, xx: int|
                    0 <= rr < r && 0 <= xx < w implies #[trigger] cells@[rr * w + xx] == ({
                        let t = self.tiles@[tile_index(h as int, xx, h - 1 - rr)];
                        (t.material, t.height)
                    }) by {
                    assert(rr * w + xx < r * w) by (nonlinear_arith)
                        requires
                            rr < r,
                            xx < w,
                    ;
                    assert(cells@[rr * w + xx] == before[rr * w + xx]);
                }
            }
            assert forall|rr: int, x: int|
                0 <= rr < r + 1 && 0 <= x < w implies #[trigger] cells@[rr * w + x] == ({
                    let t = self.tiles@[tile_index(h as int, x, h - 1 - rr)];
                    (t.material, t.height)
                }) by {
                if rr == r {
                    assert(cells@[r * w + x] == cells@[rr * w + x]);
                }
            }
            assert((r + 1) * w == r * w + w) by (nonlinear_arith);
        }
        assert(h * w == w * h) by (nonlinear_arith);
        cells
    }
}

} // verus!
