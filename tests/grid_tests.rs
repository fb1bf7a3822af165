use anthill::disk::{add_height, TileEdit};
use anthill::geometry::{isqrt, ISQRT_LIMIT, SUB};
use anthill::grid::GridWorld;
use anthill::rolls::Rolls;
use anthill::tile::{Tile, TileMaterial};

fn sub(tiles: i32) -> i32 {
    tiles * SUB as i32
}

#[test]
fn isqrt_exact_values() {
    assert_eq!(isqrt(0), 0);
    assert_eq!(isqrt(1), 1);
    assert_eq!(isqrt(15), 3);
    assert_eq!(isqrt(16), 4);
    assert_eq!(isqrt(17), 4);
    assert_eq!(isqrt(776), 27);
    assert_eq!(isqrt(ISQRT_LIMIT - 1), (1u64 << 50) - 1);
}

#[test]
fn new_grid_is_blank() {
    let g = GridWorld::new(4, 3);
    assert_eq!(g.width, 4);
    assert_eq!(g.height, 3);
    assert_eq!(g.tiles.len(), 12);
    assert!(g.tiles_to_update.is_empty());
    for t in &g.tiles {
        assert_eq!(t.height, 128);
        assert_eq!(t.material, TileMaterial::Earth);
        assert_eq!(t.pheremone_level, 0);
        assert!(!t.kill_flag && !t.kill_ants_only);
        assert_eq!(t.times_changed, 0);
    }
}

#[test]
fn get_tile_truncates_and_rejects_outside_points() {
    let mut g = GridWorld::new(4, 3);
    {
        let t = g.get_tile(sub(2) + 255, sub(1) + 10).unwrap();
        t.material = TileMaterial::Nacho;
    }
    assert_eq!(g.tiles[2 * 3 + 1].material, TileMaterial::Nacho);
    assert!(g.get_tile(-1, 0).is_none());
    assert!(g.get_tile(0, -1).is_none());
    assert!(g.get_tile(sub(4), 0).is_none());
    assert!(g.get_tile(0, sub(3)).is_none());
    assert!(g.get_tile(sub(4) - 1, sub(3) - 1).is_some());
    assert_eq!(g.tile_index_at(sub(3), sub(2)), Some(3 * 3 + 2));
    assert_eq!(g.tile_index_at(sub(3), sub(3)), None);
}

#[test]
fn disk_holds_exactly_the_close_tiles() {
    let g = GridWorld::new(12, 12);
    let cells = g.disk_cells(sub(5), sub(5), sub(2));
    let mut expected = Vec::new();
    for x in 0..12usize {
        for y in 0..12usize {
            let dx = x as i64 - 5;
            let dy = y as i64 - 5;
            if dx * dx + dy * dy < 4 {
                expected.push(x * 12 + y);
            }
        }
    }
    assert_eq!(expected.len(), 9);
    assert_eq!(cells, expected);
}

#[test]
fn disk_with_non_positive_radius_is_empty() {
    let g = GridWorld::new(6, 6);
    assert!(g.disk_cells(sub(3), sub(3), 0).is_empty());
    assert!(g.disk_cells(sub(3), sub(3), -500).is_empty());
}

#[test]
fn disk_is_clipped_at_the_grid_edges() {
    let g = GridWorld::new(5, 5);
    let cells = g.disk_cells(0, 0, sub(2));
    // (0,0) (0,1) (1,0) (1,1): the corners closer than two tiles.
    assert_eq!(cells, vec![0, 1, 5, 6]);
    let far = g.disk_cells(sub(40), sub(40), sub(3));
    assert!(far.is_empty());
    let off = g.disk_cells(-sub(1), sub(2), sub(1) + 1);
    assert_eq!(off, vec![2]);
}

#[test]
fn disk_off_the_top_does_not_wrap_into_the_next_column() {
    let g = GridWorld::new(4, 4);
    let cells = g.disk_cells(sub(1), sub(4), sub(2));
    for &i in &cells {
        let y = i % 4;
        assert!(y >= 3, "tile {} lies too far from the top edge", i);
    }
    assert_eq!(cells, vec![3, 7, 11]);
}

#[test]
fn radius_edit_applies_and_queues() {
    let mut g = GridWorld::new(8, 8);
    let edit = TileEdit {
        height_change: -200,
        material: Some(TileMaterial::Grass),
        set_kill_flag: true,
        set_kill_ants_only: false,
        mark_touched: true,
    };
    let visited = g.for_tile_in_radius(sub(4), sub(4), sub(1) + 1, edit);
    assert_eq!(visited, vec![3 * 8 + 4, 4 * 8 + 3, 4 * 8 + 4, 4 * 8 + 5, 5 * 8 + 4]);
    assert_eq!(g.tiles_to_update, visited);
    for i in 0..64 {
        let t = g.tiles[i];
        if visited.contains(&i) {
            assert_eq!(t.height, 0);
            assert_eq!(t.material, TileMaterial::Grass);
            assert!(t.kill_flag);
        } else {
            assert_eq!(t.height, 128);
            assert_eq!(t.material, TileMaterial::Earth);
            assert!(!t.kill_flag);
        }
    }
}

#[test]
fn radius_edit_without_marking_leaves_queue_alone() {
    let mut g = GridWorld::new(8, 8);
    let edit = TileEdit {
        height_change: 500,
        material: None,
        set_kill_flag: false,
        set_kill_ants_only: true,
        mark_touched: false,
    };
    let visited = g.for_tile_in_radius(sub(4), sub(4), sub(1), edit);
    assert_eq!(visited, vec![4 * 8 + 4]);
    assert!(g.tiles_to_update.is_empty());
    assert_eq!(g.tiles[36].height, 255);
    assert!(g.tiles[36].kill_ants_only);
}

#[test]
fn sweep_clears_queued_tiles_only_and_tolerates_duplicates() {
    let mut g = GridWorld::new(8, 8);
    let edit = TileEdit {
        height_change: 0,
        material: None,
        set_kill_flag: true,
        set_kill_ants_only: true,
        mark_touched: true,
    };
    let a = g.for_tile_in_radius(sub(3), sub(3), sub(2), edit);
    let b = g.for_tile_in_radius(sub(4), sub(3), sub(2), edit);
    assert!(a.iter().any(|i| b.contains(i)));
    assert_eq!(g.tiles_to_update.len(), a.len() + b.len());
    // A flag set outside the queue survives the sweep.
    g.get_tile(sub(7), sub(7)).unwrap().kill_flag = true;
    let queued = g.tiles_to_update.clone();
    let drained = g.update_tiles();
    assert_eq!(drained, queued);
    assert!(g.tiles_to_update.is_empty());
    for i in 0..64 {
        if i == 7 * 8 + 7 {
            assert!(g.tiles[i].kill_flag);
        } else {
            assert!(!g.tiles[i].kill_flag);
            assert!(!g.tiles[i].kill_ants_only);
        }
    }
    assert!(g.update_tiles().is_empty());
    assert!(g.tiles[63].kill_flag);
}

#[test]
fn neutral_reset_zeroes_levels_and_counters() {
    let mut g = GridWorld::new(3, 3);
    for t in g.tiles.iter_mut() {
        t.pheremone_level = 77;
        t.times_changed = 5;
        t.height = 9;
    }
    g.neutral_pheremones();
    for t in &g.tiles {
        assert_eq!(t.pheremone_level, 0);
        assert_eq!(t.times_changed, 0);
        assert_eq!(t.height, 9);
    }
}

#[test]
fn region_biased_reset_walls_off_low_rows() {
    let mut g = GridWorld::new(2, 100);
    for t in g.tiles.iter_mut() {
        t.pheremone_level = 3;
        t.times_changed = 8;
    }
    g.reverse_deterent_pheromones();
    for i in 0..200 {
        let y = i % 100;
        let t = g.tiles[i];
        if y < 40 {
            assert_eq!(t.pheremone_level, i16::MAX);
        } else {
            assert_eq!(t.pheremone_level, 3);
        }
        assert_eq!(t.times_changed, 0);
    }
    let mut small = GridWorld::new(2, 30);
    small.reverse_deterent_pheromones();
    assert!(small.tiles.iter().all(|t| t.pheremone_level == 0));
}

#[test]
fn gradient_reset_values() {
    let mut g = GridWorld::new(10, 20);
    let mut rolls = Rolls::new(vec![7, 10013, 3]);
    g.reset_pheromones(&mut rolls);
    // Tile (0, 0): no row term, jitter 7, distance to (5, 13) is 13.9 tiles.
    assert_eq!(g.tiles[0].pheremone_level, 1000 + 7 + 26);
    // Tile (0, 1): row term 10, jitter 13, distance 13.0 tiles.
    assert_eq!(g.tiles[1].pheremone_level, 1000 + 10 + 13 + 26);
    // Tile (0, 2): row term 20, jitter 3, distance 12.08 tiles.
    assert_eq!(g.tiles[2].pheremone_level, 1000 + 20 + 3 + 24);
    // Tile (5, 13): the home point itself.
    let i = 5 * 20 + 13;
    let j = (i % 3) as usize;
    let jitter = [7, 13, 3][j];
    assert_eq!(g.tiles[i].pheremone_level, 1000 + 130 + jitter);
    for x in 0..10 {
        for y in 17..20 {
            assert_eq!(g.tiles[x * 20 + y].pheremone_level, i16::MAX);
        }
        assert_ne!(g.tiles[x * 20 + 16].pheremone_level, i16::MAX);
    }
    assert_eq!(rolls.next, 200 % 3);
}

#[test]
fn gradient_reset_is_reproducible_with_the_same_draws() {
    let draws: Vec<u16> = (0..57u16).map(|k| k * 173 % 10000).collect();
    let mut a = GridWorld::new(9, 31);
    let mut b = GridWorld::new(9, 31);
    b.tiles[4].pheremone_level = -5;
    let mut ra = Rolls::new(draws.clone());
    let mut rb = Rolls::new(draws);
    a.reset_pheromones(&mut ra);
    b.reset_pheromones(&mut rb);
    for i in 0..a.tiles.len() {
        assert_eq!(a.tiles[i].pheremone_level, b.tiles[i].pheremone_level);
    }
    for x in 0..9 {
        for y in 28..31 {
            assert_eq!(a.tiles[x * 31 + y].pheremone_level, i16::MAX);
        }
    }
}

#[test]
fn gradient_reset_saturates_far_from_home() {
    let mut g = GridWorld::new(1, 40000);
    let mut rolls = Rolls::new(vec![19]);
    g.reset_pheromones(&mut rolls);
    assert_eq!(g.tiles[39000].pheremone_level, i16::MAX);
    assert_eq!(g.tiles[13].pheremone_level, 1000 + 0 + 19 + 0);
}

#[test]
fn terrain_from_noise_samples() {
    let mut g = GridWorld::new(2, 4);
    let heights: Vec<u16> = vec![0, 10000, 5000, 65535, 1, 67, 9999, 20];
    let materials: Vec<u16> = vec![8001, 8000, 0, 10000, 65535, 7999, 8500, 1];
    let mut rolls = Rolls::new(vec![]);
    g.tiles[3].times_changed = 40;
    g.initial_terrain_setup(&heights, &materials, &mut rolls);
    let expect_h = [105u8, 255, 180, 255, 105, 106, 254, 105];
    let expect_grass = [true, false, false, true, true, false, true, false];
    for i in 0..8 {
        assert_eq!(g.tiles[i].height, expect_h[i], "height of tile {}", i);
        let m = if expect_grass[i] { TileMaterial::Grass } else { TileMaterial::Earth };
        assert_eq!(g.tiles[i].material, m, "material of tile {}", i);
        assert_eq!(g.tiles[i].times_changed, 0);
    }
    // The gradient reset ran: the top three rows of a four-row grid are walls.
    assert_eq!(g.tiles[3].pheremone_level, i16::MAX);
    assert_eq!(g.tiles[1].pheremone_level, i16::MAX);
    assert_ne!(g.tiles[0].pheremone_level, i16::MAX);
}

#[test]
fn texture_listing_runs_top_row_first() {
    let mut g = GridWorld::new(2, 3);
    for i in 0..6 {
        g.tiles[i].height = i as u8 * 10;
    }
    g.tiles[2].material = TileMaterial::Nacho;
    let cells = g.update_texture();
    let heights: Vec<u8> = cells.iter().map(|c| c.1).collect();
    // Row r, column x shows tile (x, 2 - r), index x * 3 + 2 - r.
    assert_eq!(heights, vec![20, 50, 10, 40, 0, 30]);
    assert_eq!(cells[0].0, TileMaterial::Nacho);
    assert_eq!(cells[1].0, TileMaterial::Earth);
}

#[test]
fn heights_saturate() {
    assert_eq!(add_height(250, 10), 255);
    assert_eq!(add_height(3, -10), 0);
    assert_eq!(add_height(100, -1), 99);
    assert_eq!(add_height(0, i16::MIN), 0);
    assert_eq!(add_height(255, i16::MAX), 255);
}

#[test]
fn rolls_cycle_and_reduce() {
    let mut r = Rolls::new(vec![5, 12345, 9999]);
    assert_eq!(r.draw(), 5);
    assert_eq!(r.draw(), 2345);
    assert_eq!(r.draw(), 9999);
    assert_eq!(r.draw(), 5);
    let mut empty = Rolls::new(vec![]);
    assert_eq!(empty.draw(), 0);
    assert_eq!(empty.draw(), 0);
}

#[test]
fn blank_tiles_compare_equal() {
    let g = GridWorld::new(2, 2);
    let t = Tile {
        height: 128,
        material: TileMaterial::Earth,
        pheremone_level: 0,
        kill_flag: false,
        kill_ants_only: false,
        times_changed: 0,
    };
    assert!(g.tiles.iter().all(|x| *x == t));
    assert!(TileMaterial::Nacho.is_harvestable());
    assert!(TileMaterial::AntBody.is_harvestable());
    assert!(!TileMaterial::AntGuts.is_harvestable());
    assert!(!TileMaterial::Grass.is_harvestable());
}
