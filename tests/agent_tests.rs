use anthill::agent::{score_tile, Agent, AgentMode, COST_MAX};
use anthill::geometry::SUB;
use anthill::grid::GridWorld;
use anthill::lifecycle::{mark_death, run_tick, scatter_remains, tick_agent, visit_tile, DeathCause, Remains};
use anthill::navigation::{draw_vetoes, heading_towards, pick_lowest, slope_speed, NAV_RADIUS};
use anthill::rolls::Rolls;
use anthill::tile::TileMaterial;

fn sub(tiles: i32) -> i32 {
    tiles * SUB as i32
}

fn ant_at(x: i32, y: i32) -> Agent {
    Agent {
        x,
        y,
        dir_x: 0,
        dir_y: -(SUB as i32),
        speed: 25,
        mode: AgentMode::Foraging,
        health: 255,
        carrying: None,
        is_spider: false,
        home_x: 0,
        home_y: 0,
    }
}

#[test]
fn pickup_then_return() {
    let mut g = GridWorld::new(20, 20);
    let x = sub(6) + 128;
    let y = sub(9) + 128;
    g.get_tile(x, y).unwrap().material = TileMaterial::Nacho;
    let mut a = ant_at(x, y);
    let mut rolls = Rolls::new(vec![]);
    let o = tick_agent(&mut g, &mut a, &mut rolls, true);
    assert_eq!(o.killed, None);
    assert!(!o.delivered);
    assert_eq!(a.mode, AgentMode::Returning);
    assert_eq!(a.carrying, Some(TileMaterial::Nacho));
    assert_eq!(g.tiles[6 * 20 + 9].material, TileMaterial::Earth);
    // Presence of a foraging ant reinforced the trail.
    assert_eq!(g.tiles[6 * 20 + 9].pheremone_level, 1);
    assert_eq!(g.tiles[6 * 20 + 9].times_changed, 1);
}

#[test]
fn pickup_of_a_body() {
    let mut g = GridWorld::new(20, 20);
    let x = sub(3) + 10;
    let y = sub(3) + 10;
    g.get_tile(x, y).unwrap().material = TileMaterial::AntBody;
    let mut a = ant_at(x, y);
    let mut rolls = Rolls::new(vec![]);
    let t = visit_tile(g.tiles[3 * 20 + 3], &mut a, 20, &mut rolls);
    assert_eq!(a.mode, AgentMode::Returning);
    assert_eq!(a.carrying, Some(TileMaterial::AntBody));
    assert_eq!(t.material, TileMaterial::Earth);
}

#[test]
fn no_pickup_when_already_carrying() {
    let mut g = GridWorld::new(20, 20);
    let x = sub(3);
    let y = sub(3);
    g.get_tile(x, y).unwrap().material = TileMaterial::Nacho;
    let mut a = ant_at(x, y);
    a.carrying = Some(TileMaterial::AntBody);
    let mut rolls = Rolls::new(vec![]);
    let t = visit_tile(g.tiles[3 * 20 + 3], &mut a, 20, &mut rolls);
    assert_eq!(a.mode, AgentMode::Foraging);
    assert_eq!(a.carrying, Some(TileMaterial::AntBody));
    assert_eq!(t.material, TileMaterial::Nacho);
}

#[test]
fn returning_ant_drops_its_load_near_the_top() {
    let mut g = GridWorld::new(20, 200);
    let x = sub(5);
    let y = sub(190);
    let i = 5 * 200 + 190;
    let mut a = ant_at(x, y);
    a.mode = AgentMode::Returning;
    a.carrying = Some(TileMaterial::Nacho);
    g.tiles[i].height = 100;
    let mut rolls = Rolls::new(vec![9999]);
    let t = visit_tile(g.tiles[i], &mut a, 200, &mut rolls);
    assert_eq!(a.mode, AgentMode::Foraging);
    assert_eq!(a.carrying, None);
    assert_eq!(t.material, TileMaterial::Nacho);
    assert_eq!(t.pheremone_level, -1);
    assert_eq!(t.height, 99);
    // A low draw keeps the load.
    let mut b = ant_at(x, y);
    b.mode = AgentMode::Returning;
    b.carrying = Some(TileMaterial::Nacho);
    let mut low = Rolls::new(vec![9500]);
    let u = visit_tile(g.tiles[i], &mut b, 200, &mut low);
    assert_eq!(b.carrying, Some(TileMaterial::Nacho));
    assert_eq!(u.material, TileMaterial::Earth);
    // Below the band nothing is dropped.
    let mut c = ant_at(x, sub(150));
    c.mode = AgentMode::Returning;
    c.carrying = Some(TileMaterial::Nacho);
    let mut high = Rolls::new(vec![9999]);
    let v = visit_tile(g.tiles[5 * 200 + 150], &mut c, 200, &mut high);
    assert_eq!(c.carrying, Some(TileMaterial::Nacho));
    assert_eq!(v.material, TileMaterial::Earth);
}

#[test]
fn tall_tiles_erode_under_ants() {
    let mut g = GridWorld::new(10, 10);
    g.tiles[22].height = 200;
    let mut a = ant_at(sub(2), sub(2));
    let mut rolls = Rolls::new(vec![5001]);
    let t = visit_tile(g.tiles[22], &mut a, 10, &mut rolls);
    assert_eq!(t.height, 199);
    let mut rolls = Rolls::new(vec![5000]);
    let t = visit_tile(g.tiles[22], &mut a, 10, &mut rolls);
    assert_eq!(t.height, 200);
}

#[test]
fn navigation_tie_break_takes_first_in_scan_order() {
    let g = GridWorld::new(30, 30);
    let mut a = ant_at(sub(10) + 128, sub(10) + 128);
    a.dir_x = 0;
    a.dir_y = SUB as i32;
    let cells = g.disk_cells(a.x, a.y, NAV_RADIUS);
    let vetoed = vec![false; cells.len()];
    let k = pick_lowest(&g, &a, 128, &cells, &vetoed).unwrap();
    assert_eq!(cells[k], 7 * 30 + 11);
    assert_eq!(heading_towards(a.x, a.y, 7, 11), (-242, 80));
}

#[test]
fn navigation_tie_break_in_a_full_tick_is_reproducible() {
    let mut runs = Vec::new();
    for _ in 0..2 {
        let mut g = GridWorld::new(30, 30);
        let mut a = ant_at(sub(10) + 128, sub(10) + 128);
        a.dir_x = 0;
        a.dir_y = SUB as i32;
        let mut rolls = Rolls::new(vec![1234, 9876]);
        let o = tick_agent(&mut g, &mut a, &mut rolls, false);
        assert_eq!(o.killed, None);
        assert_eq!((a.dir_x, a.dir_y), (-242, 80));
        runs.push((a.x, a.y));
    }
    assert_eq!(runs[0], runs[1]);
    // speed 25, full health, flat ground: 25 * 242 / 256 = 23.6 sub-units.
    assert_eq!(runs[0], (sub(10) + 128 - 23, sub(10) + 128 + 7));
}

#[test]
fn tall_tiles_are_vetoed_by_high_draws() {
    let mut g = GridWorld::new(10, 10);
    for t in g.tiles.iter_mut() {
        t.height = 240;
    }
    let cells = g.disk_cells(sub(5), sub(5), NAV_RADIUS);
    let mut all = Rolls::new(vec![101]);
    let vetoed = draw_vetoes(&g, &cells, &mut all);
    assert!(vetoed.iter().all(|v| *v));
    let a = ant_at(sub(5), sub(5));
    assert_eq!(pick_lowest(&g, &a, 240, &cells, &vetoed), None);
    let mut none = Rolls::new(vec![100]);
    let vetoed = draw_vetoes(&g, &cells, &mut none);
    assert!(vetoed.iter().all(|v| !*v));
}

#[test]
fn costs_follow_the_formula() {
    let g = GridWorld::new(30, 30);
    let mut a = ant_at(sub(10), sub(10));
    a.dir_x = 0;
    a.dir_y = SUB as i32;
    let mut t = g.tiles[0];
    t.pheremone_level = 40;
    t.height = 178;
    // Step up 50: steep, 50 * 1000 / 255 = 196; tile below the agent: +300.
    assert_eq!(score_tile(&a, 128, 30, 10, 5, &t), 40 + 196 + 300);
    // Step up 49: gentle, 49 * 100 / 255 = 19; tile ahead: no penalty.
    t.height = 177;
    assert_eq!(score_tile(&a, 128, 30, 10, 12, &t), 40 + 19);
    a.mode = AgentMode::Returning;
    assert_eq!(score_tile(&a, 128, 30, 10, 12, &t), -40 + 19);
    // The destination margin.
    assert_eq!(score_tile(&a, 128, 30, 10, 26, &t), COST_MAX);
    assert_eq!(score_tile(&a, 128, 30, 10, 25, &t), -40 + 19);
}

#[test]
fn predator_costs_follow_the_leash() {
    let mut spider = ant_at(0, 0);
    spider.is_spider = true;
    let mut t = GridWorld::new(1, 1).tiles[0];
    t.times_changed = 12;
    assert_eq!(score_tile(&spider, 0, 100, 3, 4, &t), -12);
    // 60 tiles from home: 60 * 100 / 30 = 200.
    assert_eq!(score_tile(&spider, 0, 100, 60, 0, &t), 200);
    // 50 tiles from home is still inside the leash.
    assert_eq!(score_tile(&spider, 0, 100, 50, 0, &t), -12);
}

#[test]
fn slope_slows_steep_steps() {
    assert_eq!(slope_speed(100, 100), 256);
    // Penalty 10 out of 20: half the way to the floor of one half.
    assert_eq!(slope_speed(100, 125), 256 - 25 * 100 * 256 / 5100);
    assert_eq!(slope_speed(0, 255), 128);
}

#[test]
fn death_scatter_is_bounded_by_the_disk() {
    let mut g = GridWorld::new(20, 20);
    let x = sub(10) + 128;
    let y = sub(10) + 128;
    g.get_tile(x, y).unwrap().kill_flag = true;
    let mut a = ant_at(x, y);
    a.carrying = Some(TileMaterial::Nacho);
    let mut rolls = Rolls::new(vec![9999]);
    let o = tick_agent(&mut g, &mut a, &mut rolls, false);
    assert_eq!(o.killed, Some(DeathCause::Hazard));
    assert!(o.is_removed());
    let mut debris = 0;
    for i in 0..400 {
        let m = g.tiles[i].material;
        if m == TileMaterial::AntGuts || m == TileMaterial::AntBody {
            debris += 1;
            let dx = (i / 20) as i64 * 256 - x as i64;
            let dy = (i % 20) as i64 * 256 - y as i64;
            assert!(dx * dx + dy * dy < 512 * 512);
        }
    }
    // Guts on the twelve tiles of the two-tile disk, bodies on the four
    // closest ones, the load dropped on the tile of death.
    assert_eq!(debris, 11);
    assert_eq!(g.tiles[10 * 20 + 10].material, TileMaterial::Nacho);
    assert_eq!(g.tiles[11 * 20 + 11].material, TileMaterial::AntBody);
    assert_eq!(g.tiles[11 * 20 + 11].height, 155);
    assert_eq!(g.tiles[12 * 20 + 11].material, TileMaterial::AntGuts);
    assert_eq!(g.tiles[12 * 20 + 11].height, 133);
    assert_eq!(a.carrying, None);
}

#[test]
fn death_scatter_with_low_draws_leaves_no_debris() {
    let mut g = GridWorld::new(20, 20);
    let x = sub(10) + 128;
    let y = sub(10) + 128;
    g.get_tile(x, y).unwrap().kill_ants_only = true;
    let mut a = ant_at(x, y);
    let mut rolls = Rolls::new(vec![]);
    let o = tick_agent(&mut g, &mut a, &mut rolls, false);
    assert_eq!(o.killed, Some(DeathCause::Hazard));
    assert!(g.tiles.iter().all(|t| t.material == TileMaterial::Earth));
}

#[test]
fn scatter_remains_per_draw() {
    let mut g = GridWorld::new(8, 8);
    let mut rolls = Rolls::new(vec![8001, 8000]);
    scatter_remains(&mut g, sub(4), sub(4), Remains::Guts, &mut rolls);
    // Disk of radius 2 around a corner: 9 - 4 + ... tiles in scan order,
    // alternately covered and spared.
    let cells = g.disk_cells(sub(4), sub(4), 512);
    for (k, &i) in cells.iter().enumerate() {
        if k % 2 == 0 {
            assert_eq!(g.tiles[i].material, TileMaterial::AntGuts);
            assert_eq!(g.tiles[i].height, 133);
        } else {
            assert_eq!(g.tiles[i].material, TileMaterial::Earth);
        }
    }
}

#[test]
fn death_mark_lowers_levels_by_distance() {
    let mut g = GridWorld::new(30, 30);
    for t in g.tiles.iter_mut() {
        t.pheremone_level = 10;
    }
    mark_death(&mut g, sub(5), sub(5));
    assert_eq!(g.tiles[5 * 30 + 5].pheremone_level, 5);
    assert_eq!(g.tiles[6 * 30 + 5].pheremone_level, 6);
    assert_eq!(g.tiles[7 * 30 + 5].pheremone_level, 6);
    assert_eq!(g.tiles[8 * 30 + 5].pheremone_level, 7);
    assert_eq!(g.tiles[14 * 30 + 5].pheremone_level, 10);
    assert_eq!(g.tiles[15 * 30 + 5].pheremone_level, 10);
    let mut low = GridWorld::new(30, 30);
    low.tiles[5 * 30 + 5].pheremone_level = 2;
    low.tiles[6 * 30 + 5].pheremone_level = -300;
    mark_death(&mut low, sub(5), sub(5));
    assert_eq!(low.tiles[5 * 30 + 5].pheremone_level, 0);
    assert_eq!(low.tiles[6 * 30 + 5].pheremone_level, 0);
}

#[test]
fn frail_agents_weaken_and_die() {
    let mut g = GridWorld::new(20, 20);
    let mut a = ant_at(sub(5), sub(5));
    a.health = 1;
    let mut rolls = Rolls::new(vec![9999]);
    let o = tick_agent(&mut g, &mut a, &mut rolls, false);
    assert_eq!(a.health, 0);
    assert_eq!(o.killed, Some(DeathCause::Exhausted));
    let mut b = ant_at(sub(5), sub(5));
    b.health = 99;
    let mut low = Rolls::new(vec![8000]);
    let o = tick_agent(&mut g, &mut b, &mut low, false);
    assert_eq!(b.health, 99);
    assert_eq!(o.killed, None);
    let mut c = ant_at(sub(5), sub(5));
    c.health = 100;
    let mut high = Rolls::new(vec![9999]);
    tick_agent(&mut g, &mut c, &mut high, false);
    assert_eq!(c.health, 100);
}

#[test]
fn reaching_the_defender() {
    let mut g = GridWorld::new(20, 40);
    let x = 20 * 128;
    let y = sub(15) + 300;
    let mut a = ant_at(x, y);
    let mut rolls = Rolls::new(vec![]);
    let o = tick_agent(&mut g, &mut a, &mut rolls, true);
    assert!(o.delivered);
    assert!(o.is_removed());
    let mut b = ant_at(x, y);
    assert!(!tick_agent(&mut g, &mut b, &mut rolls, false).delivered);
    let mut s = ant_at(x, y);
    s.is_spider = true;
    assert!(!tick_agent(&mut g, &mut s, &mut rolls, true).delivered);
    let mut below = ant_at(x, sub(15) - 10);
    assert!(!tick_agent(&mut g, &mut below, &mut rolls, true).delivered);
    let mut far = ant_at(x + sub(10), y);
    assert!(!tick_agent(&mut g, &mut far, &mut rolls, true).delivered);
}

#[test]
fn predators_flag_a_hazard_zone() {
    let mut g = GridWorld::new(40, 40);
    let mut s = ant_at(sub(20), sub(20));
    s.is_spider = true;
    s.home_x = sub(20);
    s.home_y = sub(20);
    let mut rolls = Rolls::new(vec![]);
    let o = tick_agent(&mut g, &mut s, &mut rolls, true);
    assert_eq!(o.killed, None);
    let zone = g.disk_cells(sub(20), sub(20), sub(10));
    assert!(!zone.is_empty());
    for &i in &zone {
        assert!(g.tiles[i].kill_ants_only);
    }
    assert_eq!(g.tiles_to_update, zone);
    assert!(!g.tiles[0].kill_ants_only);
    // A predator is not harmed by its own zone, an ant is.
    let mut ant = ant_at(sub(22), sub(20));
    let o = tick_agent(&mut g, &mut ant, &mut rolls, false);
    assert_eq!(o.killed, Some(DeathCause::Hazard));
    g.update_tiles();
    assert!(g.tiles.iter().all(|t| !t.kill_ants_only));
}

#[test]
fn a_tick_removes_the_dead_and_sweeps() {
    let mut g = GridWorld::new(20, 20);
    g.get_tile(sub(4), sub(4)).unwrap().kill_flag = true;
    let mut agents = vec![ant_at(sub(4), sub(4)), ant_at(sub(12), sub(8)), ant_at(sub(15), sub(9))];
    let mut rolls = Rolls::new(vec![]);
    let events = run_tick(&mut g, &mut agents, &mut rolls, false);
    assert_eq!(events.len(), 1);
    assert_eq!(events[0].index, 0);
    assert_eq!(events[0].outcome.killed, Some(DeathCause::Hazard));
    assert_eq!(agents.len(), 2);
    assert_eq!(agents[0].home_x, 0);
    assert!(agents[0].y < sub(8) + 128 || agents[0].x != sub(12));
    assert!(g.tiles_to_update.is_empty());
    // Flags set by tools stay until a sweep sees them queued.
    assert!(g.tiles[4 * 20 + 4].kill_flag);
}

#[test]
fn an_agent_past_the_top_turns_back() {
    let mut g = GridWorld::new(10, 10);
    let mut a = ant_at(sub(5), sub(9) + 200);
    a.dir_y = SUB as i32;
    let mut rolls = Rolls::new(vec![]);
    tick_agent(&mut g, &mut a, &mut rolls, false);
    assert_eq!((a.dir_x, a.dir_y), (0, -256));
}

#[test]
fn erosion_and_drop_draw_in_turn() {
    let mut g = GridWorld::new(20, 200);
    let i = 5 * 200 + 190;
    g.tiles[i].height = 200;
    let returning = |carrying| {
        let mut a = ant_at(sub(5), sub(190));
        a.mode = AgentMode::Returning;
        a.carrying = carrying;
        a
    };
    let mut a = returning(Some(TileMaterial::Nacho));
    let mut rolls = Rolls::new(vec![4000, 9999]);
    let t = visit_tile(g.tiles[i], &mut a, 200, &mut rolls);
    assert_eq!(t.height, 199);
    assert_eq!(t.material, TileMaterial::Nacho);
    assert_eq!(a.mode, AgentMode::Foraging);
    assert_eq!(rolls.next, 0);
    let mut b = returning(Some(TileMaterial::Nacho));
    let mut rolls = Rolls::new(vec![9999, 100, 7]);
    let t = visit_tile(g.tiles[i], &mut b, 200, &mut rolls);
    assert_eq!(t.height, 198);
    assert_eq!(t.material, TileMaterial::Earth);
    assert_eq!(b.mode, AgentMode::Returning);
    assert_eq!(rolls.next, 2);
}

#[test]
fn only_tall_candidates_take_veto_draws() {
    let mut g = GridWorld::new(1, 3);
    g.tiles[0].height = 240;
    g.tiles[1].height = 100;
    g.tiles[2].height = 231;
    let cells = vec![0, 1, 2];
    let mut rolls = Rolls::new(vec![50, 9999, 3]);
    let vetoed = draw_vetoes(&g, &cells, &mut rolls);
    assert_eq!(vetoed, vec![false, false, true]);
    assert_eq!(rolls.next, 2);
}
