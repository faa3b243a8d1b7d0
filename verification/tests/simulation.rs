//! End-to-end simulation scenarios, driven through the stepped tick with
//! scripted brains standing in for the per-colony decision modules.

use pherowar::api::{AntOutput, AntRequest, AntResponse};
use pherowar::config::{PlayerConfig, SimulationConfig};
use pherowar::sim::{Simulation, ThinkOutcome, TickEvent};
use pherowar::terrain::Terrain;
use pherowar::{Pos, ANT_SPAWN_FOOD_COST, MAX_LONGEVITY_MS, PHEROMONE_CHANNEL_COUNT};

fn test_config(population: u32) -> SimulationConfig {
    SimulationConfig { colony_initial_population: population }
}

fn player(name: &str) -> PlayerConfig {
    PlayerConfig { name: name.to_string(), so_path: String::new() }
}

fn idle_rates() -> [u32; PHEROMONE_CHANNEL_COUNT] {
    [500; PHEROMONE_CHANNEL_COUNT]
}

fn still_output() -> AntOutput {
    AntOutput { turn_angle: 0, pheromone_amounts: [0; PHEROMONE_CHANNEL_COUNT], try_attack: false }
}

/// Runs one full tick, answering every think with `brain(colony-agnostic)`
/// within the deadline. Panics if the simulation refuses to advance.
fn run_tick(sim: &mut Simulation, dt_ms: u32, brain: &mut dyn FnMut(&AntRequest) -> AntOutput) {
    assert!(sim.update(dt_ms));
    loop {
        match sim.tick_event() {
            TickEvent::Request(_colony_id, req) => {
                let output = brain(&req);
                let response = AntResponse { output, memory: req.memory };
                sim.tick_supply(ThinkOutcome { elapsed_nanos: 1_000, response: Some(response) });
            }
            TickEvent::TickDone => break,
            TickEvent::Idle => panic!("tick refused to advance"),
        }
    }
}

#[test]
fn update_does_nothing_while_paused() {
    let mut sim = Simulation::new(test_config(1), Vec::new(), 20, 20, 7);
    assert!(sim.is_paused);
    assert!(!sim.update(100));
}

#[test]
fn unpause_refused_while_placeholders_remain() {
    let mut sim = Simulation::new(test_config(1), Vec::new(), 30, 30, 3);
    assert!(sim.map.place_nest_placeholder_at(5, 5));
    assert!(sim.map.place_nest_placeholder_at(20, 20));
    assert!(sim.try_toggle_pause().is_err());
    assert!(sim.is_paused);
    assert!(sim.spawn_colony(Pos { x: 5_500, y: 5_500 }, 0xff0000ff, player("a"), &idle_rates()));
    assert!(sim.try_toggle_pause().is_err());
    assert!(sim.spawn_colony(Pos { x: 20_500, y: 20_500 }, 0x00ff00ff, player("b"), &idle_rates()));
    assert!(sim.try_toggle_pause().is_ok());
    assert!(!sim.is_paused);
    // toggling back pauses again
    assert!(sim.try_toggle_pause().is_ok());
    assert!(sim.is_paused);
}

#[test]
fn idle_colony_keeps_its_population() {
    // an empty map, one colony of ten ants, and a brain that does nothing:
    // five simulated seconds cost nobody their life
    let mut sim = Simulation::new(test_config(10), Vec::new(), 60, 60, 42);
    assert!(sim.spawn_colony(Pos { x: 30_500, y: 30_500 }, 1, player("idle"), &idle_rates()));
    assert_eq!(sim.total_ant_count(), 10);
    sim.unpause();
    let mut brain = |_req: &AntRequest| still_output();
    for _ in 0..40 {
        run_tick(&mut sim, 125, &mut brain);
    }
    assert_eq!(sim.total_ant_count(), 10);
    assert_eq!(sim.tick, 40);
    for entry in &sim.colonies[0].ants {
        assert!(entry.ant.longevity >= MAX_LONGEVITY_MS - 6_000);
    }
}

#[test]
fn brain_timeout_kills_the_ant_but_not_the_colony() {
    let mut sim = Simulation::new(test_config(1), Vec::new(), 30, 30, 9);
    assert!(sim.spawn_colony(Pos { x: 15_500, y: 15_500 }, 2, player("slow"), &idle_rates()));
    assert_eq!(sim.total_ant_count(), 1);
    sim.unpause();
    // the brain takes ten milliseconds: far over the 1.5 ms budget
    assert!(sim.update(400));
    let mut killed = 0;
    loop {
        match sim.tick_event() {
            TickEvent::Request(_colony_id, req) => {
                let response = AntResponse { output: still_output(), memory: req.memory };
                sim.tick_supply(ThinkOutcome {
                    elapsed_nanos: 10_000_000,
                    response: Some(response),
                });
                killed += 1;
            }
            TickEvent::TickDone => break,
            TickEvent::Idle => panic!("tick refused to advance"),
        }
    }
    assert_eq!(killed, 1);
    // the dead ant is buried on the next tick; the colony itself survives
    let mut brain = |_req: &AntRequest| still_output();
    run_tick(&mut sim, 400, &mut brain);
    assert_eq!(sim.total_ant_count(), 0);
    assert_eq!(sim.colonies.len(), 1);
    assert!(sim.colonies[0].is_dead());
    // with food banked, later ticks seed replacements as usual: the spawn
    // accumulator has banked three 300 ms intervals by now, so both funded
    // spawns fire at once
    sim.colonies[0].food_collected = 2 * ANT_SPAWN_FOOD_COST;
    run_tick(&mut sim, 400, &mut brain);
    assert_eq!(sim.total_ant_count(), 2);
    assert_eq!(sim.colonies[0].food_collected, 0);
}

#[test]
fn spawn_accounting_debits_food_exactly() {
    let mut sim = Simulation::new(test_config(0), Vec::new(), 30, 30, 11);
    assert!(sim.spawn_colony(Pos { x: 10_500, y: 10_500 }, 3, player("bank"), &idle_rates()));
    assert_eq!(sim.total_ant_count(), 0);
    sim.colonies[0].food_collected = 3 * ANT_SPAWN_FOOD_COST + 2;
    sim.unpause();
    let mut brain = |_req: &AntRequest| still_output();
    // one second: three 300 ms spawn intervals elapse and food covers three
    run_tick(&mut sim, 1_000, &mut brain);
    assert_eq!(sim.total_ant_count(), 3);
    assert_eq!(sim.colonies[0].food_collected, 2);
}

#[test]
fn untraversed_food_tile_never_decays() {
    let mut sim = Simulation::new(test_config(4), Vec::new(), 50, 50, 5);
    sim.place_food_at(45, 45, 9);
    // the colony lives far away and its brain never steers toward food
    assert!(sim.spawn_colony(Pos { x: 5_500, y: 5_500 }, 4, player("far"), &idle_rates()));
    sim.unpause();
    let mut brain = |_req: &AntRequest| still_output();
    for _ in 0..24 {
        run_tick(&mut sim, 500, &mut brain);
    }
    assert_eq!(sim.get_terrain_at(45, 45), Some(Terrain::Food(9)));
}

#[test]
fn two_ant_duel_leaves_one_rejuvenated_survivor() {
    let mut sim = Simulation::new(test_config(1), Vec::new(), 20, 20, 77);
    // two single-ant colonies half a cell apart, in the same cell
    assert!(sim.spawn_colony(Pos { x: 5_200, y: 5_500 }, 1, player("a"), &idle_rates()));
    assert!(sim.spawn_colony(Pos { x: 5_700, y: 5_500 }, 2, player("b"), &idle_rates()));
    assert_eq!(sim.total_ant_count(), 2);
    sim.unpause();
    let mut brain = |_req: &AntRequest| AntOutput {
        turn_angle: 0,
        pheromone_amounts: [0; PHEROMONE_CHANNEL_COUNT],
        try_attack: true,
    };
    // after the first think cycle both live and both have taken one hit
    run_tick(&mut sim, 400, &mut brain);
    assert_eq!(sim.total_ant_count(), 2);
    for colony in &sim.colonies {
        assert_eq!(colony.ants.len(), 1);
        let longevity = colony.ants[0].ant.longevity;
        assert!(longevity <= MAX_LONGEVITY_MS - 5_000);
        assert!(longevity >= MAX_LONGEVITY_MS - 5_000 - 1_000);
    }
    // fighting ants hold their ground (the colony list order rotates
    // with the drawn processing order, so compare sorted positions)
    let mut positions: Vec<Pos> = sim.colonies.iter().map(|c| c.ants[0].ant.pos).collect();
    positions.sort_by_key(|p| (p.x, p.y));
    run_tick(&mut sim, 400, &mut brain);
    let mut positions_after: Vec<Pos> = sim.colonies.iter().map(|c| c.ants[0].ant.pos).collect();
    positions_after.sort_by_key(|p| (p.x, p.y));
    assert_eq!(positions, positions_after);
    // they trade five-second hits until one dies; the killer is restored
    let mut guard = 0;
    while sim.total_ant_count() == 2 {
        run_tick(&mut sim, 400, &mut brain);
        guard += 1;
        assert!(guard < 120, "duel should resolve within the longevity budget");
    }
    assert_eq!(sim.total_ant_count(), 1);
    let survivor = sim
        .colonies
        .iter()
        .find(|c| c.ants.len() == 1)
        .expect("one colony keeps its ant");
    assert_eq!(survivor.ants[0].ant.longevity, MAX_LONGEVITY_MS);
}

#[test]
fn walling_a_cell_respawns_its_ants_at_the_nest() {
    let mut sim = Simulation::new(test_config(3), Vec::new(), 30, 30, 13);
    assert!(sim.spawn_colony(Pos { x: 8_500, y: 8_500 }, 5, player("walled"), &idle_rates()));
    assert_eq!(sim.total_ant_count(), 3);
    // all three ants start in the nest cell; wall it
    sim.place_wall_at(8, 8);
    assert_eq!(sim.get_terrain_at(8, 8), Some(Terrain::Wall));
    assert_eq!(sim.total_ant_count(), 3);
    for entry in &sim.colonies[0].ants {
        // respawned ants sit at the (now walled) nest position again, with
        // fresh keys and full longevity
        assert_eq!(entry.ant.longevity, MAX_LONGEVITY_MS);
    }
}

#[test]
fn food_delivery_round_trip_fills_the_store() {
    // nest at (10, 10), one food pile of three at (15, 10); the brain
    // steers toward food when empty-handed and home when carrying
    let mut sim = Simulation::new(test_config(6), Vec::new(), 40, 40, 1234);
    sim.place_food_at(15, 10, 3);
    assert!(sim.spawn_colony(Pos { x: 10_500, y: 10_500 }, 6, player("hauler"), &idle_rates()));
    sim.unpause();
    let mut brain = |req: &AntRequest| {
        let input = &req.input;
        let turn = if input.is_carrying_food {
            if input.colony_sense.1 >= 0 {
                input.colony_sense.0
            } else {
                900
            }
        } else if input.food_sense.1 >= 0 {
            input.food_sense.0
        } else if input.wall_sense.1 >= 0 {
            // steer away from walls while scanning
            input.wall_sense.0 + 3141
        } else {
            700
        };
        AntOutput { turn_angle: turn, pheromone_amounts: [0; PHEROMONE_CHANNEL_COUNT], try_attack: false }
    };
    let mut delivered = 0;
    for _ in 0..240 {
        run_tick(&mut sim, 125, &mut brain);
        delivered = sim.colonies[0].food_collected;
        if delivered == 3 {
            break;
        }
    }
    assert_eq!(delivered, 3, "all three food units should come home within thirty seconds");
    assert_eq!(sim.get_terrain_at(15, 10), Some(Terrain::Empty));
}

#[test]
fn reset_respawns_colonies_from_saved_data() {
    let mut sim = Simulation::new(test_config(2), Vec::new(), 25, 25, 21);
    assert!(sim.spawn_colony(Pos { x: 12_500, y: 12_500 }, 7, player("keeper"), &idle_rates()));
    sim.unpause();
    let mut brain = |_req: &AntRequest| still_output();
    for _ in 0..5 {
        run_tick(&mut sim, 400, &mut brain);
    }
    sim.reset();
    assert!(sim.is_paused);
    assert_eq!(sim.tick, 0);
    assert_eq!(sim.colonies.len(), 1);
    assert_eq!(sim.total_ant_count(), 2);
    assert_eq!(sim.colonies[0].pos, Pos { x: 12_500, y: 12_500 });
}

#[test]
fn colony_removal_clears_nest_and_index() {
    let mut sim = Simulation::new(test_config(2), Vec::new(), 25, 25, 31);
    assert!(sim.spawn_colony(Pos { x: 6_500, y: 6_500 }, 8, player("gone"), &idle_rates()));
    let id = sim.colonies[0].colony_id;
    assert_eq!(sim.get_terrain_at(6, 6), Some(Terrain::Nest(id)));
    assert!(sim.remove_colony(id));
    assert!(!sim.remove_colony(id));
    assert_eq!(sim.colonies.len(), 0);
    assert_eq!(sim.get_terrain_at(6, 6), Some(Terrain::Empty));
    assert_eq!(sim.get_ant_at_world_pos(Pos { x: 6_500, y: 6_500 }, 2_000), None);
}

#[test]
fn sanitized_pheromones_land_on_the_ants_cell() {
    let mut sim = Simulation::new(test_config(1), Vec::new(), 30, 30, 19);
    assert!(sim.spawn_colony(Pos { x: 15_500, y: 15_500 }, 9, player("layer"), &idle_rates()));
    sim.unpause();
    // channel 0 gets a modest dose; channel 7 asks for far more than the cap
    let mut brain = |_req: &AntRequest| AntOutput {
        turn_angle: 0,
        pheromone_amounts: [50_000, 0, 0, 0, 0, 0, 0, 999_999_999],
        try_attack: false,
    };
    run_tick(&mut sim, 400, &mut brain);
    let colony = &sim.colonies[0];
    assert_eq!(colony.get_pheromone_channel_at(15, 15, 0), 50_000);
    assert_eq!(colony.get_pheromone_channel_at(15, 15, 7), 255_000);
    assert_eq!(colony.get_pheromone_channel_at(15, 15, 3), 0);
    // keep laying: the field saturates at the cap and never overshoots
    for _ in 0..6 {
        run_tick(&mut sim, 400, &mut brain);
    }
    for y in 0..30 {
        for x in 0..30 {
            for ch in 0..PHEROMONE_CHANNEL_COUNT {
                assert!(sim.colonies[0].get_pheromone_channel_at(x, y, ch) <= 255_000);
            }
        }
    }
}

#[test]
fn decay_pass_halves_trails_and_clears_dust() {
    let mut sim = Simulation::new(test_config(0), Vec::new(), 20, 20, 23);
    assert!(sim.spawn_colony(Pos { x: 10_500, y: 10_500 }, 10, player("fading"), &idle_rates()));
    sim.colonies[0].pheromones[0].lay(4, 4, 80_000);
    sim.colonies[0].pheromones[0].lay(5, 4, 16);
    sim.unpause();
    let mut brain = |_req: &AntRequest| still_output();
    // three 400 ms ticks pass the one-second decay schedule exactly once
    for _ in 0..3 {
        run_tick(&mut sim, 400, &mut brain);
    }
    // rate 500 per mil: the strong trail halves, the dust falls under the
    // 0.01 floor and snaps to zero
    assert_eq!(sim.colonies[0].get_pheromone_channel_at(4, 4, 0), 40_000);
    assert_eq!(sim.colonies[0].get_pheromone_channel_at(5, 4, 0), 0);
}

#[test]
fn brain_memory_round_trips_verbatim() {
    let mut sim = Simulation::new(test_config(1), Vec::new(), 30, 30, 29);
    assert!(sim.spawn_colony(Pos { x: 15_500, y: 15_500 }, 11, player("keeper"), &idle_rates()));
    sim.unpause();
    // each think bumps the first byte and stamps the rest
    let mut seen = Vec::new();
    let mut brain = |req: &AntRequest| {
        seen.push(req.memory);
        still_output()
    };
    // the think applies the returned memory verbatim
    let memory_at_rest = sim.colonies[0].ants[0].ant.memory;
    assert!(sim.update(400));
    loop {
        match sim.tick_event() {
            TickEvent::Request(_cid, req) => {
                assert_eq!(req.memory, memory_at_rest);
                let mut memory = req.memory;
                memory[0] = memory[0].wrapping_add(1);
                memory[31] = 0xAB;
                let response = AntResponse { output: still_output(), memory };
                sim.tick_supply(ThinkOutcome { elapsed_nanos: 500, response: Some(response) });
            }
            TickEvent::TickDone => break,
            TickEvent::Idle => panic!("tick refused to advance"),
        }
    }
    assert_eq!(sim.colonies[0].ants[0].ant.memory[0], 1);
    assert_eq!(sim.colonies[0].ants[0].ant.memory[31], 0xAB);
    // a failed transport leaves the ant untouched and the colony running
    let before = sim.colonies[0].ants[0].ant.memory;
    let pos_before = sim.colonies[0].ants[0].ant.pos;
    let longevity_before = sim.colonies[0].ants[0].ant.longevity;
    assert!(sim.update(400));
    loop {
        match sim.tick_event() {
            TickEvent::Request(_cid, _req) => {
                sim.tick_supply(ThinkOutcome { elapsed_nanos: 500, response: None });
            }
            TickEvent::TickDone => break,
            TickEvent::Idle => panic!("tick refused to advance"),
        }
    }
    assert_eq!(sim.colonies[0].ants[0].ant.memory, before);
    assert_eq!(sim.colonies[0].ants[0].ant.pos, pos_before);
    // only aging touched its longevity on the failed think
    assert_eq!(sim.colonies[0].ants[0].ant.longevity, longevity_before - 400);
    assert_eq!(sim.total_ant_count(), 1);
    let _ = run_tick(&mut sim, 125, &mut brain);
    assert!(!seen.is_empty() || sim.tick >= 1);
}
