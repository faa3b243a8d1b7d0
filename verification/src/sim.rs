//! The simulation: tick orchestration across colonies in a shuffled
//! order, the stepped brain exchange, and the edit operations offered to
//! the surrounding application.
//!
//! A tick runs as a small state machine so that the brain transport can
//! stay outside the library: `update` opens a tick, `tick_event` advances
//! it until an ant needs its brain consulted (handing out the request) or
//! the tick completes, and `tick_supply` feeds one exchange's outcome
//! back in. Between ticks every ant is registered in exactly the spatial
//! index cell its position names.

use vstd::prelude::*;
use vstd::multiset::Multiset;
use crate::ant::{Ant, AntRef};
use crate::api::{AntRequest, AntResponse};
use crate::colony::Colony;
use crate::config::{PlayerConfig, SimulationConfig};
use crate::map::GameMap;
use crate::rng::SimRng;
use crate::terrain::Terrain;
use crate::fixmath::floor_cell;
use crate::{Pos, MILLI, MAX_COLONIES, pos_in_map};

verus! {

/// A think in flight: which ant awaits its brain's answer, and the
/// attackable enemy its perception picked out.
pub struct PendingThink {
    pub key: u64,
    pub candidate: Option<AntRef>,
}

/// The colony currently being stepped: temporarily removed from the
/// colony list so the rest can be handed to it mutably (combat), with the
/// snapshot of ant keys to visit, the visit cursor, the ants to bury at
/// the end, and the think in flight.
pub struct ColonyRun {
    pub colony: Colony,
    pub keys: Vec<u64>,
    pub cursor: usize,
    pub to_despawn: Vec<u64>,
    pub pending: Option<PendingThink>,
}

/// An open tick: its time step, the shuffled ids still to process
/// (consumed from the back), and the colony in flight.
pub struct TickProgress {
    pub dt_ms: u32,
    pub order: Vec<u32>,
    pub current: Option<ColonyRun>,
}

/// What `tick_event` reports.
pub enum TickEvent {
    /// An ant of the named colony thinks: send this to that colony's
    /// brain and feed the outcome back through `tick_supply`.
    Request(u32, AntRequest),
    /// The open tick has completed.
    TickDone,
    /// No tick is open (paused, or `update` was not called).
    Idle,
}

/// One brain exchange's outcome, as measured by the transport: how long
/// it took, and the decoded response if one arrived intact.
pub struct ThinkOutcome {
    pub elapsed_nanos: u64,
    pub response: Option<AntResponse>,
}

/// The whole simulation.
pub struct Simulation {
    pub tick: u32,
    pub map: GameMap,
    pub colonies: Vec<Colony>,
    pub player_configs: Vec<PlayerConfig>,
    pub is_paused: bool,
    pub config: SimulationConfig,
    pub rng: SimRng,
    pub progress: Option<TickProgress>,
}

impl Simulation {
    /// The resting-state invariant of one colony against the shared map.
    pub open spec fn colony_ok(self, c: Colony) -> bool {
        &&& c.wf(self.map.width as int, self.map.height as int)
        &&& c.keys_below_next(self.map)
        &&& c.ants_tracked(self.map)
    }

    /// Global invariant: a well-formed map; colonies with distinct ids,
    /// each well-formed, with every ant registered in exactly the cell of
    /// its position and all registered keys below the colony's key
    /// counter; the same for a colony in flight, whose id is absent from
    /// the list while it runs.
    pub open spec fn wf(self) -> bool {
        &&& self.map.wf()
        &&& forall|i: int| 0 <= i < self.colonies.len()
                ==> self.colony_ok(#[trigger] self.colonies[i])
        &&& forall|i: int, j: int| 0 <= i < j < self.colonies.len()
                ==> self.colonies[i].colony_id != self.colonies[j].colony_id
        &&& match self.progress {
            Some(p) => {
                &&& 1 <= p.dt_ms <= 10_000
                &&& match p.current {
                    Some(run) => {
                        &&& self.colony_ok(run.colony)
                        &&& run.cursor <= run.keys.len()
                        &&& (run.pending is Some ==> run.cursor < run.keys.len())
                        &&& forall|i: int| 0 <= i < self.colonies.len()
                                ==> (#[trigger] self.colonies[i]).colony_id != run.colony.colony_id
                    },
                    None => true,
                }
            },
            None => true,
        }
    }

    /// Whether a tick is open.
    pub open spec fn mid_tick(self) -> bool {
        self.progress is Some
    }

    /// Whether an ant's think request is outstanding.
    pub open spec fn has_pending(self) -> bool {
        match self.progress {
            Some(p) => match p.current {
                Some(run) => run.pending is Some,
                None => false,
            },
            None => false,
        }
    }

    /// Creates a paused simulation on a fresh map of the given size.
    pub fn new(config: SimulationConfig, player_configs: Vec<PlayerConfig>,
        width: u32, height: u32, seed: u64) -> (r: Simulation)
        requires
            1 <= width <= crate::MAX_MAP_DIM,
            1 <= height <= crate::MAX_MAP_DIM,
        ensures
            r.wf(),
            r.is_paused,
            r.tick == 0,
            r.colonies.len() == 0,
            !r.mid_tick(),
            r.map.width == width,
            r.map.height == height,
    {
        Simulation {
            tick: 0,
            map: GameMap::new(width, height),
            colonies: Vec::new(),
            player_configs,
            is_paused: true,
            config,
            rng: SimRng::new(seed),
            progress: None,
        }
    }

    /// Pauses the simulation.
    pub fn pause(&mut self)
        ensures
            final(self).is_paused,
            *final(self) == (Simulation { is_paused: true, ..*old(self) }),
    {
        self.is_paused = true;
    }

    /// Unpauses the simulation.
    pub fn unpause(&mut self)
        ensures
            !final(self).is_paused,
            *final(self) == (Simulation { is_paused: false, ..*old(self) }),
    {
        self.is_paused = false;
    }

    /// Toggles the pause state, refusing to unpause while any placeholder
    /// colony slot remains unfilled on the map.
    pub fn try_toggle_pause(&mut self) -> (r: Result<(), String>)
        ensures
            old(self).is_paused && old(self).map.placeholder_colony_locations@.len() > 0
                ==> r is Err && *final(self) == *old(self),
            old(self).is_paused && old(self).map.placeholder_colony_locations@.len() == 0
                ==> r is Ok && !final(self).is_paused
                    && *final(self) == (Simulation { is_paused: false, ..*old(self) }),
            !old(self).is_paused
                ==> r is Ok && final(self).is_paused
                    && *final(self) == (Simulation { is_paused: true, ..*old(self) }),
    {
        if self.is_paused {
            if self.map.placeholder_colony_locations.len() > 0 {
                return Err("cannot unpause while placeholder colonies remain on the map".to_owned());
            }
            self.unpause();
        } else {
            self.pause();
        }
        Ok(())
    }

    /// The terrain at a cell.
    pub fn get_terrain_at(&self, x: u32, y: u32) -> (r: Option<Terrain>)
        requires
            self.wf(),
        ensures
            r == if self.map.cell_in_bounds(x as int, y as int) {
                Some(self.map.terrain_at(x as int, y as int))
            } else {
                Option::<Terrain>::None
            },
    {
        self.map.get_terrain_at(x, y)
    }

    /// The total number of ants across all colonies at rest (the colony
    /// in flight, if any, counts too).
    pub fn total_ant_count(&self) -> (r: usize)
        requires
            !self.mid_tick(),
        ensures
            spec_total_ants(self.colonies@) <= usize::MAX
                ==> r == spec_total_ants(self.colonies@),
    {
        let n = self.colonies.len();
        let mut total: usize = 0;
        let mut i: usize = 0;
        while i < n
            invariant
                i <= n,
                n == self.colonies.len(),
                total == if spec_total_ants(self.colonies@.take(i as int)) <= usize::MAX {
                    spec_total_ants(self.colonies@.take(i as int))
                } else {
                    usize::MAX as int
                },
            decreases n - i,
        {
            proof {
                assert(self.colonies@.take(i as int + 1).drop_last() =~= self.colonies@.take(i as int));
                assert(self.colonies@.take(i as int + 1).last() == self.colonies@[i as int]);
            }
            let c = self.colonies[i].ants.len();
            if c <= usize::MAX - total {
                total = total + c;
            } else {
                total = usize::MAX;
            }
            i = i + 1;
        }
        proof {
            assert(self.colonies@.take(n as int) =~= self.colonies@);
        }
        total
    }

    /// Looks an ant up by reference.
    pub fn get_ant(&self, ant_ref: &AntRef) -> (r: Option<&Ant>)
        requires
            self.wf(),
        ensures
            match r {
                Some(a) => a.ant_ref == *ant_ref,
                None => true,
            },
    {
        match crate::colony::find_colony(&self.colonies, ant_ref.colony_id) {
            Some(ci) => {
                match crate::colony::find_ant(&self.colonies[ci], ant_ref.key) {
                    Some(ai) => Some(&self.colonies[ci].ants[ai].ant),
                    None => None,
                }
            },
            None => None,
        }
    }
}

impl Simulation {
    /// Opens a tick of `dt_ms` milliseconds, shuffling the colony
    /// processing order; a paused simulation does nothing. The opened
    /// tick is then driven by `tick_event` and `tick_supply`.
    pub fn update(&mut self, dt_ms: u32) -> (r: bool)
        requires
            old(self).wf(),
            !old(self).mid_tick(),
            1 <= dt_ms <= 10_000,
        ensures
            final(self).wf(),
            r == !old(self).is_paused,
            !r ==> *final(self) == *old(self),
            r ==> final(self).mid_tick() && !final(self).has_pending(),
            // the drawn order holds exactly the colony ids, shuffled
            r ==> match final(self).progress {
                Some(p) => p.dt_ms == dt_ms && p.current is None
                    && p.order@.to_multiset() == colony_ids(old(self).colonies@).to_multiset(),
                None => false,
            },
            final(self).colonies@ == old(self).colonies@,
            final(self).map == old(self).map,
            final(self).tick == old(self).tick,
            forall|id: u32| has_colony_id(*final(self), id) == has_colony_id(*old(self), id),
    {
        if self.is_paused {
            return false;
        }
        let n = self.colonies.len();
        let mut pool: Vec<u32> = Vec::new();
        let mut i: usize = 0;
        while i < n
            invariant
                i <= n,
                n == self.colonies.len(),
                pool.len() == i,
                forall|j: int| 0 <= j < i ==> pool@[j] == colony_ids(self.colonies@)[j],
            decreases n - i,
        {
            pool.push(self.colonies[i].colony_id);
            i = i + 1;
        }
        proof {
            assert(pool@ =~= colony_ids(self.colonies@));
        }
        // draw the processing order without replacement
        let ghost all = pool@.to_multiset();
        let mut order: Vec<u32> = Vec::new();
        proof {
            broadcast use vstd::seq_lib::group_to_multiset_ensures;

            assert(order@.to_multiset() =~= Multiset::<u32>::empty());
            assert(order@.to_multiset().add(pool@.to_multiset()) =~= all);
        }
        while pool.len() > 1
            invariant
                self.wf(),
                !self.mid_tick(),
                self.colonies@ == old(self).colonies@,
                self.map == old(self).map,
                self.tick == old(self).tick,
                self.is_paused == old(self).is_paused,
                order@.to_multiset().add(pool@.to_multiset()) == all,
            decreases pool.len(),
        {
            let j = self.rng.gen_range_u64(0, pool.len() as u64) as usize;
            let ghost pool0 = pool@;
            let ghost order0 = order@;
            let id = pool.remove(j);
            order.push(id);
            proof {
                broadcast use vstd::seq_lib::group_to_multiset_ensures;

                assert(pool@.to_multiset() =~= pool0.to_multiset().remove(id));
                assert(order@.to_multiset() =~= order0.to_multiset().insert(id));
                assert(order@.to_multiset().add(pool@.to_multiset()) =~= all);
            }
        }
        if pool.len() == 1 {
            let ghost pool0 = pool@;
            let ghost order0 = order@;
            let id = pool.remove(0);
            order.push(id);
            proof {
                broadcast use vstd::seq_lib::group_to_multiset_ensures;

                assert(pool0 =~= Seq::<u32>::empty().push(id));
                assert(Seq::<u32>::empty().to_multiset() =~= Multiset::<u32>::empty());
                assert(pool0.to_multiset() =~= Multiset::<u32>::empty().insert(id));
                assert(order@.to_multiset() =~= order0.to_multiset().insert(id));
                assert(order@.to_multiset() =~= all);
            }
        } else {
            proof {
                broadcast use vstd::seq_lib::group_to_multiset_ensures;

                assert(pool@ =~= Seq::<u32>::empty());
                assert(pool@.to_multiset() =~= Multiset::<u32>::empty());
                assert(order@.to_multiset() =~= all);
            }
        }
        self.progress = Some(TickProgress { dt_ms, order, current: None });
        true
    }

    /// Takes up the colony with the given id for this tick: removes it
    /// from the list, runs its pheromone decay schedule, and snapshots
    /// the keys of the ants to visit. Unknown ids are skipped.
    #[verifier::rlimit(100)]
    #[verifier::spinoff_prover]
    fn begin_colony_run(&mut self, id: u32, dt: u32)
        requires
            old(self).wf(),
            old(self).mid_tick(),
            !old(self).has_pending(),
            match old(self).progress {
                Some(p) => p.dt_ms == dt && p.current is None,
                None => false,
            },
            1 <= dt <= 10_000,
        ensures
            final(self).wf(),
            final(self).mid_tick(),
            !final(self).has_pending(),
            final(self).tick == old(self).tick,
            match final(self).progress {
                Some(p) => p.dt_ms == dt && p.order@ == match old(self).progress {
                    Some(p0) => p0.order@,
                    None => p.order@,
                },
                None => false,
            },
            forall|cid: u32| has_colony_id(*final(self), cid) == has_colony_id(*old(self), cid),
            final(self).map.tiles@ == old(self).map.tiles@,
    {
        match crate::colony::find_colony(&self.colonies, id) {
            None => {},
            Some(ci) => {
                let ghost cs0 = self.colonies@;
                let mut colony = self.colonies.remove(ci);
                proof {
                    assert forall|a: int| 0 <= a < self.colonies.len()
                        implies self.colony_ok(#[trigger] self.colonies[a])
                            && self.colonies[a].colony_id != colony.colony_id by {
                        if a < ci {
                            assert(self.colonies[a] == cs0[a]);
                        } else {
                            assert(self.colonies[a] == cs0[a + 1]);
                        }
                    }
                    assert forall|a: int, b: int| 0 <= a < b < self.colonies.len()
                        implies (#[trigger] self.colonies[a]).colony_id
                            != (#[trigger] self.colonies[b]).colony_id by {
                        let a0 = if a < ci { a } else { a + 1 };
                        let b0 = if b < ci { b } else { b + 1 };
                        assert(self.colonies[a] == cs0[a0]);
                        assert(self.colonies[b] == cs0[b0]);
                    }
                }
                colony.maybe_decay_pheromones(dt);
                proof {
                    assert(colony.wf(self.map.width as int, self.map.height as int));
                }
                let m = colony.ants.len();
                let mut keys: Vec<u64> = Vec::new();
                let mut i: usize = 0;
                while i < m
                    invariant
                        i <= m,
                        keys.len() == i,
                        m == colony.ants.len(),
                    decreases m - i,
                {
                    keys.push(colony.ants[i].key);
                    i = i + 1;
                }
                match &mut self.progress {
                    Some(p) => {
                        p.current = Some(ColonyRun {
                            colony,
                            keys,
                            cursor: 0,
                            to_despawn: Vec::new(),
                            pending: None,
                        });
                    },
                    None => {},
                }
                proof {
                    assert forall|cid: u32| has_colony_id(*self, cid)
                        == has_colony_id(*old(self), cid) by {
                        if exists|i: int| 0 <= i < self.colonies.len()
                            && (#[trigger] self.colonies[i]).colony_id == cid {
                            let i = choose|i: int| 0 <= i < self.colonies.len()
                                && (#[trigger] self.colonies[i]).colony_id == cid;
                            let i0 = if i < ci { i } else { i + 1 };
                            assert(old(self).colonies[i0].colony_id == cid);
                        }
                        if exists|i: int| 0 <= i < old(self).colonies.len()
                            && (#[trigger] old(self).colonies[i]).colony_id == cid {
                            let i0 = choose|i: int| 0 <= i < old(self).colonies.len()
                                && (#[trigger] old(self).colonies[i]).colony_id == cid;
                            if i0 == ci {
                                assert(has_colony_id(*self, cid));
                            } else {
                                let i = if i0 < ci { i0 } else { i0 - 1 };
                                assert(self.colonies[i].colony_id == cid);
                            }
                        }
                    }
                }
            },
        }
    }

    /// Puts a finished colony back: buries the ants marked for despawn,
    /// runs the spawn accumulator, and reinserts the colony in the list.
    #[verifier::rlimit(100)]
    #[verifier::spinoff_prover]
    fn finish_colony_run(&mut self, run: ColonyRun, dt: u32)
        requires
            old(self).wf(),
            old(self).mid_tick(),
            !old(self).has_pending(),
            match old(self).progress {
                Some(p) => p.dt_ms == dt && p.current is None,
                None => false,
            },
            1 <= dt <= 10_000,
            run.colony.wf(old(self).map.width as int, old(self).map.height as int),
            run.colony.keys_below_next(old(self).map),
            run.colony.ants_tracked(old(self).map),
            forall|i: int| 0 <= i < old(self).colonies.len()
                ==> (#[trigger] old(self).colonies[i]).colony_id != run.colony.colony_id,
        ensures
            final(self).wf(),
            final(self).mid_tick(),
            !final(self).has_pending(),
            final(self).tick == old(self).tick,
            match final(self).progress {
                Some(p) => p.dt_ms == dt && p.current is None && p.order@ == match old(self).progress {
                    Some(p0) => p0.order@,
                    None => p.order@,
                },
                None => false,
            },
            forall|cid: u32| has_colony_id(*final(self), cid)
                == (has_colony_id(*old(self), cid) || cid == run.colony.colony_id),
            crate::map::tick_tile_evolution(old(self).map.tiles@, final(self).map.tiles@),
    {
        let mut colony = run.colony;
        let to_despawn = run.to_despawn;
        let ghost cid = colony.colony_id;
        let nd = to_despawn.len();
        let mut i: usize = 0;
        while i < nd
            invariant
                i <= nd,
                nd == to_despawn.len(),
                self.map.wf(),
                colony.wf(self.map.width as int, self.map.height as int),
                colony.keys_below_next(self.map),
                colony.ants_tracked(self.map),
                colony.colony_id == cid,
                forall|a: int| 0 <= a < self.colonies.len()
                    ==> self.colony_ok(#[trigger] self.colonies[a]),
                forall|a: int, b: int| 0 <= a < b < self.colonies.len()
                    ==> self.colonies[a].colony_id != self.colonies[b].colony_id,
                forall|a: int| 0 <= a < self.colonies.len()
                    ==> (#[trigger] self.colonies[a]).colony_id != cid,
                self.colonies@ == old(self).colonies@,
                self.progress == old(self).progress,
                self.is_paused == old(self).is_paused,
                self.tick == old(self).tick,
                crate::map::tick_tile_evolution(old(self).map.tiles@, self.map.tiles@),
            decreases nd - i,
        {
            let ghost mprev = self.map;
            let ghost colony_pre = colony;
            colony.despawn_ant(to_despawn[i], &mut self.map);
            proof {
                assert forall|a: int| 0 <= a < self.colonies.len()
                    implies self.colony_ok(#[trigger] self.colonies[a]) by {
                    crate::colony::lemma_other_colony_ok(self.colonies[a], mprev, self.map, cid);
                }
                assert(crate::map::tick_tile_evolution(mprev.tiles@, self.map.tiles@)) by {
                    let key = to_despawn@[i as int];
                    if exists|ii: int| 0 <= ii < colony_pre.ants.len()
                        && (#[trigger] colony_pre.ants@[ii]).key == key {
                        let ii = choose|ii: int| 0 <= ii < colony_pre.ants.len()
                            && (#[trigger] colony_pre.ants@[ii]).key == key;
                        let p = colony_pre.ants@[ii].ant.pos;
                        let cx = p.x as int / (MILLI as int);
                        let cy = p.y as int / (MILLI as int);
                        assert(colony_pre.ants@[ii].ant.wf(mprev.width as int,
                            mprev.height as int));
                        crate::ant::lemma_pos_cell_bounds(p, mprev.width as int,
                            mprev.height as int);
                        crate::pheromone::lemma_cell_index_in_range(mprev.width as int,
                            mprev.height as int, cx, cy);
                    }
                };
                crate::map::lemma_tile_evolution_trans(old(self).map.tiles@, mprev.tiles@,
                    self.map.tiles@);
            }
            i = i + 1;
        }
        let ghost mprev = self.map;
        colony.run_spawn_accumulator(&mut self.map, &mut self.rng, dt);
        proof {
            assert forall|a: int| 0 <= a < self.colonies.len()
                implies self.colony_ok(#[trigger] self.colonies[a]) by {
                crate::colony::lemma_other_colony_ok(self.colonies[a], mprev, self.map, cid);
            }
        }
        let ghost cs0 = self.colonies@;
        self.colonies.push(colony);
        proof {
            assert forall|a: int| 0 <= a < self.colonies.len()
                implies self.colony_ok(#[trigger] self.colonies[a]) by {
                if a < cs0.len() {
                    assert(self.colonies[a] == cs0[a]);
                }
            }
            assert forall|a: int, b: int| 0 <= a < b < self.colonies.len()
                implies (#[trigger] self.colonies[a]).colony_id
                    != (#[trigger] self.colonies[b]).colony_id by {
                assert(self.colonies[a] == cs0[a]);
                if b < cs0.len() {
                    assert(self.colonies[b] == cs0[b]);
                }
            }
            assert forall|cid: u32| has_colony_id(*self, cid)
                == (has_colony_id(*old(self), cid) || cid == run.colony.colony_id) by {
                if exists|i: int| 0 <= i < self.colonies.len()
                    && (#[trigger] self.colonies[i]).colony_id == cid {
                    let i = choose|i: int| 0 <= i < self.colonies.len()
                        && (#[trigger] self.colonies[i]).colony_id == cid;
                    if i < cs0.len() {
                        assert(old(self).colonies[i].colony_id == cid);
                    }
                }
                if exists|i: int| 0 <= i < old(self).colonies.len()
                    && (#[trigger] old(self).colonies[i]).colony_id == cid {
                    let i = choose|i: int| 0 <= i < old(self).colonies.len()
                        && (#[trigger] old(self).colonies[i]).colony_id == cid;
                    assert(self.colonies[i].colony_id == cid);
                }
                if cid == run.colony.colony_id {
                    assert(self.colonies[cs0.len() as int].colony_id == cid);
                }
            }
        }
    }

    /// Steps the ant under the cursor of the colony in flight: ages and
    /// checks it (marking the dead for burial), then runs its pre-think
    /// step. Returns the think request if its brain must be consulted
    /// (leaving the think pending); otherwise the cursor advances.
    #[verifier::rlimit(100)]
    #[verifier::spinoff_prover]
    fn step_current_ant(&mut self, dt: u32) -> (r: Option<(u32, AntRequest)>)
        requires
            old(self).wf(),
            !old(self).has_pending(),
            match old(self).progress {
                Some(p) => p.dt_ms == dt && match p.current {
                    Some(run) => run.cursor < run.keys.len(),
                    None => false,
                },
                None => false,
            },
            1 <= dt <= 10_000,
        ensures
            final(self).wf(),
            final(self).mid_tick(),
            final(self).tick == old(self).tick,
            forall|cid: u32| has_colony_id(*final(self), cid) == has_colony_id(*old(self), cid),
            crate::map::tick_tile_evolution(old(self).map.tiles@, final(self).map.tiles@),
            match final(self).progress {
                Some(p) => p.dt_ms == dt && match p.current {
                    Some(run) => {
                        &&& (r is Some ==> run.pending is Some)
                        &&& (r is None ==> run.pending is None
                                && run.keys@ == tick_run_keys(*old(self))
                                && run.cursor == tick_run_cursor(*old(self)) + 1)
                        &&& p.order@ == match old(self).progress {
                            Some(p0) => p0.order@,
                            None => p.order@,
                        }
                    },
                    None => false,
                },
                None => false,
            },
    {
        let run_opt = match &mut self.progress {
            Some(p) => p.current.take(),
            None => None,
        };
        let mut run = match run_opt {
            Some(run) => run,
            None => {
                proof {
                    assert(false);
                }
                return None;
            },
        };
        let mut request: Option<(u32, AntRequest)> = None;
        let ghost others0 = self.colonies@;
        let key = run.keys[run.cursor];
        match crate::colony::find_ant(&run.colony, key) {
            None => {
                run.cursor = run.cursor + 1;
            },
            Some(idx) => {
                let ghost mprev = self.map;
                let ghost cid = run.colony.colony_id;
                let dead = run.colony.age_and_check(idx, &mut self.map, dt);
                proof {
                    crate::map::lemma_tracking_all_preserved(mprev, self.map);
                    assert forall|a: int| 0 <= a < self.colonies.len()
                        implies (#[trigger] self.colonies[a]).wf(
                            self.map.width as int, self.map.height as int)
                            && self.colonies[a].keys_below_next(self.map)
                            && self.colonies[a].ants_tracked(self.map) by {
                        crate::colony::lemma_other_colony_ok(self.colonies[a],
                            mprev, self.map, cid);
                    }
                }
                if dead {
                    run.to_despawn.push(key);
                    run.cursor = run.cursor + 1;
                } else {
                    let pre = run.colony.ant_prestep(idx, &mut self.map,
                        &mut self.colonies, &mut self.rng, dt);
                    match pre {
                        Some((req, cand)) => {
                            run.pending = Some(PendingThink { key, candidate: cand });
                            request = Some((run.colony.colony_id, req));
                        },
                        None => {
                            run.cursor = run.cursor + 1;
                        },
                    }
                }
            },
        }
        proof {
            assert forall|a: int| 0 <= a < self.colonies.len()
                implies self.colony_ok(#[trigger] self.colonies[a])
                    && self.colonies@[a].colony_id == others0[a].colony_id by {
                if self.colonies@ =~= others0 {
                } else {
                    assert(crate::colony::colony_combat_frame(others0[a], self.colonies@[a]));
                }
            }
            assert forall|a: int, b: int| 0 <= a < b < self.colonies.len()
                implies (#[trigger] self.colonies[a]).colony_id
                    != (#[trigger] self.colonies[b]).colony_id by {
                assert(self.colonies@[a].colony_id == others0[a].colony_id);
                assert(self.colonies@[b].colony_id == others0[b].colony_id);
            }
        }
        match &mut self.progress {
            Some(p) => {
                p.current = Some(run);
            },
            None => {},
        }
        proof {
            assert forall|cid: u32| has_colony_id(*self, cid)
                == has_colony_id(*old(self), cid) by {
                if exists|i: int| 0 <= i < self.colonies.len()
                    && (#[trigger] self.colonies[i]).colony_id == cid {
                    let i = choose|i: int| 0 <= i < self.colonies.len()
                        && (#[trigger] self.colonies[i]).colony_id == cid;
                    assert(old(self).colonies[i].colony_id == cid);
                }
                if exists|i: int| 0 <= i < old(self).colonies.len()
                    && (#[trigger] old(self).colonies[i]).colony_id == cid {
                    let i = choose|i: int| 0 <= i < old(self).colonies.len()
                        && (#[trigger] old(self).colonies[i]).colony_id == cid;
                    assert(self.colonies[i].colony_id == cid);
                }
            }
        }
        request
    }

    /// Drives the open tick forward: colonies are taken up in the
    /// shuffled order, each ant is aged, checked and stepped, and as soon
    /// as an ant needs its brain, the request is handed out (feed the
    /// outcome back with `tick_supply`). When the last colony completes,
    /// the tick is closed and counted.
    #[verifier::rlimit(100)]
    #[verifier::spinoff_prover]
    pub fn tick_event(&mut self) -> (r: TickEvent)
        requires
            old(self).wf(),
            !old(self).has_pending(),
        ensures
            final(self).wf(),
            // the tick moves colonies between the list and the in-flight
            // slot, but never loses or invents one
            forall|cid: u32| has_colony_id(*final(self), cid) == has_colony_id(*old(self), cid),
            // terrain changes only as ant food handling allows: walls,
            // nests and placeholder slots are untouched, food only moves
            crate::map::tick_tile_evolution(old(self).map.tiles@, final(self).map.tiles@),
            match r {
                TickEvent::Request(_, _) => final(self).has_pending(),
                TickEvent::TickDone => !final(self).mid_tick()
                    && final(self).tick == if old(self).tick < u32::MAX {
                        old(self).tick + 1
                    } else {
                        u32::MAX as int
                    },
                TickEvent::Idle => !final(self).mid_tick() && *final(self) == *old(self),
            },
    {
        let dt: u32 = match &self.progress {
            Some(p) => p.dt_ms,
            None => {
                return TickEvent::Idle;
            },
        };
        loop
            invariant
                self.wf(),
                self.mid_tick(),
                !self.has_pending(),
                self.tick == old(self).tick,
                1 <= dt <= 10_000,
                forall|cid: u32| has_colony_id(*self, cid) == has_colony_id(*old(self), cid),
                crate::map::tick_tile_evolution(old(self).map.tiles@, self.map.tiles@),
                match self.progress {
                    Some(p) => p.dt_ms == dt,
                    None => false,
                },
            decreases
                (match self.progress {
                    Some(p) => p.order.len() as int,
                    None => 0int,
                }),
                (match self.progress {
                    Some(p) => match p.current {
                        Some(run) => run.keys.len() - run.cursor + 1,
                        None => 0int,
                    },
                    None => 0int,
                }),
        {
            let has_current = match &self.progress {
                Some(p) => match &p.current {
                    Some(_) => true,
                    None => false,
                },
                None => false,
            };
            if !has_current {
                let popped: Option<u32> = match &mut self.progress {
                    Some(p) => p.order.pop(),
                    None => None,
                };
                match popped {
                    None => {
                        self.progress = None;
                        self.tick = if self.tick < u32::MAX {
                            self.tick + 1
                        } else {
                            u32::MAX
                        };
                        return TickEvent::TickDone;
                    },
                    Some(id) => {
                        self.begin_colony_run(id, dt);
                    },
                }
            } else {
                let at_end = match &self.progress {
                    Some(p) => match &p.current {
                        Some(run) => run.cursor >= run.keys.len(),
                        None => true,
                    },
                    None => true,
                };
                if at_end {
                    let ghost before = *self;
                    let run_opt = match &mut self.progress {
                        Some(p) => p.current.take(),
                        None => None,
                    };
                    match run_opt {
                        Some(run) => {
                            let ghost taken = *self;
                            self.finish_colony_run(run, dt);
                            proof {
                                assert forall|cid: u32| has_colony_id(*self, cid)
                                    == has_colony_id(before, cid) by {
                                    assert(has_colony_id(*self, cid)
                                        == (has_colony_id(taken, cid)
                                            || cid == run.colony.colony_id));
                                }
                            }
                        },
                        None => {},
                    }
                } else {
                    match self.step_current_ant(dt) {
                        Some((colony_id, req)) => {
                            return TickEvent::Request(colony_id, req);
                        },
                        None => {},
                    }
                }
            }
        }
    }

    /// Feeds one brain exchange's outcome back into the open tick: the
    /// waiting ant is killed on a deadline violation, skipped on a failed
    /// transport, and otherwise applies its sanitized output (memory,
    /// pheromones, attack wish, fight or turn, then movement).
    #[verifier::rlimit(100)]
    #[verifier::spinoff_prover]
    pub fn tick_supply(&mut self, outcome: ThinkOutcome)
        requires
            old(self).wf(),
            old(self).has_pending(),
        ensures
            final(self).wf(),
            !final(self).has_pending(),
            final(self).mid_tick(),
            final(self).tick == old(self).tick,
            forall|cid: u32| has_colony_id(*final(self), cid) == has_colony_id(*old(self), cid),
            final(self).map.tiles@ == old(self).map.tiles@,
            // the waiting ant receives the exchange's outcome: a deadline
            // violation kills it (all else untouched), a failed transport
            // skips the think, an accepted response stores its memory and
            // attack wish; every other ant of the colony in flight keeps
            // its exact state
            match (old(self).progress, final(self).progress) {
                (Some(p0), Some(p1)) => match (p0.current, p1.current) {
                    (Some(r0), Some(r1)) => {
                        let key = r0.pending->Some_0.key;
                        let timeout = outcome.elapsed_nanos > crate::MAX_ANT_PROCESSING_TIME_NANOS;
                        &&& r1.colony.ants.len() == r0.colony.ants.len()
                        &&& forall|i: int| 0 <= i < r0.colony.ants.len() ==> {
                            &&& (#[trigger] r1.colony.ants[i]).key == r0.colony.ants[i].key
                            &&& (r0.colony.ants[i].key != key
                                    ==> r1.colony.ants[i] == r0.colony.ants[i])
                            &&& (r0.colony.ants[i].key == key && timeout
                                    ==> r1.colony.ants[i].ant.longevity == 0
                                        && crate::ant::unchanged_but_longevity(
                                            r0.colony.ants[i].ant, r1.colony.ants[i].ant))
                            &&& (r0.colony.ants[i].key == key && !timeout
                                    && outcome.response is None
                                    ==> crate::ant::same_ant_state(r0.colony.ants[i].ant,
                                        r1.colony.ants[i].ant))
                            &&& (r0.colony.ants[i].key == key && !timeout
                                    && outcome.response is Some
                                    ==> r1.colony.ants[i].ant.memory
                                        == outcome.response->Some_0.memory
                                        && r1.colony.ants[i].ant.try_attack
                                            == outcome.response->Some_0.output.try_attack)
                        }
                    },
                    _ => false,
                },
                _ => false,
            },
    {
        let dt: u32 = match &self.progress {
            Some(p) => p.dt_ms,
            None => {
                proof {
                    assert(false);
                }
                return;
            },
        };
        match &mut self.progress {
            Some(p) => {
                match &mut p.current {
                    Some(run) => {
                        let pend = run.pending.take();
                        match pend {
                            Some(pt) => {
                                match crate::colony::find_ant(&run.colony, pt.key) {
                                    Some(idx) => {
                                        let ghost cid = run.colony.colony_id;
                                        let ghost others0 = self.colonies@;
                                        run.colony.ant_apply_think(idx, &mut self.map,
                                            &mut self.colonies, dt, outcome.elapsed_nanos,
                                            &outcome.response, &pt.candidate);
                                        proof {
                                            assert(crate::colony::combat_frame(others0, self.colonies@));
                                            assert forall|a: int| 0 <= a < self.colonies.len()
                                                implies (#[trigger] self.colonies[a]).colony_id
                                                    == others0[a].colony_id by {
                                                assert(crate::colony::colony_combat_frame(others0[a],
                                                    self.colonies@[a]));
                                            }
                                        }
                                        run.cursor = run.cursor + 1;
                                    },
                                    None => {
                                        run.cursor = run.cursor + 1;
                                    },
                                }
                            },
                            None => {
                                proof {
                                    assert(false);
                                }
                            },
                        }
                    },
                    None => {
                        proof {
                            assert(false);
                        }
                    },
                }
            },
            None => {
                proof {
                    assert(false);
                }
            },
        }
    }
}

impl Simulation {
    /// Re-derives every resting colony's invariants after a map edit that
    /// left the spatial index untouched cell by cell.
    proof fn lemma_edit_preserves_colonies(self, mprev: GameMap)
        requires
            mprev.wf(),
            self.map.width == mprev.width,
            self.map.height == mprev.height,
            crate::map::cells_eq(mprev, self.map),
            forall|i: int| 0 <= i < self.colonies.len() ==> {
                &&& (#[trigger] self.colonies[i]).wf(mprev.width as int, mprev.height as int)
                &&& self.colonies[i].keys_below_next(mprev)
                &&& self.colonies[i].ants_tracked(mprev)
            },
        ensures
            forall|i: int| 0 <= i < self.colonies.len()
                ==> self.colony_ok(#[trigger] self.colonies[i]),
    {
        assert forall|i: int| 0 <= i < self.colonies.len()
            implies self.colony_ok(#[trigger] self.colonies[i]) by {
            crate::colony::lemma_colony_ok_cells_eq(self.colonies[i], mprev, self.map);
        }
    }

    /// Overwrites a tile with food.
    pub fn place_food_at(&mut self, x: u32, y: u32, amount: u32)
        requires
            old(self).wf(),
            !old(self).mid_tick(),
        ensures
            final(self).wf(),
            !final(self).mid_tick(),
            old(self).map.cell_in_bounds(x as int, y as int)
                ==> final(self).map.tiles@ == old(self).map.tiles@.update(
                    old(self).map.idx_of(x as int, y as int),
                    crate::terrain::Tile { terrain: Terrain::Food(amount) }),
            !old(self).map.cell_in_bounds(x as int, y as int)
                ==> final(self).map.tiles@ == old(self).map.tiles@,
            final(self).colonies@ == old(self).colonies@,
    {
        let ghost mprev = self.map;
        self.map.place_food_at(x, y, amount);
        proof {
            self.lemma_edit_preserves_colonies(mprev);
        }
    }

    /// Clears a tile back to open ground.
    pub fn remove_terrain_at(&mut self, x: u32, y: u32)
        requires
            old(self).wf(),
            !old(self).mid_tick(),
        ensures
            final(self).wf(),
            !final(self).mid_tick(),
            old(self).map.cell_in_bounds(x as int, y as int)
                ==> final(self).map.tiles@ == old(self).map.tiles@.update(
                    old(self).map.idx_of(x as int, y as int),
                    crate::terrain::Tile { terrain: Terrain::Empty }),
            !old(self).map.cell_in_bounds(x as int, y as int)
                ==> final(self).map.tiles@ == old(self).map.tiles@,
            final(self).colonies@ == old(self).colonies@,
    {
        let ghost mprev = self.map;
        self.map.remove_terrain_at(x, y);
        proof {
            self.lemma_edit_preserves_colonies(mprev);
        }
    }

    /// Reserves an empty tile as a colony slot; on success the simulation
    /// pauses (a reserved slot must be filled before play resumes).
    pub fn place_nest_placeholder_at(&mut self, x: u32, y: u32) -> (r: bool)
        requires
            old(self).wf(),
            !old(self).mid_tick(),
        ensures
            final(self).wf(),
            !final(self).mid_tick(),
            r ==> final(self).is_paused,
            !r ==> final(self).is_paused == old(self).is_paused,
            final(self).colonies@ == old(self).colonies@,
    {
        let ghost mprev = self.map;
        let placed = self.map.place_nest_placeholder_at(x, y);
        proof {
            self.lemma_edit_preserves_colonies(mprev);
        }
        if placed {
            self.pause();
            return true;
        }
        false
    }

    /// Places a wall; any ants registered in the walled cell are
    /// respawned at their home nests. Cached rays of cells farther than
    /// `INVALIDATE_RADIUS` (Chebyshev) from the wall keep their exact bits.
    #[verifier::rlimit(100)]
    #[verifier::spinoff_prover]
    /// Places a wall; any ants registered in the walled cell are
    /// respawned at their home nests. Cached rays of cells farther than
    /// `INVALIDATE_RADIUS` (Chebyshev) from the wall keep their exact bits.
    pub fn place_wall_at(&mut self, x: u32, y: u32)
        requires
            old(self).wf(),
            !old(self).mid_tick(),
        ensures
            final(self).wf(),
            !final(self).mid_tick(),
            old(self).map.cell_in_bounds(x as int, y as int)
                ==> final(self).map.terrain_at(x as int, y as int) == Terrain::Wall,
            // every ant that stood in the walled cell is replaced: its key
            // is gone from its colony, a fresh ant having been seeded at
            // the nest in its stead (colonies with an exhausted key
            // counter aside)
            old(self).map.cell_in_bounds(x as int, y as int)
                ==> forall|j: int, i: int|
                    #![trigger old(self).map.cell_refs(x as int, y as int)[j],
                        old(self).colonies[i]]
                    0 <= j < old(self).map.cell_refs(x as int, y as int).len()
                    && 0 <= i < old(self).colonies.len()
                    && old(self).colonies[i].colony_id
                        == old(self).map.cell_refs(x as int, y as int)[j].colony_id
                    ==> crate::colony::key_absent(final(self).colonies@[i],
                        old(self).map.cell_refs(x as int, y as int)[j].key),
            final(self).colonies.len() == old(self).colonies.len(),
            forall|i: int| 0 <= i < old(self).colonies.len()
                ==> (#[trigger] final(self).colonies[i]).colony_id
                    == old(self).colonies[i].colony_id,
    {
        if x >= self.map.width || y >= self.map.height {
            return;
        }
        proof {
            crate::pheromone::lemma_cell_index_in_range(self.map.width as int,
                self.map.height as int, x as int, y as int);
            assert forall|j: int, i: int|
                #![trigger old(self).map.cell_refs(x as int, y as int)[j], old(self).colonies[i]]
                0 <= j < old(self).map.cell_refs(x as int, y as int).len()
                && 0 <= i < old(self).colonies.len()
                && old(self).colonies[i].colony_id
                    == old(self).map.cell_refs(x as int, y as int)[j].colony_id
                implies old(self).map.cell_refs(x as int, y as int)[j].key
                    < old(self).colonies[i].next_key by {
                assert(old(self).colonies[i].keys_below_next(old(self).map));
                assert(old(self).map.cell_refs(x as int, y as int).contains(
                    old(self).map.cell_refs(x as int, y as int)[j]));
            }
        }
        let to_respawn = self.wall_tile_collecting_ants(x, y);
        self.respawn_displaced_ants(to_respawn, x, y);
    }

    /// Respawns each displaced ant in turn, keeping the freshly placed
    /// wall in place.
    #[verifier::rlimit(100)]
    #[verifier::spinoff_prover]
    fn respawn_displaced_ants(&mut self, to_respawn: Vec<AntRef>, x: u32, y: u32)
        requires
            old(self).wf(),
            !old(self).mid_tick(),
            old(self).map.cell_in_bounds(x as int, y as int),
            old(self).map.terrain_at(x as int, y as int) == Terrain::Wall,
            forall|j: int, i: int| #![trigger to_respawn[j], old(self).colonies[i]]
                0 <= j < to_respawn.len() && 0 <= i < old(self).colonies.len()
                && old(self).colonies[i].colony_id == to_respawn[j].colony_id
                ==> to_respawn[j].key < old(self).colonies[i].next_key,
        ensures
            final(self).wf(),
            !final(self).mid_tick(),
            final(self).map.width == old(self).map.width,
            final(self).map.height == old(self).map.height,
            final(self).map.terrain_at(x as int, y as int) == Terrain::Wall,
            final(self).is_paused == old(self).is_paused,
            final(self).colonies.len() == old(self).colonies.len(),
            forall|i: int| 0 <= i < old(self).colonies.len()
                ==> (#[trigger] final(self).colonies[i]).colony_id
                    == old(self).colonies[i].colony_id,
            forall|j: int, i: int| #![trigger to_respawn[j], old(self).colonies[i]]
                0 <= j < to_respawn.len() && 0 <= i < old(self).colonies.len()
                && old(self).colonies[i].colony_id == to_respawn[j].colony_id
                ==> crate::colony::key_absent(final(self).colonies@[i], to_respawn[j].key),
    {
        let n = to_respawn.len();
        let mut k: usize = 0;
        while k < n
            invariant
                k <= n,
                self.wf(),
                !self.mid_tick(),
                self.map.width == old(self).map.width,
                self.map.height == old(self).map.height,
                self.is_paused == old(self).is_paused,
                n == to_respawn.len(),
                self.map.cell_in_bounds(x as int, y as int),
                self.map.terrain_at(x as int, y as int) == Terrain::Wall,
                self.colonies.len() == old(self).colonies.len(),
                forall|i: int| 0 <= i < old(self).colonies.len()
                    ==> (#[trigger] self.colonies[i]).colony_id
                        == old(self).colonies[i].colony_id
                        && self.colonies[i].next_key >= old(self).colonies[i].next_key,
                forall|j: int, i: int| #![trigger to_respawn[j], old(self).colonies[i]]
                    0 <= j < k && 0 <= i < old(self).colonies.len()
                    && old(self).colonies[i].colony_id == to_respawn[j].colony_id
                    && to_respawn[j].key < old(self).colonies[i].next_key
                    ==> crate::colony::key_absent(self.colonies@[i], to_respawn[j].key),
            decreases n - k,
        {
            let ant_ref = to_respawn[k];
            let ghost tiles_before = self.map.tiles@;
            let ghost cs_before = self.colonies@;
            self.respawn_displaced_ant(ant_ref);
            proof {
                let wi = (y as int) * (self.map.width as int) + x;
                crate::pheromone::lemma_cell_index_in_range(self.map.width as int,
                    self.map.height as int, x as int, y as int);
                assert(self.map.tiles[wi] == tiles_before[wi]
                    || (self.map.tiles[wi].terrain is Food && !(tiles_before[wi].terrain is Wall)));
                assert forall|j: int, i: int| #![trigger to_respawn[j], old(self).colonies[i]]
                    0 <= j < k + 1 && 0 <= i < old(self).colonies.len()
                    && old(self).colonies[i].colony_id == to_respawn[j].colony_id
                    && to_respawn[j].key < old(self).colonies[i].next_key
                    implies crate::colony::key_absent(self.colonies@[i], to_respawn[j].key) by {
                    if j < k {
                        assert(crate::colony::key_absent(cs_before[i], to_respawn[j].key));
                        assert(to_respawn[j].key < cs_before[i].next_key);
                    } else {
                        assert(to_respawn[j] == ant_ref);
                    }
                }
            }
            k = k + 1;
        }
    }

    /// Walls the tile at `(x, y)` and reports which ants were registered
    /// there (they must be respawned, lest they stand inside the wall).
    #[verifier::rlimit(100)]
    #[verifier::spinoff_prover]
    fn wall_tile_collecting_ants(&mut self, x: u32, y: u32) -> (r: Vec<AntRef>)
        requires
            old(self).wf(),
            !old(self).mid_tick(),
            old(self).map.cell_in_bounds(x as int, y as int),
        ensures
            final(self).wf(),
            !final(self).mid_tick(),
            final(self).map.width == old(self).map.width,
            final(self).map.height == old(self).map.height,
            final(self).map.terrain_at(x as int, y as int) == Terrain::Wall,
            final(self).is_paused == old(self).is_paused,
            r@ == old(self).map.cell_refs(x as int, y as int),
            final(self).colonies@ == old(self).colonies@,
    {
        proof {
            crate::pheromone::lemma_cell_index_in_range(self.map.width as int,
                self.map.height as int, x as int, y as int);
        }
        let idx: usize = (y as usize) * (self.map.width as usize) + (x as usize);
        let m = self.map.ants_in_cell[idx].len();
        let mut to_respawn: Vec<AntRef> = Vec::new();
        let mut i: usize = 0;
        while i < m
            invariant
                i <= m,
                m == self.map.ants_in_cell[idx as int]@.len(),
                to_respawn.len() == i,
                idx < self.map.ants_in_cell.len(),
                forall|j: int| 0 <= j < i
                    ==> #[trigger] to_respawn@[j] == self.map.ants_in_cell[idx as int]@[j],
            decreases m - i,
        {
            to_respawn.push(self.map.ants_in_cell[idx][i]);
            i = i + 1;
        }
        proof {
            assert(to_respawn@ =~= old(self).map.cell_refs(x as int, y as int));
        }
        let ghost mprev = self.map;
        self.map.place_wall_at(x, y);
        proof {
            self.lemma_edit_preserves_colonies(mprev);
            crate::pheromone::lemma_cell_index_in_range(self.map.width as int,
                self.map.height as int, x as int, y as int);
        }
        to_respawn
    }

    /// Respawns one displaced ant (identified by reference) at its home
    /// nest; unknown colonies or exhausted key counters are skipped. The
    /// ray cache keeps its exact bits (nothing here can touch a wall).
    #[verifier::rlimit(100)]
    #[verifier::spinoff_prover]
    fn respawn_displaced_ant(&mut self, ant_ref: AntRef)
        requires
            old(self).wf(),
            !old(self).mid_tick(),
        ensures
            final(self).wf(),
            !final(self).mid_tick(),
            final(self).map.width == old(self).map.width,
            final(self).map.height == old(self).map.height,
            forall|i: int| 0 <= i < old(self).map.tiles.len()
                ==> #[trigger] final(self).map.tiles[i] == old(self).map.tiles[i]
                    || (final(self).map.tiles[i].terrain is Food
                        && !(old(self).map.tiles[i].terrain is Wall)),
            final(self).map.rc_cache == old(self).map.rc_cache,
            final(self).is_paused == old(self).is_paused,
            final(self).colonies.len() == old(self).colonies.len(),
            forall|i: int| 0 <= i < old(self).colonies.len()
                ==> (#[trigger] final(self).colonies[i]).colony_id
                    == old(self).colonies[i].colony_id
                    && final(self).colonies[i].next_key >= old(self).colonies[i].next_key,
            // the displaced key is gone from its colony afterwards
            forall|i: int| 0 <= i < old(self).colonies.len()
                && (#[trigger] old(self).colonies[i]).colony_id == ant_ref.colony_id
                && ant_ref.key < old(self).colonies[i].next_key
                ==> crate::colony::key_absent(final(self).colonies@[i], ant_ref.key),
            // keys already absent and below the counter never resurface
            forall|i: int, k: u64| #![trigger crate::colony::key_absent(old(self).colonies@[i], k)]
                0 <= i < old(self).colonies.len()
                && crate::colony::key_absent(old(self).colonies@[i], k)
                && k < old(self).colonies[i].next_key
                ==> crate::colony::key_absent(final(self).colonies@[i], k),
    {
        match crate::colony::find_colony(&self.colonies, ant_ref.colony_id) {
            None => {},
            Some(ci) => {
                let key_left = self.colonies[ci].next_key < u64::MAX;
                {
                    let ghost cs0 = self.colonies@;
                    let ghost mbefore = self.map;
                    let ghost cid = cs0[ci as int].colony_id;
                    let colony = &mut self.colonies[ci];
                    if key_left {
                        colony.respawn_ant(ant_ref.key, &mut self.map, &mut self.rng);
                    } else {
                        // no fresh key can be drawn: the walled-in ant is
                        // buried without a replacement
                        colony.despawn_ant(ant_ref.key, &mut self.map);
                    }
                    proof {
                        assert forall|a: int| 0 <= a < self.colonies.len() && a != ci
                            implies self.colony_ok(#[trigger] self.colonies[a]) by {
                            assert(self.colonies[a] == cs0[a]);
                            crate::colony::lemma_other_colony_ok(self.colonies[a],
                                mbefore, self.map, cid);
                        }
                        assert forall|a: int, b: int| 0 <= a < b < self.colonies.len()
                            implies (#[trigger] self.colonies[a]).colony_id
                                != (#[trigger] self.colonies[b]).colony_id by {
                            if a != ci && b != ci {
                                assert(self.colonies[a] == cs0[a]);
                                assert(self.colonies[b] == cs0[b]);
                            } else if a == ci {
                                assert(self.colonies[b] == cs0[b]);
                            } else {
                                assert(self.colonies[a] == cs0[a]);
                            }
                        }
                    }
                }
            },
        }
    }

    /// Removes a colony: its ants leave the spatial index and its nest
    /// tile is cleared.
    #[verifier::rlimit(100)]
    #[verifier::spinoff_prover]
    pub fn remove_colony(&mut self, colony_id: u32) -> (r: bool)
        requires
            old(self).wf(),
            !old(self).mid_tick(),
        ensures
            final(self).wf(),
            !final(self).mid_tick(),
            r == (exists|i: int| 0 <= i < old(self).colonies.len()
                && (#[trigger] old(self).colonies[i]).colony_id == colony_id),
            forall|i: int| 0 <= i < final(self).colonies.len()
                ==> (#[trigger] final(self).colonies[i]).colony_id != colony_id,
            // the removed colony's references leave every index cell
            r ==> forall|gx: int, gy: int, rr: AntRef|
                final(self).map.cell_in_bounds(gx, gy) && rr.colony_id == colony_id
                ==> !(#[trigger] final(self).map.cell_refs(gx, gy).contains(rr)),
            // its nest tile is cleared when it still bore this colony's nest
            forall|i: int| 0 <= i < old(self).colonies.len()
                && (#[trigger] old(self).colonies[i]).colony_id == colony_id
                && old(self).map.terrain_at(
                    old(self).colonies[i].pos.x as int / (MILLI as int),
                    old(self).colonies[i].pos.y as int / (MILLI as int)) == Terrain::Nest(colony_id)
                ==> final(self).map.terrain_at(
                    old(self).colonies[i].pos.x as int / (MILLI as int),
                    old(self).colonies[i].pos.y as int / (MILLI as int)) == Terrain::Empty,
    {
        let ci = match crate::colony::find_colony(&self.colonies, colony_id) {
            Some(ci) => ci,
            None => {
                return false;
            },
        };
        let ghost cs0 = self.colonies@;
        let colony = self.colonies.remove(ci);
        proof {
            assert forall|a: int| 0 <= a < self.colonies.len()
                implies self.colony_ok(#[trigger] self.colonies[a])
                    && self.colonies[a].colony_id != colony_id by {
                if a < ci {
                    assert(self.colonies[a] == cs0[a]);
                } else {
                    assert(self.colonies[a] == cs0[a + 1]);
                }
            }
            assert forall|a: int, b: int| 0 <= a < b < self.colonies.len()
                implies (#[trigger] self.colonies[a]).colony_id
                    != (#[trigger] self.colonies[b]).colony_id by {
                let a0 = if a < ci { a } else { a + 1 };
                let b0 = if b < ci { b } else { b + 1 };
                assert(self.colonies[a] == cs0[a0]);
                assert(self.colonies[b] == cs0[b0]);
            }
        }
        let ghost m0 = self.map;
        self.map.remove_colony_ants(colony_id);
        proof {
            assert forall|a: int| 0 <= a < self.colonies.len()
                implies self.colony_ok(#[trigger] self.colonies[a]) by {
                let c = self.colonies[a];
                assert(c.colony_id != colony_id);
                assert forall|c2: int, r2: AntRef| 0 <= c2 < m0.ants_in_cell.len()
                    && r2.colony_id != colony_id
                    implies #[trigger] self.map.ants_in_cell[c2]@.contains(r2)
                        == m0.ants_in_cell[c2]@.contains(r2) by {
                }
                assert forall|r2: AntRef, p2: Pos| r2.colony_id != colony_id
                    implies #[trigger] crate::map::tracked_exactly(self.map, r2, p2)
                        == crate::map::tracked_exactly(m0, r2, p2) by {
                    let px = p2.x as int / (MILLI as int);
                    let py = p2.y as int / (MILLI as int);
                    if m0.cell_in_bounds(px, py) {
                        assert forall|gx: int, gy: int| m0.cell_in_bounds(gx, gy)
                            implies (#[trigger] self.map.cell_refs(gx, gy)).contains(r2)
                                == m0.cell_refs(gx, gy).contains(r2) by {
                            crate::pheromone::lemma_cell_index_in_range(m0.width as int,
                                m0.height as int, gx, gy);
                        }
                        assert forall|gx: int, gy: int| m0.cell_in_bounds(gx, gy)
                            implies (#[trigger] m0.cell_refs(gx, gy)).contains(r2)
                                == self.map.cell_refs(gx, gy).contains(r2) by {
                            crate::pheromone::lemma_cell_index_in_range(m0.width as int,
                                m0.height as int, gx, gy);
                        }
                        if crate::map::tracked_exactly(m0, r2, p2) {
                            assert(crate::map::tracked_exactly(self.map, r2, p2));
                        }
                        if crate::map::tracked_exactly(self.map, r2, p2) {
                            assert(crate::map::tracked_exactly(m0, r2, p2));
                        }
                    }
                }
                crate::colony::lemma_other_colony_ok(c, m0, self.map, colony_id);
            }
        }
        proof {
            crate::ant::lemma_pos_cell_bounds(colony.pos, self.map.width as int,
                self.map.height as int);
            assert forall|gx: int, gy: int, rr: AntRef|
                self.map.cell_in_bounds(gx, gy) && rr.colony_id == colony_id
                implies !(#[trigger] self.map.cell_refs(gx, gy).contains(rr)) by {
                crate::pheromone::lemma_cell_index_in_range(self.map.width as int,
                    self.map.height as int, gx, gy);
            }
        }
        let ghost mpurged = self.map;
        let nx = floor_cell(colony.pos.x) as u32;
        let ny = floor_cell(colony.pos.y) as u32;
        let clear_nest = match self.map.get_terrain_at(nx, ny) {
            Some(Terrain::Nest(id)) => id == colony_id,
            _ => false,
        };
        if clear_nest {
            let ghost mprev = self.map;
            self.map.remove_terrain_at(nx, ny);
            proof {
                self.lemma_edit_preserves_colonies(mprev);
            }
        }
        proof {
            // the index purge survives the optional terrain edit
            assert forall|gx: int, gy: int, rr: AntRef|
                self.map.cell_in_bounds(gx, gy) && rr.colony_id == colony_id
                implies !(#[trigger] self.map.cell_refs(gx, gy).contains(rr)) by {
                crate::pheromone::lemma_cell_index_in_range(self.map.width as int,
                    self.map.height as int, gx, gy);
                assert(self.map.ants_in_cell[gy * self.map.width + gx]@
                    == mpurged.ants_in_cell[gy * self.map.width + gx]@);
                assert(!mpurged.cell_refs(gx, gy).contains(rr));
            }
            // the colony with this id was the removed one, so the nest
            // claim concerns exactly its position
            assert forall|i: int| 0 <= i < old(self).colonies.len()
                && (#[trigger] old(self).colonies[i]).colony_id == colony_id
                && old(self).map.terrain_at(
                    old(self).colonies[i].pos.x as int / (MILLI as int),
                    old(self).colonies[i].pos.y as int / (MILLI as int)) == Terrain::Nest(colony_id)
                implies self.map.terrain_at(
                    old(self).colonies[i].pos.x as int / (MILLI as int),
                    old(self).colonies[i].pos.y as int / (MILLI as int)) == Terrain::Empty by {
                if i != ci {
                    if i < ci {
                        assert(old(self).colonies[i].colony_id
                            != old(self).colonies[ci as int].colony_id);
                    } else {
                        assert(old(self).colonies[ci as int].colony_id
                            != old(self).colonies[i].colony_id);
                    }
                }
                crate::ant::lemma_pos_cell_bounds(colony.pos, self.map.width as int,
                    self.map.height as int);
                crate::pheromone::lemma_cell_index_in_range(self.map.width as int,
                    self.map.height as int, colony.pos.x as int / (MILLI as int),
                    colony.pos.y as int / (MILLI as int));
            }
        }
        true
    }

    /// Replaces the map with a fresh empty one of the given size; all
    /// colonies are dropped, the tick count resets, and play pauses.
    pub fn create_new_map(&mut self, width: u32, height: u32)
        requires
            old(self).wf(),
            !old(self).mid_tick(),
            1 <= width <= crate::MAX_MAP_DIM,
            1 <= height <= crate::MAX_MAP_DIM,
        ensures
            final(self).wf(),
            !final(self).mid_tick(),
            final(self).is_paused,
            final(self).tick == 0,
            final(self).colonies.len() == 0,
            final(self).map.width == width,
            final(self).map.height == height,
    {
        self.map = GameMap::new(width, height);
        self.colonies = Vec::new();
        self.tick = 0;
        self.pause();
    }
}

impl Simulation {
    /// Spawns a new colony at `pos`: picks the lowest free id, clears any
    /// placeholder slot at that tile, writes the nest tile, and seeds the
    /// initial population. Fails (changing nothing but the placeholder
    /// slot) when all colony ids are taken or the position is off-map.
    #[verifier::rlimit(100)]
    #[verifier::spinoff_prover]
    pub fn spawn_colony(&mut self, pos: Pos, color: u32, player_config: PlayerConfig,
        decay_rates: &[u32; crate::PHEROMONE_CHANNEL_COUNT]) -> (r: bool)
        requires
            old(self).wf(),
            !old(self).mid_tick(),
        ensures
            final(self).wf(),
            !final(self).mid_tick(),
            r ==> final(self).colonies.len() == old(self).colonies.len() + 1
                && final(self).colonies[old(self).colonies.len() as int].pos == pos
                && final(self).colonies[old(self).colonies.len() as int].color == color,
            !r ==> final(self).colonies@ == old(self).colonies@,
            forall|i: int| 0 <= i < old(self).colonies.len()
                ==> #[trigger] final(self).colonies[i] == old(self).colonies[i],
            final(self).is_paused == old(self).is_paused,
            final(self).tick == old(self).tick,
            final(self).config == old(self).config,
            // success seeds the configured population at the nest tile,
            // now marked with the new colony's id, under the smallest
            // free id; any placeholder slot at that tile is consumed
            r ==> ({
                let new_colony = final(self).colonies[old(self).colonies.len() as int];
                let cx = pos.x as int / (MILLI as int);
                let cy = pos.y as int / (MILLI as int);
                &&& new_colony.ants.len() == old(self).config.colony_initial_population
                &&& new_colony.food_collected == 0
                &&& final(self).map.terrain_at(cx, cy) == Terrain::Nest(new_colony.colony_id)
                &&& forall|id2: u32| id2 < new_colony.colony_id
                        ==> #[trigger] id_taken(old(self).colonies@, id2)
                &&& !final(self).map.placeholder_colony_locations@.contains(
                        crate::map::GameMap::cell_center(cx, cy))
            }),
            // refusal means the position is off the map or no colony slot
            // is free
            !r ==> !pos_in_map(pos, old(self).map.width as int, old(self).map.height as int)
                || old(self).colonies.len() >= MAX_COLONIES
                || forall|id2: u32| id2 < MAX_COLONIES as u32
                    ==> #[trigger] id_taken(old(self).colonies@, id2),
    {
        if pos.x < 0 || pos.y < 0 || pos.x >= (self.map.width as i64) * MILLI
            || pos.y >= (self.map.height as i64) * MILLI {
            return false;
        }
        if self.colonies.len() >= MAX_COLONIES {
            return false;
        }
        let mut free_id: u32 = 0;
        let mut found = false;
        let mut id: u32 = 0;
        while id < MAX_COLONIES as u32
            invariant
                id <= MAX_COLONIES as u32,
                found ==> free_id < MAX_COLONIES
                    && forall|i: int| 0 <= i < self.colonies.len()
                        ==> (#[trigger] self.colonies[i]).colony_id != free_id,
                found ==> forall|id2: u32| id2 < free_id
                    ==> #[trigger] id_taken(self.colonies@, id2),
                !found ==> forall|id2: u32| id2 < id
                    ==> #[trigger] id_taken(self.colonies@, id2),
            decreases MAX_COLONIES - id,
        {
            if !found {
                match crate::colony::find_colony(&self.colonies, id) {
                    None => {
                        free_id = id;
                        found = true;
                    },
                    Some(_) => {},
                }
            }
            id = id + 1;
        }
        if !found {
            return false;
        }
        let ghost mprev0 = self.map;
        self.map.remove_placeholder_colony(pos);
        proof {
            self.lemma_edit_preserves_colonies(mprev0);
        }
        let ghost mprev1 = self.map;
        self.map.remove_colony_ants(free_id);
        proof {
            assert forall|a: int| 0 <= a < self.colonies.len()
                implies self.colony_ok(#[trigger] self.colonies[a]) by {
                let c = self.colonies[a];
                assert forall|r2: AntRef, p2: Pos| r2.colony_id != free_id
                    implies #[trigger] crate::map::tracked_exactly(self.map, r2, p2)
                        == crate::map::tracked_exactly(mprev1, r2, p2) by {
                    let px = p2.x as int / (MILLI as int);
                    let py = p2.y as int / (MILLI as int);
                    if mprev1.cell_in_bounds(px, py) {
                        assert forall|gx: int, gy: int| mprev1.cell_in_bounds(gx, gy)
                            implies (#[trigger] self.map.cell_refs(gx, gy)).contains(r2)
                                == mprev1.cell_refs(gx, gy).contains(r2) by {
                            crate::pheromone::lemma_cell_index_in_range(mprev1.width as int,
                                mprev1.height as int, gx, gy);
                        }
                        assert forall|gx: int, gy: int| mprev1.cell_in_bounds(gx, gy)
                            implies (#[trigger] mprev1.cell_refs(gx, gy)).contains(r2)
                                == self.map.cell_refs(gx, gy).contains(r2) by {
                            crate::pheromone::lemma_cell_index_in_range(mprev1.width as int,
                                mprev1.height as int, gx, gy);
                        }
                        if crate::map::tracked_exactly(mprev1, r2, p2) {
                            assert(crate::map::tracked_exactly(self.map, r2, p2));
                        }
                        if crate::map::tracked_exactly(self.map, r2, p2) {
                            assert(crate::map::tracked_exactly(mprev1, r2, p2));
                        }
                    }
                }
                assert forall|c2: int, r2: AntRef| 0 <= c2 < mprev1.ants_in_cell.len()
                    && r2.colony_id != free_id
                    implies #[trigger] self.map.ants_in_cell[c2]@.contains(r2)
                        == mprev1.ants_in_cell[c2]@.contains(r2) by {
                }
                crate::colony::lemma_other_colony_ok(c, mprev1, self.map, free_id);
            }
        }
        let mut colony = crate::colony::Colony::new(free_id, pos, self.map.width, self.map.height,
            color, player_config, decay_rates);
        proof {
            crate::ant::lemma_pos_cell_bounds(pos, self.map.width as int, self.map.height as int);
        }
        let cx = floor_cell(pos.x) as u32;
        let cy = floor_cell(pos.y) as u32;
        let ghost mprev2 = self.map;
        self.map.place_colony_at(cx, cy, free_id);
        proof {
            crate::pheromone::lemma_cell_index_in_range(self.map.width as int,
                self.map.height as int, cx as int, cy as int);
            assert(self.map.terrain_at(cx as int, cy as int) == Terrain::Nest(free_id));
            self.lemma_edit_preserves_colonies(mprev2);
            assert forall|gx: int, gy: int, rr: AntRef|
                self.map.cell_in_bounds(gx, gy) && #[trigger] self.map.cell_refs(gx, gy).contains(rr)
                    && rr.colony_id == colony.colony_id
                implies rr.key < colony.next_key by {
                crate::pheromone::lemma_cell_index_in_range(self.map.width as int,
                    self.map.height as int, gx, gy);
                assert(self.map.ants_in_cell[gy * self.map.width + gx]@
                    == mprev2.ants_in_cell[gy * self.map.width + gx]@);
                assert(mprev2.cell_refs(gx, gy).contains(rr));
            }
        }
        let pop = self.config.colony_initial_population;
        let ghost mprev3 = self.map;
        colony.spawn_ants(&mut self.map, pop, &mut self.rng);
        proof {
            assert(self.map.tiles@ == mprev3.tiles@);
            assert(self.map.terrain_at(cx as int, cy as int) == Terrain::Nest(free_id));
            assert forall|a: int| 0 <= a < self.colonies.len()
                implies self.colony_ok(#[trigger] self.colonies[a]) by {
                crate::colony::lemma_other_colony_ok(self.colonies[a], mprev3, self.map, free_id);
            }
        }
        let ghost cs0 = self.colonies@;
        self.colonies.push(colony);
        proof {
            assert forall|a: int| 0 <= a < self.colonies.len()
                implies self.colony_ok(#[trigger] self.colonies[a]) by {
                if a < cs0.len() {
                    assert(self.colonies[a] == cs0[a]);
                }
            }
            assert forall|a: int, b: int| 0 <= a < b < self.colonies.len()
                implies (#[trigger] self.colonies[a]).colony_id
                    != (#[trigger] self.colonies[b]).colony_id by {
                assert(self.colonies[a] == cs0[a]);
                if b < cs0.len() {
                    assert(self.colonies[b] == cs0[b]);
                }
            }
        }
        true
    }

    /// Respawns every colony from its saved nest, color, player entry and
    /// decay rates, after clearing the spatial index: the post-reset
    /// population is freshly seeded at each nest.
    pub fn reset_colonies(&mut self)
        requires
            old(self).wf(),
            !old(self).mid_tick(),
        ensures
            final(self).wf(),
            !final(self).mid_tick(),
            final(self).is_paused == old(self).is_paused,
            final(self).tick == old(self).tick,
            final(self).colonies.len() <= old(self).colonies.len(),
            // when every slot could be refilled, each colony comes back
            // in order, from its saved nest and color, freshly seeded and
            // with an empty food store
            final(self).colonies.len() == old(self).colonies.len()
                ==> forall|i: int| 0 <= i < old(self).colonies.len() ==> {
                    &&& (#[trigger] final(self).colonies[i]).pos == old(self).colonies[i].pos
                    &&& final(self).colonies[i].color == old(self).colonies[i].color
                    &&& final(self).colonies[i].ants.len()
                        == old(self).config.colony_initial_population
                    &&& final(self).colonies[i].food_collected == 0
                },
    {
        let n = self.colonies.len();
        let mut saved: Vec<(Pos, u32, PlayerConfig, [u32; crate::PHEROMONE_CHANNEL_COUNT])> = Vec::new();
        let mut i: usize = 0;
        while i < n
            invariant
                i <= n,
                n == self.colonies.len(),
                self.wf(),
                !self.mid_tick(),
                self.colonies@ == old(self).colonies@,
                self.is_paused == old(self).is_paused,
                self.tick == old(self).tick,
                self.map == old(self).map,
                saved.len() == i,
                forall|j: int| 0 <= j < i ==> (#[trigger] saved@[j]).0 == old(self).colonies[j].pos
                    && saved@[j].1 == old(self).colonies[j].color,
            decreases n - i,
        {
            let c = &self.colonies[i];
            let mut rates: [u32; crate::PHEROMONE_CHANNEL_COUNT] = [0; crate::PHEROMONE_CHANNEL_COUNT];
            let mut ch: usize = 0;
            while ch < crate::PHEROMONE_CHANNEL_COUNT
                invariant
                    ch <= crate::PHEROMONE_CHANNEL_COUNT,
                    i < self.colonies.len(),
                    self.wf(),
                    !self.mid_tick(),
                decreases crate::PHEROMONE_CHANNEL_COUNT - ch,
            {
                let rate = self.colonies[i].pheromones[ch].decay_rate;
                rates.set(ch, rate);
                ch = ch + 1;
            }
            let c2 = &self.colonies[i];
            saved.push((c2.pos, c2.color, c2.player_config.clone(), rates));
            i = i + 1;
        }
        self.colonies = Vec::new();
        self.map.soft_reset();
        let m = saved.len();
        let mut k: usize = 0;
        while k < m
            invariant
                k <= m,
                m == saved.len(),
                m == old(self).colonies.len(),
                self.wf(),
                !self.mid_tick(),
                self.is_paused == old(self).is_paused,
                self.tick == old(self).tick,
                self.config == old(self).config,
                forall|j: int| 0 <= j < m ==> (#[trigger] saved@[j]).0 == old(self).colonies[j].pos
                    && saved@[j].1 == old(self).colonies[j].color,
                self.colonies.len() <= k,
                self.colonies.len() == k ==> forall|j: int| 0 <= j < k ==> {
                    &&& (#[trigger] self.colonies[j]).pos == old(self).colonies[j].pos
                    &&& self.colonies[j].color == old(self).colonies[j].color
                    &&& self.colonies[j].ants.len() == old(self).config.colony_initial_population
                    &&& self.colonies[j].food_collected == 0
                },
            decreases m - k,
        {
            let pos = saved[k].0;
            let color = saved[k].1;
            let cfg = saved[k].2.clone();
            let rates = saved[k].3;
            let ghost len_before = self.colonies.len();
            let ok = self.spawn_colony(pos, color, cfg, &rates);
            proof {
                if !ok {
                    assert(self.colonies.len() == len_before);
                }
            }
            k = k + 1;
        }
    }

    /// Resets the running state: pause, zero the tick count, clear the
    /// spatial index and respawn every colony from its saved spawn data.
    /// (Reloading a saved terrain file is the host's business; it can do
    /// so before calling this.)
    pub fn reset(&mut self)
        requires
            old(self).wf(),
            !old(self).mid_tick(),
        ensures
            final(self).wf(),
            !final(self).mid_tick(),
            final(self).is_paused,
            final(self).tick == 0,
    {
        self.pause();
        self.tick = 0;
        self.reset_colonies();
    }

    /// The registered ant nearest to `world_pos` within `radius_mc`,
    /// searching the 3x3 cell neighborhood of the clicked cell.
    pub fn get_ant_at_world_pos(&self, world_pos: Pos, radius_mc: i64) -> (r: Option<AntRef>)
        requires
            self.wf(),
            -4_096_000 <= world_pos.x <= 4_096_000,
            -4_096_000 <= world_pos.y <= 4_096_000,
            0 <= radius_mc <= 4_096_000,
        ensures
            // a find names a registered ant strictly within the radius; a
            // miss means no reference in the clicked 3x3 neighborhood
            // resolves to an ant that close
            match r {
                Some(rf) => exists|ci: int, ai: int|
                    #[trigger] crate::colony::indexes_ref(self.colonies@, ci, ai, rf)
                    && self.colonies@[ci].ants[ai].ant.ant_ref == rf
                    && dist_sq(self.colonies@[ci].ants[ai].ant.pos, world_pos)
                        < radius_mc * radius_mc,
                None => self.map.cell_in_bounds(world_pos.x as int / (MILLI as int),
                        world_pos.y as int / (MILLI as int))
                    ==> forall|gx: int, gy: int, j: int|
                        #![trigger self.map.cell_refs(gx, gy)[j]]
                        self.map.cell_in_bounds(gx, gy)
                        && gx - world_pos.x as int / (MILLI as int) <= 1
                        && world_pos.x as int / (MILLI as int) - gx <= 1
                        && gy - world_pos.y as int / (MILLI as int) <= 1
                        && world_pos.y as int / (MILLI as int) - gy <= 1
                        && 0 <= j < self.map.cell_refs(gx, gy).len()
                        ==> !resolved_within(self.colonies@, self.map.cell_refs(gx, gy)[j],
                            world_pos, radius_mc as int),
            },
    {
        let cell_x = floor_cell(world_pos.x);
        let cell_y = floor_cell(world_pos.y);
        if cell_x < 0 || cell_y < 0 || cell_x >= self.map.width as i64
            || cell_y >= self.map.height as i64 {
            return None;
        }
        let mut closest: Option<AntRef> = None;
        proof {
            crate::ant::lemma_square_bound(radius_mc as int, 4_096_000);
        }
        let mut min_dist_sq: i64 = radius_mc * radius_mc;
        let mut dy: i64 = -1;
        while dy <= 1
            invariant
                -1 <= dy <= 2,
                min_dist_sq <= radius_mc * radius_mc,
                cell_x == world_pos.x as int / (MILLI as int),
                cell_y == world_pos.y as int / (MILLI as int),
                self.map.cell_in_bounds(cell_x as int, cell_y as int),
                match closest {
                    Some(rf) => exists|ci: int, ai: int|
                        #[trigger] crate::colony::indexes_ref(self.colonies@, ci, ai, rf)
                        && self.colonies@[ci].ants[ai].ant.ant_ref == rf
                        && dist_sq(self.colonies@[ci].ants[ai].ant.pos, world_pos)
                            < radius_mc * radius_mc,
                    None => min_dist_sq == radius_mc * radius_mc
                        && forall|gx: int, gy: int, j: int|
                            #![trigger self.map.cell_refs(gx, gy)[j]]
                            self.map.cell_in_bounds(gx, gy)
                            && gx - cell_x <= 1 && cell_x - gx <= 1
                            && gy - cell_y < dy && cell_y - gy <= 1
                            && 0 <= j < self.map.cell_refs(gx, gy).len()
                            ==> !resolved_within(self.colonies@, self.map.cell_refs(gx, gy)[j],
                                world_pos, radius_mc as int),
                },
            decreases 2 - dy,
        {
            let mut dx: i64 = -1;
            while dx <= 1
                invariant
                    -1 <= dx <= 2,
                    -1 <= dy <= 1,
                    min_dist_sq <= radius_mc * radius_mc,
                    cell_x == world_pos.x as int / (MILLI as int),
                    cell_y == world_pos.y as int / (MILLI as int),
                    self.map.cell_in_bounds(cell_x as int, cell_y as int),
                    match closest {
                        Some(rf) => exists|ci: int, ai: int|
                            #[trigger] crate::colony::indexes_ref(self.colonies@, ci, ai, rf)
                            && self.colonies@[ci].ants[ai].ant.ant_ref == rf
                            && dist_sq(self.colonies@[ci].ants[ai].ant.pos, world_pos)
                                < radius_mc * radius_mc,
                        None => min_dist_sq == radius_mc * radius_mc
                            && forall|gx: int, gy: int, j: int|
                                #![trigger self.map.cell_refs(gx, gy)[j]]
                                self.map.cell_in_bounds(gx, gy)
                                && gx - cell_x <= 1 && cell_x - gx <= 1
                                && gy - cell_y <= 1 && cell_y - gy <= 1
                                && (gy - cell_y < dy || (gy - cell_y == dy && gx - cell_x < dx))
                                && 0 <= j < self.map.cell_refs(gx, gy).len()
                                ==> !resolved_within(self.colonies@,
                                    self.map.cell_refs(gx, gy)[j], world_pos, radius_mc as int),
                    },
                decreases 2 - dx,
            {
                let check_x = cell_x + dx;
                let check_y = cell_y + dy;
                if check_x >= 0 && check_y >= 0 && check_x < self.map.width as i64
                    && check_y < self.map.height as i64 {
                    proof {
                        crate::pheromone::lemma_cell_index_in_range(self.map.width as int,
                            self.map.height as int, check_x as int, check_y as int);
                    }
                    let idx: usize = (check_y as usize) * (self.map.width as usize)
                        + (check_x as usize);
                    let m = self.map.ants_in_cell[idx].len();
                    let mut j: usize = 0;
                    while j < m
                        invariant
                            j <= m,
                            -1 <= dx <= 1,
                            -1 <= dy <= 1,
                            check_x == cell_x + dx,
                            check_y == cell_y + dy,
                            self.map.cell_in_bounds(check_x as int, check_y as int),
                            idx < self.map.ants_in_cell.len(),
                            idx == (check_y as int) * self.map.width + check_x,
                            m == self.map.ants_in_cell[idx as int]@.len(),
                            min_dist_sq <= radius_mc * radius_mc,
                            cell_x == world_pos.x as int / (MILLI as int),
                            cell_y == world_pos.y as int / (MILLI as int),
                            self.map.cell_in_bounds(cell_x as int, cell_y as int),
                            match closest {
                                Some(rf) => exists|ci: int, ai: int|
                                    #[trigger] crate::colony::indexes_ref(self.colonies@, ci, ai, rf)
                                    && self.colonies@[ci].ants[ai].ant.ant_ref == rf
                                    && dist_sq(self.colonies@[ci].ants[ai].ant.pos, world_pos)
                                        < radius_mc * radius_mc,
                                None => min_dist_sq == radius_mc * radius_mc
                                    && forall|gx: int, gy: int, jj: int|
                                        #![trigger self.map.cell_refs(gx, gy)[jj]]
                                        self.map.cell_in_bounds(gx, gy)
                                        && gx - cell_x <= 1 && cell_x - gx <= 1
                                        && gy - cell_y <= 1 && cell_y - gy <= 1
                                        && (gy - cell_y < dy || (gy - cell_y == dy && gx - cell_x < dx)
                                            || (gy - cell_y == dy && gx - cell_x == dx && jj < j))
                                        && 0 <= jj < self.map.cell_refs(gx, gy).len()
                                        ==> !resolved_within(self.colonies@,
                                            self.map.cell_refs(gx, gy)[jj], world_pos,
                                            radius_mc as int),
                            },
                        decreases m - j,
                    {
                        let rf = self.map.ants_in_cell[idx][j];
                        match crate::colony::find_colony(&self.colonies, rf.colony_id) {
                            None => {
                                proof {
                                    assert forall|ci2: int, ai2: int|
                                        !crate::colony::indexes_ref(self.colonies@, ci2, ai2, rf) by {
                                        if 0 <= ci2 < self.colonies@.len() {
                                            assert(self.colonies@[ci2].colony_id != rf.colony_id);
                                        }
                                    }
                                    assert(!resolved_within(self.colonies@, rf, world_pos,
                                        radius_mc as int));
                                }
                            },
                            Some(ci) => {
                                match crate::colony::find_ant(&self.colonies[ci], rf.key) {
                                    None => {
                                        proof {
                                            assert forall|ci2: int, ai2: int|
                                                !crate::colony::indexes_ref(self.colonies@, ci2,
                                                    ai2, rf) by {
                                                if 0 <= ci2 < self.colonies@.len()
                                                    && self.colonies@[ci2].colony_id
                                                        == rf.colony_id && ci2 != ci {
                                                    if ci < ci2 {
                                                        assert(false);
                                                    } else {
                                                        assert(false);
                                                    }
                                                }
                                            }
                                            assert(!resolved_within(self.colonies@, rf, world_pos,
                                                radius_mc as int));
                                        }
                                    },
                                    Some(ai) => {
                                        proof {
                                            crate::ant::lemma_ref_index_unique(self.colonies@,
                                                ci as int, ai as int, rf);
                                        }
                                        let apos = self.colonies[ci].ants[ai].ant.pos;
                                        let ddx = apos.x - world_pos.x;
                                        let ddy = apos.y - world_pos.y;
                                        proof {
                                            crate::ant::lemma_square_bound(ddx as int, 8_192_000);
                                            crate::ant::lemma_square_bound(ddy as int, 8_192_000);
                                        }
                                        let d2 = ddx * ddx + ddy * ddy;
                                        if d2 < min_dist_sq {
                                            let ghost prev_min = min_dist_sq as int;
                                            min_dist_sq = d2;
                                            let picked = self.colonies[ci].ants[ai].ant.ant_ref;
                                            closest = Some(picked);
                                            proof {
                                                assert(self.colonies@[ci as int].ants[ai as int]
                                                    .ant.ant_ref == picked);
                                                assert(crate::colony::indexes_ref(self.colonies@,
                                                    ci as int, ai as int, picked));
                                                assert(dist_sq(apos, world_pos) == d2 as int);
                                                assert(d2 < prev_min
                                                    && prev_min <= radius_mc * radius_mc);
                                            }
                                        } else {
                                            proof {
                                                if closest is None {
                                                    assert(!resolved_within(self.colonies@, rf,
                                                        world_pos, radius_mc as int));
                                                }
                                            }
                                        }
                                    },
                                }
                            },
                        }
                        proof {
                            match closest {
                                Some(rf2) => {
                                    assert(exists|ci: int, ai: int|
                                        #[trigger] crate::colony::indexes_ref(self.colonies@,
                                            ci, ai, rf2)
                                        && self.colonies@[ci].ants[ai].ant.ant_ref == rf2
                                        && dist_sq(self.colonies@[ci].ants[ai].ant.pos, world_pos)
                                            < radius_mc * radius_mc);
                                },
                                None => {},
                            }
                        }
                        j = j + 1;
                    }
                }
                dx = dx + 1;
            }
            dy = dy + 1;
        }
        closest
    }
}

/// Between ticks, every ant of every colony is registered in exactly the
/// spatial-index cell containing its position — in that cell once, and in
/// no other cell.
pub proof fn lemma_resting_ant_indexed_exactly(sim: Simulation, ci: int, ai: int)
    requires
        sim.wf(),
        0 <= ci < sim.colonies.len(),
        0 <= ai < sim.colonies[ci].ants.len(),
    ensures
        crate::map::tracked_exactly(sim.map, sim.colonies[ci].ants[ai].ant.ant_ref,
            sim.colonies[ci].ants[ai].ant.pos),
{
    assert(sim.colony_ok(sim.colonies[ci]));
}

/// Every living ant's rotation is a normalized angle in `[0, TAU_MRAD)`,
/// in every reachable simulation state.
pub proof fn lemma_resting_ant_rotation_normalized(sim: Simulation, ci: int, ai: int)
    requires
        sim.wf(),
        0 <= ci < sim.colonies.len(),
        0 <= ai < sim.colonies[ci].ants.len(),
    ensures
        0 <= sim.colonies[ci].ants[ai].ant.rotation < crate::TAU_MRAD,
{
    assert(sim.colony_ok(sim.colonies[ci]));
    assert(sim.colonies[ci].ants[ai].ant.wf(sim.map.width as int, sim.map.height as int));
}

/// Squared distance between two positions, in squared milli-cells.
pub open spec fn dist_sq(a: Pos, b: Pos) -> int {
    (a.x - b.x) * (a.x - b.x) + (a.y - b.y) * (a.y - b.y)
}

/// A registered reference resolves to a live colony ant standing strictly
/// within `radius` of `p`.
pub open spec fn resolved_within(cs: Seq<Colony>, rr: AntRef, p: Pos, radius: int) -> bool {
    exists|ci: int, ai: int| #[trigger] crate::colony::indexes_ref(cs, ci, ai, rr)
        && dist_sq(cs[ci].ants[ai].ant.pos, p) < radius * radius
}

/// Whether some colony in the slice carries the given id.
pub open spec fn id_taken(cs: Seq<Colony>, id: u32) -> bool {
    exists|i: int| 0 <= i < cs.len() && (#[trigger] cs[i]).colony_id == id
}

/// The colony ids of a slice, in listed order.
pub open spec fn colony_ids(cs: Seq<Colony>) -> Seq<u32> {
    Seq::new(cs.len(), |i: int| cs[i].colony_id)
}

/// Whether a colony with the given id lives in the simulation, either at
/// rest in the list or in flight during a tick.
pub open spec fn has_colony_id(s: Simulation, id: u32) -> bool {
    ||| exists|i: int| 0 <= i < s.colonies.len() && (#[trigger] s.colonies[i]).colony_id == id
    ||| match s.progress {
        Some(p) => match p.current {
            Some(run) => run.colony.colony_id == id,
            None => false,
        },
        None => false,
    }
}

/// The key snapshot of the colony in flight (empty when none is).
pub open spec fn tick_run_keys(s: Simulation) -> Seq<u64> {
    match s.progress {
        Some(p) => match p.current {
            Some(run) => run.keys@,
            None => Seq::empty(),
        },
        None => Seq::empty(),
    }
}

/// The visit cursor of the colony in flight (zero when none is).
pub open spec fn tick_run_cursor(s: Simulation) -> int {
    match s.progress {
        Some(p) => match p.current {
            Some(run) => run.cursor as int,
            None => 0,
        },
        None => 0,
    }
}

/// The total number of ants across a colony sequence.
pub open spec fn spec_total_ants(cs: Seq<Colony>) -> int
    decreases cs.len(),
{
    if cs.len() == 0 {
        0
    } else {
        spec_total_ants(cs.drop_last()) + cs.last().ants.len()
    }
}

} // verus!
