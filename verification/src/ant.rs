//! Per-ant state and the ant's tick state machine: aging and checks,
//! perception, applying a brain's sanitized output, combat, movement.

use vstd::prelude::*;
use crate::timer::Timer;
use crate::map::GameMap;
use crate::terrain::Terrain;
use crate::rng::SimRng;
use crate::fixmath::{sin_cos, normalize_angle, floor_cell};
use crate::{Pos, MILLI, TAU_MRAD, MAX_LONGEVITY_MS, ANT_SPEED_MC_PER_S, THINK_INTERVAL_MS,
    COLONY_NEST_SIZE_MC, SLOWNESS_WITH_FOOD_NUM, SLOWNESS_WITH_FOOD_DEN, EIGHTH_TURN_MRAD,
    HALF_TURN_MRAD, SENSE_MAX_DISTANCE_MC, pos_in_map};

verus! {

/// Stable identity of an ant: its key within its colony and the colony id.
#[derive(Clone, Copy, Debug, PartialEq, Eq, Structural)]
pub struct AntRef {
    pub key: u64,
    pub colony_id: u32,
}

/// One opponent in a fight, with the fixed orientation (milli-radians)
/// from the owning ant toward it.
#[derive(Clone, Copy, Debug, PartialEq, Eq, Structural)]
pub struct FightOpponent {
    pub ant_ref: AntRef,
    pub orientation: i64,
}

/// The cell a position falls in.
pub open spec fn cell_of(p: Pos) -> (int, int) {
    (p.x as int / (MILLI as int), p.y as int / (MILLI as int))
}

/// Whether a position lies within the nest circle around `nest`.
pub open spec fn on_nest(p: Pos, nest: Pos) -> bool {
    let dx = p.x - nest.x;
    let dy = p.y - nest.y;
    dx * dx + dy * dy <= (COLONY_NEST_SIZE_MC as int) * COLONY_NEST_SIZE_MC / 4
}

/// One ant.
pub struct Ant {
    pub ant_ref: AntRef,
    pub pos: Pos,
    pub rotation: i64,
    pub speed: i64,
    pub longevity: u32,
    pub is_on_colony: bool,
    pub is_on_food: bool,
    pub carrying_food: bool,
    pub fight_opponents: Vec<FightOpponent>,
    pub memory: [u8; crate::MEMORY_SIZE],
    pub think_timer: Timer,
    pub try_attack: bool,
}

impl Ant {
    /// Range invariant against a `w x h` map: normalized rotation, bounded
    /// longevity, a position on the map, the fixed base speed, the think
    /// period, and a well-formed opponent queue (normalized orientations,
    /// no opponent listed twice).
    pub open spec fn wf(self, w: int, h: int) -> bool {
        &&& 0 <= self.rotation < TAU_MRAD
        &&& self.longevity <= MAX_LONGEVITY_MS
        &&& pos_in_map(self.pos, w, h)
        &&& self.speed == ANT_SPEED_MC_PER_S
        &&& self.think_timer.max_value == THINK_INTERVAL_MS
        &&& forall|i: int| 0 <= i < self.fight_opponents.len()
                ==> 0 <= (#[trigger] self.fight_opponents[i]).orientation < TAU_MRAD
        &&& forall|i: int, j: int| 0 <= i < j < self.fight_opponents.len()
                ==> self.fight_opponents[i].ant_ref != self.fight_opponents[j].ant_ref
    }

    /// This ant with its life budget spent, all else equal.
    pub open spec fn spec_aged(self) -> Ant {
        Ant { longevity: 0, ..self }
    }

    /// Whether the ant is in a fight.
    pub open spec fn fighting(self) -> bool {
        self.fight_opponents.len() > 0
    }

    /// Creates an ant at `pos` with a random heading and think phase.
    pub fn new(key: u64, colony_id: u32, pos: Pos, rng: &mut SimRng) -> (r: Ant)
        ensures
            r.ant_ref == (AntRef { key, colony_id }),
            r.pos == pos,
            0 <= r.rotation < TAU_MRAD,
            r.longevity == MAX_LONGEVITY_MS,
            !r.carrying_food,
            r.is_on_colony,
            !r.is_on_food,
            !r.try_attack,
            r.fight_opponents.len() == 0,
            r.speed == ANT_SPEED_MC_PER_S,
            r.think_timer.max_value == THINK_INTERVAL_MS,
            forall|i: int| 0 <= i < crate::MEMORY_SIZE ==> #[trigger] r.memory[i] == 0,
    {
        let phase = rng.gen_range_u64(0, THINK_INTERVAL_MS);
        let rotation = rng.gen_range_i64(0, TAU_MRAD);
        Ant {
            ant_ref: AntRef { key, colony_id },
            pos,
            rotation,
            speed: ANT_SPEED_MC_PER_S,
            longevity: MAX_LONGEVITY_MS,
            is_on_colony: true,
            is_on_food: false,
            carrying_food: false,
            fight_opponents: Vec::new(),
            memory: [0u8; crate::MEMORY_SIZE],
            think_timer: Timer::new(THINK_INTERVAL_MS, phase),
            try_attack: false,
        }
    }

    /// Drains longevity, stopping at zero.
    pub fn take_damage(&mut self, damage_ms: u32)
        ensures
            final(self).longevity == if old(self).longevity >= damage_ms {
                old(self).longevity - damage_ms
            } else {
                0int
            },
            unchanged_but_longevity(*old(self), *final(self)),
    {
        if self.longevity >= damage_ms {
            self.longevity = self.longevity - damage_ms;
        } else {
            self.longevity = 0;
        }
    }

    /// Refills the life budget completely.
    pub fn rejuvenate(&mut self)
        ensures
            final(self).longevity == MAX_LONGEVITY_MS,
            unchanged_but_longevity(*old(self), *final(self)),
    {
        self.longevity = MAX_LONGEVITY_MS;
    }

    /// Raises longevity by `amount_ms`, capped at the maximum.
    pub fn rejuvenate_by(&mut self, amount_ms: u32)
        ensures
            final(self).longevity == if old(self).longevity + amount_ms <= MAX_LONGEVITY_MS {
                old(self).longevity + amount_ms
            } else {
                MAX_LONGEVITY_MS as int
            },
            unchanged_but_longevity(*old(self), *final(self)),
    {
        if amount_ms <= MAX_LONGEVITY_MS && self.longevity <= MAX_LONGEVITY_MS - amount_ms {
            self.longevity = self.longevity + amount_ms;
        } else {
            self.longevity = MAX_LONGEVITY_MS;
        }
    }

    /// An ant is dead exactly when its longevity is spent.
    pub fn is_dead(&self) -> (r: bool)
        ensures
            r == (self.longevity == 0),
    {
        self.longevity == 0
    }

    /// Kills the ant outright (used on a brain deadline violation).
    pub fn die(&mut self)
        ensures
            final(self).longevity == 0,
            unchanged_but_longevity(*old(self), *final(self)),
    {
        self.longevity = 0;
    }

    /// Whether the ant is in a fight.
    pub fn is_fighting(&self) -> (r: bool)
        ensures
            r == self.fighting(),
    {
        self.fight_opponents.len() > 0
    }

    /// Queues a new opponent unless it is already being fought.
    /// Reports whether it was added.
    pub fn try_add_opponent(&mut self, opponent_ref: &AntRef, orientation: i64) -> (r: bool)
        requires
            0 <= orientation < TAU_MRAD,
        ensures
            r == !(exists|i: int| 0 <= i < old(self).fight_opponents.len()
                && (#[trigger] old(self).fight_opponents[i]).ant_ref == *opponent_ref),
            r ==> final(self).fight_opponents@ == old(self).fight_opponents@.push(
                FightOpponent { ant_ref: *opponent_ref, orientation }),
            !r ==> final(self).fight_opponents@ == old(self).fight_opponents@,
            unchanged_but_opponents(*old(self), *final(self)),
    {
        let n = self.fight_opponents.len();
        let mut i: usize = 0;
        while i < n
            invariant
                i <= n,
                n == self.fight_opponents@.len(),
                forall|j: int| 0 <= j < i
                    ==> (#[trigger] self.fight_opponents[j]).ant_ref != *opponent_ref,
            decreases n - i,
        {
            let fo = self.fight_opponents[i];
            if fo.ant_ref.key == opponent_ref.key && fo.ant_ref.colony_id == opponent_ref.colony_id {
                return false;
            }
            i = i + 1;
        }
        self.fight_opponents.push(FightOpponent { ant_ref: *opponent_ref, orientation });
        true
    }

    /// Drops every queued opponent with the given key.
    pub fn remove_opponent(&mut self, opponent_key: u64)
        requires
            forall|i: int, j: int| 0 <= i < j < old(self).fight_opponents.len()
                ==> old(self).fight_opponents[i].ant_ref != old(self).fight_opponents[j].ant_ref,
            forall|i: int| 0 <= i < old(self).fight_opponents.len()
                ==> 0 <= (#[trigger] old(self).fight_opponents[i]).orientation < TAU_MRAD,
        ensures
            forall|i: int, j: int| 0 <= i < j < final(self).fight_opponents.len()
                ==> final(self).fight_opponents[i].ant_ref != final(self).fight_opponents[j].ant_ref,
            forall|i: int| 0 <= i < final(self).fight_opponents.len()
                ==> 0 <= (#[trigger] final(self).fight_opponents[i]).orientation < TAU_MRAD,
            forall|i: int| 0 <= i < final(self).fight_opponents.len()
                ==> (#[trigger] final(self).fight_opponents[i]).ant_ref.key != opponent_key,
            forall|fo: FightOpponent| final(self).fight_opponents@.contains(fo)
                ==> old(self).fight_opponents@.contains(fo),
            forall|fo: FightOpponent| old(self).fight_opponents@.contains(fo) && fo.ant_ref.key != opponent_key
                ==> final(self).fight_opponents@.contains(fo),
            final(self).fight_opponents.len() <= old(self).fight_opponents.len(),
            (exists|i: int| 0 <= i < old(self).fight_opponents.len()
                && (#[trigger] old(self).fight_opponents[i]).ant_ref.key == opponent_key)
                ==> final(self).fight_opponents.len() < old(self).fight_opponents.len(),
            unchanged_but_opponents(*old(self), *final(self)),
    {
        let n = self.fight_opponents.len();
        let mut kept: Vec<FightOpponent> = Vec::new();
        let mut i: usize = 0;
        while i < n
            invariant
                i <= n,
                n == self.fight_opponents@.len(),
                kept@.len() <= i,
                forall|j: int| 0 <= j < kept@.len()
                    ==> (#[trigger] kept@[j]).ant_ref.key != opponent_key,
                forall|fo: FightOpponent| #[trigger] kept@.contains(fo)
                    ==> self.fight_opponents@.contains(fo),
                forall|j: int| 0 <= j < kept@.len()
                    ==> exists|k: int| 0 <= k < i && self.fight_opponents@[k] == #[trigger] kept@[j],
                forall|j: int| 0 <= j < i && (#[trigger] self.fight_opponents@[j]).ant_ref.key != opponent_key
                    ==> kept@.contains(self.fight_opponents@[j]),
                (exists|j: int| 0 <= j < i
                    && (#[trigger] self.fight_opponents@[j]).ant_ref.key == opponent_key)
                    ==> kept@.len() < i,
                forall|x: int, y: int| 0 <= x < y < kept@.len()
                    ==> kept@[x].ant_ref != kept@[y].ant_ref,
                forall|j: int| 0 <= j < kept@.len()
                    ==> 0 <= (#[trigger] kept@[j]).orientation < TAU_MRAD,
            decreases n - i,
        {
            let fo = self.fight_opponents[i];
            let ghost kept0 = kept@;
            if fo.ant_ref.key != opponent_key {
                kept.push(fo);
                proof {
                    crate::map::lemma_push_contains(kept0, fo);
                    assert(self.fight_opponents@[i as int] == fo);
                    assert forall|fo2: FightOpponent| #[trigger] kept@.contains(fo2)
                        implies self.fight_opponents@.contains(fo2) by {
                        if !kept0.contains(fo2) {
                            assert(fo2 == fo);
                        }
                    }
                    assert forall|x: int, y: int| 0 <= x < y < kept@.len()
                        implies kept@[x].ant_ref != kept@[y].ant_ref by {
                        if y == kept@.len() - 1 {
                            let k = choose|k: int| 0 <= k < i
                                && self.fight_opponents@[k] == kept0[x];
                            assert(kept@[y] == fo);
                            assert(self.fight_opponents@[k].ant_ref
                                != self.fight_opponents@[i as int].ant_ref);
                        }
                    }
                }
            }
            i = i + 1;
        }
        self.fight_opponents = kept;
        proof {
            assert forall|fo: FightOpponent| old(self).fight_opponents@.contains(fo)
                && fo.ant_ref.key != opponent_key
                implies final(self).fight_opponents@.contains(fo) by {
                let k = choose|k: int| 0 <= k < old(self).fight_opponents@.len()
                    && old(self).fight_opponents@[k] == fo;
            }
        }
    }

    /// Nest check after a movement step: entering the nest circle forces a
    /// think; the flag always reflects the circle test.
    pub fn check_colony(&mut self, colony_pos: &Pos)
        requires
            0 <= old(self).pos.x <= 4_096_000,
            0 <= old(self).pos.y <= 4_096_000,
            0 <= colony_pos.x <= 4_096_000,
            0 <= colony_pos.y <= 4_096_000,
        ensures
            final(self).is_on_colony == on_nest(old(self).pos, *colony_pos),
            final(self).think_timer.max_value == old(self).think_timer.max_value,
            on_nest(old(self).pos, *colony_pos) && !old(self).is_on_colony
                ==> final(self).think_timer.value == final(self).think_timer.max_value,
            !(on_nest(old(self).pos, *colony_pos) && !old(self).is_on_colony)
                ==> final(self).think_timer == old(self).think_timer,
            unchanged_but_colony_flag(*old(self), *final(self)),
    {
        let dx = self.pos.x - colony_pos.x;
        let dy = self.pos.y - colony_pos.y;
        proof {
            lemma_square_bound(dx as int, 4_096_000);
            lemma_square_bound(dy as int, 4_096_000);
        }
        if dx * dx + dy * dy <= (COLONY_NEST_SIZE_MC * COLONY_NEST_SIZE_MC) / 4 {
            if !self.is_on_colony {
                self.think_timer.force_ready();
            }
            self.is_on_colony = true;
        } else {
            self.is_on_colony = false;
        }
    }
}

impl Ant {
    /// Food check after a movement step: standing on food forces a think
    /// on first contact; an empty-handed ant picks one unit up (draining
    /// the tile) and is fully rejuvenated.
    #[verifier::rlimit(60)]
    pub fn check_food(&mut self, map: &mut GameMap)
        requires
            old(map).wf(),
            pos_in_map(old(self).pos, old(map).width as int, old(map).height as int),
        ensures
            final(map).wf(),
            crate::map::same_frame(*old(map), *final(map)),
            forall|i: int| 0 <= i < old(map).tiles.len()
                && i != old(map).idx_of(old(self).pos.x as int / (MILLI as int),
                    old(self).pos.y as int / (MILLI as int))
                ==> #[trigger] final(map).tiles[i] == old(map).tiles[i],
            unchanged_but_food_state(*old(self), *final(self)),
            ({
                let cx = old(self).pos.x as int / (MILLI as int);
                let cy = old(self).pos.y as int / (MILLI as int);
                match old(map).terrain_at(cx, cy) {
                    Terrain::Food(a) => {
                        &&& (!old(self).is_on_food
                                ==> final(self).think_timer.value == final(self).think_timer.max_value)
                        &&& final(self).carrying_food
                        &&& (!old(self).carrying_food ==> {
                            &&& final(self).longevity == MAX_LONGEVITY_MS
                            &&& final(map).terrain_at(cx, cy) == (if a > 1 {
                                Terrain::Food((a - 1) as u32)
                            } else {
                                Terrain::Empty
                            })
                        })
                        &&& (old(self).carrying_food ==> {
                            &&& final(self).longevity == old(self).longevity
                            &&& final(map).tiles@ == old(map).tiles@
                        })
                        &&& final(self).is_on_food == (final(map).terrain_at(cx, cy) is Food)
                    },
                    _ => {
                        &&& !final(self).is_on_food
                        &&& final(map).tiles@ == old(map).tiles@
                        &&& final(self).longevity == old(self).longevity
                        &&& final(self).carrying_food == old(self).carrying_food
                        &&& final(self).think_timer == old(self).think_timer
                    },
                }
            }),
    {
        proof {
            lemma_pos_cell_bounds(self.pos, map.width as int, map.height as int);
            crate::pheromone::lemma_cell_index_in_range(map.width as int, map.height as int,
                self.pos.x as int / (MILLI as int), self.pos.y as int / (MILLI as int));
        }
        let x = floor_cell(self.pos.x);
        let y = floor_cell(self.pos.y);
        let ux = x as u32;
        let uy = y as u32;
        match map.get_terrain_at(ux, uy) {
            Some(Terrain::Food(_)) => {
                if !self.is_on_food {
                    self.think_timer.force_ready();
                }
                if !self.carrying_food {
                    map.take_food_at(ux, uy);
                    self.carrying_food = true;
                    self.rejuvenate();
                }
                match map.get_terrain_at(ux, uy) {
                    Some(Terrain::Food(_)) => {
                        self.is_on_food = true;
                    },
                    _ => {
                        self.is_on_food = false;
                    },
                }
            },
            _ => {
                self.is_on_food = false;
            },
        }
    }

    /// Moves the ant and reroutes its spatial-index registration when the
    /// cell changes: afterwards the ant is tracked exactly at its new
    /// position, and every other ant's registration is untouched.
    pub fn move_to_pos(&mut self, map: &mut GameMap, new_pos: Pos)
        requires
            old(map).wf(),
            pos_in_map(old(self).pos, old(map).width as int, old(map).height as int),
            pos_in_map(new_pos, old(map).width as int, old(map).height as int),
        ensures
            final(map).wf(),
            crate::map::index_frame(*old(map), *final(map)),
            final(self).pos == new_pos,
            unchanged_but_pos(*old(self), *final(self)),
            crate::map::tracked_exactly(*old(map), old(self).ant_ref, old(self).pos)
                ==> crate::map::tracked_exactly(*final(map), old(self).ant_ref, new_pos),
            forall|r2: AntRef, p2: Pos| r2 != old(self).ant_ref
                ==> #[trigger] crate::map::tracked_exactly(*final(map), r2, p2)
                    == crate::map::tracked_exactly(*old(map), r2, p2),
            forall|c: int, r2: AntRef| 0 <= c < old(map).ants_in_cell.len() && r2 != old(self).ant_ref
                ==> #[trigger] final(map).ants_in_cell[c]@.contains(r2)
                    == old(map).ants_in_cell[c]@.contains(r2),
            forall|c: int| 0 <= c < old(map).ants_in_cell.len()
                && #[trigger] final(map).ants_in_cell[c]@.contains(old(self).ant_ref)
                ==> old(map).ants_in_cell[c]@.contains(old(self).ant_ref)
                    || c == old(map).idx_of(new_pos.x as int / (MILLI as int), new_pos.y as int / (MILLI as int)),
    {
        let old_pos = self.pos;
        proof {
            lemma_pos_cell_bounds(old_pos, map.width as int, map.height as int);
            lemma_pos_cell_bounds(new_pos, map.width as int, map.height as int);
        }
        let ox = floor_cell(old_pos.x);
        let oy = floor_cell(old_pos.y);
        let nx = floor_cell(new_pos.x);
        let ny = floor_cell(new_pos.y);
        self.pos = new_pos;
        if ox != nx || oy != ny {
            let moved_ref = self.ant_ref;
            let ghost m0 = *map;
            map.unregister_ant_from_cell(&moved_ref, old_pos);
            let ghost m1 = *map;
            map.register_ant_in_cell(&moved_ref, new_pos);
            let ghost m2 = *map;
            proof {
                let w = m0.width as int;
                let h = m0.height as int;
                let ocx = old_pos.x as int / (MILLI as int);
                let ocy = old_pos.y as int / (MILLI as int);
                let ncx = new_pos.x as int / (MILLI as int);
                let ncy = new_pos.y as int / (MILLI as int);
                crate::pheromone::lemma_cell_index_in_range(w, h, ocx, ocy);
                crate::pheromone::lemma_cell_index_in_range(w, h, ncx, ncy);
                crate::pheromone::lemma_cell_index_injective(w, h, ocx, ocy, ncx, ncy);
                crate::map::lemma_push_contains(m1.cell_refs(ncx, ncy), moved_ref);
                assert(m2.cell_refs(ncx, ncy).contains(moved_ref));
                // every cell keeps its members other than the moved reference
                assert forall|c: int, r2: AntRef| 0 <= c < m0.ants_in_cell.len() && r2 != moved_ref
                    implies #[trigger] m2.ants_in_cell[c]@.contains(r2)
                        == m0.ants_in_cell[c]@.contains(r2) by {
                    if c == ocy * w + ocx {
                        assert(m1.cell_refs(ocx, ocy).contains(r2) == m0.cell_refs(ocx, ocy).contains(r2));
                        assert(m2.ants_in_cell[c]@ == m1.ants_in_cell[c]@);
                    } else if c == ncy * w + ncx {
                        assert(m1.ants_in_cell[c]@ == m0.ants_in_cell[c]@);
                        assert(m2.cell_refs(ncx, ncy).contains(r2) == m1.cell_refs(ncx, ncy).contains(r2));
                    } else {
                        assert(m1.ants_in_cell[c]@ == m0.ants_in_cell[c]@);
                        assert(m2.ants_in_cell[c]@ == m1.ants_in_cell[c]@);
                    }
                }
                crate::map::lemma_tracking_preserved(m0, m2, moved_ref);
                if crate::map::tracked_exactly(m0, moved_ref, old_pos) {
                    assert forall|gx: int, gy: int| m2.cell_in_bounds(gx, gy)
                        && !(gx == ncx && gy == ncy)
                        implies !(#[trigger] m2.cell_refs(gx, gy)).contains(moved_ref) by {
                        crate::pheromone::lemma_cell_index_in_range(w, h, gx, gy);
                        crate::pheromone::lemma_cell_index_injective(w, h, gx, gy, ncx, ncy);
                        if gx == ocx && gy == ocy {
                            assert(!m1.cell_refs(ocx, ocy).contains(moved_ref));
                            assert(m2.ants_in_cell[ocy * w + ocx]@ == m1.ants_in_cell[ocy * w + ocx]@);
                        } else {
                            crate::pheromone::lemma_cell_index_injective(w, h, gx, gy, ocx, ocy);
                            assert(m1.ants_in_cell[gy * w + gx]@ == m0.ants_in_cell[gy * w + gx]@);
                            assert(m2.ants_in_cell[gy * w + gx]@ == m1.ants_in_cell[gy * w + gx]@);
                            assert(!m0.cell_refs(gx, gy).contains(moved_ref));
                        }
                    }
                    assert(crate::map::tracked_exactly(m2, moved_ref, new_pos));
                }
            }
        } else {
            let ghost m0 = *map;
            proof {
                crate::map::lemma_tracking_preserved(m0, m0, old(self).ant_ref);
                assert(new_pos.x as int / (MILLI as int) == old_pos.x as int / (MILLI as int));
                assert(new_pos.y as int / (MILLI as int) == old_pos.y as int / (MILLI as int));
            }
        }
    }

    /// Lays this think's sanitized pheromone amounts onto the colony's
    /// channels at the ant's cell; channels with a zero amount and all
    /// other cells are untouched.
    pub fn apply_pheromones(&self, amounts: &[i64; crate::PHEROMONE_CHANNEL_COUNT],
        channels: &mut Vec<crate::pheromone::PheromoneChannel>)
        requires
            self.wf(old(channels)[0].width as int, old(channels)[0].height as int),
            old(channels).len() == crate::PHEROMONE_CHANNEL_COUNT,
            forall|ch: int| 0 <= ch < crate::PHEROMONE_CHANNEL_COUNT ==> {
                &&& (#[trigger] old(channels)[ch]).wf()
                &&& old(channels)[ch].width == old(channels)[0].width
                &&& old(channels)[ch].height == old(channels)[0].height
            },
            forall|ch: int| 0 <= ch < crate::PHEROMONE_CHANNEL_COUNT
                ==> 0 <= #[trigger] amounts[ch] <= crate::MAX_PHEROMONE_MILLI,
        ensures
            final(channels).len() == old(channels).len(),
            forall|ch: int| 0 <= ch < crate::PHEROMONE_CHANNEL_COUNT ==> {
                &&& (#[trigger] final(channels)[ch]).wf()
                &&& final(channels)[ch].width == old(channels)[ch].width
                &&& final(channels)[ch].height == old(channels)[ch].height
                &&& final(channels)[ch].decay_rate == old(channels)[ch].decay_rate
            },
            forall|ch: int, i: int| 0 <= ch < crate::PHEROMONE_CHANNEL_COUNT
                && 0 <= i < old(channels)[ch].data.len()
                && i != (self.pos.y as int / (MILLI as int)) * old(channels)[ch].width
                    + self.pos.x as int / (MILLI as int)
                ==> #[trigger] final(channels)[ch].data[i] == old(channels)[ch].data[i],
            forall|ch: int| 0 <= ch < crate::PHEROMONE_CHANNEL_COUNT && amounts[ch] > 0
                ==> #[trigger] final(channels)[ch].sample(self.pos.x as int / (MILLI as int),
                        self.pos.y as int / (MILLI as int))
                    == crate::api::clamp_amount(old(channels)[ch].sample(
                        self.pos.x as int / (MILLI as int), self.pos.y as int / (MILLI as int))
                        + amounts[ch]),
            forall|ch: int| 0 <= ch < crate::PHEROMONE_CHANNEL_COUNT && amounts[ch] <= 0
                ==> #[trigger] final(channels)[ch].data@ == old(channels)[ch].data@,
    {
        proof {
            lemma_pos_cell_bounds(self.pos, channels[0].width as int, channels[0].height as int);
        }
        let cx = floor_cell(self.pos.x) as u32;
        let cy = floor_cell(self.pos.y) as u32;
        let mut ch: usize = 0;
        while ch < crate::PHEROMONE_CHANNEL_COUNT
            invariant
                ch <= crate::PHEROMONE_CHANNEL_COUNT,
                channels.len() == crate::PHEROMONE_CHANNEL_COUNT,
                cx == self.pos.x as int / (MILLI as int),
                cy == self.pos.y as int / (MILLI as int),
                forall|c: int| 0 <= c < crate::PHEROMONE_CHANNEL_COUNT ==> {
                    &&& (#[trigger] channels[c]).wf()
                    &&& channels[c].width == old(channels)[c].width
                    &&& channels[c].height == old(channels)[c].height
                    &&& channels[c].decay_rate == old(channels)[c].decay_rate
                },
                cx < channels[0].width,
                cy < channels[0].height,
                forall|c: int| 0 <= c < crate::PHEROMONE_CHANNEL_COUNT
                    ==> channels[c].width == old(channels)[0].width
                        && channels[c].height == old(channels)[0].height,
                forall|c: int| ch <= c < crate::PHEROMONE_CHANNEL_COUNT
                    ==> #[trigger] channels[c].data@ == old(channels)[c].data@,
                forall|c: int, i: int| 0 <= c < ch
                    && 0 <= i < old(channels)[c].data.len()
                    && i != cy * old(channels)[c].width + cx
                    ==> #[trigger] channels[c].data[i] == old(channels)[c].data[i],
                forall|c: int| 0 <= c < ch && amounts[c] > 0
                    ==> #[trigger] channels[c].sample(cx as int, cy as int)
                        == crate::api::clamp_amount(old(channels)[c].sample(cx as int, cy as int)
                            + amounts[c]),
                forall|c: int| 0 <= c < ch && amounts[c] <= 0
                    ==> #[trigger] channels[c].data@ == old(channels)[c].data@,
            decreases crate::PHEROMONE_CHANNEL_COUNT - ch,
        {
            let amount = amounts[ch];
            if amount > 0 {
                let channel = &mut channels[ch];
                channel.lay(cx, cy, amount as u32);
            }
            ch = ch + 1;
        }
    }
}

impl Ant {
    /// Whether stepping from the ant's position at `angle_delta` off its
    /// heading would land on open ground.
    fn rotation_clear(&self, map: &GameMap, angle_delta: i64, dt_ms: u32) -> (r: bool)
        requires
            map.wf(),
            self.wf(map.width as int, map.height as int),
            -TAU_MRAD < angle_delta < TAU_MRAD,
            dt_ms <= 10_000,
        ensures
            r == probe_clear(*self, *map, angle_delta as int, dt_ms as int),
    {
        let angle = normalize_angle(self.rotation + angle_delta);
        let (s, c) = sin_cos(angle);
        proof {
            lemma_step_bound(c as int, self.speed as int, dt_ms as int);
            lemma_step_bound(s as int, self.speed as int, dt_ms as int);
        }
        let tx = self.pos.x + (c * self.speed * (dt_ms as i64)) / 1_000_000;
        let ty = self.pos.y + (s * self.speed * (dt_ms as i64)) / 1_000_000;
        if tx < 0 || ty < 0 || tx >= (map.width as i64) * MILLI || ty >= (map.height as i64) * MILLI {
            return false;
        }
        proof {
            lemma_pos_cell_bounds(Pos { x: tx, y: ty }, map.width as int, map.height as int);
        }
        let mx = floor_cell(tx) as u32;
        let my = floor_cell(ty) as u32;
        match map.get_terrain_at(mx, my) {
            Some(Terrain::Wall) => false,
            Some(_) => true,
            None => false,
        }
    }

    /// One movement step: advance along the heading by `speed * dt`
    /// (slowed while carrying food); a blocked step instead turns the ant
    /// (a free side wins, both free turns one way, both blocked reverses).
    /// The position only ever changes through the index-routing move, so
    /// exact tracking is preserved; everything else about the ant stays.
    pub fn update_position(&mut self, map: &mut GameMap, dt_ms: u32)
        requires
            old(map).wf(),
            old(self).wf(old(map).width as int, old(map).height as int),
            dt_ms <= 10_000,
        ensures
            final(map).wf(),
            crate::map::index_frame(*old(map), *final(map)),
            final(self).wf(final(map).width as int, final(map).height as int),
            unchanged_but_motion(*old(self), *final(self)),
            final(self).fight_opponents@ == old(self).fight_opponents@,
            step_outcome(*old(self), *final(self), *old(map), dt_ms as int),
            crate::map::tracked_exactly(*old(map), old(self).ant_ref, old(self).pos)
                ==> crate::map::tracked_exactly(*final(map), old(self).ant_ref, final(self).pos),
            forall|r2: AntRef, p2: Pos| r2 != old(self).ant_ref
                ==> #[trigger] crate::map::tracked_exactly(*final(map), r2, p2)
                    == crate::map::tracked_exactly(*old(map), r2, p2),
            forall|c: int, r2: AntRef| 0 <= c < old(map).ants_in_cell.len() && r2 != old(self).ant_ref
                ==> #[trigger] final(map).ants_in_cell[c]@.contains(r2)
                    == old(map).ants_in_cell[c]@.contains(r2),
            forall|c: int| 0 <= c < old(map).ants_in_cell.len()
                && #[trigger] final(map).ants_in_cell[c]@.contains(old(self).ant_ref)
                ==> old(map).ants_in_cell[c]@.contains(old(self).ant_ref)
                    || c == old(map).idx_of(final(self).pos.x as int / (MILLI as int),
                        final(self).pos.y as int / (MILLI as int)),
    {
        let (s, c) = sin_cos(self.rotation);
        let speed_adj: i64 = if self.carrying_food {
            (self.speed * SLOWNESS_WITH_FOOD_NUM) / SLOWNESS_WITH_FOOD_DEN
        } else {
            self.speed
        };
        proof {
            lemma_step_bound(c as int, speed_adj as int, dt_ms as int);
            lemma_step_bound(s as int, speed_adj as int, dt_ms as int);
        }
        let next_x = self.pos.x + (c * speed_adj * (dt_ms as i64)) / 1_000_000;
        let next_y = self.pos.y + (s * speed_adj * (dt_ms as i64)) / 1_000_000;
        let in_bounds = next_x >= 0 && next_y >= 0 && next_x < (map.width as i64) * MILLI
            && next_y < (map.height as i64) * MILLI;
        let mut blocked = true;
        if in_bounds {
            proof {
                lemma_pos_cell_bounds(Pos { x: next_x, y: next_y }, map.width as int, map.height as int);
            }
            let nx = floor_cell(next_x) as u32;
            let ny = floor_cell(next_y) as u32;
            blocked = match map.get_terrain_at(nx, ny) {
                Some(Terrain::Wall) => true,
                Some(_) => false,
                None => true,
            };
        }
        if !blocked {
            self.move_to_pos(map, Pos { x: next_x, y: next_y });
        } else {
            let cw_clear = self.rotation_clear(map, EIGHTH_TURN_MRAD, dt_ms);
            let ccw_clear = self.rotation_clear(map, -EIGHTH_TURN_MRAD, dt_ms);
            if cw_clear && !ccw_clear {
                self.rotation = normalize_angle(self.rotation + EIGHTH_TURN_MRAD);
            } else if ccw_clear && !cw_clear {
                self.rotation = normalize_angle(self.rotation - EIGHTH_TURN_MRAD);
            } else if cw_clear && ccw_clear {
                self.rotation = normalize_angle(self.rotation + EIGHTH_TURN_MRAD);
            } else {
                self.rotation = normalize_angle(self.rotation + HALF_TURN_MRAD);
            }
            proof {
                crate::map::lemma_tracking_preserved(*old(map), *map, old(self).ant_ref);
            }
        }
    }
}

impl Ant {
    /// Gathers this think's perception: the flags and longevity copied
    /// from the ant, the exact pheromone samples of its own cell, an
    /// enemy in the same cell (if any), a line-of-sight reading toward
    /// the nest, and a cone of random samples for walls, pheromones,
    /// food and enemies. Also reports a candidate opponent within reach.
    /// Only the map's ray cache is touched.
    pub fn perceive(&self, map: &mut GameMap, pheromones: &Vec<crate::pheromone::PheromoneChannel>,
        colony_pos: Pos, rng: &mut SimRng) -> (r: (crate::api::AntInput, Option<AntRef>))
        requires
            old(map).wf(),
            self.wf(old(map).width as int, old(map).height as int),
            pheromones.len() == crate::PHEROMONE_CHANNEL_COUNT,
            forall|ch: int| 0 <= ch < crate::PHEROMONE_CHANNEL_COUNT ==> {
                &&& (#[trigger] pheromones[ch]).wf()
                &&& pheromones[ch].width == old(map).width
                &&& pheromones[ch].height == old(map).height
            },
            pos_in_map(colony_pos, old(map).width as int, old(map).height as int),
        ensures
            final(map).wf(),
            crate::map::same_frame(*old(map), *final(map)),
            final(map).tiles@ == old(map).tiles@,
            r.0.is_carrying_food == self.carrying_food,
            r.0.is_on_colony == self.is_on_colony,
            r.0.is_on_food == self.is_on_food,
            r.0.is_fighting == self.fighting(),
            r.0.longevity == self.longevity,
            forall|ch: int| 0 <= ch < crate::PHEROMONE_CHANNEL_COUNT
                ==> #[trigger] r.0.cell_sense[ch] == pheromones[ch].sample(
                    self.pos.x as int / (MILLI as int), self.pos.y as int / (MILLI as int)),
            r.1 is Some ==> r.1->Some_0.colony_id != self.ant_ref.colony_id,
            sense_ok(r.0.wall_sense),
            sense_ok(r.0.food_sense),
            sense_ok(r.0.colony_sense),
            sense_ok(r.0.enemy_sense),
            // the nest reading is deterministic: unseen beyond sense range
            // or behind a wall, otherwise the bearing offset with the true
            // rounded distance
            ({
                let dxc = colony_pos.x - self.pos.x;
                let dyc = colony_pos.y - self.pos.y;
                let d2 = dxc * dxc + dyc * dyc;
                &&& (d2 > SENSE_MAX_DISTANCE_MC * SENSE_MAX_DISTANCE_MC
                        ==> r.0.colony_sense == (0i64, -1i64))
                &&& (d2 <= SENSE_MAX_DISTANCE_MC * SENSE_MAX_DISTANCE_MC
                        ==> exists|dist: int| #![trigger dist * dist]
                            0 <= dist && dist * dist <= d2 && d2 < (dist + 1) * (dist + 1)
                            && r.0.colony_sense == ({
                                let bearing = crate::fixmath::atan2_value(dyc as int, dxc as int);
                                let cast = old(map).raycast_result(self.pos, bearing, dist);
                                if cast.0 {
                                    (0i64, -1i64)
                                } else {
                                    ((bearing - self.rotation) as i64, dist as i64)
                                }
                            }))
            }),
            // cone readings stay within the physical ranges
            forall|ch: int| 0 <= ch < crate::PHEROMONE_CHANNEL_COUNT ==> ({
                &&& (#[trigger] r.0.pheromone_senses[ch]).1 <= crate::MAX_PHEROMONE_MILLI
                &&& -TAU_MRAD < r.0.pheromone_senses[ch].0 < TAU_MRAD
            }),
            -TAU_MRAD < r.0.wall_sense.0 < TAU_MRAD,
            -TAU_MRAD < r.0.food_sense.0 < TAU_MRAD,
            -TAU_MRAD < r.0.enemy_sense.0 < TAU_MRAD,
    {
        proof {
            lemma_pos_cell_bounds(self.pos, map.width as int, map.height as int);
        }
        let cx = floor_cell(self.pos.x) as u32;
        let cy = floor_cell(self.pos.y) as u32;
        let mut input = crate::api::AntInput {
            is_carrying_food: self.carrying_food,
            is_on_colony: self.is_on_colony,
            is_on_food: self.is_on_food,
            pheromone_senses: [(0i64, 0u32); crate::PHEROMONE_CHANNEL_COUNT],
            cell_sense: [0u32; crate::PHEROMONE_CHANNEL_COUNT],
            wall_sense: (0, -1),
            food_sense: (0, -1),
            colony_sense: (0, -1),
            enemy_sense: (0, -1),
            longevity: self.longevity,
            is_fighting: self.is_fighting(),
        };
        let mut ch: usize = 0;
        while ch < crate::PHEROMONE_CHANNEL_COUNT
            invariant
                ch <= crate::PHEROMONE_CHANNEL_COUNT,
                cx == self.pos.x as int / (MILLI as int),
                cy == self.pos.y as int / (MILLI as int),
                forall|j: int| 0 <= j < ch
                    ==> #[trigger] input.cell_sense[j] == pheromones[j].sample(cx as int, cy as int),
                input_flags_fixed(input, *self),
                input.wall_sense == (0i64, -1i64),
                input.food_sense == (0i64, -1i64),
                input.colony_sense == (0i64, -1i64),
                input.enemy_sense == (0i64, -1i64),
                forall|j: int| 0 <= j < crate::PHEROMONE_CHANNEL_COUNT
                    ==> #[trigger] input.pheromone_senses[j] == (0i64, 0u32),
            decreases crate::PHEROMONE_CHANNEL_COUNT - ch,
        {
            let v = pheromones[ch].sample_at(cx, cy);
            input.cell_sense.set(ch, v);
            ch = ch + 1;
        }
        let ghost cell_sense_done = input.cell_sense;
        let mut candidate: Option<AntRef> = None;
        match map.get_enemy_ant_at(cx, cy, self.ant_ref.colony_id) {
            Some(enemy) => {
                input.enemy_sense = (0, 0);
                candidate = Some(enemy);
            },
            None => {},
        }
        // Line of sight toward the nest.
        let dxc = colony_pos.x - self.pos.x;
        let dyc = colony_pos.y - self.pos.y;
        proof {
            lemma_square_bound(dxc as int, 4_096_000);
            lemma_square_bound(dyc as int, 4_096_000);
        }
        let dist_sq = dxc * dxc + dyc * dyc;
        if dist_sq <= SENSE_MAX_DISTANCE_MC * SENSE_MAX_DISTANCE_MC {
            let root = crate::fixmath::isqrt(dist_sq as u64);
            proof {
                assert(root <= 10_000) by (nonlinear_arith)
                    requires
                        root * root <= 100_000_000,
                ;
            }
            let dist = root as i64;
            let angle = crate::fixmath::atan2_mrad(dyc, dxc);
            let (blocked, d) = map.raycast_angle(self.pos, angle, dist);
            if !blocked {
                input.colony_sense = (angle - self.rotation, d);
            }
            proof {
                assert((dist as int) * (dist as int) <= dist_sq
                    && dist_sq < (dist + 1) * (dist + 1));
            }
        }
        let ghost colony_sense_done = input.colony_sense;
        // Random cone samples.
        let mut i: usize = 0;
        while i < crate::SENSE_NUM_SAMPLES
            invariant
                i <= crate::SENSE_NUM_SAMPLES,
                map.wf(),
                crate::map::same_frame(*old(map), *map),
                map.tiles@ == old(map).tiles@,
                map.width == old(map).width,
                map.height == old(map).height,
                self.wf(map.width as int, map.height as int),
                cx == self.pos.x as int / (MILLI as int),
                cy == self.pos.y as int / (MILLI as int),
                input.cell_sense == cell_sense_done,
                input_flags_fixed(input, *self),
                candidate is Some ==> candidate->Some_0.colony_id != self.ant_ref.colony_id,
                sense_ok(input.wall_sense),
                sense_ok(input.food_sense),
                sense_ok(input.colony_sense),
                sense_ok(input.enemy_sense),
                input.colony_sense == colony_sense_done,
                forall|ch: int| 0 <= ch < crate::PHEROMONE_CHANNEL_COUNT ==> ({
                    &&& (#[trigger] input.pheromone_senses[ch]).1 <= crate::MAX_PHEROMONE_MILLI
                    &&& -TAU_MRAD < input.pheromone_senses[ch].0 < TAU_MRAD
                }),
                -TAU_MRAD < input.wall_sense.0 < TAU_MRAD,
                -TAU_MRAD < input.food_sense.0 < TAU_MRAD,
                -TAU_MRAD < input.enemy_sense.0 < TAU_MRAD,
            decreases crate::SENSE_NUM_SAMPLES - i,
        {
            let offset = rng.gen_range_i64(-crate::SENSE_MAX_ANGLE_MRAD, crate::SENSE_MAX_ANGLE_MRAD + 1);
            let angle = normalize_angle(self.rotation + offset);
            let dist = rng.gen_range_i64(MILLI, SENSE_MAX_DISTANCE_MC + 1);
            let (blocked, wall_dist) = map.raycast_angle(self.pos, angle, dist);
            if blocked {
                if input.wall_sense.1 < 0 || wall_dist < input.wall_sense.1 {
                    input.wall_sense = (offset, wall_dist);
                }
            } else {
                let (sa, ca) = sin_cos(angle);
                proof {
                    lemma_sample_offset_bound(ca as int, dist as int);
                    lemma_sample_offset_bound(sa as int, dist as int);
                }
                let sample_x = self.pos.x + (ca * dist) / MILLI;
                let sample_y = self.pos.y + (sa * dist) / MILLI;
                if sample_x >= 0 && sample_y >= 0 && sample_x < (map.width as i64) * MILLI
                    && sample_y < (map.height as i64) * MILLI {
                    proof {
                        lemma_pos_cell_bounds(Pos { x: sample_x, y: sample_y },
                            map.width as int, map.height as int);
                    }
                    let xi = floor_cell(sample_x) as u32;
                    let yi = floor_cell(sample_y) as u32;
                    let mut pch: usize = 0;
                    while pch < crate::PHEROMONE_CHANNEL_COUNT
                        invariant
                            pch <= crate::PHEROMONE_CHANNEL_COUNT,
                            xi < map.width,
                            yi < map.height,
                            input.cell_sense == cell_sense_done,
                            input.colony_sense == colony_sense_done,
                            input_flags_fixed(input, *self),
                            sense_ok(input.wall_sense),
                            sense_ok(input.food_sense),
                            sense_ok(input.colony_sense),
                            sense_ok(input.enemy_sense),
                            forall|ch: int| 0 <= ch < crate::PHEROMONE_CHANNEL_COUNT ==> ({
                                &&& (#[trigger] input.pheromone_senses[ch]).1
                                    <= crate::MAX_PHEROMONE_MILLI
                                &&& -TAU_MRAD < input.pheromone_senses[ch].0 < TAU_MRAD
                            }),
                            -TAU_MRAD < input.wall_sense.0 < TAU_MRAD,
                            -TAU_MRAD < input.food_sense.0 < TAU_MRAD,
                            -TAU_MRAD < input.enemy_sense.0 < TAU_MRAD,
                            -TAU_MRAD < offset < TAU_MRAD,
                        decreases crate::PHEROMONE_CHANNEL_COUNT - pch,
                    {
                        let intensity = pheromones[pch].sample_at(xi, yi);
                        if intensity > input.pheromone_senses[pch].1 {
                            input.pheromone_senses.set(pch, (offset, intensity));
                        }
                        pch = pch + 1;
                    }
                    match map.get_enemy_ant_at(xi, yi, self.ant_ref.colony_id) {
                        Some(enemy) => {
                            if input.enemy_sense.1 < 0 || dist < input.enemy_sense.1 {
                                input.enemy_sense = (offset, dist);
                                if dist <= crate::ANT_LENGTH_MC {
                                    candidate = Some(enemy);
                                }
                            }
                        },
                        None => {},
                    }
                    match map.get_terrain_at(xi, yi) {
                        Some(Terrain::Food(_)) => {
                            if input.food_sense.1 < 0 || dist < input.food_sense.1 {
                                input.food_sense = (offset, dist);
                            }
                        },
                        _ => {},
                    }
                }
            }
            i = i + 1;
        }
        (input, candidate)
    }
}

/// A sense reading: either the "unseen" sentinel or an in-range distance.
pub open spec fn sense_ok(sense: (i64, i64)) -> bool {
    sense.1 == -1 || 0 <= sense.1 <= SENSE_MAX_DISTANCE_MC
}

/// The perception fields copied verbatim from the ant.
pub open spec fn input_flags_fixed(input: crate::api::AntInput, a: Ant) -> bool {
    &&& input.is_carrying_food == a.carrying_food
    &&& input.is_on_colony == a.is_on_colony
    &&& input.is_on_food == a.is_on_food
    &&& input.is_fighting == a.fighting()
    &&& input.longevity == a.longevity
}

/// Truncated (round-toward-zero) division, as the executable `/` divides.
pub open spec fn div_trunc(a: int, b: int) -> int {
    if a >= 0 {
        a / b
    } else {
        -((-a) / b)
    }
}

/// The position a non-fighting ant steps toward: its heading scaled by
/// base speed (slowed by 9/10 while carrying food) and the time step.
pub open spec fn step_target(a: Ant, dt: int) -> Pos {
    let speed_adj = if a.carrying_food {
        a.speed * SLOWNESS_WITH_FOOD_NUM / (SLOWNESS_WITH_FOOD_DEN as int)
    } else {
        a.speed as int
    };
    Pos {
        x: (a.pos.x + div_trunc(crate::fixmath::cosine(a.rotation as int) * speed_adj * dt,
            1_000_000)) as i64,
        y: (a.pos.y + div_trunc(crate::fixmath::sine(a.rotation as int) * speed_adj * dt,
            1_000_000)) as i64,
    }
}

/// Whether a position is off the map or inside a wall: such a step is
/// refused.
pub open spec fn cell_blocked(m: GameMap, p: Pos) -> bool {
    ||| !(0 <= p.x < m.width * MILLI && 0 <= p.y < m.height * MILLI)
    ||| m.terrain_at(p.x as int / (MILLI as int), p.y as int / (MILLI as int)) is Wall
}

/// Whether a test step at `delta` off the heading (at base speed) lands
/// on open ground.
pub open spec fn probe_clear(a: Ant, m: GameMap, delta: int, dt: int) -> bool {
    let angle = crate::fixmath::norm_angle(a.rotation + delta);
    let t = Pos {
        x: (a.pos.x + div_trunc(crate::fixmath::cosine(angle) * a.speed * dt, 1_000_000)) as i64,
        y: (a.pos.y + div_trunc(crate::fixmath::sine(angle) * a.speed * dt, 1_000_000)) as i64,
    };
    !cell_blocked(m, t)
}

/// What one movement step does: a clear step commits the target with the
/// heading kept; a blocked step keeps the position and turns — toward a
/// clear side (the clockwise probe wins a tie), or by a half turn when
/// both probes are blocked.
pub open spec fn step_outcome(pre: Ant, post: Ant, m: GameMap, dt: int) -> bool {
    let tgt = step_target(pre, dt);
    if !cell_blocked(m, tgt) {
        post.pos == tgt && post.rotation == pre.rotation
    } else {
        &&& post.pos == pre.pos
        &&& post.rotation == if probe_clear(pre, m, EIGHTH_TURN_MRAD as int, dt) {
            crate::fixmath::norm_angle(pre.rotation + EIGHTH_TURN_MRAD)
        } else if probe_clear(pre, m, -(EIGHTH_TURN_MRAD as int), dt) {
            crate::fixmath::norm_angle(pre.rotation - EIGHTH_TURN_MRAD)
        } else {
            crate::fixmath::norm_angle(pre.rotation + HALF_TURN_MRAD)
        }
    }
}

/// A displacement of at most one trig unit times speed times time, scaled
/// down, stays within a cell-scale bound.
pub proof fn lemma_step_bound(c: int, speed: int, dt: int) by (nonlinear_arith)
    requires
        -1000 <= c <= 1000,
        0 <= speed <= 4000,
        0 <= dt <= 10_000,
    ensures
        -4_000_000 <= c * speed <= 4_000_000,
        -40_000_000_000 <= c * speed * dt <= 40_000_000_000,
        -40_000 <= (c * speed * dt) / 1_000_000 <= 40_000,
{
}

/// A trig unit times an in-range sample distance stays within ten cells.
pub proof fn lemma_sample_offset_bound(c: int, d: int) by (nonlinear_arith)
    requires
        -1000 <= c <= 1000,
        0 <= d <= 10_000,
    ensures
        -10_000_000 <= c * d <= 10_000_000,
        -10_000 <= (c * d) / 1000 <= 10_000,
{
}

/// All fields but position, rotation and heading state are untouched.
pub open spec fn unchanged_but_motion(a: Ant, b: Ant) -> bool {
    &&& b.ant_ref == a.ant_ref
    &&& b.speed == a.speed
    &&& b.longevity == a.longevity
    &&& b.is_on_colony == a.is_on_colony
    &&& b.is_on_food == a.is_on_food
    &&& b.carrying_food == a.carrying_food
    &&& b.fight_opponents@ == a.fight_opponents@
    &&& b.memory == a.memory
    &&& b.think_timer == a.think_timer
    &&& b.try_attack == a.try_attack
}

/// An in-map position's cell is in bounds, and floors round as expected.
pub proof fn lemma_pos_cell_bounds(p: Pos, w: int, h: int)
    requires
        pos_in_map(p, w, h),
    ensures
        0 <= p.x as int / (MILLI as int) < w,
        0 <= p.y as int / (MILLI as int) < h,
{
    assert(0 <= p.x as int / 1000 && p.x as int / 1000 < w) by (nonlinear_arith)
        requires
            0 <= p.x < w * 1000,
    ;
    assert(0 <= p.y as int / 1000 && p.y as int / 1000 < h) by (nonlinear_arith)
        requires
            0 <= p.y < h * 1000,
    ;
}

/// All fields but food/longevity state and the think timer are untouched.
pub open spec fn unchanged_but_food_state(a: Ant, b: Ant) -> bool {
    &&& b.ant_ref == a.ant_ref
    &&& b.pos == a.pos
    &&& b.rotation == a.rotation
    &&& b.speed == a.speed
    &&& b.is_on_colony == a.is_on_colony
    &&& b.fight_opponents@ == a.fight_opponents@
    &&& b.memory == a.memory
    &&& b.try_attack == a.try_attack
    &&& b.think_timer.max_value == a.think_timer.max_value
}

/// All fields but the position are untouched.
pub open spec fn unchanged_but_pos(a: Ant, b: Ant) -> bool {
    &&& b.ant_ref == a.ant_ref
    &&& b.rotation == a.rotation
    &&& b.speed == a.speed
    &&& b.longevity == a.longevity
    &&& b.is_on_colony == a.is_on_colony
    &&& b.is_on_food == a.is_on_food
    &&& b.carrying_food == a.carrying_food
    &&& b.fight_opponents@ == a.fight_opponents@
    &&& b.memory == a.memory
    &&& b.think_timer == a.think_timer
    &&& b.try_attack == a.try_attack
}

impl Ant {
    /// Tries to open a fight with the ant behind `opponent_ref`: it must
    /// still live within `ANT_LENGTH_MC`, and both sides then queue each
    /// other with fixed opposite orientations. Nobody moves or takes
    /// damage here. Reports whether the fight was established.
    pub fn try_initiate_fight(&mut self, opponent_ref: &AntRef,
        others: &mut Vec<crate::colony::Colony>, dims: Ghost<(int, int)>) -> (r: bool)
        requires
            1 <= dims@.0 <= crate::MAX_MAP_DIM,
            1 <= dims@.1 <= crate::MAX_MAP_DIM,
            crate::colony::colonies_wf(old(others)@, dims@.0, dims@.1),
            crate::colony::distinct_ids(old(others)@),
            old(self).wf(dims@.0, dims@.1),
        ensures
            crate::colony::colonies_wf(final(others)@, dims@.0, dims@.1),
            final(self).wf(dims@.0, dims@.1),
            crate::colony::combat_frame(old(others)@, final(others)@),
            forall|ci: int, ai: int| 0 <= ci < old(others).len()
                && 0 <= ai < old(others)[ci].ants.len()
                ==> (#[trigger] final(others)[ci].ants[ai]).ant.longevity
                    == old(others)[ci].ants[ai].ant.longevity,
            unchanged_but_opponents(*old(self), *final(self)),
            r ==> final(self).fighting(),
            // the fight opens exactly when the opponent is alive in reach,
            // not already queued here, and not already listing this ant
            r == ({
                &&& crate::colony::live_target_in_reach(old(others)@, *opponent_ref, old(self).pos)
                &&& !(exists|i: int| 0 <= i < old(self).fight_opponents.len()
                        && (#[trigger] old(self).fight_opponents[i]).ant_ref == *opponent_ref)
                &&& !(exists|ci: int, ai: int, k: int|
                        #![trigger crate::colony::indexes_ref(old(others)@, ci, ai, *opponent_ref),
                            old(others)@[ci].ants[ai].ant.fight_opponents[k]]
                        crate::colony::indexes_ref(old(others)@, ci, ai, *opponent_ref)
                        && 0 <= k < old(others)@[ci].ants[ai].ant.fight_opponents.len()
                        && old(others)@[ci].ants[ai].ant.fight_opponents[k].ant_ref
                            == old(self).ant_ref)
            }),
            // a failed attempt changes no queue on either side
            !r ==> final(self).fight_opponents@ == old(self).fight_opponents@
                && forall|ci: int, ai: int| 0 <= ci < old(others).len()
                    && 0 <= ai < old(others)@[ci].ants.len()
                    ==> (#[trigger] final(others)@[ci].ants[ai]).key == old(others)@[ci].ants[ai].key
                        && same_ant_state(old(others)@[ci].ants[ai].ant,
                            final(others)@[ci].ants[ai].ant),
            // a successful one queues each side with opposite orientations
            forall|ci: int, ai: int| r
                && #[trigger] crate::colony::indexes_ref(old(others)@, ci, ai, *opponent_ref)
                ==> ({
                    let ori = crate::fixmath::atan2_value(
                        old(others)@[ci].ants[ai].ant.pos.y - old(self).pos.y,
                        old(others)@[ci].ants[ai].ant.pos.x - old(self).pos.x);
                    &&& final(self).fight_opponents@ == old(self).fight_opponents@.push(
                        FightOpponent { ant_ref: *opponent_ref, orientation: ori as i64 })
                    &&& final(others)@[ci].ants[ai].ant.fight_opponents@
                        == old(others)@[ci].ants[ai].ant.fight_opponents@.push(
                            FightOpponent {
                                ant_ref: old(self).ant_ref,
                                orientation: crate::fixmath::norm_angle(
                                    ori + crate::HALF_TURN_MRAD) as i64,
                            })
                }),
            forall|ci: int, ai: int| 0 <= ci < old(others).len()
                && 0 <= ai < old(others)@[ci].ants.len()
                && !crate::colony::indexes_ref(old(others)@, ci, ai, *opponent_ref)
                ==> (#[trigger] final(others)@[ci].ants[ai]) == old(others)@[ci].ants[ai],
    {
        let ghost others0 = others@;
        let ci = match crate::colony::find_colony(others, opponent_ref.colony_id) {
            Some(ci) => ci,
            None => {
                proof {
                    assert forall|ci2: int, ai2: int|
                        !crate::colony::indexes_ref(others0, ci2, ai2, *opponent_ref) by {
                        if 0 <= ci2 < others0.len() {
                            assert(others0[ci2].colony_id != opponent_ref.colony_id);
                        }
                    }
                }
                return false;
            },
        };
        let ai = match crate::colony::find_ant(&others[ci], opponent_ref.key) {
            Some(ai) => ai,
            None => {
                proof {
                    lemma_no_target_without_key(others0, ci as int, *opponent_ref, self.pos);
                }
                return false;
            },
        };
        proof {
            lemma_ref_index_unique(others0, ci as int, ai as int, *opponent_ref);
        }
        if others[ci].ants[ai].ant.is_dead() {
            proof {
                lemma_no_live_target(others0, ci as int, ai as int, *opponent_ref, self.pos);
            }
            return false;
        }
        let opp_pos = others[ci].ants[ai].ant.pos;
        let opp_ref = others[ci].ants[ai].ant.ant_ref;
        let dx = opp_pos.x - self.pos.x;
        let dy = opp_pos.y - self.pos.y;
        proof {
            lemma_square_bound(dx as int, 4_096_000);
            lemma_square_bound(dy as int, 4_096_000);
        }
        let dist_sq = dx * dx + dy * dy;
        if dist_sq > crate::ANT_LENGTH_MC * crate::ANT_LENGTH_MC {
            proof {
                lemma_no_live_target(others0, ci as int, ai as int, *opponent_ref, self.pos);
            }
            return false;
        }
        proof {
            assert(crate::colony::indexes_ref(others0, ci as int, ai as int, *opponent_ref));
            assert(crate::colony::live_target_in_reach(others0, *opponent_ref, self.pos));
        }
        let orientation = crate::fixmath::atan2_mrad(dy, dx);
        if !self.try_add_opponent(&opp_ref, orientation) {
            return false;
        }
        let back = normalize_angle(orientation + HALF_TURN_MRAD);
        let my_ref = self.ant_ref;
        let colony = &mut others[ci];
        let entry = &mut colony.ants[ai];
        let added = entry.ant.try_add_opponent(&my_ref, back);
        proof {
            assert forall|cj: int| 0 <= cj < others0.len()
                implies crate::colony::colony_combat_frame(#[trigger] others0[cj], final(others)@[cj])
                    && final(others)@[cj].wf(dims@.0, dims@.1) by {
                if cj != ci {
                    assert(final(others)@[cj] == others0[cj]);
                }
            }
        }
        if !added {
            // take back the half-opened fight: drop the entry just queued
            let _ = self.fight_opponents.pop();
            proof {
                assert(self.fight_opponents@ =~= old(self).fight_opponents@);
            }
            return false;
        }
        true
    }

    /// One swing at a queued opponent: face it, and if it is still listed,
    /// alive and in reach, deal it the attack damage (a kill removes it
    /// from the queue and partially rejuvenates the attacker). An absent,
    /// dead or out-of-reach opponent is dropped from the queue instead.
    /// Reports whether the hit landed.
    pub fn try_attack_opponent(&mut self, fo: &FightOpponent,
        others: &mut Vec<crate::colony::Colony>, dims: Ghost<(int, int)>) -> (r: bool)
        requires
            1 <= dims@.0 <= crate::MAX_MAP_DIM,
            1 <= dims@.1 <= crate::MAX_MAP_DIM,
            crate::colony::colonies_wf(old(others)@, dims@.0, dims@.1),
            crate::colony::distinct_ids(old(others)@),
            old(self).wf(dims@.0, dims@.1),
            exists|i: int| 0 <= i < old(self).fight_opponents.len()
                && (#[trigger] old(self).fight_opponents[i]).ant_ref == fo.ant_ref,
            0 <= fo.orientation < TAU_MRAD,
        ensures
            crate::colony::colonies_wf(final(others)@, dims@.0, dims@.1),
            final(self).wf(dims@.0, dims@.1),
            crate::colony::combat_frame(old(others)@, final(others)@),
            unchanged_but_combat(*old(self), *final(self)),
            final(self).rotation == fo.orientation,
            !r ==> final(self).fight_opponents.len() < old(self).fight_opponents.len(),
            final(self).fight_opponents.len() <= old(self).fight_opponents.len(),
            forall|fo2: FightOpponent| final(self).fight_opponents@.contains(fo2)
                ==> old(self).fight_opponents@.contains(fo2),
            // a hit lands exactly when the named opponent is alive in reach
            r == crate::colony::live_target_in_reach(old(others)@, fo.ant_ref, old(self).pos),
            // the struck opponent loses exactly the attack damage; every
            // other ant keeps its exact state
            forall|ci: int, ai: int| 0 <= ci < old(others).len()
                && 0 <= ai < old(others)@[ci].ants.len()
                ==> if r && crate::colony::indexes_ref(old(others)@, ci, ai, fo.ant_ref) {
                    &&& (#[trigger] final(others)@[ci].ants[ai]).key == old(others)@[ci].ants[ai].key
                    &&& unchanged_but_longevity(old(others)@[ci].ants[ai].ant,
                        final(others)@[ci].ants[ai].ant)
                    &&& final(others)@[ci].ants[ai].ant.longevity
                        == after_hit(old(others)@[ci].ants[ai].ant.longevity)
                } else {
                    (#[trigger] final(others)@[ci].ants[ai]) == old(others)@[ci].ants[ai]
                },
            // a kill restores the attacker fully and drops the opponent
            ({
                let killed = r && exists|ci: int, ai: int|
                    #[trigger] crate::colony::indexes_ref(old(others)@, ci, ai, fo.ant_ref)
                    && old(others)@[ci].ants[ai].ant.longevity <= crate::ANT_ATTACK_DAMAGE_MS;
                &&& (killed ==> final(self).longevity == crate::MAX_LONGEVITY_MS
                        && forall|k: int| 0 <= k < final(self).fight_opponents.len()
                            ==> (#[trigger] final(self).fight_opponents[k]).ant_ref.key
                                != fo.ant_ref.key)
                &&& (r && !killed ==> final(self).longevity == old(self).longevity
                        && final(self).fight_opponents@ == old(self).fight_opponents@)
                &&& (!r ==> final(self).longevity == old(self).longevity
                        && forall|k: int| 0 <= k < final(self).fight_opponents.len()
                            ==> (#[trigger] final(self).fight_opponents[k]).ant_ref.key
                                != fo.ant_ref.key)
            }),
    {
        self.rotation = fo.orientation;
        let mut hit = false;
        let mut target_ok = false;
        let ghost others0 = others@;
        match crate::colony::find_colony(others, fo.ant_ref.colony_id) {
            Some(ci) => {
                match crate::colony::find_ant(&others[ci], fo.ant_ref.key) {
                    Some(ai) => {
                        proof {
                            lemma_ref_index_unique(others0, ci as int, ai as int, fo.ant_ref);
                        }
                        let opp_pos = others[ci].ants[ai].ant.pos;
                        let dx = opp_pos.x - self.pos.x;
                        let dy = opp_pos.y - self.pos.y;
                        proof {
                            lemma_square_bound(dx as int, 4_096_000);
                            lemma_square_bound(dy as int, 4_096_000);
                        }
                        let dist_sq = dx * dx + dy * dy;
                        let alive = !others[ci].ants[ai].ant.is_dead();
                        if alive && dist_sq <= crate::ANT_LENGTH_MC * crate::ANT_LENGTH_MC {
                            proof {
                                assert(crate::colony::indexes_ref(others0, ci as int, ai as int,
                                    fo.ant_ref));
                                assert(crate::colony::live_target_in_reach(others0, fo.ant_ref,
                                    self.pos));
                            }
                            target_ok = true;
                            let colony = &mut others[ci];
                            let entry = &mut colony.ants[ai];
                            entry.ant.take_damage(crate::ANT_ATTACK_DAMAGE_MS);
                            let killed = entry.ant.is_dead();
                            hit = true;
                            proof {
                                assert forall|cj: int| 0 <= cj < others0.len()
                                    implies crate::colony::colony_combat_frame(
                                        #[trigger] others0[cj], final(others)@[cj])
                                        && final(others)@[cj].wf(dims@.0, dims@.1) by {
                                    if cj != ci {
                                        assert(final(others)@[cj] == others0[cj]);
                                    }
                                }
                            }
                            if killed {
                                let half = self.longevity / 2;
                                self.rejuvenate_by(crate::MAX_LONGEVITY_MS - half);
                                self.remove_opponent(fo.ant_ref.key);
                            }
                        } else {
                            proof {
                                lemma_no_live_target(others0, ci as int, ai as int, fo.ant_ref,
                                    self.pos);
                            }
                        }
                    },
                    None => {
                        proof {
                            lemma_no_target_without_key(others0, ci as int, fo.ant_ref, self.pos);
                        }
                    },
                }
            },
            None => {
                proof {
                    assert forall|ci2: int, ai2: int|
                        !crate::colony::indexes_ref(others0, ci2, ai2, fo.ant_ref) by {
                        if 0 <= ci2 < others0.len() {
                            assert(others0[ci2].colony_id != fo.ant_ref.colony_id);
                        }
                    }
                    assert(!crate::colony::live_target_in_reach(others0, fo.ant_ref, self.pos));
                }
            },
        }
        if !target_ok {
            self.remove_opponent(fo.ant_ref.key);
        }
        hit
    }

    /// A fighting tick: swing at the head of the opponent queue, dropping
    /// stale entries, until a hit lands or the queue empties. The ant does
    /// not move.
    pub fn handle_fight(&mut self, others: &mut Vec<crate::colony::Colony>,
        dims: Ghost<(int, int)>) -> (r: bool)
        requires
            1 <= dims@.0 <= crate::MAX_MAP_DIM,
            1 <= dims@.1 <= crate::MAX_MAP_DIM,
            crate::colony::colonies_wf(old(others)@, dims@.0, dims@.1),
            crate::colony::distinct_ids(old(others)@),
            old(self).wf(dims@.0, dims@.1),
        ensures
            crate::colony::colonies_wf(final(others)@, dims@.0, dims@.1),
            final(self).wf(dims@.0, dims@.1),
            crate::colony::combat_frame(old(others)@, final(others)@),
            unchanged_but_combat(*old(self), *final(self)),
            // no hit means the whole queue proved stale and was emptied
            !r ==> final(self).fight_opponents.len() == 0,
            // ants not listed in the queue keep their exact state
            forall|ci: int, ai: int| 0 <= ci < old(others).len()
                && 0 <= ai < old(others)@[ci].ants.len()
                && !(exists|k: int| 0 <= k < old(self).fight_opponents.len()
                    && (#[trigger] old(self).fight_opponents[k]).ant_ref == (AntRef {
                        key: old(others)@[ci].ants[ai].key,
                        colony_id: old(others)@[ci].colony_id,
                    }))
                ==> (#[trigger] final(others)@[ci].ants[ai]) == old(others)@[ci].ants[ai],
            // a fighting ant ends facing one of its queued opponents
            old(self).fighting() ==> exists|k: int| 0 <= k < old(self).fight_opponents.len()
                && final(self).rotation == (#[trigger] old(self).fight_opponents[k]).orientation,
            !old(self).fighting() ==> same_ant_state(*old(self), *final(self))
                && final(others)@ == old(others)@,
    {
        let ghost mut swung: bool = false;
        while self.fight_opponents.len() > 0
            invariant
                crate::colony::colonies_wf(others@, dims@.0, dims@.1),
                crate::colony::distinct_ids(others@),
                self.wf(dims@.0, dims@.1),
                crate::colony::combat_frame(old(others)@, others@),
                unchanged_but_combat(*old(self), *self),
                swung ==> exists|k: int| 0 <= k < old(self).fight_opponents.len()
                    && self.rotation == (#[trigger] old(self).fight_opponents[k]).orientation,
                !swung ==> self.fight_opponents@ == old(self).fight_opponents@
                    && self.rotation == old(self).rotation
                    && self.longevity == old(self).longevity
                    && others@ == old(others)@,
                forall|fo2: FightOpponent| self.fight_opponents@.contains(fo2)
                    ==> old(self).fight_opponents@.contains(fo2),
                forall|ci: int, ai: int| 0 <= ci < old(others).len()
                    && 0 <= ai < old(others)@[ci].ants.len()
                    && !(exists|k: int| 0 <= k < old(self).fight_opponents.len()
                        && (#[trigger] old(self).fight_opponents[k]).ant_ref == (AntRef {
                            key: old(others)@[ci].ants[ai].key,
                            colony_id: old(others)@[ci].colony_id,
                        }))
                    ==> (#[trigger] others@[ci].ants[ai]) == old(others)@[ci].ants[ai],
            decreases self.fight_opponents.len(),
        {
            let fo = self.fight_opponents[0];
            proof {
                assert(self.fight_opponents@.contains(fo));
                assert(old(self).fight_opponents@.contains(fo));
            }
            let ghost mid = others@;
            let ghost queue_mid = self.fight_opponents@;
            let hit = self.try_attack_opponent(&fo, others, dims);
            proof {
                swung = true;
                lemma_combat_frame_trans(old(others)@, mid, others@);
                assert forall|i: int, j: int| 0 <= i < j < others@.len()
                    implies others@[i].colony_id != others@[j].colony_id by {
                    assert(crate::colony::colony_combat_frame(old(others)@[i], others@[i]));
                    assert(crate::colony::colony_combat_frame(old(others)@[j], others@[j]));
                }
                assert forall|ci: int, ai: int| 0 <= ci < old(others).len()
                    && 0 <= ai < old(others)@[ci].ants.len()
                    && !(exists|k: int| 0 <= k < old(self).fight_opponents.len()
                        && (#[trigger] old(self).fight_opponents[k]).ant_ref == (AntRef {
                            key: old(others)@[ci].ants[ai].key,
                            colony_id: old(others)@[ci].colony_id,
                        }))
                    implies (#[trigger] others@[ci].ants[ai]) == old(others)@[ci].ants[ai] by {
                    if hit && crate::colony::indexes_ref(mid, ci, ai, fo.ant_ref) {
                        let k = choose|k: int| 0 <= k < old(self).fight_opponents@.len()
                            && old(self).fight_opponents@[k] == fo;
                        assert(old(self).fight_opponents[k].ant_ref == (AntRef {
                            key: old(others)@[ci].ants[ai].key,
                            colony_id: old(others)@[ci].colony_id,
                        }));
                        assert(false);
                    }
                }
            }
            if hit {
                return true;
            }
        }
        false
    }
}

/// Combat may change an ant's rotation, longevity and opponent queue,
/// never its position or anything else.
pub open spec fn unchanged_but_combat(a: Ant, b: Ant) -> bool {
    &&& b.ant_ref == a.ant_ref
    &&& b.pos == a.pos
    &&& b.speed == a.speed
    &&& b.is_on_colony == a.is_on_colony
    &&& b.is_on_food == a.is_on_food
    &&& b.carrying_food == a.carrying_food
    &&& b.memory == a.memory
    &&& b.think_timer == a.think_timer
    &&& b.try_attack == a.try_attack
}

/// `combat_frame`, for a single bystander ant: position and everything
/// but longevity and the opponent queue are fixed, longevity never rises.
pub open spec fn ant_combat_frame(a: Ant, b: Ant) -> bool {
    &&& b.ant_ref == a.ant_ref
    &&& b.pos == a.pos
    &&& b.rotation == a.rotation
    &&& b.speed == a.speed
    &&& b.longevity <= a.longevity
    &&& b.is_on_colony == a.is_on_colony
    &&& b.is_on_food == a.is_on_food
    &&& b.carrying_food == a.carrying_food
    &&& b.memory == a.memory
    &&& b.think_timer == a.think_timer
    &&& b.try_attack == a.try_attack
}

/// The bystander combat frame composes.
pub proof fn lemma_combat_frame_trans(a: Seq<crate::colony::Colony>,
    b: Seq<crate::colony::Colony>, c: Seq<crate::colony::Colony>)
    requires
        crate::colony::combat_frame(a, b),
        crate::colony::combat_frame(b, c),
    ensures
        crate::colony::combat_frame(a, c),
{
    assert forall|ci: int| 0 <= ci < a.len()
        implies crate::colony::colony_combat_frame(#[trigger] a[ci], c[ci]) by {
        assert(crate::colony::colony_combat_frame(a[ci], b[ci]));
        assert(crate::colony::colony_combat_frame(b[ci], c[ci]));
        assert forall|ai: int| 0 <= ai < a[ci].ants.len()
            implies (#[trigger] c[ci].ants[ai]).key == a[ci].ants[ai].key
                && ant_combat_frame(a[ci].ants[ai].ant, c[ci].ants[ai].ant) by {
            assert(b[ci].ants[ai].key == a[ci].ants[ai].key
                && ant_combat_frame(a[ci].ants[ai].ant, b[ci].ants[ai].ant));
            assert(c[ci].ants[ai].key == b[ci].ants[ai].key
                && ant_combat_frame(b[ci].ants[ai].ant, c[ci].ants[ai].ant));
        }
    }
}

/// With distinct colony ids and per-colony unique keys, a reference is
/// indexed by at most one `(colony, ant)` pair.
pub proof fn lemma_ref_index_unique(cs: Seq<crate::colony::Colony>, ci: int, ai: int, r: AntRef)
    requires
        crate::colony::distinct_ids(cs),
        forall|i: int| 0 <= i < cs.len() ==> forall|a: int, b: int|
            0 <= a < b < (#[trigger] cs[i]).ants.len() ==> cs[i].ants[a].key != cs[i].ants[b].key,
        crate::colony::indexes_ref(cs, ci, ai, r),
    ensures
        forall|ci2: int, ai2: int| #[trigger] crate::colony::indexes_ref(cs, ci2, ai2, r)
            ==> ci2 == ci && ai2 == ai,
{
    assert forall|ci2: int, ai2: int| #[trigger] crate::colony::indexes_ref(cs, ci2, ai2, r)
        implies ci2 == ci && ai2 == ai by {
        if ci2 != ci {
            assert(cs[ci].colony_id == cs[ci2].colony_id);
            if ci < ci2 {
                assert(false);
            } else {
                assert(false);
            }
        }
        if ai2 != ai {
            if ai < ai2 {
                assert(cs[ci].ants[ai].key != cs[ci].ants[ai2].key);
            } else {
                assert(cs[ci].ants[ai2].key != cs[ci].ants[ai].key);
            }
        }
    }
}

/// If the sole pair indexing a reference holds a dead or out-of-reach
/// ant, no live target is in reach.
proof fn lemma_no_live_target(cs: Seq<crate::colony::Colony>, ci: int, ai: int, r: AntRef, p: Pos)
    requires
        crate::colony::distinct_ids(cs),
        forall|i: int| 0 <= i < cs.len() ==> forall|a: int, b: int|
            0 <= a < b < (#[trigger] cs[i]).ants.len() ==> cs[i].ants[a].key != cs[i].ants[b].key,
        crate::colony::indexes_ref(cs, ci, ai, r),
        !(cs[ci].ants[ai].ant.longevity > 0 && within_reach(p, cs[ci].ants[ai].ant.pos)),
    ensures
        !crate::colony::live_target_in_reach(cs, r, p),
{
    lemma_ref_index_unique(cs, ci, ai, r);
}

/// If the reference's colony lists no ant with its key, no target exists.
proof fn lemma_no_target_without_key(cs: Seq<crate::colony::Colony>, ci: int, r: AntRef, p: Pos)
    requires
        crate::colony::distinct_ids(cs),
        0 <= ci < cs.len(),
        cs[ci].colony_id == r.colony_id,
        forall|a: int| 0 <= a < cs[ci].ants.len() ==> (#[trigger] cs[ci].ants[a]).key != r.key,
    ensures
        !crate::colony::live_target_in_reach(cs, r, p),
{
    assert forall|ci2: int, ai2: int|
        !crate::colony::indexes_ref(cs, ci2, ai2, r) by {
        if 0 <= ci2 < cs.len() && cs[ci2].colony_id == r.colony_id {
            if ci2 != ci {
                if ci < ci2 {
                    assert(false);
                } else {
                    assert(false);
                }
            }
        }
    }
}

/// Same observable ant state: every field equal, the opponent queue
/// compared by contents.
pub open spec fn same_ant_state(a: Ant, b: Ant) -> bool {
    &&& unchanged_but_opponents(a, b)
    &&& b.fight_opponents@ == a.fight_opponents@
    &&& b.longevity == a.longevity
}

/// Two positions within fighting reach of each other.
pub open spec fn within_reach(a: Pos, b: Pos) -> bool {
    let dx = b.x - a.x;
    let dy = b.y - a.y;
    dx * dx + dy * dy <= (crate::ANT_LENGTH_MC as int) * crate::ANT_LENGTH_MC
}

/// Longevity after one landed hit.
pub open spec fn after_hit(longevity: u32) -> int {
    if longevity >= crate::ANT_ATTACK_DAMAGE_MS {
        longevity - crate::ANT_ATTACK_DAMAGE_MS
    } else {
        0
    }
}

/// A value bounded in magnitude has a bounded square.
pub proof fn lemma_square_bound(v: int, b: int) by (nonlinear_arith)
    requires
        -b <= v <= b,
        0 <= b,
    ensures
        0 <= v * v <= b * b,
{
}

/// All fields but `longevity` are untouched.
pub open spec fn unchanged_but_longevity(a: Ant, b: Ant) -> bool {
    &&& b.ant_ref == a.ant_ref
    &&& b.pos == a.pos
    &&& b.rotation == a.rotation
    &&& b.speed == a.speed
    &&& b.is_on_colony == a.is_on_colony
    &&& b.is_on_food == a.is_on_food
    &&& b.carrying_food == a.carrying_food
    &&& b.fight_opponents@ == a.fight_opponents@
    &&& b.memory == a.memory
    &&& b.think_timer == a.think_timer
    &&& b.try_attack == a.try_attack
}

/// All fields but the opponent queue are untouched.
pub open spec fn unchanged_but_opponents(a: Ant, b: Ant) -> bool {
    &&& b.ant_ref == a.ant_ref
    &&& b.pos == a.pos
    &&& b.rotation == a.rotation
    &&& b.speed == a.speed
    &&& b.longevity == a.longevity
    &&& b.is_on_colony == a.is_on_colony
    &&& b.is_on_food == a.is_on_food
    &&& b.carrying_food == a.carrying_food
    &&& b.memory == a.memory
    &&& b.think_timer == a.think_timer
    &&& b.try_attack == a.try_attack
}

/// All fields but the nest flag and the think timer are untouched.
pub open spec fn unchanged_but_colony_flag(a: Ant, b: Ant) -> bool {
    &&& b.ant_ref == a.ant_ref
    &&& b.pos == a.pos
    &&& b.rotation == a.rotation
    &&& b.speed == a.speed
    &&& b.longevity == a.longevity
    &&& b.is_on_food == a.is_on_food
    &&& b.carrying_food == a.carrying_food
    &&& b.fight_opponents@ == a.fight_opponents@
    &&& b.memory == a.memory
    &&& b.try_attack == a.try_attack
}

} // verus!
