//! One colony: its ants, its private pheromone field, food accounting,
//! aging, spawning and despawning.

use vstd::prelude::*;
use crate::ant::{Ant, AntRef};
use crate::pheromone::PheromoneChannel;
use crate::map::GameMap;
use crate::terrain::Terrain;
use crate::timer::Timer;
use crate::rng::SimRng;
use crate::config::PlayerConfig;
use crate::fixmath::floor_cell;
use crate::{Pos, MILLI, MAX_COLONIES, PHEROMONE_CHANNEL_COUNT, PHEROMONE_DECAY_INTERVAL_MS,
    ANT_SPAWN_INTERVAL_MS, ANT_SPAWN_FOOD_COST, pos_in_map};

verus! {

/// One ant of a colony together with its stable key.
pub struct AntEntry {
    pub key: u64,
    pub ant: Ant,
}

/// One colony.
pub struct Colony {
    pub colony_id: u32,
    pub pos: Pos,
    pub color: u32,
    pub ants: Vec<AntEntry>,
    pub pheromones: Vec<PheromoneChannel>,
    pub food_collected: u32,
    pub player_config: PlayerConfig,
    pub pheromone_decay_timer: Timer,
    pub ant_spawn_timer: u64,
    pub next_key: u64,
}

impl Colony {
    /// Invariant against a `w x h` map: a full set of well-formed
    /// channels of the map's size, well-formed ants that carry their own
    /// key and this colony's id, and keys unique and below `next_key`.
    pub open spec fn wf(self, w: int, h: int) -> bool {
        &&& self.colony_id < MAX_COLONIES
        &&& pos_in_map(self.pos, w, h)
        &&& self.pheromones.len() == PHEROMONE_CHANNEL_COUNT
        &&& forall|ch: int| 0 <= ch < PHEROMONE_CHANNEL_COUNT ==> {
                &&& (#[trigger] self.pheromones[ch]).wf()
                &&& self.pheromones[ch].width == w
                &&& self.pheromones[ch].height == h
            }
        &&& forall|i: int| 0 <= i < self.ants.len() ==> (#[trigger] self.ants[i]).ant.wf(w, h)
        &&& forall|i: int| 0 <= i < self.ants.len()
                ==> (#[trigger] self.ants[i]).ant.ant_ref == (AntRef {
                    key: self.ants[i].key,
                    colony_id: self.colony_id,
                })
        &&& forall|i: int| 0 <= i < self.ants.len() ==> (#[trigger] self.ants[i]).key < self.next_key
        &&& forall|i: int, j: int| 0 <= i < j < self.ants.len()
                ==> self.ants[i].key != self.ants[j].key
        &&& self.pheromone_decay_timer.max_value == PHEROMONE_DECAY_INTERVAL_MS
    }

    /// Every ant of the colony is registered exactly at its position.
    pub open spec fn ants_tracked(self, m: GameMap) -> bool {
        forall|i: int| 0 <= i < self.ants.len()
            ==> crate::map::tracked_exactly(m, (#[trigger] self.ants[i]).ant.ant_ref,
                self.ants[i].ant.pos)
    }

    /// No cell of the map holds a reference of this colony with a key at
    /// or above `next_key`: freshly drawn keys are unused in the index.
    pub open spec fn keys_below_next(self, m: GameMap) -> bool {
        forall|gx: int, gy: int, r: AntRef|
            m.cell_in_bounds(gx, gy) && #[trigger] m.cell_refs(gx, gy).contains(r)
                && r.colony_id == self.colony_id
                ==> r.key < self.next_key
    }

    /// Creates a colony with no ants yet and zeroed pheromone channels
    /// using the decay rates its brain declared at setup.
    pub fn new(colony_id: u32, pos: Pos, map_width: u32, map_height: u32, color: u32,
        player_config: PlayerConfig, decay_rates: &[u32; PHEROMONE_CHANNEL_COUNT]) -> (r: Colony)
        requires
            colony_id < MAX_COLONIES,
            1 <= map_width <= crate::MAX_MAP_DIM,
            1 <= map_height <= crate::MAX_MAP_DIM,
            pos_in_map(pos, map_width as int, map_height as int),
        ensures
            r.wf(map_width as int, map_height as int),
            r.colony_id == colony_id,
            r.pos == pos,
            r.color == color,
            r.ants.len() == 0,
            r.food_collected == 0,
            r.next_key == 0,
            r.ant_spawn_timer == 0,
            forall|ch: int, i: int| 0 <= ch < PHEROMONE_CHANNEL_COUNT
                && 0 <= i < r.pheromones[ch].data.len()
                ==> #[trigger] r.pheromones[ch].data[i] == 0,
    {
        proof {
            assert((map_width as int) * (map_height as int) <= 4096 * 4096) by (nonlinear_arith)
                requires
                    map_width <= 4096,
                    map_height <= 4096,
            ;
        }
        let mut pheromones: Vec<PheromoneChannel> = Vec::new();
        let mut ch: usize = 0;
        while ch < PHEROMONE_CHANNEL_COUNT
            invariant
                ch <= PHEROMONE_CHANNEL_COUNT,
                pheromones.len() == ch,
                forall|c: int| 0 <= c < ch ==> {
                    &&& (#[trigger] pheromones[c]).wf()
                    &&& pheromones[c].width == map_width
                    &&& pheromones[c].height == map_height
                },
                forall|c: int, i: int| 0 <= c < ch && 0 <= i < pheromones[c].data.len()
                    ==> #[trigger] pheromones[c].data[i] == 0,
            decreases PHEROMONE_CHANNEL_COUNT - ch,
        {
            pheromones.push(PheromoneChannel::new(map_width, map_height, decay_rates[ch]));
            ch = ch + 1;
        }
        Colony {
            colony_id,
            pos,
            color,
            ants: Vec::new(),
            pheromones,
            food_collected: 0,
            player_config,
            pheromone_decay_timer: Timer::new(PHEROMONE_DECAY_INTERVAL_MS, 0),
            ant_spawn_timer: 0,
            next_key: 0,
        }
    }

    /// Advances the decay schedule: when the one-second timer fires, every
    /// channel decays (each sample scaled by its rate and snapped to zero
    /// below the floor) and the timer wraps.
    pub fn maybe_decay_pheromones(&mut self, dt_ms: u32)
        requires
            forall|ch: int| 0 <= ch < PHEROMONE_CHANNEL_COUNT
                ==> (#[trigger] old(self).pheromones[ch]).wf(),
            old(self).pheromones.len() == PHEROMONE_CHANNEL_COUNT,
            old(self).pheromone_decay_timer.max_value > 0,
        ensures
            colony_frame_but_pheromone_timer(*old(self), *final(self)),
            final(self).pheromones.len() == PHEROMONE_CHANNEL_COUNT,
            forall|ch: int| 0 <= ch < PHEROMONE_CHANNEL_COUNT ==> {
                &&& (#[trigger] final(self).pheromones[ch]).wf()
                &&& final(self).pheromones[ch].width == old(self).pheromones[ch].width
                &&& final(self).pheromones[ch].height == old(self).pheromones[ch].height
                &&& final(self).pheromones[ch].decay_rate == old(self).pheromones[ch].decay_rate
            },
            ({
                let fired = old(self).pheromone_decay_timer.value + dt_ms
                    >= old(self).pheromone_decay_timer.max_value;
                &&& (fired ==> forall|ch: int, i: int| 0 <= ch < PHEROMONE_CHANNEL_COUNT
                        && 0 <= i < old(self).pheromones[ch].data.len()
                        ==> #[trigger] final(self).pheromones[ch].data[i]
                            == crate::pheromone::decayed_sample(old(self).pheromones[ch].data[i],
                                old(self).pheromones[ch].decay_rate))
                &&& (fired ==> forall|ch: int, i: int| 0 <= ch < PHEROMONE_CHANNEL_COUNT
                        && 0 <= i < final(self).pheromones[ch].data.len()
                        ==> #[trigger] final(self).pheromones[ch].data[i] == 0
                            || final(self).pheromones[ch].data[i] >= crate::PHEROMONE_FLOOR_MILLI)
                &&& (!fired ==> forall|ch: int| 0 <= ch < PHEROMONE_CHANNEL_COUNT
                        ==> #[trigger] final(self).pheromones[ch].data@
                            == old(self).pheromones[ch].data@)
            }),
    {
        self.pheromone_decay_timer.update(dt_ms as u64);
        if self.pheromone_decay_timer.is_ready() {
            let mut ch: usize = 0;
            while ch < PHEROMONE_CHANNEL_COUNT
                invariant
                    ch <= PHEROMONE_CHANNEL_COUNT,
                    self.pheromones.len() == PHEROMONE_CHANNEL_COUNT,
                    colony_frame_but_pheromone_timer(*old(self), *self),
                    self.pheromone_decay_timer.max_value == old(self).pheromone_decay_timer.max_value,
                    forall|c: int| 0 <= c < PHEROMONE_CHANNEL_COUNT ==> {
                        &&& (#[trigger] self.pheromones[c]).wf()
                        &&& self.pheromones[c].width == old(self).pheromones[c].width
                        &&& self.pheromones[c].height == old(self).pheromones[c].height
                        &&& self.pheromones[c].decay_rate == old(self).pheromones[c].decay_rate
                    },
                    forall|c: int, i: int| 0 <= c < ch && 0 <= i < old(self).pheromones[c].data.len()
                        ==> #[trigger] self.pheromones[c].data[i]
                            == crate::pheromone::decayed_sample(old(self).pheromones[c].data[i],
                                old(self).pheromones[c].decay_rate),
                    forall|c: int, i: int| 0 <= c < ch && 0 <= i < self.pheromones[c].data.len()
                        ==> #[trigger] self.pheromones[c].data[i] == 0
                            || self.pheromones[c].data[i] >= crate::PHEROMONE_FLOOR_MILLI,
                    forall|c: int| ch <= c < PHEROMONE_CHANNEL_COUNT
                        ==> #[trigger] self.pheromones[c].data@ == old(self).pheromones[c].data@,
                decreases PHEROMONE_CHANNEL_COUNT - ch,
            {
                let channel = &mut self.pheromones[ch];
                channel.decay();
                ch = ch + 1;
            }
            self.pheromone_decay_timer.wrap();
        }
    }

    /// The pheromone level of one channel at a cell; zero out of bounds
    /// or for an unknown channel.
    pub fn get_pheromone_channel_at(&self, x: u32, y: u32, channel_index: usize) -> (r: u32)
        requires
            forall|ch: int| 0 <= ch < self.pheromones.len()
                ==> (#[trigger] self.pheromones[ch]).wf(),
        ensures
            channel_index < self.pheromones.len()
                && x < self.pheromones[channel_index as int].width
                && y < self.pheromones[channel_index as int].height
                ==> r == self.pheromones[channel_index as int].sample(x as int, y as int),
            r <= crate::MAX_PHEROMONE_MILLI,
    {
        if channel_index < self.pheromones.len() {
            self.pheromones[channel_index].sample_at(x, y)
        } else {
            0
        }
    }

    /// A colony is dead exactly when it has no ants left.
    pub fn is_dead(&self) -> (r: bool)
        ensures
            r == (self.ants.len() == 0),
    {
        self.ants.len() == 0
    }
}

impl Colony {
    /// Spawns one ant at the nest with a fresh key and registers it in the
    /// spatial index. Every previously tracked ant stays tracked, and so
    /// is the newcomer.
    pub fn spawn_ant(&mut self, map: &mut GameMap, rng: &mut SimRng)
        requires
            old(map).wf(),
            old(self).wf(old(map).width as int, old(map).height as int),
            old(self).next_key < u64::MAX,
            old(self).keys_below_next(*old(map)),
        ensures
            final(map).wf(),
            crate::map::index_frame(*old(map), *final(map)),
            final(self).wf(final(map).width as int, final(map).height as int),
            spawn_frame(*old(self), *final(self)),
            final(self).ants.len() == old(self).ants.len() + 1,
            forall|i: int| 0 <= i < old(self).ants.len()
                ==> #[trigger] final(self).ants[i] == old(self).ants[i],
            final(self).ants[old(self).ants.len() as int].key == old(self).next_key,
            final(self).ants[old(self).ants.len() as int].ant.pos == old(self).pos,
            final(self).ants[old(self).ants.len() as int].ant.longevity == crate::MAX_LONGEVITY_MS,
            !final(self).ants[old(self).ants.len() as int].ant.carrying_food,
            !final(self).ants[old(self).ants.len() as int].ant.try_attack,
            final(self).ants[old(self).ants.len() as int].ant.fight_opponents.len() == 0,
            forall|b: int| 0 <= b < crate::MEMORY_SIZE
                ==> #[trigger] final(self).ants[old(self).ants.len() as int].ant.memory[b] == 0,
            final(self).next_key == old(self).next_key + 1,
            final(self).keys_below_next(*final(map)),
            old(self).ants_tracked(*old(map)) ==> final(self).ants_tracked(*final(map)),
            forall|r2: AntRef, p2: Pos| !(r2.colony_id == old(self).colony_id && r2.key >= old(self).next_key)
                ==> #[trigger] crate::map::tracked_exactly(*final(map), r2, p2)
                    == crate::map::tracked_exactly(*old(map), r2, p2),
            other_membership_eq(*old(map), *final(map), old(self).colony_id),
            other_tracking_eq(*old(map), *final(map), old(self).colony_id),
    {
        let key = self.next_key;
        self.next_key = self.next_key + 1;
        let ant = Ant::new(key, self.colony_id, self.pos, rng);
        let new_ref = ant.ant_ref;
        let ghost m0 = *map;
        map.register_ant_in_cell(&new_ref, ant.pos);
        let ghost m1 = *map;
        self.ants.push(AntEntry { key, ant });
        proof {
            let w = m0.width as int;
            let h = m0.height as int;
            let ncx = old(self).pos.x as int / (MILLI as int);
            let ncy = old(self).pos.y as int / (MILLI as int);
            crate::ant::lemma_pos_cell_bounds(old(self).pos, w, h);
            crate::pheromone::lemma_cell_index_in_range(w, h, ncx, ncy);
            crate::map::lemma_push_contains(m0.cell_refs(ncx, ncy), new_ref);
            // freshness: the new reference is nowhere in the old index
            assert forall|gx: int, gy: int| m0.cell_in_bounds(gx, gy)
                implies !(#[trigger] m0.cell_refs(gx, gy)).contains(new_ref) by {
                crate::pheromone::lemma_cell_index_in_range(w, h, gx, gy);
            }
            // the newcomer is tracked exactly at the nest
            assert(m1.cell_refs(ncx, ncy).contains(new_ref));
            assert forall|gx: int, gy: int| m1.cell_in_bounds(gx, gy) && !(gx == ncx && gy == ncy)
                implies !(#[trigger] m1.cell_refs(gx, gy)).contains(new_ref) by {
                crate::pheromone::lemma_cell_index_in_range(w, h, gx, gy);
                crate::pheromone::lemma_cell_index_injective(w, h, gx, gy, ncx, ncy);
                assert(m1.ants_in_cell[gy * w + gx]@ == m0.ants_in_cell[gy * w + gx]@);
                assert(!m0.cell_refs(gx, gy).contains(new_ref));
            }
            assert(crate::map::tracked_exactly(m1, new_ref, old(self).pos));
            // everyone else's registration is untouched
            assert forall|c: int, r2: AntRef| 0 <= c < m0.ants_in_cell.len() && r2 != new_ref
                implies #[trigger] m1.ants_in_cell[c]@.contains(r2)
                    == m0.ants_in_cell[c]@.contains(r2) by {
                if c == ncy * w + ncx {
                } else {
                    assert(m1.ants_in_cell[c]@ == m0.ants_in_cell[c]@);
                }
            }
            crate::map::lemma_tracking_preserved(m0, m1, new_ref);
            // keys stay below the bumped next key
            assert forall|gx: int, gy: int, r: AntRef|
                m1.cell_in_bounds(gx, gy) && #[trigger] m1.cell_refs(gx, gy).contains(r)
                    && r.colony_id == final(self).colony_id
                implies r.key < final(self).next_key by {
                crate::pheromone::lemma_cell_index_in_range(w, h, gx, gy);
                if gx == ncx && gy == ncy {
                    if r != new_ref {
                        assert(m0.cell_refs(ncx, ncy).contains(r));
                    }
                } else {
                    crate::pheromone::lemma_cell_index_injective(w, h, gx, gy, ncx, ncy);
                    assert(m1.ants_in_cell[gy * w + gx]@ == m0.ants_in_cell[gy * w + gx]@);
                    assert(m0.cell_refs(gx, gy).contains(r));
                }
            }
            if old(self).ants_tracked(m0) {
                assert forall|i: int| 0 <= i < final(self).ants.len()
                    implies crate::map::tracked_exactly(m1,
                        (#[trigger] final(self).ants[i]).ant.ant_ref,
                        final(self).ants[i].ant.pos) by {
                    if i < old(self).ants.len() {
                        assert(old(self).ants[i].ant.ant_ref.key == old(self).ants[i].key
                            && old(self).ants[i].key < old(self).next_key);
                        assert(old(self).ants[i].ant.ant_ref != new_ref);
                    }
                }
            }
            assert forall|c2: int, r2: AntRef| 0 <= c2 < m0.ants_in_cell.len()
                && r2.colony_id != old(self).colony_id
                implies #[trigger] m1.ants_in_cell[c2]@.contains(r2)
                    == m0.ants_in_cell[c2]@.contains(r2) by {
                assert(r2 != new_ref);
            }
            assert forall|r2: AntRef, p2: Pos| r2.colony_id != old(self).colony_id
                implies #[trigger] crate::map::tracked_exactly(m1, r2, p2)
                    == crate::map::tracked_exactly(m0, r2, p2) by {
                assert(r2 != new_ref);
            }
        }
    }

    /// Spawns `count` ants at the nest.
    pub fn spawn_ants(&mut self, map: &mut GameMap, count: u32, rng: &mut SimRng)
        requires
            old(map).wf(),
            old(self).wf(old(map).width as int, old(map).height as int),
            old(self).next_key + count < u64::MAX,
            old(self).keys_below_next(*old(map)),
            old(self).ants_tracked(*old(map)),
        ensures
            final(map).wf(),
            crate::map::index_frame(*old(map), *final(map)),
            final(self).wf(final(map).width as int, final(map).height as int),
            spawn_frame(*old(self), *final(self)),
            final(self).ants.len() == old(self).ants.len() + count,
            final(self).keys_below_next(*final(map)),
            final(self).ants_tracked(*final(map)),
            forall|r2: AntRef, p2: Pos| !(r2.colony_id == old(self).colony_id && r2.key >= old(self).next_key)
                ==> #[trigger] crate::map::tracked_exactly(*final(map), r2, p2)
                    == crate::map::tracked_exactly(*old(map), r2, p2),
            other_membership_eq(*old(map), *final(map), old(self).colony_id),
            other_tracking_eq(*old(map), *final(map), old(self).colony_id),
    {
        let mut spawned: u32 = 0;
        while spawned < count
            invariant
                spawned <= count,
                map.wf(),
                crate::map::index_frame(*old(map), *map),
                self.wf(map.width as int, map.height as int),
                spawn_frame(*old(self), *self),
                self.ants.len() == old(self).ants.len() + spawned,
                self.next_key == old(self).next_key + spawned,
                self.keys_below_next(*map),
                self.ants_tracked(*map),
                forall|r2: AntRef, p2: Pos| !(r2.colony_id == old(self).colony_id
                    && r2.key >= old(self).next_key)
                    ==> #[trigger] crate::map::tracked_exactly(*map, r2, p2)
                        == crate::map::tracked_exactly(*old(map), r2, p2),
                other_membership_eq(*old(map), *map, old(self).colony_id),
                other_tracking_eq(*old(map), *map, old(self).colony_id),
            decreases count - spawned,
        {
            self.spawn_ant(map, rng);
            spawned = spawned + 1;
        }
    }

    /// Removes the ant with the given key (if it is still listed): a
    /// carried food unit is dropped on open or food ground at its tile,
    /// and it is unregistered from the spatial index. Every other ant's
    /// registration is untouched.
    pub fn despawn_ant(&mut self, key: u64, map: &mut GameMap)
        requires
            old(map).wf(),
            old(self).wf(old(map).width as int, old(map).height as int),
        ensures
            final(map).wf(),
            final(self).wf(final(map).width as int, final(map).height as int),
            final(map).width == old(map).width,
            final(map).height == old(map).height,
            final(map).placeholder_colony_locations@ == old(map).placeholder_colony_locations@,
            final(map).loaded_map_name == old(map).loaded_map_name,
            spawn_frame(*old(self), *final(self)),
            final(self).next_key == old(self).next_key,
            ({
                let found = exists|i: int| 0 <= i < old(self).ants.len()
                    && (#[trigger] old(self).ants[i]).key == key;
                &&& (found ==> final(self).ants.len() == old(self).ants.len() - 1)
                &&& (!found ==> final(self).ants@ == old(self).ants@
                        && *final(map) == *old(map))
                &&& forall|j: int| 0 <= j < final(self).ants.len()
                        ==> (#[trigger] final(self).ants[j]).key != key
                            && old(self).ants@.contains(final(self).ants[j])
            }),
            forall|r2: AntRef, p2: Pos| r2 != (AntRef { key, colony_id: old(self).colony_id })
                ==> #[trigger] crate::map::tracked_exactly(*final(map), r2, p2)
                    == crate::map::tracked_exactly(*old(map), r2, p2),
            old(self).keys_below_next(*old(map)) ==> final(self).keys_below_next(*final(map)),
            old(self).ants_tracked(*old(map)) ==> final(self).ants_tracked(*final(map)),
            other_membership_eq(*old(map), *final(map), old(self).colony_id),
            other_tracking_eq(*old(map), *final(map), old(self).colony_id),
            final(map).rc_cache == old(map).rc_cache,
            forall|i: int| 0 <= i < old(map).tiles.len()
                ==> #[trigger] final(map).tiles[i] == old(map).tiles[i]
                    || (final(map).tiles[i].terrain is Food
                        && !(old(map).tiles[i].terrain is Wall)),
            // a carried food unit lands on the death tile (open ground
            // becomes one unit, piles grow by one); anything else, or an
            // empty-handed ant, leaves the terrain untouched
            forall|i: int| 0 <= i < old(self).ants.len()
                && (#[trigger] old(self).ants[i]).key == key
                ==> ({
                    let p = old(self).ants[i].ant.pos;
                    let cx = p.x as int / (MILLI as int);
                    let cy = p.y as int / (MILLI as int);
                    if old(self).ants[i].ant.carrying_food {
                        final(map).tiles@ == match old(map).terrain_at(cx, cy) {
                            Terrain::Empty => old(map).tiles@.update(old(map).idx_of(cx, cy),
                                crate::terrain::Tile { terrain: Terrain::Food(1) }),
                            Terrain::Food(a) => old(map).tiles@.update(old(map).idx_of(cx, cy),
                                crate::terrain::Tile { terrain: Terrain::Food(
                                    if a < u32::MAX { (a + 1) as u32 } else { a }) }),
                            _ => old(map).tiles@,
                        }
                    } else {
                        final(map).tiles@ == old(map).tiles@
                    }
                }),
            // the buried ant's reference leaves the spatial index entirely
            old(self).ants_tracked(*old(map)) && (exists|i: int| 0 <= i < old(self).ants.len()
                && (#[trigger] old(self).ants[i]).key == key)
                ==> forall|gx: int, gy: int| final(map).cell_in_bounds(gx, gy)
                    ==> !(#[trigger] final(map).cell_refs(gx, gy)).contains(AntRef {
                        key,
                        colony_id: old(self).colony_id,
                    }),
    {
        let n = self.ants.len();
        let mut i: usize = 0;
        let mut at: usize = n;
        while i < n
            invariant
                i <= n,
                at <= n,
                n == self.ants.len(),
                at < n ==> self.ants[at as int].key == key,
                at == n ==> forall|j: int| 0 <= j < i ==> (#[trigger] self.ants[j]).key != key,
            decreases n - i,
        {
            if at == n && self.ants[i].key == key {
                at = i;
            }
            i = i + 1;
        }
        if at == n {
            return;
        }
        let removed_ref = self.ants[at].ant.ant_ref;
        let ant_pos = self.ants[at].ant.pos;
        let carrying = self.ants[at].ant.carrying_food;
        proof {
            crate::ant::lemma_pos_cell_bounds(ant_pos, map.width as int, map.height as int);
        }
        if carrying {
            let cx = floor_cell(ant_pos.x) as u32;
            let cy = floor_cell(ant_pos.y) as u32;
            match map.get_terrain_at(cx, cy) {
                Some(Terrain::Empty) => {
                    map.place_food_at(cx, cy, 1);
                },
                Some(Terrain::Food(amount)) => {
                    let bumped = if amount < u32::MAX { amount + 1 } else { amount };
                    map.place_food_at(cx, cy, bumped);
                },
                _ => {},
            }
        }
        let ghost m1 = *map;
        map.unregister_ant_from_cell(&removed_ref, ant_pos);
        let ghost m2 = *map;
        let ghost ants0 = self.ants@;
        self.ants.remove(at);
        proof {
            let w = m1.width as int;
            let h = m1.height as int;
            let acx = ant_pos.x as int / (MILLI as int);
            let acy = ant_pos.y as int / (MILLI as int);
            crate::pheromone::lemma_cell_index_in_range(w, h, acx, acy);
            assert forall|c: int, r2: AntRef| 0 <= c < m1.ants_in_cell.len() && r2 != removed_ref
                implies #[trigger] m2.ants_in_cell[c]@.contains(r2)
                    == m1.ants_in_cell[c]@.contains(r2) by {
                if c != acy * w + acx {
                    assert(m2.ants_in_cell[c]@ == m1.ants_in_cell[c]@);
                }
            }
            crate::map::lemma_tracking_preserved(m1, m2, removed_ref);
            crate::map::lemma_tracking_preserved(*old(map), m1, removed_ref);
            assert(self.ants@ == ants0.remove(at as int));
            assert forall|j: int| 0 <= j < self.ants.len()
                implies (#[trigger] self.ants[j]).key != key
                    && ants0.contains(self.ants[j]) by {
                if j < at {
                    assert(self.ants[j] == ants0[j]);
                } else {
                    assert(self.ants[j] == ants0[j + 1]);
                }
            }
            if old(self).keys_below_next(*old(map)) {
                assert forall|gx: int, gy: int, r: AntRef|
                    m2.cell_in_bounds(gx, gy) && #[trigger] m2.cell_refs(gx, gy).contains(r)
                        && r.colony_id == final(self).colony_id
                    implies r.key < final(self).next_key by {
                    crate::pheromone::lemma_cell_index_in_range(w, h, gx, gy);
                    assert(m1.cell_refs(gx, gy).contains(r) == m2.cell_refs(gx, gy).contains(r)
                        || r == removed_ref);
                    if r != removed_ref {
                        assert(old(map).cell_refs(gx, gy).contains(r));
                    } else {
                        assert(r.key == key);
                        assert(old(self).ants[at as int].key == key);
                    }
                }
            }
            if old(self).ants_tracked(*old(map)) {
                // the buried reference is gone from every cell: it was
                // registered exactly at its own cell, which unregistering
                // emptied of it, and nowhere else to begin with
                assert(crate::map::tracked_exactly(*old(map), removed_ref, ant_pos));
                assert forall|gx: int, gy: int| m2.cell_in_bounds(gx, gy)
                    implies !(#[trigger] m2.cell_refs(gx, gy)).contains(removed_ref) by {
                    crate::pheromone::lemma_cell_index_in_range(w, h, gx, gy);
                    if gx == acx && gy == acy {
                        assert(!m2.cell_refs(acx, acy).contains(removed_ref));
                    } else {
                        crate::pheromone::lemma_cell_index_injective(w, h, gx, gy, acx, acy);
                        assert(m1.ants_in_cell[gy * w + gx]@ == old(map).ants_in_cell[gy * w + gx]@);
                        assert(m2.ants_in_cell[gy * w + gx]@ == m1.ants_in_cell[gy * w + gx]@);
                        assert(!old(map).cell_refs(gx, gy).contains(removed_ref));
                    }
                }
                assert forall|j: int| 0 <= j < final(self).ants.len()
                    implies crate::map::tracked_exactly(m2,
                        (#[trigger] final(self).ants[j]).ant.ant_ref,
                        final(self).ants[j].ant.pos) by {
                    let e = final(self).ants[j];
                    let oi = if j < at { j } else { j + 1 };
                    assert(e == ants0[oi]);
                    assert(e.ant.ant_ref.key == e.key && e.key != key);
                    assert(e.ant.ant_ref != removed_ref);
                    assert(crate::map::tracked_exactly(*old(map), e.ant.ant_ref, e.ant.pos));
                }
            }
            assert forall|c2: int, r2: AntRef| 0 <= c2 < old(map).ants_in_cell.len()
                && r2.colony_id != old(self).colony_id
                implies #[trigger] m2.ants_in_cell[c2]@.contains(r2)
                    == old(map).ants_in_cell[c2]@.contains(r2) by {
                assert(r2 != removed_ref);
                assert(m1.ants_in_cell[c2]@ == old(map).ants_in_cell[c2]@);
            }
            assert forall|r2: AntRef, p2: Pos| r2.colony_id != old(self).colony_id
                implies #[trigger] crate::map::tracked_exactly(m2, r2, p2)
                    == crate::map::tracked_exactly(*old(map), r2, p2) by {
                assert(r2 != removed_ref);
            }
        }
    }

    /// Replaces an ant (identified by key) with a fresh one at the nest;
    /// used when terrain edits would leave it inside a wall.
    pub fn respawn_ant(&mut self, key: u64, map: &mut GameMap, rng: &mut SimRng)
        requires
            old(map).wf(),
            old(self).wf(old(map).width as int, old(map).height as int),
            old(self).next_key < u64::MAX,
            old(self).keys_below_next(*old(map)),
            old(self).ants_tracked(*old(map)),
        ensures
            final(map).wf(),
            final(self).wf(final(map).width as int, final(map).height as int),
            final(map).width == old(map).width,
            final(map).height == old(map).height,
            final(map).placeholder_colony_locations@ == old(map).placeholder_colony_locations@,
            final(map).loaded_map_name == old(map).loaded_map_name,
            spawn_frame(*old(self), *final(self)),
            final(self).keys_below_next(*final(map)),
            final(self).ants_tracked(*final(map)),
            forall|r2: AntRef, p2: Pos| r2.colony_id != old(self).colony_id
                ==> #[trigger] crate::map::tracked_exactly(*final(map), r2, p2)
                    == crate::map::tracked_exactly(*old(map), r2, p2),
            other_membership_eq(*old(map), *final(map), old(self).colony_id),
            other_tracking_eq(*old(map), *final(map), old(self).colony_id),
            final(map).rc_cache == old(map).rc_cache,
            forall|i: int| 0 <= i < old(map).tiles.len()
                ==> #[trigger] final(map).tiles[i] == old(map).tiles[i]
                    || (final(map).tiles[i].terrain is Food
                        && !(old(map).tiles[i].terrain is Wall)),
            final(self).next_key >= old(self).next_key,
            // a replaced ant's key disappears for good: the replacement
            // stands at the nest under a fresh key
            (exists|i: int| 0 <= i < old(self).ants.len()
                && (#[trigger] old(self).ants[i]).key == key) ==> ({
                &&& final(self).ants.len() == old(self).ants.len()
                &&& forall|ai: int| 0 <= ai < final(self).ants.len()
                        ==> (#[trigger] final(self).ants[ai]).key != key
                &&& final(self).ants[old(self).ants.len() - 1].ant.pos == old(self).pos
            }),
            forall|k: u64| #![trigger key_absent(*old(self), k)]
                key_absent(*old(self), k) && k < old(self).next_key
                ==> key_absent(*final(self), k),
            !(exists|i: int| 0 <= i < old(self).ants.len()
                && (#[trigger] old(self).ants[i]).key == key)
                ==> final(self).ants@ == old(self).ants@ && *final(map) == *old(map)
                    && final(self).next_key == old(self).next_key,
    {
        let n = self.ants.len();
        let mut i: usize = 0;
        let mut found = false;
        while i < n
            invariant
                i <= n,
                n == self.ants.len(),
                found == exists|j: int| 0 <= j < i && (#[trigger] self.ants[j]).key == key,
            decreases n - i,
        {
            if self.ants[i].key == key {
                found = true;
            }
            i = i + 1;
        }
        if found {
            let ghost c0 = *self;
            self.despawn_ant(key, map);
            let ghost c1 = *self;
            self.spawn_ant(map, rng);
            proof {
                assert forall|k: u64| key_absent(c0, k) && k < c0.next_key
                    implies key_absent(*final(self), k) by {
                    assert forall|ai: int| 0 <= ai < final(self).ants.len()
                        implies (#[trigger] final(self).ants[ai]).key != k by {
                        if ai < c1.ants.len() {
                            assert(final(self).ants[ai] == c1.ants[ai]);
                            assert(c0.ants@.contains(c1.ants[ai]));
                            let j = choose|j: int| 0 <= j < c0.ants@.len()
                                && c0.ants@[j] == c1.ants[ai];
                        } else {
                            assert(final(self).ants[ai].key == c1.next_key);
                        }
                    }
                }
            }
        }
    }
}

impl Colony {
    /// The per-tick bookkeeping for one ant, before its own update: age it
    /// by `dt_ms` (reporting death), refresh its nest and food contact,
    /// and bank a carried food unit delivered at the nest (which also
    /// fully rejuvenates the carrier). The ant does not move here.
    #[verifier::rlimit(100)]
    #[verifier::spinoff_prover]
    pub fn age_and_check(&mut self, idx: usize, map: &mut GameMap, dt_ms: u32) -> (dead: bool)
        requires
            old(map).wf(),
            old(self).wf(old(map).width as int, old(map).height as int),
            idx < old(self).ants.len(),
        ensures
            final(map).wf(),
            final(self).wf(final(map).width as int, final(map).height as int),
            final(map).width == old(map).width,
            final(map).height == old(map).height,
            crate::map::cells_eq(*old(map), *final(map)),
            final(map).placeholder_colony_locations@ == old(map).placeholder_colony_locations@,
            final(map).loaded_map_name == old(map).loaded_map_name,
            forall|i: int| 0 <= i < old(map).tiles.len()
                && i != old(map).idx_of(old(self).ants[idx as int].ant.pos.x as int / (MILLI as int),
                    old(self).ants[idx as int].ant.pos.y as int / (MILLI as int))
                ==> #[trigger] final(map).tiles[i] == old(map).tiles[i],
            check_frame(*old(self), *final(self)),
            final(self).ants.len() == old(self).ants.len(),
            forall|j: int| 0 <= j < old(self).ants.len() && j != idx
                ==> #[trigger] final(self).ants[j] == old(self).ants[j],
            final(self).ants[idx as int].key == old(self).ants[idx as int].key,
            final(self).ants[idx as int].ant.pos == old(self).ants[idx as int].ant.pos,
            final(self).ants[idx as int].ant.fight_opponents@
                == old(self).ants[idx as int].ant.fight_opponents@,
            dead == (old(self).ants[idx as int].ant.longevity <= dt_ms),
            dead ==> final(self).ants[idx as int].ant.longevity == 0
                && final(self).ants[idx as int].ant == old(self).ants[idx as int].ant.spec_aged()
                && *final(map) == *old(map)
                && final(self).food_collected == old(self).food_collected,
            // the survivor ages by exactly dt unless a food pickup or a
            // nest delivery rejuvenates it fully; pickup drains the tile,
            // delivery banks one unit and frees the carrier
            !dead ==> ({
                let pre = old(self).ants[idx as int].ant;
                let cx = pre.pos.x as int / (MILLI as int);
                let cy = pre.pos.y as int / (MILLI as int);
                let on_colony = crate::ant::on_nest(pre.pos, old(self).pos);
                let on_food_tile = old(map).terrain_at(cx, cy) is Food;
                let picked = on_food_tile && !pre.carrying_food;
                let delivered = on_colony && (pre.carrying_food || picked);
                let post = final(self).ants[idx as int].ant;
                &&& post.is_on_colony == on_colony
                &&& post.is_on_food == (final(map).terrain_at(cx, cy) is Food)
                &&& post.carrying_food == ((pre.carrying_food || picked) && !delivered)
                &&& post.longevity == if picked || delivered {
                    crate::MAX_LONGEVITY_MS as int
                } else {
                    pre.longevity - dt_ms
                }
                &&& final(self).food_collected == if delivered {
                    if old(self).food_collected < u32::MAX {
                        old(self).food_collected + 1
                    } else {
                        u32::MAX as int
                    }
                } else {
                    old(self).food_collected as int
                }
                &&& (picked ==> final(map).tiles@ == match old(map).terrain_at(cx, cy) {
                    Terrain::Food(a) => if a > 1 {
                        old(map).tiles@.update(old(map).idx_of(cx, cy),
                            crate::terrain::Tile { terrain: Terrain::Food((a - 1) as u32) })
                    } else {
                        old(map).tiles@.update(old(map).idx_of(cx, cy),
                            crate::terrain::Tile { terrain: Terrain::Empty })
                    },
                    _ => old(map).tiles@,
                })
                &&& (!picked ==> final(map).tiles@ == old(map).tiles@)
            }),
            forall|r2: AntRef, p2: Pos|
                #[trigger] crate::map::tracked_exactly(*final(map), r2, p2)
                    == crate::map::tracked_exactly(*old(map), r2, p2),
            old(self).ants_tracked(*old(map)) ==> final(self).ants_tracked(*final(map)),
            old(self).keys_below_next(*old(map)) ==> final(self).keys_below_next(*final(map)),
    {
        let colony_pos = self.pos;
        let dropped: bool;
        let dead: bool;
        {
            let entry = &mut self.ants[idx];
            if entry.ant.longevity <= dt_ms {
                entry.ant.longevity = 0;
                dead = true;
                dropped = false;
            } else {
                entry.ant.longevity = entry.ant.longevity - dt_ms;
                dead = false;
                proof {
                    crate::ant::lemma_pos_cell_bounds(entry.ant.pos,
                        map.width as int, map.height as int);
                }
                entry.ant.check_colony(&colony_pos);
                entry.ant.check_food(map);
                if entry.ant.is_on_colony && entry.ant.carrying_food {
                    entry.ant.carrying_food = false;
                    entry.ant.rejuvenate();
                    dropped = true;
                } else {
                    dropped = false;
                }
            }
        }
        if dropped {
            if self.food_collected < u32::MAX {
                self.food_collected = self.food_collected + 1;
            }
        }
        proof {
            let pre = old(self).ants[idx as int].ant;
            let cx = pre.pos.x as int / (MILLI as int);
            let cy = pre.pos.y as int / (MILLI as int);
            if !dead && old(map).terrain_at(cx, cy) is Food && !pre.carrying_food {
                crate::ant::lemma_pos_cell_bounds(pre.pos, old(map).width as int,
                    old(map).height as int);
                crate::pheromone::lemma_cell_index_in_range(old(map).width as int,
                    old(map).height as int, cx, cy);
                let ti = old(map).idx_of(cx, cy);
                match old(map).terrain_at(cx, cy) {
                    Terrain::Food(a) => {
                        if a > 1 {
                            assert(map.tiles@ =~= old(map).tiles@.update(ti,
                                crate::terrain::Tile { terrain: Terrain::Food((a - 1) as u32) }));
                        } else {
                            assert(map.tiles@ =~= old(map).tiles@.update(ti,
                                crate::terrain::Tile { terrain: Terrain::Empty }));
                        }
                    },
                    _ => {},
                }
            }
            crate::map::lemma_tracking_all_preserved(*old(map), *map);
            if old(self).keys_below_next(*old(map)) {
                assert forall|gx: int, gy: int, r: AntRef|
                    final(map).cell_in_bounds(gx, gy)
                        && #[trigger] final(map).cell_refs(gx, gy).contains(r)
                        && r.colony_id == final(self).colony_id
                    implies r.key < final(self).next_key by {
                    crate::pheromone::lemma_cell_index_in_range(old(map).width as int,
                        old(map).height as int, gx, gy);
                    assert(final(map).cell_refs(gx, gy) == old(map).cell_refs(gx, gy));
                }
            }
        }
        dead
    }

    /// Advances the spawn accumulator and spawns one ant per elapsed
    /// spawn interval while the food stock covers the cost: spawning `k`
    /// ants debits exactly `k * ANT_SPAWN_FOOD_COST` food.
    pub fn run_spawn_accumulator(&mut self, map: &mut GameMap, rng: &mut SimRng, dt_ms: u32)
        requires
            old(map).wf(),
            old(self).wf(old(map).width as int, old(map).height as int),
            old(self).keys_below_next(*old(map)),
            old(self).ants_tracked(*old(map)),
        ensures
            final(map).wf(),
            crate::map::index_frame(*old(map), *final(map)),
            final(self).wf(final(map).width as int, final(map).height as int),
            final(self).keys_below_next(*final(map)),
            final(self).ants_tracked(*final(map)),
            final(self).colony_id == old(self).colony_id,
            final(self).pos == old(self).pos,
            final(self).color == old(self).color,
            final(self).pheromones@ == old(self).pheromones@,
            final(self).pheromone_decay_timer == old(self).pheromone_decay_timer,
            exists|k: int| #[trigger] spawn_accounting(*old(self), *final(self), k),
            forall|r2: AntRef, p2: Pos| !(r2.colony_id == old(self).colony_id
                && r2.key >= old(self).next_key)
                ==> #[trigger] crate::map::tracked_exactly(*final(map), r2, p2)
                    == crate::map::tracked_exactly(*old(map), r2, p2),
            other_membership_eq(*old(map), *final(map), old(self).colony_id),
            other_tracking_eq(*old(map), *final(map), old(self).colony_id),
    {
        if dt_ms as u64 <= u64::MAX - self.ant_spawn_timer {
            self.ant_spawn_timer = self.ant_spawn_timer + dt_ms as u64;
        }
        let ghost k0: int = 0;
        let mut spawned: u64 = 0;
        while self.ant_spawn_timer >= ANT_SPAWN_INTERVAL_MS
            && self.food_collected >= ANT_SPAWN_FOOD_COST
            && self.next_key < u64::MAX
            invariant
                map.wf(),
                crate::map::index_frame(*old(map), *map),
                self.wf(map.width as int, map.height as int),
                self.keys_below_next(*map),
                self.ants_tracked(*map),
                self.colony_id == old(self).colony_id,
                self.pos == old(self).pos,
                self.color == old(self).color,
                self.pheromones@ == old(self).pheromones@,
                self.pheromone_decay_timer == old(self).pheromone_decay_timer,
                self.ants.len() == old(self).ants.len() + spawned,
                self.food_collected == old(self).food_collected - spawned * ANT_SPAWN_FOOD_COST,
                self.next_key == old(self).next_key + spawned,
                forall|r2: AntRef, p2: Pos| !(r2.colony_id == old(self).colony_id
                    && r2.key >= old(self).next_key)
                    ==> #[trigger] crate::map::tracked_exactly(*map, r2, p2)
                        == crate::map::tracked_exactly(*old(map), r2, p2),
                other_membership_eq(*old(map), *map, old(self).colony_id),
                other_tracking_eq(*old(map), *map, old(self).colony_id),
            decreases self.food_collected,
        {
            self.spawn_ant(map, rng);
            self.food_collected = self.food_collected - ANT_SPAWN_FOOD_COST;
            self.ant_spawn_timer = self.ant_spawn_timer - ANT_SPAWN_INTERVAL_MS;
            spawned = spawned + 1;
        }
        proof {
            assert(spawn_accounting(*old(self), *final(self), spawned as int));
        }
    }
}

/// Spawning exactly `k` ants between two colony states: `k` new ants,
/// `k` fresh keys, and exactly `k * ANT_SPAWN_FOOD_COST` food debited.
pub open spec fn spawn_accounting(a: Colony, b: Colony, k: int) -> bool {
    &&& 0 <= k
    &&& b.ants.len() == a.ants.len() + k
    &&& b.food_collected == a.food_collected - k * ANT_SPAWN_FOOD_COST
    &&& b.next_key == a.next_key + k
}

impl Colony {
    /// The pre-think part of one ant's tick: advance the think timer; on
    /// an autopilot tick an ant that wanted to attack may open a fight
    /// with a same-cell enemy (forcing an immediate think); a think tick
    /// wraps the timer and returns the perception request to put to the
    /// brain; otherwise a non-fighting ant moves. The ant ends the step
    /// fighting only if it has not translated.
    #[verifier::rlimit(100)]
    #[verifier::spinoff_prover]
    pub fn ant_prestep(&mut self, idx: usize, map: &mut GameMap, others: &mut Vec<Colony>,
        rng: &mut SimRng, dt_ms: u32) -> (r: Option<(crate::api::AntRequest, Option<AntRef>)>)
        requires
            old(map).wf(),
            old(self).wf(old(map).width as int, old(map).height as int),
            old(self).keys_below_next(*old(map)),
            old(self).ants_tracked(*old(map)),
            colonies_ok(old(others)@, *old(map)),
            distinct_ids(old(others)@),
            forall|i: int| 0 <= i < old(others).len()
                ==> (#[trigger] old(others)[i]).colony_id != old(self).colony_id,
            idx < old(self).ants.len(),
            1 <= dt_ms <= 10_000,
        ensures
            final(map).wf(),
            final(map).width == old(map).width,
            final(map).height == old(map).height,
            final(map).tiles@ == old(map).tiles@,
            final(map).placeholder_colony_locations@ == old(map).placeholder_colony_locations@,
            final(map).loaded_map_name == old(map).loaded_map_name,
            final(self).wf(final(map).width as int, final(map).height as int),
            final(self).keys_below_next(*final(map)),
            final(self).ants_tracked(*final(map)),
            colonies_ok(final(others)@, *final(map)),
            combat_frame(old(others)@, final(others)@),
            tick_step_frame(*old(self), *final(self)),
            final(self).ants.len() == old(self).ants.len(),
            forall|j: int| 0 <= j < old(self).ants.len() && j != idx
                ==> #[trigger] final(self).ants[j] == old(self).ants[j],
            final(self).ants[idx as int].key == old(self).ants[idx as int].key,
            r is Some ==> final(self).ants[idx as int].ant.pos == old(self).ants[idx as int].ant.pos,
            final(self).ants[idx as int].ant.fighting()
                ==> final(self).ants[idx as int].ant.pos == old(self).ants[idx as int].ant.pos,
            // a think happens exactly when the advanced timer fired, or an
            // autopilot attack opened a fight and forced it
            ({
                let pre = old(self).ants[idx as int].ant;
                let fired = pre.think_timer.value + dt_ms >= crate::THINK_INTERVAL_MS;
                &&& (fired ==> r is Some)
                &&& (r is Some && !fired ==> final(self).ants[idx as int].ant.fighting())
                &&& (r is None ==> !fired)
            }),
            // a think request carries the ant's own memory and its exact
            // perception flags and own-cell samples
            r is Some ==> ({
                let post = final(self).ants[idx as int].ant;
                let req = r->Some_0.0;
                &&& req.memory == post.memory
                &&& post.memory == old(self).ants[idx as int].ant.memory
                &&& crate::ant::input_flags_fixed(req.input, post)
                &&& forall|ch: int| 0 <= ch < crate::PHEROMONE_CHANNEL_COUNT
                        ==> #[trigger] req.input.cell_sense[ch]
                            == old(self).pheromones[ch].sample(
                                post.pos.x as int / (MILLI as int),
                                post.pos.y as int / (MILLI as int))
                &&& (r->Some_0.1 is Some
                        ==> r->Some_0.1->Some_0.colony_id != old(self).colony_id)
            }),
            // on a non-think step a non-fighting ant takes its movement step
            r is None && !final(self).ants[idx as int].ant.fighting()
                ==> crate::ant::step_outcome(old(self).ants[idx as int].ant,
                    final(self).ants[idx as int].ant, *old(map), dt_ms as int),
    {
        let colony_pos = self.pos;
        let cid = self.colony_id;
        let ghost w = map.width as int;
        let ghost h = map.height as int;
        let ghost m0 = *map;
        let ghost others0 = others@;
        let r: Option<(crate::api::AntRequest, Option<AntRef>)>;
        {
            let entry = &mut self.ants[idx];
            entry.ant.think_timer.update(dt_ms as u64);
            if !entry.ant.think_timer.is_ready() {
                if entry.ant.try_attack && !entry.ant.is_fighting() {
                    proof {
                        crate::ant::lemma_pos_cell_bounds(entry.ant.pos, w, h);
                    }
                    let acx = floor_cell(entry.ant.pos.x) as u32;
                    let acy = floor_cell(entry.ant.pos.y) as u32;
                    match map.get_enemy_ant_at(acx, acy, cid) {
                        Some(opponent) => {
                            if entry.ant.try_initiate_fight(&opponent, others, Ghost((w, h))) {
                                entry.ant.think_timer.force_ready();
                            }
                        },
                        None => {},
                    }
                }
            }
            if entry.ant.think_timer.is_ready() {
                entry.ant.think_timer.wrap();
                let (input, candidate) = entry.ant.perceive(map, &self.pheromones, colony_pos, rng);
                r = Some((crate::api::AntRequest { input, memory: entry.ant.memory }, candidate));
            } else {
                if !entry.ant.is_fighting() {
                    entry.ant.update_position(map, dt_ms);
                }
                r = None;
            }
        }
        proof {
            assert(crate::map::tracked_exactly(m0, old(self).ants[idx as int].ant.ant_ref,
                old(self).ants[idx as int].ant.pos));
            if crate::map::cells_eq(m0, *map) {
                crate::map::lemma_tracking_all_preserved(m0, *map);
            }
            lemma_colony_step_reestablish(*old(self), *final(self), m0, *map, others0, final(others)@,
                idx as int);
        }
        r
    }

    /// The post-think part of one ant's tick: judge the exchange (a call
    /// over budget kills the ant; a failed transport skips the rest),
    /// otherwise store the returned memory, sanitize the output, lay the
    /// pheromones, adopt the attack wish (possibly opening a fight with
    /// the perceived candidate), then fight or turn, and finally move if
    /// not fighting. The ant ends the step fighting only if it has not
    /// translated.
    #[verifier::rlimit(100)]
    #[verifier::spinoff_prover]
    pub fn ant_apply_think(&mut self, idx: usize, map: &mut GameMap, others: &mut Vec<Colony>,
        dt_ms: u32, elapsed_nanos: u64, response: &Option<crate::api::AntResponse>,
        candidate: &Option<AntRef>)
        requires
            old(map).wf(),
            old(self).wf(old(map).width as int, old(map).height as int),
            old(self).keys_below_next(*old(map)),
            old(self).ants_tracked(*old(map)),
            colonies_ok(old(others)@, *old(map)),
            distinct_ids(old(others)@),
            forall|i: int| 0 <= i < old(others).len()
                ==> (#[trigger] old(others)[i]).colony_id != old(self).colony_id,
            idx < old(self).ants.len(),
            1 <= dt_ms <= 10_000,
        ensures
            final(map).wf(),
            final(map).width == old(map).width,
            final(map).height == old(map).height,
            final(map).tiles@ == old(map).tiles@,
            final(map).placeholder_colony_locations@ == old(map).placeholder_colony_locations@,
            final(map).loaded_map_name == old(map).loaded_map_name,
            final(self).wf(final(map).width as int, final(map).height as int),
            final(self).keys_below_next(*final(map)),
            final(self).ants_tracked(*final(map)),
            colonies_ok(final(others)@, *final(map)),
            combat_frame(old(others)@, final(others)@),
            tick_step_frame_but_pheromones(*old(self), *final(self)),
            final(self).ants.len() == old(self).ants.len(),
            forall|j: int| 0 <= j < old(self).ants.len() && j != idx
                ==> #[trigger] final(self).ants[j] == old(self).ants[j],
            final(self).ants[idx as int].key == old(self).ants[idx as int].key,
            final(self).ants[idx as int].ant.fighting()
                ==> final(self).ants[idx as int].ant.pos == old(self).ants[idx as int].ant.pos,
            // a deadline violation kills the ant and nothing else: its
            // memory and remaining state survive, and no field of the
            // world moves; a failed transport skips the think entirely
            ({
                let pre = old(self).ants[idx as int].ant;
                let post = final(self).ants[idx as int].ant;
                let timeout = elapsed_nanos > crate::MAX_ANT_PROCESSING_TIME_NANOS;
                &&& (timeout ==> post.longevity == 0
                        && crate::ant::unchanged_but_longevity(pre, post)
                        && *final(map) == *old(map)
                        && final(others)@ == old(others)@
                        && final(self).pheromones@ == old(self).pheromones@)
                &&& (!timeout && response is None ==> crate::ant::same_ant_state(pre, post)
                        && *final(map) == *old(map)
                        && final(others)@ == old(others)@
                        && final(self).pheromones@ == old(self).pheromones@)
            }),
            // an accepted response stores the returned memory verbatim,
            // adopts the attack wish, and lays each positive sanitized
            // pheromone amount at the ant's cell
            elapsed_nanos <= crate::MAX_ANT_PROCESSING_TIME_NANOS && response is Some ==> ({
                let pre = old(self).ants[idx as int].ant;
                let post = final(self).ants[idx as int].ant;
                let out = response->Some_0.output;
                &&& post.memory == response->Some_0.memory
                &&& post.try_attack == out.try_attack
                &&& forall|ch: int| 0 <= ch < crate::PHEROMONE_CHANNEL_COUNT ==> ({
                    let amt = crate::api::clamp_amount(out.pheromone_amounts[ch] as int);
                    let cx = pre.pos.x as int / (MILLI as int);
                    let cy = pre.pos.y as int / (MILLI as int);
                    &&& (amt > 0 ==> (#[trigger] final(self).pheromones[ch]).sample(cx, cy)
                            == crate::api::clamp_amount(old(self).pheromones[ch].sample(cx, cy) + amt))
                    &&& (amt <= 0 ==> final(self).pheromones[ch].data@
                            == old(self).pheromones[ch].data@)
                })
            }),
            // with no fight in play and no attack wished, the ant turns by
            // the sanitized angle and takes its movement step
            elapsed_nanos <= crate::MAX_ANT_PROCESSING_TIME_NANOS && response is Some
                && !old(self).ants[idx as int].ant.fighting()
                && !response->Some_0.output.try_attack ==> ({
                let pre = old(self).ants[idx as int].ant;
                let post = final(self).ants[idx as int].ant;
                let turned = crate::ant::Ant {
                    rotation: crate::fixmath::norm_angle(pre.rotation
                        + crate::fixmath::norm_angle(
                            response->Some_0.output.turn_angle as int)) as i64,
                    ..pre
                };
                &&& post.fight_opponents.len() == 0
                &&& crate::ant::step_outcome(turned, post, *old(map), dt_ms as int)
            }),
    {
        let ghost w = map.width as int;
        let ghost h = map.height as int;
        let ghost m0 = *map;
        let ghost others0 = others@;
        let verdict = crate::protocol::judge_think(elapsed_nanos, match response {
            Some(_) => true,
            None => false,
        });
        match verdict {
            crate::protocol::ThinkVerdict::TimedOut => {
                let entry = &mut self.ants[idx];
                entry.ant.die();
                proof {
                    crate::map::lemma_tracking_all_preserved(m0, *map);
                    assert(crate::map::tracked_exactly(m0, old(self).ants[idx as int].ant.ant_ref,
                        old(self).ants[idx as int].ant.pos));
                    lemma_colony_step_reestablish(*old(self), *final(self), m0, *map, others0,
                        final(others)@, idx as int);
                }
            },
            crate::protocol::ThinkVerdict::Failed => {
                proof {
                    crate::map::lemma_tracking_all_preserved(m0, *map);
                    assert(crate::map::tracked_exactly(m0, old(self).ants[idx as int].ant.ant_ref,
                        old(self).ants[idx as int].ant.pos));
                    lemma_colony_step_reestablish(*old(self), *final(self), m0, *map, others0,
                        final(others)@, idx as int);
                }
            },
            crate::protocol::ThinkVerdict::Accepted => {
                let resp = match response {
                    Some(resp) => *resp,
                    None => {
                        proof {
                            assert(false);
                        }
                        return;
                    },
                };
                let out = crate::api::sanitize_output(&resp.output);
                {
                    let entry = &mut self.ants[idx];
                    entry.ant.memory = resp.memory;
                }
                proof {
                    assert(self.ants[idx as int].ant.wf(w, h));
                }
                {
                    let entry = &self.ants[idx];
                    entry.ant.apply_pheromones(&out.pheromone_amounts, &mut self.pheromones);
                }
                {
                    let entry = &mut self.ants[idx];
                    entry.ant.try_attack = out.try_attack;
                    if out.try_attack && !entry.ant.is_fighting() {
                        match candidate {
                            Some(cand) => {
                                entry.ant.try_initiate_fight(cand, others, Ghost((w, h)));
                            },
                            None => {},
                        }
                    }
                    proof {
                        assert forall|i: int, j: int| 0 <= i < j < others@.len()
                            implies (#[trigger] others@[i]).colony_id
                                != (#[trigger] others@[j]).colony_id by {
                            assert(colony_combat_frame(old(others)@[i], others@[i]));
                            assert(colony_combat_frame(old(others)@[j], others@[j]));
                        }
                    }
                    if entry.ant.is_fighting() {
                        entry.ant.handle_fight(others, Ghost((w, h)));
                    } else {
                        entry.ant.rotation = crate::fixmath::normalize_angle(
                            entry.ant.rotation + out.turn_angle);
                    }
                    if !entry.ant.is_fighting() {
                        entry.ant.update_position(map, dt_ms);
                    }
                }
                proof {
                    assert(crate::map::tracked_exactly(m0, old(self).ants[idx as int].ant.ant_ref,
                        old(self).ants[idx as int].ant.pos));
                    if crate::map::cells_eq(m0, *map) {
                        crate::map::lemma_tracking_all_preserved(m0, *map);
                    }
                    lemma_colony_step_reestablish(*old(self), *final(self), m0, *map, others0,
                        final(others)@, idx as int);
                }
            },
        }
    }
}

/// Re-establishes the resting invariants of the stepped colony and of the
/// bystander colonies after one ant's step: the only index change was the
/// routed movement of that ant (if any), bystanders did not move, and the
/// stepped ant's entry kept its key and identity.
proof fn lemma_colony_step_reestablish(
    c0: Colony, c1: Colony, m0: GameMap, m1: GameMap,
    o0: Seq<Colony>, o1: Seq<Colony>, idx: int,
)
    requires
        m0.wf(),
        m1.wf(),
        m1.width == m0.width,
        m1.height == m0.height,
        m1.ants_in_cell.len() == m0.ants_in_cell.len(),
        c0.wf(m0.width as int, m0.height as int),
        c0.keys_below_next(m0),
        c0.ants_tracked(m0),
        colonies_ok(o0, m0),
        combat_frame(o0, o1),
        colonies_wf(o1, m0.width as int, m0.height as int),
        forall|i: int| 0 <= i < o0.len() ==> (#[trigger] o0[i]).colony_id != c0.colony_id,
        c1.colony_id == c0.colony_id,
        c1.next_key == c0.next_key,
        c1.ants.len() == c0.ants.len(),
        0 <= idx < c0.ants.len(),
        forall|j: int| 0 <= j < c0.ants.len() && j != idx ==> #[trigger] c1.ants[j] == c0.ants[j],
        c1.ants[idx].key == c0.ants[idx].key,
        c1.ants[idx].ant.ant_ref == c0.ants[idx].ant.ant_ref,
        // the moved ant stays tracked at its (possibly new) position
        crate::map::tracked_exactly(m1, c1.ants[idx].ant.ant_ref, c1.ants[idx].ant.pos),
        // everyone else's exact tracking carries over
        forall|r2: AntRef, p2: Pos| r2 != c0.ants[idx].ant.ant_ref
            ==> #[trigger] crate::map::tracked_exactly(m1, r2, p2)
                == crate::map::tracked_exactly(m0, r2, p2),
        // cell membership is preserved for everyone else, and the moved
        // reference appears only where it was or where it now stands
        forall|c: int, r2: AntRef| 0 <= c < m0.ants_in_cell.len() && r2 != c0.ants[idx].ant.ant_ref
            ==> #[trigger] m1.ants_in_cell[c]@.contains(r2) == m0.ants_in_cell[c]@.contains(r2),
    ensures
        c1.keys_below_next(m1),
        c1.ants_tracked(m1),
        colonies_ok(o1, m1),
{
    let w = m0.width as int;
    let h = m0.height as int;
    let moved = c0.ants[idx].ant.ant_ref;
    assert(moved.key == c0.ants[idx].key && moved.key < c0.next_key);
    assert forall|gx: int, gy: int, r: AntRef|
        m1.cell_in_bounds(gx, gy) && #[trigger] m1.cell_refs(gx, gy).contains(r)
            && r.colony_id == c1.colony_id
        implies r.key < c1.next_key by {
        crate::pheromone::lemma_cell_index_in_range(w, h, gx, gy);
        if r != moved {
            assert(m0.cell_refs(gx, gy).contains(r));
        }
    }
    assert forall|i: int| 0 <= i < c1.ants.len()
        implies crate::map::tracked_exactly(m1, (#[trigger] c1.ants[i]).ant.ant_ref,
            c1.ants[i].ant.pos) by {
        if i != idx {
            assert(c1.ants[i] == c0.ants[i]);
            assert(c0.ants[i].ant.ant_ref.key == c0.ants[i].key);
            assert(c0.ants[i].key != c0.ants[idx].key);
            assert(c0.ants[i].ant.ant_ref != moved);
            assert(crate::map::tracked_exactly(m0, c0.ants[i].ant.ant_ref, c0.ants[i].ant.pos));
        }
    }
    assert forall|ci: int| 0 <= ci < o1.len()
        implies (#[trigger] o1[ci]).wf(m1.width as int, m1.height as int)
            && o1[ci].keys_below_next(m1) && o1[ci].ants_tracked(m1) by {
        assert(colony_combat_frame(o0[ci], o1[ci]));
        assert(o0[ci].wf(w, h));
        assert(o1[ci].wf(w, h));
        assert forall|gx: int, gy: int, r: AntRef|
            m1.cell_in_bounds(gx, gy) && #[trigger] m1.cell_refs(gx, gy).contains(r)
                && r.colony_id == o1[ci].colony_id
            implies r.key < o1[ci].next_key by {
            crate::pheromone::lemma_cell_index_in_range(w, h, gx, gy);
            assert(o0[ci].keys_below_next(m0));
            if r != moved {
                assert(m0.cell_refs(gx, gy).contains(r));
            } else {
                // impossible: the moved reference carries the stepped
                // colony's id, which no bystander shares
                assert(moved.colony_id == c0.colony_id);
            }
        }
        assert forall|ai: int| 0 <= ai < o1[ci].ants.len()
            implies crate::map::tracked_exactly(m1, (#[trigger] o1[ci].ants[ai]).ant.ant_ref,
                o1[ci].ants[ai].ant.pos) by {
            assert(o0[ci].ants[ai].key == o1[ci].ants[ai].key
                && crate::ant::ant_combat_frame(o0[ci].ants[ai].ant, o1[ci].ants[ai].ant));
            assert(o1[ci].ants[ai].ant.ant_ref == o0[ci].ants[ai].ant.ant_ref);
            assert(o1[ci].ants[ai].ant.pos == o0[ci].ants[ai].ant.pos);
            assert(crate::map::tracked_exactly(m0, o0[ci].ants[ai].ant.ant_ref,
                o0[ci].ants[ai].ant.pos));
            assert(o0[ci].ants[ai].ant.ant_ref.colony_id == o0[ci].colony_id);
            assert(o0[ci].ants[ai].ant.ant_ref != moved);
        }
    }
}

/// The colony fields one ant's tick step leaves alone (the ants
/// themselves change through the step).
pub open spec fn tick_step_frame(a: Colony, b: Colony) -> bool {
    &&& b.colony_id == a.colony_id
    &&& b.pos == a.pos
    &&& b.color == a.color
    &&& b.food_collected == a.food_collected
    &&& b.pheromones@ == a.pheromones@
    &&& b.pheromone_decay_timer == a.pheromone_decay_timer
    &&& b.ant_spawn_timer == a.ant_spawn_timer
    &&& b.next_key == a.next_key
}

/// As `tick_step_frame`, but the pheromone field may change (laying).
pub open spec fn tick_step_frame_but_pheromones(a: Colony, b: Colony) -> bool {
    &&& b.colony_id == a.colony_id
    &&& b.pos == a.pos
    &&& b.color == a.color
    &&& b.food_collected == a.food_collected
    &&& b.pheromones.len() == a.pheromones.len()
    &&& forall|ch: int| 0 <= ch < a.pheromones.len() ==> {
            &&& (#[trigger] b.pheromones[ch]).wf()
            &&& b.pheromones[ch].width == a.pheromones[ch].width
            &&& b.pheromones[ch].height == a.pheromones[ch].height
            &&& b.pheromones[ch].decay_rate == a.pheromones[ch].decay_rate
        }
    &&& b.pheromone_decay_timer == a.pheromone_decay_timer
    &&& b.ant_spawn_timer == a.ant_spawn_timer
    &&& b.next_key == a.next_key
}

/// All colonies of a slice well-formed against a `w x h` map.
pub open spec fn colonies_wf(cs: Seq<Colony>, w: int, h: int) -> bool {
    forall|i: int| 0 <= i < cs.len() ==> (#[trigger] cs[i]).wf(w, h)
}

/// No ant of the colony carries the given key.
pub open spec fn key_absent(c: Colony, k: u64) -> bool {
    forall|ai: int| 0 <= ai < c.ants.len() ==> (#[trigger] c.ants[ai]).key != k
}

/// Pairwise-distinct colony ids in a slice.
pub open spec fn distinct_ids(cs: Seq<Colony>) -> bool {
    forall|i: int, j: int| 0 <= i < j < cs.len() ==> cs[i].colony_id != cs[j].colony_id
}

/// Whether `(ci, ai)` indexes the ant that reference `r` names.
pub open spec fn indexes_ref(cs: Seq<Colony>, ci: int, ai: int, r: AntRef) -> bool {
    &&& 0 <= ci < cs.len()
    &&& 0 <= ai < cs[ci].ants.len()
    &&& cs[ci].colony_id == r.colony_id
    &&& cs[ci].ants[ai].key == r.key
}

/// A live ant named by `r` stands within fighting reach of `p`.
pub open spec fn live_target_in_reach(cs: Seq<Colony>, r: AntRef, p: Pos) -> bool {
    exists|ci: int, ai: int| #[trigger] indexes_ref(cs, ci, ai, r)
        && cs[ci].ants[ai].ant.longevity > 0
        && crate::ant::within_reach(p, cs[ci].ants[ai].ant.pos)
}

/// The resting invariants of a colony slice against the shared map.
pub open spec fn colonies_ok(cs: Seq<Colony>, m: GameMap) -> bool {
    forall|i: int| 0 <= i < cs.len() ==> {
        &&& (#[trigger] cs[i]).wf(m.width as int, m.height as int)
        &&& cs[i].keys_below_next(m)
        &&& cs[i].ants_tracked(m)
    }
}

/// Between two map states, every cell's membership is unchanged for any
/// reference not belonging to colony `cid`.
pub open spec fn other_membership_eq(m0: GameMap, m1: GameMap, cid: u32) -> bool {
    forall|c: int, r2: AntRef| 0 <= c < m0.ants_in_cell.len() && r2.colony_id != cid
        ==> #[trigger] m1.ants_in_cell[c]@.contains(r2) == m0.ants_in_cell[c]@.contains(r2)
}

/// Between two map states, exact tracking is unchanged for any reference
/// not belonging to colony `cid`.
pub open spec fn other_tracking_eq(m0: GameMap, m1: GameMap, cid: u32) -> bool {
    forall|r2: AntRef, p2: Pos| r2.colony_id != cid
        ==> #[trigger] crate::map::tracked_exactly(m1, r2, p2)
            == crate::map::tracked_exactly(m0, r2, p2)
}

/// A bystander colony's resting invariants survive any map change that
/// leaves foreign references' membership and tracking alone.
pub proof fn lemma_other_colony_ok(c: Colony, m0: GameMap, m1: GameMap, cid: u32)
    requires
        m1.width == m0.width,
        m1.height == m0.height,
        m1.ants_in_cell.len() == m0.ants_in_cell.len(),
        m0.ants_in_cell.len() == m0.width * m0.height,
        c.wf(m0.width as int, m0.height as int),
        c.keys_below_next(m0),
        c.ants_tracked(m0),
        c.colony_id != cid,
        other_membership_eq(m0, m1, cid),
        other_tracking_eq(m0, m1, cid),
    ensures
        c.keys_below_next(m1),
        c.ants_tracked(m1),
{
    let w = m0.width as int;
    let h = m0.height as int;
    assert forall|gx: int, gy: int, r: AntRef|
        m1.cell_in_bounds(gx, gy) && #[trigger] m1.cell_refs(gx, gy).contains(r)
            && r.colony_id == c.colony_id
        implies r.key < c.next_key by {
        crate::pheromone::lemma_cell_index_in_range(w, h, gx, gy);
        assert(m0.cell_refs(gx, gy).contains(r));
    }
    assert forall|i: int| 0 <= i < c.ants.len()
        implies crate::map::tracked_exactly(m1, (#[trigger] c.ants[i]).ant.ant_ref,
            c.ants[i].ant.pos) by {
        assert(c.ants[i].ant.ant_ref.colony_id == c.colony_id);
        assert(crate::map::tracked_exactly(m0, c.ants[i].ant.ant_ref, c.ants[i].ant.pos));
    }
}

/// A colony's resting invariants survive a map change that leaves the
/// spatial index untouched cell by cell.
pub proof fn lemma_colony_ok_cells_eq(c: Colony, m0: GameMap, m1: GameMap)
    requires
        m1.width == m0.width,
        m1.height == m0.height,
        crate::map::cells_eq(m0, m1),
        m0.ants_in_cell.len() == m0.width * m0.height,
        c.keys_below_next(m0),
        c.ants_tracked(m0),
    ensures
        c.keys_below_next(m1),
        c.ants_tracked(m1),
{
    let w = m0.width as int;
    let h = m0.height as int;
    crate::map::lemma_tracking_all_preserved(m0, m1);
    assert forall|gx: int, gy: int, r: AntRef|
        m1.cell_in_bounds(gx, gy) && #[trigger] m1.cell_refs(gx, gy).contains(r)
            && r.colony_id == c.colony_id
        implies r.key < c.next_key by {
        crate::pheromone::lemma_cell_index_in_range(w, h, gx, gy);
        assert(m1.ants_in_cell[gy * w + gx]@ == m0.ants_in_cell[gy * w + gx]@);
        assert(m0.cell_refs(gx, gy).contains(r));
    }
    assert forall|i: int| 0 <= i < c.ants.len()
        implies crate::map::tracked_exactly(m1, (#[trigger] c.ants[i]).ant.ant_ref,
            c.ants[i].ant.pos) by {
        assert(crate::map::tracked_exactly(m0, c.ants[i].ant.ant_ref, c.ants[i].ant.pos));
    }
}

/// The index of the colony with the given id, if present.
pub fn find_colony(colonies: &Vec<Colony>, colony_id: u32) -> (r: Option<usize>)
    ensures
        match r {
            Some(i) => i < colonies.len() && colonies[i as int].colony_id == colony_id,
            None => forall|i: int| 0 <= i < colonies.len()
                ==> (#[trigger] colonies[i]).colony_id != colony_id,
        },
{
    let n = colonies.len();
    let mut i: usize = 0;
    while i < n
        invariant
            i <= n,
            n == colonies.len(),
            forall|j: int| 0 <= j < i ==> (#[trigger] colonies[j]).colony_id != colony_id,
        decreases n - i,
    {
        if colonies[i].colony_id == colony_id {
            return Some(i);
        }
        i = i + 1;
    }
    None
}

/// The index of the ant with the given key within a colony, if present.
pub fn find_ant(colony: &Colony, key: u64) -> (r: Option<usize>)
    ensures
        match r {
            Some(i) => i < colony.ants.len() && colony.ants[i as int].key == key,
            None => forall|i: int| 0 <= i < colony.ants.len()
                ==> (#[trigger] colony.ants[i]).key != key,
        },
{
    let n = colony.ants.len();
    let mut i: usize = 0;
    while i < n
        invariant
            i <= n,
            n == colony.ants.len(),
            forall|j: int| 0 <= j < i ==> (#[trigger] colony.ants[j]).key != key,
        decreases n - i,
    {
        if colony.ants[i].key == key {
            return Some(i);
        }
        i = i + 1;
    }
    None
}

/// What combat may do to a bystander colony slice: drain longevity and
/// reshape opponent queues, nothing else — in particular no ant moves.
pub open spec fn combat_frame(a: Seq<Colony>, b: Seq<Colony>) -> bool {
    &&& b.len() == a.len()
    &&& forall|ci: int| 0 <= ci < a.len() ==> colony_combat_frame(#[trigger] a[ci], b[ci])
}

/// `combat_frame`, for a single colony.
pub open spec fn colony_combat_frame(a: Colony, b: Colony) -> bool {
    &&& b.colony_id == a.colony_id
    &&& b.pos == a.pos
    &&& b.color == a.color
    &&& b.food_collected == a.food_collected
    &&& b.pheromones@ == a.pheromones@
    &&& b.pheromone_decay_timer == a.pheromone_decay_timer
    &&& b.ant_spawn_timer == a.ant_spawn_timer
    &&& b.next_key == a.next_key
    &&& b.ants.len() == a.ants.len()
    &&& forall|ai: int| 0 <= ai < a.ants.len() ==> {
            &&& (#[trigger] b.ants[ai]).key == a.ants[ai].key
            &&& crate::ant::ant_combat_frame(a.ants[ai].ant, b.ants[ai].ant)
        }
}

/// The colony fields the per-ant bookkeeping leaves alone.
pub open spec fn check_frame(a: Colony, b: Colony) -> bool {
    &&& b.colony_id == a.colony_id
    &&& b.pos == a.pos
    &&& b.color == a.color
    &&& b.pheromones@ == a.pheromones@
    &&& b.pheromone_decay_timer == a.pheromone_decay_timer
    &&& b.ant_spawn_timer == a.ant_spawn_timer
    &&& b.next_key == a.next_key
    &&& a.food_collected <= b.food_collected <= a.food_collected + 1
}

/// The colony fields a spawn or despawn leaves alone.
pub open spec fn spawn_frame(a: Colony, b: Colony) -> bool {
    &&& b.colony_id == a.colony_id
    &&& b.pos == a.pos
    &&& b.color == a.color
    &&& b.food_collected == a.food_collected
    &&& b.pheromones@ == a.pheromones@
    &&& b.pheromone_decay_timer == a.pheromone_decay_timer
    &&& b.ant_spawn_timer == a.ant_spawn_timer
}

/// Everything except the pheromone field and its decay timer is untouched.
pub open spec fn colony_frame_but_pheromone_timer(a: Colony, b: Colony) -> bool {
    &&& b.colony_id == a.colony_id
    &&& b.pos == a.pos
    &&& b.color == a.color
    &&& b.ants@ == a.ants@
    &&& b.food_collected == a.food_collected
    &&& b.ant_spawn_timer == a.ant_spawn_timer
    &&& b.next_key == a.next_key
    &&& b.pheromone_decay_timer.max_value == a.pheromone_decay_timer.max_value
}

} // verus!
