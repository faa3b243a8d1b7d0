//! The shared game map: terrain grid, per-cell ant index, placeholder nest
//! slots, and the cached raycast facade.

use vstd::prelude::*;
use crate::terrain::{Terrain, Tile, wall_at};
use crate::raycast::{RaycastCache, RayResult, ray_cast_from, ray_index_of, lemma_ray_cast_local,
    lemma_ray_cast_same_walls, INVALIDATE_RADIUS};
use crate::ant::AntRef;
use crate::fixmath::floor_cell;
use crate::{Pos, MILLI, HALF_CELL_MC, MAX_MAP_DIM, ANGLE_COUNT, TAU_MRAD, pos_in_map};

verus! {

/// The map: a `width x height` grid of tiles, a per-cell index of the ants
/// standing in each cell, the list of placeholder nest locations a loaded
/// map carries, and the raycast cache kept coherent with the terrain.
pub struct GameMap {
    pub width: u32,
    pub height: u32,
    pub tiles: Vec<Tile>,
    pub placeholder_colony_locations: Vec<Pos>,
    pub ants_in_cell: Vec<Vec<AntRef>>,
    pub loaded_map_name: Option<String>,
    pub rc_cache: RaycastCache,
}

impl GameMap {
    /// Shape and coherence invariant: row-major grids of matching size, a
    /// raycast cache that never disagrees with the terrain, and no ant
    /// registered twice in one cell.
    pub open spec fn wf(self) -> bool {
        &&& 1 <= self.width <= MAX_MAP_DIM
        &&& 1 <= self.height <= MAX_MAP_DIM
        &&& self.tiles.len() == self.width * self.height
        &&& self.ants_in_cell.len() == self.width * self.height
        &&& self.rc_cache.wf()
        &&& self.rc_cache.width == self.width
        &&& self.rc_cache.height == self.height
        &&& self.rc_cache.coherent(self.tiles@)
        &&& forall|c: int| 0 <= c < self.ants_in_cell.len()
                ==> refs_unique(#[trigger] self.ants_in_cell[c]@)
    }

    /// Whether cell `(x, y)` lies on the map.
    pub open spec fn cell_in_bounds(self, x: int, y: int) -> bool {
        0 <= x < self.width && 0 <= y < self.height
    }

    /// Row-major index of cell `(x, y)`.
    pub open spec fn idx_of(self, x: int, y: int) -> int {
        y * self.width + x
    }

    /// The terrain of cell `(x, y)`.
    pub open spec fn terrain_at(self, x: int, y: int) -> Terrain {
        self.tiles[self.idx_of(x, y)].terrain
    }

    /// The ants registered in cell `(x, y)`.
    pub open spec fn cell_refs(self, x: int, y: int) -> Seq<AntRef> {
        self.ants_in_cell[self.idx_of(x, y)]@
    }

    /// Creates an empty map: all ground, no ants, an unknown ray cache.
    pub fn new(width: u32, height: u32) -> (r: GameMap)
        requires
            1 <= width <= MAX_MAP_DIM,
            1 <= height <= MAX_MAP_DIM,
        ensures
            r.wf(),
            r.width == width,
            r.height == height,
            forall|x: int, y: int| r.cell_in_bounds(x, y) ==> #[trigger] r.terrain_at(x, y) == Terrain::Empty,
            forall|x: int, y: int| r.cell_in_bounds(x, y) ==> (#[trigger] r.cell_refs(x, y)).len() == 0,
            r.placeholder_colony_locations@.len() == 0,
            r.loaded_map_name is None,
    {
        proof {
            assert((width as int) * (height as int) <= 4096 * 4096) by (nonlinear_arith)
                requires
                    width <= 4096,
                    height <= 4096,
            ;
        }
        let n: usize = (width as usize) * (height as usize);
        let mut tiles: Vec<Tile> = Vec::new();
        let mut ants_in_cell: Vec<Vec<AntRef>> = Vec::new();
        let mut i: usize = 0;
        while i < n
            invariant
                i <= n,
                tiles.len() == i,
                ants_in_cell.len() == i,
                forall|j: int| 0 <= j < i ==> (#[trigger] tiles[j]).terrain == Terrain::Empty,
                forall|j: int| 0 <= j < i ==> (#[trigger] ants_in_cell[j]@).len() == 0,
            decreases n - i,
        {
            tiles.push(Tile { terrain: Terrain::Empty });
            ants_in_cell.push(Vec::new());
            i = i + 1;
        }
        let r = GameMap {
            width,
            height,
            tiles,
            placeholder_colony_locations: Vec::new(),
            ants_in_cell,
            loaded_map_name: None,
            rc_cache: RaycastCache::new(width, height),
        };
        proof {
            assert forall|x: int, y: int| r.cell_in_bounds(x, y)
                implies #[trigger] r.terrain_at(x, y) == Terrain::Empty by {
                crate::pheromone::lemma_cell_index_in_range(width as int, height as int, x, y);
            }
            assert forall|x: int, y: int| r.cell_in_bounds(x, y)
                implies (#[trigger] r.cell_refs(x, y)).len() == 0 by {
                crate::pheromone::lemma_cell_index_in_range(width as int, height as int, x, y);
            }
            assert forall|c: int| 0 <= c < r.ants_in_cell.len()
                implies refs_unique(#[trigger] r.ants_in_cell[c]@) by {
            }
        }
        r
    }

    /// The terrain at `(x, y)`, or nothing outside the map.
    pub fn get_terrain_at(&self, x: u32, y: u32) -> (r: Option<Terrain>)
        requires
            self.wf(),
        ensures
            r == if self.cell_in_bounds(x as int, y as int) {
                Some(self.terrain_at(x as int, y as int))
            } else {
                Option::<Terrain>::None
            },
    {
        if x < self.width && y < self.height {
            proof {
                crate::pheromone::lemma_cell_index_in_range(self.width as int, self.height as int, x as int, y as int);
            }
            let idx: usize = (y as usize) * (self.width as usize) + (x as usize);
            Some(self.tiles[idx].terrain)
        } else {
            None
        }
    }

    /// Writes `t` into tile `(x, y)` and restores cache coherence: if a
    /// wall appears or disappears, nearby cached rays are discarded.
    fn set_terrain_at(&mut self, x: u32, y: u32, t: Terrain)
        requires
            old(self).wf(),
            old(self).cell_in_bounds(x as int, y as int),
        ensures
            final(self).wf(),
            same_frame(*old(self), *final(self)),
            final(self).tiles@ == old(self).tiles@.update(old(self).idx_of(x as int, y as int), Tile { terrain: t }),
            !(t is Wall || old(self).terrain_at(x as int, y as int) is Wall)
                ==> final(self).rc_cache == old(self).rc_cache,
            forall|gx: int, gy: int, ray: int|
                final(self).cell_in_bounds(gx, gy) && 0 <= ray < ANGLE_COUNT
                    && (gx - x > INVALIDATE_RADIUS || x - gx > INVALIDATE_RADIUS
                        || gy - y > INVALIDATE_RADIUS || y - gy > INVALIDATE_RADIUS)
                    ==> #[trigger] final(self).rc_cache.entry(gx, gy, ray) == old(self).rc_cache.entry(gx, gy, ray),
    {
        proof {
            crate::pheromone::lemma_cell_index_in_range(self.width as int, self.height as int, x as int, y as int);
        }
        let idx: usize = (y as usize) * (self.width as usize) + (x as usize);
        let was_wall = match self.tiles[idx].terrain {
            Terrain::Wall => true,
            _ => false,
        };
        let now_wall = match t {
            Terrain::Wall => true,
            _ => false,
        };
        let ghost t0 = self.tiles@;
        self.tiles.set(idx, Tile { terrain: t });
        let ghost t1 = self.tiles@;
        if was_wall || now_wall {
            self.rc_cache.invalidate_area_around(x, y);
            proof {
                lemma_coherence_after_edit(old(self).rc_cache, self.rc_cache, t0, t1,
                    self.width as int, self.height as int, x as int, y as int);
            }
        } else {
            proof {
                assert forall|gx: int, gy: int| !(gx == x && gy == y)
                    implies #[trigger] wall_at(t0, self.width as int, self.height as int, gx, gy)
                        == wall_at(t1, self.width as int, self.height as int, gx, gy) by {
                    if 0 <= gx < self.width && 0 <= gy < self.height {
                        crate::pheromone::lemma_cell_index_injective(self.width as int, self.height as int,
                            gx, gy, x as int, y as int);
                        crate::pheromone::lemma_cell_index_in_range(self.width as int, self.height as int, gx, gy);
                    }
                }
                assert(wall_at(t0, self.width as int, self.height as int, x as int, y as int)
                    == wall_at(t1, self.width as int, self.height as int, x as int, y as int));
                assert forall|gx: int, gy: int| true
                    implies #[trigger] wall_at(t0, self.width as int, self.height as int, gx, gy)
                        == wall_at(t1, self.width as int, self.height as int, gx, gy) by {
                }
                assert forall|px: int, py: int, ray: int|
                    0 <= px < self.rc_cache.width && 0 <= py < self.rc_cache.height && 0 <= ray < ANGLE_COUNT
                        implies #[trigger] self.rc_cache.entry(px, py, ray) == RayResult::Unknown
                            || self.rc_cache.entry(px, py, ray) == ray_cast_from(t1,
                                self.rc_cache.width as int, self.rc_cache.height as int, px, py, ray) by {
                    if self.rc_cache.entry(px, py, ray) != RayResult::Unknown {
                        lemma_ray_cast_same_walls(t0, t1, self.rc_cache.width as int,
                            self.rc_cache.height as int, px, py, ray);
                    }
                }
            }
        }
    }

    /// Overwrites tile `(x, y)` with food of the given amount (no-op
    /// outside the map).
    pub fn place_food_at(&mut self, x: u32, y: u32, amount: u32)
        requires
            old(self).wf(),
        ensures
            final(self).wf(),
            same_frame(*old(self), *final(self)),
            old(self).cell_in_bounds(x as int, y as int)
                ==> final(self).tiles@ == old(self).tiles@.update(old(self).idx_of(x as int, y as int),
                    Tile { terrain: Terrain::Food(amount) }),
            !old(self).cell_in_bounds(x as int, y as int) ==> *final(self) == *old(self),
            !(old(self).cell_in_bounds(x as int, y as int)
                && old(self).terrain_at(x as int, y as int) is Wall)
                ==> final(self).rc_cache == old(self).rc_cache,
    {
        if x < self.width && y < self.height {
            self.set_terrain_at(x, y, Terrain::Food(amount));
        }
    }

    /// Overwrites tile `(x, y)` with the nest of a colony.
    pub fn place_colony_at(&mut self, x: u32, y: u32, colony_id: u32)
        requires
            old(self).wf(),
        ensures
            final(self).wf(),
            same_frame(*old(self), *final(self)),
            old(self).cell_in_bounds(x as int, y as int)
                ==> final(self).tiles@ == old(self).tiles@.update(old(self).idx_of(x as int, y as int),
                    Tile { terrain: Terrain::Nest(colony_id) }),
            !old(self).cell_in_bounds(x as int, y as int) ==> *final(self) == *old(self),
    {
        if x < self.width && y < self.height {
            self.set_terrain_at(x, y, Terrain::Nest(colony_id));
        }
    }

    /// Places a wall, discarding cached rays around it; cached rays of
    /// cells beyond `INVALIDATE_RADIUS` (Chebyshev) keep their exact bits.
    pub fn place_wall_at(&mut self, x: u32, y: u32) -> (r: bool)
        requires
            old(self).wf(),
        ensures
            final(self).wf(),
            same_frame(*old(self), *final(self)),
            r == old(self).cell_in_bounds(x as int, y as int),
            r ==> final(self).tiles@ == old(self).tiles@.update(old(self).idx_of(x as int, y as int),
                Tile { terrain: Terrain::Wall }),
            !r ==> *final(self) == *old(self),
            forall|gx: int, gy: int, ray: int|
                final(self).cell_in_bounds(gx, gy) && 0 <= ray < ANGLE_COUNT
                    && (gx - x > INVALIDATE_RADIUS || x - gx > INVALIDATE_RADIUS
                        || gy - y > INVALIDATE_RADIUS || y - gy > INVALIDATE_RADIUS)
                    ==> #[trigger] final(self).rc_cache.entry(gx, gy, ray) == old(self).rc_cache.entry(gx, gy, ray),
    {
        if x < self.width && y < self.height {
            self.set_terrain_at(x, y, Terrain::Wall);
            true
        } else {
            false
        }
    }

    /// Clears tile `(x, y)` to empty ground; removing a wall additionally
    /// recomputes the freed cell's own outgoing rays.
    pub fn remove_terrain_at(&mut self, x: u32, y: u32)
        requires
            old(self).wf(),
        ensures
            final(self).wf(),
            same_frame(*old(self), *final(self)),
            old(self).cell_in_bounds(x as int, y as int)
                ==> final(self).tiles@ == old(self).tiles@.update(old(self).idx_of(x as int, y as int),
                    Tile { terrain: Terrain::Empty }),
            !old(self).cell_in_bounds(x as int, y as int) ==> *final(self) == *old(self),
            !(old(self).cell_in_bounds(x as int, y as int)
                && old(self).terrain_at(x as int, y as int) is Wall)
                ==> final(self).rc_cache == old(self).rc_cache,
    {
        if x < self.width && y < self.height {
            let was_wall = match self.get_terrain_at(x, y) {
                Some(Terrain::Wall) => true,
                _ => false,
            };
            self.set_terrain_at(x, y, Terrain::Empty);
            if was_wall {
                proof {
                    assert(self.tiles.len() == self.rc_cache.width * self.rc_cache.height);
                }
                let tiles_ref = &self.tiles;
                self.rc_cache.recompute_all_rays_for_cell(tiles_ref, x, y);
                proof {
                    assert forall|px: int, py: int, ray: int|
                        0 <= px < self.rc_cache.width && 0 <= py < self.rc_cache.height && 0 <= ray < ANGLE_COUNT
                            implies #[trigger] self.rc_cache.entry(px, py, ray) == RayResult::Unknown
                                || self.rc_cache.entry(px, py, ray) == ray_cast_from(self.tiles@,
                                    self.rc_cache.width as int, self.rc_cache.height as int, px, py, ray) by {
                    }
                }
            }
        }
    }

    /// Decrements the food on tile `(x, y)`; an emptied food tile reverts
    /// to empty ground. Anything other than food is untouched.
    pub fn take_food_at(&mut self, x: u32, y: u32)
        requires
            old(self).wf(),
        ensures
            final(self).wf(),
            same_frame(*old(self), *final(self)),
            final(self).tiles@ == if old(self).cell_in_bounds(x as int, y as int) {
                match old(self).terrain_at(x as int, y as int) {
                    Terrain::Food(a) => if a > 1 {
                        old(self).tiles@.update(old(self).idx_of(x as int, y as int),
                            Tile { terrain: Terrain::Food((a - 1) as u32) })
                    } else {
                        old(self).tiles@.update(old(self).idx_of(x as int, y as int),
                            Tile { terrain: Terrain::Empty })
                    },
                    _ => old(self).tiles@,
                }
            } else {
                old(self).tiles@
            },
            final(self).rc_cache == old(self).rc_cache,
    {
        if x < self.width && y < self.height {
            match self.get_terrain_at(x, y) {
                Some(Terrain::Food(a)) => {
                    if a > 1 {
                        self.set_terrain_at(x, y, Terrain::Food(a - 1));
                    } else {
                        self.set_terrain_at(x, y, Terrain::Empty);
                    }
                },
                _ => {},
            }
        }
        proof {
            if !(old(self).cell_in_bounds(x as int, y as int)
                && old(self).terrain_at(x as int, y as int) is Food) {
                assert(final(self).tiles@ =~= old(self).tiles@);
            }
        }
    }
}

/// No ant reference occurs twice in a cell's list.
pub open spec fn refs_unique(s: Seq<AntRef>) -> bool {
    forall|i: int, j: int| 0 <= i < j < s.len() ==> s[i] != s[j]
}

/// An ant reference is registered exactly where its position says: in the
/// cell containing `p`, and in no other cell.
pub open spec fn tracked_exactly(m: GameMap, r: AntRef, p: Pos) -> bool {
    let cx = p.x as int / (MILLI as int);
    let cy = p.y as int / (MILLI as int);
    &&& m.cell_in_bounds(cx, cy)
    &&& m.cell_refs(cx, cy).contains(r)
    &&& forall|gx: int, gy: int| m.cell_in_bounds(gx, gy) && !(gx == cx && gy == cy)
            ==> !(#[trigger] m.cell_refs(gx, gy)).contains(r)
}

/// If every cell keeps exactly the same members other than `r`, then the
/// exact-tracking of every reference other than `r` is unaffected.
pub proof fn lemma_tracking_preserved(m0: GameMap, m1: GameMap, r: AntRef)
    requires
        m1.width == m0.width,
        m1.height == m0.height,
        m1.ants_in_cell.len() == m0.ants_in_cell.len(),
        m0.ants_in_cell.len() == m0.width * m0.height,
        forall|c: int, r2: AntRef| 0 <= c < m0.ants_in_cell.len() && r2 != r
            ==> #[trigger] m1.ants_in_cell[c]@.contains(r2) == m0.ants_in_cell[c]@.contains(r2),
    ensures
        forall|r2: AntRef, p2: Pos| r2 != r
            ==> #[trigger] tracked_exactly(m1, r2, p2) == tracked_exactly(m0, r2, p2),
{
    assert forall|r2: AntRef, p2: Pos| r2 != r
        implies #[trigger] tracked_exactly(m1, r2, p2) == tracked_exactly(m0, r2, p2) by {
        let px = p2.x as int / (MILLI as int);
        let py = p2.y as int / (MILLI as int);
        if m0.cell_in_bounds(px, py) {
            crate::pheromone::lemma_cell_index_in_range(m0.width as int, m0.height as int, px, py);
            assert(m1.cell_refs(px, py).contains(r2) == m0.cell_refs(px, py).contains(r2));
            assert forall|gx: int, gy: int| m0.cell_in_bounds(gx, gy) && !(gx == px && gy == py)
                implies (#[trigger] m1.cell_refs(gx, gy)).contains(r2)
                    == m0.cell_refs(gx, gy).contains(r2) by {
                crate::pheromone::lemma_cell_index_in_range(m0.width as int, m0.height as int, gx, gy);
            }
            if tracked_exactly(m0, r2, p2) {
                assert(tracked_exactly(m1, r2, p2));
            }
            if tracked_exactly(m1, r2, p2) {
                assert forall|gx: int, gy: int| m0.cell_in_bounds(gx, gy) && !(gx == px && gy == py)
                    implies !(#[trigger] m0.cell_refs(gx, gy)).contains(r2) by {
                    crate::pheromone::lemma_cell_index_in_range(m0.width as int, m0.height as int, gx, gy);
                    assert(m1.cell_refs(gx, gy).contains(r2) == m0.cell_refs(gx, gy).contains(r2));
                }
                assert(tracked_exactly(m0, r2, p2));
            }
        }
    }
}

/// A map whose spatial index is unchanged cell-by-cell tracks everything
/// exactly as before.
pub proof fn lemma_tracking_all_preserved(m0: GameMap, m1: GameMap)
    requires
        m1.width == m0.width,
        m1.height == m0.height,
        cells_eq(m0, m1),
        m0.ants_in_cell.len() == m0.width * m0.height,
    ensures
        forall|r2: AntRef, p2: Pos|
            #[trigger] tracked_exactly(m1, r2, p2) == tracked_exactly(m0, r2, p2),
{
    assert forall|r2: AntRef, p2: Pos|
        #[trigger] tracked_exactly(m1, r2, p2) == tracked_exactly(m0, r2, p2) by {
        let px = p2.x as int / (MILLI as int);
        let py = p2.y as int / (MILLI as int);
        if m0.cell_in_bounds(px, py) {
            crate::pheromone::lemma_cell_index_in_range(m0.width as int, m0.height as int, px, py);
            assert forall|gx: int, gy: int| m0.cell_in_bounds(gx, gy)
                implies (#[trigger] m1.cell_refs(gx, gy)) == m0.cell_refs(gx, gy) by {
                crate::pheromone::lemma_cell_index_in_range(m0.width as int, m0.height as int, gx, gy);
            }
            if tracked_exactly(m0, r2, p2) {
                assert(tracked_exactly(m1, r2, p2));
            }
            if tracked_exactly(m1, r2, p2) {
                assert forall|gx: int, gy: int| m0.cell_in_bounds(gx, gy) && !(gx == px && gy == py)
                    implies !(#[trigger] m0.cell_refs(gx, gy)).contains(r2) by {
                    crate::pheromone::lemma_cell_index_in_range(m0.width as int, m0.height as int, gx, gy);
                    assert(m1.cell_refs(gx, gy) == m0.cell_refs(gx, gy));
                }
                assert(tracked_exactly(m0, r2, p2));
            }
        }
    }
}

/// How terrain may evolve inside one tick: a tile is unchanged, a food
/// pile grew, shrank or emptied, or open ground received a dropped food
/// unit. Walls, nests and placeholder slots never change mid-tick.
pub open spec fn tick_tile_evolution(t0: Seq<Tile>, t1: Seq<Tile>) -> bool {
    &&& t1.len() == t0.len()
    &&& forall|i: int| 0 <= i < t0.len() ==> #[trigger] t1[i] == t0[i]
            || (t0[i].terrain is Food && (t1[i].terrain is Food || t1[i].terrain is Empty))
            || (t0[i].terrain is Empty && t1[i].terrain is Food)
}

/// Tick terrain evolution composes.
pub proof fn lemma_tile_evolution_trans(t0: Seq<Tile>, t1: Seq<Tile>, t2: Seq<Tile>)
    requires
        tick_tile_evolution(t0, t1),
        tick_tile_evolution(t1, t2),
    ensures
        tick_tile_evolution(t0, t2),
{
    assert forall|i: int| 0 <= i < t0.len() implies #[trigger] t2[i] == t0[i]
        || (t0[i].terrain is Food && (t2[i].terrain is Food || t2[i].terrain is Empty))
        || (t0[i].terrain is Empty && t2[i].terrain is Food) by {
        assert(t1[i] == t0[i]
            || (t0[i].terrain is Food && (t1[i].terrain is Food || t1[i].terrain is Empty))
            || (t0[i].terrain is Empty && t1[i].terrain is Food));
    }
}

/// The spatial index left untouched, cell by cell.
pub open spec fn cells_eq(a: GameMap, b: GameMap) -> bool {
    &&& b.ants_in_cell.len() == a.ants_in_cell.len()
    &&& forall|c: int| 0 <= c < a.ants_in_cell.len()
            ==> #[trigger] b.ants_in_cell[c]@ == a.ants_in_cell[c]@
}

/// The parts of a map that terrain edits leave alone: dimensions, the ant
/// index, the placeholder list, the loaded name, and the cache's shape.
pub open spec fn same_frame(a: GameMap, b: GameMap) -> bool {
    &&& b.width == a.width
    &&& b.height == a.height
    &&& cells_eq(a, b)
    &&& b.placeholder_colony_locations@ == a.placeholder_colony_locations@
    &&& b.loaded_map_name == a.loaded_map_name
    &&& b.rc_cache.width == a.rc_cache.width
    &&& b.rc_cache.height == a.rc_cache.height
}

/// After editing tile `(cx, cy)` and discarding every cached ray within
/// `INVALIDATE_RADIUS`, the cache is coherent with the edited terrain:
/// nearby entries are unknown, and far rays cannot see the edit.
proof fn lemma_coherence_after_edit(
    c0: RaycastCache, c1: RaycastCache, t0: Seq<Tile>, t1: Seq<Tile>,
    w: int, h: int, cx: int, cy: int,
)
    requires
        c0.wf(),
        c1.wf(),
        c1.width == c0.width,
        c1.height == c0.height,
        c0.width == w,
        c0.height == h,
        c0.coherent(t0),
        0 <= cx < w,
        0 <= cy < h,
        t1.len() == t0.len(),
        t0.len() == w * h,
        forall|i: int| 0 <= i < t0.len() && i != cy * w + cx ==> t0[i] == #[trigger] t1[i],
        forall|gx: int, gy: int, ray: int|
            0 <= gx < c1.width && 0 <= gy < c1.height && 0 <= ray < ANGLE_COUNT
                ==> #[trigger] c1.entry(gx, gy, ray) == if cx - INVALIDATE_RADIUS <= gx
                    <= cx + INVALIDATE_RADIUS && cy - INVALIDATE_RADIUS <= gy <= cy + INVALIDATE_RADIUS {
                    RayResult::Unknown
                } else {
                    c0.entry(gx, gy, ray)
                },
    ensures
        c1.coherent(t1),
{
    assert forall|gx: int, gy: int| !(gx == cx && gy == cy)
        implies #[trigger] wall_at(t0, w, h, gx, gy) == wall_at(t1, w, h, gx, gy) by {
        if 0 <= gx < w && 0 <= gy < h {
            crate::pheromone::lemma_cell_index_injective(w, h, gx, gy, cx, cy);
            crate::pheromone::lemma_cell_index_in_range(w, h, gx, gy);
        }
    }
    assert forall|x: int, y: int, ray: int|
        0 <= x < c1.width && 0 <= y < c1.height && 0 <= ray < ANGLE_COUNT
            implies #[trigger] c1.entry(x, y, ray) == RayResult::Unknown
                || c1.entry(x, y, ray) == ray_cast_from(t1, c1.width as int, c1.height as int, x, y, ray) by {
        if !(cx - INVALIDATE_RADIUS <= x <= cx + INVALIDATE_RADIUS
            && cy - INVALIDATE_RADIUS <= y <= cy + INVALIDATE_RADIUS) {
            if c1.entry(x, y, ray) != RayResult::Unknown {
                lemma_ray_cast_local(t0, t1, w, h, x, y, ray, cx, cy);
            }
        }
    }
}


impl GameMap {
    /// The center of cell `(x, y)`, in milli-cells.
    pub open spec fn cell_center(x: int, y: int) -> Pos {
        Pos { x: (x * MILLI + HALF_CELL_MC) as i64, y: (y * MILLI + HALF_CELL_MC) as i64 }
    }

    /// What `raycast_angle` reports: blocked at distance zero from an
    /// invalid origin, else the cached ray truncated by the caller's range.
    pub open spec fn raycast_result(self, origin: Pos, angle: int, max_query: int) -> (bool, int) {
        let gx = origin.x as int / (MILLI as int);
        let gy = origin.y as int / (MILLI as int);
        if !self.cell_in_bounds(gx, gy) || self.terrain_at(gx, gy) is Wall {
            (true, 0)
        } else {
            match ray_cast_from(self.tiles@, self.width as int, self.height as int, gx, gy,
                ray_index_of(angle)) {
                RayResult::Hit(d) => if d < max_query {
                    (true, d as int)
                } else {
                    (false, max_query)
                },
                _ => (false, max_query),
            }
        }
    }

    /// Casts a ray from `origin` at `angle`, reporting whether a wall lies
    /// within `max_query` milli-cells and at what distance. An origin off
    /// the map or inside a wall counts as blocked at distance zero. Only
    /// the ray cache is touched (to memoize computed rays).
    pub fn raycast_angle(&mut self, origin: Pos, angle: i64, max_query: i64) -> (r: (bool, i64))
        requires
            old(self).wf(),
            0 <= angle < TAU_MRAD,
            0 <= max_query,
            i64::MIN + MILLI < origin.x,
            i64::MIN + MILLI < origin.y,
        ensures
            final(self).wf(),
            same_frame(*old(self), *final(self)),
            final(self).tiles@ == old(self).tiles@,
            (r.0, r.1 as int) == old(self).raycast_result(origin, angle as int, max_query as int),
    {
        let gx = floor_cell(origin.x);
        let gy = floor_cell(origin.y);
        if gx < 0 || gy < 0 || gx >= self.width as i64 || gy >= self.height as i64 {
            return (true, 0);
        }
        let ux = gx as u32;
        let uy = gy as u32;
        match self.get_terrain_at(ux, uy) {
            Some(Terrain::Wall) => (true, 0),
            _ => {
                proof {
                    assert(self.tiles.len() == self.rc_cache.width * self.rc_cache.height);
                }
                let tiles_ref = &self.tiles;
                let hit = self.rc_cache.get_distance_at_angle(tiles_ref, ux, uy, angle);
                match hit {
                    RayResult::Hit(d) => {
                        if (d as i64) < max_query {
                            (true, d as i64)
                        } else {
                            (false, max_query)
                        }
                    },
                    RayResult::NoHit => (false, max_query),
                    RayResult::Unknown => {
                        proof {
                            crate::raycast::lemma_ray_cast_defined(self.tiles@, self.width as int,
                                self.height as int, ux as int, uy as int, ray_index_of(angle as int));
                        }
                        (true, 0)
                    },
                }
            },
        }
    }

    /// Registers an ant in the cell containing `pos`; out-of-bounds
    /// positions are ignored. A reference already present is not repeated.
    pub fn register_ant_in_cell(&mut self, ant_ref: &AntRef, pos: Pos)
        requires
            old(self).wf(),
            i64::MIN + MILLI < pos.x,
            i64::MIN + MILLI < pos.y,
        ensures
            final(self).wf(),
            index_frame(*old(self), *final(self)),
            ({
                let cx = pos.x as int / (MILLI as int);
                let cy = pos.y as int / (MILLI as int);
                &&& forall|c: int| 0 <= c < old(self).ants_in_cell.len()
                        && (!old(self).cell_in_bounds(cx, cy) || c != old(self).idx_of(cx, cy))
                        ==> #[trigger] final(self).ants_in_cell[c]@ == old(self).ants_in_cell[c]@
                &&& old(self).cell_in_bounds(cx, cy)
                        ==> final(self).cell_refs(cx, cy) == if old(self).cell_refs(cx, cy).contains(*ant_ref) {
                            old(self).cell_refs(cx, cy)
                        } else {
                            old(self).cell_refs(cx, cy).push(*ant_ref)
                        }
            }),
    {
        let cx = floor_cell(pos.x);
        let cy = floor_cell(pos.y);
        if cx >= 0 && cy >= 0 && cx < self.width as i64 && cy < self.height as i64 {
            proof {
                crate::pheromone::lemma_cell_index_in_range(self.width as int, self.height as int,
                    cx as int, cy as int);
            }
            let idx: usize = (cy as usize) * (self.width as usize) + (cx as usize);
            let n = self.ants_in_cell[idx].len();
            let mut i: usize = 0;
            let mut found = false;
            while i < n
                invariant
                    i <= n,
                    n == self.ants_in_cell[idx as int]@.len(),
                    found == exists|j: int| 0 <= j < i && self.ants_in_cell[idx as int]@[j] == *ant_ref,
                decreases n - i,
            {
                if self.ants_in_cell[idx][i].key == ant_ref.key
                    && self.ants_in_cell[idx][i].colony_id == ant_ref.colony_id {
                    found = true;
                }
                i = i + 1;
            }
            if !found {
                let cell = &mut self.ants_in_cell[idx];
                cell.push(AntRef { key: ant_ref.key, colony_id: ant_ref.colony_id });
            }
            proof {
                assert forall|c: int| 0 <= c < self.ants_in_cell.len()
                    implies refs_unique(#[trigger] self.ants_in_cell[c]@) by {
                    if c != idx {
                        assert(self.ants_in_cell[c]@ == old(self).ants_in_cell[c]@);
                    }
                }
            }
        }
    }

    /// Unregisters an ant from the cell containing `pos`, reporting whether
    /// it was found there. Out-of-bounds positions are ignored.
    pub fn unregister_ant_from_cell(&mut self, ant_ref: &AntRef, pos: Pos) -> (r: bool)
        requires
            old(self).wf(),
            i64::MIN + MILLI < pos.x,
            i64::MIN + MILLI < pos.y,
        ensures
            final(self).wf(),
            index_frame(*old(self), *final(self)),
            ({
                let cx = pos.x as int / (MILLI as int);
                let cy = pos.y as int / (MILLI as int);
                &&& r == (old(self).cell_in_bounds(cx, cy)
                        && old(self).cell_refs(cx, cy).contains(*ant_ref))
                &&& forall|c: int| 0 <= c < old(self).ants_in_cell.len() && c != old(self).idx_of(cx, cy)
                        ==> #[trigger] final(self).ants_in_cell[c]@ == old(self).ants_in_cell[c]@
                &&& old(self).cell_in_bounds(cx, cy) ==> {
                    &&& !final(self).cell_refs(cx, cy).contains(*ant_ref)
                    &&& forall|r2: AntRef| r2 != *ant_ref
                            ==> #[trigger] final(self).cell_refs(cx, cy).contains(r2)
                                == old(self).cell_refs(cx, cy).contains(r2)
                }
                &&& !old(self).cell_in_bounds(cx, cy)
                        ==> forall|c: int| 0 <= c < old(self).ants_in_cell.len()
                            ==> #[trigger] final(self).ants_in_cell[c]@ == old(self).ants_in_cell[c]@
            }),
    {
        let cx = floor_cell(pos.x);
        let cy = floor_cell(pos.y);
        if cx >= 0 && cy >= 0 && cx < self.width as i64 && cy < self.height as i64 {
            proof {
                crate::pheromone::lemma_cell_index_in_range(self.width as int, self.height as int,
                    cx as int, cy as int);
            }
            let idx: usize = (cy as usize) * (self.width as usize) + (cx as usize);
            let n = self.ants_in_cell[idx].len();
            let mut i: usize = 0;
            let mut at: usize = n;
            while i < n
                invariant
                    i <= n,
                    at <= n,
                    n == self.ants_in_cell[idx as int]@.len(),
                    at < n ==> self.ants_in_cell[idx as int]@[at as int] == *ant_ref,
                    at == n ==> forall|j: int| 0 <= j < i
                        ==> self.ants_in_cell[idx as int]@[j] != *ant_ref,
                decreases n - i,
            {
                if at == n && self.ants_in_cell[idx][i].key == ant_ref.key
                    && self.ants_in_cell[idx][i].colony_id == ant_ref.colony_id {
                    at = i;
                }
                i = i + 1;
            }
            if at < n {
                let ghost cell0 = self.ants_in_cell[idx as int]@;
                proof {
                    lemma_remove_ref(cell0, at as int, *ant_ref);
                }
                let cell = &mut self.ants_in_cell[idx];
                cell.remove(at);
                proof {
                    assert forall|c: int| 0 <= c < self.ants_in_cell.len()
                        implies refs_unique(#[trigger] self.ants_in_cell[c]@) by {
                        if c != idx {
                            assert(self.ants_in_cell[c]@ == old(self).ants_in_cell[c]@);
                        }
                    }
                }
                true
            } else {
                assert(!old(self).cell_refs(cx as int, cy as int).contains(*ant_ref));
                false
            }
        } else {
            false
        }
    }

    /// Some ant in cell `(x, y)` that belongs to a different colony, if one
    /// is registered there; which one is unspecified.
    pub fn get_enemy_ant_at(&self, x: u32, y: u32, friendly_colony_id: u32) -> (r: Option<AntRef>)
        requires
            self.wf(),
        ensures
            match r {
                Some(a) => self.cell_in_bounds(x as int, y as int)
                    && self.cell_refs(x as int, y as int).contains(a)
                    && a.colony_id != friendly_colony_id,
                None => !self.cell_in_bounds(x as int, y as int)
                    || forall|j: int| 0 <= j < self.cell_refs(x as int, y as int).len()
                        ==> (#[trigger] self.cell_refs(x as int, y as int)[j]).colony_id == friendly_colony_id,
            },
    {
        if x < self.width && y < self.height {
            proof {
                crate::pheromone::lemma_cell_index_in_range(self.width as int, self.height as int,
                    x as int, y as int);
            }
            let idx: usize = (y as usize) * (self.width as usize) + (x as usize);
            let n = self.ants_in_cell[idx].len();
            let mut i: usize = 0;
            while i < n
                invariant
                    i <= n,
                    n == self.ants_in_cell[idx as int]@.len(),
                    forall|j: int| 0 <= j < i
                        ==> (#[trigger] self.ants_in_cell[idx as int]@[j]).colony_id == friendly_colony_id,
                decreases n - i,
            {
                let a = self.ants_in_cell[idx][i];
                if a.colony_id != friendly_colony_id {
                    return Some(a);
                }
                i = i + 1;
            }
            None
        } else {
            None
        }
    }

    /// Clears the spatial index only; terrain, cache and placeholders stay.
    pub fn soft_reset(&mut self)
        requires
            old(self).wf(),
        ensures
            final(self).wf(),
            index_frame(*old(self), *final(self)),
            forall|c: int| 0 <= c < final(self).ants_in_cell.len()
                ==> (#[trigger] final(self).ants_in_cell[c]@).len() == 0,
    {
        let n = self.ants_in_cell.len();
        let mut i: usize = 0;
        while i < n
            invariant
                i <= n,
                self.ants_in_cell.len() == n,
                self.width == old(self).width,
                self.height == old(self).height,
                self.tiles@ == old(self).tiles@,
                self.placeholder_colony_locations@ == old(self).placeholder_colony_locations@,
                self.loaded_map_name == old(self).loaded_map_name,
                self.rc_cache == old(self).rc_cache,
                forall|c: int| 0 <= c < i ==> (#[trigger] self.ants_in_cell[c]@).len() == 0,
                forall|c: int| i <= c < n
                    ==> #[trigger] self.ants_in_cell[c]@ == old(self).ants_in_cell[c]@,
            decreases n - i,
        {
            self.ants_in_cell.set(i, Vec::new());
            i = i + 1;
        }
    }

    /// Removes every reference of one colony from the spatial index.
    pub fn remove_colony_ants(&mut self, colony_id: u32)
        requires
            old(self).wf(),
        ensures
            final(self).wf(),
            index_frame(*old(self), *final(self)),
            forall|c: int, r2: AntRef| 0 <= c < final(self).ants_in_cell.len()
                ==> (#[trigger] final(self).ants_in_cell[c]@.contains(r2)
                    == (old(self).ants_in_cell[c]@.contains(r2) && r2.colony_id != colony_id)),
    {
        let n = self.ants_in_cell.len();
        let mut i: usize = 0;
        while i < n
            invariant
                i <= n,
                self.ants_in_cell.len() == n,
                self.width == old(self).width,
                self.height == old(self).height,
                self.tiles@ == old(self).tiles@,
                self.placeholder_colony_locations@ == old(self).placeholder_colony_locations@,
                self.loaded_map_name == old(self).loaded_map_name,
                self.rc_cache == old(self).rc_cache,
                forall|c: int| 0 <= c < n ==> refs_unique(old(self).ants_in_cell[c]@),
                forall|c: int, r2: AntRef| 0 <= c < i
                    ==> (#[trigger] self.ants_in_cell[c]@.contains(r2)
                        == (old(self).ants_in_cell[c]@.contains(r2) && r2.colony_id != colony_id)),
                forall|c: int| 0 <= c < i ==> refs_unique(#[trigger] self.ants_in_cell[c]@),
                forall|c: int| i <= c < n
                    ==> #[trigger] self.ants_in_cell[c]@ == old(self).ants_in_cell[c]@,
            decreases n - i,
        {
            let m = self.ants_in_cell[i].len();
            let mut kept: Vec<AntRef> = Vec::new();
            let mut j: usize = 0;
            while j < m
                invariant
                    j <= m,
                    i < n,
                    self.ants_in_cell.len() == n,
                    m == self.ants_in_cell[i as int]@.len(),
                    refs_unique(self.ants_in_cell[i as int]@),
                    forall|r2: AntRef| #[trigger] kept@.contains(r2)
                        == (exists|k: int| 0 <= k < j && self.ants_in_cell[i as int]@[k] == r2
                            && r2.colony_id != colony_id),
                    refs_unique(kept@),
                decreases m - j,
            {
                let a = self.ants_in_cell[i][j];
                let ghost kept0 = kept@;
                if a.colony_id != colony_id {
                    proof {
                        if kept@.contains(a) {
                            let k = choose|k: int| 0 <= k < j && self.ants_in_cell[i as int]@[k] == a
                                && a.colony_id != colony_id;
                            assert(self.ants_in_cell[i as int]@[k]
                                == self.ants_in_cell[i as int]@[j as int]);
                            assert(false);
                        }
                    }
                    kept.push(a);
                    proof {
                        lemma_push_contains(kept0, a);
                        assert forall|r2: AntRef| #[trigger] kept@.contains(r2)
                            implies (exists|k: int| 0 <= k < j + 1
                                && self.ants_in_cell[i as int]@[k] == r2
                                && r2.colony_id != colony_id) by {
                            if r2 == a {
                                assert(self.ants_in_cell[i as int]@[j as int] == r2);
                            } else {
                                let k = choose|k: int| 0 <= k < j
                                    && self.ants_in_cell[i as int]@[k] == r2
                                    && r2.colony_id != colony_id;
                                assert(0 <= k < j + 1 && self.ants_in_cell[i as int]@[k] == r2);
                            }
                        }
                    }
                } else {
                    proof {
                        assert forall|r2: AntRef|
                            (exists|k: int| 0 <= k < j + 1 && self.ants_in_cell[i as int]@[k] == r2
                                && r2.colony_id != colony_id)
                            implies #[trigger] kept@.contains(r2) by {
                            let k = choose|k: int| 0 <= k < j + 1
                                && self.ants_in_cell[i as int]@[k] == r2
                                && r2.colony_id != colony_id;
                            assert(k < j);
                        }
                    }
                }
                j = j + 1;
            }
            self.ants_in_cell.set(i, kept);
            i = i + 1;
        }
    }

    /// Marks an empty tile as a reserved colony slot and records its
    /// center. Reports whether a new slot was recorded.
    pub fn place_nest_placeholder_at(&mut self, x: u32, y: u32) -> (r: bool)
        requires
            old(self).wf(),
        ensures
            final(self).wf(),
            final(self).width == old(self).width,
            final(self).height == old(self).height,
            cells_eq(*old(self), *final(self)),
            final(self).loaded_map_name == old(self).loaded_map_name,
            ({
                let can_place = old(self).cell_in_bounds(x as int, y as int)
                    && old(self).terrain_at(x as int, y as int) == Terrain::Empty;
                let center = GameMap::cell_center(x as int, y as int);
                &&& r == (can_place
                        && !old(self).placeholder_colony_locations@.contains(center))
                &&& can_place ==> final(self).tiles@ == old(self).tiles@.update(
                        old(self).idx_of(x as int, y as int),
                        Tile { terrain: Terrain::PlaceholderColony })
                &&& !can_place ==> *final(self) == *old(self)
                &&& r ==> final(self).placeholder_colony_locations@
                        == old(self).placeholder_colony_locations@.push(center)
                &&& !r ==> final(self).placeholder_colony_locations@
                        == old(self).placeholder_colony_locations@
            }),
    {
        if x < self.width && y < self.height {
            let is_empty = match self.get_terrain_at(x, y) {
                Some(Terrain::Empty) => true,
                _ => false,
            };
            if is_empty {
                self.set_terrain_at(x, y, Terrain::PlaceholderColony);
                let center = Pos {
                    x: (x as i64) * MILLI + HALF_CELL_MC,
                    y: (y as i64) * MILLI + HALF_CELL_MC,
                };
                let n = self.placeholder_colony_locations.len();
                let mut i: usize = 0;
                let mut present = false;
                while i < n
                    invariant
                        i <= n,
                        n == self.placeholder_colony_locations@.len(),
                        present == exists|j: int| 0 <= j < i
                            && self.placeholder_colony_locations@[j] == center,
                    decreases n - i,
                {
                    let p = self.placeholder_colony_locations[i];
                    if p.x == center.x && p.y == center.y {
                        present = true;
                    }
                    i = i + 1;
                }
                if !present {
                    self.placeholder_colony_locations.push(center);
                    return true;
                }
            }
        }
        false
    }

    /// Clears a reserved colony slot: resets its tile (if it still holds a
    /// placeholder) and drops its center from the list. Reports whether
    /// anything was removed.
    pub fn remove_placeholder_colony(&mut self, pos: Pos) -> (r: bool)
        requires
            old(self).wf(),
            i64::MIN + MILLI < pos.x,
            i64::MIN + MILLI < pos.y,
        ensures
            final(self).wf(),
            final(self).width == old(self).width,
            final(self).height == old(self).height,
            cells_eq(*old(self), *final(self)),
            final(self).loaded_map_name == old(self).loaded_map_name,
            ({
                let cx = pos.x as int / (MILLI as int);
                let cy = pos.y as int / (MILLI as int);
                let center = GameMap::cell_center(cx, cy);
                old(self).cell_in_bounds(cx, cy) ==> {
                    &&& !final(self).placeholder_colony_locations@.contains(center)
                    &&& forall|p: Pos| p != center
                            ==> #[trigger] final(self).placeholder_colony_locations@.contains(p)
                                == old(self).placeholder_colony_locations@.contains(p)
                    &&& (old(self).terrain_at(cx, cy) == Terrain::PlaceholderColony
                            ==> final(self).tiles@ == old(self).tiles@.update(old(self).idx_of(cx, cy),
                                Tile { terrain: Terrain::Empty }))
                    &&& (old(self).terrain_at(cx, cy) != Terrain::PlaceholderColony
                            ==> final(self).tiles@ == old(self).tiles@)
                }
            }),
            !({
                let cx = pos.x as int / (MILLI as int);
                let cy = pos.y as int / (MILLI as int);
                old(self).cell_in_bounds(cx, cy)
            }) ==> *final(self) == *old(self),
    {
        let cx = floor_cell(pos.x);
        let cy = floor_cell(pos.y);
        let mut cleared = false;
        let mut removed = false;
        if cx >= 0 && cy >= 0 && cx < self.width as i64 && cy < self.height as i64 {
            let ux = cx as u32;
            let uy = cy as u32;
            match self.get_terrain_at(ux, uy) {
                Some(Terrain::PlaceholderColony) => {
                    self.remove_terrain_at(ux, uy);
                    cleared = true;
                },
                _ => {},
            }
            let center = Pos {
                x: (ux as i64) * MILLI + HALF_CELL_MC,
                y: (uy as i64) * MILLI + HALF_CELL_MC,
            };
            let n = self.placeholder_colony_locations.len();
            let mut kept: Vec<Pos> = Vec::new();
            let mut i: usize = 0;
            while i < n
                invariant
                    i <= n,
                    n == self.placeholder_colony_locations@.len(),
                    forall|p: Pos| #[trigger] kept@.contains(p)
                        == (exists|k: int| 0 <= k < i && self.placeholder_colony_locations@[k] == p
                            && p != center),
                    removed == exists|k: int| 0 <= k < i
                        && self.placeholder_colony_locations@[k] == center,
                decreases n - i,
            {
                let p = self.placeholder_colony_locations[i];
                let ghost kept0 = kept@;
                if p.x == center.x && p.y == center.y {
                    proof {
                        assert forall|q: Pos|
                            (exists|k: int| 0 <= k < i + 1
                                && self.placeholder_colony_locations@[k] == q && q != center)
                            implies #[trigger] kept@.contains(q) by {
                            let k = choose|k: int| 0 <= k < i + 1
                                && self.placeholder_colony_locations@[k] == q && q != center;
                            assert(k < i);
                        }
                    }
                    removed = true;
                } else {
                    kept.push(p);
                    proof {
                        lemma_push_contains(kept0, p);
                        assert forall|q: Pos| #[trigger] kept@.contains(q)
                            implies (exists|k: int| 0 <= k < i + 1
                                && self.placeholder_colony_locations@[k] == q && q != center) by {
                            if q == p {
                                assert(self.placeholder_colony_locations@[i as int] == q);
                            } else {
                                let k = choose|k: int| 0 <= k < i
                                    && self.placeholder_colony_locations@[k] == q && q != center;
                                assert(0 <= k < i + 1 && self.placeholder_colony_locations@[k] == q);
                            }
                        }
                    }
                }
                i = i + 1;
            }
            self.placeholder_colony_locations = kept;
        }
        cleared || removed
    }
}

/// The parts of a map that spatial-index edits leave alone.
pub open spec fn index_frame(a: GameMap, b: GameMap) -> bool {
    &&& b.width == a.width
    &&& b.height == a.height
    &&& b.tiles@ == a.tiles@
    &&& b.ants_in_cell.len() == a.ants_in_cell.len()
    &&& b.placeholder_colony_locations@ == a.placeholder_colony_locations@
    &&& b.loaded_map_name == a.loaded_map_name
    &&& b.rc_cache == a.rc_cache
}

/// What a sequence holds after a push: everything it held, and the new
/// element.
pub proof fn lemma_push_contains<T>(s: Seq<T>, x: T)
    ensures
        forall|y: T| #[trigger] s.push(x).contains(y) == (s.contains(y) || y == x),
{
    assert forall|y: T| #[trigger] s.push(x).contains(y) == (s.contains(y) || y == x) by {
        if s.contains(y) {
            let k = choose|k: int| 0 <= k < s.len() && s[k] == y;
            assert(s.push(x)[k] == y);
        }
        assert(s.push(x)[s.len() as int] == x);
        if s.push(x).contains(y) {
            let k = choose|k: int| 0 <= k < s.push(x).len() && s.push(x)[k] == y;
            if k < s.len() {
                assert(s[k] == y);
            }
        }
    }
}

/// Removing the sole occurrence of a reference keeps the other members and
/// their uniqueness.
proof fn lemma_remove_ref(s: Seq<AntRef>, i: int, r: AntRef)
    requires
        0 <= i < s.len(),
        s[i] == r,
        refs_unique(s),
    ensures
        !s.remove(i).contains(r),
        forall|r2: AntRef| r2 != r ==> #[trigger] s.remove(i).contains(r2) == s.contains(r2),
        refs_unique(s.remove(i)),
{
    let t = s.remove(i);
    assert forall|r2: AntRef| r2 != r implies #[trigger] t.contains(r2) == s.contains(r2) by {
        if s.contains(r2) {
            let k = choose|k: int| 0 <= k < s.len() && s[k] == r2;
            if k < i {
                assert(t[k] == r2);
            } else {
                assert(k > i);
                assert(t[k - 1] == r2);
            }
        }
        if t.contains(r2) {
            let k = choose|k: int| 0 <= k < t.len() && t[k] == r2;
            if k < i {
                assert(s[k] == r2);
            } else {
                assert(s[k + 1] == r2);
            }
        }
    }
    if t.contains(r) {
        let k = choose|k: int| 0 <= k < t.len() && t[k] == r;
        if k < i {
            assert(s[k] == r && s[i] == r);
            assert(false);
        } else {
            assert(s[k + 1] == r && s[i] == r);
            assert(false);
        }
    }
}


/// The terrain a map cell takes when a saved grid is loaded: nests become
/// reserved slots, everything else is kept.
pub open spec fn loaded_terrain(t: Terrain) -> Terrain {
    match t {
        Terrain::Nest(_) => Terrain::PlaceholderColony,
        other => other,
    }
}

/// The terrain a map cell takes when the map is saved: nests become
/// reserved slots and food resets to the default amount.
pub open spec fn saved_terrain(t: Terrain) -> Terrain {
    match t {
        Terrain::Nest(_) => Terrain::PlaceholderColony,
        Terrain::Food(_) => Terrain::Food(crate::DEFAULT_FOOD_AMOUNT),
        other => other,
    }
}

/// A map's persistent shape: the grid alone, without ants or caches.
pub struct SerializedMap {
    pub width: u32,
    pub height: u32,
    pub tiles: Vec<Tile>,
}

impl SerializedMap {
    /// Captures a map for saving: nests revert to reserved slots and food
    /// piles reset to the default amount.
    pub fn from_map(map: &GameMap) -> (r: SerializedMap)
        requires
            map.wf(),
        ensures
            r.width == map.width,
            r.height == map.height,
            r.tiles.len() == map.tiles.len(),
            forall|i: int| 0 <= i < map.tiles.len()
                ==> (#[trigger] r.tiles[i]).terrain == saved_terrain(map.tiles[i].terrain),
    {
        let n = map.tiles.len();
        let mut tiles: Vec<Tile> = Vec::new();
        let mut i: usize = 0;
        while i < n
            invariant
                i <= n,
                n == map.tiles.len(),
                tiles.len() == i,
                forall|j: int| 0 <= j < i
                    ==> (#[trigger] tiles[j]).terrain == saved_terrain(map.tiles[j].terrain),
            decreases n - i,
        {
            let t = match map.tiles[i].terrain {
                Terrain::Nest(_) => Terrain::PlaceholderColony,
                Terrain::Food(_) => Terrain::Food(crate::DEFAULT_FOOD_AMOUNT),
                other => other,
            };
            tiles.push(Tile { terrain: t });
            i = i + 1;
        }
        SerializedMap { width: map.width, height: map.height, tiles }
    }
}

impl GameMap {
    /// Rebuilds a live map from a saved grid: nests become reserved slots
    /// (recorded in the placeholder list), and the whole ray cache is
    /// recomputed eagerly. Grids with impossible dimensions are refused.
    pub fn from_serialized(smap: &SerializedMap) -> (r: Option<GameMap>)
        ensures
            r is Some <==> (1 <= smap.width <= MAX_MAP_DIM && 1 <= smap.height <= MAX_MAP_DIM
                && smap.tiles.len() == smap.width * smap.height),
            r is Some ==> {
                let map = r->Some_0;
                &&& map.wf()
                &&& map.width == smap.width
                &&& map.height == smap.height
                &&& forall|i: int| 0 <= i < smap.tiles.len()
                        ==> #[trigger] map.tiles[i].terrain == loaded_terrain(smap.tiles[i].terrain)
                &&& map.loaded_map_name is None
            },
    {
        if smap.width < 1 || smap.width > MAX_MAP_DIM || smap.height < 1 || smap.height > MAX_MAP_DIM {
            return None;
        }
        proof {
            assert((smap.width as int) * (smap.height as int) <= 4096 * 4096) by (nonlinear_arith)
                requires
                    smap.width <= 4096,
                    smap.height <= 4096,
            ;
        }
        let expected: usize = (smap.width as usize) * (smap.height as usize);
        if smap.tiles.len() != expected {
            return None;
        }
        let mut map = GameMap::new(smap.width, smap.height);
        let mut y: u32 = 0;
        while y < smap.height
            invariant
                y <= smap.height,
                map.wf(),
                map.width == smap.width,
                map.height == smap.height,
                smap.tiles.len() == smap.width * smap.height,
                map.loaded_map_name is None,
                forall|gx: int, gy: int| 0 <= gx < smap.width && 0 <= gy < y
                    ==> #[trigger] map.terrain_at(gx, gy)
                        == loaded_terrain(smap.tiles[gy * smap.width + gx].terrain),
                forall|gx: int, gy: int| 0 <= gx < smap.width && y <= gy < smap.height
                    ==> #[trigger] map.terrain_at(gx, gy) == Terrain::Empty,
            decreases smap.height - y,
        {
            let mut x: u32 = 0;
            while x < smap.width
                invariant
                    x <= smap.width,
                    y < smap.height,
                    map.wf(),
                    map.width == smap.width,
                    map.height == smap.height,
                    smap.tiles.len() == smap.width * smap.height,
                    map.loaded_map_name is None,
                    forall|gx: int, gy: int| 0 <= gx < smap.width && 0 <= gy < y
                        ==> #[trigger] map.terrain_at(gx, gy)
                            == loaded_terrain(smap.tiles[gy * smap.width + gx].terrain),
                    forall|gx: int| 0 <= gx < x
                        ==> #[trigger] map.terrain_at(gx, y as int)
                            == loaded_terrain(smap.tiles[(y as int) * smap.width + gx].terrain),
                    forall|gx: int| x <= gx < smap.width
                        ==> #[trigger] map.terrain_at(gx, y as int) == Terrain::Empty,
                    forall|gx: int, gy: int| 0 <= gx < smap.width && y < gy < smap.height
                        ==> #[trigger] map.terrain_at(gx, gy) == Terrain::Empty,
                decreases smap.width - x,
            {
                proof {
                    crate::pheromone::lemma_cell_index_in_range(smap.width as int,
                        smap.height as int, x as int, y as int);
                }
                let sidx: usize = (y as usize) * (smap.width as usize) + (x as usize);
                let ghost mb = map;
                match smap.tiles[sidx].terrain {
                    Terrain::Nest(_) => {
                        map.place_nest_placeholder_at(x, y);
                    },
                    Terrain::PlaceholderColony => {
                        map.place_nest_placeholder_at(x, y);
                    },
                    Terrain::Food(amount) => {
                        map.place_food_at(x, y, amount);
                    },
                    Terrain::Wall => {
                        map.place_wall_at(x, y);
                    },
                    Terrain::Empty => {},
                }
                proof {
                    assert forall|gx: int, gy: int| mb.cell_in_bounds(gx, gy)
                        && !(gx == x && gy == y)
                        implies #[trigger] map.terrain_at(gx, gy) == mb.terrain_at(gx, gy) by {
                        crate::pheromone::lemma_cell_index_in_range(smap.width as int,
                            smap.height as int, gx, gy);
                        crate::pheromone::lemma_cell_index_injective(smap.width as int,
                            smap.height as int, gx, gy, x as int, y as int);
                    }
                }
                x = x + 1;
            }
            y = y + 1;
        }
        let ghost filled = map;
        let GameMap { width, height, tiles, placeholder_colony_locations, ants_in_cell,
            loaded_map_name, mut rc_cache } = map;
        rc_cache.clear();
        rc_cache.recompute_all_cache(&tiles);
        let rebuilt = GameMap {
            width,
            height,
            tiles,
            placeholder_colony_locations,
            ants_in_cell,
            loaded_map_name,
            rc_cache,
        };
        proof {
            assert(rebuilt.wf());
            assert forall|i: int| 0 <= i < smap.tiles.len()
                implies #[trigger] rebuilt.tiles[i].terrain
                    == loaded_terrain(smap.tiles[i].terrain) by {
                let w = smap.width as int;
                let gy = i / w;
                let gx = i % w;
                assert(0 <= gx < w && 0 <= gy < smap.height && i == gy * w + gx) by (nonlinear_arith)
                    requires
                        0 <= i,
                        i < smap.tiles.len(),
                        smap.tiles.len() == smap.width * smap.height,
                        w == smap.width,
                        w >= 1,
                        gy == i / w,
                        gx == i % w,
                ;
                assert(rebuilt.tiles@ == filled.tiles@);
                assert(filled.terrain_at(gx, gy) == loaded_terrain(smap.tiles[gy * w + gx].terrain));
                assert(rebuilt.terrain_at(gx, gy) == filled.terrain_at(gx, gy));
            }
        }
        Some(rebuilt)
    }
}

/// Placing a wall never pushes any ray's hit farther out: every ray cast
/// that hit something before still hits, at most as far away. Together
/// with the restoration lemma below, this is the raycast round trip:
/// walls only ever shorten rays, and removing the wall again gives back
/// the very ray casts there were before.
pub proof fn lemma_wall_placement_shortens_rays(
    t0: Seq<Tile>, w: int, h: int, x: int, y: int, ox: int, oy: int, ray: int,
)
    requires
        0 <= x < w,
        0 <= y < h,
        t0.len() == w * h,
        0 <= ray < crate::ANGLE_COUNT,
    ensures
        ({
            let t1 = t0.update(y * w + x, Tile { terrain: Terrain::Wall });
            match ray_cast_from(t0, w, h, ox, oy, ray) {
                RayResult::Hit(d0) => match ray_cast_from(t1, w, h, ox, oy, ray) {
                    RayResult::Hit(d1) => d1 <= d0,
                    _ => false,
                },
                _ => true,
            }
        }),
{
    let t1 = t0.update(y * w + x, Tile { terrain: Terrain::Wall });
    crate::pheromone::lemma_cell_index_in_range(w, h, x, y);
    assert forall|gx: int, gy: int| #[trigger] wall_at(t0, w, h, gx, gy)
        implies wall_at(t1, w, h, gx, gy) by {
        if 0 <= gx < w && 0 <= gy < h {
            crate::pheromone::lemma_cell_index_in_range(w, h, gx, gy);
            if !(gx == x && gy == y) {
                crate::pheromone::lemma_cell_index_injective(w, h, gx, gy, x, y);
            }
        }
    }
    crate::raycast::lemma_ray_cast_walls_monotone(t0, t1, w, h, ox, oy, ray);
}

/// Placing a wall on open ground and clearing it again leaves every
/// specified ray cast exactly as it was: terrain round trips bit for bit,
/// and ray casts are a function of the terrain alone.
pub proof fn lemma_wall_round_trip_restores_rays(m0: GameMap, m1: GameMap, m2: GameMap, x: int, y: int)
    requires
        m0.wf(),
        m0.cell_in_bounds(x, y),
        m0.terrain_at(x, y) == Terrain::Empty,
        m1.tiles@ == m0.tiles@.update(m0.idx_of(x, y), Tile { terrain: Terrain::Wall }),
        m2.tiles@ == m1.tiles@.update(m0.idx_of(x, y), Tile { terrain: Terrain::Empty }),
    ensures
        m2.tiles@ == m0.tiles@,
        forall|ox: int, oy: int, ray: int|
            #[trigger] ray_cast_from(m2.tiles@, m0.width as int, m0.height as int, ox, oy, ray)
                == ray_cast_from(m0.tiles@, m0.width as int, m0.height as int, ox, oy, ray),
{
    crate::pheromone::lemma_cell_index_in_range(m0.width as int, m0.height as int, x, y);
    assert(m2.tiles@ =~= m0.tiles@);
}

} // verus!
