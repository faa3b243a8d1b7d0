//! Per-cell, per-direction cached raycasts over the terrain grid.
//!
//! For every cell and every one of `ANGLE_COUNT` discrete directions the
//! cache can hold the result of a DDA grid march: either the distance (in
//! milli-cells, truncated at `SENSE_MAX_DISTANCE_MC`) to the first blocking
//! cell, or the fact that nothing blocks within range. Entries are computed
//! on demand and thrown away again by localized invalidation when the
//! terrain changes.
//!
//! The march itself is specified by the recursive function `march`; the
//! cache invariant `coherent` ties every known entry to that specification,
//! and `lemma_ray_cast_local` shows that a ray never depends on terrain
//! farther than `INVALIDATE_RADIUS` cells away from its origin, which is
//! what makes localized invalidation sound.

use vstd::prelude::*;
use crate::terrain::{Tile, wall_at, is_wall_cell};
use crate::fixmath::{sine, cosine, sin_cos, lemma_sine_cosine_bounds};
use crate::{TAU_MRAD, ANGLE_COUNT, SENSE_MAX_DISTANCE_MC, MAX_MAP_DIM};

verus! {

/// Stand-in for an infinite boundary parameter: far beyond any sensed
/// distance, yet small enough that a march can add it up without overflow.
pub const RAY_T_INF: i64 = 0x100_0000_0000;

/// Upper bound on DDA steps per ray; a ray of length `SENSE_MAX_DISTANCE_MC`
/// crosses at most 10 cell boundaries per axis, so 64 is never exhausted.
pub const MARCH_FUEL: u64 = 64;

/// Cells within this Chebyshev distance of a terrain edit have their
/// cached rays discarded (`ceil(sense range) + 1`).
pub const INVALIDATE_RADIUS: u32 = 11;

/// One cached ray: not yet computed, no wall within range, or a wall at
/// the given distance (milli-cells).
#[derive(Clone, Copy, Debug, PartialEq, Eq, Structural)]
pub enum RayResult {
    Unknown,
    NoHit,
    Hit(u32),
}

/// One step-at-a-time DDA march: starting in cell `(mx, my)` with axis
/// boundary parameters `tmx`, `tmy` (milli-cells) and per-cell increments
/// `tdx`, `tdy`, repeatedly steps into the axis with the smaller parameter
/// until the parameter passes the sense range (no hit) or the entered cell
/// blocks (hit at the boundary distance).
pub open spec fn march(
    tiles: Seq<Tile>, w: int, h: int,
    mx: int, my: int, sx: int, sy: int,
    tmx: int, tmy: int, tdx: int, tdy: int,
    fuel: nat,
) -> RayResult
    decreases fuel,
{
    if fuel == 0 {
        RayResult::NoHit
    } else if tmx < tmy {
        if tmx > SENSE_MAX_DISTANCE_MC {
            RayResult::NoHit
        } else if wall_at(tiles, w, h, mx + sx, my) {
            RayResult::Hit(tmx as u32)
        } else {
            march(tiles, w, h, mx + sx, my, sx, sy, tmx + tdx, tmy, tdx, tdy, (fuel - 1) as nat)
        }
    } else {
        if tmy > SENSE_MAX_DISTANCE_MC {
            RayResult::NoHit
        } else if wall_at(tiles, w, h, mx, my + sy) {
            RayResult::Hit(tmy as u32)
        } else {
            march(tiles, w, h, mx, my + sy, sx, sy, tmx, tmy + tdy, tdx, tdy, (fuel - 1) as nat)
        }
    }
}

/// The world angle of a discrete ray index, in milli-radians.
pub open spec fn ray_angle(ray: int) -> int {
    ray * TAU_MRAD / (ANGLE_COUNT as int)
}

/// The full ray cast from the center of cell `(x, y)` along discrete ray
/// `ray`: direction from the fixed-point sine/cosine, initial boundary
/// parameters half a cell out, then the DDA march.
pub open spec fn ray_cast_from(tiles: Seq<Tile>, w: int, h: int, x: int, y: int, ray: int) -> RayResult {
    let th = ray_angle(ray);
    let s = sine(th);
    let c = cosine(th);
    let ac = if c >= 0 { c } else { -c };
    let sa = if s >= 0 { s } else { -s };
    let sx: int = if c > 0 { 1 } else { -1 };
    let sy: int = if s > 0 { 1 } else { -1 };
    let tdx = if ac == 0 { RAY_T_INF as int } else { 1_000_000int / ac };
    let tdy = if sa == 0 { RAY_T_INF as int } else { 1_000_000int / sa };
    let tmx = if ac == 0 { RAY_T_INF as int } else { 500_000int / ac };
    let tmy = if sa == 0 { RAY_T_INF as int } else { 500_000int / sa };
    march(tiles, w, h, x, y, sx, sy, tmx, tmy, tdx, tdy, MARCH_FUEL as nat)
}

/// The discrete ray index nearest to an angle in `[0, TAU_MRAD)`: the
/// rounded fraction of a full turn, wrapped.
pub open spec fn ray_index_of(a: int) -> int {
    ((2 * (ANGLE_COUNT as int) * a + TAU_MRAD) / (2 * TAU_MRAD)) % (ANGLE_COUNT as int)
}

/// Flat index of the cache slot for cell `(x, y)`, ray `ray`.
pub open spec fn slot(w: int, x: int, y: int, ray: int) -> int {
    (y * w + x) * (ANGLE_COUNT as int) + ray
}

/// The flat slot of an in-bounds cell and ray is in range.
pub proof fn lemma_slot_in_range(w: int, h: int, x: int, y: int, ray: int) by (nonlinear_arith)
    requires
        0 <= x < w,
        0 <= y < h,
        0 <= ray < ANGLE_COUNT,
    ensures
        0 <= slot(w, x, y, ray) < w * h * (ANGLE_COUNT as int),
        slot(w, x, y, ray) == (y * w + x) * (ANGLE_COUNT as int) + ray,
{
}

/// Distinct (cell, ray) pairs use distinct slots.
pub proof fn lemma_slot_injective(w: int, h: int, x1: int, y1: int, r1: int, x2: int, y2: int, r2: int) by (nonlinear_arith)
    requires
        0 <= x1 < w,
        0 <= y1 < h,
        0 <= r1 < ANGLE_COUNT,
        0 <= x2 < w,
        0 <= y2 < h,
        0 <= r2 < ANGLE_COUNT,
        !(x1 == x2 && y1 == y2 && r1 == r2),
    ensures
        slot(w, x1, y1, r1) != slot(w, x2, y2, r2),
{
}

/// The cached ray field: one `RayResult` per cell and discrete direction.
pub struct RaycastCache {
    pub width: u32,
    pub height: u32,
    pub cache: Vec<RayResult>,
}

impl RaycastCache {
    /// Shape invariant.
    pub open spec fn wf(self) -> bool {
        &&& self.cache.len() == self.width * self.height * ANGLE_COUNT
        &&& self.width <= MAX_MAP_DIM
        &&& self.height <= MAX_MAP_DIM
    }

    /// The entry stored for cell `(x, y)`, ray `ray`.
    pub open spec fn entry(self, x: int, y: int, ray: int) -> RayResult {
        self.cache[slot(self.width as int, x, y, ray)]
    }

    /// Cache coherence against a tile grid: every known entry equals the
    /// specified ray cast over that grid.
    pub open spec fn coherent(self, tiles: Seq<Tile>) -> bool {
        forall|x: int, y: int, ray: int|
            0 <= x < self.width && 0 <= y < self.height && 0 <= ray < ANGLE_COUNT
                ==> #[trigger] self.entry(x, y, ray) == RayResult::Unknown
                    || self.entry(x, y, ray) == ray_cast_from(tiles, self.width as int, self.height as int, x, y, ray)
    }

    /// Creates an all-unknown cache for a `width x height` map.
    pub fn new(width: u32, height: u32) -> (r: RaycastCache)
        requires
            width <= MAX_MAP_DIM,
            height <= MAX_MAP_DIM,
        ensures
            r.wf(),
            r.width == width,
            r.height == height,
            forall|x: int, y: int, ray: int|
                0 <= x < width && 0 <= y < height && 0 <= ray < ANGLE_COUNT
                    ==> #[trigger] r.entry(x, y, ray) == RayResult::Unknown,
    {
        proof {
            assert((width as int) * (height as int) * (ANGLE_COUNT as int) <= 0x4000_0000)
                by (nonlinear_arith)
                requires
                    width <= 4096,
                    height <= 4096,
                    ANGLE_COUNT == 62,
            ;
        }
        let n: usize = (width as usize) * (height as usize) * ANGLE_COUNT;
        let mut cache: Vec<RayResult> = Vec::new();
        let mut i: usize = 0;
        while i < n
            invariant
                i <= n,
                cache.len() == i,
                forall|j: int| 0 <= j < i ==> cache[j] == RayResult::Unknown,
            decreases n - i,
        {
            cache.push(RayResult::Unknown);
            i = i + 1;
        }
        let r = RaycastCache { width, height, cache };
        proof {
            assert forall|x: int, y: int, ray: int|
                0 <= x < width && 0 <= y < height && 0 <= ray < ANGLE_COUNT
                    implies #[trigger] r.entry(x, y, ray) == RayResult::Unknown by {
                lemma_slot_in_range(width as int, height as int, x, y, ray);
            }
        }
        r
    }

    /// Forgets every cached ray.
    pub fn clear(&mut self)
        requires
            old(self).wf(),
        ensures
            final(self).wf(),
            final(self).width == old(self).width,
            final(self).height == old(self).height,
            forall|x: int, y: int, ray: int|
                0 <= x < final(self).width && 0 <= y < final(self).height && 0 <= ray < ANGLE_COUNT
                    ==> #[trigger] final(self).entry(x, y, ray) == RayResult::Unknown,
    {
        let n = self.cache.len();
        let mut i: usize = 0;
        while i < n
            invariant
                i <= n,
                self.cache.len() == n,
                self.width == old(self).width,
                self.height == old(self).height,
                forall|j: int| 0 <= j < i ==> self.cache[j] == RayResult::Unknown,
            decreases n - i,
        {
            self.cache.set(i, RayResult::Unknown);
            i = i + 1;
        }
        proof {
            assert forall|x: int, y: int, ray: int|
                0 <= x < self.width && 0 <= y < self.height && 0 <= ray < ANGLE_COUNT
                    implies #[trigger] self.entry(x, y, ray) == RayResult::Unknown by {
                lemma_slot_in_range(self.width as int, self.height as int, x, y, ray);
            }
        }
    }

    /// Forgets the cached rays of one cell; every other slot is untouched.
    pub fn invalidate_cell(&mut self, x: u32, y: u32)
        requires
            old(self).wf(),
        ensures
            final(self).wf(),
            final(self).width == old(self).width,
            final(self).height == old(self).height,
            forall|gx: int, gy: int, ray: int|
                0 <= gx < final(self).width && 0 <= gy < final(self).height && 0 <= ray < ANGLE_COUNT
                    ==> #[trigger] final(self).entry(gx, gy, ray) == if gx == x && gy == y {
                        RayResult::Unknown
                    } else {
                        old(self).entry(gx, gy, ray)
                    },
    {
        if x < self.width && y < self.height {
            proof {
                lemma_slot_in_range(self.width as int, self.height as int, x as int, y as int, 0);
                lemma_slot_in_range(self.width as int, self.height as int, x as int, y as int, (ANGLE_COUNT - 1) as int);
            }
            let base: usize = ((y as usize) * (self.width as usize) + (x as usize)) * ANGLE_COUNT;
            let mut ray: usize = 0;
            while ray < ANGLE_COUNT
                invariant
                    ray <= ANGLE_COUNT,
                    self.width == old(self).width,
                    self.height == old(self).height,
                    self.cache.len() == old(self).cache.len(),
                    base == (y * self.width + x) * ANGLE_COUNT,
                    forall|j: int| 0 <= j < self.cache.len() && !(base <= j < base + ray)
                        ==> self.cache[j] == old(self).cache[j],
                    forall|j: int| base <= j < base + ray ==> self.cache[j] == RayResult::Unknown,
                decreases ANGLE_COUNT - ray,
            {
                proof {
                    lemma_slot_in_range(self.width as int, self.height as int, x as int, y as int, ray as int);
                }
                self.cache.set(base + ray, RayResult::Unknown);
                ray = ray + 1;
            }
            proof {
                assert forall|gx: int, gy: int, ray: int|
                    0 <= gx < self.width && 0 <= gy < self.height && 0 <= ray < ANGLE_COUNT
                        implies #[trigger] self.entry(gx, gy, ray) == if gx == x && gy == y {
                            RayResult::Unknown
                        } else {
                            old(self).entry(gx, gy, ray)
                        } by {
                    lemma_slot_in_range(self.width as int, self.height as int, gx, gy, ray);
                    let w = self.width as int;
                    if gx == x && gy == y {
                        assert(slot(w, gx, gy, ray) == base + ray) by (nonlinear_arith)
                            requires
                                base == ((y as int) * w + x) * (ANGLE_COUNT as int),
                                gx == x && gy == y,
                                slot(w, gx, gy, ray) == (gy * w + gx) * (ANGLE_COUNT as int) + ray,
                        ;
                    } else {
                        assert(slot(w, gx, gy, ray) < base || slot(w, gx, gy, ray) >= base + ANGLE_COUNT)
                            by (nonlinear_arith)
                            requires
                                0 <= gx < w,
                                0 <= ray < ANGLE_COUNT,
                                0 <= (x as int) < w,
                                !(gx == x && gy == y),
                                base == ((y as int) * w + x) * (ANGLE_COUNT as int),
                                slot(w, gx, gy, ray) == (gy * w + gx) * (ANGLE_COUNT as int) + ray,
                        ;
                    }
                }
            }
        }
    }
    /// Forgets the cached rays of every cell within `INVALIDATE_RADIUS`
    /// Chebyshev distance of `(center_x, center_y)`; all other slots are
    /// untouched.
    pub fn invalidate_area_around(&mut self, center_x: u32, center_y: u32)
        requires
            old(self).wf(),
        ensures
            final(self).wf(),
            final(self).width == old(self).width,
            final(self).height == old(self).height,
            forall|gx: int, gy: int, ray: int|
                0 <= gx < final(self).width && 0 <= gy < final(self).height && 0 <= ray < ANGLE_COUNT
                    ==> #[trigger] final(self).entry(gx, gy, ray) == if center_x - INVALIDATE_RADIUS <= gx
                        <= center_x + INVALIDATE_RADIUS && center_y - INVALIDATE_RADIUS <= gy
                        <= center_y + INVALIDATE_RADIUS {
                        RayResult::Unknown
                    } else {
                        old(self).entry(gx, gy, ray)
                    },
    {
        let min_x: u32 = if center_x >= INVALIDATE_RADIUS { center_x - INVALIDATE_RADIUS } else { 0 };
        let min_y: u32 = if center_y >= INVALIDATE_RADIUS { center_y - INVALIDATE_RADIUS } else { 0 };
        let max_x: u32 = if center_x <= self.width { center_x + INVALIDATE_RADIUS + 1 } else { self.width };
        let max_x: u32 = if max_x <= self.width { max_x } else { self.width };
        let max_y: u32 = if center_y <= self.height { center_y + INVALIDATE_RADIUS + 1 } else { self.height };
        let max_y: u32 = if max_y <= self.height { max_y } else { self.height };
        let min_x: u32 = if min_x <= max_x { min_x } else { max_x };
        let min_y: u32 = if min_y <= max_y { min_y } else { max_y };
        let mut gy: u32 = min_y;
        while gy < max_y
            invariant
                min_y <= gy <= max_y,
                self.wf(),
                self.width == old(self).width,
                self.height == old(self).height,
                forall|px: int, py: int, ray: int|
                    0 <= px < self.width && 0 <= py < self.height && 0 <= ray < ANGLE_COUNT
                        ==> #[trigger] self.entry(px, py, ray) == if min_x <= px < max_x && min_y <= py < gy {
                            RayResult::Unknown
                        } else {
                            old(self).entry(px, py, ray)
                        },
            decreases max_y - gy,
        {
            let mut gx: u32 = min_x;
            while gx < max_x
                invariant
                    min_x <= gx <= max_x,
                    self.wf(),
                    self.width == old(self).width,
                    self.height == old(self).height,
                    forall|px: int, py: int, ray: int|
                        0 <= px < self.width && 0 <= py < self.height && 0 <= ray < ANGLE_COUNT
                            ==> #[trigger] self.entry(px, py, ray) == if (min_x <= px < max_x && min_y <= py < gy)
                                || (py == gy && min_x <= px < gx) {
                                RayResult::Unknown
                            } else {
                                old(self).entry(px, py, ray)
                            },
                decreases max_x - gx,
            {
                self.invalidate_cell(gx, gy);
                gx = gx + 1;
            }
            gy = gy + 1;
        }
    }

    /// Maps an angle in `[0, TAU_MRAD)` to its nearest discrete ray index.
    pub fn angle_to_ray_index(angle: i64) -> (r: usize)
        requires
            0 <= angle < TAU_MRAD,
        ensures
            r == ray_index_of(angle as int),
            r < ANGLE_COUNT,
    {
        (((124 * angle + TAU_MRAD) / (2 * TAU_MRAD)) % (ANGLE_COUNT as i64)) as usize
    }

    /// The world angle of a discrete ray index, in milli-radians.
    pub fn ray_index_to_angle(ray: usize) -> (r: i64)
        requires
            ray < ANGLE_COUNT,
        ensures
            r == ray_angle(ray as int),
            0 <= r < TAU_MRAD,
    {
        proof {
            assert(0 <= (ray as int) * 6283 / 62 < 6283) by (nonlinear_arith)
                requires
                    0 <= ray < 62,
            ;
        }
        ((ray as i64) * TAU_MRAD) / (ANGLE_COUNT as i64)
    }

    /// Runs the DDA march for one cell and ray and stores the result.
    fn compute_single_ray(&mut self, tiles: &Vec<Tile>, x: u32, y: u32, ray: usize)
        requires
            old(self).wf(),
            tiles.len() == old(self).width * old(self).height,
            x < old(self).width,
            y < old(self).height,
            ray < ANGLE_COUNT,
        ensures
            final(self).wf(),
            final(self).width == old(self).width,
            final(self).height == old(self).height,
            forall|gx: int, gy: int, r2: int|
                0 <= gx < final(self).width && 0 <= gy < final(self).height && 0 <= r2 < ANGLE_COUNT
                    ==> #[trigger] final(self).entry(gx, gy, r2) == if gx == x && gy == y && r2 == ray {
                        ray_cast_from(tiles@, final(self).width as int, final(self).height as int, x as int, y as int, ray as int)
                    } else {
                        old(self).entry(gx, gy, r2)
                    },
    {
        let w = self.width;
        let h = self.height;
        let ghost spec_res = ray_cast_from(tiles@, w as int, h as int, x as int, y as int, ray as int);
        let theta = Self::ray_index_to_angle(ray);
        let (s, c) = sin_cos(theta);
        let ac: i64 = if c >= 0 { c } else { -c };
        let sa: i64 = if s >= 0 { s } else { -s };
        let sx: i64 = if c > 0 { 1 } else { -1 };
        let sy: i64 = if s > 0 { 1 } else { -1 };
        let tdx: i64 = if ac == 0 { RAY_T_INF } else { 1_000_000 / ac };
        let tdy: i64 = if sa == 0 { RAY_T_INF } else { 1_000_000 / sa };
        let mut tmx: i64 = if ac == 0 { RAY_T_INF } else { 500_000 / ac };
        let mut tmy: i64 = if sa == 0 { RAY_T_INF } else { 500_000 / sa };
        proof {
            if ac != 0 {
                assert(0 < 1_000_000int / (ac as int) <= 1_000_000
                    && 0 <= 500_000int / (ac as int) <= 500_000) by (nonlinear_arith)
                    requires
                        1 <= ac <= 1000,
                ;
            }
            if sa != 0 {
                assert(0 < 1_000_000int / (sa as int) <= 1_000_000
                    && 0 <= 500_000int / (sa as int) <= 500_000) by (nonlinear_arith)
                    requires
                        1 <= sa <= 1000,
                ;
            }
        }
        let mut mx: i64 = x as i64;
        let mut my: i64 = y as i64;
        let mut fuel: u64 = MARCH_FUEL;
        let mut res: RayResult = RayResult::NoHit;
        let mut done: bool = false;
        while !done
            invariant
                0 <= tmx,
                0 <= tmy,
                0 < tdx <= RAY_T_INF,
                0 < tdy <= RAY_T_INF,
                fuel <= MARCH_FUEL,
                tmx <= RAY_T_INF + (MARCH_FUEL - fuel) * RAY_T_INF,
                tmy <= RAY_T_INF + (MARCH_FUEL - fuel) * RAY_T_INF,
                x - (MARCH_FUEL - fuel) <= mx <= x + (MARCH_FUEL - fuel),
                y - (MARCH_FUEL - fuel) <= my <= y + (MARCH_FUEL - fuel),
                !done ==> spec_res == march(tiles@, w as int, h as int, mx as int, my as int, sx as int,
                    sy as int, tmx as int, tmy as int, tdx as int, tdy as int, fuel as nat),
                done ==> res == spec_res,
            decreases (if done { 0int } else { 1int }), fuel,
        {
            if fuel == 0 {
                res = RayResult::NoHit;
                done = true;
            } else if tmx < tmy {
                if tmx > SENSE_MAX_DISTANCE_MC {
                    res = RayResult::NoHit;
                    done = true;
                } else {
                    let nmx = mx + sx;
                    if is_wall_cell(tiles, w, h, nmx, my) {
                        res = RayResult::Hit(tmx as u32);
                        done = true;
                    } else {
                        mx = nmx;
                        tmx = tmx + tdx;
                        fuel = fuel - 1;
                    }
                }
            } else {
                if tmy > SENSE_MAX_DISTANCE_MC {
                    res = RayResult::NoHit;
                    done = true;
                } else {
                    let nmy = my + sy;
                    if is_wall_cell(tiles, w, h, mx, nmy) {
                        res = RayResult::Hit(tmy as u32);
                        done = true;
                    } else {
                        my = nmy;
                        tmy = tmy + tdy;
                        fuel = fuel - 1;
                    }
                }
            }
        }
        proof {
            lemma_slot_in_range(w as int, h as int, x as int, y as int, ray as int);
        }
        let idx: usize = (((y as usize) * (w as usize) + (x as usize)) * ANGLE_COUNT) + ray;
        proof {
            assert(idx == slot(w as int, x as int, y as int, ray as int)) by (nonlinear_arith)
                requires
                    idx == ((y as int) * (w as int) + (x as int)) * (ANGLE_COUNT as int) + ray,
                    slot(w as int, x as int, y as int, ray as int) == ((y as int) * (w as int) + (x as int)) * (ANGLE_COUNT as int) + ray,
            ;
        }
        self.cache.set(idx, res);
        proof {
            assert forall|gx: int, gy: int, r2: int|
                0 <= gx < self.width && 0 <= gy < self.height && 0 <= r2 < ANGLE_COUNT
                    implies #[trigger] self.entry(gx, gy, r2) == if gx == x && gy == y && r2 == ray {
                        spec_res
                    } else {
                        old(self).entry(gx, gy, r2)
                    } by {
                lemma_slot_in_range(w as int, h as int, gx, gy, r2);
                if !(gx == x && gy == y && r2 == ray) {
                    lemma_slot_injective(w as int, h as int, gx, gy, r2, x as int, y as int, ray as int);
                }
            }
        }
    }

    /// Recomputes every ray of one cell from the current terrain.
    pub fn recompute_all_rays_for_cell(&mut self, tiles: &Vec<Tile>, x: u32, y: u32)
        requires
            old(self).wf(),
            tiles.len() == old(self).width * old(self).height,
            x < old(self).width,
            y < old(self).height,
        ensures
            final(self).wf(),
            final(self).width == old(self).width,
            final(self).height == old(self).height,
            forall|gx: int, gy: int, r2: int|
                0 <= gx < final(self).width && 0 <= gy < final(self).height && 0 <= r2 < ANGLE_COUNT
                    ==> #[trigger] final(self).entry(gx, gy, r2) == if gx == x && gy == y {
                        ray_cast_from(tiles@, final(self).width as int, final(self).height as int, gx, gy, r2)
                    } else {
                        old(self).entry(gx, gy, r2)
                    },
    {
        let mut ray: usize = 0;
        while ray < ANGLE_COUNT
            invariant
                ray <= ANGLE_COUNT,
                self.wf(),
                self.width == old(self).width,
                self.height == old(self).height,
                forall|gx: int, gy: int, r2: int|
                    0 <= gx < self.width && 0 <= gy < self.height && 0 <= r2 < ANGLE_COUNT
                        ==> #[trigger] self.entry(gx, gy, r2) == if gx == x && gy == y && r2 < ray {
                            ray_cast_from(tiles@, self.width as int, self.height as int, gx, gy, r2)
                        } else {
                            old(self).entry(gx, gy, r2)
                        },
            decreases ANGLE_COUNT - ray,
        {
            self.compute_single_ray(tiles, x, y, ray);
            ray = ray + 1;
        }
    }

    /// Looks up (computing and caching on a miss) the ray cast for the
    /// given origin cell and angle. Requires a coherent cache and returns
    /// exactly the specified ray cast of the current terrain.
    pub fn get_distance_at_angle(&mut self, tiles: &Vec<Tile>, x: u32, y: u32, angle: i64) -> (r: RayResult)
        requires
            old(self).wf(),
            old(self).coherent(tiles@),
            tiles.len() == old(self).width * old(self).height,
            x < old(self).width,
            y < old(self).height,
            0 <= angle < TAU_MRAD,
        ensures
            final(self).wf(),
            final(self).coherent(tiles@),
            final(self).width == old(self).width,
            final(self).height == old(self).height,
            r == ray_cast_from(tiles@, final(self).width as int, final(self).height as int,
                x as int, y as int, ray_index_of(angle as int)),
    {
        let ray = Self::angle_to_ray_index(angle);
        proof {
            lemma_slot_in_range(self.width as int, self.height as int, x as int, y as int, ray as int);
        }
        let idx: usize = (((y as usize) * (self.width as usize) + (x as usize)) * ANGLE_COUNT) + ray;
        proof {
            assert(idx == slot(self.width as int, x as int, y as int, ray as int)) by (nonlinear_arith)
                requires
                    idx == ((y as int) * (self.width as int) + (x as int)) * (ANGLE_COUNT as int) + ray,
                    slot(self.width as int, x as int, y as int, ray as int)
                        == ((y as int) * (self.width as int) + (x as int)) * (ANGLE_COUNT as int) + ray,
            ;
        }
        let known = self.cache[idx];
        match known {
            RayResult::Unknown => {
                self.compute_single_ray(tiles, x, y, ray);
                let idx2: usize = idx;
                let r = self.cache[idx2];
                proof {
                    assert(self.entry(x as int, y as int, ray as int)
                        == ray_cast_from(tiles@, self.width as int, self.height as int, x as int, y as int, ray as int));
                }
                r
            },
            _ => {
                assert(self.entry(x as int, y as int, ray as int) == known);
                known
            },
        }
    }

    /// Recomputes the whole cache from the current terrain: afterwards the
    /// cache is coherent, with every ray of every non-blocked cell known.
    pub fn recompute_all_cache(&mut self, tiles: &Vec<Tile>)
        requires
            old(self).wf(),
            tiles.len() == old(self).width * old(self).height,
        ensures
            final(self).wf(),
            final(self).width == old(self).width,
            final(self).height == old(self).height,
            final(self).coherent(tiles@),
    {
        let w = self.width;
        let h = self.height;
        let mut gy: u32 = 0;
        while gy < h
            invariant
                gy <= h,
                self.wf(),
                self.width == w,
                self.height == h,
                forall|px: int, py: int, r2: int|
                    0 <= px < w && 0 <= py < gy && 0 <= r2 < ANGLE_COUNT
                        ==> #[trigger] self.entry(px, py, r2) == RayResult::Unknown
                            || self.entry(px, py, r2) == ray_cast_from(tiles@, w as int, h as int, px, py, r2),
            decreases h - gy,
        {
            let mut gx: u32 = 0;
            while gx < w
                invariant
                    gx <= w,
                    self.wf(),
                    self.width == w,
                    self.height == h,
                    forall|px: int, py: int, r2: int|
                        0 <= px < w && 0 <= py < gy && 0 <= r2 < ANGLE_COUNT
                            ==> #[trigger] self.entry(px, py, r2) == RayResult::Unknown
                                || self.entry(px, py, r2) == ray_cast_from(tiles@, w as int, h as int, px, py, r2),
                    forall|px: int, r2: int|
                        0 <= px < gx && 0 <= r2 < ANGLE_COUNT
                            ==> #[trigger] self.entry(px, gy as int, r2) == RayResult::Unknown
                                || self.entry(px, gy as int, r2) == ray_cast_from(tiles@, w as int, h as int, px, gy as int, r2),
                decreases w - gx,
            {
                if is_wall_cell(tiles, w, h, gx as i64, gy as i64) {
                    self.invalidate_cell(gx, gy);
                } else {
                    self.recompute_all_rays_for_cell(tiles, gx, gy);
                }
                gx = gx + 1;
            }
            gy = gy + 1;
        }
    }
}

/// A march always settles on a hit or a miss.
pub proof fn lemma_march_defined(
    tiles: Seq<Tile>, w: int, h: int,
    mx: int, my: int, sx: int, sy: int,
    tmx: int, tmy: int, tdx: int, tdy: int, fuel: nat,
)
    ensures
        march(tiles, w, h, mx, my, sx, sy, tmx, tmy, tdx, tdy, fuel) != RayResult::Unknown,
    decreases fuel,
{
    if fuel == 0 {
    } else if tmx < tmy {
        if tmx > SENSE_MAX_DISTANCE_MC {
        } else if wall_at(tiles, w, h, mx + sx, my) {
        } else {
            lemma_march_defined(tiles, w, h, mx + sx, my, sx, sy, tmx + tdx, tmy, tdx, tdy, (fuel - 1) as nat);
        }
    } else {
        if tmy > SENSE_MAX_DISTANCE_MC {
        } else if wall_at(tiles, w, h, mx, my + sy) {
        } else {
            lemma_march_defined(tiles, w, h, mx, my + sy, sx, sy, tmx, tmy + tdy, tdx, tdy, (fuel - 1) as nat);
        }
    }
}

/// A full ray cast always settles on a hit or a miss.
pub proof fn lemma_ray_cast_defined(tiles: Seq<Tile>, w: int, h: int, x: int, y: int, ray: int)
    ensures
        ray_cast_from(tiles, w, h, x, y, ray) != RayResult::Unknown,
{
    let th = ray_angle(ray);
    let s = sine(th);
    let c = cosine(th);
    let ac = if c >= 0 { c } else { -c };
    let sa = if s >= 0 { s } else { -s };
    let sx: int = if c > 0 { 1 } else { -1 };
    let sy: int = if s > 0 { 1 } else { -1 };
    let tdx = if ac == 0 { RAY_T_INF as int } else { 1_000_000int / ac };
    let tdy = if sa == 0 { RAY_T_INF as int } else { 1_000_000int / sa };
    let tmx = if ac == 0 { RAY_T_INF as int } else { 500_000int / ac };
    let tmy = if sa == 0 { RAY_T_INF as int } else { 500_000int / sa };
    lemma_march_defined(tiles, w, h, x, y, sx, sy, tmx, tmy, tdx, tdy, MARCH_FUEL as nat);
}

/// Two terrains with the same blocking predicate everywhere give every
/// march the same outcome.
pub proof fn lemma_march_same_walls(
    t1: Seq<Tile>, t2: Seq<Tile>, w: int, h: int,
    mx: int, my: int, sx: int, sy: int,
    tmx: int, tmy: int, tdx: int, tdy: int, fuel: nat,
)
    requires
        forall|gx: int, gy: int| #[trigger] wall_at(t1, w, h, gx, gy) == wall_at(t2, w, h, gx, gy),
    ensures
        march(t1, w, h, mx, my, sx, sy, tmx, tmy, tdx, tdy, fuel)
            == march(t2, w, h, mx, my, sx, sy, tmx, tmy, tdx, tdy, fuel),
    decreases fuel,
{
    if fuel == 0 {
    } else if tmx < tmy {
        if tmx > SENSE_MAX_DISTANCE_MC {
        } else if wall_at(t1, w, h, mx + sx, my) {
        } else {
            lemma_march_same_walls(t1, t2, w, h, mx + sx, my, sx, sy, tmx + tdx, tmy, tdx, tdy, (fuel - 1) as nat);
        }
    } else {
        if tmy > SENSE_MAX_DISTANCE_MC {
        } else if wall_at(t1, w, h, mx, my + sy) {
        } else {
            lemma_march_same_walls(t1, t2, w, h, mx, my + sy, sx, sy, tmx, tmy + tdy, tdx, tdy, (fuel - 1) as nat);
        }
    }
}

/// Two terrains with the same blocking predicate everywhere give every
/// full ray cast the same outcome.
pub proof fn lemma_ray_cast_same_walls(t1: Seq<Tile>, t2: Seq<Tile>, w: int, h: int, x: int, y: int, ray: int)
    requires
        forall|gx: int, gy: int| #[trigger] wall_at(t1, w, h, gx, gy) == wall_at(t2, w, h, gx, gy),
    ensures
        ray_cast_from(t1, w, h, x, y, ray) == ray_cast_from(t2, w, h, x, y, ray),
{
    let th = ray_angle(ray);
    let s = sine(th);
    let c = cosine(th);
    let ac = if c >= 0 { c } else { -c };
    let sa = if s >= 0 { s } else { -s };
    let sx: int = if c > 0 { 1 } else { -1 };
    let sy: int = if s > 0 { 1 } else { -1 };
    let tdx = if ac == 0 { RAY_T_INF as int } else { 1_000_000int / ac };
    let tdy = if sa == 0 { RAY_T_INF as int } else { 1_000_000int / sa };
    let tmx = if ac == 0 { RAY_T_INF as int } else { 500_000int / ac };
    let tmy = if sa == 0 { RAY_T_INF as int } else { 500_000int / sa };
    lemma_march_same_walls(t1, t2, w, h, x, y, sx, sy, tmx, tmy, tdx, tdy, MARCH_FUEL as nat);
}

/// A march never reports a hit nearer than its current boundary budget.
proof fn lemma_march_hit_lower_bound(
    tiles: Seq<Tile>, w: int, h: int,
    mx: int, my: int, sx: int, sy: int,
    tmx: int, tmy: int, tdx: int, tdy: int, fuel: nat,
)
    requires
        0 <= tmx,
        0 <= tmy,
        tdx > 0,
        tdy > 0,
    ensures
        match march(tiles, w, h, mx, my, sx, sy, tmx, tmy, tdx, tdy, fuel) {
            RayResult::Hit(d) => d >= if tmx < tmy { tmx } else { tmy },
            _ => true,
        },
    decreases fuel,
{
    if fuel == 0 {
    } else if tmx < tmy {
        if tmx > SENSE_MAX_DISTANCE_MC {
        } else if wall_at(tiles, w, h, mx + sx, my) {
        } else {
            lemma_march_hit_lower_bound(tiles, w, h, mx + sx, my, sx, sy, tmx + tdx, tmy, tdx, tdy,
                (fuel - 1) as nat);
        }
    } else {
        if tmy > SENSE_MAX_DISTANCE_MC {
        } else if wall_at(tiles, w, h, mx, my + sy) {
        } else {
            lemma_march_hit_lower_bound(tiles, w, h, mx, my + sy, sx, sy, tmx, tmy + tdy, tdx, tdy,
                (fuel - 1) as nat);
        }
    }
}

/// Adding walls never pushes a march's hit farther out: on a terrain with
/// at least the same blocking cells, a hitting march still hits, at most
/// as far away.
pub proof fn lemma_march_walls_monotone(
    t0: Seq<Tile>, t1: Seq<Tile>, w: int, h: int,
    mx: int, my: int, sx: int, sy: int,
    tmx: int, tmy: int, tdx: int, tdy: int, fuel: nat,
)
    requires
        0 <= tmx,
        0 <= tmy,
        tdx > 0,
        tdy > 0,
        forall|gx: int, gy: int| #[trigger] wall_at(t0, w, h, gx, gy) ==> wall_at(t1, w, h, gx, gy),
    ensures
        match march(t0, w, h, mx, my, sx, sy, tmx, tmy, tdx, tdy, fuel) {
            RayResult::Hit(d0) => match march(t1, w, h, mx, my, sx, sy, tmx, tmy, tdx, tdy, fuel) {
                RayResult::Hit(d1) => d1 <= d0,
                _ => false,
            },
            _ => true,
        },
    decreases fuel,
{
    if fuel == 0 {
    } else if tmx < tmy {
        if tmx > SENSE_MAX_DISTANCE_MC {
        } else if wall_at(t0, w, h, mx + sx, my) {
            assert(wall_at(t1, w, h, mx + sx, my));
        } else if wall_at(t1, w, h, mx + sx, my) {
            // the added wall stops the march right here, no later than any
            // hit the open terrain's march can still reach
            lemma_march_hit_lower_bound(t0, w, h, mx + sx, my, sx, sy, tmx + tdx, tmy, tdx, tdy,
                (fuel - 1) as nat);
        } else {
            lemma_march_walls_monotone(t0, t1, w, h, mx + sx, my, sx, sy, tmx + tdx, tmy, tdx, tdy,
                (fuel - 1) as nat);
        }
    } else {
        if tmy > SENSE_MAX_DISTANCE_MC {
        } else if wall_at(t0, w, h, mx, my + sy) {
            assert(wall_at(t1, w, h, mx, my + sy));
        } else if wall_at(t1, w, h, mx, my + sy) {
            lemma_march_hit_lower_bound(t0, w, h, mx, my + sy, sx, sy, tmx, tmy + tdy, tdx, tdy,
                (fuel - 1) as nat);
        } else {
            lemma_march_walls_monotone(t0, t1, w, h, mx, my + sy, sx, sy, tmx, tmy + tdy, tdx, tdy,
                (fuel - 1) as nat);
        }
    }
}

/// Adding walls never pushes a full ray cast's hit farther out.
pub proof fn lemma_ray_cast_walls_monotone(
    t0: Seq<Tile>, t1: Seq<Tile>, w: int, h: int, x: int, y: int, ray: int,
)
    requires
        0 <= ray < ANGLE_COUNT,
        forall|gx: int, gy: int| #[trigger] wall_at(t0, w, h, gx, gy) ==> wall_at(t1, w, h, gx, gy),
    ensures
        match ray_cast_from(t0, w, h, x, y, ray) {
            RayResult::Hit(d0) => match ray_cast_from(t1, w, h, x, y, ray) {
                RayResult::Hit(d1) => d1 <= d0,
                _ => false,
            },
            _ => true,
        },
{
    let th = ray_angle(ray);
    assert(0 <= th < TAU_MRAD) by (nonlinear_arith)
        requires
            0 <= ray < 62,
            th == ray * 6283 / 62,
    ;
    lemma_sine_cosine_bounds(th);
    let s = sine(th);
    let c = cosine(th);
    let ac = if c >= 0 { c } else { -c };
    let sa = if s >= 0 { s } else { -s };
    let sx: int = if c > 0 { 1 } else { -1 };
    let sy: int = if s > 0 { 1 } else { -1 };
    let tdx = if ac == 0 { RAY_T_INF as int } else { 1_000_000int / ac };
    let tdy = if sa == 0 { RAY_T_INF as int } else { 1_000_000int / sa };
    let tmx = if ac == 0 { RAY_T_INF as int } else { 500_000int / ac };
    let tmy = if sa == 0 { RAY_T_INF as int } else { 500_000int / sa };
    if ac != 0 {
        assert(1_000_000int / ac >= 1000 && 500_000int / ac >= 0) by (nonlinear_arith)
            requires
                1 <= ac <= 1000,
        ;
    }
    if sa != 0 {
        assert(1_000_000int / sa >= 1000 && 500_000int / sa >= 0) by (nonlinear_arith)
            requires
                1 <= sa <= 1000,
        ;
    }
    lemma_march_walls_monotone(t0, t1, w, h, x, y, sx, sy, tmx, tmy, tdx, tdy, MARCH_FUEL as nat);
}

/// A march at column `m`, stepping direction `s` with boundary parameter
/// `tm`, can still query the axis coordinate `c`: it either stands on it or
/// the remaining boundary budget suffices to step onto it.
pub open spec fn axis_reachable(m: int, s: int, tm: int, c: int) -> bool {
    let d = (c - m) * s;
    d == 0 || (d >= 1 && tm + (d - 1) * 1000 <= SENSE_MAX_DISTANCE_MC)
}

/// Taking one step (which requires `tm` within the sense range) cannot make
/// an unreachable axis coordinate reachable.
proof fn lemma_axis_step(m: int, s: int, tm: int, td: int, c: int)
    requires
        s == 1 || s == -1,
        td >= 1000,
        tm <= SENSE_MAX_DISTANCE_MC,
        !axis_reachable(m, s, tm, c),
    ensures
        !axis_reachable(m + s, s, tm + td, c),
        (c - m) * s != 1,
{
    let d = (c - m) * s;
    let d2 = (c - (m + s)) * s;
    assert(d2 == d - 1 && s * s == 1) by (nonlinear_arith)
        requires
            s == 1 || s == -1,
            d == (c - m) * s,
            d2 == (c - (m + s)) * s,
    ;
    if d >= 1 {
        assert(tm + (d - 1) * 1000 > SENSE_MAX_DISTANCE_MC);
        assert(d >= 2);
        assert(tm + td + (d2 - 1) * 1000 > SENSE_MAX_DISTANCE_MC);
    } else {
        assert(d2 <= -1);
    }
}

/// A march that can no longer reach the edited cell `(cx, cy)` gives the
/// same outcome on two terrains that differ only there.
pub proof fn lemma_march_local(
    t1: Seq<Tile>, t2: Seq<Tile>, w: int, h: int,
    mx: int, my: int, sx: int, sy: int,
    tmx: int, tmy: int, tdx: int, tdy: int, fuel: nat,
    cx: int, cy: int,
)
    requires
        sx == 1 || sx == -1,
        sy == 1 || sy == -1,
        tdx >= 1000,
        tdy >= 1000,
        forall|gx: int, gy: int| !(gx == cx && gy == cy)
            ==> #[trigger] wall_at(t1, w, h, gx, gy) == wall_at(t2, w, h, gx, gy),
        !axis_reachable(mx, sx, tmx, cx) || !axis_reachable(my, sy, tmy, cy),
    ensures
        march(t1, w, h, mx, my, sx, sy, tmx, tmy, tdx, tdy, fuel)
            == march(t2, w, h, mx, my, sx, sy, tmx, tmy, tdx, tdy, fuel),
    decreases fuel,
{
    if fuel == 0 {
    } else if tmx < tmy {
        if tmx > SENSE_MAX_DISTANCE_MC {
        } else {
            if !axis_reachable(mx, sx, tmx, cx) {
                lemma_axis_step(mx, sx, tmx, tdx, cx);
                // the queried cell's column differs from cx
                if mx + sx == cx {
                    assert((cx - mx) * sx == 1) by (nonlinear_arith)
                        requires
                            cx - mx == sx,
                            sx == 1 || sx == -1,
                    ;
                }
                assert(!(mx + sx == cx && my == cy));
                if !wall_at(t1, w, h, mx + sx, my) {
                    lemma_march_local(t1, t2, w, h, mx + sx, my, sx, sy, tmx + tdx, tmy, tdx, tdy,
                        (fuel - 1) as nat, cx, cy);
                }
            } else {
                // the edited row is unreachable; the queried row is my itself
                if my == cy {
                    assert((cy - my) * sy == 0) by (nonlinear_arith)
                        requires
                            cy == my,
                    ;
                    assert(axis_reachable(my, sy, tmy, cy));
                    assert(false);
                }
                assert(!(mx + sx == cx && my == cy));
                if !wall_at(t1, w, h, mx + sx, my) {
                    lemma_march_local(t1, t2, w, h, mx + sx, my, sx, sy, tmx + tdx, tmy, tdx, tdy,
                        (fuel - 1) as nat, cx, cy);
                }
            }
        }
    } else {
        if tmy > SENSE_MAX_DISTANCE_MC {
        } else {
            if !axis_reachable(my, sy, tmy, cy) {
                lemma_axis_step(my, sy, tmy, tdy, cy);
                if my + sy == cy {
                    assert((cy - my) * sy == 1) by (nonlinear_arith)
                        requires
                            cy - my == sy,
                            sy == 1 || sy == -1,
                    ;
                }
                assert(!(mx == cx && my + sy == cy));
                if !wall_at(t1, w, h, mx, my + sy) {
                    lemma_march_local(t1, t2, w, h, mx, my + sy, sx, sy, tmx, tmy + tdy, tdx, tdy,
                        (fuel - 1) as nat, cx, cy);
                }
            } else {
                if mx == cx {
                    assert((cx - mx) * sx == 0) by (nonlinear_arith)
                        requires
                            cx == mx,
                    ;
                    assert(axis_reachable(mx, sx, tmx, cx));
                    assert(false);
                }
                assert(!(mx == cx && my + sy == cy));
                if !wall_at(t1, w, h, mx, my + sy) {
                    lemma_march_local(t1, t2, w, h, mx, my + sy, sx, sy, tmx, tmy + tdy, tdx, tdy,
                        (fuel - 1) as nat, cx, cy);
                }
            }
        }
    }
}

/// A ray cast from an origin farther than `INVALIDATE_RADIUS` (Chebyshev)
/// from an edited cell does not see the edit.
pub proof fn lemma_ray_cast_local(
    t1: Seq<Tile>, t2: Seq<Tile>, w: int, h: int,
    x: int, y: int, ray: int, cx: int, cy: int,
)
    requires
        0 <= ray < ANGLE_COUNT,
        forall|gx: int, gy: int| !(gx == cx && gy == cy)
            ==> #[trigger] wall_at(t1, w, h, gx, gy) == wall_at(t2, w, h, gx, gy),
        cx - x > INVALIDATE_RADIUS || x - cx > INVALIDATE_RADIUS
            || cy - y > INVALIDATE_RADIUS || y - cy > INVALIDATE_RADIUS,
    ensures
        ray_cast_from(t1, w, h, x, y, ray) == ray_cast_from(t2, w, h, x, y, ray),
{
    let th = ray_angle(ray);
    assert(0 <= th < TAU_MRAD) by (nonlinear_arith)
        requires
            0 <= ray < 62,
            th == ray * 6283 / 62,
    ;
    lemma_sine_cosine_bounds(th);
    let s = sine(th);
    let c = cosine(th);
    let ac = if c >= 0 { c } else { -c };
    let sa = if s >= 0 { s } else { -s };
    let sx: int = if c > 0 { 1 } else { -1 };
    let sy: int = if s > 0 { 1 } else { -1 };
    let tdx = if ac == 0 { RAY_T_INF as int } else { 1_000_000int / ac };
    let tdy = if sa == 0 { RAY_T_INF as int } else { 1_000_000int / sa };
    let tmx = if ac == 0 { RAY_T_INF as int } else { 500_000int / ac };
    let tmy = if sa == 0 { RAY_T_INF as int } else { 500_000int / sa };
    if ac != 0 {
        assert(1_000_000int / ac >= 1000 && 500_000int / ac >= 0) by (nonlinear_arith)
            requires
                1 <= ac <= 1000,
        ;
    }
    if sa != 0 {
        assert(1_000_000int / sa >= 1000 && 500_000int / sa >= 0) by (nonlinear_arith)
            requires
                1 <= sa <= 1000,
        ;
    }
    if cx - x > INVALIDATE_RADIUS || x - cx > INVALIDATE_RADIUS {
        let d = (cx - x) * sx;
        assert(d == cx - x || d == -(cx - x)) by (nonlinear_arith)
            requires
                sx == 1 || sx == -1,
                d == (cx - x) * sx,
        ;
        assert(!axis_reachable(x, sx, tmx, cx));
    } else {
        let d = (cy - y) * sy;
        assert(d == cy - y || d == -(cy - y)) by (nonlinear_arith)
            requires
                sy == 1 || sy == -1,
                d == (cy - y) * sy,
        ;
        assert(!axis_reachable(y, sy, tmy, cy));
    }
    lemma_march_local(t1, t2, w, h, x, y, sx, sy, tmx, tmy, tdx, tdy, MARCH_FUEL as nat, cx, cy);
}

} // verus!
