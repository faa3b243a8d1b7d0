//! Terrain model: what a single grid cell holds.

use vstd::prelude::*;

verus! {

/// What occupies one grid cell.
#[derive(Clone, Copy, Debug, PartialEq, Eq, Structural)]
pub enum Terrain {
    Empty,
    Wall,
    Food(u32),
    Nest(u32),
    PlaceholderColony,
}

/// One cell of the map grid.
#[derive(Clone, Copy, Debug, PartialEq, Eq, Structural)]
pub struct Tile {
    pub terrain: Terrain,
}

impl Default for Tile {
    /// A fresh tile is empty ground.
    fn default() -> (r: Tile)
        ensures
            r.terrain == Terrain::Empty,
    {
        Tile { terrain: Terrain::Empty }
    }
}

/// Whether the ray tracer treats cell `(gx, gy)` of a `w x h` row-major
/// tile grid as blocking: walls block, and so does anything out of bounds.
pub open spec fn wall_at(tiles: Seq<Tile>, w: int, h: int, gx: int, gy: int) -> bool {
    if 0 <= gx < w && 0 <= gy < h {
        tiles[gy * w + gx].terrain is Wall
    } else {
        true
    }
}

/// Executable form of `wall_at`.
pub fn is_wall_cell(tiles: &Vec<Tile>, w: u32, h: u32, gx: i64, gy: i64) -> (r: bool)
    requires
        tiles.len() == w * h,
        w <= crate::MAX_MAP_DIM,
        h <= crate::MAX_MAP_DIM,
    ensures
        r == wall_at(tiles@, w as int, h as int, gx as int, gy as int),
{
    if 0 <= gx && gx < w as i64 && 0 <= gy && gy < h as i64 {
        proof {
            crate::pheromone::lemma_cell_index_in_range(w as int, h as int, gx as int, gy as int);
        }
        let idx: usize = (gy as usize) * (w as usize) + (gx as usize);
        match tiles[idx].terrain {
            Terrain::Wall => true,
            _ => false,
        }
    } else {
        true
    }
}

} // verus!
