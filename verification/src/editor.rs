//! Editor state that carries actual rules: the colony color palette
//! selection, map symmetry modes, and which tools paint while dragging.

use vstd::prelude::*;

verus! {

/// Number of predefined colony colors to choose from.
pub const PALETTE_SIZE: usize = 5;

/// Selection state over the predefined colony colors.
pub struct ColorPalette {
    pub selected_index: usize,
}

impl ColorPalette {
    /// Starts with the first color selected.
    pub fn new() -> (r: ColorPalette)
        ensures
            r.selected_index == 0,
    {
        ColorPalette { selected_index: 0 }
    }

    /// The index of the currently selected color.
    pub fn get_selected_index(&self) -> (r: usize)
        ensures
            r == self.selected_index,
    {
        self.selected_index
    }

    /// Selects a color by index; out-of-range indices are ignored.
    pub fn set_selected_index(&mut self, index: usize)
        ensures
            final(self).selected_index == if index < PALETTE_SIZE {
                index as int
            } else {
                old(self).selected_index as int
            },
    {
        if index < PALETTE_SIZE {
            self.selected_index = index;
        }
    }
}

/// How editor strokes are mirrored across the map.
#[derive(Clone, Copy, Debug, PartialEq, Eq, Structural)]
pub enum SymmetryMode {
    NoSymmetry,
    MirrorVertical,
    MirrorHorizontal,
    MirrorBoth,
    Center,
}

impl SymmetryMode {
    /// The short label shown for this mode.
    pub fn label(&self) -> (r: &'static str)
        ensures
            r@ == match self {
                SymmetryMode::NoSymmetry => "None"@,
                SymmetryMode::MirrorVertical => "--"@,
                SymmetryMode::MirrorHorizontal => "|"@,
                SymmetryMode::MirrorBoth => "-|-"@,
                SymmetryMode::Center => "."@,
            },
    {
        match self {
            SymmetryMode::NoSymmetry => "None",
            SymmetryMode::MirrorVertical => "--",
            SymmetryMode::MirrorHorizontal => "|",
            SymmetryMode::MirrorBoth => "-|-",
            SymmetryMode::Center => ".",
        }
    }

    /// The stroke positions a symmetry mode paints for one position, as
    /// cell coordinates on a `map_w x map_h` grid (the original first;
    /// duplicates are kept, harmlessly painting a cell twice).
    pub fn symmetric_positions(&self, x: u32, y: u32, map_w: u32, map_h: u32) -> (r: Vec<(u32, u32)>)
        requires
            x < map_w,
            y < map_h,
        ensures
            r.len() >= 1,
            r[0] == (x, y),
            forall|i: int| 0 <= i < r.len()
                ==> (#[trigger] r[i]).0 < map_w && r[i].1 < map_h,
    {
        let mx = map_w - 1 - x;
        let my = map_h - 1 - y;
        let mut positions: Vec<(u32, u32)> = Vec::new();
        positions.push((x, y));
        match self {
            SymmetryMode::NoSymmetry => {},
            SymmetryMode::MirrorVertical => {
                positions.push((x, my));
            },
            SymmetryMode::MirrorHorizontal => {
                positions.push((mx, y));
            },
            SymmetryMode::MirrorBoth => {
                positions.push((mx, y));
                positions.push((x, my));
                positions.push((mx, my));
            },
            SymmetryMode::Center => {
                positions.push((mx, my));
            },
        }
        positions
    }
}

/// Whether holding the mouse keeps placing colonies (it does not: each
/// colony placement is deliberate).
pub fn is_colony_tool_draggable() -> (r: bool)
    ensures
        !r,
{
    false
}

/// Whether holding the mouse keeps painting food (it does).
pub fn is_food_tool_draggable() -> (r: bool)
    ensures
        r,
{
    true
}

/// Whether holding the mouse keeps painting walls (it does).
pub fn is_wall_tool_draggable() -> (r: bool)
    ensures
        r,
{
    true
}

} // verus!
