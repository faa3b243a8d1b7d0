//! Pure state behind the host's panels: what is shown, which pheromone
//! view is chosen. The drawing itself lives outside the library.

use vstd::prelude::*;

verus! {

/// Which pheromone view the host renders.
#[derive(Clone, Copy, Debug, PartialEq, Eq, Structural)]
pub enum PheromoneDisplayMode {
    Hidden,
    Colony { colony_id: u32 },
    Channel { colony_id: u32, channel: u8 },
}

/// State of the visual-options panel.
pub struct VisualOptionsPanel {
    pub show_visual_options: bool,
    pub pheromone_mode: PheromoneDisplayMode,
    pub selected_colony_id: Option<u32>,
    pub selected_channel: u8,
    pub show_ants: bool,
}

impl VisualOptionsPanel {
    /// Starts hidden, showing ants and no pheromones.
    pub fn new() -> (r: VisualOptionsPanel)
        ensures
            !r.show_visual_options,
            r.pheromone_mode == PheromoneDisplayMode::Hidden,
            r.selected_colony_id is None,
            r.selected_channel == 1,
            r.show_ants,
    {
        VisualOptionsPanel {
            show_visual_options: false,
            pheromone_mode: PheromoneDisplayMode::Hidden,
            selected_colony_id: None,
            selected_channel: 1,
            show_ants: true,
        }
    }

    /// Whether the panel is open.
    pub fn is_enabled(&self) -> (r: bool)
        ensures
            r == self.show_visual_options,
    {
        self.show_visual_options
    }

    /// Flips the panel's visibility, reporting the new state.
    pub fn toggle(&mut self) -> (r: bool)
        ensures
            final(self).show_visual_options == !old(self).show_visual_options,
            r == final(self).show_visual_options,
            final(self).pheromone_mode == old(self).pheromone_mode,
            final(self).selected_colony_id == old(self).selected_colony_id,
            final(self).selected_channel == old(self).selected_channel,
            final(self).show_ants == old(self).show_ants,
    {
        self.show_visual_options = !self.show_visual_options;
        self.show_visual_options
    }
}

/// The status bar summarizing the selected ant.
pub struct AntStatusBar {}

impl AntStatusBar {
    /// Creates the (stateless) status bar.
    pub fn new() -> (r: AntStatusBar) {
        AntStatusBar {}
    }
}

/// The colony-placement options widget.
pub struct ColonyOptions {}

impl ColonyOptions {
    /// Creates the (stateless) options widget.
    pub fn new() -> (r: ColonyOptions) {
        ColonyOptions {}
    }
}

/// The tool-size slider widget.
pub struct ToolSizeSlider;

impl ToolSizeSlider {
    /// Creates the (stateless) slider.
    pub fn new() -> (r: ToolSizeSlider) {
        ToolSizeSlider
    }
}

/// What a confirmed dialog means to the host.
#[derive(Clone, Copy, Debug, PartialEq, Eq, Structural)]
pub enum DialogPurpose {
    Info,
    Confirmation,
    NewMap,
    LoadMap,
    SaveMap,
}

} // verus!
