//! Tests for the editor and panel state, and configuration assembly.

use pherowar::config::{AppConfig, Cli, ConfigError, PlayerConfig, SimulationConfig};
use pherowar::editor::{
    is_colony_tool_draggable, is_food_tool_draggable, is_wall_tool_draggable, ColorPalette,
    SymmetryMode, PALETTE_SIZE,
};
use pherowar::ui_state::{
    AntStatusBar, ColonyOptions, DialogPurpose, PheromoneDisplayMode, ToolSizeSlider,
    VisualOptionsPanel,
};

#[test]
fn palette_selection_stays_in_range() {
    let mut palette = ColorPalette::new();
    assert_eq!(palette.get_selected_index(), 0);
    palette.set_selected_index(3);
    assert_eq!(palette.get_selected_index(), 3);
    // out-of-range requests keep the current selection
    palette.set_selected_index(PALETTE_SIZE);
    assert_eq!(palette.get_selected_index(), 3);
}

#[test]
fn symmetry_labels_and_mirrored_positions() {
    assert_eq!(SymmetryMode::NoSymmetry.label(), "None");
    assert_eq!(SymmetryMode::MirrorBoth.label(), "-|-");
    let strokes = SymmetryMode::MirrorBoth.symmetric_positions(2, 3, 10, 8);
    assert_eq!(strokes[0], (2, 3));
    assert!(strokes.contains(&(7, 3)));
    assert!(strokes.contains(&(2, 4)));
    assert!(strokes.contains(&(7, 4)));
    for &(x, y) in &strokes {
        assert!(x < 10 && y < 8);
    }
    let center = SymmetryMode::Center.symmetric_positions(0, 0, 6, 6);
    assert_eq!(center, vec![(0, 0), (5, 5)]);
    assert_eq!(SymmetryMode::NoSymmetry.symmetric_positions(1, 1, 4, 4).len(), 1);
}

#[test]
fn tool_drag_rules() {
    assert!(!is_colony_tool_draggable());
    assert!(is_food_tool_draggable());
    assert!(is_wall_tool_draggable());
}

#[test]
fn visual_options_panel_toggles() {
    let mut panel = VisualOptionsPanel::new();
    assert!(!panel.is_enabled());
    assert_eq!(panel.pheromone_mode, PheromoneDisplayMode::Hidden);
    assert!(panel.show_ants);
    assert!(panel.toggle());
    assert!(panel.is_enabled());
    assert!(!panel.toggle());
    assert!(!panel.is_enabled());
    // the stateless widgets construct without fuss
    let _ = AntStatusBar::new();
    let _ = ColonyOptions::new();
    let _ = ToolSizeSlider::new();
    assert_ne!(DialogPurpose::SaveMap, DialogPurpose::LoadMap);
}

#[test]
fn app_config_requires_a_map_for_named_players() {
    let sim = SimulationConfig { colony_initial_population: 10 };
    let players = vec![PlayerConfig { name: "one".to_string(), so_path: String::new() }];
    let cli = Cli {
        config: None,
        map: None,
        players: Some(vec!["one".to_string()]),
        evaluate: true,
    };
    let err = AppConfig::from_cli_and_config(cli, sim.clone(), players.clone(), None);
    assert!(matches!(err, Err(ConfigError::PlayersWithoutMap)));

    // a discovered map satisfies the requirement when the command line
    // names none
    let cli = Cli {
        config: None,
        map: None,
        players: Some(vec!["one".to_string()]),
        evaluate: false,
    };
    let cfg = AppConfig::from_cli_and_config(cli, sim.clone(), players.clone(), Some("arena".to_string()))
        .expect("discovered map suffices");
    assert_eq!(cfg.map_name.as_deref(), Some("arena"));

    // an explicit map wins over the discovered one
    let cli = Cli {
        config: None,
        map: Some("chosen".to_string()),
        players: None,
        evaluate: false,
    };
    let cfg = AppConfig::from_cli_and_config(cli, sim, players, Some("arena".to_string()))
        .expect("explicit map");
    assert_eq!(cfg.map_name.as_deref(), Some("chosen"));
}
