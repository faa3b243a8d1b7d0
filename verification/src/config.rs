//! Configuration carried by the simulation: per-player brain entries, the
//! simulation settings, and the assembled application configuration.

use vstd::prelude::*;

verus! {

/// One selectable player brain: its display name and the path of the
/// shared object the host mounts into the brain's sandbox.
#[derive(Clone)]
pub struct PlayerConfig {
    pub name: String,
    pub so_path: String,
}

/// Simulation-wide settings.
#[derive(Clone)]
pub struct SimulationConfig {
    pub colony_initial_population: u32,
}

/// Command-line arguments, already parsed into plain values.
pub struct Cli {
    pub config: Option<String>,
    pub map: Option<String>,
    pub players: Option<Vec<String>>,
    pub evaluate: bool,
}

/// Why an application configuration could not be assembled.
#[derive(Clone, Copy, Debug, PartialEq, Eq, Structural)]
pub enum ConfigError {
    /// Players were named on the command line but no map is available.
    PlayersWithoutMap,
}

/// Everything the application needs to start.
pub struct AppConfig {
    pub simulation: SimulationConfig,
    pub cli_players: Option<Vec<String>>,
    pub player_configs: Vec<PlayerConfig>,
    pub map_name: Option<String>,
}

impl AppConfig {
    /// Assembles the application configuration from the parsed command
    /// line, the loaded settings, the discovered player entries and the
    /// map discovered on disk (used when the command line names none).
    /// Naming players without any map to play them on is refused.
    pub fn from_cli_and_config(cli: Cli, simulation: SimulationConfig,
        player_configs: Vec<PlayerConfig>, discovered_map: Option<String>)
        -> (r: Result<AppConfig, ConfigError>)
        ensures
            ({
                let map_name = if cli.map is Some { cli.map } else { discovered_map };
                match r {
                    Ok(cfg) => {
                        &&& !(cli.players is Some && map_name is None)
                        &&& cfg.map_name == map_name
                        &&& cfg.cli_players == cli.players
                    },
                    Err(e) => {
                        &&& e == ConfigError::PlayersWithoutMap
                        &&& cli.players is Some && map_name is None
                    },
                }
            }),
    {
        let map_name = match cli.map {
            Some(m) => Some(m),
            None => discovered_map,
        };
        let players_given = match &cli.players {
            Some(_) => true,
            None => false,
        };
        let map_missing = match &map_name {
            Some(_) => false,
            None => true,
        };
        if players_given && map_missing {
            return Err(ConfigError::PlayersWithoutMap);
        }
        Ok(AppConfig {
            simulation,
            cli_players: cli.players,
            player_configs,
            map_name,
        })
    }
}

} // verus!
