//! Runtime configuration values.
//!
//! The surrounding process reads these from its configuration file and
//! hands them over as plain values; the library only defines the shape and
//! the defaults.

use vstd::prelude::*;

verus! {

use vstd::string::StringExecFns;

/// Where the game's files live.
pub struct GamePaths {
    pub save_location: String,
    pub game_files_dir: String,
    pub localisation_path: String,
}

impl Default for GamePaths {
    /// All paths empty until configured.
    fn default() -> (r: GamePaths)
        ensures
            r.save_location@ == Seq::<char>::empty(),
            r.game_files_dir@ == Seq::<char>::empty(),
            r.localisation_path@ == Seq::<char>::empty(),
    {
        GamePaths {
            save_location: String::new(),
            game_files_dir: String::new(),
            localisation_path: String::new(),
        }
    }
}

/// Where the exporter's endpoint listens.
pub struct ApiConfig {
    pub ip: String,
    pub port: u16,
}

impl Default for ApiConfig {
    /// Listens on every interface, on the exporter's customary port.
    fn default() -> (r: ApiConfig)
        ensures
            r.ip@ == "0.0.0.0"@,
            r.port == 8881,
    {
        ApiConfig { ip: String::from_str("0.0.0.0"), port: 8881 }
    }
}

/// The whole configuration: paths and endpoint.
pub struct Config {
    pub paths: GamePaths,
    pub api: ApiConfig,
}

impl Default for Config {
    /// The defaults of both sections.
    fn default() -> (r: Config)
        ensures
            r.paths.save_location@ == Seq::<char>::empty(),
            r.paths.game_files_dir@ == Seq::<char>::empty(),
            r.paths.localisation_path@ == Seq::<char>::empty(),
            r.api.ip@ == "0.0.0.0"@,
            r.api.port == 8881,
    {
        Config { paths: GamePaths::default(), api: ApiConfig::default() }
    }
}

} // verus!
