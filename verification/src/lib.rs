//! Elden Ring Save Guard core: versioned save snapshots, their integrity
//! checks and retention, save discovery, path guards, configuration and the
//! decisions of the Steam-launched monitor.

pub mod clock;
pub mod config;
pub mod dashboard;
pub mod digest;
pub mod launch;
pub mod monitor;
pub mod discovery;
pub mod paths;
pub mod platform;
pub mod retention;
pub mod snapshot;
pub mod sorting;
pub mod text;

use vstd::prelude::*;

verus! {

/// Name under which the application keeps its settings and logs.
pub const APP_NAME: &'static str = "EldenRingSaveGuard";

/// This release of the program, recorded in every snapshot's metadata.
pub const APP_VERSION: &'static str = "1.0.7";

/// Name of the running Elden Ring process the monitor waits on.
pub const GAME_PROCESS: &'static str = "eldenring.exe";

} // verus!
