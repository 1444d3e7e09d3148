//! Verified core of the Sentinel board-telemetry collector: bounded sample
//! history, sysfs/procfs parsers, PMBus rail tables, checkpoint naming and
//! selection rules, the local API router and the operations-view state machine.

pub mod api;
pub mod cache;
pub mod cli;
pub mod clock;
pub mod keyed;
pub mod model;
pub mod paths;
pub mod power;
pub mod ring;
pub mod runs;
pub mod system;
pub mod text;
pub mod thermal;
pub mod tui;
pub mod version;
