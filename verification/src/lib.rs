//! Verified core logic of a Linux hardware monitor: sysfs/helper text
//! parsers, identity rules, alert policy and report formatting.
pub mod collect;
pub mod text;
pub mod alerts;
pub mod model;
pub mod settings;
pub mod logging;
pub mod visibility;
pub mod terminal;
pub mod plasma;
pub mod natural;
pub mod cli;
pub mod monitor;
pub mod presentation;
pub mod rows;
pub mod hardware;
pub mod overlay;
pub mod builder;
