//! The command-line front end's decisions: HTTP request handling, watch
//! cadence, sensor table filtering and formatting, and the header line.
pub mod serve;
pub mod watch;
pub mod sensors;
pub mod header;
pub mod viewer;
