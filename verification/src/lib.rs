//! Relay partition checking: the data model and the decisions behind probing
//! two-hop Tor circuits and reading OnionPerf circuit measurements.

pub mod text;
pub mod calendar;
pub mod clock;
pub mod log_data;
pub mod partition;
pub mod onion_perf;
