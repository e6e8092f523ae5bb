//! Flight analytics for IGC tracklogs: record parsing, airborne time,
//! takeoff detection and per-fix flight states.

pub mod datetime;
pub mod error;
pub mod flight;
pub mod flightlog;
pub mod igc;
pub mod text;
pub mod ui;
