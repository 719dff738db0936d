//! Layout engine for railway timetable diagrams.
//!
//! A network of stations, intervals and trains is indexed, laid out on a
//! distance axis and a time axis, and every train's schedule is turned into
//! polylines clipped to the visible time window. All geometry is computed in
//! integer drawing units.

pub mod types;
pub mod utils;
pub mod collections;
pub mod models;
