//! Verified core of a seismic-event map bot.
//!
//! The library holds the logic worth proving: the geographic-to-pixel
//! coordinate transform, the station-intensity classifier and its color
//! table, the map compositor (bordered squares and alpha-blended icon),
//! the freshness gate over timestamp strings, and the poll/backoff state
//! machine.  Network fetch, disk persistence and the notification sink
//! are reached only through narrow trusted wrappers or left to the
//! surrounding binary.

pub mod config;
pub mod coords;
pub mod cwb_api;
pub mod db;
pub mod intensity;
pub mod poll;
pub mod raster;
pub mod taiwan_map;
pub mod time;
