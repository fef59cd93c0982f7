//! Hourly aggregation of household energy readings from several sources.

pub mod common;
pub mod data_aggregator;
pub mod enphase;
pub mod hourly;
pub mod models;
pub mod pge;
pub mod time;
