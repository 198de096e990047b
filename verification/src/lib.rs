//! Decision logic of a parking-availability scraper: the maintenance-window
//! policy, the cache of last positive readings, the mapping of readings to
//! time-series points, and the per-tick decisions of the polling cycle.

pub mod cache;
pub mod cycle;
pub mod decimal;
pub mod model;
pub mod point;
pub mod window;
