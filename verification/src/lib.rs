//! Ticker-driven construction backend: workers that advance one step per
//! tick, shards that host a bounded number of workers, and the Dagda
//! controller that places tasks on shards and answers control requests.

pub mod api;
pub mod dagda;
pub mod ids;
pub mod keyed;
pub mod library;
pub mod model;
