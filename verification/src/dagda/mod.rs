pub mod controller;
pub mod shard;
