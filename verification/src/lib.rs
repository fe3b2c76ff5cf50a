//! Verified core of the BFT microbenchmark suite: the fault-tolerance
//! arithmetic, the deployment planner, the configuration-file parser, the
//! benchmark wire format and the replicated key-value services.

pub mod bytes;
pub mod cluster;
pub mod config_entry;
pub mod digests;
pub mod logs;
pub mod mempool;
pub mod ordered_map;
pub mod pacing;
pub mod placeholders;
pub mod preemptive;
pub mod settings;
pub mod strings;
pub mod table;
pub mod test_config;
pub mod tolerance;
pub mod transport;
pub mod wire;
pub mod ycsb;
