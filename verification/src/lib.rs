//! Core engine of a factory automation system: a graph of storage pools and
//! processing stations that routes items to satisfy declared crafting recipes
//! while maintaining backup reserves, driven by a per-cycle scheduler and
//! rebuilt wholesale on configuration reload.
//!
//! The engine works on a local model of the remote inventories: plain slot
//! rows behind addressable accesses. The network layer, the configuration
//! file and the interactive surface belong to the host around it; the host
//! sizes and fills the local model from what the remotes report, runs
//! cycles, and performs the actions a cycle asks for (setting a redstone
//! level, starting a turtle program). A remote failure therefore never
//! reaches the engine: the host leaves the affected state alone for that
//! cycle, and a metadata query that failed is handed in as `None` and
//! retried on the next cycle.

pub mod access;
pub mod config;
pub mod detail_cache;
pub mod factory;
pub mod item;
pub mod process;
pub mod recipe;
pub mod storage;
pub mod ui;
pub mod util;
