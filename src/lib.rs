//! A partitioned in-memory key-value store and the command dispatch of its
//! line protocol. Keys are routed by hash to one of a fixed number of shards;
//! each request decodes to a command whose response frame is stated exactly.

pub mod command;
pub mod routing;
pub mod shard;
pub mod store;
pub mod token;

pub use command::{Command, Frame, Request};
pub use routing::{calculate_hash, route};
pub use shard::Shard;
pub use store::{execute, refuse, Store, StoreError};
pub use token::{MarketType, Outcome, Token};
