//! Subscription-driven market-data fan-out: the rules of the gateway, stated
//! and proved, with the sockets and the database left to the program around it.

pub mod alerts;
pub mod cache;
pub mod clock;
pub mod config;
pub mod decimal;
pub mod dispatch;
pub mod history;
pub mod interval;
pub mod keys;
pub mod lists;
pub mod narrative;
pub mod pool;
pub mod registry;
pub mod shared;
pub mod snapshot;
pub mod text;
pub mod tunnel;
pub mod types;
pub mod worker;
