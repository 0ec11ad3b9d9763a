//! Decision logic of a chain load bench: balance tracking, block-driven receipt
//! monitoring, the monitor actor's message handling, gas pricing and transaction requests.
pub mod balance_tracker;
pub mod bench_config;
pub mod block_monitor;
pub mod eth_amount;
pub mod gas;
pub mod messages;
pub mod monitor;
pub mod pending;
pub mod primitives;
pub mod txn_builder;
