//! Market rules of a token-based CPU scheduler.
//!
//! Processes hold tokens drawn from a fixed supply and bid them for CPU time.
//! The highest bidder wins each auction, what it pays returns to a reserve, and
//! no operation creates or destroys a token.
pub mod agent;
pub mod bank;
pub mod breaker;
pub mod central_bank;
pub mod class;
pub mod cycle;
pub mod dispatch;
pub mod ledger;
pub mod order_book;
pub mod proc_stat;
pub mod scheduler;
pub mod task;
pub mod telemetry;
pub mod text;
pub mod transfers;
pub mod window;
pub mod wire;
