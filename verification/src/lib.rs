//! Core of a custodial bridge relay: scanning a source ledger for deposit
//! events, bookkeeping for each deposit's lifecycle, fee computation for the
//! outbound transfers on the destination ledger, and periodic settlement of
//! the accumulated business fee to a treasury account.
//!
//! All decision logic lives here, verified; network transports, the durable
//! store and the process supervisor drive these functions from outside.

pub mod config;
pub mod engine;
pub mod fees;
pub mod model;
pub mod numeric;
pub mod scanner;
pub mod settle;
pub mod store;
