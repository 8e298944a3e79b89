//! The configuration the relay core receives, fully populated, from the
//! process edge: per-network scanner settings and the global signer, fee
//! and settlement parameters. The business fee is an integer percentage;
//! no floating point enters the money path.

use vstd::prelude::*;

verus! {

/// Connection parameters of the durable store.
pub struct Database {
    pub host: String,
    pub port: u32,
    pub database: String,
    pub username: String,
    pub password: String,
}

/// One monitored source network.
pub struct Network {
    pub name: String,
    pub network: String,
    pub monitor_address: String,
    pub ws_node: String,
    pub ws_glitch_node: String,
    pub confirmations: i32,
}

/// The confirmation depth the scanner applies: a negative configured value
/// counts as no margin.
pub open spec fn confirmation_depth_of(c: i32) -> u64 {
    if c < 0 {
        0
    } else {
        c as u64
    }
}

impl Network {
    /// The confirmation depth the scanner applies for this network.
    pub fn confirmation_depth(&self) -> (r: u64)
        ensures
            r == confirmation_depth_of(self.confirmations),
    {
        if self.confirmations < 0 {
            0
        } else {
            self.confirmations as u64
        }
    }
}

/// Global relay configuration.
pub struct Config {
    pub glitch_private_key: Option<String>,
    pub glitch_fee_address: String,
    pub interval_days_for_transfer: u32,
    pub business_fee_percentage: u64,
    pub glitch_gas: bool,
    pub db: Database,
    pub networks: Vec<Network>,
}

impl Config {
    /// A configuration the engine can run with: the signer key is present
    /// and the business fee is a true percentage.
    pub open spec fn wf(&self) -> bool {
        &&& self.glitch_private_key is Some
        &&& self.business_fee_percentage <= 100
    }

    /// Checks `wf` at run time, for the process edge to gate on.
    pub fn check(&self) -> (r: bool)
        ensures
            r == self.wf(),
    {
        self.glitch_private_key.is_some() && self.business_fee_percentage <= 100
    }

    /// The settlement interval in seconds.
    pub fn settlement_interval_secs(&self) -> (r: i64)
        ensures
            r == self.interval_days_for_transfer as int * 86400,
    {
        (self.interval_days_for_transfer as i64) * 86400
    }
}

} // verus!
