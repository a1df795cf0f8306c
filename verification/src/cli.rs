//! The simulation's command line arguments, and their defaults.
use vstd::prelude::*;

verus! {

/// Arguments of a simulation run.
#[derive(Clone, Debug)]
pub struct Args {
    pub rpc_url: String,
    pub ws_url: String,
    /// TPU fanout.
    pub fanout_size: u64,
    pub identity: String,
    pub duration_in_seconds: u64,
    pub quotes_per_seconds: u64,
    pub simulation_configuration: String,
    pub transaction_save_file: String,
    pub block_data_save_file: String,
    pub keeper_authority: String,
    pub transaction_retry_in_ms: u64,
}

impl Args {
    /// The arguments of a run that names only its configuration file: a
    /// local validator's RPC and websocket ports, a fanout of 16, one quote
    /// per second for 60 seconds, retries every 10 ms, and no identity,
    /// keeper authority or output files.
    pub fn with_defaults(simulation_configuration: String) -> (r: Args)
        ensures
            r.rpc_url@ == "http://127.0.0.1:8899"@,
            r.ws_url@ == "ws://127.0.0.1:8900"@,
            r.fanout_size == 16,
            r.identity@ == Seq::<char>::empty(),
            r.duration_in_seconds == 60,
            r.quotes_per_seconds == 1,
            r.simulation_configuration == simulation_configuration,
            r.transaction_save_file@ == Seq::<char>::empty(),
            r.block_data_save_file@ == Seq::<char>::empty(),
            r.keeper_authority@ == Seq::<char>::empty(),
            r.transaction_retry_in_ms == 10,
    {
        Args {
            rpc_url: String::from_str("http://127.0.0.1:8899"),
            ws_url: String::from_str("ws://127.0.0.1:8900"),
            fanout_size: 16,
            identity: String::new(),
            duration_in_seconds: 60,
            quotes_per_seconds: 1,
            simulation_configuration,
            transaction_save_file: String::new(),
            block_data_save_file: String::new(),
            keeper_authority: String::new(),
            transaction_retry_in_ms: 10,
        }
    }
}

} // verus!
