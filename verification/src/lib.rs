pub mod cli;
pub mod chain_data;
pub mod crank_sink;
pub mod event_heap;
pub mod feed;
pub mod filter;
pub mod helpers;
pub mod instructions;
pub mod market_maker;
pub mod openbook_config;
pub mod states;
pub mod stats;
pub mod tpu;
