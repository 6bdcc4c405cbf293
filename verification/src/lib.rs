#![verifier::loop_isolation(false)]

pub mod hash;
pub mod endian;
pub mod queue;
pub mod cache;
pub mod tracker;
pub mod laws;
pub mod utils;
pub mod config;
pub mod asset;
pub mod contract;
pub mod storage;
pub mod api;
