//! Verified core of the mj-server research and paper-trading service.
pub mod ai;
pub mod config;
pub mod export;
pub mod market;
pub mod paper;
pub mod perf;
pub mod research;
pub mod signals;
pub mod text;
pub mod universe;
pub mod ws;
