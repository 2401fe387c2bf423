//! Version resolution and activation for a manager of installed runtime builds.
//!
//! The library decides; the program around it reads and writes the disk and
//! the network and hands the results in as plain values.
pub mod cli;
pub mod config;
pub mod errors;
pub mod json;
pub mod strip;
pub mod version;
