//! Verified core of `bonk`: packs a container image into one self-contained
//! executable and runs it again from that executable.
pub mod cli;
pub mod config;
pub mod error;
pub mod flatten;
pub mod footer;
pub mod image;
pub mod mounts;
pub mod path;
pub mod runner;
pub mod runtime;
pub mod size;
pub mod text;
pub mod tools;
