//! Verified core of a command-line client for QNAP NAS devices.
pub mod text;
pub mod xml;
pub mod network;
pub mod config;
pub mod session;
pub mod info;
pub mod volumes;
pub mod cli;
pub mod files;
pub mod status;
pub mod shares;
pub mod dump;
pub mod schema;
