//! Files kept in step between machines on a virtual network.

pub mod addresses;
pub mod base32;
pub mod cli;
pub mod clock;
pub mod codec;
pub mod config;
pub mod daemon;
pub mod digest;
pub mod easytier;
pub mod frame;
pub mod identity;
pub mod ipv4;
pub mod meeting;
pub mod network;
pub mod numbers;
pub mod pairing;
pub mod protocol;
pub mod report;
pub mod scan;
pub mod service;
pub mod state;
pub mod sync;
pub mod table;
pub mod text;
pub mod watcher;
pub mod wire;
