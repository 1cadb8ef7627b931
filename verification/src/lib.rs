//! Event monitoring logic: log event rendering, connection tracking,
//! Ethernet/IPv4 packet inspection and the decisions of the network watcher.

pub mod text;
pub mod types;
pub mod config;
pub mod render;
pub mod table;
pub mod connections;
pub mod packets;
pub mod monitor;
pub mod process;
pub mod filewatch;
