//! Core logic of a local-network file sender: what a receiver decides about
//! incoming offers and files, how senders talk to receivers, how received
//! files are named, and how nearby devices are tracked.

pub mod text;
pub mod ids;
pub mod storage;
pub mod models;
pub mod table;
pub mod settings;
pub mod state;
pub mod server;
pub mod transfer;
pub mod wire;
pub mod discovery;
pub mod tray;
