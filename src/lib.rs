//! Durable session metadata for a terminal multiplexer, and the state
//! machines of the interactive session navigator built on it.

pub mod commands;
pub mod entries;
pub mod key;
pub mod navigator;
pub mod navigator_laws;
pub mod order;
pub mod rows;
pub mod selector;
pub mod status;
pub mod store;
pub mod store_laws;
pub mod text;
pub mod tmux;
