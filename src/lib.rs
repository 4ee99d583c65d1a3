pub mod broadcast;
pub mod command;
pub mod connection;
pub mod error;
pub mod heartbeat;
pub mod keys;
pub mod layout;
pub mod models;
pub mod registry;
