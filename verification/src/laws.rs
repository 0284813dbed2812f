//! What the parts of the library do, said of their inputs and results alone.

pub mod client;
pub mod durations;
pub mod exec;
pub mod keys;
pub mod permissions;
pub mod prompt;
pub mod server;
pub mod session;
pub mod strings;
pub mod terminal;
pub mod text;
pub mod views;
pub mod wire;
