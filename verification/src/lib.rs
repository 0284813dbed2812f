pub mod auth;
pub mod cli;
pub mod client;
pub mod config;
pub mod duration;
pub mod ipc;
pub mod keys;
pub mod laws;
pub mod seqs;
pub mod server;
pub mod session;
pub mod strings;
pub mod types;
