//! Local gateway for web services reached through SSH tunnels.
pub mod text;
pub mod model;
pub mod table;
pub mod domain;
pub mod error;
pub mod validate;
pub mod proxy;
pub mod ids;
pub mod ssh_config;
pub mod seqs;
pub mod state;
pub mod credentials;
pub mod ssh;
pub mod terminal;
pub mod laws;
