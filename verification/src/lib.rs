pub mod args;
pub mod client;
pub mod client_state;
pub mod config;
pub mod configurator;
pub mod diagnosis_server_state;
pub mod diagnosisserver;
pub mod error;
pub mod primitives;
pub mod rpcs;
pub mod runner;
pub mod tek_set;
pub mod time;
