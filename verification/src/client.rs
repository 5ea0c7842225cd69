pub mod laws;
pub mod listener;
pub mod state;
pub mod updater;
