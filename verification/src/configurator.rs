pub mod args;
pub mod verification;
