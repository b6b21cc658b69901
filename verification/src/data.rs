pub mod backup;
pub mod config;
