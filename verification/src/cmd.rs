pub mod backup;
pub mod common;
pub mod restore;
