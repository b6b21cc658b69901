pub mod cmd;
pub mod data;
pub mod storage;
pub mod util;
