pub mod hash;
pub mod io;
pub mod text;
pub mod time;
