pub mod ansi;
pub mod keyboard;
pub mod server;
