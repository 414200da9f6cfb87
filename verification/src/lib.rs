pub mod bytes;
pub mod console;
pub mod drivers;
pub mod editor;
pub mod fs;
pub mod ipc;
pub mod nameservice;
pub mod net;
pub mod shell;
