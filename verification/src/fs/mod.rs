pub mod device;
pub mod fat32;
pub mod server;
