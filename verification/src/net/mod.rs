pub mod checksum;
pub mod conn;
pub mod proto;
pub mod tcp;
