pub mod ata;
pub mod nic;
