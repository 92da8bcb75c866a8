pub mod online;
pub mod nbr;
pub mod version;
pub mod net_test;
pub mod init;
