pub mod topo;
pub mod white_list;
pub mod version;
pub mod node_leave;
pub mod pan_id;
pub mod init;
