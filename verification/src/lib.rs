pub mod frame_lib;
pub mod frame_deal;
pub mod mqtts;
pub mod text;
pub mod str_map;
pub mod sl_mesh;
pub mod react_mqtt;
pub mod common;
pub mod log;
pub mod websocket;
