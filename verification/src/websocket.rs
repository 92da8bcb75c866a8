pub mod websocket_h;
