pub mod subdeals;
pub mod mqtt_h;
