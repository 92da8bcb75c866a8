pub mod log_frame;
