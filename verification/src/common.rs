pub mod tool;
