pub mod mesh_h;
