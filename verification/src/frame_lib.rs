pub mod mesh;
pub mod crc_vectors;
