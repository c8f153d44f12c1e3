pub mod entity;
pub mod chunk;
pub mod level;
pub mod palette;
pub mod chunk_gen;
