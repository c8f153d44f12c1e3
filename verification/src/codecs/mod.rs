pub mod array;
pub mod base;
pub mod enums;
pub mod game_profile;
pub mod itemstack;
pub mod lpvec3;
pub mod position;
