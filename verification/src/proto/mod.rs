pub mod bytes_buf;
pub mod error;
pub mod varint;
pub mod packet_bytes;
pub mod game_profile;
pub mod packets;
pub mod utils;
