//! Protocol codecs and world model of a small Minecraft server.
pub mod codecs;
pub mod handlers;
pub mod net;
pub mod proto;
pub mod world;
