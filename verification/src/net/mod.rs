pub mod framing;
pub mod handles;
