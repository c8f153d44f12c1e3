//! The player identity that the login success packet carries.
use vstd::prelude::*;

use crate::codecs::game_profile::{
    game_profile_decode, game_profile_encode, read_game_profile, write_game_profile,
};
use crate::proto::bytes_buf::max_buffer_len;
use crate::proto::error::{same_outcome, PacketError};
use crate::proto::packet_bytes::PacketBytes;

verus! {

#[derive(Debug, Clone)]
pub struct GameProfile {
    pub uuid: u128,
    pub username: String,
}

impl GameProfile {
    /// Writes the UUID; then, unless the username is longer than sixteen
    /// bytes, the username and an empty list of properties.
    pub fn encode(&self, dst: &mut PacketBytes) -> (r: Result<(), PacketError>)
        requires
            old(dst)@.len() + game_profile_encode((self.uuid, self.username@)).1.len()
                <= max_buffer_len(),
        ensures
            same_outcome(r, game_profile_encode((self.uuid, self.username@)).0),
            final(dst)@ == old(dst)@ + game_profile_encode((self.uuid, self.username@)).1,
    {
        write_game_profile(dst, self.uuid, &self.username)
    }

    /// Reads the UUID and the username; the properties are left unread.
    pub fn decode(src: &mut PacketBytes) -> (r: Result<Self, PacketError>)
        ensures
            match r {
                Ok(v) => game_profile_decode(old(src)@).0 == Ok::<(u128, Seq<char>), PacketError>(
                    (v.uuid, v.username@),
                ),
                Err(e) => game_profile_decode(old(src)@).0 == Err::<(u128, Seq<char>), PacketError>(
                    e,
                ),
            },
            final(src)@ == old(src)@.skip(game_profile_decode(old(src)@).1 as int),
    {
        let (uuid, username) = read_game_profile(src)?;
        Ok(Self { uuid, username })
    }
}

} // verus!
