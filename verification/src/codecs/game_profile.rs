//! A player's identity as the login packets carry it.
use vstd::prelude::*;
use vstd::utf8::encode_utf8;

use crate::codecs::base::{MCDecode, MCEncode};
use crate::proto::error::PacketError;
use crate::proto::packet_bytes::{
    string_bytes, string_decode, uuid_bytes, uuid_decode, PacketBytes,
};
use crate::proto::varint::varint_bytes;

verus! {

/// The longest username, in UTF-8 bytes.
pub const USERNAME_MAX: usize = 16;

#[derive(Debug, Clone)]
pub struct GameProfile {
    pub uuid: u128,
    pub username: String,
}

impl View for GameProfile {
    type V = (u128, Seq<char>);

    open spec fn view(&self) -> (u128, Seq<char>) {
        (self.uuid, self.username@)
    }
}

/// What writing a profile does: its UUID; then, unless the username is too
/// long, the username and an empty list of properties.
pub open spec fn game_profile_encode(v: (u128, Seq<char>)) -> (Result<(), PacketError>, Seq<u8>) {
    if encode_utf8(v.1).len() > USERNAME_MAX {
        (Err(PacketError::UsernameTooLong), uuid_bytes(v.0))
    } else {
        (Ok(()), uuid_bytes(v.0) + string_bytes(v.1) + varint_bytes(0))
    }
}

/// What reading a profile gives: a UUID, then a username. The list of
/// properties after them is left unread.
pub open spec fn game_profile_decode(s: Seq<u8>) -> (Result<(u128, Seq<char>), PacketError>, nat) {
    match uuid_decode(s).0 {
        Err(e) => (Err(e), uuid_decode(s).1),
        Ok(u) => match string_decode(s.skip(16)) {
            (Ok(name), c) => (Ok((u, name)), 16 + c),
            (Err(e), c) => (Err(e), 16 + c),
        },
    }
}

/// Writes a profile; shared by both profile types.
pub(crate) fn write_game_profile(dst: &mut PacketBytes, uuid: u128, username: &String) -> (r: Result<
    (),
    PacketError,
>)
    requires
        old(dst)@.len() + game_profile_encode((uuid, username@)).1.len()
            <= crate::proto::bytes_buf::max_buffer_len(),
    ensures
        crate::proto::error::same_outcome(r, game_profile_encode((uuid, username@)).0),
        final(dst)@ == old(dst)@ + game_profile_encode((uuid, username@)).1,
{
    proof {
        crate::proto::bytes_buf::lemma_be_bytes_len(uuid as int, 16);
    }
    dst.put_uuid(uuid)?;
    if username.as_str().as_bytes().len() > USERNAME_MAX {
        return Err(PacketError::UsernameTooLong);
    }
    proof {
        crate::proto::varint::lemma_varint_bytes_len(0);
        assert(game_profile_encode((uuid, username@)).1.len() == uuid_bytes(uuid).len()
            + string_bytes(username@).len() + varint_bytes(0).len());
    }
    dst.put_str(username.as_str())?;
    dst.put_var_int(0)?;
    assert(dst@ =~= old(dst)@ + game_profile_encode((uuid, username@)).1);
    Ok(())
}

/// Reads a profile; shared by both profile types.
pub(crate) fn read_game_profile(src: &mut PacketBytes) -> (r: Result<(u128, String), PacketError>)
    ensures
        match r {
            Ok(v) => game_profile_decode(old(src)@).0 == Ok::<(u128, Seq<char>), PacketError>(
                (v.0, v.1@),
            ),
            Err(e) => game_profile_decode(old(src)@).0 == Err::<(u128, Seq<char>), PacketError>(e),
        },
        final(src)@ == old(src)@.skip(game_profile_decode(old(src)@).1 as int),
{
    let ghost s = src@;
    let uuid = src.get_uuid()?;
    assert(src@ == s.skip(16));
    let username = match src.get_string() {
        Ok(v) => v,
        Err(e) => {
            assert(s.skip(16).skip(string_decode(s.skip(16)).1 as int) =~= s.skip(
                (16 + string_decode(s.skip(16)).1) as int,
            )) by {
                crate::codecs::base::lemma_string_decode_len(s.skip(16));
            }
            return Err(e);
        },
    };
    assert(s.skip(16).skip(string_decode(s.skip(16)).1 as int) =~= s.skip(
        (16 + string_decode(s.skip(16)).1) as int,
    )) by {
        crate::codecs::base::lemma_string_decode_len(s.skip(16));
    }
    Ok((uuid, username))
}

impl GameProfile {
    pub fn new(uuid: u128, username: String) -> (r: Self)
        ensures
            r.uuid == uuid,
            r.username == username,
    {
        Self { uuid, username }
    }
}

impl MCEncode for GameProfile {
    open spec fn spec_encode(v: (u128, Seq<char>)) -> (Result<(), PacketError>, Seq<u8>) {
        game_profile_encode(v)
    }

    fn encode(&self, dst: &mut PacketBytes) -> (r: Result<(), PacketError>) {
        write_game_profile(dst, self.uuid, &self.username)
    }
}

impl MCDecode for GameProfile {
    open spec fn spec_decode(s: Seq<u8>) -> (Result<(u128, Seq<char>), PacketError>, nat) {
        game_profile_decode(s)
    }

    proof fn lemma_decode_len(s: Seq<u8>) {
        if s.len() >= 16 {
            crate::codecs::base::lemma_string_decode_len(s.skip(16));
        }
    }

    fn decode(src: &mut PacketBytes) -> (r: Result<Self, PacketError>) {
        let (uuid, username) = read_game_profile(src)?;
        Ok(Self { uuid, username })
    }
}

/// Writing a profile whose username fits and reading the bytes back gives the
/// profile. The reader leaves the properties list, one byte, unread.
pub proof fn lemma_game_profile_roundtrip(v: (u128, Seq<char>), rest: Seq<u8>)
    requires
        encode_utf8(v.1).len() <= USERNAME_MAX,
    ensures
        game_profile_encode(v).0 is Ok,
        game_profile_decode(game_profile_encode(v).1 + rest) == (Ok::<
            (u128, Seq<char>),
            PacketError,
        >(v), (game_profile_encode(v).1.len() - 1) as nat),
{
    let ub = uuid_bytes(v.0);
    let sb = string_bytes(v.1);
    let all = ub + sb + varint_bytes(0) + rest;
    crate::proto::bytes_buf::lemma_be_bytes_len(v.0 as int, 16);
    reveal_with_fuel(vstd::arithmetic::power::pow, 17);
    assert(vstd::arithmetic::power::pow(256, 16) == 0x1_0000_0000_0000_0000_0000_0000_0000_0000);
    crate::proto::bytes_buf::lemma_be_roundtrip(v.0 as int, 16);
    assert(all.take(16) =~= ub);
    assert(all.skip(16) =~= sb + (varint_bytes(0) + rest));
    crate::codecs::base::lemma_string_roundtrip(v.1, varint_bytes(0) + rest);
    crate::proto::varint::lemma_varint_bytes_len(0);
    assert(game_profile_encode(v).1 + rest == all);
}

} // verus!
