//! A stack of items as inventory packets carry it.
use vstd::prelude::*;

use crate::codecs::base::{MCCodec, MCDecode, MCEncode};
use crate::proto::error::PacketError;
use crate::proto::packet_bytes::PacketBytes;
use crate::proto::varint::{
    lemma_varint_bytes_len, lemma_varint_decode_len, lemma_varint_roundtrip, varint_bytes,
    varint_decode, VarInt,
};
use crate::world::entity::player::Item;

verus! {

/// A count of items, and the item when the count is positive.
#[derive(Debug, Clone)]
pub struct ItemStack {
    pub count: VarInt,
    pub item: Option<Item>,
}

impl View for ItemStack {
    type V = (i32, Option<i32>);

    open spec fn view(&self) -> (i32, Option<i32>) {
        (self.count, self.item)
    }
}

impl ItemStack {
    /// A stack with nothing in it.
    pub fn empty() -> (r: Self)
        ensures
            r.count == 0,
            r.item is None,
    {
        Self { count: 0, item: None }
    }
}

/// What writing a stack does: the count; then, when it is positive, the item,
/// which must be there.
pub open spec fn item_stack_encode(v: (i32, Option<i32>)) -> (Result<(), PacketError>, Seq<u8>) {
    if v.0 > 0 {
        match v.1 {
            Some(item) => (Ok(()), varint_bytes(v.0) + varint_bytes(item)),
            None => (Err(PacketError::MissingItem), varint_bytes(v.0)),
        }
    } else {
        (Ok(()), varint_bytes(v.0))
    }
}

/// What reading a stack gives: a count; then, when it is positive, an item.
pub open spec fn item_stack_decode(s: Seq<u8>) -> (Result<(i32, Option<i32>), PacketError>, nat) {
    match varint_decode(s) {
        Err(e) => (Err(e), 0),
        Ok((count, k)) => if count > 0 {
            match varint_decode(s.skip(k as int)) {
                Ok((item, k2)) => (Ok((count, Some(item))), k + k2),
                Err(e) => (Err(e), k),
            }
        } else {
            (Ok((count, None)), k)
        },
    }
}

impl MCEncode for ItemStack {
    open spec fn spec_encode(v: (i32, Option<i32>)) -> (Result<(), PacketError>, Seq<u8>) {
        item_stack_encode(v)
    }

    fn encode(&self, dst: &mut PacketBytes) -> (r: Result<(), PacketError>) {
        proof {
            lemma_varint_bytes_len(self.count);
        }
        dst.put_var_int(self.count)?;
        if self.count > 0 {
            match self.item {
                Some(item) => {
                    dst.put_var_int(item)?;
                },
                None => {
                    return Err(PacketError::MissingItem);
                },
            }
        }
        Ok(())
    }
}

impl MCDecode for ItemStack {
    open spec fn spec_decode(s: Seq<u8>) -> (Result<(i32, Option<i32>), PacketError>, nat) {
        item_stack_decode(s)
    }

    proof fn lemma_decode_len(s: Seq<u8>) {
        lemma_varint_decode_len(s);
        if varint_decode(s) is Ok {
            lemma_varint_decode_len(s.skip(varint_decode(s).unwrap().1 as int));
        }
    }

    fn decode(src: &mut PacketBytes) -> (r: Result<Self, PacketError>) {
        let ghost s = src@;
        proof {
            lemma_varint_decode_len(s);
        }
        let count = src.get_var_int()?;
        let ghost k = varint_decode(s).unwrap().1;
        let item = if count > 0 {
            let ghost t = src@;
            proof {
                lemma_varint_decode_len(t);
            }
            let item = src.get_var_int()?;
            assert(s.skip(k as int).skip(varint_decode(t).unwrap().1 as int) =~= s.skip(
                (k + varint_decode(t).unwrap().1) as int,
            ));
            Some(item)
        } else {
            None
        };
        Ok(Self { count, item })
    }
}

impl MCCodec for ItemStack {
    /// A stack survives when it holds an item exactly when its count is positive.
    open spec fn spec_roundtrips(v: (i32, Option<i32>)) -> bool {
        v.0 > 0 <==> v.1 is Some
    }

    proof fn lemma_roundtrip(v: (i32, Option<i32>), rest: Seq<u8>) {
        if v.0 > 0 {
            let item = v.1.unwrap();
            lemma_varint_roundtrip(item, rest);
            lemma_varint_roundtrip(v.0, varint_bytes(item) + rest);
            let all = varint_bytes(v.0) + varint_bytes(item) + rest;
            assert(all =~= varint_bytes(v.0) + (varint_bytes(item) + rest));
            assert(all.skip(varint_bytes(v.0).len() as int) =~= varint_bytes(item) + rest);
        } else {
            lemma_varint_roundtrip(v.0, rest);
        }
    }
}

} // verus!
