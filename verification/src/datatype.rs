//! Protocol data types that ride inside packets: UUIDs, handshake
//! intents, text components and game profiles.

use vstd::prelude::*;

use vstd::utf8::encode_utf8;

use crate::error::Error;
use crate::varint::{varint_bytes, varint_dec32, VarInt};
use crate::wire::{
    be_bytes, be_val, bool_bytes, lemma_pow256_bounds, read_be, spec_read_string, string_bytes,
    write_be, write_bool, write_string,
};

verus! {

/// A 128-bit UUID, kept as its two big-endian halves. On the wire it is
/// exactly 16 raw bytes, most significant first.
#[derive(Debug, Clone, Copy, PartialEq, Eq, Structural)]
pub struct Uuid {
    pub msb: u64,
    pub lsb: u64,
}

/// The 16 wire bytes of a UUID.
pub open spec fn uuid_bytes(u: Uuid) -> Seq<u8> {
    be_bytes(u.msb as nat, 8) + be_bytes(u.lsb as nat, 8)
}

/// What reading a UUID at `pos` yields.
pub open spec fn spec_read_uuid(s: Seq<u8>, pos: int) -> Result<(Uuid, int), Error> {
    if pos + 16 <= s.len() {
        Ok(
            (
                Uuid {
                    msb: be_val(s.subrange(pos, pos + 8)) as u64,
                    lsb: be_val(s.subrange(pos + 8, pos + 16)) as u64,
                },
                pos + 16,
            ),
        )
    } else {
        Err(Error::UnexpectedEof)
    }
}

impl Uuid {
    /// Appends the 16 wire bytes of `self`.
    pub fn serialize(&self, out: &mut Vec<u8>)
        ensures
            final(out)@ == old(out)@ + uuid_bytes(*self),
    {
        proof {
            lemma_pow256_bounds();
        }
        write_be(out, self.msb, 8);
        write_be(out, self.lsb, 8);
        proof {
            assert(out@ =~= old(out)@ + uuid_bytes(*self));
        }
    }

    /// Reads 16 raw bytes at `pos` as a UUID.
    pub fn deserialize(data: &[u8], pos: usize) -> (r: Result<(Uuid, usize), Error>)
        requires
            pos <= data@.len(),
        ensures
            match r {
                Ok(p) => spec_read_uuid(data@, pos as int) == Ok::<(Uuid, int), Error>(
                    (p.0, p.1 as int),
                ) && p.1 == pos + 16 && pos + 16 <= data@.len(),
                Err(e) => spec_read_uuid(data@, pos as int) == Err::<(Uuid, int), Error>(e),
            },
    {
        proof {
            lemma_pow256_bounds();
        }
        let (msb, mid) = match read_be(data, pos, 8) {
            Ok(p) => p,
            Err(e) => {
                return Err(e);
            },
        };
        let (lsb, end) = match read_be(data, mid, 8) {
            Ok(p) => p,
            Err(e) => {
                return Err(e);
            },
        };
        proof {
            crate::wire::lemma_be_val_bound(data@.subrange(pos as int, pos + 8));
            crate::wire::lemma_be_val_bound(data@.subrange(pos + 8, pos + 16));
        }
        Ok((Uuid { msb, lsb }, end))
    }
}

/// What a client intends after the handshake.
#[derive(Debug, Clone, Copy, PartialEq, Eq, Structural)]
pub enum Intent {
    Status,
    Login,
    Transfer,
}

/// How a VarInt code maps to an intent: 2 is login, 3 is transfer, and
/// anything else falls back to status.
pub open spec fn spec_intent_from(v: i32) -> Intent {
    if v == 2 {
        Intent::Login
    } else if v == 3 {
        Intent::Transfer
    } else {
        Intent::Status
    }
}

/// What reading a VarInt-coded intent at `pos` yields.
pub open spec fn spec_read_intent(s: Seq<u8>, pos: int) -> Result<(Intent, int), Error> {
    match varint_dec32(s.skip(pos)) {
        Ok((v, used)) => Ok((spec_intent_from(v), pos + used)),
        Err(e) => Err(e),
    }
}

impl Intent {
    /// The intent a VarInt code denotes.
    pub fn from_code(v: i32) -> (r: Intent)
        ensures
            r == spec_intent_from(v),
    {
        match v {
            2 => Intent::Login,
            3 => Intent::Transfer,
            _ => Intent::Status,
        }
    }

    /// The VarInt code of this intent.
    pub fn code(&self) -> (r: i32)
        ensures
            r == match *self {
                Intent::Status => 1i32,
                Intent::Login => 2i32,
                Intent::Transfer => 3i32,
            },
    {
        match self {
            Intent::Status => 1,
            Intent::Login => 2,
            Intent::Transfer => 3,
        }
    }

    /// Reads a VarInt-coded intent at `pos`.
    pub fn deserialize(data: &[u8], pos: usize) -> (r: Result<(Intent, usize), Error>)
        requires
            pos <= data@.len(),
        ensures
            match r {
                Ok(p) => spec_read_intent(data@, pos as int) == Ok::<(Intent, int), Error>(
                    (p.0, p.1 as int),
                ) && pos <= p.1 <= data@.len(),
                Err(e) => spec_read_intent(data@, pos as int) == Err::<(Intent, int), Error>(e),
            },
    {
        let tail = vstd::slice::slice_subrange(data, pos, data.len());
        proof {
            assert(tail@ =~= data@.skip(pos as int));
        }
        match VarInt::deserialize(tail) {
            Ok((v, used)) => {
                proof {
                    crate::varint::lemma_scan_props(tail@);
                }
                Ok((Intent::from_code(v.0), pos + used))
            },
            Err(e) => Err(e),
        }
    }
}

/// A chat text component, carried as its raw JSON string.
#[derive(Debug)]
pub struct TextComponent(pub String);

/// The wire form of a text component: a length-prefixed string.
pub open spec fn text_component_bytes(t: &TextComponent) -> Seq<u8> {
    string_bytes(t.0@)
}

impl TextComponent {
    /// Appends the length-prefixed wire form of the component.
    pub fn serialize(&self, out: &mut Vec<u8>)
        requires
            encode_utf8(self.0@).len() <= 0x7fff_ffff,
        ensures
            final(out)@ == old(out)@ + text_component_bytes(self),
    {
        write_string(out, self.0.as_str());
    }

    /// Reads a length-prefixed string at `pos` as a text component.
    pub fn deserialize(data: &[u8], pos: usize) -> (r: Result<(TextComponent, usize), Error>)
        requires
            pos <= data@.len(),
        ensures
            match r {
                Ok(p) => spec_read_string(data@, pos as int) == Ok::<(Seq<char>, int), Error>(
                    (p.0.0@, p.1 as int),
                ) && pos <= p.1 <= data@.len(),
                Err(e) => spec_read_string(data@, pos as int) == Err::<(Seq<char>, int), Error>(e),
            },
    {
        match crate::wire::read_string(data, pos) {
            Ok((s, n)) => Ok((TextComponent(s), n)),
            Err(e) => Err(e),
        }
    }
}

/// One entry of a game profile's property list.
#[derive(Debug)]
pub struct GameProfileProperties {
    pub name: String,
    pub value: String,
    pub signature: Option<String>,
}

/// Whether a property's strings fit their VarInt length prefixes.
pub open spec fn prop_wf(p: &GameProfileProperties) -> bool {
    &&& encode_utf8(p.name@).len() <= 0x7fff_ffff
    &&& encode_utf8(p.value@).len() <= 0x7fff_ffff
    &&& match p.signature {
        Some(s) => encode_utf8(s@).len() <= 0x7fff_ffff,
        None => true,
    }
}

/// The wire form of one property: name, value, and an optional signature
/// behind a presence byte.
pub open spec fn prop_bytes(p: &GameProfileProperties) -> Seq<u8> {
    string_bytes(p.name@) + string_bytes(p.value@) + match p.signature {
        Some(s) => bool_bytes(true) + string_bytes(s@),
        None => bool_bytes(false),
    }
}

/// The concatenated wire forms of a property list, in order.
pub open spec fn props_bytes(ps: Seq<GameProfileProperties>) -> Seq<u8>
    decreases ps.len(),
{
    if ps.len() == 0 {
        Seq::empty()
    } else {
        props_bytes(ps.drop_last()) + prop_bytes(&ps.last())
    }
}

impl GameProfileProperties {
    /// Appends the wire form of this property.
    pub fn serialize(&self, out: &mut Vec<u8>)
        requires
            prop_wf(self),
        ensures
            final(out)@ == old(out)@ + prop_bytes(self),
    {
        write_string(out, self.name.as_str());
        write_string(out, self.value.as_str());
        match &self.signature {
            Some(s) => {
                write_bool(out, true);
                write_string(out, s.as_str());
            },
            None => {
                write_bool(out, false);
            },
        }
        proof {
            assert(out@ =~= old(out)@ + prop_bytes(self));
        }
    }
}

/// The profile a login hands back to the client: identity plus a
/// property list.
#[derive(Debug)]
pub struct GameProfile {
    pub uuid: Uuid,
    pub username: String,
    pub properties: Vec<GameProfileProperties>,
}

/// Whether a profile's strings and property count fit their prefixes.
pub open spec fn profile_wf(gp: &GameProfile) -> bool {
    &&& encode_utf8(gp.username@).len() <= 0x7fff_ffff
    &&& gp.properties@.len() <= 0x7fff_ffff
    &&& forall|i: int| 0 <= i < gp.properties@.len() ==> prop_wf(&gp.properties@[i])
}

/// The wire form of a game profile: uuid, username, then a VarInt-counted
/// property list.
pub open spec fn profile_bytes(gp: &GameProfile) -> Seq<u8> {
    uuid_bytes(gp.uuid) + string_bytes(gp.username@) + varint_bytes(gp.properties@.len() as i32)
        + props_bytes(gp.properties@)
}

impl GameProfile {
    /// Appends the wire form of this profile.
    pub fn serialize(&self, out: &mut Vec<u8>)
        requires
            profile_wf(self),
        ensures
            final(out)@ == old(out)@ + profile_bytes(self),
    {
        self.uuid.serialize(out);
        write_string(out, self.username.as_str());
        VarInt(self.properties.len() as i32).serialize(out);
        let ghost head = out@;
        let mut i: usize = 0;
        while i < self.properties.len()
            invariant
                i <= self.properties@.len(),
                profile_wf(self),
                out@ == head + props_bytes(self.properties@.take(i as int)),
            decreases self.properties@.len() - i,
        {
            let ghost before = out@;
            self.properties[i].serialize(out);
            proof {
                assert(self.properties@.take(i + 1).drop_last() =~= self.properties@.take(
                    i as int,
                ));
                assert(self.properties@.take(i + 1).last() == self.properties@[i as int]);
                assert(out@ =~= head + props_bytes(self.properties@.take(i + 1)));
            }
            i = i + 1;
        }
        proof {
            assert(self.properties@.take(self.properties@.len() as int) =~= self.properties@);
            assert(out@ =~= old(out)@ + profile_bytes(self));
        }
    }
}

} // verus!
