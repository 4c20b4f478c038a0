use vstd::prelude::*;
use crate::protocol::{encode_frame, frame_bytes, PacketWriter};
use crate::serialization::{be_bytes, u64_of_i64};
use crate::varint::{u32_of_i32, varint_bytes};

verus! {

/// The ASCII bytes of the world identifier `minecraft:overworld`.
pub open spec fn id_world_overworld() -> Seq<u8> {
    seq![0x6du8, 0x69u8, 0x6eu8, 0x65u8, 0x63u8, 0x72u8, 0x61u8, 0x66u8, 0x74u8, 0x3au8, 0x6fu8, 0x76u8, 0x65u8, 0x72u8, 0x77u8, 0x6fu8, 0x72u8, 0x6cu8, 0x64u8]
}

/// The minimal dimension-codec NBT fragment the Join Game packet carries:
/// a root compound holding an empty dimension-type list.
pub open spec fn dimension_codec_nbt() -> Seq<u8> {
    seq![0x0au8, 0x00u8, 0x00u8, 0x09u8, 0x00u8, 0x1au8, 0x0au8, 0x00u8, 0x00u8, 0x00u8, 0x00u8, 0x00u8]
}

/// The minimal dimension NBT fragment: piglin_safe 0 and natural 1.
pub open spec fn dimension_nbt() -> Seq<u8> {
    seq![0x0au8, 0x00u8, 0x00u8, 0x01u8, 0x00u8, 0x0bu8, 0x70u8, 0x69u8, 0x67u8, 0x6cu8, 0x69u8, 0x6eu8, 0x5fu8, 0x73u8, 0x61u8, 0x66u8, 0x65u8, 0x00u8, 0x01u8, 0x00u8, 0x07u8, 0x6eu8, 0x61u8, 0x74u8, 0x75u8, 0x72u8, 0x61u8, 0x6cu8, 0x01u8, 0x00u8]
}

/// The Join Game payload: entity id, flags, gamemodes, the single world,
/// the dimension codec and dimension fragments, seed, player and view
/// limits, and the closing flags.
pub open spec fn join_game_payload_bytes(entity_id: i32) -> Seq<u8> {
    be_bytes(u32_of_i32(entity_id), 4) + seq![0u8] + seq![0u8] + seq![0xffu8] + varint_bytes(1)
        + varint_bytes(id_world_overworld().len()) + id_world_overworld() + dimension_codec_nbt()
        + dimension_nbt() + varint_bytes(id_world_overworld().len()) + id_world_overworld()
        + be_bytes(u64_of_i64(12345), 8) + varint_bytes(20) + varint_bytes(10) + seq![0u8]
        + seq![1u8] + seq![0u8] + seq![0u8]
}

/// The Player Info Add payload: the add action, one entry with the UUID and
/// username, no properties, survival gamemode, zero ping, no display name.
pub open spec fn player_info_add_payload_bytes(uuid: u128, username: Seq<u8>) -> Seq<u8> {
    varint_bytes(0) + varint_bytes(1) + be_bytes(uuid as nat, 16) + varint_bytes(username.len())
        + username + varint_bytes(0) + varint_bytes(0) + varint_bytes(0) + seq![0u8]
}

/// Builds the clientbound packets that take a fresh login into the game.
pub struct JoinGameHandler;

impl JoinGameHandler {
    /// The minimal dimension-codec NBT fragment.
    pub fn get_dimension_codec_nbt() -> (r: Vec<u8>)
        ensures
            r@ == dimension_codec_nbt(),
    {
        let mut v: Vec<u8> = Vec::new();
        v.push(0x0a);
        v.push(0x00);
        v.push(0x00);
        v.push(0x09);
        v.push(0x00);
        v.push(0x1a);
        v.push(0x0a);
        v.push(0x00);
        v.push(0x00);
        v.push(0x00);
        v.push(0x00);
        v.push(0x00);
        proof {
            assert(v@ =~= dimension_codec_nbt());
        }
        v
    }

    /// The minimal dimension NBT fragment.
    pub fn get_dimension_nbt() -> (r: Vec<u8>)
        ensures
            r@ == dimension_nbt(),
    {
        let mut v: Vec<u8> = Vec::new();
        v.push(0x0a);
        v.push(0x00);
        v.push(0x00);
        v.push(0x01);
        v.push(0x00);
        v.push(0x0b);
        v.push(0x70);
        v.push(0x69);
        v.push(0x67);
        v.push(0x6c);
        v.push(0x69);
        v.push(0x6e);
        v.push(0x5f);
        v.push(0x73);
        v.push(0x61);
        v.push(0x66);
        v.push(0x65);
        v.push(0x00);
        v.push(0x01);
        v.push(0x00);
        v.push(0x07);
        v.push(0x6e);
        v.push(0x61);
        v.push(0x74);
        v.push(0x75);
        v.push(0x72);
        v.push(0x61);
        v.push(0x6c);
        v.push(0x01);
        v.push(0x00);
        proof {
            assert(v@ =~= dimension_nbt());
        }
        v
    }

    /// Build the world identifier bytes.
    pub fn overworld_id() -> (r: Vec<u8>)
        ensures
            r@ == id_world_overworld(),
    {
        let mut v: Vec<u8> = Vec::new();
        v.push(0x6d);
        v.push(0x69);
        v.push(0x6e);
        v.push(0x65);
        v.push(0x63);
        v.push(0x72);
        v.push(0x61);
        v.push(0x66);
        v.push(0x74);
        v.push(0x3a);
        v.push(0x6f);
        v.push(0x76);
        v.push(0x65);
        v.push(0x72);
        v.push(0x77);
        v.push(0x6f);
        v.push(0x72);
        v.push(0x6c);
        v.push(0x64);
        proof {
            assert(v@ =~= id_world_overworld());
        }
        v
    }

    /// Build the Join Game payload for an entity id.
    pub fn join_game_payload(entity_id: i32) -> (r: Vec<u8>)
        ensures
            r@ == join_game_payload_bytes(entity_id),
    {
        let mut w = PacketWriter::new();
        w.write_int(entity_id);
        w.write_bool(false);
        w.write_byte(0);
        w.write_byte(0xff);
        w.write_varint(1);
        let world = Self::overworld_id();
        proof {
            assert(u32_of_i32(world@.len() as i32) == world@.len());
        }
        w.write_varint(world.len() as i32);
        w.write_bytes(world.as_slice());
        let codec = Self::get_dimension_codec_nbt();
        w.write_bytes(codec.as_slice());
        let dim = Self::get_dimension_nbt();
        w.write_bytes(dim.as_slice());
        w.write_varint(world.len() as i32);
        w.write_bytes(world.as_slice());
        w.write_long(12345);
        w.write_varint(20);
        w.write_varint(10);
        w.write_bool(false);
        w.write_bool(true);
        w.write_bool(false);
        w.write_bool(false);
        let out = w.finish();
        proof {
            assert(u32_of_i32(1i32) == 1);
            assert(u32_of_i32(20i32) == 20);
            assert(u32_of_i32(10i32) == 10);
            assert(u64_of_i64(12345i64) == 12345);
            assert(out@ =~= join_game_payload_bytes(entity_id));
        }
        out
    }

    /// The framed Join Game packet (id 0x28).
    pub fn join_game_frame(entity_id: i32) -> (r: Vec<u8>)
        ensures
            r@ == frame_bytes(0x28, join_game_payload_bytes(entity_id)),
    {
        let payload = Self::join_game_payload(entity_id);
        proof {
            crate::varint::lemma_varint_bytes_len(u32_of_i32(entity_id));
            crate::varint::lemma_varint_bytes_len(1);
            crate::varint::lemma_varint_bytes_len(id_world_overworld().len());
            crate::varint::lemma_varint_bytes_len(20);
            crate::varint::lemma_varint_bytes_len(10);
        }
        encode_frame(0x28, payload.as_slice())
    }

    /// Build the Player Info Add payload.
    pub fn player_info_add_payload(uuid: u128, username: &str) -> (r: Vec<u8>)
        requires
            username@.len() <= 16,
            vstd::string::StringSliceAdditionalSpecFns::spec_bytes(username).len() <= 16,
        ensures
            r@ == player_info_add_payload_bytes(
                uuid,
                vstd::string::StringSliceAdditionalSpecFns::spec_bytes(username),
            ),
    {
        let mut w = PacketWriter::new();
        w.write_varint(0);
        w.write_varint(1);
        w.write_uuid(uuid);
        w.write_string(username);
        w.write_varint(0);
        w.write_varint(0);
        w.write_varint(0);
        w.write_bool(false);
        let out = w.finish();
        proof {
            assert(u32_of_i32(0i32) == 0);
            assert(u32_of_i32(1i32) == 1);
            assert(out@ =~= player_info_add_payload_bytes(
                uuid,
                vstd::string::StringSliceAdditionalSpecFns::spec_bytes(username),
            ));
        }
        out
    }

    /// The framed Player Info Add packet (id 0x53).
    pub fn player_info_add_frame(uuid: u128, username: &str) -> (r: Vec<u8>)
        requires
            username@.len() <= 16,
            vstd::string::StringSliceAdditionalSpecFns::spec_bytes(username).len() <= 16,
        ensures
            r@ == frame_bytes(
                0x53,
                player_info_add_payload_bytes(
                    uuid,
                    vstd::string::StringSliceAdditionalSpecFns::spec_bytes(username),
                ),
            ),
    {
        let payload = Self::player_info_add_payload(uuid, username);
        proof {
            crate::varint::lemma_varint_bytes_len(0);
            crate::varint::lemma_varint_bytes_len(1);
            crate::varint::lemma_varint_bytes_len(
                vstd::string::StringSliceAdditionalSpecFns::spec_bytes(username).len(),
            );
        }
        encode_frame(0x53, payload.as_slice())
    }

    /// The framed Configuration Finish packet (id 0x02, no payload).
    pub fn send_configuration_finish_frame() -> (r: Vec<u8>)
        ensures
            r@ == frame_bytes(0x02, Seq::<u8>::empty()),
    {
        let payload: Vec<u8> = Vec::new();
        encode_frame(0x02, payload.as_slice())
    }

    /// The framed Play-state Disconnect packet (id 0x19) for a reason.
    pub fn play_disconnect_frame(reason: &str) -> (r: Vec<u8>)
        requires
            vstd::string::StringSliceAdditionalSpecFns::spec_bytes(reason).len() <= 0x3f00_0000,
        ensures
            r@ == frame_bytes(
                0x19,
                crate::login::disconnect_payload_bytes(
                    vstd::string::StringSliceAdditionalSpecFns::spec_bytes(reason),
                ),
            ),
    {
        let payload = crate::login::disconnect_payload(reason);
        proof {
            crate::login::lemma_json_escaped_len(
                vstd::string::StringSliceAdditionalSpecFns::spec_bytes(reason),
            );
            crate::varint::lemma_varint_bytes_len(
                crate::login::disconnect_json(
                    vstd::string::StringSliceAdditionalSpecFns::spec_bytes(reason),
                ).len(),
            );
        }
        encode_frame(0x19, payload.as_slice())
    }
}

} // verus!
