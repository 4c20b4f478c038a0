use vstd::prelude::*;
use crate::protocol::{encode_frame, frame_bytes, PacketWriter};
use crate::serialization::be_bytes;
use crate::varint::{u32_of_i32, varint_bytes};

verus! {

/// The Confirm Teleport payload: the teleport id echoed back.
pub open spec fn confirm_teleport_payload_bytes(teleport_id: i32) -> Seq<u8> {
    varint_bytes(u32_of_i32(teleport_id))
}

/// The Set Default Spawn Position payload: the coordinates as three
/// big-endian ints and the angle as float bits.
pub open spec fn spawn_position_payload_bytes(x: i32, y: i32, z: i32, angle_bits: u32) -> Seq<u8> {
    be_bytes(u32_of_i32(x), 4) + be_bytes(u32_of_i32(y), 4) + be_bytes(u32_of_i32(z), 4)
        + be_bytes(angle_bits as nat, 4)
}

/// The Synchronize Player Position payload: position doubles as bits,
/// rotation floats as bits, then the teleport id.
pub open spec fn synchronize_position_payload_bytes(
    x_bits: u64,
    y_bits: u64,
    z_bits: u64,
    yaw_bits: u32,
    pitch_bits: u32,
    teleport_id: i32,
) -> Seq<u8> {
    be_bytes(x_bits as nat, 8) + be_bytes(y_bits as nat, 8) + be_bytes(z_bits as nat, 8)
        + be_bytes(yaw_bits as nat, 4) + be_bytes(pitch_bits as nat, 4) + varint_bytes(
        u32_of_i32(teleport_id),
    )
}

/// The Player Position And Look payload: position, rotation, the relative
/// bitfield, then the teleport id.
pub open spec fn position_and_look_payload_bytes(
    x_bits: u64,
    y_bits: u64,
    z_bits: u64,
    yaw_bits: u32,
    pitch_bits: u32,
    relative_arguments: u8,
    teleport_id: i32,
) -> Seq<u8> {
    be_bytes(x_bits as nat, 8) + be_bytes(y_bits as nat, 8) + be_bytes(z_bits as nat, 8)
        + be_bytes(yaw_bits as nat, 4) + be_bytes(pitch_bits as nat, 4) + seq![relative_arguments]
        + varint_bytes(u32_of_i32(teleport_id))
}

/// The Entity Status payload: the entity id and one status byte.
pub open spec fn entity_status_payload_bytes(entity_id: i32, status: u8) -> Seq<u8> {
    be_bytes(u32_of_i32(entity_id), 4) + seq![status]
}

/// Builds the clientbound Play-state packets around player positioning.
pub struct PlayStateHandler;

impl PlayStateHandler {
    /// The framed Confirm Teleport packet (id 0x00).
    pub fn confirm_teleport_frame(teleport_id: i32) -> (r: Vec<u8>)
        ensures
            r@ == frame_bytes(0x00, confirm_teleport_payload_bytes(teleport_id)),
    {
        let mut w = PacketWriter::new();
        w.write_varint(teleport_id);
        let payload = w.finish();
        proof {
            crate::varint::lemma_varint_bytes_len(u32_of_i32(teleport_id));
            assert(payload@ =~= confirm_teleport_payload_bytes(teleport_id));
        }
        encode_frame(0x00, payload.as_slice())
    }

    /// The framed Set Default Spawn Position packet (id 0x4e).
    pub fn set_default_spawn_position_frame(x: i32, y: i32, z: i32, angle_bits: u32) -> (r: Vec<
        u8,
    >)
        ensures
            r@ == frame_bytes(0x4e, spawn_position_payload_bytes(x, y, z, angle_bits)),
    {
        let mut w = PacketWriter::new();
        w.write_int(x);
        w.write_int(y);
        w.write_int(z);
        w.write_float_bits(angle_bits);
        let payload = w.finish();
        proof {
            assert(payload@ =~= spawn_position_payload_bytes(x, y, z, angle_bits));
        }
        encode_frame(0x4e, payload.as_slice())
    }

    /// The framed Synchronize Player Position packet (id 0x31).
    pub fn synchronize_player_position_frame(
        x_bits: u64,
        y_bits: u64,
        z_bits: u64,
        yaw_bits: u32,
        pitch_bits: u32,
        teleport_id: i32,
    ) -> (r: Vec<u8>)
        ensures
            r@ == frame_bytes(
                0x31,
                synchronize_position_payload_bytes(
                    x_bits,
                    y_bits,
                    z_bits,
                    yaw_bits,
                    pitch_bits,
                    teleport_id,
                ),
            ),
    {
        let mut w = PacketWriter::new();
        w.write_double_bits(x_bits);
        w.write_double_bits(y_bits);
        w.write_double_bits(z_bits);
        w.write_float_bits(yaw_bits);
        w.write_float_bits(pitch_bits);
        w.write_varint(teleport_id);
        let payload = w.finish();
        proof {
            crate::varint::lemma_varint_bytes_len(u32_of_i32(teleport_id));
            assert(payload@ =~= synchronize_position_payload_bytes(
                x_bits,
                y_bits,
                z_bits,
                yaw_bits,
                pitch_bits,
                teleport_id,
            ));
        }
        encode_frame(0x31, payload.as_slice())
    }

    /// The framed Player Position And Look packet (id 0x28).
    pub fn player_position_and_look_frame(
        x_bits: u64,
        y_bits: u64,
        z_bits: u64,
        yaw_bits: u32,
        pitch_bits: u32,
        relative_arguments: u8,
        teleport_id: i32,
    ) -> (r: Vec<u8>)
        ensures
            r@ == frame_bytes(
                0x28,
                position_and_look_payload_bytes(
                    x_bits,
                    y_bits,
                    z_bits,
                    yaw_bits,
                    pitch_bits,
                    relative_arguments,
                    teleport_id,
                ),
            ),
    {
        let mut w = PacketWriter::new();
        w.write_double_bits(x_bits);
        w.write_double_bits(y_bits);
        w.write_double_bits(z_bits);
        w.write_float_bits(yaw_bits);
        w.write_float_bits(pitch_bits);
        w.write_byte(relative_arguments);
        w.write_varint(teleport_id);
        let payload = w.finish();
        proof {
            crate::varint::lemma_varint_bytes_len(u32_of_i32(teleport_id));
            assert(payload@ =~= position_and_look_payload_bytes(
                x_bits,
                y_bits,
                z_bits,
                yaw_bits,
                pitch_bits,
                relative_arguments,
                teleport_id,
            ));
        }
        encode_frame(0x28, payload.as_slice())
    }

    /// The framed Entity Status packet (id 0x01).
    pub fn entity_status_frame(entity_id: i32, status: u8) -> (r: Vec<u8>)
        ensures
            r@ == frame_bytes(0x01, entity_status_payload_bytes(entity_id, status)),
    {
        let mut w = PacketWriter::new();
        w.write_int(entity_id);
        w.write_byte(status);
        let payload = w.finish();
        proof {
            assert(payload@ =~= entity_status_payload_bytes(entity_id, status));
        }
        encode_frame(0x01, payload.as_slice())
    }
}

} // verus!
