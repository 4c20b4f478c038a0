use vstd::prelude::*;
use crate::protocol::PacketReader;
use crate::serialization::be_value;
use crate::varint::DecodeError;

verus! {

/// Assign all of one value's components from another.
pub trait CrossAssign: Sized {
    fn cross_assign(&mut self, rhs: Self)
        ensures
            *final(self) == rhs,
    ;
}

/// A three-component vector. Player positions travel as the raw IEEE-754
/// bits of their doubles, so the component type is plain.
#[derive(Debug, Clone, Copy, PartialEq, Eq, Structural)]
pub struct Vec3<N> {
    pub x: N,
    pub y: N,
    pub z: N,
}

impl<N> Vec3<N> {
    pub fn new(x: N, y: N, z: N) -> (r: Self)
        ensures
            r.x == x,
            r.y == y,
            r.z == z,
    {
        Vec3 { x, y, z }
    }

    /// A vector from a coordinate triple.
    pub fn from_tuple(t: (N, N, N)) -> (r: Self)
        ensures
            r.x == t.0,
            r.y == t.1,
            r.z == t.2,
    {
        Vec3 { x: t.0, y: t.1, z: t.2 }
    }
}

impl<N> CrossAssign for Vec3<N> {
    fn cross_assign(&mut self, rhs: Self) {
        *self = rhs;
    }
}

/// A yaw-and-pitch pair, as the raw IEEE-754 bits of its floats.
#[derive(Debug, Clone, Copy, PartialEq, Eq, Structural)]
pub struct Vec2<N> {
    pub yaw: N,
    pub pitch: N,
}

impl<N> Vec2<N> {
    pub fn new(yaw: N, pitch: N) -> (r: Self)
        ensures
            r.yaw == yaw,
            r.pitch == pitch,
    {
        Vec2 { yaw, pitch }
    }

    /// A pair from a tuple.
    pub fn from_tuple(t: (N, N)) -> (r: Self)
        ensures
            r.yaw == t.0,
            r.pitch == t.1,
    {
        Vec2 { yaw: t.0, pitch: t.1 }
    }
}

impl<N> CrossAssign for Vec2<N> {
    fn cross_assign(&mut self, rhs: Self) {
        *self = rhs;
    }
}

/// A serverbound position update: coordinates as double bits, and the
/// on-ground flag.
#[derive(Debug, Clone, Copy, PartialEq, Eq, Structural)]
pub struct PlayerPosition {
    pub coordinates: Vec3<u64>,
    pub ground: bool,
}

/// A serverbound look update: rotation as float bits, and the flag.
#[derive(Debug, Clone, Copy, PartialEq, Eq, Structural)]
pub struct PlayerLook {
    pub rotation: Vec2<u32>,
    pub ground: bool,
}

/// A combined position-and-look update.
#[derive(Debug, Clone, Copy, PartialEq, Eq, Structural)]
pub struct PlayerPositionAndLook {
    pub coordinates: Vec3<u64>,
    pub rotation: Vec2<u32>,
    pub ground: bool,
}

/// A parsed serverbound movement packet.
#[derive(Debug, Clone, Copy, PartialEq, Eq, Structural)]
pub enum MovementPacket {
    Position(PlayerPosition),
    Look(PlayerLook),
    PositionAndLook(PlayerPositionAndLook),
}

impl MovementPacket {
    pub fn from_xyz(x: u64, y: u64, z: u64, ground: bool) -> (r: Self)
        ensures
            r == MovementPacket::Position(
                PlayerPosition { coordinates: Vec3 { x, y, z }, ground },
            ),
    {
        MovementPacket::Position(PlayerPosition { coordinates: Vec3 { x, y, z }, ground })
    }

    pub fn from_yaw_pitch(yaw: u32, pitch: u32, ground: bool) -> (r: Self)
        ensures
            r == MovementPacket::Look(PlayerLook { rotation: Vec2 { yaw, pitch }, ground }),
    {
        MovementPacket::Look(PlayerLook { rotation: Vec2 { yaw, pitch }, ground })
    }

    pub fn from_xyz_yaw_pitch(x: u64, y: u64, z: u64, yaw: u32, pitch: u32, ground: bool) -> (r:
        Self)
        ensures
            r == MovementPacket::PositionAndLook(
                PlayerPositionAndLook {
                    coordinates: Vec3 { x, y, z },
                    rotation: Vec2 { yaw, pitch },
                    ground,
                },
            ),
    {
        MovementPacket::PositionAndLook(
            PlayerPositionAndLook {
                coordinates: Vec3 { x, y, z },
                rotation: Vec2 { yaw, pitch },
                ground,
            },
        )
    }

    pub fn new_position(x: u64, y: u64, z: u64, ground: bool) -> (r: Self)
        ensures
            r == MovementPacket::Position(
                PlayerPosition { coordinates: Vec3 { x, y, z }, ground },
            ),
    {
        Self::from_xyz(x, y, z, ground)
    }

    pub fn new_look(yaw: u32, pitch: u32, ground: bool) -> (r: Self)
        ensures
            r == MovementPacket::Look(PlayerLook { rotation: Vec2 { yaw, pitch }, ground }),
    {
        Self::from_yaw_pitch(yaw, pitch, ground)
    }

    pub fn new_position_and_look(x: u64, y: u64, z: u64, yaw: u32, pitch: u32, ground: bool) -> (r:
        Self)
        ensures
            r == MovementPacket::PositionAndLook(
                PlayerPositionAndLook {
                    coordinates: Vec3 { x, y, z },
                    rotation: Vec2 { yaw, pitch },
                    ground,
                },
            ),
    {
        Self::from_xyz_yaw_pitch(x, y, z, yaw, pitch, ground)
    }

    /// The on-ground flag, whichever variant carries it.
    pub fn is_on_ground(&self) -> (r: bool)
        ensures
            r == match *self {
                MovementPacket::Position(p) => p.ground,
                MovementPacket::Look(l) => l.ground,
                MovementPacket::PositionAndLook(pl) => pl.ground,
            },
    {
        match self {
            MovementPacket::Position(p) => p.ground,
            MovementPacket::Look(l) => l.ground,
            MovementPacket::PositionAndLook(pl) => pl.ground,
        }
    }
}

/// What parsing a movement packet body yields for each packet id: Player
/// Position (0x04) is three doubles and a flag; Player Look (0x05) is a
/// flag then two floats; Player Position and Look (0x06) is three doubles,
/// two floats and a flag. Other ids carry no movement.
pub open spec fn spec_parse_movement(packet_id: i32, data: Seq<u8>) -> Result<
    Option<MovementPacket>,
    DecodeError,
> {
    if packet_id == 0x04 {
        if data.len() < 25 {
            Err(DecodeError::UnexpectedEnd)
        } else {
            Ok(
                Some(
                    MovementPacket::Position(
                        PlayerPosition {
                            coordinates: Vec3 {
                                x: be_value(data.subrange(0, 8)) as u64,
                                y: be_value(data.subrange(8, 16)) as u64,
                                z: be_value(data.subrange(16, 24)) as u64,
                            },
                            ground: data[24] != 0,
                        },
                    ),
                ),
            )
        }
    } else if packet_id == 0x05 {
        if data.len() < 9 {
            Err(DecodeError::UnexpectedEnd)
        } else {
            Ok(
                Some(
                    MovementPacket::Look(
                        PlayerLook {
                            rotation: Vec2 {
                                yaw: be_value(data.subrange(1, 5)) as u32,
                                pitch: be_value(data.subrange(5, 9)) as u32,
                            },
                            ground: data[0] != 0,
                        },
                    ),
                ),
            )
        }
    } else if packet_id == 0x06 {
        if data.len() < 33 {
            Err(DecodeError::UnexpectedEnd)
        } else {
            Ok(
                Some(
                    MovementPacket::PositionAndLook(
                        PlayerPositionAndLook {
                            coordinates: Vec3 {
                                x: be_value(data.subrange(0, 8)) as u64,
                                y: be_value(data.subrange(8, 16)) as u64,
                                z: be_value(data.subrange(16, 24)) as u64,
                            },
                            rotation: Vec2 {
                                yaw: be_value(data.subrange(24, 28)) as u32,
                                pitch: be_value(data.subrange(28, 32)) as u32,
                            },
                            ground: data[32] != 0,
                        },
                    ),
                ),
            )
        }
    } else {
        Ok(None)
    }
}

/// Parse a serverbound movement packet body by its packet id.
pub fn parse_movement_packet(packet_id: i32, data: &[u8]) -> (r: Result<
    Option<MovementPacket>,
    DecodeError,
>)
    ensures
        r == spec_parse_movement(packet_id, data@),
{
    let mut reader = PacketReader::new(data);
    proof {
        assert(reader.rest() =~= data@);
    }
    if packet_id == 0x04 {
        let x = match reader.read_double_bits() {
            Ok(v) => v,
            Err(e) => {
                return Err(e);
            },
        };
        let y = match reader.read_double_bits() {
            Ok(v) => v,
            Err(e) => {
                return Err(e);
            },
        };
        let z = match reader.read_double_bits() {
            Ok(v) => v,
            Err(e) => {
                return Err(e);
            },
        };
        let ground = match reader.read_bool() {
            Ok(v) => v,
            Err(e) => {
                return Err(e);
            },
        };
        proof {
            lemma_skip_take(data@, 0, 8);
            lemma_skip_take(data@, 8, 8);
            lemma_skip_take(data@, 16, 8);
            assert(data@.skip(24)[0] == data@[24]);
        }
        Ok(Some(MovementPacket::Position(PlayerPosition { coordinates: Vec3 { x, y, z }, ground })))
    } else if packet_id == 0x05 {
        let ground = match reader.read_bool() {
            Ok(v) => v,
            Err(e) => {
                return Err(e);
            },
        };
        let yaw = match reader.read_float_bits() {
            Ok(v) => v,
            Err(e) => {
                return Err(e);
            },
        };
        let pitch = match reader.read_float_bits() {
            Ok(v) => v,
            Err(e) => {
                return Err(e);
            },
        };
        proof {
            assert(data@.skip(0)[0] == data@[0]);
            lemma_skip_take(data@, 1, 4);
            lemma_skip_take(data@, 5, 4);
        }
        Ok(Some(MovementPacket::Look(PlayerLook { rotation: Vec2 { yaw, pitch }, ground })))
    } else if packet_id == 0x06 {
        let x = match reader.read_double_bits() {
            Ok(v) => v,
            Err(e) => {
                return Err(e);
            },
        };
        let y = match reader.read_double_bits() {
            Ok(v) => v,
            Err(e) => {
                return Err(e);
            },
        };
        let z = match reader.read_double_bits() {
            Ok(v) => v,
            Err(e) => {
                return Err(e);
            },
        };
        let yaw = match reader.read_float_bits() {
            Ok(v) => v,
            Err(e) => {
                return Err(e);
            },
        };
        let pitch = match reader.read_float_bits() {
            Ok(v) => v,
            Err(e) => {
                return Err(e);
            },
        };
        let ground = match reader.read_bool() {
            Ok(v) => v,
            Err(e) => {
                return Err(e);
            },
        };
        proof {
            lemma_skip_take(data@, 0, 8);
            lemma_skip_take(data@, 8, 8);
            lemma_skip_take(data@, 16, 8);
            lemma_skip_take(data@, 24, 4);
            lemma_skip_take(data@, 28, 4);
            assert(data@.skip(32)[0] == data@[32]);
        }
        Ok(
            Some(
                MovementPacket::PositionAndLook(
                    PlayerPositionAndLook {
                        coordinates: Vec3 { x, y, z },
                        rotation: Vec2 { yaw, pitch },
                        ground,
                    },
                ),
            ),
        )
    } else {
        Ok(None)
    }
}

proof fn lemma_skip_take(s: Seq<u8>, at: int, n: int)
    requires
        0 <= at,
        0 <= n,
        at + n <= s.len(),
    ensures
        s.skip(at).take(n) =~= s.subrange(at, at + n),
{
}

/// The chunk coordinate a block coordinate lies in, and whether it moved:
/// the play loop's decision after each movement packet.
pub fn check_chunk_changed(
    current_chunk_x: i32,
    current_chunk_z: i32,
    last_chunk_x: i32,
    last_chunk_z: i32,
) -> (r: bool)
    ensures
        r == (current_chunk_x != last_chunk_x || current_chunk_z != last_chunk_z),
{
    current_chunk_x != last_chunk_x || current_chunk_z != last_chunk_z
}

} // verus!
