use vstd::prelude::*;
use crate::nbt::{spec_damage_type_compound, spec_dimension_compound, DamageTypeCompound,
    DimensionCompound, NBTBuilder};
use crate::protocol::{encode_frame, frame_bytes, PacketWriter};
use crate::varint::{u32_of_i32, varint_bytes};

verus! {

/// The IEEE-754 bits of the float 1.0.
pub const F32_ONE_BITS: u32 = 0x3f800000;

/// The IEEE-754 bits of the float 8.0.
pub const F32_EIGHT_BITS: u32 = 0x41000000;

/// The IEEE-754 bits of the float 0.0.
pub const F32_ZERO_BITS: u32 = 0;

/// The IEEE-754 bits of the float 0.1.
pub const F32_TENTH_BITS: u32 = 0x3dcccccd;

/// The serverbound packets a client may send during configuration.
pub enum ConfigurationAckPacket {
    ClientInformation,
    ServerboundPluginMessage,
    ServerboundKnownPacks,
    AcknowledgeFinishConfiguration,
}

/// The configuration packet a serverbound id names, when it names one.
pub open spec fn spec_config_packet(value: i32) -> Option<ConfigurationAckPacket> {
    if value == 0x00 {
        Some(ConfigurationAckPacket::ClientInformation)
    } else if value == 0x01 {
        Some(ConfigurationAckPacket::ServerboundPluginMessage)
    } else if value == 0x02 {
        Some(ConfigurationAckPacket::ServerboundKnownPacks)
    } else if value == 0x03 {
        Some(ConfigurationAckPacket::AcknowledgeFinishConfiguration)
    } else {
        None
    }
}

impl ConfigurationAckPacket {
    /// The packet a known configuration id names.
    pub fn from(value: i32) -> (r: Self)
        requires
            0 <= value <= 3,
        ensures
            Some(r) == spec_config_packet(value),
    {
        if value == 0x00 {
            ConfigurationAckPacket::ClientInformation
        } else if value == 0x01 {
            ConfigurationAckPacket::ServerboundPluginMessage
        } else if value == 0x02 {
            ConfigurationAckPacket::ServerboundKnownPacks
        } else {
            ConfigurationAckPacket::AcknowledgeFinishConfiguration
        }
    }

    /// The packet an arbitrary id names; unknown ids give nothing.
    pub fn from_id(value: i32) -> (r: Option<Self>)
        ensures
            r == spec_config_packet(value),
    {
        if 0 <= value && value <= 3 {
            Some(Self::from(value))
        } else {
            None
        }
    }
}

/// What the configuration loop does with one serverbound packet id:
/// tolerated packets are ignored, the acknowledgement advances to Play,
/// anything else is a fatal decode error.
#[derive(Debug, Clone, Copy, PartialEq, Eq, Structural)]
pub enum ConfigStep {
    Ignore,
    Advance,
    Fatal,
}

/// Decide the configuration loop's step for a serverbound packet id.
pub fn configuration_step(packet_id: i32) -> (r: ConfigStep)
    ensures
        r == (if packet_id == 0x03 {
            ConfigStep::Advance
        } else if 0x00 <= packet_id <= 0x02 {
            ConfigStep::Ignore
        } else {
            ConfigStep::Fatal
        }),
{
    if packet_id == 0x03 {
        ConfigStep::Advance
    } else if 0x00 <= packet_id && packet_id <= 0x02 {
        ConfigStep::Ignore
    } else {
        ConfigStep::Fatal
    }
}

/// The ASCII bytes of `minecraft:overworld`.
pub open spec fn id_overworld() -> Seq<u8> {
    seq![0x6du8, 0x69u8, 0x6eu8, 0x65u8, 0x63u8, 0x72u8, 0x61u8, 0x66u8, 0x74u8, 0x3au8, 0x6fu8, 0x76u8, 0x65u8, 0x72u8, 0x77u8, 0x6fu8, 0x72u8, 0x6cu8, 0x64u8]
}

/// Build the bytes of `minecraft:overworld`.
pub fn make_id_overworld() -> (r: Vec<u8>)
    ensures
        r@ == id_overworld(),
        r@.len() < 0x8000,
{
    let mut v: Vec<u8> = Vec::new();
    v.push(0x6d);
    v.push(0x69);
    v.push(0x6e);
    v.push(0x65);
    v.push(0x63);
    v.push(0x72);
    v.push(0x61);
    v.push(0x66);
    v.push(0x74);
    v.push(0x3a);
    v.push(0x6f);
    v.push(0x76);
    v.push(0x65);
    v.push(0x72);
    v.push(0x77);
    v.push(0x6f);
    v.push(0x72);
    v.push(0x6c);
    v.push(0x64);
    proof {
        assert(v@ =~= id_overworld());
    }
    v
}

/// The ASCII bytes of `minecraft:the_nether`.
pub open spec fn id_the_nether() -> Seq<u8> {
    seq![0x6du8, 0x69u8, 0x6eu8, 0x65u8, 0x63u8, 0x72u8, 0x61u8, 0x66u8, 0x74u8, 0x3au8, 0x74u8, 0x68u8, 0x65u8, 0x5fu8, 0x6eu8, 0x65u8, 0x74u8, 0x68u8, 0x65u8, 0x72u8]
}

/// Build the bytes of `minecraft:the_nether`.
pub fn make_id_the_nether() -> (r: Vec<u8>)
    ensures
        r@ == id_the_nether(),
        r@.len() < 0x8000,
{
    let mut v: Vec<u8> = Vec::new();
    v.push(0x6d);
    v.push(0x69);
    v.push(0x6e);
    v.push(0x65);
    v.push(0x63);
    v.push(0x72);
    v.push(0x61);
    v.push(0x66);
    v.push(0x74);
    v.push(0x3a);
    v.push(0x74);
    v.push(0x68);
    v.push(0x65);
    v.push(0x5f);
    v.push(0x6e);
    v.push(0x65);
    v.push(0x74);
    v.push(0x68);
    v.push(0x65);
    v.push(0x72);
    proof {
        assert(v@ =~= id_the_nether());
    }
    v
}

/// The ASCII bytes of `minecraft:the_end`.
pub open spec fn id_the_end() -> Seq<u8> {
    seq![0x6du8, 0x69u8, 0x6eu8, 0x65u8, 0x63u8, 0x72u8, 0x61u8, 0x66u8, 0x74u8, 0x3au8, 0x74u8, 0x68u8, 0x65u8, 0x5fu8, 0x65u8, 0x6eu8, 0x64u8]
}

/// Build the bytes of `minecraft:the_end`.
pub fn make_id_the_end() -> (r: Vec<u8>)
    ensures
        r@ == id_the_end(),
        r@.len() < 0x8000,
{
    let mut v: Vec<u8> = Vec::new();
    v.push(0x6d);
    v.push(0x69);
    v.push(0x6e);
    v.push(0x65);
    v.push(0x63);
    v.push(0x72);
    v.push(0x61);
    v.push(0x66);
    v.push(0x74);
    v.push(0x3a);
    v.push(0x74);
    v.push(0x68);
    v.push(0x65);
    v.push(0x5f);
    v.push(0x65);
    v.push(0x6e);
    v.push(0x64);
    proof {
        assert(v@ =~= id_the_end());
    }
    v
}

/// The ASCII bytes of `minecraft:dimension_type`.
pub open spec fn id_dimension_type() -> Seq<u8> {
    seq![0x6du8, 0x69u8, 0x6eu8, 0x65u8, 0x63u8, 0x72u8, 0x61u8, 0x66u8, 0x74u8, 0x3au8, 0x64u8, 0x69u8, 0x6du8, 0x65u8, 0x6eu8, 0x73u8, 0x69u8, 0x6fu8, 0x6eu8, 0x5fu8, 0x74u8, 0x79u8, 0x70u8, 0x65u8]
}

/// Build the bytes of `minecraft:dimension_type`.
pub fn make_id_dimension_type() -> (r: Vec<u8>)
    ensures
        r@ == id_dimension_type(),
        r@.len() < 0x8000,
{
    let mut v: Vec<u8> = Vec::new();
    v.push(0x6d);
    v.push(0x69);
    v.push(0x6e);
    v.push(0x65);
    v.push(0x63);
    v.push(0x72);
    v.push(0x61);
    v.push(0x66);
    v.push(0x74);
    v.push(0x3a);
    v.push(0x64);
    v.push(0x69);
    v.push(0x6d);
    v.push(0x65);
    v.push(0x6e);
    v.push(0x73);
    v.push(0x69);
    v.push(0x6f);
    v.push(0x6e);
    v.push(0x5f);
    v.push(0x74);
    v.push(0x79);
    v.push(0x70);
    v.push(0x65);
    proof {
        assert(v@ =~= id_dimension_type());
    }
    v
}

/// The ASCII bytes of `minecraft:damage_type`.
pub open spec fn id_damage_type() -> Seq<u8> {
    seq![0x6du8, 0x69u8, 0x6eu8, 0x65u8, 0x63u8, 0x72u8, 0x61u8, 0x66u8, 0x74u8, 0x3au8, 0x64u8, 0x61u8, 0x6du8, 0x61u8, 0x67u8, 0x65u8, 0x5fu8, 0x74u8, 0x79u8, 0x70u8, 0x65u8]
}

/// Build the bytes of `minecraft:damage_type`.
pub fn make_id_damage_type() -> (r: Vec<u8>)
    ensures
        r@ == id_damage_type(),
        r@.len() < 0x8000,
{
    let mut v: Vec<u8> = Vec::new();
    v.push(0x6d);
    v.push(0x69);
    v.push(0x6e);
    v.push(0x65);
    v.push(0x63);
    v.push(0x72);
    v.push(0x61);
    v.push(0x66);
    v.push(0x74);
    v.push(0x3a);
    v.push(0x64);
    v.push(0x61);
    v.push(0x6d);
    v.push(0x61);
    v.push(0x67);
    v.push(0x65);
    v.push(0x5f);
    v.push(0x74);
    v.push(0x79);
    v.push(0x70);
    v.push(0x65);
    proof {
        assert(v@ =~= id_damage_type());
    }
    v
}

/// The ASCII bytes of `minecraft:generic`.
pub open spec fn id_generic() -> Seq<u8> {
    seq![0x6du8, 0x69u8, 0x6eu8, 0x65u8, 0x63u8, 0x72u8, 0x61u8, 0x66u8, 0x74u8, 0x3au8, 0x67u8, 0x65u8, 0x6eu8, 0x65u8, 0x72u8, 0x69u8, 0x63u8]
}

/// Build the bytes of `minecraft:generic`.
pub fn make_id_generic() -> (r: Vec<u8>)
    ensures
        r@ == id_generic(),
        r@.len() < 0x8000,
{
    let mut v: Vec<u8> = Vec::new();
    v.push(0x6d);
    v.push(0x69);
    v.push(0x6e);
    v.push(0x65);
    v.push(0x63);
    v.push(0x72);
    v.push(0x61);
    v.push(0x66);
    v.push(0x74);
    v.push(0x3a);
    v.push(0x67);
    v.push(0x65);
    v.push(0x6e);
    v.push(0x65);
    v.push(0x72);
    v.push(0x69);
    v.push(0x63);
    proof {
        assert(v@ =~= id_generic());
    }
    v
}

/// The ASCII bytes of `minecraft:player_attack`.
pub open spec fn id_player_attack() -> Seq<u8> {
    seq![0x6du8, 0x69u8, 0x6eu8, 0x65u8, 0x63u8, 0x72u8, 0x61u8, 0x66u8, 0x74u8, 0x3au8, 0x70u8, 0x6cu8, 0x61u8, 0x79u8, 0x65u8, 0x72u8, 0x5fu8, 0x61u8, 0x74u8, 0x74u8, 0x61u8, 0x63u8, 0x6bu8]
}

/// Build the bytes of `minecraft:player_attack`.
pub fn make_id_player_attack() -> (r: Vec<u8>)
    ensures
        r@ == id_player_attack(),
        r@.len() < 0x8000,
{
    let mut v: Vec<u8> = Vec::new();
    v.push(0x6d);
    v.push(0x69);
    v.push(0x6e);
    v.push(0x65);
    v.push(0x63);
    v.push(0x72);
    v.push(0x61);
    v.push(0x66);
    v.push(0x74);
    v.push(0x3a);
    v.push(0x70);
    v.push(0x6c);
    v.push(0x61);
    v.push(0x79);
    v.push(0x65);
    v.push(0x72);
    v.push(0x5f);
    v.push(0x61);
    v.push(0x74);
    v.push(0x74);
    v.push(0x61);
    v.push(0x63);
    v.push(0x6b);
    proof {
        assert(v@ =~= id_player_attack());
    }
    v
}

/// The ASCII bytes of `minecraft:player_knockback`.
pub open spec fn id_player_knockback() -> Seq<u8> {
    seq![0x6du8, 0x69u8, 0x6eu8, 0x65u8, 0x63u8, 0x72u8, 0x61u8, 0x66u8, 0x74u8, 0x3au8, 0x70u8, 0x6cu8, 0x61u8, 0x79u8, 0x65u8, 0x72u8, 0x5fu8, 0x6bu8, 0x6eu8, 0x6fu8, 0x63u8, 0x6bu8, 0x62u8, 0x61u8, 0x63u8, 0x6bu8]
}

/// Build the bytes of `minecraft:player_knockback`.
pub fn make_id_player_knockback() -> (r: Vec<u8>)
    ensures
        r@ == id_player_knockback(),
        r@.len() < 0x8000,
{
    let mut v: Vec<u8> = Vec::new();
    v.push(0x6d);
    v.push(0x69);
    v.push(0x6e);
    v.push(0x65);
    v.push(0x63);
    v.push(0x72);
    v.push(0x61);
    v.push(0x66);
    v.push(0x74);
    v.push(0x3a);
    v.push(0x70);
    v.push(0x6c);
    v.push(0x61);
    v.push(0x79);
    v.push(0x65);
    v.push(0x72);
    v.push(0x5f);
    v.push(0x6b);
    v.push(0x6e);
    v.push(0x6f);
    v.push(0x63);
    v.push(0x6b);
    v.push(0x62);
    v.push(0x61);
    v.push(0x63);
    v.push(0x6b);
    proof {
        assert(v@ =~= id_player_knockback());
    }
    v
}

/// The ASCII bytes of `minecraft:world_border`.
pub open spec fn id_world_border() -> Seq<u8> {
    seq![0x6du8, 0x69u8, 0x6eu8, 0x65u8, 0x63u8, 0x72u8, 0x61u8, 0x66u8, 0x74u8, 0x3au8, 0x77u8, 0x6fu8, 0x72u8, 0x6cu8, 0x64u8, 0x5fu8, 0x62u8, 0x6fu8, 0x72u8, 0x64u8, 0x65u8, 0x72u8]
}

/// Build the bytes of `minecraft:world_border`.
pub fn make_id_world_border() -> (r: Vec<u8>)
    ensures
        r@ == id_world_border(),
        r@.len() < 0x8000,
{
    let mut v: Vec<u8> = Vec::new();
    v.push(0x6d);
    v.push(0x69);
    v.push(0x6e);
    v.push(0x65);
    v.push(0x63);
    v.push(0x72);
    v.push(0x61);
    v.push(0x66);
    v.push(0x74);
    v.push(0x3a);
    v.push(0x77);
    v.push(0x6f);
    v.push(0x72);
    v.push(0x6c);
    v.push(0x64);
    v.push(0x5f);
    v.push(0x62);
    v.push(0x6f);
    v.push(0x72);
    v.push(0x64);
    v.push(0x65);
    v.push(0x72);
    proof {
        assert(v@ =~= id_world_border());
    }
    v
}

/// The ASCII bytes of `minecraft:falling`.
pub open spec fn id_falling() -> Seq<u8> {
    seq![0x6du8, 0x69u8, 0x6eu8, 0x65u8, 0x63u8, 0x72u8, 0x61u8, 0x66u8, 0x74u8, 0x3au8, 0x66u8, 0x61u8, 0x6cu8, 0x6cu8, 0x69u8, 0x6eu8, 0x67u8]
}

/// Build the bytes of `minecraft:falling`.
pub fn make_id_falling() -> (r: Vec<u8>)
    ensures
        r@ == id_falling(),
        r@.len() < 0x8000,
{
    let mut v: Vec<u8> = Vec::new();
    v.push(0x6d);
    v.push(0x69);
    v.push(0x6e);
    v.push(0x65);
    v.push(0x63);
    v.push(0x72);
    v.push(0x61);
    v.push(0x66);
    v.push(0x74);
    v.push(0x3a);
    v.push(0x66);
    v.push(0x61);
    v.push(0x6c);
    v.push(0x6c);
    v.push(0x69);
    v.push(0x6e);
    v.push(0x67);
    proof {
        assert(v@ =~= id_falling());
    }
    v
}

/// The ASCII bytes of `minecraft:suffocation`.
pub open spec fn id_suffocation() -> Seq<u8> {
    seq![0x6du8, 0x69u8, 0x6eu8, 0x65u8, 0x63u8, 0x72u8, 0x61u8, 0x66u8, 0x74u8, 0x3au8, 0x73u8, 0x75u8, 0x66u8, 0x66u8, 0x6fu8, 0x63u8, 0x61u8, 0x74u8, 0x69u8, 0x6fu8, 0x6eu8]
}

/// Build the bytes of `minecraft:suffocation`.
pub fn make_id_suffocation() -> (r: Vec<u8>)
    ensures
        r@ == id_suffocation(),
        r@.len() < 0x8000,
{
    let mut v: Vec<u8> = Vec::new();
    v.push(0x6d);
    v.push(0x69);
    v.push(0x6e);
    v.push(0x65);
    v.push(0x63);
    v.push(0x72);
    v.push(0x61);
    v.push(0x66);
    v.push(0x74);
    v.push(0x3a);
    v.push(0x73);
    v.push(0x75);
    v.push(0x66);
    v.push(0x66);
    v.push(0x6f);
    v.push(0x63);
    v.push(0x61);
    v.push(0x74);
    v.push(0x69);
    v.push(0x6f);
    v.push(0x6e);
    proof {
        assert(v@ =~= id_suffocation());
    }
    v
}

/// The ASCII bytes of `minecraft:drowning`.
pub open spec fn id_drowning() -> Seq<u8> {
    seq![0x6du8, 0x69u8, 0x6eu8, 0x65u8, 0x63u8, 0x72u8, 0x61u8, 0x66u8, 0x74u8, 0x3au8, 0x64u8, 0x72u8, 0x6fu8, 0x77u8, 0x6eu8, 0x69u8, 0x6eu8, 0x67u8]
}

/// Build the bytes of `minecraft:drowning`.
pub fn make_id_drowning() -> (r: Vec<u8>)
    ensures
        r@ == id_drowning(),
        r@.len() < 0x8000,
{
    let mut v: Vec<u8> = Vec::new();
    v.push(0x6d);
    v.push(0x69);
    v.push(0x6e);
    v.push(0x65);
    v.push(0x63);
    v.push(0x72);
    v.push(0x61);
    v.push(0x66);
    v.push(0x74);
    v.push(0x3a);
    v.push(0x64);
    v.push(0x72);
    v.push(0x6f);
    v.push(0x77);
    v.push(0x6e);
    v.push(0x69);
    v.push(0x6e);
    v.push(0x67);
    proof {
        assert(v@ =~= id_drowning());
    }
    v
}

/// The ASCII bytes of `minecraft:starving`.
pub open spec fn id_starving() -> Seq<u8> {
    seq![0x6du8, 0x69u8, 0x6eu8, 0x65u8, 0x63u8, 0x72u8, 0x61u8, 0x66u8, 0x74u8, 0x3au8, 0x73u8, 0x74u8, 0x61u8, 0x72u8, 0x76u8, 0x69u8, 0x6eu8, 0x67u8]
}

/// Build the bytes of `minecraft:starving`.
pub fn make_id_starving() -> (r: Vec<u8>)
    ensures
        r@ == id_starving(),
        r@.len() < 0x8000,
{
    let mut v: Vec<u8> = Vec::new();
    v.push(0x6d);
    v.push(0x69);
    v.push(0x6e);
    v.push(0x65);
    v.push(0x63);
    v.push(0x72);
    v.push(0x61);
    v.push(0x66);
    v.push(0x74);
    v.push(0x3a);
    v.push(0x73);
    v.push(0x74);
    v.push(0x61);
    v.push(0x72);
    v.push(0x76);
    v.push(0x69);
    v.push(0x6e);
    v.push(0x67);
    proof {
        assert(v@ =~= id_starving());
    }
    v
}

/// The ASCII bytes of `minecraft:falling_anvil`.
pub open spec fn id_falling_anvil() -> Seq<u8> {
    seq![0x6du8, 0x69u8, 0x6eu8, 0x65u8, 0x63u8, 0x72u8, 0x61u8, 0x66u8, 0x74u8, 0x3au8, 0x66u8, 0x61u8, 0x6cu8, 0x6cu8, 0x69u8, 0x6eu8, 0x67u8, 0x5fu8, 0x61u8, 0x6eu8, 0x76u8, 0x69u8, 0x6cu8]
}

/// Build the bytes of `minecraft:falling_anvil`.
pub fn make_id_falling_anvil() -> (r: Vec<u8>)
    ensures
        r@ == id_falling_anvil(),
        r@.len() < 0x8000,
{
    let mut v: Vec<u8> = Vec::new();
    v.push(0x6d);
    v.push(0x69);
    v.push(0x6e);
    v.push(0x65);
    v.push(0x63);
    v.push(0x72);
    v.push(0x61);
    v.push(0x66);
    v.push(0x74);
    v.push(0x3a);
    v.push(0x66);
    v.push(0x61);
    v.push(0x6c);
    v.push(0x6c);
    v.push(0x69);
    v.push(0x6e);
    v.push(0x67);
    v.push(0x5f);
    v.push(0x61);
    v.push(0x6e);
    v.push(0x76);
    v.push(0x69);
    v.push(0x6c);
    proof {
        assert(v@ =~= id_falling_anvil());
    }
    v
}

/// The ASCII bytes of `when_caused_by_living_non_player`.
pub open spec fn id_scaling_when_living() -> Seq<u8> {
    seq![0x77u8, 0x68u8, 0x65u8, 0x6eu8, 0x5fu8, 0x63u8, 0x61u8, 0x75u8, 0x73u8, 0x65u8, 0x64u8, 0x5fu8, 0x62u8, 0x79u8, 0x5fu8, 0x6cu8, 0x69u8, 0x76u8, 0x69u8, 0x6eu8, 0x67u8, 0x5fu8, 0x6eu8, 0x6fu8, 0x6eu8, 0x5fu8, 0x70u8, 0x6cu8, 0x61u8, 0x79u8, 0x65u8, 0x72u8]
}

/// Build the bytes of `when_caused_by_living_non_player`.
pub fn make_id_scaling_when_living() -> (r: Vec<u8>)
    ensures
        r@ == id_scaling_when_living(),
        r@.len() < 0x8000,
{
    let mut v: Vec<u8> = Vec::new();
    v.push(0x77);
    v.push(0x68);
    v.push(0x65);
    v.push(0x6e);
    v.push(0x5f);
    v.push(0x63);
    v.push(0x61);
    v.push(0x75);
    v.push(0x73);
    v.push(0x65);
    v.push(0x64);
    v.push(0x5f);
    v.push(0x62);
    v.push(0x79);
    v.push(0x5f);
    v.push(0x6c);
    v.push(0x69);
    v.push(0x76);
    v.push(0x69);
    v.push(0x6e);
    v.push(0x67);
    v.push(0x5f);
    v.push(0x6e);
    v.push(0x6f);
    v.push(0x6e);
    v.push(0x5f);
    v.push(0x70);
    v.push(0x6c);
    v.push(0x61);
    v.push(0x79);
    v.push(0x65);
    v.push(0x72);
    proof {
        assert(v@ =~= id_scaling_when_living());
    }
    v
}

/// The ASCII bytes of `always`.
pub open spec fn id_scaling_always() -> Seq<u8> {
    seq![0x61u8, 0x6cu8, 0x77u8, 0x61u8, 0x79u8, 0x73u8]
}

/// Build the bytes of `always`.
pub fn make_id_scaling_always() -> (r: Vec<u8>)
    ensures
        r@ == id_scaling_always(),
        r@.len() < 0x8000,
{
    let mut v: Vec<u8> = Vec::new();
    v.push(0x61);
    v.push(0x6c);
    v.push(0x77);
    v.push(0x61);
    v.push(0x79);
    v.push(0x73);
    proof {
        assert(v@ =~= id_scaling_always());
    }
    v
}

/// The ASCII bytes of `generic`.
pub open spec fn id_msg_generic() -> Seq<u8> {
    seq![0x67u8, 0x65u8, 0x6eu8, 0x65u8, 0x72u8, 0x69u8, 0x63u8]
}

/// Build the bytes of `generic`.
pub fn make_id_msg_generic() -> (r: Vec<u8>)
    ensures
        r@ == id_msg_generic(),
        r@.len() < 0x8000,
{
    let mut v: Vec<u8> = Vec::new();
    v.push(0x67);
    v.push(0x65);
    v.push(0x6e);
    v.push(0x65);
    v.push(0x72);
    v.push(0x69);
    v.push(0x63);
    proof {
        assert(v@ =~= id_msg_generic());
    }
    v
}

/// The ASCII bytes of `player_attack`.
pub open spec fn id_msg_player_attack() -> Seq<u8> {
    seq![0x70u8, 0x6cu8, 0x61u8, 0x79u8, 0x65u8, 0x72u8, 0x5fu8, 0x61u8, 0x74u8, 0x74u8, 0x61u8, 0x63u8, 0x6bu8]
}

/// Build the bytes of `player_attack`.
pub fn make_id_msg_player_attack() -> (r: Vec<u8>)
    ensures
        r@ == id_msg_player_attack(),
        r@.len() < 0x8000,
{
    let mut v: Vec<u8> = Vec::new();
    v.push(0x70);
    v.push(0x6c);
    v.push(0x61);
    v.push(0x79);
    v.push(0x65);
    v.push(0x72);
    v.push(0x5f);
    v.push(0x61);
    v.push(0x74);
    v.push(0x74);
    v.push(0x61);
    v.push(0x63);
    v.push(0x6b);
    proof {
        assert(v@ =~= id_msg_player_attack());
    }
    v
}

/// The ASCII bytes of `player_knockback`.
pub open spec fn id_msg_player_knockback() -> Seq<u8> {
    seq![0x70u8, 0x6cu8, 0x61u8, 0x79u8, 0x65u8, 0x72u8, 0x5fu8, 0x6bu8, 0x6eu8, 0x6fu8, 0x63u8, 0x6bu8, 0x62u8, 0x61u8, 0x63u8, 0x6bu8]
}

/// Build the bytes of `player_knockback`.
pub fn make_id_msg_player_knockback() -> (r: Vec<u8>)
    ensures
        r@ == id_msg_player_knockback(),
        r@.len() < 0x8000,
{
    let mut v: Vec<u8> = Vec::new();
    v.push(0x70);
    v.push(0x6c);
    v.push(0x61);
    v.push(0x79);
    v.push(0x65);
    v.push(0x72);
    v.push(0x5f);
    v.push(0x6b);
    v.push(0x6e);
    v.push(0x6f);
    v.push(0x63);
    v.push(0x6b);
    v.push(0x62);
    v.push(0x61);
    v.push(0x63);
    v.push(0x6b);
    proof {
        assert(v@ =~= id_msg_player_knockback());
    }
    v
}

/// The ASCII bytes of `world_border`.
pub open spec fn id_msg_world_border() -> Seq<u8> {
    seq![0x77u8, 0x6fu8, 0x72u8, 0x6cu8, 0x64u8, 0x5fu8, 0x62u8, 0x6fu8, 0x72u8, 0x64u8, 0x65u8, 0x72u8]
}

/// Build the bytes of `world_border`.
pub fn make_id_msg_world_border() -> (r: Vec<u8>)
    ensures
        r@ == id_msg_world_border(),
        r@.len() < 0x8000,
{
    let mut v: Vec<u8> = Vec::new();
    v.push(0x77);
    v.push(0x6f);
    v.push(0x72);
    v.push(0x6c);
    v.push(0x64);
    v.push(0x5f);
    v.push(0x62);
    v.push(0x6f);
    v.push(0x72);
    v.push(0x64);
    v.push(0x65);
    v.push(0x72);
    proof {
        assert(v@ =~= id_msg_world_border());
    }
    v
}

/// The ASCII bytes of `falling`.
pub open spec fn id_msg_falling() -> Seq<u8> {
    seq![0x66u8, 0x61u8, 0x6cu8, 0x6cu8, 0x69u8, 0x6eu8, 0x67u8]
}

/// Build the bytes of `falling`.
pub fn make_id_msg_falling() -> (r: Vec<u8>)
    ensures
        r@ == id_msg_falling(),
        r@.len() < 0x8000,
{
    let mut v: Vec<u8> = Vec::new();
    v.push(0x66);
    v.push(0x61);
    v.push(0x6c);
    v.push(0x6c);
    v.push(0x69);
    v.push(0x6e);
    v.push(0x67);
    proof {
        assert(v@ =~= id_msg_falling());
    }
    v
}

/// The ASCII bytes of `suffocation`.
pub open spec fn id_msg_suffocation() -> Seq<u8> {
    seq![0x73u8, 0x75u8, 0x66u8, 0x66u8, 0x6fu8, 0x63u8, 0x61u8, 0x74u8, 0x69u8, 0x6fu8, 0x6eu8]
}

/// Build the bytes of `suffocation`.
pub fn make_id_msg_suffocation() -> (r: Vec<u8>)
    ensures
        r@ == id_msg_suffocation(),
        r@.len() < 0x8000,
{
    let mut v: Vec<u8> = Vec::new();
    v.push(0x73);
    v.push(0x75);
    v.push(0x66);
    v.push(0x66);
    v.push(0x6f);
    v.push(0x63);
    v.push(0x61);
    v.push(0x74);
    v.push(0x69);
    v.push(0x6f);
    v.push(0x6e);
    proof {
        assert(v@ =~= id_msg_suffocation());
    }
    v
}

/// The ASCII bytes of `drowning`.
pub open spec fn id_msg_drowning() -> Seq<u8> {
    seq![0x64u8, 0x72u8, 0x6fu8, 0x77u8, 0x6eu8, 0x69u8, 0x6eu8, 0x67u8]
}

/// Build the bytes of `drowning`.
pub fn make_id_msg_drowning() -> (r: Vec<u8>)
    ensures
        r@ == id_msg_drowning(),
        r@.len() < 0x8000,
{
    let mut v: Vec<u8> = Vec::new();
    v.push(0x64);
    v.push(0x72);
    v.push(0x6f);
    v.push(0x77);
    v.push(0x6e);
    v.push(0x69);
    v.push(0x6e);
    v.push(0x67);
    proof {
        assert(v@ =~= id_msg_drowning());
    }
    v
}

/// The ASCII bytes of `starving`.
pub open spec fn id_msg_starving() -> Seq<u8> {
    seq![0x73u8, 0x74u8, 0x61u8, 0x72u8, 0x76u8, 0x69u8, 0x6eu8, 0x67u8]
}

/// Build the bytes of `starving`.
pub fn make_id_msg_starving() -> (r: Vec<u8>)
    ensures
        r@ == id_msg_starving(),
        r@.len() < 0x8000,
{
    let mut v: Vec<u8> = Vec::new();
    v.push(0x73);
    v.push(0x74);
    v.push(0x61);
    v.push(0x72);
    v.push(0x76);
    v.push(0x69);
    v.push(0x6e);
    v.push(0x67);
    proof {
        assert(v@ =~= id_msg_starving());
    }
    v
}

/// The ASCII bytes of `falling_anvil`.
pub open spec fn id_msg_falling_anvil() -> Seq<u8> {
    seq![0x66u8, 0x61u8, 0x6cu8, 0x6cu8, 0x69u8, 0x6eu8, 0x67u8, 0x5fu8, 0x61u8, 0x6eu8, 0x76u8, 0x69u8, 0x6cu8]
}

/// Build the bytes of `falling_anvil`.
pub fn make_id_msg_falling_anvil() -> (r: Vec<u8>)
    ensures
        r@ == id_msg_falling_anvil(),
        r@.len() < 0x8000,
{
    let mut v: Vec<u8> = Vec::new();
    v.push(0x66);
    v.push(0x61);
    v.push(0x6c);
    v.push(0x6c);
    v.push(0x69);
    v.push(0x6e);
    v.push(0x67);
    v.push(0x5f);
    v.push(0x61);
    v.push(0x6e);
    v.push(0x76);
    v.push(0x69);
    v.push(0x6c);
    proof {
        assert(v@ =~= id_msg_falling_anvil());
    }
    v
}

/// Drives the configuration phase: the registry payloads the server must
/// send before the client may acknowledge and enter Play.
pub struct ConfigurationHandler;

impl ConfigurationHandler {
    /// The dimension-type registry: overworld, nether and end compounds.
    pub fn get_dimension_type_registry() -> (r: Vec<(Vec<u8>, Vec<u8>)>)
        ensures
            r@.len() == 3,
            r@[0].0@ == id_overworld() && r@[0].1@ == spec_dimension_compound(
                id_overworld(), 384i32, -64i32, true, false, false, true, F32_ONE_BITS,
            ),
            r@[1].0@ == id_the_nether() && r@[1].1@ == spec_dimension_compound(
                id_the_nether(), 256i32, 0i32, false, true, true, false, F32_EIGHT_BITS,
            ),
            r@[2].0@ == id_the_end() && r@[2].1@ == spec_dimension_compound(
                id_the_end(), 256i32, 0i32, false, false, false, false, F32_ONE_BITS,
            ),
    {
        let overworld = DimensionCompound::new(make_id_overworld(), 384, -64, true, false, false, true, F32_ONE_BITS);
        let nether = DimensionCompound::new(make_id_the_nether(), 256, 0, false, true, true, false, F32_EIGHT_BITS);
        let the_end = DimensionCompound::new(make_id_the_end(), 256, 0, false, false, false, false, F32_ONE_BITS);
        let mut out: Vec<(Vec<u8>, Vec<u8>)> = Vec::new();
        let nbt = NBTBuilder::dimension_compound(&overworld);
        out.push((make_id_overworld(), nbt));
        let nbt = NBTBuilder::dimension_compound(&nether);
        out.push((make_id_the_nether(), nbt));
        let nbt = NBTBuilder::dimension_compound(&the_end);
        out.push((make_id_the_end(), nbt));
        out
    }

    /// The damage-type registry: the nine damage compounds the client needs.
    pub fn get_damage_type_registry() -> (r: Vec<(Vec<u8>, Vec<u8>)>)
        ensures
            r@.len() == 9,
            r@[0].0@ == id_generic() && r@[0].1@ == spec_damage_type_compound(
                id_msg_generic(), id_scaling_when_living(), F32_ZERO_BITS,
            ),
            r@[1].0@ == id_player_attack() && r@[1].1@ == spec_damage_type_compound(
                id_msg_player_attack(), id_scaling_when_living(), F32_TENTH_BITS,
            ),
            r@[2].0@ == id_player_knockback() && r@[2].1@ == spec_damage_type_compound(
                id_msg_player_knockback(), id_scaling_when_living(), F32_TENTH_BITS,
            ),
            r@[3].0@ == id_world_border() && r@[3].1@ == spec_damage_type_compound(
                id_msg_world_border(), id_scaling_always(), F32_ZERO_BITS,
            ),
            r@[4].0@ == id_falling() && r@[4].1@ == spec_damage_type_compound(
                id_msg_falling(), id_scaling_when_living(), F32_TENTH_BITS,
            ),
            r@[5].0@ == id_suffocation() && r@[5].1@ == spec_damage_type_compound(
                id_msg_suffocation(), id_scaling_always(), F32_ZERO_BITS,
            ),
            r@[6].0@ == id_drowning() && r@[6].1@ == spec_damage_type_compound(
                id_msg_drowning(), id_scaling_always(), F32_ZERO_BITS,
            ),
            r@[7].0@ == id_starving() && r@[7].1@ == spec_damage_type_compound(
                id_msg_starving(), id_scaling_always(), F32_ZERO_BITS,
            ),
            r@[8].0@ == id_falling_anvil() && r@[8].1@ == spec_damage_type_compound(
                id_msg_falling_anvil(), id_scaling_when_living(), F32_TENTH_BITS,
            ),
    {
        let mut out: Vec<(Vec<u8>, Vec<u8>)> = Vec::new();
        let c = DamageTypeCompound::new(make_id_msg_generic(), make_id_scaling_when_living(), F32_ZERO_BITS);
        let nbt = NBTBuilder::damage_type_compound(&c);
        out.push((make_id_generic(), nbt));
        let c = DamageTypeCompound::new(make_id_msg_player_attack(), make_id_scaling_when_living(), F32_TENTH_BITS);
        let nbt = NBTBuilder::damage_type_compound(&c);
        out.push((make_id_player_attack(), nbt));
        let c = DamageTypeCompound::new(make_id_msg_player_knockback(), make_id_scaling_when_living(), F32_TENTH_BITS);
        let nbt = NBTBuilder::damage_type_compound(&c);
        out.push((make_id_player_knockback(), nbt));
        let c = DamageTypeCompound::new(make_id_msg_world_border(), make_id_scaling_always(), F32_ZERO_BITS);
        let nbt = NBTBuilder::damage_type_compound(&c);
        out.push((make_id_world_border(), nbt));
        let c = DamageTypeCompound::new(make_id_msg_falling(), make_id_scaling_when_living(), F32_TENTH_BITS);
        let nbt = NBTBuilder::damage_type_compound(&c);
        out.push((make_id_falling(), nbt));
        let c = DamageTypeCompound::new(make_id_msg_suffocation(), make_id_scaling_always(), F32_ZERO_BITS);
        let nbt = NBTBuilder::damage_type_compound(&c);
        out.push((make_id_suffocation(), nbt));
        let c = DamageTypeCompound::new(make_id_msg_drowning(), make_id_scaling_always(), F32_ZERO_BITS);
        let nbt = NBTBuilder::damage_type_compound(&c);
        out.push((make_id_drowning(), nbt));
        let c = DamageTypeCompound::new(make_id_msg_starving(), make_id_scaling_always(), F32_ZERO_BITS);
        let nbt = NBTBuilder::damage_type_compound(&c);
        out.push((make_id_starving(), nbt));
        let c = DamageTypeCompound::new(make_id_msg_falling_anvil(), make_id_scaling_when_living(), F32_TENTH_BITS);
        let nbt = NBTBuilder::damage_type_compound(&c);
        out.push((make_id_falling_anvil(), nbt));
        out
    }

    /// One Registry Data payload: the registry identifier as a string,
    /// the entry count, then each entry's identifier and its NBT compound
    /// as prefixed-optional bytes (a varint -1 when empty).
    pub fn registry_payload(registry_id: &[u8], entries: &Vec<(Vec<u8>, Vec<u8>)>) -> (r: Vec<u8>)
        requires
            registry_id@.len() <= 0x7fff,
            entries@.len() <= 0x7fff,
            forall|i: int| 0 <= i < entries@.len() ==> (#[trigger] entries@[i]).0@.len() <= 0x7fff
                && entries@[i].1@.len() <= 0x7fff_ffff,
        ensures
            r@ == registry_payload_bytes(registry_id@, entries@),
    {
        let mut w = PacketWriter::new();
        proof {
            assert(u32_of_i32(registry_id@.len() as i32) == registry_id@.len());
            assert(u32_of_i32(entries@.len() as i32) == entries@.len());
        }
        w.write_varint(registry_id.len() as i32);
        w.write_bytes(registry_id);
        w.write_varint(entries.len() as i32);
        let mut i: usize = 0;
        while i < entries.len()
            invariant
                entries@.len() <= 0x7fff,
                forall|t: int| 0 <= t < entries@.len() ==> (#[trigger] entries@[t]).0@.len()
                    <= 0x7fff && entries@[t].1@.len() <= 0x7fff_ffff,
                i <= entries@.len(),
                w.data@ == varint_bytes(registry_id@.len()) + registry_id@ + varint_bytes(
                    entries@.len(),
                ) + entry_list_bytes(entries@.take(i as int)),
            decreases entries@.len() - i,
        {
            proof {
                assert(entries@.take(i + 1).drop_last() =~= entries@.take(i as int));
                assert(entries@.take(i + 1).last() == entries@[i as int]);
                assert(u32_of_i32(entries@[i as int].0@.len() as i32) == entries@[i as int].0@.len());
                assert(u32_of_i32(entries@[i as int].1@.len() as i32) == entries@[i as int].1@.len());
            }
            let entry = &entries[i];
            w.write_varint(entry.0.len() as i32);
            w.write_bytes(entry.0.as_slice());
            if entry.1.len() == 0 {
                w.write_varint(-1);
            } else {
                w.write_varint(entry.1.len() as i32);
                w.write_bytes(entry.1.as_slice());
            }
            i = i + 1;
        }
        proof {
            assert(entries@.take(entries@.len() as int) =~= entries@);
        }
        w.finish()
    }

    /// The framed Registry Data packet (id 0x07).
    pub fn registry_frame(registry_id: &[u8], entries: &Vec<(Vec<u8>, Vec<u8>)>) -> (r: Vec<u8>)
        requires
            registry_id@.len() <= 0x7fff,
            entries@.len() <= 0x7fff,
            forall|i: int| 0 <= i < entries@.len() ==> (#[trigger] entries@[i]).0@.len() <= 0x7fff
                && entries@[i].1@.len() <= 0x7fff_ffff,
            registry_payload_bytes(registry_id@, entries@).len() + 5 <= 0x7fff_ffff,
        ensures
            r@ == frame_bytes(0x07, registry_payload_bytes(registry_id@, entries@)),
    {
        let payload = Self::registry_payload(registry_id, entries);
        encode_frame(0x07, payload.as_slice())
    }

    /// The framed Finish Configuration packet (id 0x03, no payload).
    pub fn finish_configuration_frame() -> (r: Vec<u8>)
        ensures
            r@ == frame_bytes(0x03, Seq::<u8>::empty()),
    {
        let payload: Vec<u8> = Vec::new();
        let r = encode_frame(0x03, payload.as_slice());
        r
    }
}

/// One registry entry: the identifier as a string, then the compound as
/// prefixed-optional bytes.
pub open spec fn entry_bytes(e: (Vec<u8>, Vec<u8>)) -> Seq<u8> {
    varint_bytes(e.0@.len()) + e.0@ + if e.1@.len() == 0 {
        varint_bytes(u32_of_i32(-1i32))
    } else {
        varint_bytes(e.1@.len()) + e.1@
    }
}

/// All entries of a registry payload, in order.
pub open spec fn entry_list_bytes(entries: Seq<(Vec<u8>, Vec<u8>)>) -> Seq<u8>
    decreases entries.len(),
{
    if entries.len() == 0 {
        Seq::empty()
    } else {
        entry_list_bytes(entries.drop_last()) + entry_bytes(entries.last())
    }
}

/// A whole Registry Data payload.
pub open spec fn registry_payload_bytes(registry_id: Seq<u8>, entries: Seq<(Vec<u8>, Vec<u8>)>) -> Seq<u8> {
    varint_bytes(registry_id.len()) + registry_id + varint_bytes(entries.len()) + entry_list_bytes(
        entries,
    )
}

} // verus!
