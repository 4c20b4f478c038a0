use vstd::prelude::*;
use crate::serialization::{be_bytes, be_encode, lemma_pow256_16};
use crate::varint::u32_of_i32;

verus! {

/// One byte standing for a boolean NBT flag.
pub open spec fn b2u8(b: bool) -> u8 {
    if b {
        1
    } else {
        0
    }
}

/// Whether `needle` occurs as a contiguous run inside `hay`.
pub open spec fn contains_sub(hay: Seq<u8>, needle: Seq<u8>) -> bool {
    exists|k: int|
        0 <= k <= hay.len() - needle.len() && #[trigger] hay.subrange(k, k + needle.len())
            == needle
}

/// Whether `needle` matches `hay` at offset `k`.
fn matches_at(hay: &[u8], needle: &[u8], k: usize) -> (r: bool)
    requires
        k + needle@.len() <= hay@.len(),
    ensures
        r == (hay@.subrange(k as int, k + needle@.len()) == needle@),
{
    let total = hay.len();
    let mut j: usize = 0;
    while j < needle.len()
        invariant
            k + needle@.len() <= hay@.len(),
            hay@.len() == total,
            j <= needle@.len(),
            forall|t: int| 0 <= t < j ==> hay@[k + t] == needle@[t],
        decreases needle@.len() - j,
    {
        if hay[k + j] != needle[j] {
            proof {
                assert(hay@.subrange(k as int, k + needle@.len())[j as int] == hay@[k + j]);
            }
            return false;
        }
        j = j + 1;
    }
    proof {
        assert(hay@.subrange(k as int, k + needle@.len()) =~= needle@);
    }
    true
}

/// Search for a byte substring.
pub fn bytes_contains(hay: &[u8], needle: &[u8]) -> (r: bool)
    ensures
        r == contains_sub(hay@, needle@),
{
    if needle.len() > hay.len() {
        proof {
            assert(!contains_sub(hay@, needle@));
        }
        return false;
    }
    if needle.len() == 0 {
        proof {
            assert(hay@.subrange(0, 0 + needle@.len() as int) =~= needle@);
        }
        return true;
    }
    let total = hay.len();
    let last = hay.len() - needle.len();
    let mut k: usize = 0;
    while k <= last
        invariant
            1 <= needle@.len() <= hay@.len(),
            hay@.len() == total,
            last == hay@.len() - needle@.len(),
            k <= last + 1,
            forall|t: int|
                0 <= t < k ==> #[trigger] hay@.subrange(t, t + needle@.len()) != needle@,
        decreases last + 1 - k,
    {
        if matches_at(hay, needle, k) {
            return true;
        }
        k = k + 1;
    }
    proof {
        if contains_sub(hay@, needle@) {
            let t = choose|t: int|
                0 <= t <= hay@.len() - needle@.len() && #[trigger] hay@.subrange(
                    t,
                    t + needle@.len(),
                ) == needle@;
            assert(hay@.subrange(t, t + needle@.len()) != needle@);
        }
    }
    false
}

/// TAG_Byte: tag, big-endian name length, name, one byte.
pub open spec fn nbt_byte_tag(name: Seq<u8>, v: u8) -> Seq<u8> {
    seq![0x01u8] + be_bytes(name.len(), 2) + name + seq![v]
}

/// TAG_Int: tag, name, four big-endian bytes.
pub open spec fn nbt_int_tag(name: Seq<u8>, v: i32) -> Seq<u8> {
    seq![0x03u8] + be_bytes(name.len(), 2) + name + be_bytes(u32_of_i32(v), 4)
}

/// TAG_Float: tag, name, the IEEE-754 bits big-endian.
pub open spec fn nbt_float_tag(name: Seq<u8>, bits: u32) -> Seq<u8> {
    seq![0x05u8] + be_bytes(name.len(), 2) + name + be_bytes(bits as nat, 4)
}

/// TAG_String: tag, name, big-endian value length, value bytes.
pub open spec fn nbt_string_tag(name: Seq<u8>, value: Seq<u8>) -> Seq<u8> {
    seq![0x08u8] + be_bytes(name.len(), 2) + name + be_bytes(value.len(), 2) + value
}

fn put_compound_head(out: &mut Vec<u8>)
    ensures
        final(out)@ == old(out)@ + seq![0x0au8, 0x00u8, 0x00u8],
{
    out.push(0x0a);
    out.push(0x00);
    out.push(0x00);
    proof {
        assert(out@ =~= old(out)@ + seq![0x0au8, 0x00u8, 0x00u8]);
    }
}

fn put_end(out: &mut Vec<u8>)
    ensures
        final(out)@ == old(out)@ + seq![0x00u8],
{
    out.push(0x00);
    proof {
        assert(out@ =~= old(out)@ + seq![0x00u8]);
    }
}

fn put_byte_tag(out: &mut Vec<u8>, name: &[u8], v: u8)
    requires
        name@.len() < 0x8000,
    ensures
        final(out)@ == old(out)@ + nbt_byte_tag(name@, v),
{
    proof {
        lemma_pow256_16();
    }
    out.push(0x01);
    be_encode(name.len() as u128, 2, out);
    out.extend_from_slice(name);
    out.push(v);
    proof {
        assert(out@ =~= old(out)@ + nbt_byte_tag(name@, v));
    }
}

fn put_int_tag(out: &mut Vec<u8>, name: &[u8], v: i32)
    requires
        name@.len() < 0x8000,
    ensures
        final(out)@ == old(out)@ + nbt_int_tag(name@, v),
{
    proof {
        lemma_pow256_16();
    }
    out.push(0x03);
    be_encode(name.len() as u128, 2, out);
    out.extend_from_slice(name);
    let mut enc = crate::serialization::int32(v);
    out.append(&mut enc);
    proof {
        assert(out@ =~= old(out)@ + nbt_int_tag(name@, v));
    }
}

fn put_float_tag(out: &mut Vec<u8>, name: &[u8], bits: u32)
    requires
        name@.len() < 0x8000,
    ensures
        final(out)@ == old(out)@ + nbt_float_tag(name@, bits),
{
    proof {
        lemma_pow256_16();
    }
    out.push(0x05);
    be_encode(name.len() as u128, 2, out);
    out.extend_from_slice(name);
    be_encode(bits as u128, 4, out);
    proof {
        assert(out@ =~= old(out)@ + nbt_float_tag(name@, bits));
    }
}

fn put_string_tag(out: &mut Vec<u8>, name: &[u8], value: &[u8])
    requires
        name@.len() < 0x8000,
        value@.len() < 0x8000,
    ensures
        final(out)@ == old(out)@ + nbt_string_tag(name@, value@),
{
    proof {
        lemma_pow256_16();
    }
    out.push(0x08);
    be_encode(name.len() as u128, 2, out);
    out.extend_from_slice(name);
    be_encode(value.len() as u128, 2, out);
    out.extend_from_slice(value);
    proof {
        assert(out@ =~= old(out)@ + nbt_string_tag(name@, value@));
    }
}

/// The ASCII bytes of the tag name `bed_works`.
pub open spec fn tn_bed_works() -> Seq<u8> {
    seq![0x62u8, 0x65u8, 0x64u8, 0x5fu8, 0x77u8, 0x6fu8, 0x72u8, 0x6bu8, 0x73u8]
}

fn make_tn_bed_works() -> (r: Vec<u8>)
    ensures
        r@ == tn_bed_works(),
        r@.len() < 0x8000,
{
    let mut v: Vec<u8> = Vec::new();
    v.push(0x62);
    v.push(0x65);
    v.push(0x64);
    v.push(0x5f);
    v.push(0x77);
    v.push(0x6f);
    v.push(0x72);
    v.push(0x6b);
    v.push(0x73);
    proof {
        assert(v@ =~= tn_bed_works());
    }
    v
}

/// The ASCII bytes of the tag name `has_ceiling`.
pub open spec fn tn_has_ceiling() -> Seq<u8> {
    seq![0x68u8, 0x61u8, 0x73u8, 0x5fu8, 0x63u8, 0x65u8, 0x69u8, 0x6cu8, 0x69u8, 0x6eu8, 0x67u8]
}

fn make_tn_has_ceiling() -> (r: Vec<u8>)
    ensures
        r@ == tn_has_ceiling(),
        r@.len() < 0x8000,
{
    let mut v: Vec<u8> = Vec::new();
    v.push(0x68);
    v.push(0x61);
    v.push(0x73);
    v.push(0x5f);
    v.push(0x63);
    v.push(0x65);
    v.push(0x69);
    v.push(0x6c);
    v.push(0x69);
    v.push(0x6e);
    v.push(0x67);
    proof {
        assert(v@ =~= tn_has_ceiling());
    }
    v
}

/// The ASCII bytes of the tag name `has_skylight`.
pub open spec fn tn_has_skylight() -> Seq<u8> {
    seq![0x68u8, 0x61u8, 0x73u8, 0x5fu8, 0x73u8, 0x6bu8, 0x79u8, 0x6cu8, 0x69u8, 0x67u8, 0x68u8, 0x74u8]
}

fn make_tn_has_skylight() -> (r: Vec<u8>)
    ensures
        r@ == tn_has_skylight(),
        r@.len() < 0x8000,
{
    let mut v: Vec<u8> = Vec::new();
    v.push(0x68);
    v.push(0x61);
    v.push(0x73);
    v.push(0x5f);
    v.push(0x73);
    v.push(0x6b);
    v.push(0x79);
    v.push(0x6c);
    v.push(0x69);
    v.push(0x67);
    v.push(0x68);
    v.push(0x74);
    proof {
        assert(v@ =~= tn_has_skylight());
    }
    v
}

/// The ASCII bytes of the tag name `has_raids`.
pub open spec fn tn_has_raids() -> Seq<u8> {
    seq![0x68u8, 0x61u8, 0x73u8, 0x5fu8, 0x72u8, 0x61u8, 0x69u8, 0x64u8, 0x73u8]
}

fn make_tn_has_raids() -> (r: Vec<u8>)
    ensures
        r@ == tn_has_raids(),
        r@.len() < 0x8000,
{
    let mut v: Vec<u8> = Vec::new();
    v.push(0x68);
    v.push(0x61);
    v.push(0x73);
    v.push(0x5f);
    v.push(0x72);
    v.push(0x61);
    v.push(0x69);
    v.push(0x64);
    v.push(0x73);
    proof {
        assert(v@ =~= tn_has_raids());
    }
    v
}

/// The ASCII bytes of the tag name `height`.
pub open spec fn tn_height() -> Seq<u8> {
    seq![0x68u8, 0x65u8, 0x69u8, 0x67u8, 0x68u8, 0x74u8]
}

fn make_tn_height() -> (r: Vec<u8>)
    ensures
        r@ == tn_height(),
        r@.len() < 0x8000,
{
    let mut v: Vec<u8> = Vec::new();
    v.push(0x68);
    v.push(0x65);
    v.push(0x69);
    v.push(0x67);
    v.push(0x68);
    v.push(0x74);
    proof {
        assert(v@ =~= tn_height());
    }
    v
}

/// The ASCII bytes of the tag name `logical_height`.
pub open spec fn tn_logical_height() -> Seq<u8> {
    seq![0x6cu8, 0x6fu8, 0x67u8, 0x69u8, 0x63u8, 0x61u8, 0x6cu8, 0x5fu8, 0x68u8, 0x65u8, 0x69u8, 0x67u8, 0x68u8, 0x74u8]
}

fn make_tn_logical_height() -> (r: Vec<u8>)
    ensures
        r@ == tn_logical_height(),
        r@.len() < 0x8000,
{
    let mut v: Vec<u8> = Vec::new();
    v.push(0x6c);
    v.push(0x6f);
    v.push(0x67);
    v.push(0x69);
    v.push(0x63);
    v.push(0x61);
    v.push(0x6c);
    v.push(0x5f);
    v.push(0x68);
    v.push(0x65);
    v.push(0x69);
    v.push(0x67);
    v.push(0x68);
    v.push(0x74);
    proof {
        assert(v@ =~= tn_logical_height());
    }
    v
}

/// The ASCII bytes of the tag name `min_y`.
pub open spec fn tn_min_y() -> Seq<u8> {
    seq![0x6du8, 0x69u8, 0x6eu8, 0x5fu8, 0x79u8]
}

fn make_tn_min_y() -> (r: Vec<u8>)
    ensures
        r@ == tn_min_y(),
        r@.len() < 0x8000,
{
    let mut v: Vec<u8> = Vec::new();
    v.push(0x6d);
    v.push(0x69);
    v.push(0x6e);
    v.push(0x5f);
    v.push(0x79);
    proof {
        assert(v@ =~= tn_min_y());
    }
    v
}

/// The ASCII bytes of the tag name `ultrawarm`.
pub open spec fn tn_ultrawarm() -> Seq<u8> {
    seq![0x75u8, 0x6cu8, 0x74u8, 0x72u8, 0x61u8, 0x77u8, 0x61u8, 0x72u8, 0x6du8]
}

fn make_tn_ultrawarm() -> (r: Vec<u8>)
    ensures
        r@ == tn_ultrawarm(),
        r@.len() < 0x8000,
{
    let mut v: Vec<u8> = Vec::new();
    v.push(0x75);
    v.push(0x6c);
    v.push(0x74);
    v.push(0x72);
    v.push(0x61);
    v.push(0x77);
    v.push(0x61);
    v.push(0x72);
    v.push(0x6d);
    proof {
        assert(v@ =~= tn_ultrawarm());
    }
    v
}

/// The ASCII bytes of the tag name `natural`.
pub open spec fn tn_natural() -> Seq<u8> {
    seq![0x6eu8, 0x61u8, 0x74u8, 0x75u8, 0x72u8, 0x61u8, 0x6cu8]
}

fn make_tn_natural() -> (r: Vec<u8>)
    ensures
        r@ == tn_natural(),
        r@.len() < 0x8000,
{
    let mut v: Vec<u8> = Vec::new();
    v.push(0x6e);
    v.push(0x61);
    v.push(0x74);
    v.push(0x75);
    v.push(0x72);
    v.push(0x61);
    v.push(0x6c);
    proof {
        assert(v@ =~= tn_natural());
    }
    v
}

/// The ASCII bytes of the tag name `coordinate_scale`.
pub open spec fn tn_coordinate_scale() -> Seq<u8> {
    seq![0x63u8, 0x6fu8, 0x6fu8, 0x72u8, 0x64u8, 0x69u8, 0x6eu8, 0x61u8, 0x74u8, 0x65u8, 0x5fu8, 0x73u8, 0x63u8, 0x61u8, 0x6cu8, 0x65u8]
}

fn make_tn_coordinate_scale() -> (r: Vec<u8>)
    ensures
        r@ == tn_coordinate_scale(),
        r@.len() < 0x8000,
{
    let mut v: Vec<u8> = Vec::new();
    v.push(0x63);
    v.push(0x6f);
    v.push(0x6f);
    v.push(0x72);
    v.push(0x64);
    v.push(0x69);
    v.push(0x6e);
    v.push(0x61);
    v.push(0x74);
    v.push(0x65);
    v.push(0x5f);
    v.push(0x73);
    v.push(0x63);
    v.push(0x61);
    v.push(0x6c);
    v.push(0x65);
    proof {
        assert(v@ =~= tn_coordinate_scale());
    }
    v
}

/// The ASCII bytes of the tag name `piglin_safe`.
pub open spec fn tn_piglin_safe() -> Seq<u8> {
    seq![0x70u8, 0x69u8, 0x67u8, 0x6cu8, 0x69u8, 0x6eu8, 0x5fu8, 0x73u8, 0x61u8, 0x66u8, 0x65u8]
}

fn make_tn_piglin_safe() -> (r: Vec<u8>)
    ensures
        r@ == tn_piglin_safe(),
        r@.len() < 0x8000,
{
    let mut v: Vec<u8> = Vec::new();
    v.push(0x70);
    v.push(0x69);
    v.push(0x67);
    v.push(0x6c);
    v.push(0x69);
    v.push(0x6e);
    v.push(0x5f);
    v.push(0x73);
    v.push(0x61);
    v.push(0x66);
    v.push(0x65);
    proof {
        assert(v@ =~= tn_piglin_safe());
    }
    v
}

/// The ASCII bytes of the tag name `respawn_anchor_works`.
pub open spec fn tn_respawn_anchor_works() -> Seq<u8> {
    seq![0x72u8, 0x65u8, 0x73u8, 0x70u8, 0x61u8, 0x77u8, 0x6eu8, 0x5fu8, 0x61u8, 0x6eu8, 0x63u8, 0x68u8, 0x6fu8, 0x72u8, 0x5fu8, 0x77u8, 0x6fu8, 0x72u8, 0x6bu8, 0x73u8]
}

fn make_tn_respawn_anchor_works() -> (r: Vec<u8>)
    ensures
        r@ == tn_respawn_anchor_works(),
        r@.len() < 0x8000,
{
    let mut v: Vec<u8> = Vec::new();
    v.push(0x72);
    v.push(0x65);
    v.push(0x73);
    v.push(0x70);
    v.push(0x61);
    v.push(0x77);
    v.push(0x6e);
    v.push(0x5f);
    v.push(0x61);
    v.push(0x6e);
    v.push(0x63);
    v.push(0x68);
    v.push(0x6f);
    v.push(0x72);
    v.push(0x5f);
    v.push(0x77);
    v.push(0x6f);
    v.push(0x72);
    v.push(0x6b);
    v.push(0x73);
    proof {
        assert(v@ =~= tn_respawn_anchor_works());
    }
    v
}

/// The ASCII bytes of the tag name `exhaustion`.
pub open spec fn tn_exhaustion() -> Seq<u8> {
    seq![0x65u8, 0x78u8, 0x68u8, 0x61u8, 0x75u8, 0x73u8, 0x74u8, 0x69u8, 0x6fu8, 0x6eu8]
}

fn make_tn_exhaustion() -> (r: Vec<u8>)
    ensures
        r@ == tn_exhaustion(),
        r@.len() < 0x8000,
{
    let mut v: Vec<u8> = Vec::new();
    v.push(0x65);
    v.push(0x78);
    v.push(0x68);
    v.push(0x61);
    v.push(0x75);
    v.push(0x73);
    v.push(0x74);
    v.push(0x69);
    v.push(0x6f);
    v.push(0x6e);
    proof {
        assert(v@ =~= tn_exhaustion());
    }
    v
}

/// The ASCII bytes of the tag name `message_id`.
pub open spec fn tn_message_id() -> Seq<u8> {
    seq![0x6du8, 0x65u8, 0x73u8, 0x73u8, 0x61u8, 0x67u8, 0x65u8, 0x5fu8, 0x69u8, 0x64u8]
}

fn make_tn_message_id() -> (r: Vec<u8>)
    ensures
        r@ == tn_message_id(),
        r@.len() < 0x8000,
{
    let mut v: Vec<u8> = Vec::new();
    v.push(0x6d);
    v.push(0x65);
    v.push(0x73);
    v.push(0x73);
    v.push(0x61);
    v.push(0x67);
    v.push(0x65);
    v.push(0x5f);
    v.push(0x69);
    v.push(0x64);
    proof {
        assert(v@ =~= tn_message_id());
    }
    v
}

/// The ASCII bytes of the tag name `scaling`.
pub open spec fn tn_scaling() -> Seq<u8> {
    seq![0x73u8, 0x63u8, 0x61u8, 0x6cu8, 0x69u8, 0x6eu8, 0x67u8]
}

fn make_tn_scaling() -> (r: Vec<u8>)
    ensures
        r@ == tn_scaling(),
        r@.len() < 0x8000,
{
    let mut v: Vec<u8> = Vec::new();
    v.push(0x73);
    v.push(0x63);
    v.push(0x61);
    v.push(0x6c);
    v.push(0x69);
    v.push(0x6e);
    v.push(0x67);
    proof {
        assert(v@ =~= tn_scaling());
    }
    v
}

/// The byte needle `nether`.
pub open spec fn needle_nether() -> Seq<u8> {
    seq![0x6eu8, 0x65u8, 0x74u8, 0x68u8, 0x65u8, 0x72u8]
}

fn make_needle_nether() -> (r: Vec<u8>)
    ensures
        r@ == needle_nether(),
{
    let mut v: Vec<u8> = Vec::new();
    v.push(0x6e);
    v.push(0x65);
    v.push(0x74);
    v.push(0x68);
    v.push(0x65);
    v.push(0x72);
    proof {
        assert(v@ =~= needle_nether());
    }
    v
}

/// The byte needle `end`.
pub open spec fn needle_end() -> Seq<u8> {
    seq![0x65u8, 0x6eu8, 0x64u8]
}

fn make_needle_end() -> (r: Vec<u8>)
    ensures
        r@ == needle_end(),
{
    let mut v: Vec<u8> = Vec::new();
    v.push(0x65);
    v.push(0x6e);
    v.push(0x64);
    proof {
        assert(v@ =~= needle_end());
    }
    v
}

/// A dimension's registry properties. The name steers a few derived flags
/// (beds and respawn anchors, raids); the coordinate scale rides along as
/// its IEEE-754 bits.
#[derive(Debug)]
pub struct DimensionCompound {
    pub name: Vec<u8>,
    pub height: i32,
    pub min_y: i32,
    pub has_skylight: bool,
    pub has_ceiling: bool,
    pub ultrawarm: bool,
    pub natural: bool,
    pub coordinate_scale_bits: u32,
}

impl DimensionCompound {
    #[allow(clippy::too_many_arguments)]
    pub fn new(
        name: Vec<u8>,
        height: i32,
        min_y: i32,
        has_skylight: bool,
        has_ceiling: bool,
        ultrawarm: bool,
        natural: bool,
        coordinate_scale_bits: u32,
    ) -> (r: Self)
        ensures
            r.name@ == name@,
            r.height == height,
            r.min_y == min_y,
            r.has_skylight == has_skylight,
            r.has_ceiling == has_ceiling,
            r.ultrawarm == ultrawarm,
            r.natural == natural,
            r.coordinate_scale_bits == coordinate_scale_bits,
    {
        DimensionCompound {
            name,
            height,
            min_y,
            has_skylight,
            has_ceiling,
            ultrawarm,
            natural,
            coordinate_scale_bits,
        }
    }
}

/// A damage type's registry properties; the exhaustion rides along as its
/// IEEE-754 bits.
#[derive(Debug)]
pub struct DamageTypeCompound {
    pub message_id: Vec<u8>,
    pub scaling: Vec<u8>,
    pub exhaustion_bits: u32,
}

impl DamageTypeCompound {
    pub fn new(message_id: Vec<u8>, scaling: Vec<u8>, exhaustion_bits: u32) -> (r: Self)
        ensures
            r.message_id@ == message_id@,
            r.scaling@ == scaling@,
            r.exhaustion_bits == exhaustion_bits,
    {
        DamageTypeCompound { message_id, scaling, exhaustion_bits }
    }
}

/// The full dimension-type compound: a root compound with an empty name,
/// the flag, height and scale tags, then TAG_End.
pub open spec fn spec_dimension_compound(
    name: Seq<u8>,
    height: i32,
    min_y: i32,
    has_skylight: bool,
    has_ceiling: bool,
    ultrawarm: bool,
    natural: bool,
    coordinate_scale_bits: u32,
) -> Seq<u8> {
    seq![0x0au8, 0x00u8, 0x00u8] + nbt_byte_tag(
        tn_bed_works(),
        if contains_sub(name, needle_nether()) || contains_sub(name, needle_end()) {
            0u8
        } else {
            1u8
        },
    ) + nbt_byte_tag(tn_has_ceiling(), b2u8(has_ceiling)) + nbt_byte_tag(
        tn_has_skylight(),
        b2u8(has_skylight),
    ) + nbt_byte_tag(
        tn_has_raids(),
        if contains_sub(name, needle_end()) {
            0u8
        } else {
            1u8
        },
    ) + nbt_int_tag(tn_height(), height) + nbt_int_tag(tn_logical_height(), height) + nbt_int_tag(
        tn_min_y(),
        min_y,
    ) + nbt_byte_tag(tn_ultrawarm(), b2u8(ultrawarm)) + nbt_byte_tag(tn_natural(), b2u8(natural))
        + nbt_float_tag(tn_coordinate_scale(), coordinate_scale_bits) + nbt_byte_tag(
        tn_piglin_safe(),
        0u8,
    ) + nbt_byte_tag(
        tn_respawn_anchor_works(),
        if contains_sub(name, needle_nether()) {
            1u8
        } else {
            0u8
        },
    ) + seq![0x00u8]
}

/// The full damage-type compound: exhaustion, message id and scaling tags
/// under a root compound with an empty name.
pub open spec fn spec_damage_type_compound(
    message_id: Seq<u8>,
    scaling: Seq<u8>,
    exhaustion_bits: u32,
) -> Seq<u8> {
    seq![0x0au8, 0x00u8, 0x00u8] + nbt_float_tag(tn_exhaustion(), exhaustion_bits)
        + nbt_string_tag(tn_message_id(), message_id) + nbt_string_tag(tn_scaling(), scaling)
        + seq![0x00u8]
}

/// Builds the small NBT fragments the registry packets carry. The codec
/// constructs these compounds and never parses them.
#[derive(Debug)]
pub struct NBTBuilder {
    pub data: Vec<u8>,
}

impl Default for NBTBuilder {
    fn default() -> (r: Self)
        ensures
            r.data@ == Seq::<u8>::empty(),
    {
        NBTBuilder { data: Vec::new() }
    }
}

impl NBTBuilder {
    pub fn new() -> (r: Self)
        ensures
            r.data@ == Seq::<u8>::empty(),
    {
        NBTBuilder { data: Vec::new() }
    }

    /// An empty root compound: TAG_Compound, a two-byte empty name, TAG_End.
    pub fn empty_compound() -> (r: Vec<u8>)
        ensures
            r@ == seq![0x0au8, 0x00u8, 0x00u8, 0x00u8],
    {
        let mut v: Vec<u8> = Vec::new();
        v.push(0x0a);
        v.push(0x00);
        v.push(0x00);
        v.push(0x00);
        proof {
            assert(v@ =~= seq![0x0au8, 0x00u8, 0x00u8, 0x00u8]);
        }
        v
    }

    /// Serialize a dimension-type compound.
    #[verifier::rlimit(100)]
    pub fn dimension_compound(dc: &DimensionCompound) -> (r: Vec<u8>)
        ensures
            r@ == spec_dimension_compound(
                dc.name@,
                dc.height,
                dc.min_y,
                dc.has_skylight,
                dc.has_ceiling,
                dc.ultrawarm,
                dc.natural,
                dc.coordinate_scale_bits,
            ),
    {
        let mut out: Vec<u8> = Vec::new();
        put_compound_head(&mut out);
        let nether = make_needle_nether();
        let the_end = make_needle_end();
        let in_nether = bytes_contains(dc.name.as_slice(), nether.as_slice());
        let in_end = bytes_contains(dc.name.as_slice(), the_end.as_slice());
        let name = make_tn_bed_works();
        put_byte_tag(&mut out, name.as_slice(), if in_nether || in_end { 0 } else { 1 });
        let name = make_tn_has_ceiling();
        put_byte_tag(&mut out, name.as_slice(), if dc.has_ceiling { 1 } else { 0 });
        let name = make_tn_has_skylight();
        put_byte_tag(&mut out, name.as_slice(), if dc.has_skylight { 1 } else { 0 });
        let name = make_tn_has_raids();
        put_byte_tag(&mut out, name.as_slice(), if in_end { 0 } else { 1 });
        let name = make_tn_height();
        put_int_tag(&mut out, name.as_slice(), dc.height);
        let name = make_tn_logical_height();
        put_int_tag(&mut out, name.as_slice(), dc.height);
        let name = make_tn_min_y();
        put_int_tag(&mut out, name.as_slice(), dc.min_y);
        let name = make_tn_ultrawarm();
        put_byte_tag(&mut out, name.as_slice(), if dc.ultrawarm { 1 } else { 0 });
        let name = make_tn_natural();
        put_byte_tag(&mut out, name.as_slice(), if dc.natural { 1 } else { 0 });
        let name = make_tn_coordinate_scale();
        put_float_tag(&mut out, name.as_slice(), dc.coordinate_scale_bits);
        let name = make_tn_piglin_safe();
        put_byte_tag(&mut out, name.as_slice(), 0);
        let name = make_tn_respawn_anchor_works();
        put_byte_tag(&mut out, name.as_slice(), if in_nether { 1 } else { 0 });
        put_end(&mut out);
        proof {
            assert(Seq::<u8>::empty() + seq![0x0au8, 0x00u8, 0x00u8] =~= seq![
                0x0au8,
                0x00u8,
                0x00u8,
            ]);
        }
        out
    }

    /// Serialize a damage-type compound.
    pub fn damage_type_compound(dt: &DamageTypeCompound) -> (r: Vec<u8>)
        requires
            dt.message_id@.len() < 0x8000,
            dt.scaling@.len() < 0x8000,
        ensures
            r@ == spec_damage_type_compound(dt.message_id@, dt.scaling@, dt.exhaustion_bits),
    {
        let mut out: Vec<u8> = Vec::new();
        put_compound_head(&mut out);
        let name = make_tn_exhaustion();
        put_float_tag(&mut out, name.as_slice(), dt.exhaustion_bits);
        let name = make_tn_message_id();
        put_string_tag(&mut out, name.as_slice(), dt.message_id.as_slice());
        let name = make_tn_scaling();
        put_string_tag(&mut out, name.as_slice(), dt.scaling.as_slice());
        put_end(&mut out);
        proof {
            assert(Seq::<u8>::empty() + seq![0x0au8, 0x00u8, 0x00u8] =~= seq![
                0x0au8,
                0x00u8,
                0x00u8,
            ]);
        }
        out
    }
}

} // verus!
