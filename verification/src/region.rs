use vstd::prelude::*;
use crate::chunk::{
    block_index, chunk_coord_to_region, spec_block_code, spec_block_from_u16, BlockType, Chunk,
    ChunkPos,
};
use crate::serialization::{le_bytes, le_value};
use crate::text::{ascii_to_string, chars_of_ascii, dec_bytes, dec_digits, i64_to_dec};
use crate::varint::{i32_from_u32, i32_of_sum, u32_from_i32, u32_of_i32, DecodeError};

verus! {

/// Bound on valid chunk coordinates: the world spans this many chunks
/// centered on the origin, on each axis.
pub const WORLD_MAX_CHUNKS: i32 = 10240;

/// Side length of a region in chunks.
pub const WORLD_REGION_SIZE: i32 = 32;

/// A region coordinate: each region covers a 32 x 32 tile of chunks.
#[derive(Debug, Clone, Copy, PartialEq, Eq, Hash, Structural)]
pub struct RegionPos {
    pub x: i32,
    pub z: i32,
}

/// Region coordinates whose chunk corners stay within `i32`. Every region
/// derived from a chunk coordinate lies in this range.
pub open spec fn region_in_i32_range(rp: RegionPos) -> bool {
    &&& -0x0400_0000 <= rp.x <= 0x03ff_ffff
    &&& -0x0400_0000 <= rp.z <= 0x03ff_ffff
}

/// A region is valid when its minimum and maximum chunk corners both fall
/// within half the world bound on each axis.
pub open spec fn spec_region_valid(rp: RegionPos) -> bool {
    &&& -5120 <= 32 * rp.x
    &&& 32 * rp.x + 31 < 5120
    &&& -5120 <= 32 * rp.z
    &&& 32 * rp.z + 31 < 5120
}

/// The slot a chunk coordinate occupies inside a region: `z` local row
/// times 32 plus `x` local column, when the chunk lies in the region.
pub open spec fn spec_chunk_offset(rp: RegionPos, cx: int, cz: int) -> Option<int> {
    let lx = cx - 32 * rp.x;
    let lz = cz - 32 * rp.z;
    if 0 <= lx < 32 && 0 <= lz < 32 {
        Some(lz * 32 + lx)
    } else {
        None
    }
}

impl RegionPos {
    pub fn new(x: i32, z: i32) -> (r: Self)
        ensures
            r.x == x,
            r.z == z,
    {
        RegionPos { x, z }
    }

    /// The region that holds a chunk coordinate: floor division by 32.
    pub fn from_chunk(chunk_x: i32, chunk_z: i32) -> (r: Self)
        ensures
            r.x == chunk_x as int / 32,
            r.z == chunk_z as int / 32,
            region_in_i32_range(r),
    {
        let r = RegionPos { x: chunk_coord_to_region(chunk_x), z: chunk_coord_to_region(chunk_z) };
        proof {
            vstd::arithmetic::div_mod::lemma_fundamental_div_mod(chunk_x as int, 32);
            vstd::arithmetic::div_mod::lemma_fundamental_div_mod(chunk_z as int, 32);
        }
        r
    }

    /// The chunk coordinate of the region's minimum corner.
    pub fn min_chunk(&self) -> (r: (i32, i32))
        requires
            region_in_i32_range(*self),
        ensures
            r.0 == 32 * self.x,
            r.1 == 32 * self.z,
    {
        (self.x * 32, self.z * 32)
    }

    /// The chunk coordinate of the region's maximum corner.
    pub fn max_chunk(&self) -> (r: (i32, i32))
        requires
            region_in_i32_range(*self),
        ensures
            r.0 == 32 * self.x + 31,
            r.1 == 32 * self.z + 31,
    {
        let mx = ((self.x as i64 + 1) * 32 - 1) as i32;
        let mz = ((self.z as i64 + 1) * 32 - 1) as i32;
        (mx, mz)
    }

    /// The slot index of a chunk coordinate within this region, if it lies
    /// inside the region's 32 x 32 tile.
    pub fn chunk_offset(&self, chunk_x: i32, chunk_z: i32) -> (r: Option<usize>)
        requires
            region_in_i32_range(*self),
        ensures
            r == match spec_chunk_offset(*self, chunk_x as int, chunk_z as int) {
                Some(i) => Some(i as usize),
                None => None::<usize>,
            },
            r is Some ==> 0 <= r.unwrap() < 1024,
    {
        let (min_x, min_z) = self.min_chunk();
        let local_x = (chunk_x as i64) - (min_x as i64);
        let local_z = (chunk_z as i64) - (min_z as i64);
        if 0 <= local_x && local_x < 32 && 0 <= local_z && local_z < 32 {
            Some((local_z * 32 + local_x) as usize)
        } else {
            None
        }
    }

    /// The deterministic file name for this region tile, from its chunk
    /// corner extents.
    pub fn filename(&self) -> (r: String)
        requires
            region_in_i32_range(*self),
        ensures
            r@ == chars_of_ascii(region_filename_bytes(*self)),
    {
        let (min_x, min_z) = self.min_chunk();
        let (max_x, max_z) = self.max_chunk();
        let mut out: Vec<u8> = Vec::new();
        out.push(0x72);
        out.push(0x65);
        out.push(0x67);
        out.push(0x69);
        out.push(0x6f);
        out.push(0x6e);
        out.push(0x5f);
        let mut part = i64_to_dec(min_x as i64);
        out.append(&mut part);
        out.push(0x5f);
        let mut part = i64_to_dec(min_z as i64);
        out.append(&mut part);
        out.push(0x5f);
        let mut part = i64_to_dec(max_x as i64);
        out.append(&mut part);
        out.push(0x5f);
        let mut part = i64_to_dec(max_z as i64);
        out.append(&mut part);
        out.push(0x2e);
        out.push(0x64);
        out.push(0x61);
        out.push(0x74);
        proof {
            assert(out@ =~= region_filename_bytes(*self));
            lemma_dec_bytes_ascii(32 * self.x as int);
            lemma_dec_bytes_ascii(32 * self.z as int);
            lemma_dec_bytes_ascii(32 * self.x + 31);
            lemma_dec_bytes_ascii(32 * self.z + 31);
            assert forall|i: int| 0 <= i < out@.len() implies out@[i] < 0x80 by {
                lemma_filename_index_ascii(*self, i);
            }
        }
        ascii_to_string(&out)
    }

    /// Whether both chunk corners of this region fall within half the world
    /// bound on each axis.
    pub fn is_valid(&self) -> (r: bool)
        requires
            region_in_i32_range(*self),
        ensures
            r == spec_region_valid(*self),
    {
        let (min_x, min_z) = self.min_chunk();
        let (max_x, max_z) = self.max_chunk();
        let half_world = WORLD_MAX_CHUNKS / 2;
        min_x >= -half_world && min_z >= -half_world && max_x < half_world && max_z < half_world
    }
}

/// The bytes of a region's file name: `region_<minx>_<minz>_<maxx>_<maxz>.dat`.
pub open spec fn region_filename_bytes(rp: RegionPos) -> Seq<u8> {
    seq![0x72u8, 0x65u8, 0x67u8, 0x69u8, 0x6fu8, 0x6eu8, 0x5fu8] + dec_bytes(32 * rp.x)
        + seq![0x5fu8] + dec_bytes(32 * rp.z) + seq![0x5fu8] + dec_bytes(32 * rp.x + 31)
        + seq![0x5fu8] + dec_bytes(32 * rp.z + 31) + seq![0x2eu8, 0x64u8, 0x61u8, 0x74u8]
}

proof fn lemma_dec_bytes_ascii(v: int)
    ensures
        forall|i: int| 0 <= i < dec_bytes(v).len() ==> #[trigger] dec_bytes(v)[i] < 0x80,
{
    if v < 0 {
        crate::text::lemma_dec_digits_ascii((-v) as nat);
        assert forall|i: int| 0 <= i < dec_bytes(v).len() implies #[trigger] dec_bytes(v)[i]
            < 0x80 by {
            if i > 0 {
                assert(dec_bytes(v)[i] == dec_digits((-v) as nat)[i - 1]);
            }
        }
    } else {
        crate::text::lemma_dec_digits_ascii(v as nat);
    }
}

proof fn lemma_filename_index_ascii(rp: RegionPos, i: int)
    requires
        0 <= i < region_filename_bytes(rp).len(),
        forall|j: int| 0 <= j < dec_bytes(32 * rp.x).len() ==> #[trigger] dec_bytes(32 * rp.x)[j]
            < 0x80,
        forall|j: int| 0 <= j < dec_bytes(32 * rp.z).len() ==> #[trigger] dec_bytes(32 * rp.z)[j]
            < 0x80,
        forall|j: int| 0 <= j < dec_bytes(32 * rp.x + 31).len() ==> #[trigger] dec_bytes(
            32 * rp.x + 31,
        )[j] < 0x80,
        forall|j: int| 0 <= j < dec_bytes(32 * rp.z + 31).len() ==> #[trigger] dec_bytes(
            32 * rp.z + 31,
        )[j] < 0x80,
    ensures
        region_filename_bytes(rp)[i] < 0x80,
{
}

/// A chunk flattened for the region file: its coordinate pair and its
/// 65,536 block codes in `y`, `x`, `z` order.
pub struct SerializedChunk {
    pub pos: (i32, i32),
    pub blocks: Vec<u16>,
}

/// The block codes of a chunk, in serialization order.
pub open spec fn chunk_codes(c: Chunk) -> Seq<u16> {
    Seq::new(65536, |i: int| spec_block_code(c.grid()[i]))
}

/// The block a code sequence yields at a cell: unknown codes and missing
/// cells fall back to air.
pub open spec fn decoded_block(codes: Seq<u16>, i: int) -> BlockType {
    if 0 <= i < codes.len() {
        match spec_block_from_u16(codes[i]) {
            Some(b) => b,
            None => BlockType::Air,
        }
    } else {
        BlockType::Air
    }
}

impl SerializedChunk {
    /// Flatten a chunk into its block codes.
    pub fn from_chunk(chunk: &Chunk) -> (r: SerializedChunk)
        requires
            chunk.wf(),
        ensures
            r.pos.0 == chunk.pos.x,
            r.pos.1 == chunk.pos.z,
            r.blocks@ == chunk_codes(*chunk),
    {
        let mut blocks: Vec<u16> = Vec::new();
        let mut y: usize = 0;
        while y < 256
            invariant
                y <= 256,
                chunk.wf(),
                blocks@.len() == y * 256,
                forall|k: int| 0 <= k < blocks@.len() ==> blocks@[k] == chunk_codes(*chunk)[k],
            decreases 256 - y,
        {
            let mut x: usize = 0;
            while x < 16
                invariant
                    y < 256,
                    x <= 16,
                    chunk.wf(),
                    blocks@.len() == y * 256 + x * 16,
                    forall|k: int| 0 <= k < blocks@.len() ==> blocks@[k] == chunk_codes(*chunk)[k],
                decreases 16 - x,
            {
                let mut z: usize = 0;
                while z < 16
                    invariant
                        y < 256,
                        x < 16,
                        z <= 16,
                        chunk.wf(),
                        blocks@.len() == y * 256 + x * 16 + z,
                        forall|k: int| 0 <= k < blocks@.len() ==> blocks@[k] == chunk_codes(
                            *chunk,
                        )[k],
                    decreases 16 - z,
                {
                    let block = match chunk.get_block(x, y, z) {
                        Some(b) => b,
                        None => BlockType::Air,
                    };
                    blocks.push(block.code());
                    proof {
                        assert(block_index(x as int, y as int, z as int) == blocks@.len() - 1);
                    }
                    z = z + 1;
                }
                x = x + 1;
            }
            y = y + 1;
        }
        proof {
            assert(blocks@ =~= chunk_codes(*chunk));
        }
        SerializedChunk { pos: (chunk.pos.x, chunk.pos.z), blocks }
    }

    /// Rebuild a chunk from its block codes: unknown codes and missing
    /// cells come back as air, and the chunk is marked modified.
    pub fn to_chunk(&self) -> (r: Result<Chunk, DecodeError>)
        ensures
            r matches Ok(c) && c.wf() && c.pos.x == self.pos.0 && c.pos.z == self.pos.1
                && c.modified && forall|i: int|
                0 <= i < 65536 ==> #[trigger] c.grid()[i] == decoded_block(self.blocks@, i),
    {
        let mut chunk = Chunk::new(ChunkPos::new(self.pos.0, self.pos.1));
        let mut y: usize = 0;
        let mut idx: usize = 0;
        while y < 256
            invariant
                y <= 256,
                idx == y * 256,
                chunk.wf(),
                chunk.pos.x == self.pos.0,
                chunk.pos.z == self.pos.1,
                chunk.modified,
                forall|k: int| 0 <= k < idx ==> #[trigger] chunk.grid()[k] == decoded_block(
                    self.blocks@,
                    k,
                ),
                forall|k: int| idx <= k < 65536 ==> #[trigger] chunk.grid()[k] == BlockType::Air,
            decreases 256 - y,
        {
            let mut x: usize = 0;
            while x < 16
                invariant
                    y < 256,
                    x <= 16,
                    idx == y * 256 + x * 16,
                    chunk.wf(),
                    chunk.pos.x == self.pos.0,
                    chunk.pos.z == self.pos.1,
                    chunk.modified,
                    forall|k: int| 0 <= k < idx ==> #[trigger] chunk.grid()[k] == decoded_block(
                        self.blocks@,
                        k,
                    ),
                    forall|k: int| idx <= k < 65536 ==> #[trigger] chunk.grid()[k]
                        == BlockType::Air,
                decreases 16 - x,
            {
                let mut z: usize = 0;
                while z < 16
                    invariant
                        y < 256,
                        x < 16,
                        z <= 16,
                        idx == y * 256 + x * 16 + z,
                        chunk.wf(),
                        chunk.pos.x == self.pos.0,
                        chunk.pos.z == self.pos.1,
                        chunk.modified,
                        forall|k: int| 0 <= k < idx ==> #[trigger] chunk.grid()[k]
                            == decoded_block(self.blocks@, k),
                        forall|k: int| idx <= k < 65536 ==> #[trigger] chunk.grid()[k]
                            == BlockType::Air,
                    decreases 16 - z,
                {
                    proof {
                        assert(block_index(x as int, y as int, z as int) == idx);
                    }
                    if idx < self.blocks.len() {
                        if let Some(block_type) = BlockType::from_u16(self.blocks[idx]) {
                            chunk.set_block(x, y, z, block_type);
                        }
                    }
                    z = z + 1;
                    idx = idx + 1;
                }
                x = x + 1;
            }
            y = y + 1;
        }
        Ok(chunk)
    }
}

/// The chunk block round trip: flattening a chunk to codes and decoding
/// them again gives back every cell.
pub proof fn lemma_chunk_block_round_trip(c: Chunk)
    requires
        c.wf(),
    ensures
        forall|i: int| 0 <= i < 65536 ==> decoded_block(chunk_codes(c), i) == c.grid()[i],
{
    assert forall|i: int| 0 <= i < 65536 implies decoded_block(chunk_codes(c), i)
        == c.grid()[i] by {
        crate::chunk::lemma_block_code_round_trip(c.grid()[i]);
    }
}

/// The code bytes of a chunk are two per code.
pub proof fn lemma_codes_le_bytes_len(codes: Seq<u16>)
    ensures
        codes_le_bytes(codes).len() == 2 * codes.len(),
    decreases codes.len(),
{
    if codes.len() > 0 {
        lemma_codes_le_bytes_len(codes.drop_last());
    }
}

/// Each code's two little-endian bytes sit at its own offset.
proof fn lemma_codes_le_bytes_at(codes: Seq<u16>, t: int)
    requires
        0 <= t < codes.len(),
    ensures
        codes_le_bytes(codes).len() == 2 * codes.len(),
        codes_le_bytes(codes)[2 * t] == le_bytes(codes[t] as nat, 2)[0],
        codes_le_bytes(codes)[2 * t + 1] == le_bytes(codes[t] as nat, 2)[1],
    decreases codes.len(),
{
    lemma_codes_le_bytes_len(codes);
    if t == codes.len() - 1 {
        lemma_codes_le_bytes_len(codes.drop_last());
        assert(codes_le_bytes(codes)[2 * t] == le_bytes(codes.last() as nat, 2)[0]);
        assert(codes_le_bytes(codes)[2 * t + 1] == le_bytes(codes.last() as nat, 2)[1]);
    } else {
        lemma_codes_le_bytes_at(codes.drop_last(), t);
        assert(codes.drop_last()[t] == codes[t]);
        assert(codes_le_bytes(codes)[2 * t] == codes_le_bytes(codes.drop_last())[2 * t]);
        assert(codes_le_bytes(codes)[2 * t + 1] == codes_le_bytes(codes.drop_last())[2 * t + 1]);
    }
}

/// Reading code bytes back gives the codes.
pub proof fn lemma_codes_round_trip(codes: Seq<u16>)
    ensures
        codes_of(codes_le_bytes(codes)) =~= codes,
{
    lemma_codes_le_bytes_len(codes);
    assert forall|t: int| 0 <= t < codes.len() implies codes_of(codes_le_bytes(codes))[t]
        == codes[t] by {
        lemma_codes_le_bytes_at(codes, t);
        let v = codes[t] as nat;
        assert(crate::serialization::pow256(0) == 1);
        assert(crate::serialization::pow256(1) == 256);
        assert(le_bytes(v, 2)[0] == ((v / 1) % 256) as u8);
        assert(le_bytes(v, 2)[1] == ((v / 256) % 256) as u8);
        assert(v / 1 == v) by {
            vstd::arithmetic::div_mod::lemma_div_basics(v as int);
        }
        assert((v / 256) % 256 == v / 256) by {
            vstd::arithmetic::div_mod::lemma_fundamental_div_mod(v as int, 256);
        }
        assert((v % 256) + 256 * (v / 256) == v) by {
            vstd::arithmetic::div_mod::lemma_fundamental_div_mod(v as int, 256);
        }
    }
}

/// The chunk-record round trip: one serialized record, followed by anything,
/// parses back to exactly its coordinates and block codes, consuming
/// exactly the record.
pub proof fn lemma_record_round_trip(x: i32, z: i32, codes: Seq<u16>, rest: Seq<u8>)
    requires
        codes.len() <= 65536,
    ensures
        spec_parse_record(record_bytes(x, z, codes) + rest) == Some(
            (((x, z), codes), (16 + 2 * codes.len()) as nat),
        ),
{
    let rec = record_bytes(x, z, codes);
    let data = rec + rest;
    lemma_codes_le_bytes_len(codes);
    crate::serialization::lemma_pow256_16();

    assert(data.subrange(0, 4) =~= le_bytes(u32_of_i32(x), 4));
    assert(data.subrange(4, 8) =~= le_bytes(u32_of_i32(z), 4));
    assert(data.subrange(8, 16) =~= le_bytes(codes.len(), 8));
    crate::serialization::lemma_le_round_trip(u32_of_i32(x), 4);
    crate::serialization::lemma_le_round_trip(u32_of_i32(z), 4);
    crate::serialization::lemma_le_round_trip(codes.len(), 8);
    assert(i32_of_sum(u32_of_i32(x)) == x);
    assert(i32_of_sum(u32_of_i32(z)) == z);

    assert(data.subrange(16, 16 + 2 * codes.len() as int) =~= codes_le_bytes(codes));
    lemma_codes_round_trip(codes);
    assert(codes_of(data.subrange(16, 16 + 2 * codes.len() as int)) =~= codes);
}

} // verus!

verus! {

/// How a region's slots must be laid out: 1,024 slots, and every resident
/// chunk well-formed and sitting in the slot its own coordinate maps to.
pub open spec fn slots_wf(rp: RegionPos, slots: Seq<Option<Chunk>>) -> bool {
    &&& slots.len() == 1024
    &&& forall|i: int|
        0 <= i < 1024 ==> (#[trigger] slots[i] matches Some(c) ==> c.wf() && spec_chunk_offset(
            rp,
            c.pos.x as int,
            c.pos.z as int,
        ) == Some(i))
}

/// A 32 x 32 tile of optional chunks, the unit of persistence.
pub struct Region {
    pub pos: RegionPos,
    pub chunks: Vec<Option<Chunk>>,
    pub modified: bool,
}

/// How many slots hold a chunk.
pub open spec fn resident_count(slots: Seq<Option<Chunk>>) -> nat
    decreases slots.len(),
{
    if slots.len() == 0 {
        0
    } else {
        resident_count(slots.drop_last()) + if slots.last() is Some {
            1nat
        } else {
            0nat
        }
    }
}

/// The little-endian bytes of a chunk's block codes, in order.
pub open spec fn codes_le_bytes(codes: Seq<u16>) -> Seq<u8>
    decreases codes.len(),
{
    if codes.len() == 0 {
        Seq::empty()
    } else {
        codes_le_bytes(codes.drop_last()) + le_bytes(codes.last() as nat, 2)
    }
}

/// One chunk record in a region file: coordinates, block count, block codes,
/// all little-endian.
pub open spec fn record_bytes(x: i32, z: i32, codes: Seq<u16>) -> Seq<u8> {
    le_bytes(u32_of_i32(x), 4) + le_bytes(u32_of_i32(z), 4) + le_bytes(codes.len(), 8)
        + codes_le_bytes(codes)
}

/// The records of a region's resident chunks, in slot order.
pub open spec fn slots_records(slots: Seq<Option<Chunk>>) -> Seq<u8>
    decreases slots.len(),
{
    if slots.len() == 0 {
        Seq::empty()
    } else {
        slots_records(slots.drop_last()) + match slots.last() {
            Some(c) => record_bytes(c.pos.x, c.pos.z, chunk_codes(c)),
            None => Seq::empty(),
        }
    }
}

/// A region file: the resident-chunk count, then one record per resident
/// chunk in slot order.
pub open spec fn spec_region_bytes(rg: Region) -> Seq<u8> {
    le_bytes(resident_count(rg.chunks@), 8) + slots_records(rg.chunks@)
}

/// A parsed chunk record: its coordinates and block codes.
pub open spec fn codes_of(s: Seq<u8>) -> Seq<u16> {
    Seq::new(s.len() / 2, |i: int| (s[2 * i] + 256 * s[2 * i + 1]) as u16)
}

/// Parse one chunk record from the head of `data`: the model and the bytes
/// consumed, or nothing when the bytes do not suffice.
pub open spec fn spec_parse_record(data: Seq<u8>) -> Option<(((i32, i32), Seq<u16>), nat)> {
    if data.len() < 16 {
        None
    } else {
        let x = i32_of_sum(le_value(data.subrange(0, 4)));
        let z = i32_of_sum(le_value(data.subrange(4, 8)));
        let n = le_value(data.subrange(8, 16));
        if 16 + 2 * n > data.len() {
            None
        } else {
            Some((((x, z), codes_of(data.subrange(16, 16 + 2 * n as int))), (16 + 2 * n) as nat))
        }
    }
}

/// Parse `count` chunk records from the head of `data`.
pub open spec fn spec_parse_records(data: Seq<u8>, count: nat) -> Option<
    (Seq<((i32, i32), Seq<u16>)>, nat),
>
    decreases count,
{
    if count == 0 {
        Some((Seq::empty(), 0))
    } else {
        match spec_parse_record(data) {
            None => None,
            Some((m, k)) => match spec_parse_records(data.skip(k as int), (count - 1) as nat) {
                None => None,
                Some((ms, k2)) => Some((seq![m] + ms, k + k2)),
            },
        }
    }
}

/// Parse a whole region file into its chunk records; bytes past the last
/// counted record are ignored.
pub open spec fn spec_parse_region(data: Seq<u8>) -> Option<Seq<((i32, i32), Seq<u16>)>> {
    if data.len() < 8 {
        None
    } else {
        match spec_parse_records(data.skip(8), le_value(data.take(8))) {
            None => None,
            Some((ms, _)) => Some(ms),
        }
    }
}

/// The slot a list of parsed records leaves at index `i` after inserting
/// them in order: the last record that maps to the slot wins.
pub open spec fn spec_slot_view(rp: RegionPos, models: Seq<((i32, i32), Seq<u16>)>, i: int) -> Option<
    ((i32, i32), Seq<u16>),
>
    decreases models.len(),
{
    if models.len() == 0 {
        None
    } else {
        let m = models.last();
        if spec_chunk_offset(rp, m.0.0 as int, m.0.1 as int) == Some(i) {
            Some(m)
        } else {
            spec_slot_view(rp, models.drop_last(), i)
        }
    }
}

impl Region {
    pub open spec fn wf(self) -> bool {
        &&& region_in_i32_range(self.pos)
        &&& slots_wf(self.pos, self.chunks@)
    }

    /// An empty region: 1,024 empty slots, not modified.
    pub fn new(pos: RegionPos) -> (r: Region)
        requires
            region_in_i32_range(pos),
        ensures
            r.wf(),
            r.pos == pos,
            r.modified == false,
            forall|i: int| 0 <= i < 1024 ==> r.chunks@[i] is None,
    {
        let mut chunks: Vec<Option<Chunk>> = Vec::new();
        let mut i: usize = 0;
        while i < 1024
            invariant
                i <= 1024,
                chunks@.len() == i,
                forall|j: int| 0 <= j < i ==> chunks@[j] is None,
            decreases 1024 - i,
        {
            chunks.push(None);
            i = i + 1;
        }
        Region { pos, chunks, modified: false }
    }

    /// The chunk stored for a chunk coordinate, when the coordinate lies in
    /// this region and its slot is filled.
    pub fn get(&self, chunk_x: i32, chunk_z: i32) -> (r: Option<&Chunk>)
        requires
            self.wf(),
        ensures
            match spec_chunk_offset(self.pos, chunk_x as int, chunk_z as int) {
                None => r is None,
                Some(i) => (r is Some <==> self.chunks@[i] is Some) && (r matches Some(c)
                    ==> *c == self.chunks@[i].unwrap()),
            },
    {
        match self.pos.chunk_offset(chunk_x, chunk_z) {
            Some(idx) => self.chunks[idx].as_ref(),
            None => None,
        }
    }

    /// Store a chunk in the slot its coordinate maps to and mark the region
    /// modified; a chunk outside the region is rejected.
    pub fn insert(&mut self, chunk: Chunk) -> (r: bool)
        requires
            old(self).wf(),
            chunk.wf(),
        ensures
            final(self).wf(),
            final(self).pos == old(self).pos,
            r == (spec_chunk_offset(old(self).pos, chunk.pos.x as int, chunk.pos.z as int)
                is Some),
            r ==> final(self).chunks@ == old(self).chunks@.update(
                spec_chunk_offset(old(self).pos, chunk.pos.x as int, chunk.pos.z as int).unwrap(),
                Some(chunk),
            ) && final(self).modified,
            !r ==> *final(self) == *old(self),
    {
        match self.pos.chunk_offset(chunk.pos.x, chunk.pos.z) {
            Some(idx) => {
                self.chunks.set(idx, Some(chunk));
                self.modified = true;
                true
            },
            None => false,
        }
    }

    /// Whether the region changed since it was last marked clean.
    pub fn is_modified(&self) -> (r: bool)
        ensures
            r == self.modified,
    {
        self.modified
    }

    /// Clear the modified flag, after a successful persist.
    pub fn mark_clean(&mut self)
        ensures
            final(self).modified == false,
            final(self).pos == old(self).pos,
            final(self).chunks@ == old(self).chunks@,
            old(self).wf() ==> final(self).wf(),
    {
        self.modified = false;
    }

    /// The resident chunks, in slot order.
    pub fn chunks_list(&self) -> (r: Vec<&Chunk>)
        requires
            self.wf(),
        ensures
            r@.len() == resident_count(self.chunks@),
            forall|j: int| 0 <= j < r@.len() ==> #[trigger] r@[j].wf(),
    {
        let mut out: Vec<&Chunk> = Vec::new();
        let mut i: usize = 0;
        while i < self.chunks.len()
            invariant
                self.wf(),
                i <= self.chunks@.len(),
                out@.len() == resident_count(self.chunks@.take(i as int)),
                forall|j: int| 0 <= j < out@.len() ==> #[trigger] out@[j].wf(),
            decreases self.chunks@.len() - i,
        {
            proof {
                assert(self.chunks@.take(i + 1).drop_last() =~= self.chunks@.take(i as int));
                assert(self.chunks@.take(i + 1).last() == self.chunks@[i as int]);
            }
            match &self.chunks[i] {
                Some(c) => {
                    out.push(c);
                },
                None => {},
            }
            i = i + 1;
        }
        proof {
            assert(self.chunks@.take(self.chunks@.len() as int) =~= self.chunks@);
        }
        out
    }

    /// Serialize the region: the resident count, then each resident chunk's
    /// record in slot order, all little-endian.
    pub fn serialize(&self) -> (r: Vec<u8>)
        requires
            self.wf(),
        ensures
            r@ == spec_region_bytes(*self),
    {
        // Count the resident chunks first: the count prefixes the records.
        let mut count: u64 = 0;
        let mut i: usize = 0;
        while i < self.chunks.len()
            invariant
                self.wf(),
                i <= self.chunks@.len(),
                count == resident_count(self.chunks@.take(i as int)),
                count <= i,
            decreases self.chunks@.len() - i,
        {
            proof {
                assert(self.chunks@.take(i + 1).drop_last() =~= self.chunks@.take(i as int));
                assert(self.chunks@.take(i + 1).last() == self.chunks@[i as int]);
            }
            if self.chunks[i].is_some() {
                count = count + 1;
            }
            i = i + 1;
        }
        proof {
            assert(self.chunks@.take(self.chunks@.len() as int) =~= self.chunks@);
        }

        let mut out: Vec<u8> = Vec::new();
        crate::serialization::le_encode(count as u128, 8, &mut out);
        let ghost header = le_bytes(resident_count(self.chunks@), 8);
        let mut i: usize = 0;
        while i < self.chunks.len()
            invariant
                self.wf(),
                i <= self.chunks@.len(),
                header == le_bytes(resident_count(self.chunks@), 8),
                out@ == header + slots_records(self.chunks@.take(i as int)),
            decreases self.chunks@.len() - i,
        {
            proof {
                assert(self.chunks@.take(i + 1).drop_last() =~= self.chunks@.take(i as int));
                assert(self.chunks@.take(i + 1).last() == self.chunks@[i as int]);
            }
            match &self.chunks[i] {
                Some(c) => {
                    let sc = SerializedChunk::from_chunk(c);
                    crate::serialization::le_encode(
                        u32_from_i32(sc.pos.0) as u128,
                        4,
                        &mut out,
                    );
                    crate::serialization::le_encode(
                        u32_from_i32(sc.pos.1) as u128,
                        4,
                        &mut out,
                    );
                    crate::serialization::le_encode(sc.blocks.len() as u128, 8, &mut out);
                    let ghost before = out@;
                    let mut j: usize = 0;
                    while j < sc.blocks.len()
                        invariant
                            j <= sc.blocks@.len(),
                            out@ == before + codes_le_bytes(sc.blocks@.take(j as int)),
                        decreases sc.blocks@.len() - j,
                    {
                        proof {
                            assert(sc.blocks@.take(j + 1).drop_last() =~= sc.blocks@.take(
                                j as int,
                            ));
                            assert(sc.blocks@.take(j + 1).last() == sc.blocks@[j as int]);
                        }
                        crate::serialization::le_encode(sc.blocks[j] as u128, 2, &mut out);
                        j = j + 1;
                    }
                    proof {
                        assert(sc.blocks@.take(sc.blocks@.len() as int) =~= sc.blocks@);
                        assert(out@ =~= header + slots_records(self.chunks@.take(i + 1)));
                    }
                },
                None => {
                    proof {
                        assert(out@ =~= header + slots_records(self.chunks@.take(i + 1)));
                    }
                },
            }
            i = i + 1;
        }
        proof {
            assert(self.chunks@.take(self.chunks@.len() as int) =~= self.chunks@);
        }
        out
    }

    /// Parse a region file back into a region at the given coordinate:
    /// records are decoded in order and inserted, later records winning a
    /// slot; records outside the region are dropped, as `insert` rejects
    /// them.
    pub fn deserialize(pos: RegionPos, data: &[u8]) -> (r: Result<Region, DecodeError>)
        requires
            region_in_i32_range(pos),
        ensures
            match spec_parse_region(data@) {
                None => r is Err,
                Some(models) => r matches Ok(rg) && rg.wf() && rg.pos == pos && forall|i: int|
                    0 <= i < 1024 ==> match spec_slot_view(pos, models, i) {
                        None => rg.chunks@[i] is None,
                        Some(m) => #[trigger] rg.chunks@[i] matches Some(c) && c.pos.x == m.0.0
                            && c.pos.z == m.0.1 && forall|k: int|
                            0 <= k < 65536 ==> #[trigger] c.grid()[k] == decoded_block(m.1, k),
                    },
            },
    {
        if data.len() < 8 {
            return Err(DecodeError::UnexpectedEnd);
        }
        let count128 = crate::serialization::le_decode(data, 0, 8);
        proof {
            assert(data@.subrange(0, 8) =~= data@.take(8));
            crate::serialization::lemma_le_value_bound(data@.take(8), 8);
            crate::serialization::lemma_pow256_16();
        }
        let count = count128 as u64;
        let mut region = Region::new(pos);
        let mut parsed: u64 = 0;
        let mut at: usize = 8;
        let ghost all = spec_parse_records(data@.skip(8), le_value(data@.take(8)));
        let ghost mut models_seen: Seq<((i32, i32), Seq<u16>)> = Seq::empty();
        while parsed < count
            invariant
                region_in_i32_range(pos),
                region.wf(),
                region.pos == pos,
                parsed <= count,
                count == le_value(data@.take(8)),
                8 <= at <= data@.len(),
                all == spec_parse_records(data@.skip(8), count as nat),
                match spec_parse_records(data@.skip(at as int), (count - parsed) as nat) {
                    None => all is None,
                    Some((ms, _)) => all matches Some((allms, _)) && allms == models_seen + ms,
                },
                models_seen.len() == parsed,
                forall|i: int| 0 <= i < 1024 ==> match spec_slot_view(pos, models_seen, i) {
                    None => region.chunks@[i] is None,
                    Some(m) => #[trigger] region.chunks@[i] matches Some(c) && c.pos.x == m.0.0
                        && c.pos.z == m.0.1 && forall|k: int|
                        0 <= k < 65536 ==> #[trigger] c.grid()[k] == decoded_block(m.1, k),
                },
            decreases count - parsed,
        {
            let (sc, next) = match parse_record(data, at) {
                Ok(v) => v,
                Err(e) => {
                    return Err(e);
                },
            };
            let chunk = match sc.to_chunk() {
                Ok(c) => c,
                Err(e) => {
                    return Err(e);
                },
            };
            let ghost m = spec_parse_record(data@.skip(at as int)).unwrap().0;
            let ghost k = spec_parse_record(data@.skip(at as int)).unwrap().1;
            let ghost old_models = models_seen;
            proof {
                models_seen = models_seen.push(m);
                assert(models_seen.drop_last() =~= old_models);
                assert(data@.skip(at as int).skip(k as int) =~= data@.skip(at + k));
                match spec_parse_records(data@.skip(at + k), (count - parsed - 1) as nat) {
                    None => {},
                    Some((ms2, _)) => {
                        assert(old_models + (seq![m] + ms2) =~= models_seen + ms2);
                    },
                }
            }
            region.insert(chunk);
            proof {
                assert forall|i: int| 0 <= i < 1024 implies match spec_slot_view(
                    pos,
                    models_seen,
                    i,
                ) {
                    None => region.chunks@[i] is None,
                    Some(mm) => #[trigger] region.chunks@[i] matches Some(c) && c.pos.x == mm.0.0
                        && c.pos.z == mm.0.1 && forall|k2: int|
                        0 <= k2 < 65536 ==> #[trigger] c.grid()[k2] == decoded_block(mm.1, k2),
                } by {
                    assert(models_seen.drop_last() =~= old_models);
                    assert(models_seen.last() == m);
                }
            }
            at = next;
            parsed = parsed + 1;
        }
        proof {
            if all is None {
                assert(spec_parse_records(data@.skip(at as int), 0) == Some::<
                    (Seq<((i32, i32), Seq<u16>)>, nat),
                >((Seq::empty(), 0)));
                assert(false);
            }
            assert(models_seen + Seq::<((i32, i32), Seq<u16>)>::empty() =~= models_seen);
        }
        Ok(region)
    }
}

/// Parse one chunk record at `start`: the flattened chunk and the index
/// just past the record.
fn parse_record(data: &[u8], start: usize) -> (r: Result<(SerializedChunk, usize), DecodeError>)
    requires
        start <= data@.len(),
    ensures
        match spec_parse_record(data@.skip(start as int)) {
            None => r is Err,
            Some((m, k)) => r matches Ok((sc, next)) && sc.pos.0 == m.0.0 && sc.pos.1 == m.0.1
                && sc.blocks@ == m.1 && next == start + k,
        },
{
    let ghost s = data@.skip(start as int);
    let total = data.len();
    if total - start < 16 {
        return Err(DecodeError::UnexpectedEnd);
    }
    let x128 = crate::serialization::le_decode(data, start, 4);
    let z128 = crate::serialization::le_decode(data, start + 4, 4);
    let n128 = crate::serialization::le_decode(data, start + 8, 8);
    proof {
        assert(data@.subrange(start as int, start + 4) =~= s.subrange(0, 4));
        assert(data@.subrange(start + 4, start + 8) =~= s.subrange(4, 8));
        assert(data@.subrange(start + 8, start + 16) =~= s.subrange(8, 16));
        crate::serialization::lemma_le_value_bound(s.subrange(0, 4), 4);
        crate::serialization::lemma_le_value_bound(s.subrange(4, 8), 4);
        crate::serialization::lemma_le_value_bound(s.subrange(8, 16), 8);
        crate::serialization::lemma_pow256_16();
    }
    let xbits = x128 as u32;
    let zbits = z128 as u32;
    let n = n128 as u64;
    let x = i32_from_u32(xbits);
    let z = i32_from_u32(zbits);
    if n > ((total - start - 16) / 2) as u64 {
        return Err(DecodeError::UnexpectedEnd);
    }
    let n = n as usize;
    let mut codes: Vec<u16> = Vec::new();
    let mut j: usize = 0;
    let ghost seg = s.subrange(16, 16 + 2 * (n as int));
    while j < n
        invariant
            s == data@.skip(start as int),
            seg == s.subrange(16, 16 + 2 * (n as int)),
            start + 16 + 2 * n <= data@.len(),
            data@.len() == total,
            j <= n,
            codes@.len() == j,
            forall|t: int| 0 <= t < j ==> codes@[t] == (seg[2 * t] + 256 * seg[2 * t + 1]) as u16,
        decreases n - j,
    {
        let c = crate::serialization::le_decode(data, start + 16 + 2 * j, 2);
        proof {
            let off = start + 16 + 2 * (j as int);
            let piece = data@.subrange(off, off + 2);
            assert(piece.drop_first() =~= seq![data@[off + 1]]);
            assert(seq![data@[off + 1]].drop_first() =~= Seq::<u8>::empty());
            assert(le_value(Seq::<u8>::empty()) == 0);
            assert(seq![data@[off + 1]][0] == data@[off + 1]);
            assert(le_value(seq![data@[off + 1]]) == data@[off + 1]);
            assert(piece[0] == data@[off]);
            assert(le_value(piece) == data@[off] + 256 * le_value(piece.drop_first()));
            assert(seg[2 * (j as int)] == data@[off]);
            assert(seg[2 * (j as int) + 1] == data@[off + 1]);
        }
        codes.push(c as u16);
        j = j + 1;
    }
    proof {
        assert(codes@ =~= codes_of(seg));
    }
    Ok((SerializedChunk { pos: (x, z), blocks: codes }, start + 16 + 2 * n))
}


/// The records that a region's resident chunks flatten to, in slot order.
pub open spec fn resident_models(slots: Seq<Option<Chunk>>) -> Seq<((i32, i32), Seq<u16>)>
    decreases slots.len(),
{
    if slots.len() == 0 {
        Seq::empty()
    } else {
        resident_models(slots.drop_last()) + match slots.last() {
            Some(c) => seq![((c.pos.x, c.pos.z), chunk_codes(c))],
            None => Seq::empty(),
        }
    }
}

/// The concatenated record bytes of a list of models, in order.
pub open spec fn models_concat(ms: Seq<((i32, i32), Seq<u16>)>) -> Seq<u8>
    decreases ms.len(),
{
    if ms.len() == 0 {
        Seq::empty()
    } else {
        record_bytes(ms[0].0.0, ms[0].0.1, ms[0].1) + models_concat(ms.drop_first())
    }
}

proof fn lemma_models_concat_push(ms: Seq<((i32, i32), Seq<u16>)>, m: ((i32, i32), Seq<u16>))
    ensures
        models_concat(ms.push(m)) =~= models_concat(ms) + record_bytes(m.0.0, m.0.1, m.1),
    decreases ms.len(),
{
    if ms.len() == 0 {
        assert(ms.push(m).drop_first() =~= Seq::<((i32, i32), Seq<u16>)>::empty());
        assert(ms.push(m)[0] == m);
        let recm = record_bytes(m.0.0, m.0.1, m.1);
        assert(models_concat(ms.push(m)) == recm + models_concat(
            ms.push(m).drop_first(),
        ));
        assert(models_concat(Seq::<((i32, i32), Seq<u16>)>::empty()) =~= Seq::<u8>::empty());
        assert(recm + Seq::<u8>::empty() =~= Seq::<u8>::empty() + recm);
    } else {
        assert(ms.push(m).drop_first() =~= ms.drop_first().push(m));
        assert(ms.push(m)[0] == ms[0]);
        lemma_models_concat_push(ms.drop_first(), m);
        let rec0 = record_bytes(ms[0].0.0, ms[0].0.1, ms[0].1);
        let mid = models_concat(ms.drop_first());
        let recm = record_bytes(m.0.0, m.0.1, m.1);
        assert(models_concat(ms.push(m)) == rec0 + models_concat(ms.push(m).drop_first()));
        assert(models_concat(ms.push(m).drop_first()) == models_concat(
            ms.drop_first().push(m),
        ));
        assert(models_concat(ms.drop_first().push(m)) =~= mid + recm);
        assert(models_concat(ms) == rec0 + mid);
        assert(rec0 + (mid + recm) =~= (rec0 + mid) + recm);
        assert(models_concat(ms.push(m)) =~= models_concat(ms) + recm);
    }
}

/// The records a region writes are exactly its resident models' records.
proof fn lemma_slots_records_models(slots: Seq<Option<Chunk>>)
    ensures
        slots_records(slots) =~= models_concat(resident_models(slots)),
    decreases slots.len(),
{
    if slots.len() > 0 {
        lemma_slots_records_models(slots.drop_last());
        match slots.last() {
            Some(c) => {
                assert(resident_models(slots) =~= resident_models(slots.drop_last()).push(
                    ((c.pos.x, c.pos.z), chunk_codes(c)),
                ));
                lemma_models_concat_push(
                    resident_models(slots.drop_last()),
                    ((c.pos.x, c.pos.z), chunk_codes(c)),
                );
            },
            None => {
                assert(resident_models(slots) =~= resident_models(slots.drop_last()));
            },
        }
    }
}

proof fn lemma_resident_count_models(slots: Seq<Option<Chunk>>)
    ensures
        resident_count(slots) == resident_models(slots).len(),
    decreases slots.len(),
{
    if slots.len() > 0 {
        lemma_resident_count_models(slots.drop_last());
    }
}

proof fn lemma_resident_count_bound(slots: Seq<Option<Chunk>>)
    ensures
        resident_count(slots) <= slots.len(),
    decreases slots.len(),
{
    if slots.len() > 0 {
        lemma_resident_count_bound(slots.drop_last());
    }
}

proof fn lemma_resident_models_codes(slots: Seq<Option<Chunk>>)
    requires
        forall|i: int| 0 <= i < slots.len() ==> (#[trigger] slots[i] matches Some(c) ==> c.wf()),
    ensures
        forall|j: int| 0 <= j < resident_models(slots).len() ==> (#[trigger] resident_models(
            slots,
        )[j]).1.len() == 65536,
    decreases slots.len(),
{
    if slots.len() > 0 {
        assert forall|i: int|
            0 <= i < slots.drop_last().len() implies (#[trigger] slots.drop_last()[i]
            matches Some(c) ==> c.wf()) by {
            assert(slots.drop_last()[i] == slots[i]);
        }
        lemma_resident_models_codes(slots.drop_last());
        assert forall|j: int|
            0 <= j < resident_models(slots).len() implies (#[trigger] resident_models(
            slots,
        )[j]).1.len() == 65536 by {
            if j < resident_models(slots.drop_last()).len() {
                assert(resident_models(slots)[j] == resident_models(slots.drop_last())[j]);
            } else {
                assert(slots[slots.len() - 1] matches Some(c) ==> c.wf());
            }
        }
    }
}

/// A run of records, followed by anything, parses back to those records.
proof fn lemma_records_parse(ms: Seq<((i32, i32), Seq<u16>)>, extra: Seq<u8>)
    requires
        forall|j: int| 0 <= j < ms.len() ==> (#[trigger] ms[j]).1.len() <= 65536,
    ensures
        spec_parse_records(models_concat(ms) + extra, ms.len()) == Some(
            (ms, models_concat(ms).len() as nat),
        ),
    decreases ms.len(),
{
    if ms.len() == 0 {
        assert(models_concat(ms) + extra =~= extra);
        assert(spec_parse_records(extra, 0) == Some(
            (Seq::<((i32, i32), Seq<u16>)>::empty(), 0nat),
        ));
        assert(ms =~= Seq::<((i32, i32), Seq<u16>)>::empty());
    } else {
        let m = ms[0];
        let rest = ms.drop_first();
        let rec = record_bytes(m.0.0, m.0.1, m.1);
        let tail = models_concat(rest) + extra;
        assert(models_concat(ms) + extra =~= rec + tail);
        lemma_record_round_trip(m.0.0, m.0.1, m.1, tail);
        lemma_codes_le_bytes_len(m.1);
        assert((rec + tail).skip(rec.len() as int) =~= tail);
        assert forall|j: int| 0 <= j < rest.len() implies (#[trigger] rest[j]).1.len()
            <= 65536 by {
            assert(rest[j] == ms[j + 1]);
        }
        lemma_records_parse(rest, extra);
        assert(seq![m] + rest =~= ms);
    }
}

/// The region file round trip, record level: parsing a serialized region
/// yields exactly the resident chunks' records, in slot order.
pub proof fn lemma_region_bytes_parse(rg: Region)
    requires
        rg.wf(),
    ensures
        spec_parse_region(spec_region_bytes(rg)) == Some(resident_models(rg.chunks@)),
{
    let slots = rg.chunks@;
    let data = spec_region_bytes(rg);
    lemma_resident_count_bound(slots);
    crate::serialization::lemma_pow256_16();
    assert(data.take(8) =~= le_bytes(resident_count(slots), 8));
    crate::serialization::lemma_le_round_trip(resident_count(slots), 8);
    lemma_slots_records_models(slots);
    assert(data.skip(8) =~= models_concat(resident_models(slots)) + Seq::<u8>::empty());
    lemma_resident_models_codes(slots);
    lemma_resident_count_models(slots);
    lemma_records_parse(resident_models(slots), Seq::empty());
}

/// The region file round trip, slot level: re-inserting the parsed records
/// fills exactly the slots the region had, each with its own chunk's
/// coordinates and block codes.
pub proof fn lemma_region_slots_round_trip(rg: Region)
    requires
        rg.wf(),
    ensures
        forall|i: int|
            0 <= i < 1024 ==> match spec_slot_view(rg.pos, resident_models(rg.chunks@), i) {
                None => rg.chunks@[i] is None,
                Some(m) => #[trigger] rg.chunks@[i] matches Some(c) && m.0.0 == c.pos.x && m.0.1
                    == c.pos.z && m.1 == chunk_codes(c),
            },
{
    assert forall|i: int|
        0 <= i < 1024 implies match spec_slot_view(rg.pos, resident_models(rg.chunks@), i) {
        None => rg.chunks@[i] is None,
        Some(m) => #[trigger] rg.chunks@[i] matches Some(c) && m.0.0 == c.pos.x && m.0.1
            == c.pos.z && m.1 == chunk_codes(c),
    } by {
        lemma_slot_view_prefix(rg.pos, rg.chunks@, i);
    }
}

proof fn lemma_slot_view_prefix(rp: RegionPos, slots: Seq<Option<Chunk>>, i: int)
    requires
        forall|t: int|
            0 <= t < slots.len() ==> (#[trigger] slots[t] matches Some(c) ==> spec_chunk_offset(
                rp,
                c.pos.x as int,
                c.pos.z as int,
            ) == Some(t)),
        0 <= i,
    ensures
        match spec_slot_view(rp, resident_models(slots), i) {
            None => i >= slots.len() || slots[i] is None,
            Some(m) => i < slots.len() && (slots[i] matches Some(c) && m.0.0 == c.pos.x && m.0.1
                == c.pos.z && m.1 == chunk_codes(c)),
        },
    decreases slots.len(),
{
    if slots.len() > 0 {
        let s0 = slots.drop_last();
        let rm0 = resident_models(s0);
        assert forall|t: int|
            0 <= t < s0.len() implies (#[trigger] s0[t] matches Some(c) ==> spec_chunk_offset(
            rp,
            c.pos.x as int,
            c.pos.z as int,
        ) == Some(t)) by {
            assert(s0[t] == slots[t]);
        }
        match slots.last() {
            Some(c) => {
                let m = ((c.pos.x, c.pos.z), chunk_codes(c));
                assert(resident_models(slots) =~= rm0.push(m));
                assert(rm0.push(m).drop_last() =~= rm0);
                assert(rm0.push(m).last() == m);
                assert(spec_chunk_offset(rp, c.pos.x as int, c.pos.z as int) == Some(
                    slots.len() - 1,
                ));
                if i == slots.len() - 1 {
                    assert(spec_slot_view(rp, resident_models(slots), i) == Some(m));
                } else {
                    assert(spec_slot_view(rp, resident_models(slots), i) == spec_slot_view(
                        rp,
                        rm0,
                        i,
                    ));
                    lemma_slot_view_prefix(rp, s0, i);
                    if i < s0.len() {
                        assert(slots[i] == s0[i]);
                    }
                }
            },
            None => {
                assert(resident_models(slots) =~= rm0);
                lemma_slot_view_prefix(rp, s0, i);
                if i < s0.len() {
                    assert(slots[i] == s0[i]);
                }
            },
        }
    }
}

} // verus!
