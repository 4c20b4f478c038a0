use vstd::prelude::*;
use crate::chunk::{block_index, BlockType, Chunk};
use crate::protocol::{encode_frame, frame_bytes, PacketWriter};
use crate::serialization::{be_bytes, u16_of_i16};
use crate::varint::{u32_of_i32, varint_bytes};

verus! {

/// The head of the heightmap NBT: a root compound, then a TAG_LongArray
/// named MOTION_BLOCKING of 36 longs.
pub open spec fn heightmap_nbt_head() -> Seq<u8> {
    seq![0x0au8, 0x00u8, 0x00u8, 0x0cu8, 0x00u8, 0x0fu8, 0x4du8, 0x4fu8, 0x54u8, 0x49u8, 0x4fu8, 0x4eu8, 0x5fu8, 0x42u8, 0x4cu8, 0x4fu8, 0x43u8, 0x4bu8, 0x49u8, 0x4eu8, 0x47u8, 0x00u8, 0x00u8, 0x00u8, 0x24u8]
}

/// The heightmap NBT the Chunk Data packet carries: the long-array head,
/// 36 zero-filled longs, then TAG_End.
pub open spec fn heightmap_nbt_bytes() -> Seq<u8> {
    heightmap_nbt_head() + Seq::new(288, |i: int| 0u8) + seq![0x00u8]
}

/// The minimal chunk-section NBT: an empty root compound. Real section
/// payloads are reserved for later work.
pub open spec fn chunk_data_nbt_bytes() -> Seq<u8> {
    seq![0x0au8, 0x00u8, 0x00u8, 0x00u8]
}

/// Build the heightmap NBT compound.
pub fn create_heightmap_nbt() -> (r: Vec<u8>)
    ensures
        r@ == heightmap_nbt_bytes(),
{
    let mut v: Vec<u8> = Vec::new();
    v.push(0x0a);
    v.push(0x00);
    v.push(0x00);
    v.push(0x0c);
    v.push(0x00);
    v.push(0x0f);
    v.push(0x4d);
    v.push(0x4f);
    v.push(0x54);
    v.push(0x49);
    v.push(0x4f);
    v.push(0x4e);
    v.push(0x5f);
    v.push(0x42);
    v.push(0x4c);
    v.push(0x4f);
    v.push(0x43);
    v.push(0x4b);
    v.push(0x49);
    v.push(0x4e);
    v.push(0x47);
    v.push(0x00);
    v.push(0x00);
    v.push(0x00);
    v.push(0x24);
    proof {
        assert(v@ =~= heightmap_nbt_head());
    }
    let ghost before = v@;
    let mut i: usize = 0;
    while i < 288
        invariant
            i <= 288,
            v@ == before + Seq::new(i as nat, |t: int| 0u8),
        decreases 288 - i,
    {
        v.push(0x00);
        proof {
            assert(v@ =~= before + Seq::new((i + 1) as nat, |t: int| 0u8));
        }
        i = i + 1;
    }
    v.push(0x00);
    proof {
        assert(v@ =~= heightmap_nbt_bytes());
    }
    v
}

/// Build the minimal chunk-section NBT compound.
pub fn create_chunk_data_nbt() -> (r: Vec<u8>)
    ensures
        r@ == chunk_data_nbt_bytes(),
{
    let mut v: Vec<u8> = Vec::new();
    v.push(0x0a);
    v.push(0x00);
    v.push(0x00);
    v.push(0x00);
    proof {
        assert(v@ =~= chunk_data_nbt_bytes());
    }
    v
}

/// The Chunk Data payload: chunk coordinates as big-endian ints, the
/// heightmap compound, then the section compound.
pub open spec fn chunk_data_payload_bytes(x: i32, z: i32) -> Seq<u8> {
    be_bytes(u32_of_i32(x), 4) + be_bytes(u32_of_i32(z), 4) + heightmap_nbt_bytes()
        + chunk_data_nbt_bytes()
}

/// Build the framed Chunk Data packet (id 0x20) for a chunk.
pub fn chunk_data_frame(chunk: &Chunk) -> (r: Vec<u8>)
    ensures
        r@ == frame_bytes(0x20, chunk_data_payload_bytes(chunk.pos.x, chunk.pos.z)),
{
    let mut w = PacketWriter::new();
    w.write_int(chunk.pos.x);
    w.write_int(chunk.pos.z);
    let hm = create_heightmap_nbt();
    w.write_bytes(hm.as_slice());
    let cd = create_chunk_data_nbt();
    w.write_bytes(cd.as_slice());
    let payload = w.finish();
    proof {
        assert(payload@ =~= chunk_data_payload_bytes(chunk.pos.x, chunk.pos.z));
    }
    encode_frame(0x20, payload.as_slice())
}

/// The legacy chunk serialization: coordinates, a 36-byte zero heightmap,
/// then empty biome, section and block-entity counts.
pub open spec fn legacy_chunk_payload_bytes(x: i32, z: i32) -> Seq<u8> {
    be_bytes(u32_of_i32(x), 4) + be_bytes(u32_of_i32(z), 4) + Seq::new(36, |i: int| 0u8)
        + varint_bytes(0) + varint_bytes(0) + varint_bytes(0)
}

/// Serialize a chunk in the legacy wire layout.
pub fn serialize_chunk(chunk: &Chunk) -> (r: Vec<u8>)
    ensures
        r@ == legacy_chunk_payload_bytes(chunk.pos.x, chunk.pos.z),
{
    let mut w = PacketWriter::new();
    w.write_int(chunk.pos.x);
    w.write_int(chunk.pos.z);
    let ghost before = w.data@;
    let mut i: usize = 0;
    while i < 36
        invariant
            i <= 36,
            w.data@ == before + Seq::new(i as nat, |t: int| 0u8),
        decreases 36 - i,
    {
        w.write_byte(0x00);
        proof {
            assert(w.data@ =~= before + Seq::new((i + 1) as nat, |t: int| 0u8));
        }
        i = i + 1;
    }
    w.write_varint(0);
    w.write_varint(0);
    w.write_varint(0);
    let out = w.finish();
    proof {
        assert(u32_of_i32(0i32) == 0);
        assert(out@ =~= legacy_chunk_payload_bytes(chunk.pos.x, chunk.pos.z));
    }
    out
}

/// Whether a 16-block-tall section of a chunk holds any non-air block.
pub open spec fn spec_section_has_block(c: Chunk, section_y: int) -> bool {
    exists|x: int, y: int, z: int|
        0 <= x < 16 && section_y * 16 <= y < section_y * 16 + 16 && 0 <= z < 16 && #[trigger] c.grid()[block_index(x, y, z)] != BlockType::Air
}

/// Scan one section for a non-air block.
pub fn has_section_data(chunk: &Chunk, section_y: usize) -> (r: bool)
    requires
        chunk.wf(),
        section_y < 16,
    ensures
        r == spec_section_has_block(*chunk, section_y as int),
{
    let base_y = section_y * 16;
    let mut x: usize = 0;
    while x < 16
        invariant
            chunk.wf(),
            section_y < 16,
            base_y == section_y * 16,
            x <= 16,
            forall|a: int, b: int, c: int|
                0 <= a < x && base_y <= b < base_y + 16 && 0 <= c < 16 ==> #[trigger] chunk.grid()[block_index(a, b, c)] == BlockType::Air,
        decreases 16 - x,
    {
        let mut y: usize = base_y;
        while y < base_y + 16
            invariant
                chunk.wf(),
                section_y < 16,
                base_y == section_y * 16,
                x < 16,
                base_y <= y <= base_y + 16,
                forall|a: int, b: int, c: int|
                    0 <= a < x && base_y <= b < base_y + 16 && 0 <= c < 16 ==> #[trigger] chunk.grid()[block_index(a, b, c)] == BlockType::Air,
                forall|b: int, c: int|
                    base_y <= b < y && 0 <= c < 16 ==> #[trigger] chunk.grid()[block_index(x as int, b, c)] == BlockType::Air,
            decreases base_y + 16 - y,
        {
            let mut z: usize = 0;
            while z < 16
                invariant
                    chunk.wf(),
                    section_y < 16,
                    base_y == section_y * 16,
                    x < 16,
                    base_y <= y < base_y + 16,
                    z <= 16,
                    forall|a: int, b: int, c: int|
                        0 <= a < x && base_y <= b < base_y + 16 && 0 <= c < 16 ==> #[trigger] chunk.grid()[block_index(a, b, c)] == BlockType::Air,
                    forall|b: int, c: int|
                        base_y <= b < y && 0 <= c < 16 ==> #[trigger] chunk.grid()[block_index(x as int, b, c)] == BlockType::Air,
                    forall|c: int|
                        0 <= c < z ==> #[trigger] chunk.grid()[block_index(x as int, y as int, c)] == BlockType::Air,
                decreases 16 - z,
            {
                match chunk.get_block(x, y, z) {
                    Some(b) => {
                        if !matches!(b, BlockType::Air) {
                            return true;
                        }
                    },
                    None => {},
                }
                z = z + 1;
            }
            y = y + 1;
        }
        x = x + 1;
    }
    proof {
        if spec_section_has_block(*chunk, section_y as int) {
            let (a, b, c) = choose|a: int, b: int, c: int|
                0 <= a < 16 && section_y * 16 <= b < section_y * 16 + 16 && 0 <= c < 16
                    && #[trigger] chunk.grid()[block_index(a, b, c)] != BlockType::Air;
            assert(chunk.grid()[block_index(a, b, c)] == BlockType::Air);
        }
    }
    false
}

/// The Minecraft block-state id each block kind maps to on the wire.
pub open spec fn spec_block_state_id(b: BlockType) -> i32 {
    match b {
        BlockType::Air => 0,
        BlockType::Stone => 1,
        BlockType::Grass => 3,
        BlockType::Dirt => 3,
        BlockType::Cobblestone => 4,
        BlockType::OakLog => 17,
        BlockType::OakLeaves => 18,
        BlockType::OakPlanks => 5,
        BlockType::Water => 9,
        BlockType::Lava => 10,
        BlockType::Sand => 12,
        BlockType::Gravel => 13,
    }
}

/// Map a block kind to its wire block-state id.
pub fn block_type_to_id(block: BlockType) -> (r: i32)
    ensures
        r == spec_block_state_id(block),
{
    match block {
        BlockType::Air => 0,
        BlockType::Stone => 1,
        BlockType::Grass => 3,
        BlockType::Dirt => 3,
        BlockType::Cobblestone => 4,
        BlockType::OakLog => 17,
        BlockType::OakLeaves => 18,
        BlockType::OakPlanks => 5,
        BlockType::Water => 9,
        BlockType::Lava => 10,
        BlockType::Sand => 12,
        BlockType::Gravel => 13,
    }
}


/// The first position of an id in a palette, or -1 when absent.
pub open spec fn palette_first_pos(palette: Seq<i32>, id: i32) -> int
    decreases palette.len(),
{
    if palette.len() == 0 {
        -1
    } else if palette[0] == id {
        0
    } else {
        let r = palette_first_pos(palette.drop_first(), id);
        if r < 0 {
            -1
        } else {
            r + 1
        }
    }
}

/// The palette index an id encodes as: its first position, or zero (air)
/// when the palette does not hold it.
pub open spec fn palette_index_or_zero(palette: Seq<i32>, id: i32) -> int {
    if palette_first_pos(palette, id) < 0 {
        0
    } else {
        palette_first_pos(palette, id)
    }
}

pub proof fn lemma_palette_first_pos(palette: Seq<i32>, id: i32)
    ensures
        palette.contains(id) <==> palette_first_pos(palette, id) >= 0,
        0 <= palette_first_pos(palette, id) ==> palette_first_pos(palette, id) < palette.len()
            && palette[palette_first_pos(palette, id)] == id,
        palette_first_pos(palette, id) >= 0 ==> forall|j: int|
            0 <= j < palette_first_pos(palette, id) ==> palette[j] != id,
    decreases palette.len(),
{
    if palette.len() > 0 && palette[0] == id {
        assert(palette.contains(id)) by {
            assert(palette[0] == id);
        }
    } else if palette.len() > 0 {
        lemma_palette_first_pos(palette.drop_first(), id);
        if palette.contains(id) {
            let i = choose|i: int| 0 <= i < palette.len() && palette[i] == id;
            assert(palette.drop_first()[i - 1] == id);
            assert(palette.drop_first().contains(id));
        }
        if palette.drop_first().contains(id) {
            let i = choose|i: int| 0 <= i < palette.drop_first().len() && palette.drop_first()[i]
                == id;
            assert(palette[i + 1] == id);
        }
        if palette_first_pos(palette, id) >= 0 {
            assert forall|j: int|
                0 <= j < palette_first_pos(palette, id) implies palette[j] != id by {
                if j > 0 {
                    assert(palette.drop_first()[j - 1] == palette[j]);
                }
            }
        }
    }
}

/// Find an id's palette index: its first position, or zero when absent.
fn palette_position(palette: &Vec<i32>, id: i32) -> (r: usize)
    ensures
        r == palette_index_or_zero(palette@, id),
        r <= palette@.len(),
{
    let mut i: usize = 0;
    while i < palette.len()
        invariant
            i <= palette@.len(),
            forall|j: int| 0 <= j < i ==> palette@[j] != id,
        decreases palette@.len() - i,
    {
        if palette[i] == id {
            proof {
                lemma_palette_pos_prefix(palette@, id, i as int);
            }
            return i;
        }
        i = i + 1;
    }
    proof {
        lemma_palette_first_pos(palette@, id);
        if palette@.contains(id) {
            let t = choose|t: int| 0 <= t < palette@.len() && palette@[t] == id;
            assert(palette@[t] != id);
        }
    }
    0
}

proof fn lemma_palette_pos_prefix(palette: Seq<i32>, id: i32, i: int)
    requires
        0 <= i < palette.len(),
        palette[i] == id,
        forall|j: int| 0 <= j < i ==> palette[j] != id,
    ensures
        palette_first_pos(palette, id) == i,
    decreases i,
{
    if i > 0 {
        lemma_palette_pos_prefix(palette.drop_first(), id, i - 1);
    }
}

/// Whether a palette already holds an id.
fn palette_contains(palette: &Vec<i32>, id: i32) -> (r: bool)
    ensures
        r == palette@.contains(id),
{
    let mut i: usize = 0;
    while i < palette.len()
        invariant
            i <= palette@.len(),
            forall|j: int| 0 <= j < i ==> palette@[j] != id,
        decreases palette@.len() - i,
    {
        if palette[i] == id {
            assert(palette@.contains(id)) by {
                assert(palette@[i as int] == id);
            }
            return true;
        }
        i = i + 1;
    }
    proof {
        if palette@.contains(id) {
            let t = choose|t: int| 0 <= t < palette@.len() && palette@[t] == id;
            assert(palette@[t] != id);
        }
    }
    false
}

/// Build the palette of block-state ids a section uses: air first, then
/// every other id of the section once, in scan order.
pub fn build_palette(chunk: &Chunk, section_y: usize) -> (r: Vec<i32>)
    requires
        chunk.wf(),
        section_y < 16,
    ensures
        1 <= r@.len() <= 4097,
        r@[0] == 0,
        forall|i: int, j: int| 0 <= i < j < r@.len() ==> r@[i] != r@[j],
        forall|x: int, y: int, z: int|
            0 <= x < 16 && section_y * 16 <= y < section_y * 16 + 16 && 0 <= z < 16
                ==> r@.contains(
                spec_block_state_id(#[trigger] chunk.grid()[block_index(x, y, z)]),
            ),
{
    let base_y = section_y * 16;
    let mut palette: Vec<i32> = Vec::new();
    palette.push(0);
    proof {
        assert(palette@[0] == 0);
    }
    let mut x: usize = 0;
    while x < 16
        invariant
            chunk.wf(),
            section_y < 16,
            base_y == section_y * 16,
            x <= 16,
            1 <= palette@.len() <= 1 + x * 256,
            palette@[0] == 0,
            forall|i: int, j: int| 0 <= i < j < palette@.len() ==> palette@[i] != palette@[j],
            forall|a: int, b: int, c: int|
                0 <= a < x && base_y <= b < base_y + 16 && 0 <= c < 16 ==> palette@.contains(
                    spec_block_state_id(#[trigger] chunk.grid()[block_index(a, b, c)]),
                ),
        decreases 16 - x,
    {
        let mut y: usize = base_y;
        while y < base_y + 16
            invariant
                chunk.wf(),
                section_y < 16,
                base_y == section_y * 16,
                x < 16,
                base_y <= y <= base_y + 16,
                1 <= palette@.len() <= 1 + x * 256 + (y - base_y) * 16,
                palette@[0] == 0,
                forall|i: int, j: int| 0 <= i < j < palette@.len() ==> palette@[i] != palette@[j],
                forall|a: int, b: int, c: int|
                    0 <= a < x && base_y <= b < base_y + 16 && 0 <= c < 16 ==> palette@.contains(
                        spec_block_state_id(#[trigger] chunk.grid()[block_index(a, b, c)]),
                    ),
                forall|b: int, c: int|
                    base_y <= b < y && 0 <= c < 16 ==> palette@.contains(
                        spec_block_state_id(
                            #[trigger] chunk.grid()[block_index(x as int, b, c)],
                        ),
                    ),
            decreases base_y + 16 - y,
        {
            let mut z: usize = 0;
            while z < 16
                invariant
                    chunk.wf(),
                    section_y < 16,
                    base_y == section_y * 16,
                    x < 16,
                    base_y <= y < base_y + 16,
                    z <= 16,
                    1 <= palette@.len() <= 1 + x * 256 + (y - base_y) * 16 + z,
                    palette@[0] == 0,
                    forall|i: int, j: int|
                        0 <= i < j < palette@.len() ==> palette@[i] != palette@[j],
                    forall|a: int, b: int, c: int|
                        0 <= a < x && base_y <= b < base_y + 16 && 0 <= c < 16
                            ==> palette@.contains(
                            spec_block_state_id(#[trigger] chunk.grid()[block_index(a, b, c)]),
                        ),
                    forall|b: int, c: int|
                        base_y <= b < y && 0 <= c < 16 ==> palette@.contains(
                            spec_block_state_id(
                                #[trigger] chunk.grid()[block_index(x as int, b, c)],
                            ),
                        ),
                    forall|c: int|
                        0 <= c < z ==> palette@.contains(
                            spec_block_state_id(
                                #[trigger] chunk.grid()[block_index(x as int, y as int, c)],
                            ),
                        ),
                decreases 16 - z,
            {
                let ghost before = palette@;
                let block = match chunk.get_block(x, y, z) {
                    Some(b) => b,
                    None => BlockType::Air,
                };
                let block_id = block_type_to_id(block);
                if block_id != 0 && !palette_contains(&palette, block_id) {
                    palette.push(block_id);
                    proof {
                        assert(palette@.drop_last() =~= before);
                        assert(palette@[palette@.len() - 1] == block_id);
                        assert forall|i: int, j: int|
                            0 <= i < j < palette@.len() implies palette@[i] != palette@[j] by {
                            if j == palette@.len() - 1 {
                                assert(palette@[i] == before[i]);
                                assert(before.contains(before[i]));
                            } else {
                                assert(palette@[i] == before[i]);
                                assert(palette@[j] == before[j]);
                            }
                        }
                        assert forall|q: i32| before.contains(q) implies palette@.contains(
                            q,
                        ) by {
                            let t = choose|t: int| 0 <= t < before.len() && before[t] == q;
                            assert(palette@[t] == q);
                        }
                    }
                } else {
                    proof {
                        if block_id == 0 {
                            assert(palette@[0] == block_id);
                            assert(palette@.contains(block_id));
                        }
                    }
                }
                proof {
                    assert(palette@.contains(spec_block_state_id(
                        chunk.grid()[block_index(x as int, y as int, z as int)],
                    )));
                    assert forall|q: i32| before.contains(q) implies palette@.contains(q) by {
                        let t = choose|t: int| 0 <= t < before.len() && before[t] == q;
                        assert(palette@[t] == q);
                    }
                }
                z = z + 1;
            }
            y = y + 1;
        }
        x = x + 1;
    }
    palette
}

/// The palette-index bytes of one section, one byte per cell, rows in
/// `y`, `z`, `x` order.
pub open spec fn encoded_section_bytes(c: Chunk, section_y: int, palette: Seq<i32>) -> Seq<u8> {
    Seq::new(
        4096,
        |i: int|
            (palette_index_or_zero(
                palette,
                spec_block_state_id(
                    c.grid()[block_index(i % 16, section_y * 16 + i / 256, (i / 16) % 16)],
                ),
            ) % 256) as u8,
    )
}

/// Encode a section's blocks as palette indices, one byte per cell.
pub fn encode_block_data(chunk: &Chunk, section_y: usize, palette: &Vec<i32>) -> (r: Vec<u8>)
    requires
        chunk.wf(),
        section_y < 16,
    ensures
        r@ == encoded_section_bytes(*chunk, section_y as int, palette@),
{
    let base_y = section_y * 16;
    let mut blocks: Vec<u8> = Vec::new();
    let mut y: usize = base_y;
    while y < base_y + 16
        invariant
            chunk.wf(),
            section_y < 16,
            base_y == section_y * 16,
            base_y <= y <= base_y + 16,
            blocks@.len() == (y - base_y) * 256,
            forall|k: int| 0 <= k < blocks@.len() ==> blocks@[k] == encoded_section_bytes(
                *chunk,
                section_y as int,
                palette@,
            )[k],
        decreases base_y + 16 - y,
    {
        let mut z: usize = 0;
        while z < 16
            invariant
                chunk.wf(),
                section_y < 16,
                base_y == section_y * 16,
                base_y <= y < base_y + 16,
                z <= 16,
                blocks@.len() == (y - base_y) * 256 + z * 16,
                forall|k: int| 0 <= k < blocks@.len() ==> blocks@[k] == encoded_section_bytes(
                    *chunk,
                    section_y as int,
                    palette@,
                )[k],
            decreases 16 - z,
        {
            let mut x: usize = 0;
            while x < 16
                invariant
                    chunk.wf(),
                    section_y < 16,
                    base_y == section_y * 16,
                    base_y <= y < base_y + 16,
                    z < 16,
                    x <= 16,
                    blocks@.len() == (y - base_y) * 256 + z * 16 + x,
                    forall|k: int| 0 <= k < blocks@.len() ==> blocks@[k] == encoded_section_bytes(
                        *chunk,
                        section_y as int,
                        palette@,
                    )[k],
                decreases 16 - x,
            {
                let block = match chunk.get_block(x, y, z) {
                    Some(b) => b,
                    None => BlockType::Air,
                };
                let block_id = block_type_to_id(block);
                let palette_idx = palette_position(palette, block_id);
                blocks.push((palette_idx % 256) as u8);
                proof {
                    let k = blocks@.len() - 1;
                    assert(k == (y - base_y) * 256 + (z * 16 + x));
                    assert(k / 256 == y - base_y && k % 256 == z * 16 + x) by {
                        vstd::arithmetic::div_mod::lemma_fundamental_div_mod_converse(
                            k as int,
                            256,
                            (y - base_y) as int,
                            (z * 16 + x) as int,
                        );
                    }
                    assert((k % 256) / 16 == z && (k % 256) % 16 == x) by {
                        vstd::arithmetic::div_mod::lemma_fundamental_div_mod_converse(
                            (k % 256) as int,
                            16,
                            z as int,
                            x as int,
                        );
                    }
                    assert((k / 16) % 16 == (k % 256) / 16 && k % 16 == (k % 256) % 16) by {
                        vstd::arithmetic::div_mod::lemma_breakdown(k as int, 16, 16);
                    }
                }
                x = x + 1;
            }
            z = z + 1;
        }
        y = y + 1;
    }
    proof {
        assert(blocks@ =~= encoded_section_bytes(*chunk, section_y as int, palette@));
    }
    blocks
}


/// How many of the first `n` cells of a section (in `x`, `y`, `z` scan
/// order) hold a non-air block.
pub open spec fn nonair_upto(c: Chunk, section_y: int, n: int) -> int
    decreases n,
{
    if n <= 0 {
        0
    } else {
        let i = n - 1;
        nonair_upto(c, section_y, i) + if c.grid()[
            block_index(i / 256, section_y * 16 + (i / 16) % 16, i % 16)
        ] != BlockType::Air {
            1int
        } else {
            0int
        }
    }
}

/// The varint encodings of a palette's ids, in order.
pub open spec fn palette_varints(palette: Seq<i32>) -> Seq<u8>
    decreases palette.len(),
{
    if palette.len() == 0 {
        Seq::empty()
    } else {
        palette_varints(palette.drop_last()) + crate::varint::varint_bytes(
            u32_of_i32(palette.last()),
        )
    }
}

/// One serialized section: the non-air block count as a short, the palette
/// size and ids as varints, the data size in longs, then one palette index
/// byte per cell.
pub open spec fn spec_section_bytes(c: Chunk, section_y: int, palette: Seq<i32>) -> Seq<u8> {
    be_bytes(nonair_upto(c, section_y, 4096) as nat, 2) + crate::varint::varint_bytes(
        palette.len(),
    ) + palette_varints(palette) + crate::varint::varint_bytes(512) + encoded_section_bytes(
        c,
        section_y,
        palette,
    )
}

/// Count the non-air blocks of one section.
fn count_section_blocks(chunk: &Chunk, section_y: usize) -> (r: u16)
    requires
        chunk.wf(),
        section_y < 16,
    ensures
        r == nonair_upto(*chunk, section_y as int, 4096),
{
    let base_y = section_y * 16;
    let mut count: u16 = 0;
    let mut x: usize = 0;
    while x < 16
        invariant
            chunk.wf(),
            section_y < 16,
            base_y == section_y * 16,
            x <= 16,
            count == nonair_upto(*chunk, section_y as int, (x * 256) as int),
            count <= x * 256,
        decreases 16 - x,
    {
        let mut y: usize = base_y;
        while y < base_y + 16
            invariant
                chunk.wf(),
                section_y < 16,
                base_y == section_y * 16,
                x < 16,
                base_y <= y <= base_y + 16,
                count == nonair_upto(
                    *chunk,
                    section_y as int,
                    (x * 256 + (y - base_y) * 16) as int,
                ),
                count <= x * 256 + (y - base_y) * 16,
            decreases base_y + 16 - y,
        {
            let mut z: usize = 0;
            while z < 16
                invariant
                    chunk.wf(),
                    section_y < 16,
                    base_y == section_y * 16,
                    x < 16,
                    base_y <= y < base_y + 16,
                    z <= 16,
                    count == nonair_upto(
                        *chunk,
                        section_y as int,
                        (x * 256 + (y - base_y) * 16 + z) as int,
                    ),
                    count <= x * 256 + (y - base_y) * 16 + z,
                decreases 16 - z,
            {
                proof {
                    let i = (x * 256 + (y - base_y) * 16 + z) as int;
                    assert(i / 256 == x as int && i % 256 == (y - base_y) * 16 + z) by {
                        vstd::arithmetic::div_mod::lemma_fundamental_div_mod_converse(
                            i,
                            256,
                            x as int,
                            ((y - base_y) * 16 + z) as int,
                        );
                    }
                    assert((i % 256) / 16 == y - base_y && (i % 256) % 16 == z as int) by {
                        vstd::arithmetic::div_mod::lemma_fundamental_div_mod_converse(
                            i % 256,
                            16,
                            (y - base_y) as int,
                            z as int,
                        );
                    }
                    assert((i / 16) % 16 == (i % 256) / 16 && i % 16 == (i % 256) % 16) by {
                        vstd::arithmetic::div_mod::lemma_breakdown(i, 16, 16);
                    }
                }
                match chunk.get_block(x, y, z) {
                    Some(b) => {
                        if !matches!(b, BlockType::Air) {
                            count = count + 1;
                        }
                    },
                    None => {},
                }
                z = z + 1;
            }
            y = y + 1;
        }
        x = x + 1;
    }
    count
}

/// Serialize one section into a packet: count, palette, and index bytes.
/// The palette is rebuilt from the section, so its exact ids stay abstract;
/// what is written is pinned to whatever palette came back.
pub fn serialize_section(w: &mut PacketWriter, chunk: &Chunk, section_y: usize)
    requires
        chunk.wf(),
        section_y < 16,
    ensures
        exists|p: Seq<i32>|
            1 <= p.len() <= 4097 && p[0] == 0 && (forall|i: int, j: int|
                0 <= i < j < p.len() ==> p[i] != p[j]) && (forall|x: int, y: int, z: int|
                0 <= x < 16 && section_y * 16 <= y < section_y * 16 + 16 && 0 <= z < 16
                    ==> p.contains(
                    spec_block_state_id(#[trigger] chunk.grid()[block_index(x, y, z)]),
                )) && final(w).data@ == old(w).data@ + #[trigger] spec_section_bytes(
                *chunk,
                section_y as int,
                p,
            ),
{
    let block_count = count_section_blocks(chunk, section_y);
    proof {
        lemma_nonair_bound(*chunk, section_y as int, 4096);
    }
    w.write_short(block_count as i16);
    let palette = build_palette(chunk, section_y);
    proof {
        assert(u32_of_i32(palette@.len() as i32) == palette@.len());
    }
    w.write_varint(palette.len() as i32);
    let ghost before = w.data@;
    let mut j: usize = 0;
    while j < palette.len()
        invariant
            j <= palette@.len(),
            w.data@ == before + palette_varints(palette@.take(j as int)),
        decreases palette@.len() - j,
    {
        proof {
            assert(palette@.take(j + 1).drop_last() =~= palette@.take(j as int));
            assert(palette@.take(j + 1).last() == palette@[j as int]);
        }
        w.write_varint(palette[j]);
        j = j + 1;
    }
    proof {
        assert(palette@.take(palette@.len() as int) =~= palette@);
    }
    let data = encode_block_data(chunk, section_y, &palette);
    proof {
        assert(u32_of_i32(512i32) == 512);
    }
    w.write_varint((data.len() / 8) as i32);
    w.write_bytes(data.as_slice());
    proof {
        assert(w.data@ == old(w).data@ + spec_section_bytes(
            *chunk,
            section_y as int,
            palette@,
        )) by {
            assert(u16_of_i16(block_count as i16) == nonair_upto(
                *chunk,
                section_y as int,
                4096,
            ) as nat);
        }
    }
}

/// At most `n` of the first `n` cells are non-air.
proof fn lemma_nonair_bound(c: Chunk, section_y: int, n: int)
    ensures
        0 <= nonair_upto(c, section_y, n) <= if n >= 0 {
            n
        } else {
            0
        },
    decreases n,
{
    if n > 0 {
        lemma_nonair_bound(c, section_y, n - 1);
    }
}

} // verus!
