use vstd::prelude::*;

verus! {

/// Side length of a chunk in blocks.
pub const TERRAIN_CHUNK_SIZE: usize = 16;

/// Height of a chunk in blocks.
pub const TERRAIN_CHUNK_HEIGHT: usize = 256;

/// Blocks in one chunk: 16 x 256 x 16.
pub const CHUNK_VOLUME: usize = 65536;

/// A chunk coordinate: each chunk covers a 16 x 256 x 16 voxel column.
#[derive(Debug, Clone, Copy, PartialEq, Eq, Hash, Structural)]
pub struct ChunkPos {
    pub x: i32,
    pub z: i32,
}

/// Floor division of a block coordinate by 16 (an arithmetic shift right by 4).
pub fn block_coord_to_chunk(v: i32) -> (r: i32)
    ensures
        r == v as int / 16,
{
    if v >= 0 {
        let q = (v as u32) / 16;
        q as i32
    } else {
        let m: u64 = (-(v as i64)) as u64;
        let q = (m + 15) / 16;
        let r = (-(q as i64)) as i32;
        proof {
            let vi = v as int;
            let mi = m as int;
            let qi = q as int;
            assert(16 * qi <= mi + 15 < 16 * qi + 16) by {
                vstd::arithmetic::div_mod::lemma_fundamental_div_mod(mi + 15, 16);
            }
            assert(16 * (vi / 16) <= vi < 16 * (vi / 16) + 16) by {
                vstd::arithmetic::div_mod::lemma_fundamental_div_mod(vi, 16);
            }
        }
        r
    }
}

/// Floor division of a chunk coordinate by 32 (an arithmetic shift right by 5).
pub fn chunk_coord_to_region(v: i32) -> (r: i32)
    ensures
        r == v as int / 32,
{
    if v >= 0 {
        let q = (v as u32) / 32;
        q as i32
    } else {
        let m: u64 = (-(v as i64)) as u64;
        let q = (m + 31) / 32;
        let r = (-(q as i64)) as i32;
        proof {
            let vi = v as int;
            let mi = m as int;
            let qi = q as int;
            assert(32 * qi <= mi + 31 < 32 * qi + 32) by {
                vstd::arithmetic::div_mod::lemma_fundamental_div_mod(mi + 31, 32);
            }
            assert(32 * (vi / 32) <= vi < 32 * (vi / 32) + 32) by {
                vstd::arithmetic::div_mod::lemma_fundamental_div_mod(vi, 32);
            }
        }
        r
    }
}

impl ChunkPos {
    pub fn new(x: i32, z: i32) -> (r: Self)
        ensures
            r.x == x,
            r.z == z,
    {
        ChunkPos { x, z }
    }

    /// The chunk that holds a block coordinate: floor division by 16 on each axis.
    pub fn from_block_pos(x: i32, z: i32) -> (r: Self)
        ensures
            r.x == x as int / 16,
            r.z == z as int / 16,
    {
        ChunkPos { x: block_coord_to_chunk(x), z: block_coord_to_chunk(z) }
    }
}

/// The closed set of block kinds a world may hold.
#[derive(Debug, Clone, Copy, PartialEq, Eq, Structural)]
pub enum BlockType {
    Air,
    Stone,
    Grass,
    Dirt,
    Cobblestone,
    OakLog,
    OakLeaves,
    OakPlanks,
    Water,
    Lava,
    Sand,
    Gravel,
}

/// The numeric code of each block kind on disk and on the wire.
pub open spec fn spec_block_code(b: BlockType) -> u16 {
    match b {
        BlockType::Air => 0,
        BlockType::Stone => 1,
        BlockType::Grass => 2,
        BlockType::Dirt => 3,
        BlockType::Cobblestone => 4,
        BlockType::OakLog => 5,
        BlockType::OakLeaves => 6,
        BlockType::OakPlanks => 7,
        BlockType::Water => 9,
        BlockType::Lava => 10,
        BlockType::Sand => 12,
        BlockType::Gravel => 13,
    }
}

/// The block kind a numeric code stands for; unknown codes give `None`.
pub open spec fn spec_block_from_u16(v: u16) -> Option<BlockType> {
    if v == 0 {
        Some(BlockType::Air)
    } else if v == 1 {
        Some(BlockType::Stone)
    } else if v == 2 {
        Some(BlockType::Grass)
    } else if v == 3 {
        Some(BlockType::Dirt)
    } else if v == 4 {
        Some(BlockType::Cobblestone)
    } else if v == 5 {
        Some(BlockType::OakLog)
    } else if v == 6 {
        Some(BlockType::OakLeaves)
    } else if v == 7 {
        Some(BlockType::OakPlanks)
    } else if v == 9 {
        Some(BlockType::Water)
    } else if v == 10 {
        Some(BlockType::Lava)
    } else if v == 12 {
        Some(BlockType::Sand)
    } else if v == 13 {
        Some(BlockType::Gravel)
    } else {
        None
    }
}

impl BlockType {
    /// The numeric code of this block kind.
    pub fn code(self) -> (r: u16)
        ensures
            r == spec_block_code(self),
    {
        match self {
            BlockType::Air => 0,
            BlockType::Stone => 1,
            BlockType::Grass => 2,
            BlockType::Dirt => 3,
            BlockType::Cobblestone => 4,
            BlockType::OakLog => 5,
            BlockType::OakLeaves => 6,
            BlockType::OakPlanks => 7,
            BlockType::Water => 9,
            BlockType::Lava => 10,
            BlockType::Sand => 12,
            BlockType::Gravel => 13,
        }
    }

    /// The block kind a numeric code stands for; unknown codes are rejected.
    pub fn from_u16(value: u16) -> (r: Option<BlockType>)
        ensures
            r == spec_block_from_u16(value),
    {
        match value {
            0 => Some(BlockType::Air),
            1 => Some(BlockType::Stone),
            2 => Some(BlockType::Grass),
            3 => Some(BlockType::Dirt),
            4 => Some(BlockType::Cobblestone),
            5 => Some(BlockType::OakLog),
            6 => Some(BlockType::OakLeaves),
            7 => Some(BlockType::OakPlanks),
            9 => Some(BlockType::Water),
            10 => Some(BlockType::Lava),
            12 => Some(BlockType::Sand),
            13 => Some(BlockType::Gravel),
            _ => None,
        }
    }
}

/// The block round trip: every block kind comes back from its own code.
pub proof fn lemma_block_code_round_trip(b: BlockType)
    ensures
        spec_block_from_u16(spec_block_code(b)) == Some(b),
{
}

/// The flat index of chunk-local block coordinates: `y` outermost, then
/// `x`, then `z`, so a chunk serializes in exactly this order.
pub open spec fn block_index(x: int, y: int, z: int) -> int {
    y * 256 + x * 16 + z
}

/// A 16 x 256 x 16 column of blocks at a chunk coordinate. The `modified`
/// flag is set on creation and on every mutation, and cleared only by
/// `mark_clean`.
#[derive(Debug, Clone)]
pub struct Chunk {
    pub pos: ChunkPos,
    pub blocks: Vec<BlockType>,
    pub modified: bool,
}

impl Chunk {
    /// A chunk always holds exactly one block per cell.
    pub open spec fn wf(self) -> bool {
        self.grid().len() == 65536
    }

    /// The chunk's blocks as a flat sequence in `y`, `x`, `z` order.
    pub open spec fn grid(self) -> Seq<BlockType> {
        self.blocks@
    }

    /// A fresh chunk: all air, marked modified.
    pub fn new(pos: ChunkPos) -> (r: Chunk)
        ensures
            r.wf(),
            r.pos == pos,
            r.modified,
            forall|i: int| 0 <= i < 65536 ==> r.grid()[i] == BlockType::Air,
    {
        let mut blocks: Vec<BlockType> = Vec::new();
        let mut i: usize = 0;
        while i < 65536
            invariant
                i <= 65536,
                blocks@.len() == i,
                forall|j: int| 0 <= j < i ==> blocks@[j] == BlockType::Air,
            decreases 65536 - i,
        {
            blocks.push(BlockType::Air);
            i = i + 1;
        }
        Chunk { pos, blocks, modified: true }
    }

    /// The block at chunk-local coordinates; out-of-bounds reads give `None`.
    pub fn get_block(&self, x: usize, y: usize, z: usize) -> (r: Option<BlockType>)
        requires
            self.wf(),
        ensures
            r == if x < 16 && y < 256 && z < 16 {
                Some(self.grid()[block_index(x as int, y as int, z as int)])
            } else {
                None::<BlockType>
            },
    {
        if x < 16 && y < 256 && z < 16 {
            Some(self.blocks[y * 256 + x * 16 + z])
        } else {
            None
        }
    }

    /// Set the block at chunk-local coordinates and mark the chunk modified;
    /// out-of-bounds writes change nothing and report `false`.
    pub fn set_block(&mut self, x: usize, y: usize, z: usize, block: BlockType) -> (r: bool)
        requires
            old(self).wf(),
        ensures
            final(self).wf(),
            final(self).pos == old(self).pos,
            r == (x < 16 && y < 256 && z < 16),
            r ==> final(self).grid() == old(self).grid().update(
                block_index(x as int, y as int, z as int),
                block,
            ) && final(self).modified,
            !r ==> *final(self) == *old(self),
    {
        if x < 16 && y < 256 && z < 16 {
            let idx = y * 256 + x * 16 + z;
            self.blocks.set(idx, block);
            self.modified = true;
            true
        } else {
            false
        }
    }

    /// An equal copy of this chunk, cell for cell.
    pub fn clone_chunk(&self) -> (r: Chunk)
        requires
            self.wf(),
        ensures
            r.wf(),
            r.pos == self.pos,
            r.grid() == self.grid(),
            r.modified == self.modified,
    {
        let mut blocks: Vec<BlockType> = Vec::new();
        let mut i: usize = 0;
        while i < self.blocks.len()
            invariant
                self.wf(),
                i <= self.blocks@.len(),
                blocks@.len() == i,
                forall|j: int| 0 <= j < i ==> blocks@[j] == self.blocks@[j],
            decreases self.blocks@.len() - i,
        {
            blocks.push(self.blocks[i]);
            i = i + 1;
        }
        proof {
            assert(blocks@ =~= self.blocks@);
        }
        Chunk { pos: self.pos, blocks, modified: self.modified }
    }

    /// Whether the chunk changed since it was last marked clean.
    pub fn is_modified(&self) -> (r: bool)
        ensures
            r == self.modified,
    {
        self.modified
    }

    /// Clear the modified flag, after a successful persist.
    pub fn mark_clean(&mut self)
        ensures
            final(self).modified == false,
            final(self).pos == old(self).pos,
            final(self).grid() == old(self).grid(),
            old(self).wf() ==> final(self).wf(),
    {
        self.modified = false;
    }
}

} // verus!
