use vstd::prelude::*;
use crate::chunk::{block_index, BlockType, Chunk};

verus! {

/// The biome assigned to a terrain column.
#[derive(Debug, Clone, Copy, PartialEq, Eq, Structural)]
pub enum Biome {
    Ocean,
    Beach,
    Plains,
    Forest,
    Mountain,
    Snow,
    SnowMountain,
    Desert,
}

/// A 64-bit product reduced modulo 2^64, the wrapping multiply.
pub open spec fn wmul(a: u64, b: u64) -> u64 {
    ((a * b) % 0x1_0000_0000_0000_0000) as u64
}

/// The sign-extended 64-bit reading of a 32-bit coordinate.
pub open spec fn u64_sext(v: i32) -> u64 {
    if v >= 0 {
        v as u64
    } else {
        (v + 0x1_0000_0000_0000_0000) as u64
    }
}

/// The integer core of the lattice noise: multiplicative hashing of the
/// cell coordinates with the seed, masked to 31 bits. The float pipeline
/// divides this by 2^31 - 1 to get a sample in [0, 1].
pub open spec fn spec_lattice_hash(x: i32, z: i32, seed: u64) -> u64 {
    wmul(wmul(wmul(seed, 73856093) ^ u64_sext(x), 19349663) ^ u64_sext(z), 83492791) & 0x7fffffff
}

/// Sign-extend a 32-bit coordinate into 64 bits.
fn sext(v: i32) -> (r: u64)
    ensures
        r == u64_sext(v),
{
    if v >= 0 {
        v as u64
    } else {
        let m: u64 = (-(v as i64)) as u64;
        0u64.wrapping_sub(m)
    }
}

/// The deterministic lattice hash: the same cell and seed give the same
/// value, in every process and on every machine.
pub fn lattice_hash(x: i32, z: i32, seed: u64) -> (r: u64)
    ensures
        r == spec_lattice_hash(x, z, seed),
        r <= 0x7fffffff,
{
    let mut h = seed.wrapping_mul(73856093);
    h = h ^ sext(x);
    h = h.wrapping_mul(19349663);
    h = h ^ sext(z);
    h = h.wrapping_mul(83492791);
    let r = h & 0x7fffffff;
    proof {
        assert(h & 0x7fffffff <= 0x7fffffff) by (bit_vector);
    }
    r
}

/// The biome of a column from its elevation and local slope, both in
/// thousandths: the snowline above 0.7, mountains on steep ground, forest
/// and plains between, beach near sea level, ocean below.
pub open spec fn spec_biome(elevation_milli: int, slope_milli: int) -> Biome {
    if elevation_milli > 700 {
        if slope_milli > 300 {
            Biome::SnowMountain
        } else {
            Biome::Snow
        }
    } else if elevation_milli > 500 {
        if slope_milli > 250 {
            Biome::Mountain
        } else {
            Biome::Forest
        }
    } else if elevation_milli > 100 {
        if slope_milli > 200 {
            Biome::Mountain
        } else if elevation_milli > 300 {
            Biome::Forest
        } else {
            Biome::Plains
        }
    } else if elevation_milli > -50 {
        Biome::Beach
    } else {
        Biome::Ocean
    }
}

/// Classify a column's biome from elevation and slope in thousandths.
pub fn determine_biome(elevation_milli: i32, slope_milli: i32) -> (r: Biome)
    ensures
        r == spec_biome(elevation_milli as int, slope_milli as int),
{
    if elevation_milli > 700 {
        if slope_milli > 300 {
            Biome::SnowMountain
        } else {
            Biome::Snow
        }
    } else if elevation_milli > 500 {
        if slope_milli > 250 {
            Biome::Mountain
        } else {
            Biome::Forest
        }
    } else if elevation_milli > 100 {
        if slope_milli > 200 {
            Biome::Mountain
        } else if elevation_milli > 300 {
            Biome::Forest
        } else {
            Biome::Plains
        }
    } else if elevation_milli > -50 {
        Biome::Beach
    } else {
        Biome::Ocean
    }
}

/// The column height an elevation maps to: [-1, 1] in thousandths onto
/// [10, 200] blocks.
pub open spec fn spec_block_height(elevation_milli: int) -> int {
    ((elevation_milli + 1000) * 190) / 2000 + 10
}

/// Map an elevation in thousandths to its block height.
pub fn elevation_to_block_height(elevation_milli: i32) -> (r: usize)
    requires
        -1000 <= elevation_milli <= 1000,
    ensures
        r == spec_block_height(elevation_milli as int),
        10 <= r <= 200,
{
    let shifted = (elevation_milli + 1000) as u32;
    ((shifted * 190) / 2000 + 10) as usize
}

/// The block height of the sea: what an elevation of -0.05 maps to.
pub const SEA_LEVEL_HEIGHT: usize = 100;

/// The block a biome lays down at depth `height - 1 - y` below the surface:
/// grass and dirt stacks inland, sand on beaches and deserts, cobblestone
/// streaks in the mountains; air at and above the surface.
pub open spec fn spec_block_for_biome(y: int, height: int, biome: Biome) -> BlockType {
    if y >= height {
        BlockType::Air
    } else {
        let depth = height - 1 - y;
        match biome {
            Biome::Ocean => BlockType::Stone,
            Biome::Beach => if depth <= 2 {
                BlockType::Sand
            } else {
                BlockType::Stone
            },
            Biome::Plains => if depth == 0 {
                BlockType::Grass
            } else if depth <= 3 {
                BlockType::Dirt
            } else {
                BlockType::Stone
            },
            Biome::Forest => if depth == 0 {
                BlockType::Grass
            } else if depth <= 4 {
                BlockType::Dirt
            } else {
                BlockType::Stone
            },
            Biome::Mountain => if depth <= 2 {
                BlockType::Stone
            } else if depth <= 6 {
                BlockType::Cobblestone
            } else {
                BlockType::Stone
            },
            Biome::Snow => if depth == 0 {
                BlockType::Grass
            } else if depth <= 2 {
                BlockType::Dirt
            } else {
                BlockType::Stone
            },
            Biome::SnowMountain => if depth <= 1 {
                BlockType::Stone
            } else {
                BlockType::Cobblestone
            },
            Biome::Desert => if depth <= 4 {
                BlockType::Sand
            } else {
                BlockType::Stone
            },
        }
    }
}

/// Pick the block for one cell of a column.
pub fn get_block_for_biome(y: usize, height: usize, biome: Biome) -> (r: BlockType)
    requires
        height <= 256,
    ensures
        r == spec_block_for_biome(y as int, height as int, biome),
{
    if y >= height {
        return BlockType::Air;
    }
    let depth = height - 1 - y;
    match biome {
        Biome::Ocean => BlockType::Stone,
        Biome::Beach => if depth <= 2 {
            BlockType::Sand
        } else {
            BlockType::Stone
        },
        Biome::Plains => if depth == 0 {
            BlockType::Grass
        } else if depth <= 3 {
            BlockType::Dirt
        } else {
            BlockType::Stone
        },
        Biome::Forest => if depth == 0 {
            BlockType::Grass
        } else if depth <= 4 {
            BlockType::Dirt
        } else {
            BlockType::Stone
        },
        Biome::Mountain => if depth <= 2 {
            BlockType::Stone
        } else if depth <= 6 {
            BlockType::Cobblestone
        } else {
            BlockType::Stone
        },
        Biome::Snow => if depth == 0 {
            BlockType::Grass
        } else if depth <= 2 {
            BlockType::Dirt
        } else {
            BlockType::Stone
        },
        Biome::SnowMountain => if depth <= 1 {
            BlockType::Stone
        } else {
            BlockType::Cobblestone
        },
        Biome::Desert => if depth <= 4 {
            BlockType::Sand
        } else {
            BlockType::Stone
        },
    }
}

/// The block one filled column shows at cell `y`: the biome's stack below
/// the surface, water from the surface up to sea level on low ground, and
/// whatever stood there before above that.
pub open spec fn spec_column_block(y: int, height: int, biome: Biome, prior: BlockType) -> BlockType {
    if y < height {
        spec_block_for_biome(y, height, biome)
    } else if height < 100 && y < 100 {
        BlockType::Water
    } else {
        prior
    }
}

/// Fill one column of a fresh chunk from its height and biome: the biome's
/// blocks up to the height, then water up to sea level on low ground.
/// Cells of other columns are untouched.
pub fn fill_column(chunk: &mut Chunk, x: usize, z: usize, height: usize, biome: Biome)
    requires
        old(chunk).wf(),
        x < 16,
        z < 16,
        height <= 256,
    ensures
        final(chunk).wf(),
        final(chunk).pos == old(chunk).pos,
        forall|y: int|
            0 <= y < 256 ==> final(chunk).grid()[block_index(x as int, y, z as int)]
                == spec_column_block(
                y,
                height as int,
                biome,
                old(chunk).grid()[block_index(x as int, y, z as int)],
            ),
        forall|i: int|
            0 <= i < 65536 && (forall|y: int|
                0 <= y < 256 ==> i != block_index(x as int, y, z as int)) ==> final(chunk).grid()[i] == old(chunk).grid()[i],
{
    let mut y: usize = 0;
    while y < height
        invariant
            chunk.wf(),
            chunk.pos == old(chunk).pos,
            x < 16,
            z < 16,
            y <= height <= 256,
            forall|t: int|
                0 <= t < y ==> chunk.grid()[block_index(x as int, t, z as int)]
                    == spec_block_for_biome(t, height as int, biome),
            forall|i: int|
                0 <= i < 65536 && (forall|t: int|
                    0 <= t < y ==> i != block_index(x as int, t, z as int)) ==> chunk.grid()[i]
                    == old(chunk).grid()[i],
        decreases height - y,
    {
        let block = get_block_for_biome(y, height, biome);
        chunk.set_block(x, y, z, block);
        y = y + 1;
    }
    if height < SEA_LEVEL_HEIGHT {
        let mut y: usize = height;
        while y < SEA_LEVEL_HEIGHT
            invariant
                chunk.wf(),
                chunk.pos == old(chunk).pos,
                x < 16,
                z < 16,
                height <= y <= 100,
                height < 100,
                forall|t: int|
                    0 <= t < height ==> chunk.grid()[block_index(x as int, t, z as int)]
                        == spec_block_for_biome(t, height as int, biome),
                forall|t: int|
                    height <= t < y ==> chunk.grid()[block_index(x as int, t, z as int)]
                        == BlockType::Water,
                forall|i: int|
                    0 <= i < 65536 && (forall|t: int|
                        0 <= t < y ==> i != block_index(x as int, t, z as int)) ==> chunk.grid()[i]
                        == old(chunk).grid()[i],
            decreases 100 - y,
        {
            chunk.set_block(x, y, z, BlockType::Water);
            y = y + 1;
        }
    }
}


/// A biome per cell of a square tile, row-major. Classification happens
/// cell by cell through `determine_biome`; unset cells default to plains,
/// and out-of-bounds reads come back as ocean.
pub struct BiomeMap {
    pub data: Vec<Biome>,
    pub width: usize,
    pub height: usize,
}

impl BiomeMap {
    pub open spec fn wf(self) -> bool {
        self.data@.len() == self.width * self.height
    }

    /// A map of the given extent, all plains.
    pub fn new(width: usize, height: usize) -> (r: Self)
        requires
            width * height <= 0x1000_0000,
        ensures
            r.wf(),
            r.width == width,
            r.height == height,
            forall|i: int| 0 <= i < r.data@.len() ==> r.data@[i] == Biome::Plains,
    {
        let total = width * height;
        let mut data: Vec<Biome> = Vec::new();
        let mut i: usize = 0;
        while i < total
            invariant
                i <= total,
                data@.len() == i,
                forall|j: int| 0 <= j < i ==> data@[j] == Biome::Plains,
            decreases total - i,
        {
            data.push(Biome::Plains);
            i = i + 1;
        }
        BiomeMap { data, width, height }
    }

    /// Set one cell's biome; out-of-bounds writes change nothing.
    pub fn set(&mut self, x: usize, y: usize, biome: Biome)
        requires
            old(self).wf(),
        ensures
            final(self).wf(),
            final(self).width == old(self).width,
            final(self).height == old(self).height,
            x < old(self).width && y < old(self).height ==> final(self).data@ == old(
                self,
            ).data@.update(y * old(self).width + x, biome),
            !(x < old(self).width && y < old(self).height) ==> *final(self) == *old(self),
    {
        if x < self.width && y < self.height {
            let n = self.data.len();
            proof {
                lemma_grid_index(x as int, y as int, self.width as int, self.height as int);
            }
            let idx = y * self.width + x;
            self.data.set(idx, biome);
        }
    }

    /// The biome at a cell; out-of-bounds reads are ocean.
    pub fn get(&self, x: usize, y: usize) -> (r: Biome)
        requires
            self.wf(),
        ensures
            r == if x < self.width && y < self.height {
                self.data@[y * self.width + x]
            } else {
                Biome::Ocean
            },
    {
        if x < self.width && y < self.height {
            let n = self.data.len();
            proof {
                lemma_grid_index(x as int, y as int, self.width as int, self.height as int);
            }
            self.data[y * self.width + x]
        } else {
            Biome::Ocean
        }
    }
}

/// A row-major cell index lies within the grid.
proof fn lemma_grid_index(x: int, y: int, width: int, height: int)
    requires
        0 <= x < width,
        0 <= y < height,
    ensures
        0 <= y * width + x < width * height,
{
    assert(y * width + x < width * height) by (nonlinear_arith)
        requires
            0 <= x < width,
            0 <= y < height;
}

} // verus!
