use vstd::prelude::*;
use crate::chunk::{Chunk, ChunkPos};
use crate::region::{spec_region_valid, RegionPos};

verus! {

/// Per-chunk memory estimate used for capacity arithmetic.
pub const CHUNK_SIZE_BYTES: usize = 237568;

/// Initial cache budget in megabytes.
pub const INITIAL_BUFFER_MB: usize = 256;

/// Maximum cache budget in megabytes.
pub const MAX_BUFFER_MB: usize = 2048;

/// The cache's initial capacity in chunks, from the byte budget.
pub fn initial_chunk_capacity() -> (r: usize)
    ensures
        r == (INITIAL_BUFFER_MB * 1024 * 1024) as int / (CHUNK_SIZE_BYTES as int),
        r >= 1,
{
    INITIAL_BUFFER_MB * 1024 * 1024 / CHUNK_SIZE_BYTES
}

/// The cache's maximum capacity in chunks, from the byte budget.
pub fn max_chunk_capacity() -> (r: usize)
    ensures
        r == (MAX_BUFFER_MB * 1024 * 1024) as int / (CHUNK_SIZE_BYTES as int),
        r >= (INITIAL_BUFFER_MB * 1024 * 1024) as int / (CHUNK_SIZE_BYTES as int),
{
    MAX_BUFFER_MB * 1024 * 1024 / CHUNK_SIZE_BYTES
}

/// Whether a save should trigger a full flush: the cache is over half full.
pub fn needs_flush(len: usize, current_capacity: usize) -> (r: bool)
    ensures
        r == (len > current_capacity / 2),
{
    len > current_capacity / 2
}

/// The chunk coordinates of the spawn pregeneration pass: the 16 x 16
/// square of chunks with both axes in [-8, 8), in scan order.
pub fn spawn_area_positions() -> (r: Vec<ChunkPos>)
    ensures
        r@.len() == 256,
        forall|i: int|
            0 <= i < 256 ==> (#[trigger] r@[i]).x == i / 16 - 8 && r@[i].z == i % 16 - 8,
{
    let mut out: Vec<ChunkPos> = Vec::new();
    let mut cx: i32 = -8;
    while cx < 8
        invariant
            -8 <= cx <= 8,
            out@.len() == (cx + 8) * 16,
            forall|i: int|
                0 <= i < out@.len() ==> (#[trigger] out@[i]).x == i / 16 - 8 && out@[i].z == i % 16
                    - 8,
        decreases 8 - cx,
    {
        let mut cz: i32 = -8;
        while cz < 8
            invariant
                -8 <= cx < 8,
                -8 <= cz <= 8,
                out@.len() == (cx + 8) * 16 + (cz + 8),
                forall|i: int|
                    0 <= i < out@.len() ==> (#[trigger] out@[i]).x == i / 16 - 8 && out@[i].z == i
                        % 16 - 8,
            decreases 8 - cz,
        {
            out.push(ChunkPos { x: cx, z: cz });
            proof {
                let n = out@.len() - 1;
                assert(n == (cx + 8) * 16 + (cz + 8));
                assert(n / 16 == cx + 8 && n % 16 == cz + 8) by {
                    vstd::arithmetic::div_mod::lemma_fundamental_div_mod_converse(
                        n as int,
                        16,
                        (cx + 8) as int,
                        (cz + 8) as int,
                    );
                }
            }
            cz = cz + 1;
        }
        cx = cx + 1;
    }
    out
}

/// How many chunks all groups hold together.
pub open spec fn groups_total(gs: Seq<(RegionPos, Vec<Chunk>)>) -> nat
    decreases gs.len(),
{
    if gs.len() == 0 {
        0
    } else {
        groups_total(gs.drop_last()) + gs.last().1@.len()
    }
}

/// One group is sound: every chunk in it is well-formed and belongs to the
/// group's region.
pub open spec fn group_ok(g: (RegionPos, Vec<Chunk>)) -> bool {
    forall|j: int|
        0 <= j < g.1@.len() ==> (#[trigger] g.1@[j]).wf() && g.1@[j].pos.x as int / 32 == g.0.x
            && g.1@[j].pos.z as int / 32 == g.0.z
}

/// Partition chunks by their containing region, dropping chunks whose
/// region falls outside the world bound and counting them. Every persisted
/// chunk therefore lies in a valid region, each group holds exactly the
/// chunks of its own region, and no region appears twice.
pub fn group_chunks_by_region(chunks: Vec<Chunk>) -> (r: (Vec<(RegionPos, Vec<Chunk>)>, usize))
    requires
        forall|i: int| 0 <= i < chunks@.len() ==> (#[trigger] chunks@[i]).wf(),
    ensures
        forall|g: int| 0 <= g < r.0@.len() ==> spec_region_valid((#[trigger] r.0@[g]).0),
        forall|g: int| 0 <= g < r.0@.len() ==> group_ok(#[trigger] r.0@[g]),
        forall|g1: int, g2: int| 0 <= g1 < g2 < r.0@.len() ==> r.0@[g1].0 != r.0@[g2].0,
        groups_total(r.0@) + r.1 == chunks@.len(),
{
    let mut groups: Vec<(RegionPos, Vec<Chunk>)> = Vec::new();
    let mut skipped: usize = 0;
    let mut i: usize = 0;
    while i < chunks.len()
        invariant
            i <= chunks@.len(),
            forall|t: int| 0 <= t < chunks@.len() ==> (#[trigger] chunks@[t]).wf(),
            forall|g: int| 0 <= g < groups@.len() ==> spec_region_valid((#[trigger] groups@[g]).0),
            forall|g: int| 0 <= g < groups@.len() ==> group_ok(#[trigger] groups@[g]),
            forall|g1: int, g2: int|
                0 <= g1 < g2 < groups@.len() ==> groups@[g1].0 != groups@[g2].0,
            groups_total(groups@) + skipped == i,
            skipped <= i,
        decreases chunks@.len() - i,
    {
        let chunk = &chunks[i];
        let rp = RegionPos::from_chunk(chunk.pos.x, chunk.pos.z);
        if !rp.is_valid() {
            skipped = skipped + 1;
            i = i + 1;
            continue ;
        }
        // Look for this region's group.
        let mut gi: usize = 0;
        let mut found = false;
        while !found && gi < groups.len()
            invariant
                gi <= groups@.len(),
                !found ==> forall|g: int| 0 <= g < gi ==> (#[trigger] groups@[g]).0 != rp,
                found ==> gi < groups@.len() && groups@[gi as int].0 == rp,
            decreases groups@.len() - gi, (if found { 0int } else { 1int }),
        {
            if groups[gi].0.x == rp.x && groups[gi].0.z == rp.z {
                found = true;
            } else {
                gi = gi + 1;
            }
        }
        if found {
            let ghost before = groups@;
            let mut pair = groups.remove(gi);
            let cc = chunk.clone_chunk();
            pair.1.push(cc);
            groups.insert(gi, pair);
            proof {
                assert(forall|g: int|
                    0 <= g < before.len() && g != gi ==> groups@[g] == #[trigger] before[g]);
                assert(groups@[gi as int].0 == before[gi as int].0);
                assert(groups@[gi as int].1@.len() == before[gi as int].1@.len() + 1);
                lemma_groups_total_update(before, groups@, gi as int);
                assert(group_ok(groups@[gi as int])) by {
                    let g = groups@[gi as int];
                    assert forall|j: int|
                        0 <= j < g.1@.len() implies (#[trigger] g.1@[j]).wf() && g.1@[j].pos.x
                        as int / 32 == g.0.x && g.1@[j].pos.z as int / 32 == g.0.z by {
                        if j < g.1@.len() - 1 {
                            assert(g.1@[j] == before[gi as int].1@[j]);
                            assert(group_ok(before[gi as int]));
                        }
                    }
                }
                assert forall|g1: int, g2: int|
                    0 <= g1 < g2 < groups@.len() implies groups@[g1].0 != groups@[g2].0 by {
                    assert(groups@[g1].0 == before[g1].0);
                    assert(groups@[g2].0 == before[g2].0);
                    assert(before[g1].0 != before[g2].0);
                }
            }
        } else {
            let ghost before = groups@;
            let mut members: Vec<Chunk> = Vec::new();
            members.push(chunk.clone_chunk());
            groups.push((rp, members));
            proof {
                assert(groups@.drop_last() =~= before);
                lemma_groups_total_push(groups@);
                assert(groups@.last().1@.len() == 1);
                assert forall|g1: int, g2: int|
                    0 <= g1 < g2 < groups@.len() implies groups@[g1].0 != groups@[g2].0 by {
                    if g2 == groups@.len() - 1 {
                        assert(groups@[g1] == before[g1]);
                        assert(before[g1].0 != rp);
                        assert(groups@[g2].0 == rp);
                    } else {
                        assert(groups@[g1] == before[g1]);
                        assert(groups@[g2] == before[g2]);
                        assert(before[g1].0 != before[g2].0);
                    }
                }
            }
        }
        i = i + 1;
    }
    (groups, skipped)
}

proof fn lemma_groups_total_push(gs: Seq<(RegionPos, Vec<Chunk>)>)
    requires
        gs.len() > 0,
    ensures
        groups_total(gs) == groups_total(gs.drop_last()) + gs.last().1@.len(),
{
}

/// Updating one group changes the total by that group's size change.
proof fn lemma_groups_total_update(a: Seq<(RegionPos, Vec<Chunk>)>, b: Seq<(RegionPos, Vec<Chunk>)>, i: int)
    requires
        a.len() == b.len(),
        0 <= i < a.len(),
        forall|j: int| 0 <= j < a.len() && j != i ==> a[j] == b[j],
    ensures
        groups_total(b) == groups_total(a) - a[i].1@.len() + b[i].1@.len(),
    decreases a.len(),
{
    if a.len() > 0 {
        if i == a.len() - 1 {
            assert(a.drop_last() =~= b.drop_last());
        } else {
            assert forall|j: int| 0 <= j < a.len() - 1 && j != i implies a.drop_last()[j]
                == b.drop_last()[j] by {
                assert(a.drop_last()[j] == a[j]);
                assert(b.drop_last()[j] == b[j]);
            }
            lemma_groups_total_update(a.drop_last(), b.drop_last(), i);
            assert(a.last() == b.last());
        }
    }
}

} // verus!
