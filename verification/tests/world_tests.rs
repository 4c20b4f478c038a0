use rustcraft::chunk::{BlockType, Chunk, ChunkPos};
use rustcraft::region::{Region, RegionPos, SerializedChunk};
use rustcraft::storage::{group_chunks_by_region, needs_flush, spawn_area_positions};
use rustcraft::terrain::{
    determine_biome, elevation_to_block_height, fill_column, get_block_for_biome, lattice_hash,
    Biome,
};

#[test]
fn chunk_pos_from_block_pos_floors() {
    let p = ChunkPos::from_block_pos(33, -1);
    assert_eq!(p.x, 2);
    assert_eq!(p.z, -1);
    let p = ChunkPos::from_block_pos(-16, -17);
    assert_eq!(p.x, -1);
    assert_eq!(p.z, -2);
}

#[test]
fn block_codes_round_trip() {
    let all = [
        BlockType::Air,
        BlockType::Stone,
        BlockType::Grass,
        BlockType::Dirt,
        BlockType::Cobblestone,
        BlockType::OakLog,
        BlockType::OakLeaves,
        BlockType::OakPlanks,
        BlockType::Water,
        BlockType::Lava,
        BlockType::Sand,
        BlockType::Gravel,
    ];
    for &b in &all {
        assert_eq!(BlockType::from_u16(b.code()), Some(b));
    }
    assert_eq!(BlockType::from_u16(8), None);
    assert_eq!(BlockType::from_u16(11), None);
    assert_eq!(BlockType::from_u16(14), None);
    assert_eq!(BlockType::Water.code(), 9);
}

#[test]
fn chunk_get_set_bounds() {
    let mut c = Chunk::new(ChunkPos::new(0, 0));
    assert!(c.is_modified());
    c.mark_clean();
    assert!(!c.is_modified());

    assert_eq!(c.get_block(0, 0, 0), Some(BlockType::Air));
    assert!(c.set_block(3, 200, 5, BlockType::Stone));
    assert!(c.is_modified());
    assert_eq!(c.get_block(3, 200, 5), Some(BlockType::Stone));

    // Out-of-bounds reads give nothing; writes change nothing.
    assert_eq!(c.get_block(16, 0, 0), None);
    assert_eq!(c.get_block(0, 256, 0), None);
    assert!(!c.set_block(0, 0, 16, BlockType::Lava));
    assert_eq!(c.get_block(0, 0, 15), Some(BlockType::Air));
}

#[test]
fn serialized_chunk_round_trip_every_cell() {
    let mut c = Chunk::new(ChunkPos::new(3, -4));
    c.set_block(0, 0, 0, BlockType::Stone);
    c.set_block(15, 255, 15, BlockType::Grass);
    c.set_block(7, 100, 9, BlockType::Lava);
    let sc = SerializedChunk::from_chunk(&c);
    assert_eq!(sc.pos, (3, -4));
    assert_eq!(sc.blocks.len(), 65536);
    let back = sc.to_chunk().unwrap();
    assert_eq!(back.pos.x, 3);
    assert_eq!(back.pos.z, -4);
    for y in 0..256 {
        for x in 0..16 {
            for z in 0..16 {
                assert_eq!(back.get_block(x, y, z), c.get_block(x, y, z));
            }
        }
    }
}

#[test]
fn region_pos_arithmetic_and_validity() {
    let rp = RegionPos::from_chunk(-1, 33);
    assert_eq!(rp.x, -1);
    assert_eq!(rp.z, 1);
    assert_eq!(rp.min_chunk(), (-32, 32));
    assert_eq!(rp.max_chunk(), (-1, 63));
    assert_eq!(rp.chunk_offset(-1, 33), Some(1 * 32 + 31));
    assert_eq!(rp.chunk_offset(0, 33), None);

    assert!(RegionPos::new(159, -160).is_valid());
    assert!(!RegionPos::new(160, 0).is_valid());
    assert!(!RegionPos::new(0, -161).is_valid());
    assert_eq!(RegionPos::new(0, 0).filename(), "region_0_0_31_31.dat");
    assert_eq!(RegionPos::new(-1, 1).filename(), "region_-32_32_-1_63.dat");
}

#[test]
fn region_round_trip_two_chunks() {
    let pos = RegionPos::new(0, 0);
    let mut region = Region::new(pos);

    let mut stone = Chunk::new(ChunkPos::new(0, 0));
    for y in 0..256 {
        for x in 0..16 {
            for z in 0..16 {
                stone.set_block(x, y, z, BlockType::Stone);
            }
        }
    }
    let mut grass = Chunk::new(ChunkPos::new(5, 7));
    for y in 0..256 {
        for x in 0..16 {
            for z in 0..16 {
                grass.set_block(x, y, z, BlockType::Grass);
            }
        }
    }
    assert!(region.insert(stone));
    assert!(region.insert(grass));
    assert!(region.is_modified());

    let bytes = region.serialize();
    let back = Region::deserialize(pos, &bytes).unwrap();
    let stone_back = back.get(0, 0).expect("stone chunk present");
    let grass_back = back.get(5, 7).expect("grass chunk present");
    for y in 0..256 {
        for x in 0..16 {
            for z in 0..16 {
                assert_eq!(stone_back.get_block(x, y, z), Some(BlockType::Stone));
                assert_eq!(grass_back.get_block(x, y, z), Some(BlockType::Grass));
            }
        }
    }
    assert!(back.get(1, 1).is_none());
}

#[test]
fn region_rejects_foreign_chunks() {
    let mut region = Region::new(RegionPos::new(0, 0));
    let far = Chunk::new(ChunkPos::new(100, 100));
    assert!(!region.insert(far));
    assert!(!region.is_modified());
}

#[test]
fn chunks_list_counts_residents() {
    let mut region = Region::new(RegionPos::new(0, 0));
    assert_eq!(region.chunks_list().len(), 0);
    region.insert(Chunk::new(ChunkPos::new(1, 2)));
    region.insert(Chunk::new(ChunkPos::new(2, 2)));
    assert_eq!(region.chunks_list().len(), 2);
    let mut region2 = region;
    region2.mark_clean();
    assert!(!region2.is_modified());
}

#[test]
fn grouping_partitions_by_region_and_skips_invalid() {
    let chunks = vec![
        Chunk::new(ChunkPos::new(0, 0)),
        Chunk::new(ChunkPos::new(1, 0)),
        Chunk::new(ChunkPos::new(40, 0)),
        Chunk::new(ChunkPos::new(200000, 0)),
    ];
    let (groups, skipped) = group_chunks_by_region(chunks);
    assert_eq!(skipped, 1);
    assert_eq!(groups.len(), 2);
    let total: usize = groups.iter().map(|g| g.1.len()).sum();
    assert_eq!(total, 3);
    for (rp, members) in &groups {
        assert!(rp.is_valid());
        for c in members {
            assert_eq!(RegionPos::from_chunk(c.pos.x, c.pos.z), *rp);
        }
    }
}

#[test]
fn spawn_area_covers_16_by_16() {
    let ps = spawn_area_positions();
    assert_eq!(ps.len(), 256);
    assert_eq!(ps[0], ChunkPos::new(-8, -8));
    assert_eq!(ps[255], ChunkPos::new(7, 7));
    for p in &ps {
        assert!(p.x >= -8 && p.x < 8);
        assert!(p.z >= -8 && p.z < 8);
    }
}

#[test]
fn flush_trigger_is_half_capacity() {
    assert!(!needs_flush(5, 10));
    assert!(needs_flush(6, 10));
    assert!(!needs_flush(0, 1));
}

#[test]
fn biome_table() {
    assert_eq!(determine_biome(800, 400), Biome::SnowMountain);
    assert_eq!(determine_biome(800, 100), Biome::Snow);
    assert_eq!(determine_biome(600, 300), Biome::Mountain);
    assert_eq!(determine_biome(600, 100), Biome::Forest);
    assert_eq!(determine_biome(200, 300), Biome::Mountain);
    assert_eq!(determine_biome(350, 100), Biome::Forest);
    assert_eq!(determine_biome(200, 100), Biome::Plains);
    assert_eq!(determine_biome(0, 0), Biome::Beach);
    assert_eq!(determine_biome(-100, 0), Biome::Ocean);
}

#[test]
fn elevation_height_mapping() {
    assert_eq!(elevation_to_block_height(-1000), 10);
    assert_eq!(elevation_to_block_height(1000), 200);
    assert_eq!(elevation_to_block_height(-50), 100);
    assert_eq!(elevation_to_block_height(0), 105);
}

#[test]
fn column_fill_layers() {
    // Plains stack: grass on the surface, dirt below, stone beneath.
    assert_eq!(get_block_for_biome(119, 120, Biome::Plains), BlockType::Grass);
    assert_eq!(get_block_for_biome(117, 120, Biome::Plains), BlockType::Dirt);
    assert_eq!(get_block_for_biome(100, 120, Biome::Plains), BlockType::Stone);
    assert_eq!(get_block_for_biome(120, 120, Biome::Plains), BlockType::Air);
    assert_eq!(get_block_for_biome(119, 120, Biome::Beach), BlockType::Sand);

    let mut c = Chunk::new(ChunkPos::new(0, 0));
    fill_column(&mut c, 4, 6, 50, Biome::Ocean);
    assert_eq!(c.get_block(4, 10, 6), Some(BlockType::Stone));
    // Water fills from the terrain up to sea level on low columns.
    assert_eq!(c.get_block(4, 70, 6), Some(BlockType::Water));
    assert_eq!(c.get_block(4, 99, 6), Some(BlockType::Water));
    assert_eq!(c.get_block(4, 100, 6), Some(BlockType::Air));
    // Other columns stay untouched.
    assert_eq!(c.get_block(5, 10, 6), Some(BlockType::Air));
}

#[test]
fn lattice_hash_is_deterministic_and_matches_formula() {
    let a = lattice_hash(17, -4, 12345);
    let b = lattice_hash(17, -4, 12345);
    assert_eq!(a, b);
    let mut h: u64 = 12345u64.wrapping_mul(73856093);
    h ^= 17i32 as u64;
    h = h.wrapping_mul(19349663);
    h ^= (-4i32) as u64;
    h = h.wrapping_mul(83492791);
    assert_eq!(a, h & 0x7fffffff);
    assert_ne!(lattice_hash(17, -4, 12346), a);
}
