use cosmos_core::block::{Block, BlockHardness, Blocks, AIR_BLOCK_ID};
use cosmos_core::chunk::{Chunk, CHUNK_DIMENSIONS};
use cosmos_core::structure::Structure;
use cosmos_core::structure_block::StructureBlock;

fn registry() -> Blocks {
    let mut blocks = Blocks::new();
    assert_eq!(blocks.register("cosmos:air".to_string()), Some(0));
    assert_eq!(blocks.register("cosmos:stone".to_string()), Some(1));
    assert_eq!(blocks.register("cosmos:dirt".to_string()), Some(2));
    assert_eq!(blocks.register("cosmos:grass".to_string()), Some(3));
    blocks
}

#[test]
fn set_block_then_read_back() {
    let blocks = registry();
    let stone = blocks.from_numeric_id(1);
    let mut s = Structure::new(2, 2, 2);
    let mut events = Vec::new();
    s.set_block_at(5, 6, 7, stone, &mut events);
    assert_eq!(s.block_id_at(5, 6, 7), stone.id());
    assert_eq!(s.block_id_at(5, 6, 8), AIR_BLOCK_ID);
}

#[test]
fn chunk_local_decomposition_round_trips() {
    let b = StructureBlock::new(70, 5, 33);
    assert_eq!(b.x(), 70);
    assert_eq!(b.y(), 5);
    assert_eq!(b.z(), 33);
    assert_eq!(b.chunk_coord_x(), 2);
    assert_eq!(b.chunk_coord_y(), 0);
    assert_eq!(b.chunk_coord_z(), 1);
    assert_eq!(b.chunk_coord_x() * CHUNK_DIMENSIONS + b.x() % CHUNK_DIMENSIONS, b.x());
    assert_eq!(b.chunk_coord_y() * CHUNK_DIMENSIONS + b.y() % CHUNK_DIMENSIONS, b.y());
    assert_eq!(b.chunk_coord_z() * CHUNK_DIMENSIONS + b.z() % CHUNK_DIMENSIONS, b.z());
}

#[test]
fn lazy_chunk_allocation_and_unload() {
    let blocks = registry();
    let stone = blocks.from_numeric_id(1);
    let air = blocks.from_numeric_id(AIR_BLOCK_ID);
    let mut s = Structure::new(2, 2, 2);
    let mut events = Vec::new();
    assert!(s.chunk_from_chunk_coordinates(0, 0, 0).is_none());
    // Writing air where no chunk exists allocates nothing.
    s.set_block_at(1, 2, 3, air, &mut events);
    assert!(s.chunk_from_chunk_coordinates(0, 0, 0).is_none());
    // A non-air write materializes the chunk.
    s.set_block_at(1, 2, 3, stone, &mut events);
    assert!(s.chunk_from_chunk_coordinates(0, 0, 0).is_some());
    // Clearing the last non-air block drops the chunk at once.
    s.remove_block_at(1, 2, 3, &mut events);
    assert!(s.chunk_from_chunk_coordinates(0, 0, 0).is_none());
}

#[test]
fn writing_same_block_is_a_no_op() {
    let blocks = registry();
    let stone = blocks.from_numeric_id(1);
    let mut s = Structure::new(1, 1, 1);
    s.set_entity(77);
    let mut events = Vec::new();
    s.set_block_at(0, 0, 0, stone, &mut events);
    assert_eq!(events.len(), 1);
    s.set_block_at(0, 0, 0, stone, &mut events);
    assert_eq!(events.len(), 1);
}

#[test]
fn block_changed_events_only_when_attached() {
    let blocks = registry();
    let stone = blocks.from_numeric_id(1);
    let mut s = Structure::new(1, 1, 1);
    let mut events = Vec::new();
    s.set_block_at(0, 0, 0, stone, &mut events);
    assert_eq!(events.len(), 0);
    s.set_entity(9);
    s.remove_block_at(0, 0, 0, &mut events);
    assert_eq!(events.len(), 1);
    assert_eq!(events[0].structure_entity, 9);
    assert_eq!(events[0].old_block, 1);
    assert_eq!(events[0].new_block, AIR_BLOCK_ID);
    assert_eq!(events[0].block.x(), 0);
}

#[test]
fn damage_accumulates_then_destroys() {
    let blocks = registry();
    let stone = blocks.from_numeric_id(1);
    let hardness = BlockHardness::new(10);
    let mut s = Structure::new(1, 1, 1);
    let mut events = Vec::new();
    let mut destroyed_events = Vec::new();
    s.set_entity(3);
    s.set_block_at(4, 4, 4, stone, &mut events);
    assert_eq!(s.get_block_health(4, 4, 4, &hardness), 10);
    // Damage summing below the hardness never destroys.
    assert!(!s.block_take_damage(4, 4, 4, &hardness, 3, &mut destroyed_events));
    assert!(!s.block_take_damage(4, 4, 4, &hardness, 3, &mut destroyed_events));
    assert!(!s.block_take_damage(4, 4, 4, &hardness, 3, &mut destroyed_events));
    assert_eq!(s.get_block_health(4, 4, 4, &hardness), 1);
    assert_eq!(destroyed_events.len(), 0);
    // The call reaching the hardness destroys and resets to air.
    assert!(s.block_take_damage(4, 4, 4, &hardness, 1, &mut destroyed_events));
    assert_eq!(destroyed_events.len(), 1);
    assert_eq!(s.block_id_at(4, 4, 4), AIR_BLOCK_ID);
    // The block is gone, so its chunk is gone too, and the region has no
    // health and no residual damage.
    assert!(s.chunk_from_chunk_coordinates(0, 0, 0).is_none());
    assert_eq!(s.get_block_health(4, 4, 4, &hardness), 0);
}

#[test]
fn damage_in_unloaded_region_is_a_no_op() {
    let hardness = BlockHardness::new(5);
    let mut s = Structure::new(1, 1, 1);
    let mut destroyed_events = Vec::new();
    assert!(!s.block_take_damage(0, 0, 0, &hardness, 100, &mut destroyed_events));
    assert_eq!(destroyed_events.len(), 0);
    assert_eq!(s.get_block_health(0, 0, 0, &hardness), 0);
}

#[test]
fn replacing_a_block_resets_its_damage() {
    let blocks = registry();
    let stone = blocks.from_numeric_id(1);
    let dirt = blocks.from_numeric_id(2);
    let hardness = BlockHardness::new(10);
    let mut s = Structure::new(1, 1, 1);
    let mut events = Vec::new();
    let mut destroyed_events = Vec::new();
    s.set_block_at(0, 0, 0, stone, &mut events);
    assert!(!s.block_take_damage(0, 0, 0, &hardness, 9, &mut destroyed_events));
    assert_eq!(s.get_block_health(0, 0, 0, &hardness), 1);
    s.set_block_at(0, 0, 0, dirt, &mut events);
    assert_eq!(s.get_block_health(0, 0, 0, &hardness), 10);
}

#[test]
fn chunk_store_fails_fast_contracts_hold_in_range() {
    let blocks = registry();
    let stone = blocks.from_numeric_id(1);
    let mut c = Chunk::new(0, 0, 0);
    assert!(c.is_empty());
    c.set_block_at(31, 31, 31, stone);
    assert!(!c.is_empty());
    assert_eq!(c.block_at(31, 31, 31), 1);
    assert_eq!(c.block_at(0, 0, 0), AIR_BLOCK_ID);
}

#[test]
fn set_chunk_stores_non_empty_and_drops_empty() {
    let blocks = registry();
    let stone = blocks.from_numeric_id(1);
    let mut s = Structure::new(2, 1, 1);
    let empty = Chunk::new(0, 0, 0);
    s.set_chunk(empty);
    assert!(s.chunk_from_chunk_coordinates(0, 0, 0).is_none());
    let mut full = Chunk::new(1, 0, 0);
    full.set_block_at(2, 2, 2, stone);
    s.set_chunk(full);
    assert!(s.chunk_from_chunk_coordinates(1, 0, 0).is_some());
    assert_eq!(s.block_id_at(CHUNK_DIMENSIONS + 2, 2, 2), 1);
}

#[test]
fn entity_bookkeeping_round_trips() {
    let blocks = registry();
    let stone = blocks.from_numeric_id(1);
    let mut s = Structure::new(2, 2, 2);
    let mut events = Vec::new();
    assert_eq!(s.get_entity(), None);
    s.set_entity(400);
    assert_eq!(s.get_entity(), Some(400));
    s.set_block_at(0, 0, 0, stone, &mut events);
    assert_eq!(s.chunk_entity(0, 0, 0), None);
    s.set_chunk_entity(0, 0, 0, 41);
    assert_eq!(s.chunk_entity(0, 0, 0), Some(41));
    assert!(s.chunk_from_entity(41).is_some());
    assert!(s.chunk_from_entity(42).is_none());
    s.remove_chunk_entity(0, 0, 0);
    assert_eq!(s.chunk_entity(0, 0, 0), None);
}

#[test]
fn continuous_point_classification_is_three_way() {
    let s = Structure::new(2, 2, 2);
    // Block space is 64 cells per axis, so half-extent is 64 half-units.
    // The center of block (0, 0, 0) sits at -63 half-units.
    assert_eq!(s.relative_coords_to_local_coords(-63, -63, -63), Ok((0, 0, 0)));
    // A point beyond the negative face reports the negative side.
    assert_eq!(s.relative_coords_to_local_coords(-65, 0, 0), Err(false));
    // A point beyond the positive face reports the positive side.
    assert_eq!(s.relative_coords_to_local_coords(65, 0, 0), Err(true));
    // The negative-side answer wins over the positive side.
    assert_eq!(s.relative_coords_to_local_coords(-65, 65, 0), Err(false));
}

#[test]
fn centered_positions_in_half_block_units() {
    let s = Structure::new(10, 10, 10);
    // 320 blocks per axis: block (0,0,0) centers at -(320/2) + 0.5 blocks,
    // which is -319 half-units.
    assert_eq!(s.block_relative_position(0, 0, 0), (-319, -319, -319));
    assert_eq!(-319 as f64 / 2.0, -159.5);
    // Chunk (0,0,0) sits at -(9/2) chunk lengths: 32 * (0 - 9) half-units.
    assert_eq!(s.chunk_relative_position(0, 0, 0), (-288, -288, -288));
    assert_eq!(s.chunk_relative_position(9, 9, 9), (288, 288, 288));
}

#[test]
fn one_block_makes_exactly_one_chunk() {
    let blocks = registry();
    let stone = blocks.from_numeric_id(1);
    let mut s = Structure::new(10, 10, 10);
    let mut events = Vec::new();
    s.set_block_at(0, 0, 0, stone, &mut events);
    let occupied = s.all_chunks_iter(false);
    assert_eq!(occupied, vec![(0, 0, 0)]);
    assert_eq!(s.blocks_width(), 320);
    assert_eq!(s.block_relative_position(0, 0, 0).0 as f64 / 2.0, -(320.0 / 2.0) + 0.5);
}

#[test]
fn iterators_clip_filter_and_restart() {
    let blocks = registry();
    let stone = blocks.from_numeric_id(1);
    let mut s = Structure::new(2, 2, 2);
    let mut events = Vec::new();
    s.set_block_at(0, 0, 0, stone, &mut events);
    s.set_block_at(40, 0, 0, stone, &mut events);
    // Out-of-range requests are clipped silently.
    let all = s.chunk_iter((-10, -10, -10), (100, 100, 100), true);
    assert_eq!(all.len(), 8);
    let occupied = s.chunk_iter((-10, -10, -10), (100, 100, 100), false);
    assert_eq!(occupied, vec![(0, 0, 0), (1, 0, 0)]);
    // Re-iterating the same range yields the same sequence.
    assert_eq!(occupied, s.chunk_iter((-10, -10, -10), (100, 100, 100), false));
    let blocks_found = s.all_blocks_iter(false);
    assert_eq!(blocks_found, vec![(0, 0, 0), (40, 0, 0)]);
    let in_chunk = s.block_iter_for_chunk(1, 0, 0, false);
    assert_eq!(in_chunk, vec![(40, 0, 0)]);
    let with_air = s.block_iter((0, 0, 0), (1, 0, 0), true);
    assert_eq!(with_air, vec![(0, 0, 0), (1, 0, 0)]);
}

#[test]
fn registry_rejects_duplicates_and_resolves_names() {
    let mut blocks = registry();
    assert_eq!(blocks.register("cosmos:stone".to_string()), None);
    assert_eq!(blocks.len(), 4);
    let grass = blocks.block_from_id(&"cosmos:grass".to_string());
    assert!(grass.is_some());
    assert_eq!(grass.unwrap().id(), 3);
    assert_eq!(grass.unwrap().unlocalized_name(), "cosmos:grass");
    assert!(blocks.block_from_id(&"cosmos:lava".to_string()).is_none());
    let b = StructureBlock::new(0, 0, 0);
    let s = Structure::new(1, 1, 1);
    assert_eq!(b.block(&s, &blocks).id(), AIR_BLOCK_ID);
}

#[test]
fn mutable_chunk_access_reads_the_slot() {
    let blocks = registry();
    let stone = blocks.from_numeric_id(1);
    let mut s = Structure::new(1, 1, 1);
    assert!(s.mut_chunk_from_chunk_coordinates(0, 0, 0).is_none());
    let mut events = Vec::new();
    s.set_block_at(1, 1, 1, stone, &mut events);
    match s.mut_chunk_from_chunk_coordinates(0, 0, 0) {
        Some(chunk) => {
            assert_eq!(chunk.block_at(1, 1, 1), 1);
            assert_eq!(chunk.structure_x(), 0);
        }
        None => panic!("chunk should be loaded"),
    }
}

#[test]
fn has_block_at_and_bounds() {
    let blocks = registry();
    let stone = blocks.from_numeric_id(1);
    let mut s = Structure::new(1, 1, 1);
    let mut events = Vec::new();
    assert!(s.is_within_blocks(31, 31, 31));
    assert!(!s.is_within_blocks(32, 0, 0));
    assert!(!s.has_block_at(3, 3, 3));
    s.set_block_at(3, 3, 3, stone, &mut events);
    assert!(s.has_block_at(3, 3, 3));
}
