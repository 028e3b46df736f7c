use cosmos_core::biosphere::{GrassBiosphere, GrassChunkNeedsGeneratedEvent};
use cosmos_core::block::{Blocks, AIR_BLOCK_ID};
use cosmos_core::chunk::CHUNK_DIMENSIONS;
use cosmos_core::lifecycle::reconcile_tick;
use cosmos_core::structure::Structure;
use cosmos_core::universe::{distance_from_star_spiral, get_star_in_system, ServerSeed};

fn registry() -> Blocks {
    let mut blocks = Blocks::new();
    assert_eq!(blocks.register("cosmos:air".to_string()), Some(0));
    assert_eq!(blocks.register("cosmos:stone".to_string()), Some(1));
    assert_eq!(blocks.register("cosmos:dirt".to_string()), Some(2));
    assert_eq!(blocks.register("cosmos:grass".to_string()), Some(3));
    blocks
}

fn flat_heights(h: usize) -> Vec<usize> {
    vec![h; CHUNK_DIMENSIONS * CHUNK_DIMENSIONS]
}

#[test]
fn terrain_fills_material_bands() {
    let blocks = registry();
    let grass = blocks.from_numeric_id(3);
    let dirt = blocks.from_numeric_id(2);
    let stone = blocks.from_numeric_id(1);
    let mut s = Structure::new(1, 1, 1);
    let biosphere = GrassBiosphere::new();
    let ev = biosphere.get_generate_chunk_event(0, 0, 0, 12);
    let heights = flat_heights(20);
    let mut chunk_set_events = Vec::new();
    cosmos_core::biosphere::generate_planet(&mut s, &ev, &heights, grass, dirt, stone,
        &mut chunk_set_events);
    assert_eq!(chunk_set_events.len(), 1);
    assert_eq!(chunk_set_events[0].structure_entity, 12);
    // Below the height: stone deep down, dirt in the four cells under the
    // surface, grass on top, air above.
    assert_eq!(s.block_id_at(7, 0, 7), stone.id());
    assert_eq!(s.block_id_at(7, 14, 7), stone.id());
    assert_eq!(s.block_id_at(7, 15, 7), dirt.id());
    assert_eq!(s.block_id_at(7, 18, 7), dirt.id());
    assert_eq!(s.block_id_at(7, 19, 7), grass.id());
    assert_eq!(s.block_id_at(7, 20, 7), AIR_BLOCK_ID);
    assert_eq!(s.block_id_at(7, 31, 7), AIR_BLOCK_ID);
}

#[test]
fn terrain_generation_keeps_existing_blocks() {
    let blocks = registry();
    let grass = blocks.from_numeric_id(3);
    let dirt = blocks.from_numeric_id(2);
    let stone = blocks.from_numeric_id(1);
    let mut s = Structure::new(1, 1, 1);
    let mut events = Vec::new();
    // Pre-set a dirt block deep down where the pass would put stone.
    s.set_block_at(3, 2, 3, dirt, &mut events);
    let ev = GrassChunkNeedsGeneratedEvent::new(0, 0, 0, 1);
    let heights = flat_heights(20);
    let mut chunk_set_events = Vec::new();
    cosmos_core::biosphere::generate_planet(&mut s, &ev, &heights, grass, dirt, stone,
        &mut chunk_set_events);
    assert_eq!(s.block_id_at(3, 2, 3), dirt.id());
    assert_eq!(s.block_id_at(3, 3, 3), stone.id());
}

#[test]
fn terrain_generation_is_idempotent() {
    let blocks = registry();
    let grass = blocks.from_numeric_id(3);
    let dirt = blocks.from_numeric_id(2);
    let stone = blocks.from_numeric_id(1);
    let mut s = Structure::new(1, 1, 1);
    let ev = GrassChunkNeedsGeneratedEvent::new(0, 0, 0, 1);
    let heights = flat_heights(17);
    let mut chunk_set_events = Vec::new();
    cosmos_core::biosphere::generate_planet(&mut s, &ev, &heights, grass, dirt, stone,
        &mut chunk_set_events);
    let mut first_pass = Vec::new();
    for z in 0..CHUNK_DIMENSIONS {
        for y in 0..CHUNK_DIMENSIONS {
            for x in 0..CHUNK_DIMENSIONS {
                first_pass.push(s.block_id_at(x, y, z));
            }
        }
    }
    // A second pass over the same chunk with no intervening edits changes
    // nothing: every target cell is already non-air.
    cosmos_core::biosphere::generate_planet(&mut s, &ev, &heights, grass, dirt, stone,
        &mut chunk_set_events);
    let mut second_pass = Vec::new();
    for z in 0..CHUNK_DIMENSIONS {
        for y in 0..CHUNK_DIMENSIONS {
            for x in 0..CHUNK_DIMENSIONS {
                second_pass.push(s.block_id_at(x, y, z));
            }
        }
    }
    assert_eq!(first_pass, second_pass);
    assert_eq!(chunk_set_events.len(), 2);
}

#[test]
fn reconciler_creates_each_touched_chunk_once() {
    let blocks = registry();
    let stone = blocks.from_numeric_id(1);
    let mut s = Structure::new(2, 2, 2);
    s.set_entity(50);
    let mut block_events = Vec::new();
    // Several edits in one chunk within one tick.
    s.set_block_at(0, 0, 0, stone, &mut block_events);
    s.set_block_at(1, 0, 0, stone, &mut block_events);
    s.set_block_at(2, 2, 2, stone, &mut block_events);
    assert_eq!(block_events.len(), 3);
    let init_events = Vec::new();
    let mut next_handle = 100u64;
    let mut chunk_set_events = Vec::new();
    let (created, removed) = reconcile_tick(&mut s, &block_events, &init_events,
        &mut next_handle, &mut chunk_set_events);
    // One creation despite three edits; nothing to remove.
    assert_eq!(created.len(), 1);
    assert_eq!(removed.len(), 0);
    assert_eq!((created[0].x, created[0].y, created[0].z), (0, 0, 0));
    assert_eq!(created[0].entity, 100);
    assert_eq!(next_handle, 101);
    assert_eq!(s.chunk_entity(0, 0, 0), Some(100));
    assert_eq!(chunk_set_events.len(), 1);
    // The representation is anchored at the chunk's centered position:
    // 32 * (2*0 - 1) half-units on each axis for a 2-chunk extent.
    assert_eq!(created[0].position, (-32, -32, -32));
    // A second tick with no events changes nothing.
    let none = Vec::new();
    let (created2, removed2) = reconcile_tick(&mut s, &none, &init_events,
        &mut next_handle, &mut chunk_set_events);
    assert_eq!(created2.len(), 0);
    assert_eq!(removed2.len(), 0);
}

#[test]
fn reconciler_unbinds_emptied_chunks() {
    let blocks = registry();
    let stone = blocks.from_numeric_id(1);
    let mut s = Structure::new(2, 2, 2);
    s.set_entity(50);
    let mut block_events = Vec::new();
    s.set_block_at(0, 0, 0, stone, &mut block_events);
    let init_events = Vec::new();
    let mut next_handle = 7u64;
    let mut chunk_set_events = Vec::new();
    reconcile_tick(&mut s, &block_events, &init_events, &mut next_handle,
        &mut chunk_set_events);
    assert_eq!(s.chunk_entity(0, 0, 0), Some(7));
    // Next tick: the last non-air block goes away.
    let mut tick2_events = Vec::new();
    s.remove_block_at(0, 0, 0, &mut tick2_events);
    assert!(s.chunk_from_chunk_coordinates(0, 0, 0).is_none());
    let (created, removed) = reconcile_tick(&mut s, &tick2_events, &init_events,
        &mut next_handle, &mut chunk_set_events);
    assert_eq!(created.len(), 0);
    assert_eq!(removed.len(), 1);
    assert_eq!((removed[0].x, removed[0].y, removed[0].z), (0, 0, 0));
    assert_eq!(removed[0].entity, 7);
    assert_eq!(s.chunk_entity(0, 0, 0), None);
}

#[test]
fn chunk_emptied_in_its_first_tick_leaks_no_handle() {
    let blocks = registry();
    let stone = blocks.from_numeric_id(1);
    let mut s = Structure::new(1, 1, 1);
    s.set_entity(2);
    let mut block_events = Vec::new();
    // The chunk appears and disappears within one tick.
    s.set_block_at(0, 0, 0, stone, &mut block_events);
    s.remove_block_at(0, 0, 0, &mut block_events);
    assert_eq!(block_events.len(), 2);
    let init_events = Vec::new();
    let mut next_handle = 0u64;
    let mut chunk_set_events = Vec::new();
    let (created, removed) = reconcile_tick(&mut s, &block_events, &init_events,
        &mut next_handle, &mut chunk_set_events);
    assert_eq!(created.len(), 0);
    assert_eq!(removed.len(), 0);
    assert_eq!(s.chunk_entity(0, 0, 0), None);
    assert_eq!(next_handle, 0);
}

#[test]
fn reconciler_emits_chunk_set_for_init_events() {
    let mut s = Structure::new(1, 1, 1);
    s.set_entity(8);
    let block_events = Vec::new();
    let init_events = vec![
        cosmos_core::events::ChunkInitEvent { structure_entity: 8, x: 0, y: 0, z: 0 },
        cosmos_core::events::ChunkInitEvent { structure_entity: 8, x: 0, y: 0, z: 0 },
    ];
    let mut next_handle = 0u64;
    let mut chunk_set_events = Vec::new();
    reconcile_tick(&mut s, &block_events, &init_events, &mut next_handle,
        &mut chunk_set_events);
    // Deduplicated: two init events for the same chunk give one ChunkSetEvent.
    assert_eq!(chunk_set_events.len(), 1);
    assert_eq!(chunk_set_events[0].structure_entity, 8);
}

#[test]
fn star_presence_is_deterministic() {
    let seed = ServerSeed::new(42);
    for sx in -6i64..7 {
        for sz in -6i64..7 {
            let a = get_star_in_system(sx, 0, sz, &seed);
            let b = get_star_in_system(sx, 0, sz, &seed);
            assert_eq!(a, b);
        }
    }
}

#[test]
fn off_plane_systems_have_no_star() {
    let seed = ServerSeed::new(42);
    assert_eq!(get_star_in_system(0, 1, 0, &seed), None);
    assert_eq!(get_star_in_system(0, -3, 0, &seed), None);
    assert_eq!(get_star_in_system(2, 7, 1, &seed), None);
}

#[test]
fn out_of_disk_systems_have_no_star() {
    let seed = ServerSeed::new(42);
    assert_eq!(get_star_in_system(5, 0, 0, &seed), None);
    assert_eq!(get_star_in_system(0, 0, -5, &seed), None);
    assert_eq!(get_star_in_system(4, 0, 4, &seed), None);
    assert_eq!(get_star_in_system(3, 0, 4, &seed), None);
}

#[test]
fn galactic_center_has_a_star() {
    let seed = ServerSeed::new(123456789);
    let star = get_star_in_system(0, 0, 0, &seed);
    assert!(star.is_some());
    assert_eq!(star.unwrap().temperature, 1000);
}

#[test]
fn spiral_distance_is_bounded_and_fixed_at_origin() {
    assert_eq!(distance_from_star_spiral(0, 0), 1_000_000);
    assert_eq!(distance_from_star_spiral(50, -50), 1_000_000);
    let d = distance_from_star_spiral(660_000, -220_000);
    assert!(d <= 1_000_000);
    assert_eq!(d, distance_from_star_spiral(660_000, -220_000));
}
