//! Deterministic terrain generation for the grass biosphere.
//!
//! A generation request names one chunk of a structure.  For each column of
//! that chunk's footprint the caller supplies a terrain height (derived from
//! a continuous noise field outside this crate); every cell below its
//! column's height is classified into fixed material bands by distance from
//! the surface: the top cell grass, the next four dirt, everything deeper
//! stone.  Only currently-air cells are written, never an already-set block,
//! which makes repeated generation passes over the same chunk no-ops.

use vstd::prelude::*;
use crate::block::{AIR_BLOCK_ID, Block};
use crate::chunk::{CHUNK_DIMENSIONS, valid_local};
use crate::events::ChunkSetEvent;
use crate::math::lemma_bucket_offset;
use crate::structure::Structure;

verus! {

/// Marks a structure as populated by the grass biosphere.
pub struct GrassBiosphereMarker;

/// A request to generate the chunk at `(x, y, z)` of a structure.
pub struct GrassChunkNeedsGeneratedEvent {
    /// Chunk x-coordinate to generate.
    pub x: usize,
    /// Chunk y-coordinate to generate.
    pub y: usize,
    /// Chunk z-coordinate to generate.
    pub z: usize,
    /// Entity handle of the structure to generate into.
    pub structure_entity: u64,
}

impl GrassChunkNeedsGeneratedEvent {
    /// Wraps a generation request.
    pub fn new(x: usize, y: usize, z: usize, structure_entity: u64)
        -> (r: GrassChunkNeedsGeneratedEvent)
        ensures
            r.x == x,
            r.y == y,
            r.z == z,
            r.structure_entity == structure_entity,
    {
        GrassChunkNeedsGeneratedEvent { x, y, z, structure_entity }
    }
}

/// The grass biosphere generation strategy.
pub struct GrassBiosphere {}

impl GrassBiosphere {
    /// A fresh strategy value.
    pub fn new() -> (r: GrassBiosphere)
    {
        GrassBiosphere {}
    }

    /// The marker component identifying structures of this biosphere.
    pub fn get_marker_component(&self) -> GrassBiosphereMarker {
        GrassBiosphereMarker
    }

    /// The generation request for one chunk of a structure.
    pub fn get_generate_chunk_event(&self, x: usize, y: usize, z: usize,
        structure_entity: u64) -> (r: GrassChunkNeedsGeneratedEvent)
        ensures
            r.x == x,
            r.y == y,
            r.z == z,
            r.structure_entity == structure_entity,
    {
        GrassChunkNeedsGeneratedEvent::new(x, y, z, structure_entity)
    }
}

/// What one generation pass leaves in a cell: existing non-air content is
/// kept; an air cell below its column's height `y_here` becomes the band
/// material for its depth (grass on top, dirt for the four cells under it,
/// stone below); air at or above the height stays air.
pub open spec fn gen_cell(old_id: u16, y: int, y_here: int, grass: u16, dirt: u16,
    stone: u16) -> u16 {
    if old_id != AIR_BLOCK_ID {
        old_id
    } else if y >= y_here {
        AIR_BLOCK_ID
    } else if y + 1 == y_here {
        grass
    } else if y + 5 >= y_here {
        dirt
    } else {
        stone
    }
}

/// Generating a cell twice is the same as generating it once: the pass
/// writes only non-air band material into air cells and keeps everything
/// else, so its result is a fixed point of itself.
pub proof fn lemma_gen_cell_idempotent(old_id: u16, y: int, y_here: int, grass: u16,
    dirt: u16, stone: u16)
    requires
        grass != AIR_BLOCK_ID,
        dirt != AIR_BLOCK_ID,
        stone != AIR_BLOCK_ID,
    ensures
        gen_cell(gen_cell(old_id, y, y_here, grass, dirt, stone), y, y_here, grass, dirt,
            stone) == gen_cell(old_id, y, y_here, grass, dirt, stone),
{
}

/// Whether the chunk at `(cx, cy, cz)` already carries a completed
/// generation pass for these column heights: every cell equals what the
/// pass would leave there.
pub open spec fn chunk_generated(s: Structure, cx: int, cy: int, cz: int,
    heights: Seq<usize>, grass: u16, dirt: u16, stone: u16) -> bool {
    let d = CHUNK_DIMENSIONS as int;
    forall|lx: int, ly: int, lz: int|
        #[trigger] valid_local(lx, ly, lz)
            ==> s.spec_block_id_at(cx * d + lx, cy * d + ly, cz * d + lz)
                == gen_cell(s.spec_block_id_at(cx * d + lx, cy * d + ly, cz * d + lz),
                    cy * d + ly, heights[lz * d + lx] as int, grass, dirt, stone)
}

/// Fills the requested chunk from the supplied column heights: every
/// currently-air cell below its column's height receives its band material
/// (`grass`, `dirt` or `stone`), nothing else changes, and one
/// [`ChunkSetEvent`] for the chunk is reported.  A chunk that already
/// carries this generation result is left exactly as it is, so a second
/// pass changes nothing at all.
///
/// `heights` holds one height per column of the chunk footprint, indexed by
/// `local_z * CHUNK_DIMENSIONS + local_x`, measured in blocks from the
/// structure's floor.  Heights below five would make the band arithmetic
/// underflow and are excluded outright.
#[verifier::loop_isolation(false)]
pub fn generate_planet(s: &mut Structure, ev: &GrassChunkNeedsGeneratedEvent,
    heights: &Vec<usize>, grass: &Block, dirt: &Block, stone: &Block,
    chunk_set_events: &mut Vec<ChunkSetEvent>)
    requires
        old(s).wf(),
        old(s).valid_chunk_coord(ev.x as int, ev.y as int, ev.z as int),
        heights@.len() == CHUNK_DIMENSIONS * CHUNK_DIMENSIONS,
        forall|i: int| 0 <= i < heights@.len() ==> 5 <= #[trigger] heights@[i],
        grass.id != AIR_BLOCK_ID,
        dirt.id != AIR_BLOCK_ID,
        stone.id != AIR_BLOCK_ID,
    ensures
        final(s).wf(),
        final(s).width == old(s).width,
        final(s).height == old(s).height,
        final(s).length == old(s).length,
        final(s).self_entity == old(s).self_entity,
        final(s).chunk_entities == old(s).chunk_entities,
        forall|lx: int, ly: int, lz: int|
            #[trigger] valid_local(lx, ly, lz)
                ==> final(s).spec_block_id_at(
                        ev.x * CHUNK_DIMENSIONS + lx,
                        ev.y * CHUNK_DIMENSIONS + ly,
                        ev.z * CHUNK_DIMENSIONS + lz)
                    == gen_cell(old(s).spec_block_id_at(
                            ev.x * CHUNK_DIMENSIONS + lx,
                            ev.y * CHUNK_DIMENSIONS + ly,
                            ev.z * CHUNK_DIMENSIONS + lz),
                        ev.y * CHUNK_DIMENSIONS + ly,
                        heights@[lz * (CHUNK_DIMENSIONS as int) + lx] as int,
                        grass.id, dirt.id, stone.id),
        forall|ax: int, ay: int, az: int|
            old(s).valid_block_coord(ax, ay, az)
                && (ax / (CHUNK_DIMENSIONS as int), ay / (CHUNK_DIMENSIONS as int),
                    az / (CHUNK_DIMENSIONS as int))
                    != (ev.x as int, ev.y as int, ev.z as int)
                ==> #[trigger] final(s).spec_block_id_at(ax, ay, az)
                    == old(s).spec_block_id_at(ax, ay, az),
        chunk_generated(*final(s), ev.x as int, ev.y as int, ev.z as int, heights@,
            grass.id, dirt.id, stone.id),
        chunk_generated(*old(s), ev.x as int, ev.y as int, ev.z as int, heights@,
            grass.id, dirt.id, stone.id) ==> *final(s) == *old(s),
        final(chunk_set_events)@ == old(chunk_set_events)@.push(ChunkSetEvent {
            structure_entity: ev.structure_entity,
            x: ev.x,
            y: ev.y,
            z: ev.z,
        }),
    {
    let ghost d = CHUNK_DIMENSIONS as int;
    let ghost gold = *old(s);
    proof {
        lemma_bucket_offset(ev.x as int, 0, d, s.width as int);
        lemma_bucket_offset(ev.y as int, 0, d, s.height as int);
        lemma_bucket_offset(ev.z as int, 0, d, s.length as int);
    }
    let start_x = ev.x * CHUNK_DIMENSIONS;
    let start_y = ev.y * CHUNK_DIMENSIONS;
    let start_z = ev.z * CHUNK_DIMENSIONS;
    let ghost already = chunk_generated(gold, ev.x as int, ev.y as int, ev.z as int,
        heights@, grass.id, dirt.id, stone.id);
    let mut iz: usize = 0;
    while iz < CHUNK_DIMENSIONS
        invariant
            iz <= CHUNK_DIMENSIONS,
            s.wf(),
            s.width == gold.width,
            s.height == gold.height,
            s.length == gold.length,
            s.self_entity == gold.self_entity,
            s.chunk_entities == gold.chunk_entities,
            forall|lx: int, ly: int, lz: int|
                #[trigger] valid_local(lx, ly, lz)
                    ==> s.spec_block_id_at(start_x + lx, start_y + ly, start_z + lz)
                        == (if lz < iz {
                            gen_cell(gold.spec_block_id_at(start_x + lx, start_y + ly,
                                start_z + lz), start_y + ly, heights@[lz * d + lx] as int,
                                grass.id, dirt.id, stone.id)
                        } else {
                            gold.spec_block_id_at(start_x + lx, start_y + ly, start_z + lz)
                        }),
            forall|ax: int, ay: int, az: int|
                gold.valid_block_coord(ax, ay, az)
                    && (ax / d, ay / d, az / d) != (ev.x as int, ev.y as int, ev.z as int)
                    ==> #[trigger] s.spec_block_id_at(ax, ay, az)
                        == gold.spec_block_id_at(ax, ay, az),
            already ==> *s == gold,
        decreases CHUNK_DIMENSIONS - iz,
    {
        let mut ix: usize = 0;
        while ix < CHUNK_DIMENSIONS
            invariant
                ix <= CHUNK_DIMENSIONS,
                iz < CHUNK_DIMENSIONS,
                s.wf(),
                s.width == gold.width,
                s.height == gold.height,
                s.length == gold.length,
                s.self_entity == gold.self_entity,
                s.chunk_entities == gold.chunk_entities,
                forall|lx: int, ly: int, lz: int|
                    #[trigger] valid_local(lx, ly, lz)
                        ==> s.spec_block_id_at(start_x + lx, start_y + ly, start_z + lz)
                            == (if lz < iz || (lz == iz && lx < ix) {
                                gen_cell(gold.spec_block_id_at(start_x + lx, start_y + ly,
                                    start_z + lz), start_y + ly,
                                    heights@[lz * d + lx] as int,
                                    grass.id, dirt.id, stone.id)
                            } else {
                                gold.spec_block_id_at(start_x + lx, start_y + ly,
                                    start_z + lz)
                            }),
                forall|ax: int, ay: int, az: int|
                    gold.valid_block_coord(ax, ay, az)
                        && (ax / d, ay / d, az / d)
                            != (ev.x as int, ev.y as int, ev.z as int)
                        ==> #[trigger] s.spec_block_id_at(ax, ay, az)
                            == gold.spec_block_id_at(ax, ay, az),
                already ==> *s == gold,
            decreases CHUNK_DIMENSIONS - ix,
        {
            let y_here = heights[iz * CHUNK_DIMENSIONS + ix];
            let mut iy: usize = 0;
            while iy < CHUNK_DIMENSIONS
                invariant
                    iy <= CHUNK_DIMENSIONS,
                    ix < CHUNK_DIMENSIONS,
                    iz < CHUNK_DIMENSIONS,
                    y_here == heights@[iz * d + ix],
                    s.wf(),
                    s.width == gold.width,
                    s.height == gold.height,
                    s.length == gold.length,
                    s.self_entity == gold.self_entity,
                    s.chunk_entities == gold.chunk_entities,
                    forall|lx: int, ly: int, lz: int|
                        #[trigger] valid_local(lx, ly, lz)
                            ==> s.spec_block_id_at(start_x + lx, start_y + ly,
                                    start_z + lz)
                                == (if lz < iz || (lz == iz && lx < ix)
                                    || (lz == iz && lx == ix && ly < iy) {
                                    gen_cell(gold.spec_block_id_at(start_x + lx,
                                        start_y + ly, start_z + lz), start_y + ly,
                                        heights@[lz * d + lx] as int,
                                        grass.id, dirt.id, stone.id)
                                } else {
                                    gold.spec_block_id_at(start_x + lx, start_y + ly,
                                        start_z + lz)
                                }),
                    forall|ax: int, ay: int, az: int|
                        gold.valid_block_coord(ax, ay, az)
                            && (ax / d, ay / d, az / d)
                                != (ev.x as int, ev.y as int, ev.z as int)
                            ==> #[trigger] s.spec_block_id_at(ax, ay, az)
                                == gold.spec_block_id_at(ax, ay, az),
                    already ==> *s == gold,
                decreases CHUNK_DIMENSIONS - iy,
            {
                let x = start_x + ix;
                let y = start_y + iy;
                let z = start_z + iz;
                proof {
                    lemma_bucket_offset(ev.x as int, ix as int, d, s.width as int);
                    lemma_bucket_offset(ev.y as int, iy as int, d, s.height as int);
                    lemma_bucket_offset(ev.z as int, iz as int, d, s.length as int);
                    assert(valid_local(ix as int, iy as int, iz as int));
                }
                let ghost smid = *s;
                if y < y_here && !s.has_block_at(x, y, z) {
                    proof {
                        if already {
                            assert(gold.spec_block_id_at(x as int, y as int, z as int)
                                == gen_cell(gold.spec_block_id_at(x as int, y as int,
                                    z as int), y as int, y_here as int,
                                    grass.id, dirt.id, stone.id));
                            assert(false);
                        }
                    }
                    if y + 1 == y_here {
                        s.set_block_at_silent(x, y, z, grass);
                    } else if y + 5 >= y_here {
                        s.set_block_at_silent(x, y, z, dirt);
                    } else {
                        s.set_block_at_silent(x, y, z, stone);
                    }
                }
                proof {
                    assert forall|lx: int, ly: int, lz: int|
                        #[trigger] valid_local(lx, ly, lz)
                            implies s.spec_block_id_at(start_x + lx, start_y + ly,
                                start_z + lz)
                                == (if lz < iz || (lz == iz && lx < ix)
                                    || (lz == iz && lx == ix && ly < iy + 1) {
                                    gen_cell(gold.spec_block_id_at(start_x + lx,
                                        start_y + ly, start_z + lz), start_y + ly,
                                        heights@[lz * d + lx] as int,
                                        grass.id, dirt.id, stone.id)
                                } else {
                                    gold.spec_block_id_at(start_x + lx, start_y + ly,
                                        start_z + lz)
                                }) by {
                        lemma_bucket_offset(ev.x as int, lx, d, gold.width as int);
                        lemma_bucket_offset(ev.y as int, ly, d, gold.height as int);
                        lemma_bucket_offset(ev.z as int, lz, d, gold.length as int);
                        if (lx, ly, lz) != (ix as int, iy as int, iz as int) {
                            assert((start_x + lx, start_y + ly, start_z + lz)
                                != (x as int, y as int, z as int));
                            assert(s.spec_block_id_at(start_x + lx, start_y + ly,
                                start_z + lz) == smid.spec_block_id_at(start_x + lx,
                                start_y + ly, start_z + lz));
                        }
                    }
                }
                iy += 1;
            }
            ix += 1;
        }
        iz += 1;
    }
    chunk_set_events.push(ChunkSetEvent {
        structure_entity: ev.structure_entity,
        x: ev.x,
        y: ev.y,
        z: ev.z,
    });
    proof {
        assert forall|lx: int, ly: int, lz: int| #[trigger] valid_local(lx, ly, lz)
            implies s.spec_block_id_at(start_x + lx, start_y + ly, start_z + lz)
                == gen_cell(s.spec_block_id_at(start_x + lx, start_y + ly, start_z + lz),
                    start_y + ly, heights@[lz * d + lx] as int,
                    grass.id, dirt.id, stone.id) by {
            lemma_gen_cell_idempotent(gold.spec_block_id_at(start_x + lx, start_y + ly,
                start_z + lz), start_y + ly, heights@[lz * d + lx] as int,
                grass.id, dirt.id, stone.id);
        }
        if already {
            assert(*s =~= gold);
        }
    }
}

} // verus!
