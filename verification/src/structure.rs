//! The structure aggregate: a sparse map from chunk coordinates to chunks,
//! coordinate transforms, and the block mutation and damage API.
//!
//! Chunks absent from the map are implicitly all-air.  The central
//! space-saving invariant is that a chunk exists in the map exactly while it
//! holds at least one non-air block: only setting a non-air block allocates a
//! chunk, and a chunk that becomes all-air is dropped at once.
//!
//! Continuous (centered) coordinates are measured in *half-block units*: one
//! unit is half a block edge.  Block centers and chunk centers then sit on
//! exact integers, so every transform below is exact integer arithmetic.

use vstd::prelude::*;
use crate::block::{AIR_BLOCK_ID, Block, BlockHardness, Blocks};
use crate::chunk::{CHUNK_DIMENSIONS, Chunk, cell_index_spec, health_spec, valid_local};
use crate::events::{BlockChangedEvent, BlockDestroyedEvent};
use crate::math::{flatten, flatten_spec, lemma_div_bound, lemma_flatten_bounds,
    lemma_flatten_injective};
use crate::structure_block::StructureBlock;

verus! {

/// Dimensions small enough that every flat index and every block extent fits
/// the machine.
pub open spec fn valid_dims(w: int, h: int, l: int) -> bool {
    &&& w * h <= usize::MAX
    &&& w * h * l <= usize::MAX
    &&& w * CHUNK_DIMENSIONS <= usize::MAX
    &&& h * CHUNK_DIMENSIONS <= usize::MAX
    &&& l * CHUNK_DIMENSIONS <= usize::MAX
}

/// A bounded 3D object built of chunks: the sparse chunk map, the map's
/// dimensions in chunk units, and the bookkeeping binding chunk coordinates
/// to opaque external entity handles.
pub struct Structure {
    /// Chunk slots in row-major order; `None` means the chunk is all air and
    /// not materialized.
    pub chunks: Vec<Option<Chunk>>,
    /// External entity handle bound to each chunk slot, if any.
    pub chunk_entities: Vec<Option<u64>>,
    /// External entity handle of the structure itself, once attached.
    pub self_entity: Option<u64>,
    /// Number of chunks in the x direction.
    pub width: usize,
    /// Number of chunks in the y direction.
    pub height: usize,
    /// Number of chunks in the z direction.
    pub length: usize,
}

impl Structure {
    /// Flat slot index of chunk coordinate `(cx, cy, cz)`.
    pub open spec fn chunk_index_spec(&self, cx: int, cy: int, cz: int) -> int {
        flatten_spec(cx, cy, cz, self.width as int, self.height as int)
    }

    /// Whether `(cx, cy, cz)` is a chunk coordinate inside this structure.
    pub open spec fn valid_chunk_coord(&self, cx: int, cy: int, cz: int) -> bool {
        &&& 0 <= cx < self.width
        &&& 0 <= cy < self.height
        &&& 0 <= cz < self.length
    }

    /// Whether `(x, y, z)` is a block coordinate inside this structure.
    pub open spec fn valid_block_coord(&self, x: int, y: int, z: int) -> bool {
        &&& 0 <= x < self.width * CHUNK_DIMENSIONS
        &&& 0 <= y < self.height * CHUNK_DIMENSIONS
        &&& 0 <= z < self.length * CHUNK_DIMENSIONS
    }

    /// The chunk slot at chunk coordinate `(cx, cy, cz)`.
    pub open spec fn spec_chunk_at(&self, cx: int, cy: int, cz: int) -> Option<Chunk> {
        self.chunks@[self.chunk_index_spec(cx, cy, cz)]
    }

    /// The entity handle bound to chunk coordinate `(cx, cy, cz)`, if any.
    pub open spec fn spec_chunk_entity(&self, cx: int, cy: int, cz: int) -> Option<u64> {
        self.chunk_entities@[self.chunk_index_spec(cx, cy, cz)]
    }

    /// Block id visible at block coordinate `(x, y, z)`: the stored id when
    /// the covering chunk is loaded, air otherwise.
    pub open spec fn spec_block_id_at(&self, x: int, y: int, z: int) -> u16 {
        let d = CHUNK_DIMENSIONS as int;
        match self.spec_chunk_at(x / d, y / d, z / d) {
            Some(c) => c.block_id_spec(x % d, y % d, z % d),
            None => AIR_BLOCK_ID,
        }
    }

    /// Accumulated damage recorded at block coordinate `(x, y, z)`; zero in
    /// unloaded regions.
    pub open spec fn spec_damage_at(&self, x: int, y: int, z: int) -> u32 {
        let d = CHUNK_DIMENSIONS as int;
        match self.spec_chunk_at(x / d, y / d, z / d) {
            Some(c) => c.damage_spec(x % d, y % d, z % d),
            None => 0u32,
        }
    }

    /// What every occupied chunk slot guarantees: a well-formed, non-empty
    /// chunk that knows its own coordinate.
    pub open spec fn chunk_slot_wf(&self, cx: int, cy: int, cz: int) -> bool {
        match self.spec_chunk_at(cx, cy, cz) {
            Some(c) => {
                &&& c.wf()
                &&& !c.all_air()
                &&& c.x == cx
                &&& c.y == cy
                &&& c.z == cz
            },
            None => true,
        }
    }

    /// Structure invariant: dimensions fit the machine, both slot arrays
    /// cover the whole chunk grid, and every occupied slot is well formed.
    pub open spec fn wf(&self) -> bool {
        &&& valid_dims(self.width as int, self.height as int, self.length as int)
        &&& self.chunks@.len() == self.width * self.height * self.length
        &&& self.chunk_entities@.len() == self.width * self.height * self.length
        &&& forall|cx: int, cy: int, cz: int|
            self.valid_chunk_coord(cx, cy, cz) ==> #[trigger] self.chunk_slot_wf(cx, cy, cz)
    }

    /// Creates a structure of `width` by `height` by `length` chunks, all
    /// initially unloaded (all air), with no entity bindings.
    pub fn new(width: usize, height: usize, length: usize) -> (s: Structure)
        requires
            valid_dims(width as int, height as int, length as int),
        ensures
            s.wf(),
            s.width == width,
            s.height == height,
            s.length == length,
            s.self_entity is None,
            forall|cx: int, cy: int, cz: int|
                s.valid_chunk_coord(cx, cy, cz) ==> #[trigger] s.spec_chunk_at(cx, cy, cz) is None,
            forall|cx: int, cy: int, cz: int|
                s.valid_chunk_coord(cx, cy, cz)
                    ==> #[trigger] s.spec_chunk_entity(cx, cy, cz) is None,
            forall|x: int, y: int, z: int|
                s.valid_block_coord(x, y, z)
                    ==> #[trigger] s.spec_block_id_at(x, y, z) == AIR_BLOCK_ID,
    {
        let n = width * height;
        let n = n * length;
        let mut chunks: Vec<Option<Chunk>> = Vec::new();
        let mut chunk_entities: Vec<Option<u64>> = Vec::new();
        let mut i: usize = 0;
        while i < n
            invariant
                i <= n,
                chunks@.len() == i,
                chunk_entities@.len() == i,
                forall|j: int| 0 <= j < i ==> (#[trigger] chunks@[j]) is None,
                forall|j: int| 0 <= j < i ==> (#[trigger] chunk_entities@[j]) is None,
            decreases n - i,
        {
            chunks.push(None);
            chunk_entities.push(None);
            i += 1;
        }
        let s = Structure { chunks, chunk_entities, self_entity: None, width, height, length };
        proof {
            assert forall|cx: int, cy: int, cz: int| s.valid_chunk_coord(cx, cy, cz)
                implies #[trigger] s.spec_chunk_at(cx, cy, cz) is None
                    && s.chunk_slot_wf(cx, cy, cz) by {
                lemma_flatten_bounds(cx, cy, cz, width as int, height as int, length as int);
            }
            assert forall|cx: int, cy: int, cz: int| s.valid_chunk_coord(cx, cy, cz)
                implies #[trigger] s.spec_chunk_entity(cx, cy, cz) is None by {
                lemma_flatten_bounds(cx, cy, cz, width as int, height as int, length as int);
            }
            assert forall|x: int, y: int, z: int| s.valid_block_coord(x, y, z)
                implies #[trigger] s.spec_block_id_at(x, y, z) == AIR_BLOCK_ID by {
                let d = CHUNK_DIMENSIONS as int;
                lemma_div_bound(x, d, width as int);
                lemma_div_bound(y, d, height as int);
                lemma_div_bound(z, d, length as int);
                assert(s.spec_chunk_at(x / d, y / d, z / d) is None);
            }
        }
        s
    }

    /// The number of chunks in the x direction.
    pub fn chunks_width(&self) -> (r: usize)
        ensures
            r == self.width,
    {
        self.width
    }

    /// The number of chunks in the y direction.
    pub fn chunks_height(&self) -> (r: usize)
        ensures
            r == self.height,
    {
        self.height
    }

    /// The number of chunks in the z direction.
    pub fn chunks_length(&self) -> (r: usize)
        ensures
            r == self.length,
    {
        self.length
    }

    /// The number of blocks in the x direction.
    pub fn blocks_width(&self) -> (r: usize)
        requires
            self.wf(),
        ensures
            r == self.width * CHUNK_DIMENSIONS,
    {
        self.width * CHUNK_DIMENSIONS
    }

    /// The number of blocks in the y direction.
    pub fn blocks_height(&self) -> (r: usize)
        requires
            self.wf(),
        ensures
            r == self.height * CHUNK_DIMENSIONS,
    {
        self.height * CHUNK_DIMENSIONS
    }

    /// The number of blocks in the z direction.
    pub fn blocks_length(&self) -> (r: usize)
        requires
            self.wf(),
        ensures
            r == self.length * CHUNK_DIMENSIONS,
    {
        self.length * CHUNK_DIMENSIONS
    }

    /// Attaches the structure to its external entity handle.
    pub fn set_entity(&mut self, entity: u64)
        ensures
            *final(self) == (Structure { self_entity: Some(entity), ..*old(self) }),
    {
        self.self_entity = Some(entity);
    }

    /// The structure's external entity handle, if attached.
    pub fn get_entity(&self) -> (r: Option<u64>)
        ensures
            r == self.self_entity,
    {
        self.self_entity
    }

    /// The entity handle bound to the chunk at `(cx, cy, cz)`; an empty or
    /// never-represented chunk has none.
    pub fn chunk_entity(&self, cx: usize, cy: usize, cz: usize) -> (r: Option<u64>)
        requires
            self.wf(),
            self.valid_chunk_coord(cx as int, cy as int, cz as int),
        ensures
            r == self.spec_chunk_entity(cx as int, cy as int, cz as int),
    {
        proof {
            lemma_flatten_bounds(cx as int, cy as int, cz as int, self.width as int,
                self.height as int, self.length as int);
        }
        let index = flatten(cx, cy, cz, self.width, self.height);
        self.chunk_entities[index]
    }

    /// Binds the entity handle for the chunk at `(cx, cy, cz)`.
    pub fn set_chunk_entity(&mut self, cx: usize, cy: usize, cz: usize, entity: u64)
        requires
            old(self).wf(),
            old(self).valid_chunk_coord(cx as int, cy as int, cz as int),
        ensures
            final(self).wf(),
            final(self).chunks == old(self).chunks,
            final(self).self_entity == old(self).self_entity,
            final(self).width == old(self).width,
            final(self).height == old(self).height,
            final(self).length == old(self).length,
            final(self).spec_chunk_entity(cx as int, cy as int, cz as int) == Some(entity),
            forall|ax: int, ay: int, az: int|
                old(self).valid_chunk_coord(ax, ay, az)
                    && (ax, ay, az) != (cx as int, cy as int, cz as int)
                    ==> #[trigger] final(self).spec_chunk_entity(ax, ay, az)
                        == old(self).spec_chunk_entity(ax, ay, az),
    {
        proof {
            lemma_flatten_bounds(cx as int, cy as int, cz as int, self.width as int,
                self.height as int, self.length as int);
        }
        let index = flatten(cx, cy, cz, self.width, self.height);
        self.chunk_entities[index] = Some(entity);
        proof {
            self.lemma_entity_slot_frame(*old(self), cx as int, cy as int, cz as int);
        }
    }

    /// Unbinds the entity handle for the chunk at `(cx, cy, cz)`.
    pub fn remove_chunk_entity(&mut self, cx: usize, cy: usize, cz: usize)
        requires
            old(self).wf(),
            old(self).valid_chunk_coord(cx as int, cy as int, cz as int),
        ensures
            final(self).wf(),
            final(self).chunks == old(self).chunks,
            final(self).self_entity == old(self).self_entity,
            final(self).width == old(self).width,
            final(self).height == old(self).height,
            final(self).length == old(self).length,
            final(self).spec_chunk_entity(cx as int, cy as int, cz as int) is None,
            forall|ax: int, ay: int, az: int|
                old(self).valid_chunk_coord(ax, ay, az)
                    && (ax, ay, az) != (cx as int, cy as int, cz as int)
                    ==> #[trigger] final(self).spec_chunk_entity(ax, ay, az)
                        == old(self).spec_chunk_entity(ax, ay, az),
    {
        proof {
            lemma_flatten_bounds(cx as int, cy as int, cz as int, self.width as int,
                self.height as int, self.length as int);
        }
        let index = flatten(cx, cy, cz, self.width, self.height);
        self.chunk_entities[index] = None;
        proof {
            self.lemma_entity_slot_frame(*old(self), cx as int, cy as int, cz as int);
        }
    }

    /// After updating one entity slot, all other slots read unchanged and
    /// the invariant still holds.
    proof fn lemma_entity_slot_frame(&self, prev: Structure, cx: int, cy: int, cz: int)
        requires
            prev.wf(),
            prev.valid_chunk_coord(cx, cy, cz),
            self.chunks == prev.chunks,
            self.width == prev.width,
            self.height == prev.height,
            self.length == prev.length,
            self.chunk_entities@.len() == prev.chunk_entities@.len(),
            forall|j: int|
                0 <= j < prev.chunk_entities@.len() && j != prev.chunk_index_spec(cx, cy, cz)
                    ==> #[trigger] self.chunk_entities@[j] == prev.chunk_entities@[j],
        ensures
            self.wf(),
            forall|ax: int, ay: int, az: int|
                prev.valid_chunk_coord(ax, ay, az) && (ax, ay, az) != (cx, cy, cz)
                    ==> #[trigger] self.spec_chunk_entity(ax, ay, az)
                        == prev.spec_chunk_entity(ax, ay, az),
    {
        assert forall|ax: int, ay: int, az: int|
            prev.valid_chunk_coord(ax, ay, az) && (ax, ay, az) != (cx, cy, cz)
                implies #[trigger] self.spec_chunk_entity(ax, ay, az)
                    == prev.spec_chunk_entity(ax, ay, az) by {
            lemma_flatten_bounds(ax, ay, az, prev.width as int, prev.height as int,
                prev.length as int);
            if self.chunk_index_spec(ax, ay, az) == prev.chunk_index_spec(cx, cy, cz) {
                lemma_flatten_injective(ax, ay, az, cx, cy, cz, prev.width as int,
                    prev.height as int);
            }
        }
        assert forall|ax: int, ay: int, az: int| self.valid_chunk_coord(ax, ay, az)
            implies #[trigger] self.chunk_slot_wf(ax, ay, az) by {
            assert(prev.chunk_slot_wf(ax, ay, az));
        }
    }

    /// The chunk bound to `entity`, or `None` when no loaded chunk is bound
    /// to it.
    pub fn chunk_from_entity(&self, entity: u64) -> (r: Option<&Chunk>)
        requires
            self.wf(),
        ensures
            match r {
                Some(c) => exists|j: int|
                    0 <= j < self.chunk_entities@.len()
                        && #[trigger] self.chunk_entities@[j] == Some(entity)
                        && self.chunks@[j] == Some(*c),
                None => forall|j: int|
                    0 <= j < self.chunk_entities@.len()
                        ==> !(#[trigger] self.chunk_entities@[j] == Some(entity)
                            && self.chunks@[j] is Some),
            },
    {
        let n = self.chunk_entities.len();
        let mut i: usize = 0;
        while i < n
            invariant
                self.wf(),
                n == self.chunk_entities@.len(),
                n == self.chunks@.len(),
                i <= n,
                forall|j: int|
                    0 <= j < i ==> !(#[trigger] self.chunk_entities@[j] == Some(entity)
                        && self.chunks@[j] is Some),
            decreases n - i,
        {
            if let Some(e) = self.chunk_entities[i] {
                if e == entity {
                    if let Some(c) = &self.chunks[i] {
                        return Some(c);
                    }
                }
            }
            i += 1;
        }
        None
    }

    /// The chunk at chunk coordinate `(cx, cy, cz)`, or `None` while that
    /// chunk is empty/unloaded.  Out-of-bounds chunk coordinates are a caller
    /// bug and are excluded outright.
    pub fn chunk_from_chunk_coordinates(&self, cx: usize, cy: usize, cz: usize)
        -> (r: Option<&Chunk>)
        requires
            self.wf(),
            self.valid_chunk_coord(cx as int, cy as int, cz as int),
        ensures
            match r {
                Some(c) => self.spec_chunk_at(cx as int, cy as int, cz as int) == Some(*c),
                None => self.spec_chunk_at(cx as int, cy as int, cz as int) is None,
            },
    {
        proof {
            lemma_flatten_bounds(cx as int, cy as int, cz as int, self.width as int,
                self.height as int, self.length as int);
        }
        let index = flatten(cx, cy, cz, self.width, self.height);
        self.chunks[index].as_ref()
    }

    /// Mutable access to the chunk slot at `(cx, cy, cz)`.
    ///
    /// Writing through this bypasses events and the emptiness bookkeeping:
    /// the caller is responsible for leaving no all-air chunk behind, or the
    /// structure's invariant no longer holds and the rest of the API becomes
    /// unavailable.
    pub fn mut_chunk_from_chunk_coordinates(&mut self, cx: usize, cy: usize, cz: usize)
        -> (r: &mut Option<Chunk>)
        requires
            old(self).wf(),
            old(self).valid_chunk_coord(cx as int, cy as int, cz as int),
        ensures
            *r == old(self).spec_chunk_at(cx as int, cy as int, cz as int),
            final(self).chunks@ == old(self).chunks@.update(
                old(self).chunk_index_spec(cx as int, cy as int, cz as int), *final(r)),
            final(self).chunk_entities == old(self).chunk_entities,
            final(self).self_entity == old(self).self_entity,
            final(self).width == old(self).width,
            final(self).height == old(self).height,
            final(self).length == old(self).length,
    {
        proof {
            lemma_flatten_bounds(cx as int, cy as int, cz as int, self.width as int,
                self.height as int, self.length as int);
        }
        let index = flatten(cx, cy, cz, self.width, self.height);
        &mut self.chunks[index]
    }

    /// The chunk covering block coordinate `(x, y, z)`, or `None` while it
    /// is empty/unloaded.
    pub fn chunk_at_block_coordinates(&self, x: usize, y: usize, z: usize)
        -> (r: Option<&Chunk>)
        requires
            self.wf(),
            self.valid_block_coord(x as int, y as int, z as int),
        ensures
            match r {
                Some(c) => self.spec_chunk_at(
                    x as int / CHUNK_DIMENSIONS as int,
                    y as int / CHUNK_DIMENSIONS as int,
                    z as int / CHUNK_DIMENSIONS as int) == Some(*c),
                None => self.spec_chunk_at(
                    x as int / CHUNK_DIMENSIONS as int,
                    y as int / CHUNK_DIMENSIONS as int,
                    z as int / CHUNK_DIMENSIONS as int) is None,
            },
    {
        proof {
            self.lemma_block_coord_chunk_coord(x as int, y as int, z as int);
        }
        self.chunk_from_chunk_coordinates(
            x / CHUNK_DIMENSIONS, y / CHUNK_DIMENSIONS, z / CHUNK_DIMENSIONS)
    }

    /// A valid block coordinate's chunk coordinate is valid.
    pub proof fn lemma_block_coord_chunk_coord(&self, x: int, y: int, z: int)
        requires
            self.valid_block_coord(x, y, z),
        ensures
            self.valid_chunk_coord(
                x / (CHUNK_DIMENSIONS as int),
                y / (CHUNK_DIMENSIONS as int),
                z / (CHUNK_DIMENSIONS as int)),
            valid_local(
                x % (CHUNK_DIMENSIONS as int),
                y % (CHUNK_DIMENSIONS as int),
                z % (CHUNK_DIMENSIONS as int)),
            (x / (CHUNK_DIMENSIONS as int)) * (CHUNK_DIMENSIONS as int)
                + x % (CHUNK_DIMENSIONS as int) == x,
            (y / (CHUNK_DIMENSIONS as int)) * (CHUNK_DIMENSIONS as int)
                + y % (CHUNK_DIMENSIONS as int) == y,
            (z / (CHUNK_DIMENSIONS as int)) * (CHUNK_DIMENSIONS as int)
                + z % (CHUNK_DIMENSIONS as int) == z,
    {
        let d = CHUNK_DIMENSIONS as int;
        lemma_div_bound(x, d, self.width as int);
        lemma_div_bound(y, d, self.height as int);
        lemma_div_bound(z, d, self.length as int);
    }

    /// Whether `(x, y, z)` lies inside the structure's block bounds.
    pub fn is_within_blocks(&self, x: usize, y: usize, z: usize) -> (r: bool)
        requires
            self.wf(),
        ensures
            r == self.valid_block_coord(x as int, y as int, z as int),
    {
        x < self.blocks_width() && y < self.blocks_height() && z < self.blocks_length()
    }

    /// Block id at `(x, y, z)`; the air id wherever the covering chunk is
    /// empty/unloaded.  This never allocates.
    pub fn block_id_at(&self, x: usize, y: usize, z: usize) -> (r: u16)
        requires
            self.wf(),
            self.valid_block_coord(x as int, y as int, z as int),
        ensures
            r == self.spec_block_id_at(x as int, y as int, z as int),
    {
        proof {
            self.lemma_block_coord_chunk_coord(x as int, y as int, z as int);
            assert(self.chunk_slot_wf(
                x as int / CHUNK_DIMENSIONS as int,
                y as int / CHUNK_DIMENSIONS as int,
                z as int / CHUNK_DIMENSIONS as int));
        }
        match self.chunk_at_block_coordinates(x, y, z) {
            Some(chunk) => chunk.block_at(
                x % CHUNK_DIMENSIONS, y % CHUNK_DIMENSIONS, z % CHUNK_DIMENSIONS),
            None => AIR_BLOCK_ID,
        }
    }

    /// Whether a non-air block is loaded at `(x, y, z)`.
    pub fn has_block_at(&self, x: usize, y: usize, z: usize) -> (r: bool)
        requires
            self.wf(),
            self.valid_block_coord(x as int, y as int, z as int),
        ensures
            r == (self.spec_block_id_at(x as int, y as int, z as int) != AIR_BLOCK_ID),
    {
        self.block_id_at(x, y, z) != AIR_BLOCK_ID
    }

    /// The block at `(x, y, z)`, resolved through the registry.
    pub fn block_at<'a>(&self, x: usize, y: usize, z: usize, blocks: &'a Blocks)
        -> (r: &'a Block)
        requires
            self.wf(),
            self.valid_block_coord(x as int, y as int, z as int),
            blocks.wf(),
            blocks.contains_id(self.spec_block_id_at(x as int, y as int, z as int)),
        ensures
            *r == blocks.blocks@[
                self.spec_block_id_at(x as int, y as int, z as int) as int],
            r.id == self.spec_block_id_at(x as int, y as int, z as int),
    {
        let id = self.block_id_at(x, y, z);
        blocks.from_numeric_id(id)
    }

    /// Read access to the chunk slots.
    pub fn chunks(&self) -> (r: &Vec<Option<Chunk>>)
        ensures
            r == &self.chunks,
    {
        &self.chunks
    }

    /// After replacing the chunk slot at `(cx, cy, cz)`, every other chunk
    /// slot, and every block or damage reading outside that chunk, is
    /// unchanged.
    proof fn lemma_chunk_slot_replace_frame(&self, prev: Structure, cx: int, cy: int, cz: int)
        requires
            prev.wf(),
            prev.valid_chunk_coord(cx, cy, cz),
            self.width == prev.width,
            self.height == prev.height,
            self.length == prev.length,
            self.chunks@.len() == prev.chunks@.len(),
            forall|j: int|
                0 <= j < prev.chunks@.len() && j != prev.chunk_index_spec(cx, cy, cz)
                    ==> #[trigger] self.chunks@[j] == prev.chunks@[j],
        ensures
            forall|ax: int, ay: int, az: int|
                prev.valid_chunk_coord(ax, ay, az) && (ax, ay, az) != (cx, cy, cz)
                    ==> #[trigger] self.spec_chunk_at(ax, ay, az)
                        == prev.spec_chunk_at(ax, ay, az),
            forall|ax: int, ay: int, az: int|
                prev.valid_block_coord(ax, ay, az)
                    && (ax / (CHUNK_DIMENSIONS as int), ay / (CHUNK_DIMENSIONS as int),
                        az / (CHUNK_DIMENSIONS as int)) != (cx, cy, cz)
                    ==> #[trigger] self.spec_block_id_at(ax, ay, az)
                        == prev.spec_block_id_at(ax, ay, az),
            forall|ax: int, ay: int, az: int|
                prev.valid_block_coord(ax, ay, az)
                    && (ax / (CHUNK_DIMENSIONS as int), ay / (CHUNK_DIMENSIONS as int),
                        az / (CHUNK_DIMENSIONS as int)) != (cx, cy, cz)
                    ==> #[trigger] self.spec_damage_at(ax, ay, az)
                        == prev.spec_damage_at(ax, ay, az),
    {
        assert forall|ax: int, ay: int, az: int|
            prev.valid_chunk_coord(ax, ay, az) && (ax, ay, az) != (cx, cy, cz)
                implies #[trigger] self.spec_chunk_at(ax, ay, az)
                    == prev.spec_chunk_at(ax, ay, az) by {
            lemma_flatten_bounds(ax, ay, az, prev.width as int, prev.height as int,
                prev.length as int);
            if self.chunk_index_spec(ax, ay, az) == prev.chunk_index_spec(cx, cy, cz) {
                lemma_flatten_injective(ax, ay, az, cx, cy, cz, prev.width as int,
                    prev.height as int);
            }
        }
        assert forall|ax: int, ay: int, az: int|
            prev.valid_block_coord(ax, ay, az)
                && (ax / (CHUNK_DIMENSIONS as int), ay / (CHUNK_DIMENSIONS as int),
                    az / (CHUNK_DIMENSIONS as int)) != (cx, cy, cz)
                implies #[trigger] self.spec_block_id_at(ax, ay, az)
                        == prev.spec_block_id_at(ax, ay, az)
                    && #[trigger] self.spec_damage_at(ax, ay, az)
                        == prev.spec_damage_at(ax, ay, az) by {
            prev.lemma_block_coord_chunk_coord(ax, ay, az);
            let d = CHUNK_DIMENSIONS as int;
            assert(self.spec_chunk_at(ax / d, ay / d, az / d)
                == prev.spec_chunk_at(ax / d, ay / d, az / d));
        }
    }

    /// Writes `block` at block coordinate `(x, y, z)` without reporting an
    /// event, lazily allocating the covering chunk for a non-air write and
    /// dropping it the instant it becomes all air.
    ///
    /// Writing the id already stored there changes nothing at all.
    pub fn set_block_at_silent(&mut self, x: usize, y: usize, z: usize, block: &Block)
        requires
            old(self).wf(),
            old(self).valid_block_coord(x as int, y as int, z as int),
        ensures
            final(self).wf(),
            final(self).width == old(self).width,
            final(self).height == old(self).height,
            final(self).length == old(self).length,
            final(self).self_entity == old(self).self_entity,
            final(self).chunk_entities == old(self).chunk_entities,
            forall|ax: int, ay: int, az: int|
                old(self).valid_block_coord(ax, ay, az)
                    ==> #[trigger] final(self).spec_block_id_at(ax, ay, az)
                        == (if (ax, ay, az) == (x as int, y as int, z as int) {
                            block.id
                        } else {
                            old(self).spec_block_id_at(ax, ay, az)
                        }),
            forall|ax: int, ay: int, az: int|
                old(self).valid_block_coord(ax, ay, az)
                    && (ax, ay, az) != (x as int, y as int, z as int)
                    ==> #[trigger] final(self).spec_damage_at(ax, ay, az)
                        == (if final(self).spec_chunk_at(
                                ax / (CHUNK_DIMENSIONS as int),
                                ay / (CHUNK_DIMENSIONS as int),
                                az / (CHUNK_DIMENSIONS as int)) is Some {
                            old(self).spec_damage_at(ax, ay, az)
                        } else {
                            0u32
                        }),
            old(self).spec_block_id_at(x as int, y as int, z as int) != block.id
                ==> final(self).spec_damage_at(x as int, y as int, z as int) == 0,
            old(self).spec_block_id_at(x as int, y as int, z as int) == block.id
                ==> *final(self) == *old(self),
            forall|cx: int, cy: int, cz: int|
                old(self).valid_chunk_coord(cx, cy, cz)
                    && (cx, cy, cz) != (x as int / CHUNK_DIMENSIONS as int,
                        y as int / CHUNK_DIMENSIONS as int,
                        z as int / CHUNK_DIMENSIONS as int)
                    ==> #[trigger] final(self).spec_chunk_at(cx, cy, cz)
                        == old(self).spec_chunk_at(cx, cy, cz),
    {
        let old_id = self.block_id_at(x, y, z);
        if old_id == block.id() {
            return;
        }
        proof {
            self.lemma_block_coord_chunk_coord(x as int, y as int, z as int);
        }
        let cx = x / CHUNK_DIMENSIONS;
        let cy = y / CHUNK_DIMENSIONS;
        let cz = z / CHUNK_DIMENSIONS;
        let bx = x % CHUNK_DIMENSIONS;
        let by = y % CHUNK_DIMENSIONS;
        let bz = z % CHUNK_DIMENSIONS;
        proof {
            lemma_flatten_bounds(cx as int, cy as int, cz as int, self.width as int,
                self.height as int, self.length as int);
            assert(self.chunk_slot_wf(cx as int, cy as int, cz as int));
        }
        let idx = flatten(cx, cy, cz, self.width, self.height);
        let ghost prev = *self;
        let taken: Option<Chunk> = self.chunks[idx].take();
        let ghost gtaken = taken;
        let written: Chunk = match taken {
            Some(mut c) => {
                c.set_block_at(bx, by, bz, block);
                c
            },
            None => {
                let mut c = Chunk::new(cx, cy, cz);
                c.set_block_at(bx, by, bz, block);
                c
            },
        };
        let ghost gwritten = written;
        let keep = !written.is_empty();
        let updated: Option<Chunk> = if keep { Some(written) } else { None };
        let ghost gupdated = updated;
        self.chunks[idx] = updated;
        proof {
            let d = CHUNK_DIMENSIONS as int;
            let cxi = x as int / d;
            let cyi = y as int / d;
            let czi = z as int / d;
            let bxi = x as int % d;
            let byi = y as int % d;
            let bzi = z as int % d;
            lemma_flatten_bounds(bxi, byi, bzi, d, d, d);
            assert(gwritten.block_id_spec(bxi, byi, bzi) == block.id);
            assert(self.chunks@ =~= prev.chunks@.update(
                prev.chunk_index_spec(cxi, cyi, czi), gupdated));
            self.lemma_chunk_slot_replace_frame(prev, cxi, cyi, czi);
            assert(self.spec_chunk_at(cxi, cyi, czi) == gupdated);
            // The replaced slot is well formed: a kept chunk was checked
            // non-empty, a freshly created one holds the non-air write.
            if gtaken is None {
                assert(block.id != AIR_BLOCK_ID);
                assert(gwritten.blocks@[cell_index_spec(bxi, byi, bzi)] != AIR_BLOCK_ID);
                assert(!gwritten.all_air());
            }
            if gupdated is None {
                assert(gwritten.all_air());
                assert(block.id == AIR_BLOCK_ID);
            }
            assert(self.chunk_slot_wf(cxi, cyi, czi));
            assert forall|ax: int, ay: int, az: int| self.valid_chunk_coord(ax, ay, az)
                implies #[trigger] self.chunk_slot_wf(ax, ay, az) by {
                if (ax, ay, az) != (cxi, cyi, czi) {
                    assert(prev.chunk_slot_wf(ax, ay, az));
                    assert(self.spec_chunk_at(ax, ay, az) == prev.spec_chunk_at(ax, ay, az));
                }
            }
            // Block ids: the written cell reads the new id, all others read
            // as before.
            assert forall|ax: int, ay: int, az: int| prev.valid_block_coord(ax, ay, az)
                implies #[trigger] self.spec_block_id_at(ax, ay, az)
                    == (if (ax, ay, az) == (x as int, y as int, z as int) {
                        block.id
                    } else {
                        prev.spec_block_id_at(ax, ay, az)
                    }) by {
                prev.lemma_block_coord_chunk_coord(ax, ay, az);
                lemma_flatten_bounds(ax % d, ay % d, az % d, d, d, d);
                if (ax / d, ay / d, az / d) == (cxi, cyi, czi) {
                    if (ax, ay, az) != (x as int, y as int, z as int) {
                        assert((ax % d, ay % d, az % d) != (bxi, byi, bzi));
                        assert(gwritten.block_id_spec(ax % d, ay % d, az % d)
                            == (match gtaken {
                                Some(c0) => c0.block_id_spec(ax % d, ay % d, az % d),
                                None => AIR_BLOCK_ID,
                            }));
                    }
                    if gupdated is None {
                        // The write emptied the chunk: every cell of the
                        // written content is air, so old readings of other
                        // cells were air too.
                        assert(gwritten.block_id_spec(ax % d, ay % d, az % d)
                            == AIR_BLOCK_ID);
                    }
                }
            }
            // Damage: cleared at the written cell, kept at every other cell
            // whose chunk is still loaded.
            assert forall|ax: int, ay: int, az: int|
                prev.valid_block_coord(ax, ay, az)
                    && (ax, ay, az) != (x as int, y as int, z as int)
                    implies #[trigger] self.spec_damage_at(ax, ay, az)
                        == (if self.spec_chunk_at(ax / d, ay / d, az / d) is Some {
                            prev.spec_damage_at(ax, ay, az)
                        } else {
                            0u32
                        }) by {
                prev.lemma_block_coord_chunk_coord(ax, ay, az);
                if (ax / d, ay / d, az / d) == (cxi, cyi, czi) {
                    assert((ax % d, ay % d, az % d) != (bxi, byi, bzi));
                }
            }
        }
    }

    /// Writes `block` at `(x, y, z)` as [`Self::set_block_at_silent`] does,
    /// and reports the change: if the id actually changes and the structure
    /// is attached to an entity, a [`BlockChangedEvent`] is pushed.
    pub fn set_block_at(&mut self, x: usize, y: usize, z: usize, block: &Block,
        events: &mut Vec<BlockChangedEvent>)
        requires
            old(self).wf(),
            old(self).valid_block_coord(x as int, y as int, z as int),
        ensures
            final(self).wf(),
            final(self).width == old(self).width,
            final(self).height == old(self).height,
            final(self).length == old(self).length,
            final(self).self_entity == old(self).self_entity,
            final(self).chunk_entities == old(self).chunk_entities,
            forall|ax: int, ay: int, az: int|
                old(self).valid_block_coord(ax, ay, az)
                    ==> #[trigger] final(self).spec_block_id_at(ax, ay, az)
                        == (if (ax, ay, az) == (x as int, y as int, z as int) {
                            block.id
                        } else {
                            old(self).spec_block_id_at(ax, ay, az)
                        }),
            old(self).spec_block_id_at(x as int, y as int, z as int) == block.id
                ==> *final(self) == *old(self),
            forall|cx: int, cy: int, cz: int|
                old(self).valid_chunk_coord(cx, cy, cz)
                    && (cx, cy, cz) != (x as int / CHUNK_DIMENSIONS as int,
                        y as int / CHUNK_DIMENSIONS as int,
                        z as int / CHUNK_DIMENSIONS as int)
                    ==> #[trigger] final(self).spec_chunk_at(cx, cy, cz)
                        == old(self).spec_chunk_at(cx, cy, cz),
            final(events)@ == (if old(self).spec_block_id_at(x as int, y as int, z as int)
                    != block.id && old(self).self_entity is Some {
                old(events)@.push(BlockChangedEvent {
                    structure_entity: old(self).self_entity->0,
                    block: StructureBlock { x, y, z },
                    old_block: old(self).spec_block_id_at(x as int, y as int, z as int),
                    new_block: block.id,
                })
            } else {
                old(events)@
            }),
    {
        let old_id = self.block_id_at(x, y, z);
        if old_id != block.id() {
            if let Some(self_entity) = self.self_entity {
                events.push(BlockChangedEvent {
                    structure_entity: self_entity,
                    block: StructureBlock::new(x, y, z),
                    old_block: old_id,
                    new_block: block.id(),
                });
            }
        }
        self.set_block_at_silent(x, y, z, block);
    }

    /// Sets the block at `(x, y, z)` to air, reporting the change as
    /// [`Self::set_block_at`] does.
    pub fn remove_block_at(&mut self, x: usize, y: usize, z: usize,
        events: &mut Vec<BlockChangedEvent>)
        requires
            old(self).wf(),
            old(self).valid_block_coord(x as int, y as int, z as int),
        ensures
            final(self).wf(),
            final(self).width == old(self).width,
            final(self).height == old(self).height,
            final(self).length == old(self).length,
            final(self).self_entity == old(self).self_entity,
            final(self).chunk_entities == old(self).chunk_entities,
            forall|ax: int, ay: int, az: int|
                old(self).valid_block_coord(ax, ay, az)
                    ==> #[trigger] final(self).spec_block_id_at(ax, ay, az)
                        == (if (ax, ay, az) == (x as int, y as int, z as int) {
                            AIR_BLOCK_ID
                        } else {
                            old(self).spec_block_id_at(ax, ay, az)
                        }),
            final(events)@ == (if old(self).spec_block_id_at(x as int, y as int, z as int)
                    != AIR_BLOCK_ID && old(self).self_entity is Some {
                old(events)@.push(BlockChangedEvent {
                    structure_entity: old(self).self_entity->0,
                    block: StructureBlock { x, y, z },
                    old_block: old(self).spec_block_id_at(x as int, y as int, z as int),
                    new_block: AIR_BLOCK_ID,
                })
            } else {
                old(events)@
            }),
    {
        let air = Block { id: AIR_BLOCK_ID, unlocalized_name: String::new() };
        self.set_block_at(x, y, z, &air, events);
    }

    /// Remaining health of the block at `(bx, by, bz)`: hardness minus
    /// accumulated damage, clamped to `[0, hardness]`; zero in an
    /// empty/unloaded region, where there is nothing to have health.
    pub fn get_block_health(&self, bx: usize, by: usize, bz: usize,
        block_hardness: &BlockHardness) -> (r: u32)
        requires
            self.wf(),
            self.valid_block_coord(bx as int, by as int, bz as int),
        ensures
            r == (if self.spec_chunk_at(
                    bx as int / CHUNK_DIMENSIONS as int,
                    by as int / CHUNK_DIMENSIONS as int,
                    bz as int / CHUNK_DIMENSIONS as int) is Some {
                health_spec(block_hardness.hardness,
                    self.spec_damage_at(bx as int, by as int, bz as int))
            } else {
                0u32
            }),
    {
        proof {
            self.lemma_block_coord_chunk_coord(bx as int, by as int, bz as int);
            assert(self.chunk_slot_wf(
                bx as int / CHUNK_DIMENSIONS as int,
                by as int / CHUNK_DIMENSIONS as int,
                bz as int / CHUNK_DIMENSIONS as int));
        }
        match self.chunk_at_block_coordinates(bx, by, bz) {
            Some(c) => c.get_block_health(
                bx % CHUNK_DIMENSIONS, by % CHUNK_DIMENSIONS, bz % CHUNK_DIMENSIONS,
                block_hardness),
            None => 0,
        }
    }

    /// Adds `amount` damage to the block at `(bx, by, bz)`.  In an
    /// empty/unloaded region nothing happens and nothing is destroyed.  When
    /// the accumulated damage reaches the hardness, the block is reset to
    /// air, residual damage is cleared, the covering chunk is dropped if
    /// that left it all air, and, if the structure is attached to an entity,
    /// a [`BlockDestroyedEvent`] is pushed.
    pub fn block_take_damage(&mut self, bx: usize, by: usize, bz: usize,
        block_hardness: &BlockHardness, amount: u32,
        events: &mut Vec<BlockDestroyedEvent>) -> (destroyed: bool)
        requires
            old(self).wf(),
            old(self).valid_block_coord(bx as int, by as int, bz as int),
        ensures
            final(self).wf(),
            final(self).width == old(self).width,
            final(self).height == old(self).height,
            final(self).length == old(self).length,
            final(self).self_entity == old(self).self_entity,
            final(self).chunk_entities == old(self).chunk_entities,
            destroyed == (old(self).spec_chunk_at(
                    bx as int / CHUNK_DIMENSIONS as int,
                    by as int / CHUNK_DIMENSIONS as int,
                    bz as int / CHUNK_DIMENSIONS as int) is Some
                && old(self).spec_damage_at(bx as int, by as int, bz as int) + amount
                    >= block_hardness.hardness),
            old(self).spec_chunk_at(
                    bx as int / CHUNK_DIMENSIONS as int,
                    by as int / CHUNK_DIMENSIONS as int,
                    bz as int / CHUNK_DIMENSIONS as int) is None
                ==> *final(self) == *old(self),
            forall|ax: int, ay: int, az: int|
                old(self).valid_block_coord(ax, ay, az)
                    ==> #[trigger] final(self).spec_block_id_at(ax, ay, az)
                        == (if destroyed && (ax, ay, az) == (bx as int, by as int, bz as int) {
                            AIR_BLOCK_ID
                        } else {
                            old(self).spec_block_id_at(ax, ay, az)
                        }),
            destroyed ==> final(self).spec_damage_at(bx as int, by as int, bz as int) == 0,
            !destroyed && old(self).spec_chunk_at(
                    bx as int / CHUNK_DIMENSIONS as int,
                    by as int / CHUNK_DIMENSIONS as int,
                    bz as int / CHUNK_DIMENSIONS as int) is Some
                ==> final(self).spec_damage_at(bx as int, by as int, bz as int)
                    == old(self).spec_damage_at(bx as int, by as int, bz as int) + amount,
            forall|ax: int, ay: int, az: int|
                old(self).valid_block_coord(ax, ay, az)
                    && (ax, ay, az) != (bx as int, by as int, bz as int)
                    ==> #[trigger] final(self).spec_damage_at(ax, ay, az)
                        == (if final(self).spec_chunk_at(
                                ax / (CHUNK_DIMENSIONS as int),
                                ay / (CHUNK_DIMENSIONS as int),
                                az / (CHUNK_DIMENSIONS as int)) is Some {
                            old(self).spec_damage_at(ax, ay, az)
                        } else {
                            0u32
                        }),
            final(events)@ == (if destroyed && old(self).self_entity is Some {
                old(events)@.push(BlockDestroyedEvent {
                    structure_entity: old(self).self_entity->0,
                    block: StructureBlock { x: bx, y: by, z: bz },
                })
            } else {
                old(events)@
            }),
    {
        proof {
            self.lemma_block_coord_chunk_coord(bx as int, by as int, bz as int);
        }
        let cx = bx / CHUNK_DIMENSIONS;
        let cy = by / CHUNK_DIMENSIONS;
        let cz = bz / CHUNK_DIMENSIONS;
        let lx = bx % CHUNK_DIMENSIONS;
        let ly = by % CHUNK_DIMENSIONS;
        let lz = bz % CHUNK_DIMENSIONS;
        proof {
            lemma_flatten_bounds(cx as int, cy as int, cz as int, self.width as int,
                self.height as int, self.length as int);
            assert(self.chunk_slot_wf(cx as int, cy as int, cz as int));
        }
        let idx = flatten(cx, cy, cz, self.width, self.height);
        if self.chunks[idx].is_none() {
            return false;
        }
        let ghost prev = *self;
        let taken: Option<Chunk> = self.chunks[idx].take();
        let ghost gtaken = taken;
        let mut c = match taken {
            Some(c) => c,
            None => {
                proof {
                    assert(false);
                }
                Chunk::new(cx, cy, cz)
            },
        };
        let destroyed = c.block_take_damage(lx, ly, lz, block_hardness, amount);
        let ghost gwritten = c;
        let keep = !c.is_empty();
        let updated: Option<Chunk> = if keep { Some(c) } else { None };
        let ghost gupdated = updated;
        self.chunks[idx] = updated;
        if destroyed {
            if let Some(self_entity) = self.self_entity {
                events.push(BlockDestroyedEvent {
                    structure_entity: self_entity,
                    block: StructureBlock::new(bx, by, bz),
                });
            }
        }
        proof {
            let d = CHUNK_DIMENSIONS as int;
            let cxi = bx as int / d;
            let cyi = by as int / d;
            let czi = bz as int / d;
            let lxi = bx as int % d;
            let lyi = by as int % d;
            let lzi = bz as int % d;
            lemma_flatten_bounds(lxi, lyi, lzi, d, d, d);
            assert(self.chunks@ =~= prev.chunks@.update(
                prev.chunk_index_spec(cxi, cyi, czi), gupdated));
            self.lemma_chunk_slot_replace_frame(prev, cxi, cyi, czi);
            assert(self.spec_chunk_at(cxi, cyi, czi) == gupdated);
            if !destroyed {
                assert(gwritten.blocks@ == gtaken->0.blocks@);
                assert(!gwritten.all_air());
            }
            assert(self.chunk_slot_wf(cxi, cyi, czi));
            assert forall|ax: int, ay: int, az: int| self.valid_chunk_coord(ax, ay, az)
                implies #[trigger] self.chunk_slot_wf(ax, ay, az) by {
                if (ax, ay, az) != (cxi, cyi, czi) {
                    assert(prev.chunk_slot_wf(ax, ay, az));
                    assert(self.spec_chunk_at(ax, ay, az) == prev.spec_chunk_at(ax, ay, az));
                }
            }
            assert forall|ax: int, ay: int, az: int| prev.valid_block_coord(ax, ay, az)
                implies #[trigger] self.spec_block_id_at(ax, ay, az)
                    == (if destroyed && (ax, ay, az) == (bx as int, by as int, bz as int) {
                        AIR_BLOCK_ID
                    } else {
                        prev.spec_block_id_at(ax, ay, az)
                    }) by {
                prev.lemma_block_coord_chunk_coord(ax, ay, az);
                lemma_flatten_bounds(ax % d, ay % d, az % d, d, d, d);
                if (ax / d, ay / d, az / d) == (cxi, cyi, czi) {
                    if (ax, ay, az) != (bx as int, by as int, bz as int) {
                        assert((ax % d, ay % d, az % d) != (lxi, lyi, lzi));
                        assert(gwritten.block_id_spec(ax % d, ay % d, az % d)
                            == gtaken->0.block_id_spec(ax % d, ay % d, az % d));
                    }
                    if gupdated is None {
                        assert(gwritten.block_id_spec(ax % d, ay % d, az % d)
                            == AIR_BLOCK_ID);
                    }
                }
            }
            assert forall|ax: int, ay: int, az: int|
                prev.valid_block_coord(ax, ay, az)
                    && (ax, ay, az) != (bx as int, by as int, bz as int)
                    implies #[trigger] self.spec_damage_at(ax, ay, az)
                        == (if self.spec_chunk_at(ax / d, ay / d, az / d) is Some {
                            prev.spec_damage_at(ax, ay, az)
                        } else {
                            0u32
                        }) by {
                prev.lemma_block_coord_chunk_coord(ax, ay, az);
                if (ax / d, ay / d, az / d) == (cxi, cyi, czi) {
                    assert((ax % d, ay % d, az % d) != (lxi, lyi, lzi));
                }
            }
        }
        destroyed
    }

    /// Stores `chunk` at its own chunk coordinate, replacing whatever slot
    /// content was there; an all-air chunk leaves the slot unoccupied.  No
    /// events are reported.
    pub fn set_chunk(&mut self, chunk: Chunk)
        requires
            old(self).wf(),
            chunk.wf(),
            old(self).valid_chunk_coord(chunk.x as int, chunk.y as int, chunk.z as int),
        ensures
            final(self).wf(),
            final(self).width == old(self).width,
            final(self).height == old(self).height,
            final(self).length == old(self).length,
            final(self).self_entity == old(self).self_entity,
            final(self).chunk_entities == old(self).chunk_entities,
            final(self).spec_chunk_at(chunk.x as int, chunk.y as int, chunk.z as int)
                == (if chunk.all_air() { None::<Chunk> } else { Some(chunk) }),
            forall|ax: int, ay: int, az: int|
                old(self).valid_chunk_coord(ax, ay, az)
                    && (ax, ay, az) != (chunk.x as int, chunk.y as int, chunk.z as int)
                    ==> #[trigger] final(self).spec_chunk_at(ax, ay, az)
                        == old(self).spec_chunk_at(ax, ay, az),
    {
        let cx = chunk.structure_x();
        let cy = chunk.structure_y();
        let cz = chunk.structure_z();
        proof {
            lemma_flatten_bounds(cx as int, cy as int, cz as int, self.width as int,
                self.height as int, self.length as int);
        }
        let idx = flatten(cx, cy, cz, self.width, self.height);
        let ghost prev = *self;
        let keep = !chunk.is_empty();
        let ghost gchunk = chunk;
        let updated: Option<Chunk> = if keep { Some(chunk) } else { None };
        let ghost gupdated = updated;
        self.chunks[idx] = updated;
        proof {
            assert(self.chunks@ =~= prev.chunks@.update(
                prev.chunk_index_spec(gchunk.x as int, gchunk.y as int, gchunk.z as int),
                gupdated));
            self.lemma_chunk_slot_replace_frame(prev, gchunk.x as int, gchunk.y as int,
                gchunk.z as int);
            assert forall|ax: int, ay: int, az: int| self.valid_chunk_coord(ax, ay, az)
                implies #[trigger] self.chunk_slot_wf(ax, ay, az) by {
                if (ax, ay, az) != (gchunk.x as int, gchunk.y as int, gchunk.z as int) {
                    assert(prev.chunk_slot_wf(ax, ay, az));
                    assert(self.spec_chunk_at(ax, ay, az) == prev.spec_chunk_at(ax, ay, az));
                }
            }
        }
    }

    /// Centered continuous position of the chunk `(cx, cy, cz)` relative to
    /// the structure's transform, in half-block units: each axis is offset
    /// by `(dimension_in_chunks - 1) / 2` chunk lengths.
    pub fn chunk_relative_position(&self, cx: usize, cy: usize, cz: usize)
        -> (r: (i128, i128, i128))
        requires
            self.wf(),
            self.valid_chunk_coord(cx as int, cy as int, cz as int),
        ensures
            r.0 == (CHUNK_DIMENSIONS as int) * (2 * cx - (self.width - 1)),
            r.1 == (CHUNK_DIMENSIONS as int) * (2 * cy - (self.height - 1)),
            r.2 == (CHUNK_DIMENSIONS as int) * (2 * cz - (self.length - 1)),
    {
        let d = CHUNK_DIMENSIONS as i128;
        let xx = d * (2 * (cx as i128) - (self.width as i128 - 1));
        let yy = d * (2 * (cy as i128) - (self.height as i128 - 1));
        let zz = d * (2 * (cz as i128) - (self.length as i128 - 1));
        (xx, yy, zz)
    }

    /// Centered continuous position of the center of block `(x, y, z)`, in
    /// half-block units: each axis is offset by half the block extent, plus
    /// half a block to land on the block's center.
    pub fn block_relative_position(&self, x: usize, y: usize, z: usize)
        -> (r: (i128, i128, i128))
        requires
            self.wf(),
            self.valid_block_coord(x as int, y as int, z as int),
        ensures
            r.0 == 2 * x - self.width * CHUNK_DIMENSIONS + 1,
            r.1 == 2 * y - self.height * CHUNK_DIMENSIONS + 1,
            r.2 == 2 * z - self.length * CHUNK_DIMENSIONS + 1,
    {
        let xx = 2 * (x as i128) - (self.blocks_width() as i128) + 1;
        let yy = 2 * (y as i128) - (self.blocks_height() as i128) + 1;
        let zz = 2 * (z as i128) - (self.blocks_length() as i128) + 1;
        (xx, yy, zz)
    }

    /// Where the continuous point `(x, y, z)` (structure-relative,
    /// half-block units) falls: the block coordinate containing it, or on
    /// which side of the bounds it lies.
    pub open spec fn spec_relative_to_local(&self, x: int, y: int, z: int)
        -> Result<(int, int, int), bool> {
        let xx = x + self.width * CHUNK_DIMENSIONS;
        let yy = y + self.height * CHUNK_DIMENSIONS;
        let zz = z + self.length * CHUNK_DIMENSIONS;
        if xx >= 0 && yy >= 0 && zz >= 0 {
            if xx / 2 < self.width * CHUNK_DIMENSIONS && yy / 2 < self.height * CHUNK_DIMENSIONS
                && zz / 2 < self.length * CHUNK_DIMENSIONS {
                Ok((xx / 2, yy / 2, zz / 2))
            } else {
                Err(true)
            }
        } else {
            Err(false)
        }
    }

    /// Classifies the continuous structure-relative point `(x, y, z)`, in
    /// half-block units: `Ok` with the block coordinate containing it,
    /// `Err(false)` when some axis falls outside on the negative side, and
    /// `Err(true)` when every axis is on the non-negative side but some axis
    /// is out of bounds.  The three outcomes are deliberately distinct.
    pub fn relative_coords_to_local_coords(&self, x: i128, y: i128, z: i128)
        -> (r: Result<(usize, usize, usize), bool>)
        requires
            self.wf(),
            x + self.width * CHUNK_DIMENSIONS <= i128::MAX,
            y + self.height * CHUNK_DIMENSIONS <= i128::MAX,
            z + self.length * CHUNK_DIMENSIONS <= i128::MAX,
        ensures
            match r {
                Ok((a, b, c)) => {
                    &&& self.spec_relative_to_local(x as int, y as int, z as int)
                        == Ok::<(int, int, int), bool>((a as int, b as int, c as int))
                    &&& self.valid_block_coord(a as int, b as int, c as int)
                },
                Err(e) => self.spec_relative_to_local(x as int, y as int, z as int)
                    == Err::<(int, int, int), bool>(e),
            },
    {
        let xx = x + self.blocks_width() as i128;
        let yy = y + self.blocks_height() as i128;
        let zz = z + self.blocks_length() as i128;
        if xx >= 0 && yy >= 0 && zz >= 0 {
            let bx = (xx as u128) / 2;
            let by = (yy as u128) / 2;
            let bz = (zz as u128) / 2;
            if bx < self.blocks_width() as u128 && by < self.blocks_height() as u128
                && bz < self.blocks_length() as u128 {
                Ok((bx as usize, by as usize, bz as usize))
            } else {
                Err(true)
            }
        } else {
            Err(false)
        }
    }

    /// The lazy-allocation/auto-unload law: a chunk slot is occupied exactly
    /// when some block coordinate it covers reads non-air.
    pub proof fn lemma_chunk_occupancy(&self, cx: int, cy: int, cz: int)
        requires
            self.wf(),
            self.valid_chunk_coord(cx, cy, cz),
        ensures
            (self.spec_chunk_at(cx, cy, cz) is Some) <==> (exists|x: int, y: int, z: int|
                self.valid_block_coord(x, y, z)
                    && x / (CHUNK_DIMENSIONS as int) == cx
                    && y / (CHUNK_DIMENSIONS as int) == cy
                    && z / (CHUNK_DIMENSIONS as int) == cz
                    && #[trigger] self.spec_block_id_at(x, y, z) != AIR_BLOCK_ID),
    {
        let d = CHUNK_DIMENSIONS as int;
        if self.spec_chunk_at(cx, cy, cz) is Some {
            assert(self.chunk_slot_wf(cx, cy, cz));
            let c = self.spec_chunk_at(cx, cy, cz)->0;
            assert(!c.all_air());
            let i = choose|i: int| 0 <= i < c.blocks@.len() && c.blocks@[i] != AIR_BLOCK_ID;
            let lx = i % d;
            let rest = i / d;
            let ly = rest % d;
            let lz = rest / d;
            lemma_div_bound(i, d, d * d);
            lemma_div_bound(rest, d, d);
            assert(cell_index_spec(lx, ly, lz) == i);
            let x = cx * d + lx;
            let y = cy * d + ly;
            let z = cz * d + lz;
            vstd::arithmetic::div_mod::lemma_fundamental_div_mod_converse(x, d, cx, lx);
            vstd::arithmetic::div_mod::lemma_fundamental_div_mod_converse(y, d, cy, ly);
            vstd::arithmetic::div_mod::lemma_fundamental_div_mod_converse(z, d, cz, lz);
            assert(self.valid_block_coord(x, y, z));
            assert(self.spec_block_id_at(x, y, z) == c.blocks@[i]);
            assert(self.spec_block_id_at(x, y, z) != AIR_BLOCK_ID);
        } else {
            assert forall|x: int, y: int, z: int|
                self.valid_block_coord(x, y, z)
                    && x / (CHUNK_DIMENSIONS as int) == cx
                    && y / (CHUNK_DIMENSIONS as int) == cy
                    && z / (CHUNK_DIMENSIONS as int) == cz
                    implies #[trigger] self.spec_block_id_at(x, y, z) == AIR_BLOCK_ID by {
            }
        }
    }
}

} // verus!
