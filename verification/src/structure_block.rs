//! Block-coordinate handles.
//!
//! A [`StructureBlock`] names one block position inside a structure's block
//! space; events use it as their unit of addressing.  The chunk coordinate of
//! a position is its block coordinate integer-divided by `CHUNK_DIMENSIONS`.

use vstd::prelude::*;
use crate::block::{Block, Blocks};
use crate::chunk::CHUNK_DIMENSIONS;
use crate::structure::Structure;
use vstd::arithmetic::div_mod::lemma_fundamental_div_mod;

verus! {

/// A structure-relative block coordinate.
#[derive(Clone, Copy, Debug, PartialEq, Eq, Structural)]
pub struct StructureBlock {
    /// Block x-coordinate.
    pub x: usize,
    /// Block y-coordinate.
    pub y: usize,
    /// Block z-coordinate.
    pub z: usize,
}

impl StructureBlock {
    /// The block x-coordinate.
    pub fn x(&self) -> (r: usize)
        ensures
            r == self.x,
    {
        self.x
    }

    /// The block y-coordinate.
    pub fn y(&self) -> (r: usize)
        ensures
            r == self.y,
    {
        self.y
    }

    /// The block z-coordinate.
    pub fn z(&self) -> (r: usize)
        ensures
            r == self.z,
    {
        self.z
    }

    /// Wraps a block coordinate.
    pub fn new(x: usize, y: usize, z: usize) -> (r: StructureBlock)
        ensures
            r.x == x,
            r.y == y,
            r.z == z,
    {
        StructureBlock { x, y, z }
    }

    /// The x-coordinate of the chunk containing this block.
    pub fn chunk_coord_x(&self) -> (r: usize)
        ensures
            r == self.x as int / CHUNK_DIMENSIONS as int,
    {
        self.x / CHUNK_DIMENSIONS
    }

    /// The y-coordinate of the chunk containing this block.
    pub fn chunk_coord_y(&self) -> (r: usize)
        ensures
            r == self.y as int / CHUNK_DIMENSIONS as int,
    {
        self.y / CHUNK_DIMENSIONS
    }

    /// The z-coordinate of the chunk containing this block.
    pub fn chunk_coord_z(&self) -> (r: usize)
        ensures
            r == self.z as int / CHUNK_DIMENSIONS as int,
    {
        self.z / CHUNK_DIMENSIONS
    }

    /// The block stored at this coordinate, resolved through the registry.
    pub fn block<'a>(&self, structure: &Structure, blocks: &'a Blocks) -> (r: &'a Block)
        requires
            structure.wf(),
            structure.valid_block_coord(self.x as int, self.y as int, self.z as int),
            blocks.wf(),
            blocks.contains_id(structure.spec_block_id_at(self.x as int, self.y as int,
                self.z as int)),
        ensures
            r.id == structure.spec_block_id_at(self.x as int, self.y as int, self.z as int),
    {
        structure.block_at(self.x, self.y, self.z, blocks)
    }

    /// The coordinate of the chunk containing this block, on all three axes.
    pub fn chunk_coords(&self) -> (r: (usize, usize, usize))
        ensures
            r.0 == self.x as int / CHUNK_DIMENSIONS as int,
            r.1 == self.y as int / CHUNK_DIMENSIONS as int,
            r.2 == self.z as int / CHUNK_DIMENSIONS as int,
    {
        (self.x / CHUNK_DIMENSIONS, self.y / CHUNK_DIMENSIONS, self.z / CHUNK_DIMENSIONS)
    }
}

/// Splitting a block coordinate into its chunk coordinate and its
/// local-in-chunk coordinate loses nothing: the chunk coordinate times
/// `CHUNK_DIMENSIONS` plus the local coordinate is the block coordinate
/// again, and the local coordinate lies in `[0, CHUNK_DIMENSIONS)`.
pub proof fn lemma_chunk_local_roundtrip(b: int)
    ensures
        (b / (CHUNK_DIMENSIONS as int)) * (CHUNK_DIMENSIONS as int)
            + b % (CHUNK_DIMENSIONS as int) == b,
        0 <= b % (CHUNK_DIMENSIONS as int) < CHUNK_DIMENSIONS,
{
    lemma_fundamental_div_mod(b, CHUNK_DIMENSIONS as int);
}

} // verus!
