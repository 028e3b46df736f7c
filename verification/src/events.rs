//! Typed events connecting the structure core to outside collaborators.
//!
//! Events are value objects produced by mutation calls and drained by named
//! consumer passes within one logical tick; none survives the tick it was
//! emitted in.  Structures and their chunk representations are referred to by
//! opaque entity handles owned by the host.

use vstd::prelude::*;
use crate::structure_block::StructureBlock;

verus! {

/// Emitted when a block of a structure changes id.
#[derive(Clone, Copy, Debug, PartialEq, Eq, Structural)]
pub struct BlockChangedEvent {
    /// Entity handle of the structure that changed.
    pub structure_entity: u64,
    /// The block coordinate that changed.
    pub block: StructureBlock,
    /// Block id stored there before the change.
    pub old_block: u16,
    /// Block id stored there after the change.
    pub new_block: u16,
}

/// Emitted when accumulated damage destroys a block.
#[derive(Clone, Copy, Debug, PartialEq, Eq, Structural)]
pub struct BlockDestroyedEvent {
    /// Entity handle of the structure that lost the block.
    pub structure_entity: u64,
    /// The block coordinate that was destroyed.
    pub block: StructureBlock,
}

/// Emitted when a chunk has been generated for the first time.
#[derive(Clone, Copy, Debug, PartialEq, Eq, Structural)]
pub struct ChunkInitEvent {
    /// Entity handle of the owning structure.
    pub structure_entity: u64,
    /// Chunk x-coordinate within the structure.
    pub x: usize,
    /// Chunk y-coordinate within the structure.
    pub y: usize,
    /// Chunk z-coordinate within the structure.
    pub z: usize,
}

/// Emitted, at most once per chunk and tick, when a chunk's content changed
/// in a way collaborators should re-render or re-sync.
#[derive(Clone, Copy, Debug, PartialEq, Eq, Structural)]
pub struct ChunkSetEvent {
    /// Entity handle of the owning structure.
    pub structure_entity: u64,
    /// Chunk x-coordinate within the structure.
    pub x: usize,
    /// Chunk y-coordinate within the structure.
    pub y: usize,
    /// Chunk z-coordinate within the structure.
    pub z: usize,
}

} // verus!
