//! Blocks and the read-only block registry.
//!
//! A block is an immutable value identified by a stable numeric id and a
//! unique name.  Hardness (the damage threshold at which a block is
//! destroyed) is looked up by id through [`BlockHardness`], not stored on the
//! block itself.

use vstd::prelude::*;

verus! {

/// The block id that marks an empty cell.  A chunk slot holding only this id
/// is considered empty and is never retained by a structure.
pub const AIR_BLOCK_ID: u16 = 0;

/// An immutable, registry-resolved block kind.
pub struct Block {
    /// Stable numeric id, equal to this block's index in its registry.
    pub id: u16,
    /// Unique name, such as `cosmos:stone`.
    pub unlocalized_name: String,
}

impl Block {
    /// The block's stable numeric id.
    pub fn id(&self) -> (r: u16)
        ensures
            r == self.id,
    {
        self.id
    }

    /// The block's unique name.
    pub fn unlocalized_name(&self) -> (r: &str)
        ensures
            r@ == self.unlocalized_name@,
    {
        self.unlocalized_name.as_str()
    }
}

/// The damage threshold of one block kind, in damage units.
pub struct BlockHardness {
    /// Accumulated damage at or above this value destroys the block.
    pub hardness: u32,
}

impl BlockHardness {
    /// Wraps a damage threshold.
    pub fn new(hardness: u32) -> (r: BlockHardness)
        ensures
            r.hardness == hardness,
    {
        BlockHardness { hardness }
    }
}

/// A read-only registry resolving numeric ids to blocks.
///
/// Ids are assigned densely in registration order, so a block's id doubles as
/// its index.
pub struct Blocks {
    /// The registered blocks; the block with id `i` sits at index `i`.
    pub blocks: Vec<Block>,
}

impl Blocks {
    /// Ids are sequential and names are unique.
    pub open spec fn wf(&self) -> bool {
        &&& self.blocks@.len() <= 0x10000
        &&& forall|i: int|
            0 <= i < self.blocks@.len() ==> (#[trigger] self.blocks@[i]).id == i as u16
        &&& forall|i: int, j: int|
            0 <= i < self.blocks@.len() && 0 <= j < self.blocks@.len() && i != j
                ==> (#[trigger] self.blocks@[i]).unlocalized_name@
                    != (#[trigger] self.blocks@[j]).unlocalized_name@
    }

    /// Whether `id` resolves to a registered block.
    pub open spec fn contains_id(&self, id: u16) -> bool {
        id < self.blocks@.len()
    }

    /// An empty registry.
    pub fn new() -> (r: Blocks)
        ensures
            r.wf(),
            r.blocks@.len() == 0,
    {
        Blocks { blocks: Vec::new() }
    }

    /// The number of registered blocks.
    pub fn len(&self) -> (r: usize)
        ensures
            r == self.blocks@.len(),
    {
        self.blocks.len()
    }

    /// Registers a block under the next free id and returns that id, or
    /// returns `None`, changing nothing, if the name is already taken or the
    /// id space is exhausted.
    pub fn register(&mut self, unlocalized_name: String) -> (r: Option<u16>)
        requires
            old(self).wf(),
        ensures
            final(self).wf(),
            match r {
                Some(id) => {
                    &&& id == old(self).blocks@.len()
                    &&& old(self).blocks@.len() < 0x10000
                    &&& forall|i: int|
                        0 <= i < old(self).blocks@.len()
                            ==> (#[trigger] old(self).blocks@[i]).unlocalized_name@
                                != unlocalized_name@
                    &&& final(self).blocks@.len() == old(self).blocks@.len() + 1
                    &&& forall|i: int|
                        0 <= i < old(self).blocks@.len()
                            ==> final(self).blocks@[i] == old(self).blocks@[i]
                    &&& final(self).blocks@[id as int].id == id
                    &&& final(self).blocks@[id as int].unlocalized_name@ == unlocalized_name@
                },
                None => {
                    &&& *final(self) == *old(self)
                    &&& (old(self).blocks@.len() >= 0x10000
                        || exists|i: int|
                            0 <= i < old(self).blocks@.len()
                                && (#[trigger] old(self).blocks@[i]).unlocalized_name@
                                    == unlocalized_name@)
                },
            },
    {
        if self.blocks.len() >= 0x10000 {
            return None;
        }
        let n = self.blocks.len();
        let mut i: usize = 0;
        while i < n
            invariant
                *self == *old(self),
                self.wf(),
                n == self.blocks@.len(),
                n < 0x10000,
                i <= n,
                forall|j: int|
                    0 <= j < i ==> (#[trigger] self.blocks@[j]).unlocalized_name@
                        != unlocalized_name@,
            decreases n - i,
        {
            if self.blocks[i].unlocalized_name == unlocalized_name {
                assert(self.blocks@[i as int].unlocalized_name@ == unlocalized_name@);
                return None;
            }
            i += 1;
        }
        let id = n as u16;
        self.blocks.push(Block { id, unlocalized_name });
        Some(id)
    }

    /// Resolves a numeric id to its block.
    pub fn from_numeric_id(&self, id: u16) -> (r: &Block)
        requires
            self.wf(),
            self.contains_id(id),
        ensures
            *r == self.blocks@[id as int],
            r.id == id,
    {
        &self.blocks[id as usize]
    }

    /// Finds the block registered under `unlocalized_name`, if any.
    pub fn block_from_id(&self, unlocalized_name: &String) -> (r: Option<&Block>)
        requires
            self.wf(),
        ensures
            match r {
                Some(b) => {
                    &&& self.blocks@.contains(*b)
                    &&& b.unlocalized_name@ == unlocalized_name@
                },
                None => forall|i: int|
                    0 <= i < self.blocks@.len()
                        ==> (#[trigger] self.blocks@[i]).unlocalized_name@
                            != unlocalized_name@,
            },
    {
        let n = self.blocks.len();
        let mut i: usize = 0;
        while i < n
            invariant
                n == self.blocks@.len(),
                i <= n,
                forall|j: int|
                    0 <= j < i ==> (#[trigger] self.blocks@[j]).unlocalized_name@
                        != unlocalized_name@,
            decreases n - i,
        {
            if self.blocks[i].unlocalized_name == *unlocalized_name {
                assert(self.blocks@.contains(self.blocks@[i as int]));
                return Some(&self.blocks[i]);
            }
            i += 1;
        }
        None
    }
}

} // verus!
