//! The chunk store: a dense, fixed-size 3D block container with a sparse
//! per-block damage overlay.
//!
//! A chunk owns `CHUNK_DIMENSIONS` cubed block ids, addressed by local
//! coordinates in `[0, CHUNK_DIMENSIONS)`, plus an overlay recording the
//! accumulated damage of each cell; only cells with nonzero damage have an
//! overlay entry.

use vstd::prelude::*;
use crate::block::{AIR_BLOCK_ID, Block, BlockHardness};
use crate::math::{flatten, flatten_spec, lemma_flatten_bounds, lemma_flatten_injective};

verus! {

/// Edge length of every chunk, in blocks.
pub const CHUNK_DIMENSIONS: usize = 32;

/// Number of cells in a chunk.
pub const CHUNK_VOLUME: usize = 32 * 32 * 32;

/// Whether `(lx, ly, lz)` is a local coordinate inside a chunk.
pub open spec fn valid_local(lx: int, ly: int, lz: int) -> bool {
    &&& 0 <= lx < CHUNK_DIMENSIONS
    &&& 0 <= ly < CHUNK_DIMENSIONS
    &&& 0 <= lz < CHUNK_DIMENSIONS
}

/// Flat cell index of the local coordinate `(lx, ly, lz)`.
pub open spec fn cell_index_spec(lx: int, ly: int, lz: int) -> int {
    flatten_spec(lx, ly, lz, CHUNK_DIMENSIONS as int, CHUNK_DIMENSIONS as int)
}

/// Number of non-air cells in a block array.
pub open spec fn count_non_air(s: Seq<u16>) -> nat
    decreases s.len(),
{
    if s.len() == 0 {
        0nat
    } else {
        count_non_air(s.drop_last()) + if s.last() == AIR_BLOCK_ID {
            0nat
        } else {
            1nat
        }
    }
}

/// The non-air count never exceeds the cell count, and is strictly below it
/// wherever some cell holds air.
pub proof fn lemma_count_non_air_le_len(s: Seq<u16>)
    ensures
        count_non_air(s) <= s.len(),
        forall|i: int| 0 <= i < s.len() && s[i] == AIR_BLOCK_ID ==> count_non_air(s) < s.len(),
    decreases s.len(),
{
    if s.len() > 0 {
        lemma_count_non_air_le_len(s.drop_last());
        assert forall|i: int| 0 <= i < s.len() && s[i] == AIR_BLOCK_ID
            implies count_non_air(s) < s.len() by {
            if i < s.len() - 1 {
                assert(s.drop_last()[i] == AIR_BLOCK_ID);
            }
        }
    }
}

/// The non-air count is zero exactly when every cell holds air.
pub proof fn lemma_count_zero_iff_all_air(s: Seq<u16>)
    ensures
        (count_non_air(s) == 0) <==> (forall|i: int|
            0 <= i < s.len() ==> s[i] == AIR_BLOCK_ID),
    decreases s.len(),
{
    if s.len() > 0 {
        lemma_count_zero_iff_all_air(s.drop_last());
        assert(forall|i: int| 0 <= i < s.len() - 1 ==> s.drop_last()[i] == s[i]);
        if count_non_air(s) == 0 {
            assert(s.last() == AIR_BLOCK_ID);
            assert forall|i: int| 0 <= i < s.len() implies s[i] == AIR_BLOCK_ID by {
                if i < s.len() - 1 {
                    assert(s.drop_last()[i] == AIR_BLOCK_ID);
                }
            }
        }
    }
}

/// How updating one cell changes the non-air count.
pub proof fn lemma_count_update(s: Seq<u16>, i: int, v: u16)
    requires
        0 <= i < s.len(),
    ensures
        count_non_air(s.update(i, v)) == count_non_air(s)
            - (if s[i] != AIR_BLOCK_ID { 1int } else { 0int })
            + (if v != AIR_BLOCK_ID { 1int } else { 0int }),
    decreases s.len(),
{
    let t = s.update(i, v);
    if i == s.len() - 1 {
        assert(t.drop_last() =~= s.drop_last());
        assert(t.last() == v);
    } else {
        assert(t.drop_last() =~= s.drop_last().update(i, v));
        assert(t.last() == s.last());
        lemma_count_update(s.drop_last(), i, v);
    }
}

/// Accumulated damage recorded for `key` in an overlay; zero when the overlay
/// has no entry for `key`.
pub open spec fn damage_at(s: Seq<(usize, u32)>, key: int) -> u32
    decreases s.len(),
{
    if s.len() == 0 {
        0u32
    } else if s.last().0 == key {
        s.last().1
    } else {
        damage_at(s.drop_last(), key)
    }
}

/// Overlay invariant: keys are valid cell indices and unique, and only
/// nonzero damage is stored.
pub open spec fn overlay_wf(s: Seq<(usize, u32)>) -> bool {
    &&& forall|i: int| 0 <= i < s.len() ==> (#[trigger] s[i]).0 < CHUNK_VOLUME
    &&& forall|i: int| 0 <= i < s.len() ==> (#[trigger] s[i]).1 > 0
    &&& forall|i: int, j: int|
        0 <= i < s.len() && 0 <= j < s.len() && i != j
            ==> (#[trigger] s[i]).0 != (#[trigger] s[j]).0
}

/// A key that appears nowhere in the overlay has no damage.
pub proof fn lemma_damage_at_absent(s: Seq<(usize, u32)>, key: int)
    requires
        forall|i: int| 0 <= i < s.len() ==> (#[trigger] s[i]).0 != key,
    ensures
        damage_at(s, key) == 0,
    decreases s.len(),
{
    if s.len() > 0 {
        assert(forall|i: int| 0 <= i < s.len() - 1 ==> s.drop_last()[i] == s[i]);
        lemma_damage_at_absent(s.drop_last(), key);
    }
}

/// With unique keys, the damage recorded for the key of entry `j` is that
/// entry's value.
pub proof fn lemma_damage_at_found(s: Seq<(usize, u32)>, j: int)
    requires
        0 <= j < s.len(),
        forall|i1: int, i2: int|
            0 <= i1 < s.len() && 0 <= i2 < s.len() && i1 != i2
                ==> (#[trigger] s[i1]).0 != (#[trigger] s[i2]).0,
    ensures
        damage_at(s, s[j].0 as int) == s[j].1,
    decreases s.len(),
{
    if j < s.len() - 1 {
        assert(s.last().0 != s[j].0);
        assert(forall|i: int| 0 <= i < s.len() - 1 ==> s.drop_last()[i] == s[i]);
        lemma_damage_at_found(s.drop_last(), j);
    }
}

/// Removing entry `j` does not change the damage recorded for other keys.
pub proof fn lemma_damage_at_remove(s: Seq<(usize, u32)>, j: int, key: int)
    requires
        0 <= j < s.len(),
        key != s[j].0,
    ensures
        damage_at(s.remove(j), key) == damage_at(s, key),
    decreases s.len(),
{
    let t = s.remove(j);
    if j == s.len() - 1 {
        assert(t =~= s.drop_last());
    } else {
        assert(t.last() == s.last());
        if s.last().0 != key {
            assert(t.drop_last() =~= s.drop_last().remove(j));
            lemma_damage_at_remove(s.drop_last(), j, key);
        }
    }
}

/// Replacing entry `j` by another entry with the same key changes only the
/// damage recorded for that key.
pub proof fn lemma_damage_at_update(s: Seq<(usize, u32)>, j: int, e: (usize, u32), key: int)
    requires
        0 <= j < s.len(),
        e.0 == s[j].0,
        forall|i1: int, i2: int|
            0 <= i1 < s.len() && 0 <= i2 < s.len() && i1 != i2
                ==> (#[trigger] s[i1]).0 != (#[trigger] s[i2]).0,
    ensures
        damage_at(s.update(j, e), e.0 as int) == e.1,
        key != e.0 ==> damage_at(s.update(j, e), key) == damage_at(s, key),
    decreases s.len(),
{
    let t = s.update(j, e);
    assert(forall|i: int| 0 <= i < s.len() - 1 ==> s.drop_last()[i] == s[i]);
    if j == s.len() - 1 {
        assert(t.drop_last() =~= s.drop_last());
    } else {
        assert(t.drop_last() =~= s.drop_last().update(j, e));
        assert(t.last() == s.last());
        assert(s.last().0 != e.0);
        lemma_damage_at_update(s.drop_last(), j, e, key);
    }
}

/// Reads the damage recorded for `key` in an overlay.
fn overlay_get(v: &Vec<(usize, u32)>, key: usize) -> (r: u32)
    ensures
        r == damage_at(v@, key as int),
{
    let mut i: usize = v.len();
    proof {
        assert(v@.take(i as int) =~= v@);
    }
    while i > 0
        invariant
            i <= v@.len(),
            damage_at(v@, key as int) == damage_at(v@.take(i as int), key as int),
        decreases i,
    {
        i = i - 1;
        let e = v[i];
        assert(v@.take(i + 1).last() == v@[i as int]);
        assert(v@.take(i + 1).drop_last() =~= v@.take(i as int));
        if e.0 == key {
            return e.1;
        }
    }
    proof {
        assert(v@.take(0) =~= Seq::<(usize, u32)>::empty());
    }
    0
}

/// Removes any entry for `key` from an overlay.
fn overlay_remove(v: &mut Vec<(usize, u32)>, key: usize)
    requires
        overlay_wf(old(v)@),
    ensures
        overlay_wf(final(v)@),
        damage_at(final(v)@, key as int) == 0,
        forall|k: int| k != key ==> damage_at(final(v)@, k) == damage_at(old(v)@, k),
        final(v)@.len() <= old(v)@.len(),
    {
    let n = v.len();
    let mut i: usize = 0;
    while i < n
        invariant
            *v == *old(v),
            overlay_wf(v@),
            n == v@.len(),
            i <= n,
            forall|j: int| 0 <= j < i ==> (#[trigger] v@[j]).0 != key,
        decreases n - i,
    {
        if v[i].0 == key {
            proof {
                let s = v@;
                assert forall|k: int| k != key implies damage_at(s.remove(i as int), k)
                    == damage_at(s, k) by {
                    lemma_damage_at_remove(s, i as int, k);
                }
                assert forall|j: int| 0 <= j < s.remove(i as int).len()
                    implies (#[trigger] s.remove(i as int)[j]).0 != key by {
                    if j < i {
                        assert(s.remove(i as int)[j] == s[j]);
                    } else {
                        assert(s.remove(i as int)[j] == s[j + 1]);
                    }
                }
                lemma_damage_at_absent(s.remove(i as int), key as int);
            }
            v.remove(i);
            return;
        }
        i += 1;
    }
    proof {
        lemma_damage_at_absent(v@, key as int);
    }
}

/// Records damage `val` for `key` in an overlay, replacing any previous
/// entry.
fn overlay_set(v: &mut Vec<(usize, u32)>, key: usize, val: u32)
    requires
        overlay_wf(old(v)@),
        key < CHUNK_VOLUME,
        val > 0,
    ensures
        overlay_wf(final(v)@),
        damage_at(final(v)@, key as int) == val,
        forall|k: int| k != key ==> damage_at(final(v)@, k) == damage_at(old(v)@, k),
    {
    let n = v.len();
    let mut i: usize = 0;
    while i < n
        invariant
            *v == *old(v),
            overlay_wf(v@),
            key < CHUNK_VOLUME,
            val > 0,
            n == v@.len(),
            i <= n,
            forall|j: int| 0 <= j < i ==> (#[trigger] v@[j]).0 != key,
        decreases n - i,
    {
        if v[i].0 == key {
            proof {
                let s = v@;
                lemma_damage_at_update(s, i as int, (key, val), 0);
                assert forall|k: int| k != key
                    implies damage_at(s.update(i as int, (key, val)), k)
                        == damage_at(s, k) by {
                    lemma_damage_at_update(s, i as int, (key, val), k);
                }
            }
            v[i] = (key, val);
            proof {
                assert forall|j: int| 0 <= j < v@.len()
                    implies (#[trigger] v@[j]).0 < CHUNK_VOLUME && v@[j].1 > 0 by {
                    if j != i {
                        assert(v@[j] == old(v)@[j]);
                        assert(old(v)@[j].0 < CHUNK_VOLUME && old(v)@[j].1 > 0);
                    }
                }
                assert forall|i1: int, i2: int|
                    0 <= i1 < v@.len() && 0 <= i2 < v@.len() && i1 != i2
                        implies (#[trigger] v@[i1]).0 != (#[trigger] v@[i2]).0 by {
                    if i1 != i && i2 != i {
                        assert(v@[i1] == old(v)@[i1] && v@[i2] == old(v)@[i2]);
                    } else if i1 == i {
                        assert(v@[i2] == old(v)@[i2]);
                        assert(old(v)@[i2].0 != old(v)@[i as int].0);
                    } else {
                        assert(v@[i1] == old(v)@[i1]);
                        assert(old(v)@[i1].0 != old(v)@[i as int].0);
                    }
                }
            }
            return;
        }
        i += 1;
    }
    proof {
        let s = v@;
        assert(s.push((key, val)).last() == (key, val));
        assert(s.push((key, val)).drop_last() =~= s);
        lemma_damage_at_absent(s, key as int);
    }
    v.push((key, val));
}

/// A dense cube of block ids plus the damage overlay, identified by its
/// chunk coordinate within the owning structure.
pub struct Chunk {
    /// Chunk x-coordinate within the owning structure.
    pub x: usize,
    /// Chunk y-coordinate within the owning structure.
    pub y: usize,
    /// Chunk z-coordinate within the owning structure.
    pub z: usize,
    /// Row-major block ids; always exactly `CHUNK_VOLUME` entries.
    pub blocks: Vec<u16>,
    /// Number of non-air entries in `blocks`.
    pub non_air_count: usize,
    /// Sparse accumulated-damage overlay keyed by flat cell index.
    pub damage: Vec<(usize, u32)>,
}

impl Chunk {
    /// Shape invariant: the block array is full-size, the cached non-air
    /// count is accurate, and the damage overlay is well formed.
    pub open spec fn wf(&self) -> bool {
        &&& self.blocks@.len() == CHUNK_VOLUME
        &&& self.non_air_count == count_non_air(self.blocks@)
        &&& overlay_wf(self.damage@)
    }

    /// Block id stored at local coordinate `(lx, ly, lz)`.
    pub open spec fn block_id_spec(&self, lx: int, ly: int, lz: int) -> u16 {
        self.blocks@[cell_index_spec(lx, ly, lz)]
    }

    /// Accumulated damage of the cell at `(lx, ly, lz)`.
    pub open spec fn damage_spec(&self, lx: int, ly: int, lz: int) -> u32 {
        damage_at(self.damage@, cell_index_spec(lx, ly, lz))
    }

    /// Whether every cell of the chunk holds air.
    pub open spec fn all_air(&self) -> bool {
        forall|i: int| 0 <= i < self.blocks@.len() ==> self.blocks@[i] == AIR_BLOCK_ID
    }

    /// Creates the all-air chunk at chunk coordinate `(x, y, z)`.
    pub fn new(x: usize, y: usize, z: usize) -> (c: Chunk)
        ensures
            c.wf(),
            c.x == x,
            c.y == y,
            c.z == z,
            c.all_air(),
            forall|k: int| damage_at(c.damage@, k) == 0,
    {
        let blocks: Vec<u16> = vec![AIR_BLOCK_ID; CHUNK_VOLUME];
        proof {
            lemma_count_zero_iff_all_air(blocks@);
        }
        Chunk { x, y, z, blocks, non_air_count: 0, damage: Vec::new() }
    }

    /// This chunk's x-coordinate within its structure.
    pub fn structure_x(&self) -> (r: usize)
        ensures
            r == self.x,
    {
        self.x
    }

    /// This chunk's y-coordinate within its structure.
    pub fn structure_y(&self) -> (r: usize)
        ensures
            r == self.y,
    {
        self.y
    }

    /// This chunk's z-coordinate within its structure.
    pub fn structure_z(&self) -> (r: usize)
        ensures
            r == self.z,
    {
        self.z
    }

    /// Block id at the local coordinate `(lx, ly, lz)`.
    ///
    /// Local coordinates outside `[0, CHUNK_DIMENSIONS)` are a caller bug and
    /// are excluded outright.
    pub fn block_at(&self, lx: usize, ly: usize, lz: usize) -> (r: u16)
        requires
            self.wf(),
            valid_local(lx as int, ly as int, lz as int),
        ensures
            r == self.block_id_spec(lx as int, ly as int, lz as int),
    {
        proof {
            lemma_flatten_bounds(lx as int, ly as int, lz as int,
                CHUNK_DIMENSIONS as int, CHUNK_DIMENSIONS as int, CHUNK_DIMENSIONS as int);
        }
        let idx = flatten(lx, ly, lz, CHUNK_DIMENSIONS, CHUNK_DIMENSIONS);
        self.blocks[idx]
    }

    /// Whether the chunk is empty, that is, every cell holds air.
    pub fn is_empty(&self) -> (r: bool)
        requires
            self.wf(),
        ensures
            r == self.all_air(),
    {
        proof {
            lemma_count_zero_iff_all_air(self.blocks@);
        }
        self.non_air_count == 0
    }

    /// Overwrites the cell at `(lx, ly, lz)` with `block` and clears any
    /// damage recorded for that cell.
    pub fn set_block_at(&mut self, lx: usize, ly: usize, lz: usize, block: &Block)
        requires
            old(self).wf(),
            valid_local(lx as int, ly as int, lz as int),
        ensures
            final(self).wf(),
            final(self).x == old(self).x,
            final(self).y == old(self).y,
            final(self).z == old(self).z,
            final(self).blocks@ == old(self).blocks@.update(
                cell_index_spec(lx as int, ly as int, lz as int), block.id),
            final(self).block_id_spec(lx as int, ly as int, lz as int) == block.id,
            forall|ax: int, ay: int, az: int|
                valid_local(ax, ay, az) && (ax, ay, az) != (lx as int, ly as int, lz as int)
                    ==> #[trigger] final(self).block_id_spec(ax, ay, az)
                        == old(self).block_id_spec(ax, ay, az),
            final(self).damage_spec(lx as int, ly as int, lz as int) == 0,
            forall|ax: int, ay: int, az: int|
                valid_local(ax, ay, az) && (ax, ay, az) != (lx as int, ly as int, lz as int)
                    ==> #[trigger] final(self).damage_spec(ax, ay, az)
                        == old(self).damage_spec(ax, ay, az),
    {
        proof {
            lemma_flatten_bounds(lx as int, ly as int, lz as int,
                CHUNK_DIMENSIONS as int, CHUNK_DIMENSIONS as int, CHUNK_DIMENSIONS as int);
            lemma_count_non_air_le_len(self.blocks@);
            lemma_count_update(self.blocks@, cell_index_spec(lx as int, ly as int, lz as int),
                block.id);
        }
        let idx = flatten(lx, ly, lz, CHUNK_DIMENSIONS, CHUNK_DIMENSIONS);
        let old_id = self.blocks[idx];
        self.blocks[idx] = block.id;
        if old_id != AIR_BLOCK_ID && block.id == AIR_BLOCK_ID {
            self.non_air_count = self.non_air_count - 1;
        } else if old_id == AIR_BLOCK_ID && block.id != AIR_BLOCK_ID {
            self.non_air_count = self.non_air_count + 1;
        }
        overlay_remove(&mut self.damage, idx);
        proof {
            assert forall|ax: int, ay: int, az: int|
                valid_local(ax, ay, az) && (ax, ay, az) != (lx as int, ly as int, lz as int)
                    implies #[trigger] cell_index_spec(ax, ay, az)
                        != cell_index_spec(lx as int, ly as int, lz as int) by {
                if cell_index_spec(ax, ay, az) == cell_index_spec(lx as int, ly as int, lz as int) {
                    lemma_flatten_injective(ax, ay, az, lx as int, ly as int, lz as int,
                        CHUNK_DIMENSIONS as int, CHUNK_DIMENSIONS as int);
                }
            }
        }
    }

    /// Remaining health of the cell at `(lx, ly, lz)`: the hardness minus the
    /// accumulated damage, clamped to `[0, hardness]`.
    pub fn get_block_health(&self, lx: usize, ly: usize, lz: usize,
        block_hardness: &BlockHardness) -> (r: u32)
        requires
            self.wf(),
            valid_local(lx as int, ly as int, lz as int),
        ensures
            r == health_spec(block_hardness.hardness,
                self.damage_spec(lx as int, ly as int, lz as int)),
    {
        proof {
            lemma_flatten_bounds(lx as int, ly as int, lz as int,
                CHUNK_DIMENSIONS as int, CHUNK_DIMENSIONS as int, CHUNK_DIMENSIONS as int);
        }
        let idx = flatten(lx, ly, lz, CHUNK_DIMENSIONS, CHUNK_DIMENSIONS);
        let dmg = overlay_get(&self.damage, idx);
        if dmg >= block_hardness.hardness {
            0
        } else {
            block_hardness.hardness - dmg
        }
    }

    /// Adds `amount` damage to the cell at `(lx, ly, lz)`.  When the
    /// accumulated total reaches the hardness the cell is reset to air, its
    /// overlay entry is dropped, and `true` ("destroyed") is returned.
    pub fn block_take_damage(&mut self, lx: usize, ly: usize, lz: usize,
        block_hardness: &BlockHardness, amount: u32) -> (destroyed: bool)
        requires
            old(self).wf(),
            valid_local(lx as int, ly as int, lz as int),
        ensures
            final(self).wf(),
            final(self).x == old(self).x,
            final(self).y == old(self).y,
            final(self).z == old(self).z,
            destroyed == (old(self).damage_spec(lx as int, ly as int, lz as int) + amount
                >= block_hardness.hardness),
            destroyed ==> {
                &&& final(self).blocks@ == old(self).blocks@.update(
                    cell_index_spec(lx as int, ly as int, lz as int), AIR_BLOCK_ID)
                &&& final(self).damage_spec(lx as int, ly as int, lz as int) == 0
            },
            !destroyed ==> {
                &&& final(self).blocks@ == old(self).blocks@
                &&& final(self).damage_spec(lx as int, ly as int, lz as int)
                    == old(self).damage_spec(lx as int, ly as int, lz as int) + amount
            },
            forall|ax: int, ay: int, az: int|
                valid_local(ax, ay, az) && (ax, ay, az) != (lx as int, ly as int, lz as int)
                    ==> #[trigger] final(self).damage_spec(ax, ay, az)
                        == old(self).damage_spec(ax, ay, az),
    {
        proof {
            lemma_flatten_bounds(lx as int, ly as int, lz as int,
                CHUNK_DIMENSIONS as int, CHUNK_DIMENSIONS as int, CHUNK_DIMENSIONS as int);
        }
        let idx = flatten(lx, ly, lz, CHUNK_DIMENSIONS, CHUNK_DIMENSIONS);
        let dmg = overlay_get(&self.damage, idx);
        let total = dmg as u64 + amount as u64;
        proof {
            assert forall|ax: int, ay: int, az: int|
                valid_local(ax, ay, az) && (ax, ay, az) != (lx as int, ly as int, lz as int)
                    implies #[trigger] cell_index_spec(ax, ay, az)
                        != cell_index_spec(lx as int, ly as int, lz as int) by {
                if cell_index_spec(ax, ay, az) == cell_index_spec(lx as int, ly as int, lz as int) {
                    lemma_flatten_injective(ax, ay, az, lx as int, ly as int, lz as int,
                        CHUNK_DIMENSIONS as int, CHUNK_DIMENSIONS as int);
                }
            }
        }
        if total >= block_hardness.hardness as u64 {
            proof {
                lemma_count_non_air_le_len(self.blocks@);
                lemma_count_update(self.blocks@,
                    cell_index_spec(lx as int, ly as int, lz as int), AIR_BLOCK_ID);
            }
            let old_id = self.blocks[idx];
            self.blocks[idx] = AIR_BLOCK_ID;
            if old_id != AIR_BLOCK_ID {
                self.non_air_count = self.non_air_count - 1;
            }
            overlay_remove(&mut self.damage, idx);
            true
        } else {
            if total > 0 {
                overlay_set(&mut self.damage, idx, total as u32);
            }
            false
        }
    }
}

/// Remaining health of a cell: `hardness` minus `damage`, clamped at zero.
pub open spec fn health_spec(hardness: u32, damage: u32) -> u32 {
    if damage >= hardness {
        0u32
    } else {
        (hardness - damage) as u32
    }
}

/// The total of a series of damage amounts.
pub open spec fn sum_damage(amounts: Seq<u32>) -> int
    decreases amounts.len(),
{
    if amounts.len() == 0 {
        0
    } else {
        sum_damage(amounts.drop_last()) + amounts.last()
    }
}

/// No prefix of a series of damage amounts exceeds the series total.
pub proof fn lemma_sum_damage_prefix_le(amounts: Seq<u32>, k: int)
    requires
        0 <= k <= amounts.len(),
    ensures
        0 <= sum_damage(amounts.take(k)) <= sum_damage(amounts),
    decreases amounts.len(),
{
    if amounts.len() == 0 {
        assert(amounts.take(k) =~= amounts);
    } else if k == amounts.len() {
        assert(amounts.take(k) =~= amounts);
        lemma_sum_damage_prefix_le(amounts.drop_last(), amounts.len() - 1);
    } else {
        assert(amounts.take(k) =~= amounts.drop_last().take(k));
        lemma_sum_damage_prefix_le(amounts.drop_last(), k);
    }
}

/// Damage accumulation: damage only ever adds up, so when a whole series of
/// damage amounts sums below the hardness, the running total stays below the
/// hardness after every single call, and no call of the series destroys the
/// block; destruction takes one call that lifts the running total to the
/// hardness.
pub proof fn lemma_damage_accumulation(amounts: Seq<u32>, hardness: u32)
    requires
        sum_damage(amounts) < hardness,
    ensures
        forall|k: int|
            0 <= k <= amounts.len()
                ==> 0 <= #[trigger] sum_damage(amounts.take(k)) < hardness,
{
    assert forall|k: int| 0 <= k <= amounts.len()
        implies 0 <= #[trigger] sum_damage(amounts.take(k)) < hardness by {
        lemma_sum_damage_prefix_le(amounts, k);
    }
}

} // verus!
