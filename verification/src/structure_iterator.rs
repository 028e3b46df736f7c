//! Range iteration over chunk and block coordinates.
//!
//! Each iteration is materialized as a vector of coordinates in ascending
//! lexicographic order (x before y before z).  Requested ranges are
//! inclusive on both ends and are silently clipped to the structure's
//! bounds; empty chunk slots and air blocks are skipped unless asked for.
//! Because the result is fully determined by the structure and the request,
//! iterating the same range twice yields the same sequence.

use vstd::prelude::*;
use crate::block::AIR_BLOCK_ID;
use crate::chunk::CHUNK_DIMENSIONS;
use crate::structure::Structure;

verus! {

broadcast use vstd::seq_lib::lemma_seq_contains_after_push;

/// Ascending lexicographic order on coordinate triples.
pub open spec fn lex_less(a: (usize, usize, usize), b: (usize, usize, usize)) -> bool {
    ||| a.0 < b.0
    ||| (a.0 == b.0 && a.1 < b.1)
    ||| (a.0 == b.0 && a.1 == b.1 && a.2 < b.2)
}

/// Start of the inclusive request `lo..=hi` clipped to `0..dim`.
pub open spec fn clip_lo_spec(lo: int, dim: int) -> int {
    if lo < 0 {
        0
    } else if lo > dim {
        dim
    } else {
        lo
    }
}

/// One past the end of the inclusive request `lo..=hi` clipped to `0..dim`.
pub open spec fn clip_hi_spec(lo: int, hi: int, dim: int) -> int {
    let e = if hi < 0 {
        0
    } else if hi >= dim {
        dim
    } else {
        hi + 1
    };
    if e < clip_lo_spec(lo, dim) {
        clip_lo_spec(lo, dim)
    } else {
        e
    }
}

/// Clips the inclusive request `lo..=hi` to `0..dim`, as a half-open range.
fn clip_range(lo: i128, hi: i128, dim: usize) -> (r: (usize, usize))
    ensures
        r.0 <= r.1 <= dim,
        r.0 == clip_lo_spec(lo as int, dim as int),
        r.1 == clip_hi_spec(lo as int, hi as int, dim as int),
{
    let dim2 = dim as i128;
    let s: i128 = if lo < 0 {
        0
    } else if lo > dim2 {
        dim2
    } else {
        lo
    };
    let e: i128 = if hi < 0 {
        0
    } else if hi >= dim2 {
        dim2
    } else {
        hi + 1
    };
    let e: i128 = if e < s { s } else { e };
    (s as usize, e as usize)
}

impl Structure {
    /// Whether the chunk iteration over `start..=end` yields `t`: the
    /// coordinate is inside both the request and the structure, and its slot
    /// is occupied unless `include_empty` asks for every slot.
    pub open spec fn chunk_iter_pred(&self, start: (i128, i128, i128), end: (i128, i128, i128),
        include_empty: bool, t: (usize, usize, usize)) -> bool {
        &&& start.0 <= t.0 <= end.0
        &&& start.1 <= t.1 <= end.1
        &&& start.2 <= t.2 <= end.2
        &&& self.valid_chunk_coord(t.0 as int, t.1 as int, t.2 as int)
        &&& (include_empty || self.spec_chunk_at(t.0 as int, t.1 as int, t.2 as int) is Some)
    }

    /// The chunk coordinates in the inclusive range `start..=end`, clipped
    /// to the structure's bounds, in ascending lexicographic order; slots
    /// without a chunk are skipped unless `include_empty` is set.
    #[verifier::loop_isolation(false)]
    pub fn chunk_iter(&self, start: (i128, i128, i128), end: (i128, i128, i128),
        include_empty: bool) -> (r: Vec<(usize, usize, usize)>)
        requires
            self.wf(),
        ensures
            forall|t: (usize, usize, usize)|
                self.chunk_iter_pred(start, end, include_empty, t) <==> r@.contains(t),
            forall|k: int|
                0 <= k < r@.len()
                    ==> self.chunk_iter_pred(start, end, include_empty, #[trigger] r@[k]),
            forall|k1: int, k2: int|
                0 <= k1 < k2 < r@.len() ==> lex_less(r@[k1], r@[k2]),
    {
        let (xs, xe) = clip_range(start.0, end.0, self.width);
        let (ys, ye) = clip_range(start.1, end.1, self.height);
        let (zs, ze) = clip_range(start.2, end.2, self.length);
        let mut out: Vec<(usize, usize, usize)> = Vec::new();
        let mut cx = xs;
        while cx < xe
            invariant
                xs <= cx <= xe,
                forall|k: int| 0 <= k < out@.len()
                    ==> self.chunk_iter_pred(start, end, include_empty, #[trigger] out@[k]),
                forall|k: int| 0 <= k < out@.len() ==> (#[trigger] out@[k]).0 < cx,
                forall|k1: int, k2: int|
                    0 <= k1 < k2 < out@.len() ==> lex_less(out@[k1], out@[k2]),
                forall|t: (usize, usize, usize)|
                    self.chunk_iter_pred(start, end, include_empty, t) && t.0 < cx
                        ==> out@.contains(t),
            decreases xe - cx,
        {
            let mut cy = ys;
            while cy < ye
                invariant
                    ys <= cy <= ye,
                    xs <= cx < xe,
                    forall|k: int| 0 <= k < out@.len()
                        ==> self.chunk_iter_pred(start, end, include_empty,
                            #[trigger] out@[k]),
                    forall|k: int| 0 <= k < out@.len()
                        ==> ((#[trigger] out@[k]).0 < cx
                            || (out@[k].0 == cx && out@[k].1 < cy)),
                    forall|k1: int, k2: int|
                        0 <= k1 < k2 < out@.len() ==> lex_less(out@[k1], out@[k2]),
                    forall|t: (usize, usize, usize)|
                        self.chunk_iter_pred(start, end, include_empty, t)
                            && (t.0 < cx || (t.0 == cx && t.1 < cy))
                            ==> out@.contains(t),
                decreases ye - cy,
            {
                let mut cz = zs;
                while cz < ze
                    invariant
                        zs <= cz <= ze,
                        ys <= cy < ye,
                        xs <= cx < xe,
                        forall|k: int| 0 <= k < out@.len()
                            ==> self.chunk_iter_pred(start, end, include_empty,
                                #[trigger] out@[k]),
                        forall|k: int| 0 <= k < out@.len()
                            ==> lex_less(#[trigger] out@[k], (cx, cy, cz)),
                        forall|k1: int, k2: int|
                            0 <= k1 < k2 < out@.len() ==> lex_less(out@[k1], out@[k2]),
                        forall|t: (usize, usize, usize)|
                            self.chunk_iter_pred(start, end, include_empty, t)
                                && lex_less(t, (cx, cy, cz))
                                ==> out@.contains(t),
                    decreases ze - cz,
                {
                    let wanted = if include_empty {
                        true
                    } else {
                        self.chunk_from_chunk_coordinates(cx, cy, cz).is_some()
                    };
                    if wanted {
                        out.push((cx, cy, cz));
                        proof {
                            assert(out@.last() == (cx, cy, cz));
                            assert(out@.contains((cx, cy, cz)));
                        }
                    }
                    cz += 1;
                }
                cy += 1;
            }
            cx += 1;
        }
        proof {
            assert forall|t: (usize, usize, usize)| out@.contains(t)
                implies self.chunk_iter_pred(start, end, include_empty, t) by {
                let k = choose|k: int| 0 <= k < out@.len() && out@[k] == t;
            }
        }
        out
    }

    /// The chunk coordinates of every loaded chunk, or of every slot when
    /// `include_empty` is set, in ascending lexicographic order.
    pub fn all_chunks_iter(&self, include_empty: bool) -> (r: Vec<(usize, usize, usize)>)
        requires
            self.wf(),
        ensures
            forall|t: (usize, usize, usize)|
                (self.valid_chunk_coord(t.0 as int, t.1 as int, t.2 as int)
                    && (include_empty
                        || self.spec_chunk_at(t.0 as int, t.1 as int, t.2 as int) is Some))
                    <==> r@.contains(t),
            forall|k1: int, k2: int|
                0 <= k1 < k2 < r@.len() ==> lex_less(r@[k1], r@[k2]),
    {
        let ex = self.chunks_width() as i128 - 1;
        let ey = self.chunks_height() as i128 - 1;
        let ez = self.chunks_length() as i128 - 1;
        self.chunk_iter((0, 0, 0), (ex, ey, ez), include_empty)
    }

    /// Whether the block iteration over `start..=end` yields `t`: the
    /// coordinate is inside both the request and the structure, and holds a
    /// non-air block unless `include_air` asks for every cell.
    pub open spec fn block_iter_pred(&self, start: (i128, i128, i128), end: (i128, i128, i128),
        include_air: bool, t: (usize, usize, usize)) -> bool {
        &&& start.0 <= t.0 <= end.0
        &&& start.1 <= t.1 <= end.1
        &&& start.2 <= t.2 <= end.2
        &&& self.valid_block_coord(t.0 as int, t.1 as int, t.2 as int)
        &&& (include_air
            || self.spec_block_id_at(t.0 as int, t.1 as int, t.2 as int) != AIR_BLOCK_ID)
    }

    /// The block coordinates in the inclusive range `start..=end`, clipped
    /// to the structure's bounds, in ascending lexicographic order; air
    /// cells are skipped unless `include_air` is set.
    #[verifier::loop_isolation(false)]
    pub fn block_iter(&self, start: (i128, i128, i128), end: (i128, i128, i128),
        include_air: bool) -> (r: Vec<(usize, usize, usize)>)
        requires
            self.wf(),
        ensures
            forall|t: (usize, usize, usize)|
                self.block_iter_pred(start, end, include_air, t) <==> r@.contains(t),
            forall|k: int|
                0 <= k < r@.len()
                    ==> self.block_iter_pred(start, end, include_air, #[trigger] r@[k]),
            forall|k1: int, k2: int|
                0 <= k1 < k2 < r@.len() ==> lex_less(r@[k1], r@[k2]),
    {
        let (xs, xe) = clip_range(start.0, end.0, self.blocks_width());
        let (ys, ye) = clip_range(start.1, end.1, self.blocks_height());
        let (zs, ze) = clip_range(start.2, end.2, self.blocks_length());
        let mut out: Vec<(usize, usize, usize)> = Vec::new();
        let mut bx = xs;
        while bx < xe
            invariant
                xs <= bx <= xe,
                forall|k: int| 0 <= k < out@.len()
                    ==> self.block_iter_pred(start, end, include_air, #[trigger] out@[k]),
                forall|k: int| 0 <= k < out@.len() ==> (#[trigger] out@[k]).0 < bx,
                forall|k1: int, k2: int|
                    0 <= k1 < k2 < out@.len() ==> lex_less(out@[k1], out@[k2]),
                forall|t: (usize, usize, usize)|
                    self.block_iter_pred(start, end, include_air, t) && t.0 < bx
                        ==> out@.contains(t),
            decreases xe - bx,
        {
            let mut by = ys;
            while by < ye
                invariant
                    ys <= by <= ye,
                    xs <= bx < xe,
                    forall|k: int| 0 <= k < out@.len()
                        ==> self.block_iter_pred(start, end, include_air,
                            #[trigger] out@[k]),
                    forall|k: int| 0 <= k < out@.len()
                        ==> ((#[trigger] out@[k]).0 < bx
                            || (out@[k].0 == bx && out@[k].1 < by)),
                    forall|k1: int, k2: int|
                        0 <= k1 < k2 < out@.len() ==> lex_less(out@[k1], out@[k2]),
                    forall|t: (usize, usize, usize)|
                        self.block_iter_pred(start, end, include_air, t)
                            && (t.0 < bx || (t.0 == bx && t.1 < by))
                            ==> out@.contains(t),
                decreases ye - by,
            {
                let mut bz = zs;
                while bz < ze
                    invariant
                        zs <= bz <= ze,
                        ys <= by < ye,
                        xs <= bx < xe,
                        forall|k: int| 0 <= k < out@.len()
                            ==> self.block_iter_pred(start, end, include_air,
                                #[trigger] out@[k]),
                        forall|k: int| 0 <= k < out@.len()
                            ==> lex_less(#[trigger] out@[k], (bx, by, bz)),
                        forall|k1: int, k2: int|
                            0 <= k1 < k2 < out@.len() ==> lex_less(out@[k1], out@[k2]),
                        forall|t: (usize, usize, usize)|
                            self.block_iter_pred(start, end, include_air, t)
                                && lex_less(t, (bx, by, bz))
                                ==> out@.contains(t),
                    decreases ze - bz,
                {
                    let wanted = if include_air {
                        true
                    } else {
                        self.has_block_at(bx, by, bz)
                    };
                    if wanted {
                        out.push((bx, by, bz));
                        proof {
                            assert(out@.last() == (bx, by, bz));
                            assert(out@.contains((bx, by, bz)));
                        }
                    }
                    bz += 1;
                }
                by += 1;
            }
            bx += 1;
        }
        proof {
            assert forall|t: (usize, usize, usize)| out@.contains(t)
                implies self.block_iter_pred(start, end, include_air, t) by {
                let k = choose|k: int| 0 <= k < out@.len() && out@[k] == t;
            }
        }
        out
    }

    /// The block coordinates of every non-air block, or of every cell when
    /// `include_air` is set, in ascending lexicographic order.
    pub fn all_blocks_iter(&self, include_air: bool) -> (r: Vec<(usize, usize, usize)>)
        requires
            self.wf(),
        ensures
            forall|t: (usize, usize, usize)|
                (self.valid_block_coord(t.0 as int, t.1 as int, t.2 as int)
                    && (include_air
                        || self.spec_block_id_at(t.0 as int, t.1 as int, t.2 as int)
                            != AIR_BLOCK_ID))
                    <==> r@.contains(t),
            forall|k1: int, k2: int|
                0 <= k1 < k2 < r@.len() ==> lex_less(r@[k1], r@[k2]),
    {
        let ex = self.blocks_width() as i128 - 1;
        let ey = self.blocks_height() as i128 - 1;
        let ez = self.blocks_length() as i128 - 1;
        self.block_iter((0, 0, 0), (ex, ey, ez), include_air)
    }

    /// The block coordinates inside the single chunk `(cx, cy, cz)`, in
    /// ascending lexicographic order; air cells are skipped unless
    /// `include_air` is set.  Out-of-bounds chunk coordinates are a caller
    /// bug and are excluded outright.
    pub fn block_iter_for_chunk(&self, cx: usize, cy: usize, cz: usize, include_air: bool)
        -> (r: Vec<(usize, usize, usize)>)
        requires
            self.wf(),
            self.valid_chunk_coord(cx as int, cy as int, cz as int),
        ensures
            forall|t: (usize, usize, usize)|
                (self.valid_block_coord(t.0 as int, t.1 as int, t.2 as int)
                    && t.0 as int / (CHUNK_DIMENSIONS as int) == cx
                    && t.1 as int / (CHUNK_DIMENSIONS as int) == cy
                    && t.2 as int / (CHUNK_DIMENSIONS as int) == cz
                    && (include_air
                        || self.spec_block_id_at(t.0 as int, t.1 as int, t.2 as int)
                            != AIR_BLOCK_ID))
                    <==> r@.contains(t),
            forall|k1: int, k2: int|
                0 <= k1 < k2 < r@.len() ==> lex_less(r@[k1], r@[k2]),
    {
        let sx = cx as i128 * CHUNK_DIMENSIONS as i128;
        let sy = cy as i128 * CHUNK_DIMENSIONS as i128;
        let sz = cz as i128 * CHUNK_DIMENSIONS as i128;
        let dm1 = CHUNK_DIMENSIONS as i128 - 1;
        let r = self.block_iter((sx, sy, sz), (sx + dm1, sy + dm1, sz + dm1), include_air);
        proof {
            let d = CHUNK_DIMENSIONS as int;
            assert forall|t: (usize, usize, usize)|
                self.valid_block_coord(t.0 as int, t.1 as int, t.2 as int)
                implies ((t.0 as int / d == cx && t.1 as int / d == cy && t.2 as int / d == cz)
                    <==> (sx <= t.0 <= sx + dm1 && sy <= t.1 <= sy + dm1
                        && sz <= t.2 <= sz + dm1)) by {
                self.lemma_block_coord_chunk_coord(t.0 as int, t.1 as int, t.2 as int);
                if t.0 as int / d == cx && t.1 as int / d == cy && t.2 as int / d == cz {
                }
                if sx <= t.0 <= sx + dm1 && sy <= t.1 <= sy + dm1 && sz <= t.2 <= sz + dm1 {
                    vstd::arithmetic::div_mod::lemma_fundamental_div_mod_converse(
                        t.0 as int, d, cx as int, t.0 - cx as int * d);
                    vstd::arithmetic::div_mod::lemma_fundamental_div_mod_converse(
                        t.1 as int, d, cy as int, t.1 - cy as int * d);
                    vstd::arithmetic::div_mod::lemma_fundamental_div_mod_converse(
                        t.2 as int, d, cz as int, t.2 - cz as int * d);
                }
            }
        }
        r
    }
}

} // verus!
