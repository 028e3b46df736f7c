//! The chunk lifecycle reconciler.
//!
//! Per (structure, chunk coordinate) pair there are two states: an external
//! representation handle is bound, or it is not.  After a tick's batch of
//! [`BlockChangedEvent`]s and [`ChunkInitEvent`]s, a chunk that is loaded
//! but unrepresented gets a representation created and bound, and a chunk
//! that became all air gets its representation destroyed and unbound.  The
//! batch is deduplicated by chunk coordinate first, so many block edits in
//! one chunk cause at most one creation or removal, and the removal pass
//! runs strictly after the creation pass within [`reconcile_tick`], so a
//! chunk emptied in the tick it appeared does not leak a handle.
//!
//! Creating or destroying the representation itself is the host's job: the
//! passes return the requests, each anchored at the chunk's centered
//! relative position, and the host performs them.

use vstd::prelude::*;
use crate::chunk::CHUNK_DIMENSIONS;
use crate::events::{BlockChangedEvent, ChunkInitEvent, ChunkSetEvent};
use crate::structure::Structure;

verus! {

broadcast use vstd::seq_lib::lemma_seq_contains_after_push;

/// A request to create and bind an external representation for a chunk.
pub struct ChunkCreation {
    /// Chunk x-coordinate.
    pub x: usize,
    /// Chunk y-coordinate.
    pub y: usize,
    /// Chunk z-coordinate.
    pub z: usize,
    /// The handle bound to the chunk.
    pub entity: u64,
    /// The chunk's centered relative position, in half-block units, where
    /// the representation is anchored.
    pub position: (i128, i128, i128),
}

/// A request to destroy the external representation of a chunk that became
/// all air; its handle has already been unbound.
pub struct ChunkRemoval {
    /// Chunk x-coordinate.
    pub x: usize,
    /// Chunk y-coordinate.
    pub y: usize,
    /// Chunk z-coordinate.
    pub z: usize,
    /// The handle that was bound to the chunk.
    pub entity: u64,
}

/// Whether this block-change event belongs to the structure with handle
/// `entity` and touches the chunk at `t`.
pub open spec fn block_event_touches(e: BlockChangedEvent, entity: u64,
    t: (usize, usize, usize)) -> bool {
    &&& e.structure_entity == entity
    &&& e.block.x as int / (CHUNK_DIMENSIONS as int) == t.0
    &&& e.block.y as int / (CHUNK_DIMENSIONS as int) == t.1
    &&& e.block.z as int / (CHUNK_DIMENSIONS as int) == t.2
}

/// Whether this chunk-init event belongs to the structure with handle
/// `entity` and names the chunk at `t`.
pub open spec fn init_event_touches(e: ChunkInitEvent, entity: u64,
    t: (usize, usize, usize)) -> bool {
    e.structure_entity == entity && e.x == t.0 && e.y == t.1 && e.z == t.2
}

/// Whether the tick's batch touches the chunk at `t` of the structure with
/// handle `entity`.
pub open spec fn batch_touches(block_events: Seq<BlockChangedEvent>,
    init_events: Seq<ChunkInitEvent>, entity: u64, t: (usize, usize, usize)) -> bool {
    ||| exists|i: int|
        0 <= i < block_events.len() && block_event_touches(#[trigger] block_events[i], entity, t)
    ||| exists|i: int|
        0 <= i < init_events.len() && init_event_touches(#[trigger] init_events[i], entity, t)
}

/// Whether the chunk at `t` must get a representation after this batch: the
/// structure is attached, the batch touches the chunk, the chunk is loaded
/// (hence non-empty), and no handle is bound yet.
pub open spec fn needs_creation(s: Structure, block_events: Seq<BlockChangedEvent>,
    init_events: Seq<ChunkInitEvent>, t: (usize, usize, usize)) -> bool {
    &&& s.self_entity is Some
    &&& batch_touches(block_events, init_events, s.self_entity->0, t)
    &&& s.valid_chunk_coord(t.0 as int, t.1 as int, t.2 as int)
    &&& s.spec_chunk_at(t.0 as int, t.1 as int, t.2 as int) is Some
    &&& s.spec_chunk_entity(t.0 as int, t.1 as int, t.2 as int) is None
}

/// Whether the representation of the chunk at `t` must be destroyed after
/// this batch: the structure is attached, a block-change event touched the
/// chunk, the chunk is gone from the map (all air), and a handle is still
/// bound.
pub open spec fn needs_removal(s: Structure, block_events: Seq<BlockChangedEvent>,
    t: (usize, usize, usize)) -> bool {
    &&& s.self_entity is Some
    &&& exists|i: int|
        0 <= i < block_events.len()
            && block_event_touches(#[trigger] block_events[i], s.self_entity->0, t)
    &&& s.valid_chunk_coord(t.0 as int, t.1 as int, t.2 as int)
    &&& s.spec_chunk_at(t.0 as int, t.1 as int, t.2 as int) is None
    &&& s.spec_chunk_entity(t.0 as int, t.1 as int, t.2 as int) is Some
}

/// Whether `v` holds the coordinate triple `t`.
fn coords_contain(v: &Vec<(usize, usize, usize)>, t: (usize, usize, usize)) -> (r: bool)
    ensures
        r == v@.contains(t),
{
    let n = v.len();
    let mut i: usize = 0;
    while i < n
        invariant
            n == v@.len(),
            i <= n,
            forall|j: int| 0 <= j < i ==> v@[j] != t,
        decreases n - i,
    {
        let e = v[i];
        if e.0 == t.0 && e.1 == t.1 && e.2 == t.2 {
            assert(v@[i as int] == t);
            assert(v@.contains(t));
            return true;
        }
        i += 1;
    }
    false
}

/// The deduplicated chunk coordinates that this tick's batch requires a
/// representation to be created for.
#[verifier::loop_isolation(false)]
pub fn chunks_to_create(s: &Structure, block_events: &Vec<BlockChangedEvent>,
    init_events: &Vec<ChunkInitEvent>) -> (r: Vec<(usize, usize, usize)>)
    requires
        s.wf(),
    ensures
        forall|t: (usize, usize, usize)|
            r@.contains(t) <==> needs_creation(*s, block_events@, init_events@, t),
        forall|k1: int, k2: int| 0 <= k1 < k2 < r@.len() ==> r@[k1] != r@[k2],
        r@.len() <= block_events@.len() + init_events@.len(),
    {
    let mut out: Vec<(usize, usize, usize)> = Vec::new();
    let my_entity = match s.get_entity() {
        Some(e) => e,
        None => {
            return out;
        },
    };
    let nb = block_events.len();
    let mut i: usize = 0;
    while i < nb
        invariant
            i <= nb,
            out@.len() <= i,
            forall|k1: int, k2: int| 0 <= k1 < k2 < out@.len() ==> out@[k1] != out@[k2],
            forall|t: (usize, usize, usize)|
                out@.contains(t) <==> needs_creation(*s, block_events@.take(i as int),
                    Seq::<ChunkInitEvent>::empty(), t),
        decreases nb - i,
    {
        let ghost out0 = out@;
        let ev = &block_events[i];
        proof {
            assert(block_events@.take(i + 1).drop_last() =~= block_events@.take(i as int));
            assert(block_events@.take(i + 1).last() == block_events@[i as int]);
        }
        if ev.structure_entity == my_entity {
            let t = ev.block.chunk_coords();
            let in_bounds = t.0 < s.chunks_width() && t.1 < s.chunks_height()
                && t.2 < s.chunks_length();
            if in_bounds {
                let loaded = s.chunk_from_chunk_coordinates(t.0, t.1, t.2).is_some();
                let unbound = s.chunk_entity(t.0, t.1, t.2).is_none();
                if loaded && unbound && !coords_contain(&out, t) {
                    out.push(t);
                    proof {
                        assert(out@.last() == t);
                        assert(out@.contains(t));
                    }
                }
            }
        }
        proof {
            let bes = block_events@.take(i + 1);
            let evg = block_events@[i as int];
            assert forall|t: (usize, usize, usize)| out@.contains(t)
                implies needs_creation(*s, bes, Seq::<ChunkInitEvent>::empty(), t) by {
                if out0.contains(t) {
                    assert(needs_creation(*s, block_events@.take(i as int),
                        Seq::<ChunkInitEvent>::empty(), t));
                    let j = choose|j: int|
                        0 <= j < i && block_event_touches(block_events@.take(i as int)[j],
                            my_entity, t);
                    assert(block_event_touches(bes[j], my_entity, t));
                } else {
                    assert(block_event_touches(bes[i as int], my_entity, t));
                }
            }
            assert forall|t: (usize, usize, usize)|
                needs_creation(*s, bes, Seq::<ChunkInitEvent>::empty(), t)
                implies out@.contains(t) by {
                let j = choose|j: int|
                    0 <= j < bes.len() && block_event_touches(bes[j], my_entity, t);
                if j < i {
                    assert(block_event_touches(block_events@.take(i as int)[j], my_entity, t));
                    assert(needs_creation(*s, block_events@.take(i as int),
                        Seq::<ChunkInitEvent>::empty(), t));
                    assert(out0.contains(t));
                } else {
                    assert((t.0 as int, t.1 as int, t.2 as int)
                        == (evg.block.x as int / (CHUNK_DIMENSIONS as int),
                            evg.block.y as int / (CHUNK_DIMENSIONS as int),
                            evg.block.z as int / (CHUNK_DIMENSIONS as int)));
                    if out0.contains(t) {
                    }
                }
            }
        }
        i += 1;
    }
    proof {
        assert(block_events@.take(nb as int) =~= block_events@);
    }
    let ni = init_events.len();
    let mut i: usize = 0;
    while i < ni
        invariant
            i <= ni,
            out@.len() <= nb + i,
            forall|k1: int, k2: int| 0 <= k1 < k2 < out@.len() ==> out@[k1] != out@[k2],
            forall|t: (usize, usize, usize)|
                out@.contains(t) <==> needs_creation(*s, block_events@,
                    init_events@.take(i as int), t),
        decreases ni - i,
    {
        let ghost out0 = out@;
        let ev = &init_events[i];
        proof {
            assert(init_events@.take(i + 1).drop_last() =~= init_events@.take(i as int));
            assert(init_events@.take(i + 1).last() == init_events@[i as int]);
        }
        if ev.structure_entity == my_entity {
            let t = (ev.x, ev.y, ev.z);
            let in_bounds = t.0 < s.chunks_width() && t.1 < s.chunks_height()
                && t.2 < s.chunks_length();
            if in_bounds {
                let loaded = s.chunk_from_chunk_coordinates(t.0, t.1, t.2).is_some();
                let unbound = s.chunk_entity(t.0, t.1, t.2).is_none();
                if loaded && unbound && !coords_contain(&out, t) {
                    out.push(t);
                    proof {
                        assert(out@.last() == t);
                        assert(out@.contains(t));
                    }
                }
            }
        }
        proof {
            let ies = init_events@.take(i + 1);
            let evg = init_events@[i as int];
            assert forall|t: (usize, usize, usize)| out@.contains(t)
                implies needs_creation(*s, block_events@, ies, t) by {
                if out0.contains(t) {
                    assert(needs_creation(*s, block_events@, init_events@.take(i as int), t));
                    if exists|j: int|
                        0 <= j < i && init_event_touches(init_events@.take(i as int)[j],
                            my_entity, t) {
                        let j = choose|j: int|
                            0 <= j < i && init_event_touches(init_events@.take(i as int)[j],
                                my_entity, t);
                        assert(init_event_touches(ies[j], my_entity, t));
                    }
                } else {
                    assert(t == (evg.x, evg.y, evg.z));
                    assert(init_event_touches(ies[i as int], my_entity, t));
                }
            }
            assert forall|t: (usize, usize, usize)|
                needs_creation(*s, block_events@, ies, t)
                implies out@.contains(t) by {
                if exists|j: int|
                    0 <= j < ies.len() && init_event_touches(ies[j], my_entity, t) {
                    let j = choose|j: int|
                        0 <= j < ies.len() && init_event_touches(ies[j], my_entity, t);
                    if j < i {
                        assert(init_event_touches(init_events@.take(i as int)[j],
                            my_entity, t));
                        assert(needs_creation(*s, block_events@,
                            init_events@.take(i as int), t));
                        assert(out0.contains(t));
                    } else {
                        assert(t == (evg.x, evg.y, evg.z));
                        if out0.contains(t) {
                        }
                    }
                } else {
                    assert(needs_creation(*s, block_events@, init_events@.take(i as int), t));
                    assert(out0.contains(t));
                }
            }
        }
        i += 1;
    }
    proof {
        assert(init_events@.take(ni as int) =~= init_events@);
    }
    out
}

/// Binds consecutive handles, starting at `first_handle`, to the listed
/// chunk coordinates and returns one creation request per chunk, anchored at
/// the chunk's centered relative position.
#[verifier::loop_isolation(false)]
pub fn bind_created_chunks(s: &mut Structure, coords: &Vec<(usize, usize, usize)>,
    first_handle: u64) -> (created: Vec<ChunkCreation>)
    requires
        old(s).wf(),
        forall|k: int|
            0 <= k < coords@.len()
                ==> old(s).valid_chunk_coord((#[trigger] coords@[k]).0 as int,
                    coords@[k].1 as int, coords@[k].2 as int),
        forall|k1: int, k2: int|
            0 <= k1 < k2 < coords@.len() ==> coords@[k1] != coords@[k2],
        first_handle + coords@.len() <= u64::MAX,
    ensures
        final(s).wf(),
        final(s).chunks == old(s).chunks,
        final(s).self_entity == old(s).self_entity,
        final(s).width == old(s).width,
        final(s).height == old(s).height,
        final(s).length == old(s).length,
        created@.len() == coords@.len(),
        forall|k: int|
            0 <= k < coords@.len() ==> {
                let t = coords@[k];
                &&& (#[trigger] created@[k]).x == t.0
                &&& created@[k].y == t.1
                &&& created@[k].z == t.2
                &&& created@[k].entity == first_handle + k
                &&& created@[k].position.0
                    == (CHUNK_DIMENSIONS as int) * (2 * t.0 - (old(s).width - 1))
                &&& created@[k].position.1
                    == (CHUNK_DIMENSIONS as int) * (2 * t.1 - (old(s).height - 1))
                &&& created@[k].position.2
                    == (CHUNK_DIMENSIONS as int) * (2 * t.2 - (old(s).length - 1))
                &&& final(s).spec_chunk_entity(t.0 as int, t.1 as int, t.2 as int)
                    == Some((first_handle + k) as u64)
            },
        forall|t: (usize, usize, usize)|
            old(s).valid_chunk_coord(t.0 as int, t.1 as int, t.2 as int)
                && !coords@.contains(t)
                ==> #[trigger] final(s).spec_chunk_entity(t.0 as int, t.1 as int, t.2 as int)
                    == old(s).spec_chunk_entity(t.0 as int, t.1 as int, t.2 as int),
    {
    let n = coords.len();
    let mut created: Vec<ChunkCreation> = Vec::new();
    let mut k: usize = 0;
    while k < n
        invariant
            k <= n,
            s.wf(),
            s.chunks == old(s).chunks,
            s.self_entity == old(s).self_entity,
            s.width == old(s).width,
            s.height == old(s).height,
            s.length == old(s).length,
            created@.len() == k,
            forall|j: int|
                0 <= j < k ==> {
                    let t = coords@[j];
                    &&& (#[trigger] created@[j]).x == t.0
                    &&& created@[j].y == t.1
                    &&& created@[j].z == t.2
                    &&& created@[j].entity == first_handle + j
                    &&& created@[j].position.0
                        == (CHUNK_DIMENSIONS as int) * (2 * t.0 - (old(s).width - 1))
                    &&& created@[j].position.1
                        == (CHUNK_DIMENSIONS as int) * (2 * t.1 - (old(s).height - 1))
                    &&& created@[j].position.2
                        == (CHUNK_DIMENSIONS as int) * (2 * t.2 - (old(s).length - 1))
                    &&& s.spec_chunk_entity(t.0 as int, t.1 as int, t.2 as int)
                        == Some((first_handle + j) as u64)
                },
            forall|t: (usize, usize, usize)|
                old(s).valid_chunk_coord(t.0 as int, t.1 as int, t.2 as int)
                    && !coords@.take(k as int).contains(t)
                    ==> #[trigger] s.spec_chunk_entity(t.0 as int, t.1 as int, t.2 as int)
                        == old(s).spec_chunk_entity(t.0 as int, t.1 as int, t.2 as int),
        decreases n - k,
    {
        let t = coords[k];
        let ghost created0 = created@;
        let handle = first_handle + k as u64;
        let position = s.chunk_relative_position(t.0, t.1, t.2);
        let ghost mid = *s;
        s.set_chunk_entity(t.0, t.1, t.2, handle);
        created.push(ChunkCreation { x: t.0, y: t.1, z: t.2, entity: handle, position });
        proof {
            assert(coords@.take(k + 1).drop_last() =~= coords@.take(k as int));
            assert(coords@.take(k + 1).last() == coords@[k as int]);
            assert forall|u: (usize, usize, usize)|
                old(s).valid_chunk_coord(u.0 as int, u.1 as int, u.2 as int)
                    && !coords@.take(k + 1).contains(u)
                    implies #[trigger] s.spec_chunk_entity(u.0 as int, u.1 as int, u.2 as int)
                        == old(s).spec_chunk_entity(u.0 as int, u.1 as int, u.2 as int) by {
                assert(!coords@.take(k as int).contains(u));
                assert(u != coords@[k as int]);
                assert((u.0 as int, u.1 as int, u.2 as int)
                    != (coords@[k as int].0 as int, coords@[k as int].1 as int,
                        coords@[k as int].2 as int));
                assert(mid.spec_chunk_entity(u.0 as int, u.1 as int, u.2 as int)
                    == old(s).spec_chunk_entity(u.0 as int, u.1 as int, u.2 as int));
            }
            assert forall|j: int| 0 <= j < k + 1 implies {
                let t2 = #[trigger] coords@[j];
                s.spec_chunk_entity(t2.0 as int, t2.1 as int, t2.2 as int)
                    == Some((first_handle + j) as u64)
            } by {
                let t2 = coords@[j];
                if j < k {
                    let c2 = created@[j];
                    assert(c2 == created0[j]);
                    assert(coords@[j] != coords@[k as int]);
                    assert((t2.0 as int, t2.1 as int, t2.2 as int)
                        != (coords@[k as int].0 as int, coords@[k as int].1 as int,
                            coords@[k as int].2 as int));
                    assert(mid.spec_chunk_entity(t2.0 as int, t2.1 as int, t2.2 as int)
                        == Some((first_handle + j) as u64));
                }
            }
        }
        k += 1;
    }
    proof {
        assert(coords@.take(n as int) =~= coords@);
    }
    created
}

/// Whether the deduplicated per-tick set of [`ChunkSetEvent`]s holds `e`:
/// the event names this structure and a chunk that was either initialized
/// this tick or got its representation created this tick.
pub open spec fn chunk_set_needed(entity: u64, init_events: Seq<ChunkInitEvent>,
    created: Seq<(usize, usize, usize)>, e: ChunkSetEvent) -> bool {
    &&& e.structure_entity == entity
    &&& {
        ||| exists|i: int|
            0 <= i < init_events.len()
                && init_event_touches(#[trigger] init_events[i], entity, (e.x, e.y, e.z))
        ||| created.contains((e.x, e.y, e.z))
    }
}

/// Whether `v` holds the event `e`.
fn chunk_set_events_contain(v: &Vec<ChunkSetEvent>, e: ChunkSetEvent) -> (r: bool)
    ensures
        r == v@.contains(e),
{
    let n = v.len();
    let mut i: usize = 0;
    while i < n
        invariant
            n == v@.len(),
            i <= n,
            forall|j: int| 0 <= j < i ==> v@[j] != e,
        decreases n - i,
    {
        let c = v[i];
        if c.structure_entity == e.structure_entity && c.x == e.x && c.y == e.y && c.z == e.z {
            assert(v@[i as int] == e);
            assert(v@.contains(e));
            return true;
        }
        i += 1;
    }
    false
}

/// The deduplicated [`ChunkSetEvent`]s of one tick: one per chunk that was
/// initialized this tick or had its representation created this tick.
#[verifier::loop_isolation(false)]
pub fn chunk_set_events_for(entity: u64, init_events: &Vec<ChunkInitEvent>,
    created: &Vec<(usize, usize, usize)>) -> (r: Vec<ChunkSetEvent>)
    ensures
        forall|e: ChunkSetEvent|
            r@.contains(e) <==> chunk_set_needed(entity, init_events@, created@, e),
        forall|k1: int, k2: int| 0 <= k1 < k2 < r@.len() ==> r@[k1] != r@[k2],
    {
    let mut out: Vec<ChunkSetEvent> = Vec::new();
    let ni = init_events.len();
    let mut i: usize = 0;
    while i < ni
        invariant
            i <= ni,
            forall|k1: int, k2: int| 0 <= k1 < k2 < out@.len() ==> out@[k1] != out@[k2],
            forall|e: ChunkSetEvent|
                out@.contains(e) <==> chunk_set_needed(entity, init_events@.take(i as int),
                    Seq::<(usize, usize, usize)>::empty(), e),
        decreases ni - i,
    {
        let ghost out0 = out@;
        let ev = &init_events[i];
        proof {
            assert(init_events@.take(i + 1).drop_last() =~= init_events@.take(i as int));
            assert(init_events@.take(i + 1).last() == init_events@[i as int]);
            assert(!Seq::<(usize, usize, usize)>::empty().contains((ev.x, ev.y, ev.z)));
        }
        if ev.structure_entity == entity {
            let e = ChunkSetEvent { structure_entity: entity, x: ev.x, y: ev.y, z: ev.z };
            if !chunk_set_events_contain(&out, e) {
                out.push(e);
                proof {
                    assert(out@.last() == e);
                    assert(out@.contains(e));
                }
            }
        }
        proof {
            let ies = init_events@.take(i + 1);
            let evg = init_events@[i as int];
            assert forall|e: ChunkSetEvent| out@.contains(e)
                implies chunk_set_needed(entity, ies,
                    Seq::<(usize, usize, usize)>::empty(), e) by {
                if out0.contains(e) {
                    assert(chunk_set_needed(entity, init_events@.take(i as int),
                        Seq::<(usize, usize, usize)>::empty(), e));
                    let j = choose|j: int|
                        0 <= j < i && init_event_touches(init_events@.take(i as int)[j],
                            entity, (e.x, e.y, e.z));
                    assert(init_event_touches(ies[j], entity, (e.x, e.y, e.z)));
                } else {
                    assert(e == (ChunkSetEvent { structure_entity: entity, x: evg.x,
                        y: evg.y, z: evg.z }));
                    assert(init_event_touches(ies[i as int], entity, (e.x, e.y, e.z)));
                }
            }
            assert forall|e: ChunkSetEvent|
                chunk_set_needed(entity, ies, Seq::<(usize, usize, usize)>::empty(), e)
                implies out@.contains(e) by {
                let j = choose|j: int|
                    0 <= j < ies.len() && init_event_touches(ies[j], entity, (e.x, e.y, e.z));
                if j < i {
                    assert(init_event_touches(init_events@.take(i as int)[j], entity,
                        (e.x, e.y, e.z)));
                    assert(chunk_set_needed(entity, init_events@.take(i as int),
                        Seq::<(usize, usize, usize)>::empty(), e));
                    assert(out0.contains(e));
                } else {
                    assert(e == (ChunkSetEvent { structure_entity: entity, x: evg.x,
                        y: evg.y, z: evg.z }));
                    if out0.contains(e) {
                    }
                }
            }
        }
        i += 1;
    }
    proof {
        assert(init_events@.take(ni as int) =~= init_events@);
    }
    let nc = created.len();
    let mut i: usize = 0;
    while i < nc
        invariant
            i <= nc,
            forall|k1: int, k2: int| 0 <= k1 < k2 < out@.len() ==> out@[k1] != out@[k2],
            forall|e: ChunkSetEvent|
                out@.contains(e) <==> chunk_set_needed(entity, init_events@,
                    created@.take(i as int), e),
        decreases nc - i,
    {
        let ghost out0 = out@;
        let t = created[i];
        proof {
            assert(created@.take(i + 1).drop_last() =~= created@.take(i as int));
            assert(created@.take(i + 1).last() == created@[i as int]);
        }
        let e = ChunkSetEvent { structure_entity: entity, x: t.0, y: t.1, z: t.2 };
        if !chunk_set_events_contain(&out, e) {
            out.push(e);
            proof {
                assert(out@.last() == e);
                assert(out@.contains(e));
            }
        }
        proof {
            let cs = created@.take(i + 1);
            let tg = created@[i as int];
            assert forall|e2: ChunkSetEvent| out@.contains(e2)
                implies chunk_set_needed(entity, init_events@, cs, e2) by {
                if out0.contains(e2) {
                    assert(chunk_set_needed(entity, init_events@, created@.take(i as int), e2));
                    if created@.take(i as int).contains((e2.x, e2.y, e2.z)) {
                        let j = choose|j: int|
                            0 <= j < i && created@.take(i as int)[j] == (e2.x, e2.y, e2.z);
                        assert(cs[j] == (e2.x, e2.y, e2.z));
                        assert(cs.contains((e2.x, e2.y, e2.z)));
                    }
                } else {
                    assert(e2 == (ChunkSetEvent { structure_entity: entity, x: tg.0,
                        y: tg.1, z: tg.2 }));
                    assert(cs[i as int] == (e2.x, e2.y, e2.z));
                    assert(cs.contains((e2.x, e2.y, e2.z)));
                }
            }
            assert forall|e2: ChunkSetEvent|
                chunk_set_needed(entity, init_events@, cs, e2)
                implies out@.contains(e2) by {
                if cs.contains((e2.x, e2.y, e2.z)) {
                    let j = choose|j: int| 0 <= j < cs.len() && cs[j] == (e2.x, e2.y, e2.z);
                    if j < i {
                        assert(created@.take(i as int)[j] == (e2.x, e2.y, e2.z));
                        assert(created@.take(i as int).contains((e2.x, e2.y, e2.z)));
                        assert(chunk_set_needed(entity, init_events@,
                            created@.take(i as int), e2));
                        assert(out0.contains(e2));
                    } else {
                        assert(e2 == (ChunkSetEvent { structure_entity: entity, x: tg.0,
                            y: tg.1, z: tg.2 }));
                        if out0.contains(e2) {
                        }
                    }
                } else {
                    assert(chunk_set_needed(entity, init_events@, created@.take(i as int), e2));
                    assert(out0.contains(e2));
                }
            }
        }
        i += 1;
    }
    proof {
        assert(created@.take(nc as int) =~= created@);
    }
    out
}

/// The removal pass: for every chunk that a block-change event touched and
/// that is now gone from the map (all air) while a representation handle is
/// still bound, unbinds the handle and returns one destruction request.
/// Duplicates in the batch are harmless: the first unbinding disqualifies
/// the chunk for the rest of the pass.
#[verifier::loop_isolation(false)]
pub fn remove_chunks_pass(s: &mut Structure, block_events: &Vec<BlockChangedEvent>)
    -> (removed: Vec<ChunkRemoval>)
    requires
        old(s).wf(),
    ensures
        final(s).wf(),
        final(s).chunks == old(s).chunks,
        final(s).self_entity == old(s).self_entity,
        final(s).width == old(s).width,
        final(s).height == old(s).height,
        final(s).length == old(s).length,
        forall|t: (usize, usize, usize)|
            old(s).valid_chunk_coord(t.0 as int, t.1 as int, t.2 as int)
                ==> #[trigger] final(s).spec_chunk_entity(t.0 as int, t.1 as int, t.2 as int)
                    == (if needs_removal(*old(s), block_events@, t) {
                        None::<u64>
                    } else {
                        old(s).spec_chunk_entity(t.0 as int, t.1 as int, t.2 as int)
                    }),
        forall|k: int|
            0 <= k < removed@.len() ==> {
                let t = ((#[trigger] removed@[k]).x, removed@[k].y, removed@[k].z);
                &&& needs_removal(*old(s), block_events@, t)
                &&& old(s).spec_chunk_entity(t.0 as int, t.1 as int, t.2 as int)
                    == Some(removed@[k].entity)
            },
        forall|t: (usize, usize, usize)|
            needs_removal(*old(s), block_events@, t)
                ==> exists|k: int|
                    0 <= k < removed@.len()
                        && ((#[trigger] removed@[k]).x, removed@[k].y, removed@[k].z) == t,
        forall|k1: int, k2: int|
            0 <= k1 < k2 < removed@.len()
                ==> (removed@[k1].x, removed@[k1].y, removed@[k1].z)
                    != (removed@[k2].x, removed@[k2].y, removed@[k2].z),
    {
    let mut removed: Vec<ChunkRemoval> = Vec::new();
    let my_entity = match s.get_entity() {
        Some(e) => e,
        None => {
            return removed;
        },
    };
    let nb = block_events.len();
    let mut i: usize = 0;
    while i < nb
        invariant
            i <= nb,
            s.wf(),
            s.chunks == old(s).chunks,
            s.self_entity == old(s).self_entity,
            s.width == old(s).width,
            s.height == old(s).height,
            s.length == old(s).length,
            forall|t: (usize, usize, usize)|
                old(s).valid_chunk_coord(t.0 as int, t.1 as int, t.2 as int)
                    ==> #[trigger] s.spec_chunk_entity(t.0 as int, t.1 as int, t.2 as int)
                        == (if needs_removal(*old(s), block_events@.take(i as int), t) {
                            None::<u64>
                        } else {
                            old(s).spec_chunk_entity(t.0 as int, t.1 as int, t.2 as int)
                        }),
            forall|k: int|
                0 <= k < removed@.len() ==> {
                    let t = ((#[trigger] removed@[k]).x, removed@[k].y, removed@[k].z);
                    &&& needs_removal(*old(s), block_events@.take(i as int), t)
                    &&& old(s).spec_chunk_entity(t.0 as int, t.1 as int, t.2 as int)
                        == Some(removed@[k].entity)
                },
            forall|t: (usize, usize, usize)|
                needs_removal(*old(s), block_events@.take(i as int), t)
                    ==> exists|k: int|
                        0 <= k < removed@.len()
                            && ((#[trigger] removed@[k]).x, removed@[k].y, removed@[k].z) == t,
            forall|k1: int, k2: int|
                0 <= k1 < k2 < removed@.len()
                    ==> (removed@[k1].x, removed@[k1].y, removed@[k1].z)
                        != (removed@[k2].x, removed@[k2].y, removed@[k2].z),
        decreases nb - i,
    {
        let ghost removed0 = removed@;
        let ghost smid = *s;
        let ev = &block_events[i];
        proof {
            assert(block_events@.take(i + 1).drop_last() =~= block_events@.take(i as int));
            assert(block_events@.take(i + 1).last() == block_events@[i as int]);
        }
        if ev.structure_entity == my_entity {
            let t = ev.block.chunk_coords();
            let in_bounds = t.0 < s.chunks_width() && t.1 < s.chunks_height()
                && t.2 < s.chunks_length();
            if in_bounds {
                let absent = s.chunk_from_chunk_coordinates(t.0, t.1, t.2).is_none();
                if absent {
                    if let Some(h) = s.chunk_entity(t.0, t.1, t.2) {
                        proof {
                            assert(!needs_removal(*old(s), block_events@.take(i as int), t));
                        }
                        s.remove_chunk_entity(t.0, t.1, t.2);
                        removed.push(ChunkRemoval { x: t.0, y: t.1, z: t.2, entity: h });
                        proof {
                            assert(removed@.last() == (ChunkRemoval { x: t.0, y: t.1,
                                z: t.2, entity: h }));
                        }
                    }
                }
            }
        }
        proof {
            let bes1 = block_events@.take(i + 1);
            let bes0 = block_events@.take(i as int);
            let evg = block_events@[i as int];
            // A single event touches a single chunk coordinate, so the
            // needs-removal set grows by at most that coordinate.
            assert forall|t2: (usize, usize, usize)|
                old(s).valid_chunk_coord(t2.0 as int, t2.1 as int, t2.2 as int)
                    implies #[trigger] s.spec_chunk_entity(t2.0 as int, t2.1 as int,
                        t2.2 as int)
                        == (if needs_removal(*old(s), bes1, t2) {
                            None::<u64>
                        } else {
                            old(s).spec_chunk_entity(t2.0 as int, t2.1 as int, t2.2 as int)
                        }) by {
                assert(smid.spec_chunk_entity(t2.0 as int, t2.1 as int, t2.2 as int)
                    == (if needs_removal(*old(s), bes0, t2) {
                        None::<u64>
                    } else {
                        old(s).spec_chunk_entity(t2.0 as int, t2.1 as int, t2.2 as int)
                    }));
                if needs_removal(*old(s), bes1, t2) {
                    let j = choose|j: int|
                        0 <= j < bes1.len() && block_event_touches(bes1[j],
                            old(s).self_entity->0, t2);
                    if j < i {
                        assert(block_event_touches(bes0[j], old(s).self_entity->0, t2));
                        assert(needs_removal(*old(s), bes0, t2));
                    }
                }
                if needs_removal(*old(s), bes0, t2) {
                    let j = choose|j: int|
                        0 <= j < bes0.len() && block_event_touches(bes0[j],
                            old(s).self_entity->0, t2);
                    assert(block_event_touches(bes1[j], old(s).self_entity->0, t2));
                    assert(needs_removal(*old(s), bes1, t2));
                }
            }
            assert forall|k: int| 0 <= k < removed@.len() implies {
                let t2 = ((#[trigger] removed@[k]).x, removed@[k].y, removed@[k].z);
                &&& needs_removal(*old(s), bes1, t2)
                &&& old(s).spec_chunk_entity(t2.0 as int, t2.1 as int, t2.2 as int)
                    == Some(removed@[k].entity)
            } by {
                let t2 = (removed@[k].x, removed@[k].y, removed@[k].z);
                if k < removed0.len() {
                    assert(removed@[k] == removed0[k]);
                    assert(needs_removal(*old(s), bes0, t2));
                    let j = choose|j: int|
                        0 <= j < bes0.len() && block_event_touches(bes0[j],
                            old(s).self_entity->0, t2);
                    assert(block_event_touches(bes1[j], old(s).self_entity->0, t2));
                } else {
                    assert(block_event_touches(bes1[i as int], old(s).self_entity->0, t2));
                }
            }
            assert forall|t2: (usize, usize, usize)|
                needs_removal(*old(s), bes1, t2)
                    implies exists|k: int|
                        0 <= k < removed@.len()
                            && ((#[trigger] removed@[k]).x, removed@[k].y, removed@[k].z)
                                == t2 by {
                let j = choose|j: int|
                    0 <= j < bes1.len() && block_event_touches(bes1[j],
                        old(s).self_entity->0, t2);
                if j < i {
                    assert(block_event_touches(bes0[j], old(s).self_entity->0, t2));
                    assert(needs_removal(*old(s), bes0, t2));
                    let k = choose|k: int|
                        0 <= k < removed0.len()
                            && ((#[trigger] removed0[k]).x, removed0[k].y, removed0[k].z)
                                == t2;
                    assert(removed@[k] == removed0[k]);
                    assert((removed@[k].x, removed@[k].y, removed@[k].z) == t2);
                } else {
                    if needs_removal(*old(s), bes0, t2) {
                        let k = choose|k: int|
                            0 <= k < removed0.len()
                                && ((#[trigger] removed0[k]).x, removed0[k].y,
                                    removed0[k].z) == t2;
                        assert(removed@[k] == removed0[k]);
                        assert((removed@[k].x, removed@[k].y, removed@[k].z) == t2);
                    } else {
                        assert((removed@[removed@.len() - 1].x,
                            removed@[removed@.len() - 1].y,
                            removed@[removed@.len() - 1].z) == t2);
                    }
                }
            }
        }
        i += 1;
    }
    proof {
        assert(block_events@.take(nb as int) =~= block_events@);
    }
    removed
}

/// One reconciliation tick: the creation pass (bind fresh handles to every
/// loaded, unrepresented chunk the batch touched, and collect the
/// deduplicated [`ChunkSetEvent`]s), then, strictly after it, the removal
/// pass (unbind every chunk that became all air).  Fresh handles are drawn
/// consecutively from `next_handle`.
pub fn reconcile_tick(s: &mut Structure, block_events: &Vec<BlockChangedEvent>,
    init_events: &Vec<ChunkInitEvent>, next_handle: &mut u64,
    chunk_set_events: &mut Vec<ChunkSetEvent>) -> (r: (Vec<ChunkCreation>, Vec<ChunkRemoval>))
    requires
        old(s).wf(),
        *old(next_handle) + block_events@.len() + init_events@.len() <= u64::MAX,
    ensures
        final(s).wf(),
        final(s).chunks == old(s).chunks,
        final(s).self_entity == old(s).self_entity,
        final(s).width == old(s).width,
        final(s).height == old(s).height,
        final(s).length == old(s).length,
        *final(next_handle) == *old(next_handle) + r.0@.len(),
        // The creation pass: exactly the chunks that need a representation,
        // each exactly once, with pairwise distinct fresh handles.
        forall|k: int|
            0 <= k < r.0@.len() ==> {
                let t = ((#[trigger] r.0@[k]).x, r.0@[k].y, r.0@[k].z);
                &&& needs_creation(*old(s), block_events@, init_events@, t)
                &&& r.0@[k].entity == *old(next_handle) + k
                &&& final(s).spec_chunk_entity(t.0 as int, t.1 as int, t.2 as int)
                    == Some(r.0@[k].entity)
            },
        forall|t: (usize, usize, usize)|
            needs_creation(*old(s), block_events@, init_events@, t)
                ==> exists|k: int|
                    0 <= k < r.0@.len()
                        && ((#[trigger] r.0@[k]).x, r.0@[k].y, r.0@[k].z) == t,
        forall|k1: int, k2: int|
            0 <= k1 < k2 < r.0@.len()
                ==> (r.0@[k1].x, r.0@[k1].y, r.0@[k1].z)
                    != (r.0@[k2].x, r.0@[k2].y, r.0@[k2].z),
        // The removal pass: exactly the chunks whose representation must go,
        // each exactly once, unbound afterwards.
        forall|k: int|
            0 <= k < r.1@.len() ==> {
                let t = ((#[trigger] r.1@[k]).x, r.1@[k].y, r.1@[k].z);
                &&& needs_removal(*old(s), block_events@, t)
                &&& old(s).spec_chunk_entity(t.0 as int, t.1 as int, t.2 as int)
                    == Some(r.1@[k].entity)
                &&& final(s).spec_chunk_entity(t.0 as int, t.1 as int, t.2 as int) is None
            },
        forall|t: (usize, usize, usize)|
            needs_removal(*old(s), block_events@, t)
                ==> exists|k: int|
                    0 <= k < r.1@.len()
                        && ((#[trigger] r.1@[k]).x, r.1@[k].y, r.1@[k].z) == t,
        forall|k1: int, k2: int|
            0 <= k1 < k2 < r.1@.len()
                ==> (r.1@[k1].x, r.1@[k1].y, r.1@[k1].z)
                    != (r.1@[k2].x, r.1@[k2].y, r.1@[k2].z),
        // Chunks neither created nor removed keep their binding.
        forall|t: (usize, usize, usize)|
            old(s).valid_chunk_coord(t.0 as int, t.1 as int, t.2 as int)
                && !needs_creation(*old(s), block_events@, init_events@, t)
                && !needs_removal(*old(s), block_events@, t)
                ==> #[trigger] final(s).spec_chunk_entity(t.0 as int, t.1 as int, t.2 as int)
                    == old(s).spec_chunk_entity(t.0 as int, t.1 as int, t.2 as int),
        // The per-tick ChunkSetEvents are appended, deduplicated by chunk.
        old(s).self_entity is None ==> final(chunk_set_events)@ == old(chunk_set_events)@,
        old(s).self_entity is Some ==> {
            let fresh = final(chunk_set_events)@.skip(old(chunk_set_events)@.len() as int);
            &&& final(chunk_set_events)@ == old(chunk_set_events)@ + fresh
            &&& (forall|e: ChunkSetEvent| #[trigger] fresh.contains(e)
                <==> chunk_set_needed(old(s).self_entity->0, init_events@,
                    Seq::new(r.0@.len(), |k: int| ((r.0@[k]).x, r.0@[k].y, r.0@[k].z)), e))
            &&& forall|k1: int, k2: int| 0 <= k1 < k2 < fresh.len() ==> fresh[k1] != fresh[k2]
        },
    {
    let coords = chunks_to_create(s, block_events, init_events);
    let first = *next_handle;
    let ghost s0 = *s;
    proof {
        assert forall|k: int| 0 <= k < coords@.len()
            implies s.valid_chunk_coord((#[trigger] coords@[k]).0 as int,
                coords@[k].1 as int, coords@[k].2 as int) by {
            assert(coords@.contains(coords@[k]));
        }
    }
    let created = bind_created_chunks(s, &coords, first);
    *next_handle = first + coords.len() as u64;
    if let Some(my_entity) = s.get_entity() {
        let mut fresh = chunk_set_events_for(my_entity, init_events, &coords);
        let ghost gfresh = fresh@;
        let ghost before = chunk_set_events@;
        chunk_set_events.append(&mut fresh);
        proof {
            assert(chunk_set_events@ =~= before + gfresh);
            assert(chunk_set_events@.skip(before.len() as int) =~= gfresh);
        }
    }
    let ghost s1 = *s;
    let removed = remove_chunks_pass(s, block_events);
    proof {
        // Removal candidates have no chunk loaded, so the creation pass,
        // which binds only loaded chunks, did not touch their bindings, and
        // needs-removal reads the same on the pre-creation state.
        assert forall|t: (usize, usize, usize)|
            needs_removal(s1, block_events@, t) == needs_removal(s0, block_events@, t)
            by {
            if s0.valid_chunk_coord(t.0 as int, t.1 as int, t.2 as int)
                && s0.spec_chunk_at(t.0 as int, t.1 as int, t.2 as int) is None {
                assert(!coords@.contains(t));
                assert(s1.spec_chunk_entity(t.0 as int, t.1 as int, t.2 as int)
                    == s0.spec_chunk_entity(t.0 as int, t.1 as int, t.2 as int));
            }
        }
        assert forall|k: int| 0 <= k < removed@.len() implies {
            let t = ((#[trigger] removed@[k]).x, removed@[k].y, removed@[k].z);
            &&& needs_removal(s0, block_events@, t)
            &&& s0.spec_chunk_entity(t.0 as int, t.1 as int, t.2 as int)
                == Some(removed@[k].entity)
        } by {
            let t = (removed@[k].x, removed@[k].y, removed@[k].z);
            assert(needs_removal(s1, block_events@, t));
            assert(!coords@.contains(t));
            assert(s1.spec_chunk_entity(t.0 as int, t.1 as int, t.2 as int)
                == s0.spec_chunk_entity(t.0 as int, t.1 as int, t.2 as int));
        }
        assert forall|k: int| 0 <= k < created@.len() implies {
            let t = ((#[trigger] created@[k]).x, created@[k].y, created@[k].z);
            s.spec_chunk_entity(t.0 as int, t.1 as int, t.2 as int)
                == Some(created@[k].entity)
        } by {
            let t = (created@[k].x, created@[k].y, created@[k].z);
            let tc = coords@[k];
            assert(coords@.contains(tc));
            assert(needs_creation(s0, block_events@, init_events@, tc));
            assert(!needs_removal(s0, block_events@, tc));
            assert(!needs_removal(s1, block_events@, tc));
            assert(s.spec_chunk_entity(tc.0 as int, tc.1 as int, tc.2 as int)
                == s1.spec_chunk_entity(tc.0 as int, tc.1 as int, tc.2 as int));
        }
        assert forall|k: int| 0 <= k < created@.len() implies {
            let t = ((#[trigger] created@[k]).x, created@[k].y, created@[k].z);
            needs_creation(s0, block_events@, init_events@, t)
        } by {
            let tc = coords@[k];
            assert(coords@.contains(tc));
            assert((created@[k].x, created@[k].y, created@[k].z) == tc);
        }
        assert(coords@ =~= Seq::new(created@.len(),
            |k: int| ((created@[k]).x, created@[k].y, created@[k].z)));
        assert forall|t: (usize, usize, usize)|
            needs_creation(s0, block_events@, init_events@, t)
                implies exists|k: int|
                    0 <= k < created@.len()
                        && ((#[trigger] created@[k]).x, created@[k].y, created@[k].z) == t
            by {
            assert(coords@.contains(t));
            let k = choose|k: int| 0 <= k < coords@.len() && coords@[k] == t;
            assert((created@[k].x, created@[k].y, created@[k].z) == t);
        }
        assert forall|k1: int, k2: int|
            0 <= k1 < k2 < created@.len()
                implies (created@[k1].x, created@[k1].y, created@[k1].z)
                    != (created@[k2].x, created@[k2].y, created@[k2].z) by {
            assert(coords@[k1] != coords@[k2]);
        }
        assert forall|t: (usize, usize, usize)|
            s0.valid_chunk_coord(t.0 as int, t.1 as int, t.2 as int)
                && !needs_creation(s0, block_events@, init_events@, t)
                && !needs_removal(s0, block_events@, t)
                implies #[trigger] s.spec_chunk_entity(t.0 as int, t.1 as int, t.2 as int)
                    == s0.spec_chunk_entity(t.0 as int, t.1 as int, t.2 as int) by {
            assert(!coords@.contains(t));
            assert(s1.spec_chunk_entity(t.0 as int, t.1 as int, t.2 as int)
                == s0.spec_chunk_entity(t.0 as int, t.1 as int, t.2 as int));
        }
    }
    (created, removed)
}

} // verus!
