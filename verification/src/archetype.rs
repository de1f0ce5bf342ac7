//! The archetype: an ordered list of chunks that all share one exact
//! component-type and shared-value-type signature, with a first-fit policy
//! for finding or allocating a chunk with spare capacity and matching shared
//! values.

use vstd::prelude::*;

verus! {

use crate::ChunkID;
use crate::same_key_set;
use crate::unique_keys;
use crate::storage::Chunk;
use crate::storage::ChunkBuilder;
use crate::storage::SharedSlot;
use crate::storage::chunk_capacity;
use crate::storage::max_entry_size;
use crate::storage::slot_keys;

/// Keys of a sequence of registered components, in order.
pub open spec fn entry_keys(entries: Seq<(u64, usize)>) -> Seq<u64> {
    entries.map_values(|c: (u64, usize)| c.0)
}

/// The per-row byte size a chunk built from `entries` is sized by: the
/// largest registered component size, or the whole budget when no component
/// is registered.
pub open spec fn row_size_of(entries: Seq<(u64, usize)>) -> nat {
    if entries.len() == 0 {
        crate::storage::CHUNK_BUDGET_BYTES as nat
    } else {
        max_entry_size(entries)
    }
}

/// The chunk can take the caller's next row: it has a free slot and carries
/// the required shared values.
pub open spec fn chunk_fits<D>(c: Chunk<D>, req: Seq<SharedSlot>) -> bool {
    c.entities@.len() < c.capacity && c.shared_match_spec(req)
}

/// A named collection of chunks that all declare the same component types
/// and the same shared-value types. Chunks are appended on demand and never
/// removed here.
pub struct Archetype<D> {
    /// Keys of the component types every chunk of this archetype declares.
    pub components: Vec<u64>,
    /// Keys of the shared-value types every chunk of this archetype declares.
    pub shared: Vec<u64>,
    /// The chunks, in allocation order.
    pub chunks: Vec<Chunk<D>>,
}

impl<D> Archetype<D> {
    /// Well-formedness: the declared signature has no duplicate key, and
    /// every chunk is well-formed with exactly the declared component and
    /// shared-value key sets.
    pub open spec fn wf(&self) -> bool {
        &&& unique_keys(self.components@)
        &&& unique_keys(self.shared@)
        &&& forall|i: int|
            0 <= i < self.chunks@.len() ==> {
                &&& (#[trigger] self.chunks@[i]).wf()
                &&& same_key_set(self.chunks@[i].col_keys(), self.components@)
                &&& same_key_set(self.chunks@[i].shared_keys(), self.shared@)
            }
    }

    /// An archetype for the given signature, with no chunk yet.
    pub fn new(components: Vec<u64>, shared: Vec<u64>) -> (r: Archetype<D>)
        requires
            unique_keys(components@),
            unique_keys(shared@),
        ensures
            r.wf(),
            r.components@ == components@,
            r.shared@ == shared@,
            r.chunks@ == Seq::<Chunk<D>>::empty(),
    {
        Archetype { components, shared, chunks: Vec::new() }
    }

    /// Every chunk of the archetype declares component type `key`.
    pub fn has_component(&self, key: u64) -> (r: bool)
        ensures
            r == self.components@.contains(key),
    {
        let n = self.components.len();
        let mut i: usize = 0;
        while i < n
            invariant
                n == self.components@.len(),
                i <= n,
                forall|j: int| 0 <= j < i ==> self.components@[j] != key,
            decreases n - i,
        {
            if self.components[i] == key {
                return true;
            }
            i = i + 1;
        }
        false
    }

    /// Every chunk of the archetype declares shared-value type `key`.
    pub fn has_shared(&self, key: u64) -> (r: bool)
        ensures
            r == self.shared@.contains(key),
    {
        let n = self.shared.len();
        let mut i: usize = 0;
        while i < n
            invariant
                n == self.shared@.len(),
                i <= n,
                forall|j: int| 0 <= j < i ==> self.shared@[j] != key,
            decreases n - i,
        {
            if self.shared[i] == key {
                return true;
            }
            i = i + 1;
        }
        false
    }

    /// The chunks, in allocation order.
    pub fn chunks(&self) -> (r: &Vec<Chunk<D>>)
        ensures
            r@ == self.chunks@,
    {
        &self.chunks
    }

    /// Bounds-checked read access to the chunk at `id`.
    pub fn chunk(&self, id: ChunkID) -> (r: Option<&Chunk<D>>)
        ensures
            match r {
                Some(c) => id < self.chunks@.len() && *c == self.chunks@[id as int],
                None => id >= self.chunks@.len(),
            },
    {
        if id < self.chunks.len() {
            Some(&self.chunks[id])
        } else {
            None
        }
    }

    /// Mutable access to the chunk at `id`. The caller must keep the chunk
    /// well-formed and must not change its declared key sets, or the
    /// archetype's own invariant is forfeit.
    pub fn chunk_mut(&mut self, id: ChunkID) -> (r: &mut Chunk<D>)
        requires
            id < old(self).chunks@.len(),
        ensures
            *r == old(self).chunks@[id as int],
            final(self).chunks@ == old(self).chunks@.update(id as int, *final(r)),
            final(self).components@ == old(self).components@,
            final(self).shared@ == old(self).shared@,
    {
        &mut self.chunks[id]
    }

    /// Bounds-checked mutable access to the chunk at `id`: absent for an
    /// out-of-range id, never a failure. As with `chunk_mut`, the caller
    /// must keep the chunk well-formed with its declared key sets.
    pub fn try_chunk_mut(&mut self, id: ChunkID) -> (r: Option<&mut Chunk<D>>)
        ensures
            match r {
                Some(c) => {
                    &&& id < old(self).chunks@.len()
                    &&& *c == old(self).chunks@[id as int]
                    &&& final(self).chunks@ == old(self).chunks@.update(id as int, *final(c))
                },
                None => id >= old(self).chunks@.len() && *final(self) == *old(self),
            },
            final(self).components@ == old(self).components@,
            final(self).shared@ == old(self).shared@,
    {
        if id < self.chunks.len() {
            Some(&mut self.chunks[id])
        } else {
            None
        }
    }

    /// Find or allocate a chunk that can take the caller's next row: the
    /// first chunk, in allocation order, that is not full and whose shared
    /// values match `shared_req` by value. If none exists, a new chunk is
    /// built from the required shared values and the required components
    /// (with their per-element byte sizes), appended, and returned. The
    /// required key sets must be exactly the archetype's declared signature.
    pub fn get_or_create_chunk(
        &mut self,
        shared_req: &Vec<SharedSlot>,
        components_req: &Vec<(u64, usize)>,
    ) -> (r: ChunkID)
        requires
            old(self).wf(),
            unique_keys(slot_keys(shared_req@)),
            unique_keys(entry_keys(components_req@)),
            same_key_set(slot_keys(shared_req@), old(self).shared@),
            same_key_set(entry_keys(components_req@), old(self).components@),
            components_req@.len() > 0 ==> max_entry_size(components_req@) > 0,
        ensures
            final(self).wf(),
            final(self).components@ == old(self).components@,
            final(self).shared@ == old(self).shared@,
            r <= old(self).chunks@.len(),
            r < final(self).chunks@.len(),
            chunk_fits(final(self).chunks@[r as int], shared_req@),
            forall|j: int|
                0 <= j < r ==> !chunk_fits(#[trigger] old(self).chunks@[j], shared_req@),
            r < old(self).chunks@.len() ==> final(self).chunks@ == old(self).chunks@,
            r == old(self).chunks@.len() ==> {
                &&& final(self).chunks@.len() == old(self).chunks@.len() + 1
                &&& final(self).chunks@.subrange(0, r as int) == old(self).chunks@
                &&& final(self).chunks@[r as int].entities@.len() == 0
                &&& final(self).chunks@[r as int].capacity == chunk_capacity(
                    row_size_of(components_req@),
                )
                &&& final(self).chunks@[r as int].col_keys() == entry_keys(components_req@)
                &&& final(self).chunks@[r as int].shared@ == shared_req@
                &&& (forall|b: int|
                    0 <= b < final(self).chunks@[r as int].borrows@.len() ==> (
                    #[trigger] final(self).chunks@[r as int].borrows@[b])@ == 0)
            },
    {
        let n = self.chunks.len();
        let mut i: usize = 0;
        while i < n
            invariant
                self.wf(),
                n == self.chunks@.len(),
                i <= n,
                forall|j: int|
                    0 <= j < i ==> !chunk_fits(#[trigger] self.chunks@[j], shared_req@),
            decreases n - i,
        {
            let c = &self.chunks[i];
            if !c.is_full() && c.shared_matches(shared_req) {
                return i;
            }
            i = i + 1;
        }
        let mut builder = ChunkBuilder::new();
        let ns = shared_req.len();
        let mut s: usize = 0;
        while s < ns
            invariant
                ns == shared_req@.len(),
                s <= ns,
                unique_keys(slot_keys(shared_req@)),
                builder.wf(),
                builder.shared@ == shared_req@.take(s as int),
                builder.components@ == Seq::<(u64, usize)>::empty(),
            decreases ns - s,
        {
            let slot = shared_req[s];
            proof {
                assert(builder.shared_keys() =~= slot_keys(shared_req@).take(s as int));
                if builder.shared_keys().contains(slot.key) {
                    let j = choose|j: int|
                        0 <= j < builder.shared_keys().len() && builder.shared_keys()[j]
                            == slot.key;
                    assert(slot_keys(shared_req@)[j] == slot.key);
                    assert(slot_keys(shared_req@)[s as int] == slot.key);
                    assert(false);
                }
            }
            builder.register_shared(slot.key, slot.value);
            assert(builder.shared@ =~= shared_req@.take(s + 1));
            s = s + 1;
        }
        let nc = components_req.len();
        let mut k: usize = 0;
        while k < nc
            invariant
                nc == components_req@.len(),
                k <= nc,
                unique_keys(entry_keys(components_req@)),
                builder.wf(),
                builder.shared@ == shared_req@.take(shared_req@.len() as int),
                builder.components@ == components_req@.take(k as int),
            decreases nc - k,
        {
            let (key, size) = components_req[k];
            proof {
                assert(builder.component_keys() =~= entry_keys(components_req@).take(k as int));
                if builder.component_keys().contains(key) {
                    let j = choose|j: int|
                        0 <= j < builder.component_keys().len() && builder.component_keys()[j]
                            == key;
                    assert(entry_keys(components_req@)[j] == key);
                    assert(entry_keys(components_req@)[k as int] == key);
                    assert(false);
                }
            }
            builder.register_component(key, size);
            assert(builder.components@ =~= components_req@.take(k + 1));
            k = k + 1;
        }
        assert(builder.shared@ =~= shared_req@);
        assert(builder.components@ =~= components_req@);
        let chunk = builder.build();
        proof {
            assert(chunk.shared_match_spec(shared_req@)) by {
                assert forall|j: int| 0 <= j < shared_req@.len() implies chunk.shared@.contains(
                    #[trigger] shared_req@[j],
                ) by {
                    assert(chunk.shared@[j] == shared_req@[j]);
                }
            }
            assert(same_key_set(chunk.col_keys(), self.components@)) by {
                assert(chunk.col_keys() == entry_keys(components_req@));
            }
            assert(same_key_set(chunk.shared_keys(), self.shared@)) by {
                assert(chunk.shared_keys() =~= slot_keys(shared_req@));
            }
        }
        let id = self.chunks.len();
        self.chunks.push(chunk);
        assert(final(self).chunks@.subrange(0, id as int) =~= old(self).chunks@);
        id
    }
}

} // verus!
