//! Type-erased column storage: one growable array per component type, a
//! fixed-capacity chunk that keeps all of its columns in lock-step with its
//! entity array, and the builder that sizes a chunk from the registered
//! component footprints.

use vstd::prelude::*;

verus! {

use crate::Entity;
use crate::ComponentID;
use crate::borrow::BorrowState;
use crate::borrow::read_grant;
use crate::borrow::write_grant;
use crate::unique_keys;

/// Memory budget of one chunk: capacity is chosen so that the largest column
/// stays within this many bytes.
pub const CHUNK_BUDGET_BYTES: usize = 16 * 1024;

/// The sequence `s` after a swap-remove at `i`: the last element takes the
/// place of `s[i]` and the length shrinks by one.
pub open spec fn swap_removed<D>(s: Seq<D>, i: int) -> Seq<D> {
    s.update(i, s.last()).drop_last()
}

/// One dense column: the rows of a single component type, stored behind a
/// stable key so a chunk can hold many differently-typed columns in one list.
/// The column itself performs no borrow arbitration; the owning chunk gates
/// access through its borrow counters.
pub struct ColumnStore<D> {
    /// Process-wide stable identifier of the component type stored here.
    pub key: u64,
    /// One slot per row, always as long as the owning chunk's entity array.
    pub data: Vec<D>,
}

impl<D> ColumnStore<D> {
    /// An empty column for component type `key`, with room for `capacity`
    /// rows reserved up front.
    pub fn with_capacity(key: u64, capacity: usize) -> (r: ColumnStore<D>)
        ensures
            r.key == key,
            r.data@ == Seq::<D>::empty(),
    {
        ColumnStore { key, data: Vec::with_capacity(capacity) }
    }

    /// Current row count.
    pub fn len(&self) -> (r: usize)
        ensures
            r == self.data@.len(),
    {
        self.data.len()
    }

    /// Append one value at the next free row.
    pub fn push(&mut self, value: D)
        ensures
            final(self).key == old(self).key,
            final(self).data@ == old(self).data@.push(value),
    {
        self.data.push(value);
    }

    /// Indexed read of the value at row `row`.
    pub fn value_at(&self, row: usize) -> (r: &D)
        requires
            row < self.data@.len(),
        ensures
            *r == self.data@[row as int],
    {
        &self.data[row]
    }

    /// Indexed write of the value at row `row`.
    pub fn set_value(&mut self, row: usize, value: D)
        requires
            row < old(self).data@.len(),
        ensures
            final(self).key == old(self).key,
            final(self).data@ == old(self).data@.update(row as int, value),
    {
        self.data[row] = value;
    }

    /// Swap-remove the value at row `row`: the last value moves into `row`
    /// and the column shrinks by one. O(1), but it reorders the data, which
    /// is why chunk-level removal reports the relocated entity.
    pub fn remove(&mut self, row: ComponentID)
        requires
            row < old(self).data@.len(),
        ensures
            final(self).key == old(self).key,
            final(self).data@ == swap_removed(old(self).data@, row as int),
    {
        let _ = self.data.swap_remove(row);
    }
}

/// One shared value of a chunk: a "tag" stored once per chunk rather than
/// once per row, identified by the stable key of its type. The value is a
/// plain word owned by the caller (the caller keeps whatever richer data it
/// stands for); it is fixed when the chunk is built and read-only afterwards.
#[derive(Clone, Copy, PartialEq, Eq, Structural, Hash, Debug)]
pub struct SharedSlot {
    /// Process-wide stable identifier of the shared-value type.
    pub key: u64,
    /// The value shared by every row of the chunk.
    pub value: u64,
}

/// Keys of a sequence of shared slots, in order.
pub open spec fn slot_keys(slots: Seq<SharedSlot>) -> Seq<u64> {
    slots.map_values(|s: SharedSlot| s.key)
}

/// A fixed-capacity, dense, columnar block: one entity per row, one column
/// per component type, one shared value per shared-value type, and one borrow
/// counter per column. Row count never exceeds the capacity fixed at
/// construction, and every column stays exactly as long as the entity array.
pub struct Chunk<D> {
    /// Maximum row count, fixed by the builder and never changed.
    pub capacity: usize,
    /// The entity occupying each row.
    pub entities: Vec<Entity>,
    /// One column per component type, keys pairwise distinct.
    pub components: Vec<ColumnStore<D>>,
    /// One value per shared-value type, keys pairwise distinct.
    pub shared: Vec<SharedSlot>,
    /// Borrow counter of the column at the same index in `components`.
    pub borrows: Vec<BorrowState>,
}

impl<D> Chunk<D> {
    /// Keys of the chunk's columns, in storage order.
    pub open spec fn col_keys(&self) -> Seq<u64> {
        self.components@.map_values(|c: ColumnStore<D>| c.key)
    }

    /// Keys of the chunk's shared values, in storage order.
    pub open spec fn shared_keys(&self) -> Seq<u64> {
        slot_keys(self.shared@)
    }

    /// The chunk declares component type `key`.
    pub open spec fn has_component_key(&self, key: u64) -> bool {
        self.col_keys().contains(key)
    }

    /// The chunk declares shared-value type `key`.
    pub open spec fn has_shared_key(&self, key: u64) -> bool {
        self.shared_keys().contains(key)
    }

    /// Every column is exactly as long as the entity array.
    pub open spec fn aligned(&self) -> bool {
        forall|i: int|
            0 <= i < self.components@.len()
                ==> #[trigger] self.components@[i].data@.len() == self.entities@.len()
    }

    /// Well-formedness: the row count respects the capacity, the columns are
    /// aligned with the entity array, there is exactly one borrow counter per
    /// column and each is in a protocol state, and no component or
    /// shared-value key occurs twice.
    pub open spec fn wf(&self) -> bool {
        &&& self.entities@.len() <= self.capacity
        &&& self.aligned()
        &&& self.borrows@.len() == self.components@.len()
        &&& forall|i: int| 0 <= i < self.borrows@.len() ==> (#[trigger] self.borrows@[i])@ >= -1
        &&& unique_keys(self.col_keys())
        &&& unique_keys(self.shared_keys())
    }

    /// Current row count.
    pub fn len(&self) -> (r: usize)
        ensures
            r == self.entities@.len(),
    {
        self.entities.len()
    }

    /// The chunk has no free row left.
    pub fn is_full(&self) -> (r: bool)
        ensures
            r == (self.entities@.len() == self.capacity),
    {
        self.entities.len() == self.capacity
    }

    /// Raw read access to the entity array. Not borrow-tracked: structural
    /// reads are expected only from the owning archetype or world under its
    /// own discipline.
    pub fn entities(&self) -> (r: &Vec<Entity>)
        ensures
            r@ == self.entities@,
    {
        &self.entities
    }

    /// Index of the column holding component type `key`, if the chunk
    /// declares it.
    pub fn find_component(&self, key: u64) -> (r: Option<usize>)
        ensures
            match r {
                Some(i) => i < self.components@.len() && self.components@[i as int].key == key,
                None => !self.has_component_key(key),
            },
    {
        let n = self.components.len();
        let mut i: usize = 0;
        while i < n
            invariant
                n == self.components@.len(),
                i <= n,
                forall|j: int| 0 <= j < i ==> self.col_keys()[j] != key,
            decreases n - i,
        {
            if self.components[i].key == key {
                return Some(i);
            }
            i = i + 1;
        }
        assert(forall|j: int| 0 <= j < self.col_keys().len() ==> self.col_keys()[j] != key);
        None
    }

    /// The consistency assertion: do all columns have exactly as many rows as
    /// the entity array? A mismatch is an internal-invariant violation that
    /// the caller must treat as fatal; a well-formed chunk always passes (see
    /// `lemma_wf_chunk_is_aligned`).
    pub fn validate(&self) -> (r: bool)
        ensures
            r == self.aligned(),
    {
        let n = self.components.len();
        let entity_rows = self.entities.len();
        let mut i: usize = 0;
        while i < n
            invariant
                n == self.components@.len(),
                entity_rows == self.entities@.len(),
                i <= n,
                forall|j: int|
                    0 <= j < i ==> #[trigger] self.components@[j].data@.len()
                        == self.entities@.len(),
            decreases n - i,
        {
            if self.components[i].len() != entity_rows {
                return false;
            }
            i = i + 1;
        }
        true
    }

    /// Append one row: entity `e` together with one value per column, given
    /// in storage order (`values[i]` goes to column `i`). The owning
    /// archetype must have picked a chunk with a free row; appending never
    /// overflows the capacity.
    pub fn append(&mut self, e: Entity, values: Vec<D>)
        requires
            old(self).wf(),
            old(self).entities@.len() < old(self).capacity,
            values@.len() == old(self).components@.len(),
        ensures
            final(self).wf(),
            final(self).capacity == old(self).capacity,
            final(self).entities@ == old(self).entities@.push(e),
            final(self).components@.len() == old(self).components@.len(),
            forall|i: int|
                0 <= i < old(self).components@.len() ==> {
                    &&& (#[trigger] final(self).components@[i]).key == old(self).components@[i].key
                    &&& final(self).components@[i].data@ == old(self).components@[i].data@.push(
                        values@[i],
                    )
                },
            final(self).shared@ == old(self).shared@,
            final(self).borrows@ == old(self).borrows@,
    {
        self.entities.push(e);
        let mut vals = values;
        let n = self.components.len();
        let mut i: usize = 0;
        while i < n
            invariant
                n == self.components@.len(),
                n == old(self).components@.len(),
                values@.len() == n,
                i <= n,
                vals@ == values@.skip(i as int),
                self.capacity == old(self).capacity,
                self.entities@ == old(self).entities@.push(e),
                self.shared@ == old(self).shared@,
                self.borrows@ == old(self).borrows@,
                forall|j: int|
                    i <= j < n ==> #[trigger] self.components@[j] == old(self).components@[j],
                forall|j: int|
                    0 <= j < i ==> {
                        &&& (#[trigger] self.components@[j]).key == old(self).components@[j].key
                        &&& self.components@[j].data@ == old(self).components@[j].data@.push(
                            values@[j],
                        )
                    },
            decreases n - i,
        {
            let v = vals.remove(0);
            assert(v == values@[i as int]);
            let col = &mut self.components[i];
            col.push(v);
            assert(vals@ == values@.skip(i + 1));
            i = i + 1;
        }
        assert(final(self).aligned()) by {
            assert(forall|j: int|
                0 <= j < final(self).components@.len()
                    ==> #[trigger] final(self).components@[j].data@.len() == old(
                    self,
                ).components@[j].data@.len() + 1);
        }
        assert(final(self).col_keys() =~= old(self).col_keys());
    }

    /// Remove the row at `id` from the entity array and from every column in
    /// lock-step. The last row is swapped into the freed slot, and the entity
    /// that now occupies `id` is returned so the caller can fix up its own
    /// location index; removing the last row moves nothing and returns
    /// `None`. The caller must bounds-check `id` (see `try_remove`).
    pub fn remove(&mut self, id: ComponentID) -> (r: Option<Entity>)
        requires
            old(self).wf(),
            id < old(self).entities@.len(),
        ensures
            final(self).wf(),
            final(self).capacity == old(self).capacity,
            final(self).entities@ == swap_removed(old(self).entities@, id as int),
            final(self).components@.len() == old(self).components@.len(),
            forall|i: int|
                0 <= i < old(self).components@.len() ==> {
                    &&& (#[trigger] final(self).components@[i]).key == old(self).components@[i].key
                    &&& final(self).components@[i].data@ == swap_removed(
                        old(self).components@[i].data@,
                        id as int,
                    )
                },
            final(self).shared@ == old(self).shared@,
            final(self).borrows@ == old(self).borrows@,
            id + 1 < old(self).entities@.len() ==> r == Some(
                old(self).entities@[old(self).entities@.len() - 1],
            ) && final(self).entities@[id as int] == old(self).entities@[old(
                self,
            ).entities@.len() - 1],
            id + 1 == old(self).entities@.len() ==> r == None::<Entity>,
    {
        let _ = self.entities.swap_remove(id);
        let n = self.components.len();
        let mut i: usize = 0;
        while i < n
            invariant
                n == self.components@.len(),
                n == old(self).components@.len(),
                i <= n,
                id < old(self).entities@.len(),
                self.capacity == old(self).capacity,
                self.entities@ == swap_removed(old(self).entities@, id as int),
                self.shared@ == old(self).shared@,
                self.borrows@ == old(self).borrows@,
                forall|j: int|
                    i <= j < n ==> #[trigger] self.components@[j] == old(self).components@[j],
                forall|j: int|
                    i <= j < n ==> #[trigger] self.components@[j].data@.len() == old(
                        self,
                    ).entities@.len(),
                forall|j: int|
                    0 <= j < i ==> {
                        &&& (#[trigger] self.components@[j]).key == old(self).components@[j].key
                        &&& self.components@[j].data@ == swap_removed(
                            old(self).components@[j].data@,
                            id as int,
                        )
                    },
            decreases n - i,
        {
            let col = &mut self.components[i];
            col.remove(id);
            i = i + 1;
        }
        assert(final(self).col_keys() =~= old(self).col_keys());
        if self.entities.len() > id {
            Some(self.entities[id])
        } else {
            None
        }
    }

    /// The index of the column (and of its borrow counter) that stores
    /// component type `key`; meaningful only when the chunk declares `key`,
    /// and then unique because column keys are pairwise distinct.
    pub open spec fn col_index(&self, key: u64) -> int {
        choose|i: int| 0 <= i < self.col_keys().len() && self.col_keys()[i] == key
    }

    /// Claim one shared (read) hold on the column for component type `key`.
    /// Succeeds iff no exclusive holder is live on that column; nothing else
    /// in the chunk is touched, and a denied caller may retry or give up.
    pub fn borrow(&mut self, key: u64) -> (r: bool)
        requires
            old(self).wf(),
            old(self).has_component_key(key),
        ensures
            final(self).wf(),
            r == read_grant(old(self).borrows@[old(self).col_index(key)]@),
            r ==> final(self).borrows@[old(self).col_index(key)]@ == old(self).borrows@[old(
                self,
            ).col_index(key)]@ + 1,
            !r ==> final(self).borrows@ == old(self).borrows@,
            final(self).borrows@.len() == old(self).borrows@.len(),
            forall|j: int|
                0 <= j < old(self).borrows@.len() && j != old(self).col_index(key)
                    ==> #[trigger] final(self).borrows@[j] == old(self).borrows@[j],
            final(self).capacity == old(self).capacity,
            final(self).entities@ == old(self).entities@,
            final(self).components@ == old(self).components@,
            final(self).shared@ == old(self).shared@,
    {
        let i = match self.find_component(key) {
            Some(i) => i,
            None => vstd::pervasive::unreached(),
        };
        proof {
            assert(0 <= i < self.col_keys().len() && self.col_keys()[i as int] == key);
            assert(self.col_index(key) == i);
        }
        let b = &mut self.borrows[i];
        let r = b.acquire_read();
        assert(final(self).col_keys() =~= old(self).col_keys());
        assert(final(self).shared_keys() =~= old(self).shared_keys());
        if !r {
            assert(final(self).borrows@ =~= old(self).borrows@);
        }
        r
    }

    /// Claim the one exclusive (write) hold on the column for component type
    /// `key`. Succeeds iff that column is uncontended; nothing else in the
    /// chunk is touched, and a denied caller may retry or give up.
    pub fn borrow_mut(&mut self, key: u64) -> (r: bool)
        requires
            old(self).wf(),
            old(self).has_component_key(key),
        ensures
            final(self).wf(),
            r == write_grant(old(self).borrows@[old(self).col_index(key)]@),
            r ==> final(self).borrows@[old(self).col_index(key)]@ == -1,
            !r ==> final(self).borrows@ == old(self).borrows@,
            final(self).borrows@.len() == old(self).borrows@.len(),
            forall|j: int|
                0 <= j < old(self).borrows@.len() && j != old(self).col_index(key)
                    ==> #[trigger] final(self).borrows@[j] == old(self).borrows@[j],
            final(self).capacity == old(self).capacity,
            final(self).entities@ == old(self).entities@,
            final(self).components@ == old(self).components@,
            final(self).shared@ == old(self).shared@,
    {
        let i = match self.find_component(key) {
            Some(i) => i,
            None => vstd::pervasive::unreached(),
        };
        proof {
            assert(0 <= i < self.col_keys().len() && self.col_keys()[i as int] == key);
            assert(self.col_index(key) == i);
        }
        let b = &mut self.borrows[i];
        let r = b.acquire_write();
        assert(final(self).col_keys() =~= old(self).col_keys());
        assert(final(self).shared_keys() =~= old(self).shared_keys());
        if !r {
            assert(final(self).borrows@ =~= old(self).borrows@);
        }
        r
    }

    /// Give back one shared hold on the column for component type `key`,
    /// exactly once per successful `borrow`.
    pub fn release(&mut self, key: u64)
        requires
            old(self).wf(),
            old(self).has_component_key(key),
            old(self).borrows@[old(self).col_index(key)]@ > 0,
        ensures
            final(self).wf(),
            final(self).borrows@[old(self).col_index(key)]@ == old(self).borrows@[old(
                self,
            ).col_index(key)]@ - 1,
            final(self).borrows@.len() == old(self).borrows@.len(),
            forall|j: int|
                0 <= j < old(self).borrows@.len() && j != old(self).col_index(key)
                    ==> #[trigger] final(self).borrows@[j] == old(self).borrows@[j],
            final(self).capacity == old(self).capacity,
            final(self).entities@ == old(self).entities@,
            final(self).components@ == old(self).components@,
            final(self).shared@ == old(self).shared@,
    {
        let i = match self.find_component(key) {
            Some(i) => i,
            None => vstd::pervasive::unreached(),
        };
        proof {
            assert(0 <= i < self.col_keys().len() && self.col_keys()[i as int] == key);
            assert(self.col_index(key) == i);
        }
        let b = &mut self.borrows[i];
        b.release_read();
        assert(final(self).col_keys() =~= old(self).col_keys());
        assert(final(self).shared_keys() =~= old(self).shared_keys());
    }

    /// Give back the exclusive hold on the column for component type `key`,
    /// exactly once per successful `borrow_mut`.
    pub fn release_mut(&mut self, key: u64)
        requires
            old(self).wf(),
            old(self).has_component_key(key),
            old(self).borrows@[old(self).col_index(key)]@ == -1,
        ensures
            final(self).wf(),
            final(self).borrows@[old(self).col_index(key)]@ == 0,
            final(self).borrows@.len() == old(self).borrows@.len(),
            forall|j: int|
                0 <= j < old(self).borrows@.len() && j != old(self).col_index(key)
                    ==> #[trigger] final(self).borrows@[j] == old(self).borrows@[j],
            final(self).capacity == old(self).capacity,
            final(self).entities@ == old(self).entities@,
            final(self).components@ == old(self).components@,
            final(self).shared@ == old(self).shared@,
    {
        let i = match self.find_component(key) {
            Some(i) => i,
            None => vstd::pervasive::unreached(),
        };
        proof {
            assert(0 <= i < self.col_keys().len() && self.col_keys()[i as int] == key);
            assert(self.col_index(key) == i);
        }
        let b = &mut self.borrows[i];
        b.release_write();
        assert(final(self).col_keys() =~= old(self).col_keys());
        assert(final(self).shared_keys() =~= old(self).shared_keys());
    }

    /// Borrow-tracked read-only view of the column for component type `key`,
    /// or `None` if the chunk does not declare `key`. The caller must hold a
    /// shared (read) borrow on that column, taken with `borrow`, for as long
    /// as it uses the view.
    pub fn entity_data(&self, key: u64) -> (r: Option<&Vec<D>>)
        requires
            self.wf(),
            self.has_component_key(key) ==> self.borrows@[self.col_index(key)]@ > 0,
        ensures
            match r {
                Some(v) => self.has_component_key(key) && v@ == self.components@[self.col_index(
                    key,
                )].data@,
                None => !self.has_component_key(key),
            },
    {
        match self.find_component(key) {
            Some(i) => {
                proof {
                    assert(0 <= i < self.col_keys().len() && self.col_keys()[i as int] == key);
                    assert(self.col_index(key) == i);
                }
                Some(&self.components[i].data)
            },
            None => None,
        }
    }

    /// Borrow-tracked indexed write into the column for component type
    /// `key`: stores `value` at row `row`. The caller must hold the
    /// exclusive borrow on that column, taken with `borrow_mut`. Returns
    /// `false`, changing nothing, if the chunk does not declare `key`.
    pub fn set_entity_datum(&mut self, key: u64, row: ComponentID, value: D) -> (r: bool)
        requires
            old(self).wf(),
            row < old(self).entities@.len(),
            old(self).has_component_key(key) ==> old(self).borrows@[old(self).col_index(key)]@
                == -1,
        ensures
            final(self).wf(),
            r == old(self).has_component_key(key),
            r ==> {
                &&& final(self).components@.len() == old(self).components@.len()
                &&& final(self).components@[old(self).col_index(key)].key == key
                &&& final(self).components@[old(self).col_index(key)].data@ == old(
                    self,
                ).components@[old(self).col_index(key)].data@.update(row as int, value)
                &&& forall|j: int|
                    0 <= j < old(self).components@.len() && j != old(self).col_index(key)
                        ==> #[trigger] final(self).components@[j] == old(self).components@[j]
            },
            !r ==> *final(self) == *old(self),
            final(self).capacity == old(self).capacity,
            final(self).entities@ == old(self).entities@,
            final(self).shared@ == old(self).shared@,
            final(self).borrows@ == old(self).borrows@,
    {
        let i = match self.find_component(key) {
            Some(i) => i,
            None => {
                return false;
            },
        };
        proof {
            assert(0 <= i < self.col_keys().len() && self.col_keys()[i as int] == key);
            assert(self.col_index(key) == i);
        }
        let col = &mut self.components[i];
        col.set_value(row, value);
        assert(final(self).col_keys() =~= old(self).col_keys());
        assert(final(self).shared_keys() =~= old(self).shared_keys());
        assert(final(self).aligned()) by {
            assert(forall|j: int|
                0 <= j < final(self).components@.len()
                    ==> #[trigger] final(self).components@[j].data@.len() == old(
                    self,
                ).components@[j].data@.len());
        }
        true
    }

    /// The chunk carries every slot of `req`, by key and by value: the
    /// matching rule of the first-fit chunk search.
    pub open spec fn shared_match_spec(&self, req: Seq<SharedSlot>) -> bool {
        forall|i: int| 0 <= i < req.len() ==> self.shared@.contains(#[trigger] req[i])
    }

    /// Raw access to the shared value for shared-value type `key`, or `None`
    /// if the chunk does not declare `key`. Shared values are not
    /// borrow-tracked: they are fixed when the chunk is built and read-only
    /// afterwards.
    pub fn shared_component(&self, key: u64) -> (r: Option<u64>)
        requires
            self.wf(),
        ensures
            match r {
                Some(v) => self.shared@.contains(SharedSlot { key, value: v }),
                None => !self.has_shared_key(key),
            },
            r is Some <==> self.has_shared_key(key),
    {
        let n = self.shared.len();
        let mut i: usize = 0;
        while i < n
            invariant
                n == self.shared@.len(),
                i <= n,
                forall|j: int| 0 <= j < i ==> self.shared_keys()[j] != key,
            decreases n - i,
        {
            if self.shared[i].key == key {
                let v = self.shared[i].value;
                assert(self.shared@[i as int] == SharedSlot { key, value: v });
                assert(self.has_shared_key(key)) by {
                    assert(self.shared_keys()[i as int] == key);
                }
                return Some(v);
            }
            i = i + 1;
        }
        assert(forall|j: int| 0 <= j < self.shared_keys().len() ==> self.shared_keys()[j] != key);
        None
    }

    /// Does this chunk carry exactly the shared values a caller requires?
    /// Compares by value, not merely by type: a chunk whose slot for some key
    /// holds a different value is no match.
    pub fn shared_matches(&self, req: &Vec<SharedSlot>) -> (r: bool)
        requires
            self.wf(),
        ensures
            r == self.shared_match_spec(req@),
    {
        let n = req.len();
        let mut i: usize = 0;
        while i < n
            invariant
                n == req@.len(),
                i <= n,
                self.wf(),
                forall|j: int| 0 <= j < i ==> self.shared@.contains(#[trigger] req@[j]),
            decreases n - i,
        {
            let want = req[i];
            match self.shared_component(want.key) {
                Some(v) => {
                    if v != want.value {
                        assert(!self.shared@.contains(req@[i as int])) by {
                            let w = self.shared@.contains(SharedSlot { key: want.key, value: v });
                            assert(w);
                            let a = choose|a: int|
                                0 <= a < self.shared@.len() && self.shared@[a] == SharedSlot {
                                    key: want.key,
                                    value: v,
                                };
                            assert(self.shared@[a] == SharedSlot { key: want.key, value: v });
                            if self.shared@.contains(req@[i as int]) {
                                let b = choose|b: int|
                                    0 <= b < self.shared@.len() && self.shared@[b] == req@[i as int];
                                assert(self.shared_keys()[a] == want.key);
                                assert(self.shared_keys()[b] == want.key);
                                assert(a == b);
                                assert(false);
                            }
                        }
                        return false;
                    }
                    assert(self.shared@.contains(req@[i as int]));
                },
                None => {
                    assert(!self.shared@.contains(req@[i as int])) by {
                        if self.shared@.contains(req@[i as int]) {
                            let b = choose|b: int|
                                0 <= b < self.shared@.len() && self.shared@[b] == req@[i as int];
                            assert(self.shared_keys()[b] == want.key);
                        }
                    }
                    return false;
                },
            }
            i = i + 1;
        }
        true
    }

    /// Bounds-checked removal for external callers: delegates to `remove`
    /// when `id` names a live row, and reports `None` without touching the
    /// chunk when it does not.
    pub fn try_remove(&mut self, id: ComponentID) -> (r: Option<Option<Entity>>)
        requires
            old(self).wf(),
        ensures
            final(self).wf(),
            id >= old(self).entities@.len() ==> r == None::<Option<Entity>> && *final(self)
                == *old(self),
            id < old(self).entities@.len() ==> {
                &&& final(self).entities@ == swap_removed(old(self).entities@, id as int)
                &&& final(self).components@.len() == old(self).components@.len()
                &&& (forall|i: int|
                    0 <= i < old(self).components@.len() ==> {
                        &&& (#[trigger] final(self).components@[i]).key == old(
                            self,
                        ).components@[i].key
                        &&& final(self).components@[i].data@ == swap_removed(
                            old(self).components@[i].data@,
                            id as int,
                        )
                    })
                &&& final(self).capacity == old(self).capacity
                &&& final(self).shared@ == old(self).shared@
                &&& final(self).borrows@ == old(self).borrows@
                &&& (id + 1 < old(self).entities@.len() ==> r == Some(
                    Some(old(self).entities@[old(self).entities@.len() - 1]),
                ) && final(self).entities@[id as int] == old(self).entities@[old(
                    self,
                ).entities@.len() - 1])
                &&& (id + 1 == old(self).entities@.len() ==> r == Some(None::<Entity>))
            },
    {
        if id < self.entities.len() {
            Some(self.remove(id))
        } else {
            None
        }
    }
}

/// The largest per-element byte size among the registered components, zero
/// when none is registered.
pub open spec fn max_entry_size(entries: Seq<(u64, usize)>) -> nat
    decreases entries.len(),
{
    if entries.len() == 0 {
        0
    } else {
        let rest = max_entry_size(entries.drop_last());
        if entries.last().1 >= rest {
            entries.last().1 as nat
        } else {
            rest
        }
    }
}

/// `max_entry_size` is exactly the largest registered size: no entry
/// exceeds it, and some entry reaches it whenever any is registered. In
/// particular the capacity computed from it does not depend on the order of
/// registration.
pub proof fn lemma_max_entry_size_is_max(entries: Seq<(u64, usize)>)
    ensures
        forall|i: int| 0 <= i < entries.len() ==> (#[trigger] entries[i]).1 <= max_entry_size(
            entries,
        ),
        entries.len() > 0 ==> exists|i: int|
            0 <= i < entries.len() && (#[trigger] entries[i]).1 == max_entry_size(entries),
    decreases entries.len(),
{
    if entries.len() > 0 {
        let rest = entries.drop_last();
        lemma_max_entry_size_is_max(rest);
        assert(forall|i: int| 0 <= i < rest.len() ==> entries[i] == rest[i]);
        if entries.last().1 >= max_entry_size(rest) {
            assert(entries[entries.len() - 1].1 == max_entry_size(entries));
        } else {
            let j = choose|j: int| 0 <= j < rest.len() && (#[trigger] rest[j]).1
                == max_entry_size(rest);
            assert(entries[j].1 == max_entry_size(entries));
        }
    }
}

/// Two sequences holding the same entries, in any orders, have the same
/// largest size.
proof fn lemma_max_entry_size_permutation(a: Seq<(u64, usize)>, b: Seq<(u64, usize)>)
    requires
        a.to_multiset() == b.to_multiset(),
    ensures
        max_entry_size(a) == max_entry_size(b),
        a.len() == b.len(),
{
    a.to_multiset_ensures();
    b.to_multiset_ensures();
    lemma_max_entry_size_is_max(a);
    lemma_max_entry_size_is_max(b);
    assert(a.len() == b.len());
    if a.len() > 0 {
        let i = choose|i: int| 0 <= i < a.len() && (#[trigger] a[i]).1 == max_entry_size(a);
        assert(a.contains(a[i]));
        assert(a.to_multiset().count(a[i]) > 0);
        assert(b.to_multiset().count(a[i]) > 0);
        assert(b.contains(a[i]));
        let ib = choose|ib: int| 0 <= ib < b.len() && b[ib] == a[i];
        assert(b[ib].1 <= max_entry_size(b));
        let j = choose|j: int| 0 <= j < b.len() && (#[trigger] b[j]).1 == max_entry_size(b);
        assert(b.contains(b[j]));
        assert(b.to_multiset().count(b[j]) > 0);
        assert(a.to_multiset().count(b[j]) > 0);
        assert(a.contains(b[j]));
        let ja = choose|ja: int| 0 <= ja < a.len() && a[ja] == b[j];
        assert(a[ja].1 <= max_entry_size(a));
    }
}

/// The order of registration does not affect the resulting capacity: two
/// builders that registered the same components (the same multiset of keys
/// and per-element sizes), in any orders, compute the same per-row size, and
/// so build chunks of the same capacity. Order affects only column storage
/// order.
pub proof fn lemma_build_order_irrelevant(a: ChunkBuilder, b: ChunkBuilder)
    requires
        a.components@.to_multiset() == b.components@.to_multiset(),
    ensures
        a.spec_row_size() == b.spec_row_size(),
        chunk_capacity(a.spec_row_size()) == chunk_capacity(b.spec_row_size()),
{
    lemma_max_entry_size_permutation(a.components@, b.components@);
}

/// The chunk capacity the budget allows for rows of `row_size` bytes: the
/// budget divided by the row size, but never less than one row.
pub open spec fn chunk_capacity(row_size: nat) -> nat
    recommends
        row_size > 0,
{
    let q = (CHUNK_BUDGET_BYTES as nat) / row_size;
    if q < 1 {
        1
    } else {
        q
    }
}

/// The sizing rule of the builder (for any combination of registered
/// component sizes): at least one row always fits, and whenever a row fits
/// within the budget at all, the capacity keeps the largest column within
/// the budget. Only the forced minimum of one row, for components larger
/// than the whole budget, may exceed it.
pub proof fn lemma_capacity_within_budget(row_size: nat)
    requires
        row_size > 0,
    ensures
        chunk_capacity(row_size) >= 1,
        row_size <= CHUNK_BUDGET_BYTES ==> chunk_capacity(row_size) * row_size
            <= CHUNK_BUDGET_BYTES,
{
    let b = CHUNK_BUDGET_BYTES as int;
    let m = row_size as int;
    vstd::arithmetic::div_mod::lemma_fundamental_div_mod(b, m);
    vstd::arithmetic::div_mod::lemma_mod_division_less_than_divisor(b, m);
    if row_size <= CHUNK_BUDGET_BYTES {
        assert(b / m >= 1) by {
            assert(b == m * (b / m) + b % m);
            if b / m < 1 {
                assert(b / m <= 0);
                assert(m * (b / m) <= 0) by (nonlinear_arith)
                    requires
                        m > 0 && b / m <= 0,
                ;
                assert(b <= b % m);
                assert(false);
            }
        }
        assert(chunk_capacity(row_size) == b / m);
        assert((b / m) * m <= b) by {
            assert(b == m * (b / m) + b % m);
            assert(b % m >= 0);
        }
    }
}

/// Accumulates the component set and shared values of a chunk to be, then
/// computes its capacity from the registered footprints and constructs it
/// with pre-sized columns.
pub struct ChunkBuilder {
    /// The registered components: (type key, per-element byte size), in
    /// registration order, keys pairwise distinct.
    pub components: Vec<(u64, usize)>,
    /// The registered shared values, keys pairwise distinct.
    pub shared: Vec<SharedSlot>,
    /// Running maximum of the registered per-element sizes.
    pub max_size: usize,
}

impl ChunkBuilder {
    /// Keys of the registered components, in registration order.
    pub open spec fn component_keys(&self) -> Seq<u64> {
        self.components@.map_values(|c: (u64, usize)| c.0)
    }

    /// Keys of the registered shared values, in registration order.
    pub open spec fn shared_keys(&self) -> Seq<u64> {
        slot_keys(self.shared@)
    }

    /// No key registered twice, and the running maximum agrees with the
    /// registered sizes.
    pub open spec fn wf(&self) -> bool {
        &&& unique_keys(self.component_keys())
        &&& unique_keys(self.shared_keys())
        &&& self.max_size == max_entry_size(self.components@)
    }

    /// The per-row byte size the capacity is computed from: the largest
    /// registered component size, or the whole budget (so that exactly one
    /// row fits) when no component is registered.
    pub open spec fn spec_row_size(&self) -> nat {
        if self.components@.len() == 0 {
            CHUNK_BUDGET_BYTES as nat
        } else {
            max_entry_size(self.components@)
        }
    }

    /// A builder with nothing registered yet.
    pub fn new() -> (r: ChunkBuilder)
        ensures
            r.components@ == Seq::<(u64, usize)>::empty(),
            r.shared@ == Seq::<SharedSlot>::empty(),
            r.wf(),
    {
        ChunkBuilder { components: Vec::new(), shared: Vec::new(), max_size: 0 }
    }

    /// Register one component type with its per-element byte size. Each type
    /// may be registered once; registration order fixes column storage order
    /// but does not affect the computed capacity.
    pub fn register_component(&mut self, key: u64, size: usize)
        requires
            old(self).wf(),
            !old(self).component_keys().contains(key),
        ensures
            final(self).wf(),
            final(self).components@ == old(self).components@.push((key, size)),
            final(self).shared@ == old(self).shared@,
    {
        self.components.push((key, size));
        if size > self.max_size {
            self.max_size = size;
        }
        assert(final(self).components@.drop_last() =~= old(self).components@);
        assert(final(self).component_keys() =~= old(self).component_keys().push(key));
        assert(unique_keys(final(self).component_keys())) by {
            let ks = final(self).component_keys();
            let n = ks.len() - 1;
            assert(forall|j: int| 0 <= j < n ==> ks[j] == old(self).component_keys()[j]);
            assert forall|j: int| 0 <= j < n implies ks[j] != key by {
                if ks[j] == key {
                    assert(old(self).component_keys().contains(key));
                }
            }
        }
    }

    /// Register one shared-value type with the value every row of the chunk
    /// will share. Each type may be registered once.
    pub fn register_shared(&mut self, key: u64, value: u64)
        requires
            old(self).wf(),
            !old(self).shared_keys().contains(key),
        ensures
            final(self).wf(),
            final(self).components@ == old(self).components@,
            final(self).shared@ == old(self).shared@.push(SharedSlot { key, value }),
    {
        self.shared.push(SharedSlot { key, value });
        assert(final(self).shared_keys() =~= old(self).shared_keys().push(key));
        assert(unique_keys(final(self).shared_keys())) by {
            let ks = final(self).shared_keys();
            let n = ks.len() - 1;
            assert(forall|j: int| 0 <= j < n ==> ks[j] == old(self).shared_keys()[j]);
            assert forall|j: int| 0 <= j < n implies ks[j] != key by {
                if ks[j] == key {
                    assert(old(self).shared_keys().contains(key));
                }
            }
        }
    }

    /// Build the chunk: capacity is the budget divided by the largest
    /// registered component size (at least one row always fits), and the
    /// entity array and every column are pre-sized to that capacity. A
    /// component of zero size may be registered only beside one of nonzero
    /// size, since the capacity is a function of the maximum alone.
    pub fn build<D>(self) -> (r: Chunk<D>)
        requires
            self.wf(),
            self.components@.len() > 0 ==> max_entry_size(self.components@) > 0,
        ensures
            r.wf(),
            r.capacity == chunk_capacity(self.spec_row_size()),
            r.capacity >= 1,
            self.spec_row_size() <= CHUNK_BUDGET_BYTES ==> r.capacity * self.spec_row_size()
                <= CHUNK_BUDGET_BYTES,
            r.entities@.len() == 0,
            r.components@.len() == self.components@.len(),
            forall|i: int|
                0 <= i < self.components@.len() ==> {
                    &&& (#[trigger] r.components@[i]).key == self.components@[i].0
                    &&& r.components@[i].data@.len() == 0
                },
            r.borrows@.len() == self.components@.len(),
            forall|i: int| 0 <= i < r.borrows@.len() ==> (#[trigger] r.borrows@[i])@ == 0,
            r.shared@ == self.shared@,
            r.col_keys() == self.component_keys(),
    {
        let row_size = if self.components.len() == 0 {
            CHUNK_BUDGET_BYTES
        } else {
            self.max_size
        };
        proof {
            assert(row_size as nat == self.spec_row_size());
            lemma_capacity_within_budget(row_size as nat);
        }
        let q = CHUNK_BUDGET_BYTES / row_size;
        let capacity = if q < 1 {
            1
        } else {
            q
        };
        let mut columns: Vec<ColumnStore<D>> = Vec::new();
        let mut borrows: Vec<BorrowState> = Vec::new();
        let n = self.components.len();
        let mut i: usize = 0;
        while i < n
            invariant
                n == self.components@.len(),
                i <= n,
                columns@.len() == i,
                borrows@.len() == i,
                forall|j: int|
                    0 <= j < i ==> {
                        &&& (#[trigger] columns@[j]).key == self.components@[j].0
                        &&& columns@[j].data@.len() == 0
                    },
                forall|j: int| 0 <= j < i ==> (#[trigger] borrows@[j])@ == 0,
            decreases n - i,
        {
            let key = self.components[i].0;
            columns.push(ColumnStore::with_capacity(key, capacity));
            borrows.push(BorrowState::new());
            i = i + 1;
        }
        let chunk = Chunk {
            capacity,
            entities: Vec::with_capacity(capacity),
            components: columns,
            shared: self.shared,
            borrows,
        };
        assert(chunk.col_keys() =~= self.component_keys());
        chunk
    }
}

/// A well-formed chunk always passes validation: every column is exactly as
/// long as the entity array, after any sequence of appends and removals that
/// kept the chunk well-formed.
pub proof fn lemma_wf_chunk_is_aligned<D>(c: &Chunk<D>)
    requires
        c.wf(),
    ensures
        c.aligned(),
{
}

} // verus!
