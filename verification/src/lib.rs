//! Columnar, chunked storage for a data-oriented entity/component system.
//!
//! Records that share one set of component types are packed into fixed-capacity
//! blocks ("chunks"), one dense column per component type, grouped by layout
//! ("archetypes"). Every column may be read by many callers at once or written
//! by exactly one, never both; a per-column counter enforces that rule at run
//! time. Removal keeps the columns dense by swapping the last row into the
//! freed slot and reports which entity moved.

use vstd::prelude::*;

pub mod archetype;
pub mod borrow;
pub mod storage;

verus! {

/// Identifier of a logical entity. Its allocation and generation belong to the
/// surrounding world; this crate only stores the value per row and hands it
/// back after structural changes.
#[derive(Clone, Copy, PartialEq, Eq, Structural, Hash, Debug)]
pub struct Entity {
    pub id: u64,
}

/// Position of a row inside a chunk's dense arrays. Not stable across
/// removals: a swap-remove relocates the last row into the freed slot.
pub type ComponentID = usize;

/// Position of a chunk inside its archetype's chunk list.
pub type ChunkID = usize;

/// Holds when no key occurs twice in `keys`.
pub open spec fn unique_keys(keys: Seq<u64>) -> bool {
    forall|i: int, j: int|
        0 <= i < keys.len() && 0 <= j < keys.len() && i != j ==> keys[i] != keys[j]
}

/// Holds when `a` and `b` contain exactly the same keys, in any order.
pub open spec fn same_key_set(a: Seq<u64>, b: Seq<u64>) -> bool {
    forall|k: u64| a.contains(k) <==> b.contains(k)
}

} // verus!
