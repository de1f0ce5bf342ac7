use ecs_storage::borrow::BorrowState;
use ecs_storage::storage::{Chunk, ChunkBuilder, ColumnStore};
use ecs_storage::Entity;

fn one_component_chunk(key: u64, size: usize) -> Chunk<u64> {
    let mut b = ChunkBuilder::new();
    b.register_component(key, size);
    b.build()
}

#[test]
fn borrow_counter_protocol() {
    let mut s = BorrowState::new();
    assert_eq!(s.current(), 0);

    // N concurrent read holds all succeed.
    assert!(s.acquire_read());
    assert!(s.acquire_read());
    assert!(s.acquire_read());
    assert_eq!(s.current(), 3);

    // A write is denied while any reader is live.
    assert!(!s.acquire_write());
    s.release_read();
    s.release_read();
    assert!(!s.acquire_write());

    // After every holder releases, the counter is exactly zero again.
    s.release_read();
    assert_eq!(s.current(), 0);

    // The writer excludes readers and further writers.
    assert!(s.acquire_write());
    assert_eq!(s.current(), -1);
    assert!(!s.acquire_read());
    assert!(!s.acquire_write());
    s.release_write();
    assert_eq!(s.current(), 0);
    assert!(s.acquire_read());
    s.release_read();
    assert_eq!(s.current(), 0);
}

#[test]
fn column_store_ops() {
    let mut col: ColumnStore<u64> = ColumnStore::with_capacity(4, 8);
    assert_eq!(col.len(), 0);
    col.push(10);
    col.push(20);
    col.push(30);
    assert_eq!(col.len(), 3);
    assert_eq!(*col.value_at(1), 20);
    col.set_value(1, 21);
    assert_eq!(*col.value_at(1), 21);
    // swap-remove: the last value moves into the freed slot
    col.remove(0);
    assert_eq!(col.len(), 2);
    assert_eq!(*col.value_at(0), 30);
    assert_eq!(*col.value_at(1), 21);
}

#[test]
fn capacity_one_64_byte_component() {
    // 16384-byte budget over 64-byte rows: 256 rows.
    let c = one_component_chunk(1, 64);
    assert_eq!(c.capacity, 256);
    assert!(!c.is_full());
}

#[test]
fn capacity_is_max_of_sizes_in_any_order() {
    let mut b = ChunkBuilder::new();
    b.register_component(1, 8);
    b.register_component(2, 64);
    let c: Chunk<u64> = b.build();
    assert_eq!(c.capacity, 256);

    let mut b2 = ChunkBuilder::new();
    b2.register_component(2, 64);
    b2.register_component(1, 8);
    let c2: Chunk<u64> = b2.build();
    assert_eq!(c2.capacity, 256);
}

#[test]
fn capacity_never_below_one_row() {
    // A component larger than the whole budget still gets one row.
    let c = one_component_chunk(1, 100_000);
    assert_eq!(c.capacity, 1);
}

#[test]
fn capacity_without_components_is_one() {
    // No component registered: the row size defaults to the whole budget.
    let b = ChunkBuilder::new();
    let c: Chunk<u64> = b.build();
    assert_eq!(c.capacity, 1);
}

#[test]
fn capacity_times_row_size_within_budget() {
    for size in [1usize, 3, 8, 64, 100, 1000, 16384] {
        let c = one_component_chunk(1, size);
        assert!(c.capacity >= 1);
        assert!(c.capacity * size <= 16 * 1024);
    }
}

#[test]
fn validate_after_each_append_and_remove() {
    let mut c = one_component_chunk(1, 64);
    assert!(c.validate());
    for i in 0..10u64 {
        c.append(Entity { id: i }, vec![i * 100]);
        assert!(c.validate());
    }
    assert_eq!(c.len(), 10);
    while c.len() > 0 {
        let row = c.len() / 2;
        c.remove(row);
        assert!(c.validate());
    }
    assert!(c.validate());
}

#[test]
fn remove_reports_relocated_entity() {
    let mut c = one_component_chunk(1, 8);
    c.append(Entity { id: 100 }, vec![1]);
    c.append(Entity { id: 200 }, vec![2]);
    c.append(Entity { id: 300 }, vec![3]);

    // Removing a row that is not the last: the last entity moves into it.
    let moved = c.remove(0);
    assert_eq!(moved, Some(Entity { id: 300 }));
    assert_eq!(c.entities()[0], Entity { id: 300 });
    assert_eq!(c.entities()[1], Entity { id: 200 });
    assert_eq!(c.len(), 2);

    // Removing the last row: nothing moves.
    let moved = c.remove(1);
    assert_eq!(moved, None);
    assert_eq!(c.len(), 1);
    assert_eq!(c.entities()[0], Entity { id: 300 });
}

#[test]
fn remove_keeps_columns_in_lock_step() {
    let mut b = ChunkBuilder::new();
    b.register_component(1, 8);
    b.register_component(2, 8);
    let mut c: Chunk<u64> = b.build();
    c.append(Entity { id: 10 }, vec![11, 12]);
    c.append(Entity { id: 20 }, vec![21, 22]);
    c.append(Entity { id: 30 }, vec![31, 32]);

    let moved = c.remove(1);
    assert_eq!(moved, Some(Entity { id: 30 }));
    assert!(c.validate());

    assert!(c.borrow(1));
    assert!(c.borrow(2));
    assert_eq!(c.entity_data(1).unwrap().as_slice(), &[11, 31]);
    assert_eq!(c.entity_data(2).unwrap().as_slice(), &[12, 32]);
    c.release(1);
    c.release(2);
}

#[test]
fn try_remove_bounds_checks() {
    let mut c = one_component_chunk(1, 8);
    c.append(Entity { id: 1 }, vec![5]);
    assert_eq!(c.try_remove(3), None);
    assert_eq!(c.len(), 1);
    assert_eq!(c.try_remove(0), Some(None));
    assert_eq!(c.len(), 0);
    assert_eq!(c.try_remove(0), None);
}

#[test]
fn is_full_iff_len_equals_capacity() {
    // 8192-byte rows in a 16384-byte budget: capacity 2.
    let mut c = one_component_chunk(1, 8192);
    assert_eq!(c.capacity, 2);
    assert!(!c.is_full());
    c.append(Entity { id: 1 }, vec![1]);
    assert!(!c.is_full());
    c.append(Entity { id: 2 }, vec![2]);
    assert!(c.is_full());
    assert_eq!(c.len(), 2);
    c.remove(1);
    assert!(!c.is_full());
}

#[test]
fn chunk_borrow_gates_column_access() {
    let mut c = one_component_chunk(7, 8);
    c.append(Entity { id: 1 }, vec![10]);
    c.append(Entity { id: 2 }, vec![20]);

    // Shared reads coexist; the writer is shut out while they live.
    assert!(c.borrow(7));
    assert!(c.borrow(7));
    assert!(!c.borrow_mut(7));
    assert_eq!(c.entity_data(7).unwrap().as_slice(), &[10, 20]);
    c.release(7);
    c.release(7);

    // The writer excludes readers; writes land in the column.
    assert!(c.borrow_mut(7));
    assert!(!c.borrow(7));
    assert!(c.set_entity_datum(7, 1, 25));
    c.release_mut(7);

    assert!(c.borrow(7));
    assert_eq!(c.entity_data(7).unwrap().as_slice(), &[10, 25]);
    c.release(7);
}

#[test]
fn absent_component_type_is_reported() {
    let mut c = one_component_chunk(7, 8);
    c.append(Entity { id: 1 }, vec![10]);
    assert!(c.borrow(7));
    assert!(c.entity_data(99).is_none());
    c.release(7);
    assert!(!c.set_entity_datum(99, 0, 5));
}

#[test]
fn validate_detects_an_imbalanced_chunk() {
    // Corrupt a chunk behind the API's back: shorten one column so it no
    // longer matches the entity array. Validation must fail loudly.
    let mut c = one_component_chunk(1, 8);
    c.append(Entity { id: 1 }, vec![5]);
    assert!(c.validate());
    c.components[0].data.pop();
    assert!(!c.validate());
}

#[test]
fn shared_values_are_stored_once_per_chunk() {
    let mut b = ChunkBuilder::new();
    b.register_component(1, 8);
    b.register_shared(9, 5);
    let c: Chunk<u64> = b.build();
    assert_eq!(c.shared_component(9), Some(5));
    assert_eq!(c.shared_component(8), None);
}
