use ecs_storage::archetype::Archetype;
use ecs_storage::storage::SharedSlot;
use ecs_storage::Entity;

#[test]
fn signature_membership() {
    let a: Archetype<u64> = Archetype::new(vec![1, 2], vec![9]);
    assert!(a.has_component(1));
    assert!(a.has_component(2));
    assert!(!a.has_component(3));
    assert!(a.has_shared(9));
    assert!(!a.has_shared(1));
    assert_eq!(a.chunks().len(), 0);
    assert!(a.chunk(0).is_none());
}

#[test]
fn get_or_create_allocates_then_reuses() {
    let mut a: Archetype<u64> = Archetype::new(vec![1], vec![]);
    let shared_req: Vec<SharedSlot> = vec![];
    let comps_req: Vec<(u64, usize)> = vec![(1, 64)];

    let id = a.get_or_create_chunk(&shared_req, &comps_req);
    assert_eq!(id, 0);
    assert_eq!(a.chunks().len(), 1);
    assert_eq!(a.chunk(0).unwrap().capacity, 256);

    // A chunk with spare room is reused, first fit.
    let id2 = a.get_or_create_chunk(&shared_req, &comps_req);
    assert_eq!(id2, 0);
    assert_eq!(a.chunks().len(), 1);
}

#[test]
fn try_chunk_mut_bounds_checks() {
    let mut a: Archetype<u64> = Archetype::new(vec![1], vec![]);
    assert!(a.try_chunk_mut(0).is_none());
    let id = a.get_or_create_chunk(&vec![], &vec![(1, 64)]);
    let c = a.try_chunk_mut(id).unwrap();
    c.append(Entity { id: 7 }, vec![70]);
    assert_eq!(a.chunks()[0].len(), 1);
    assert!(a.try_chunk_mut(5).is_none());
}

#[test]
fn two_hundred_fifty_seven_rows_fill_two_chunks() {
    // One 64-byte component in a 16384-byte budget: 256 rows per chunk, so
    // 257 inserted rows land in exactly two chunks, the first full.
    let mut a: Archetype<u64> = Archetype::new(vec![1], vec![]);
    let shared_req: Vec<SharedSlot> = vec![];
    let comps_req: Vec<(u64, usize)> = vec![(1, 64)];

    for i in 0..257u64 {
        let id = a.get_or_create_chunk(&shared_req, &comps_req);
        let c = a.chunk_mut(id);
        c.append(Entity { id: i }, vec![i]);
    }

    assert_eq!(a.chunks().len(), 2);
    assert_eq!(a.chunks()[0].len(), 256);
    assert!(a.chunks()[0].is_full());
    assert_eq!(a.chunks()[1].len(), 1);
    assert!(a.chunks()[1].validate());
}

#[test]
fn mismatched_shared_value_forces_a_new_chunk() {
    // Components {A=1, B=2}, shared type S=9. A chunk holding S=5 with spare
    // capacity must not serve a request for S=7.
    let mut a: Archetype<u64> = Archetype::new(vec![1, 2], vec![9]);
    let comps_req: Vec<(u64, usize)> = vec![(1, 16), (2, 32)];
    let with_5 = vec![SharedSlot { key: 9, value: 5 }];
    let with_7 = vec![SharedSlot { key: 9, value: 7 }];

    let id5 = a.get_or_create_chunk(&with_5, &comps_req);
    assert_eq!(id5, 0);
    let c = a.chunk_mut(id5);
    c.append(Entity { id: 1 }, vec![10, 20]);
    assert!(!a.chunks()[0].is_full());

    let id7 = a.get_or_create_chunk(&with_7, &comps_req);
    assert_eq!(id7, 1);
    assert_eq!(a.chunks().len(), 2);
    assert_eq!(a.chunks()[1].shared_component(9), Some(7));

    // The matching chunk is still found for its own shared value.
    let id5_again = a.get_or_create_chunk(&with_5, &comps_req);
    assert_eq!(id5_again, 0);
    assert_eq!(a.chunks().len(), 2);
}

#[test]
fn full_chunk_is_skipped_for_matching_one() {
    // 8192-byte rows: capacity 2. Fill chunk 0, then the next request must
    // allocate chunk 1 instead of overflowing chunk 0.
    let mut a: Archetype<u64> = Archetype::new(vec![4], vec![]);
    let shared_req: Vec<SharedSlot> = vec![];
    let comps_req: Vec<(u64, usize)> = vec![(4, 8192)];

    for i in 0..3u64 {
        let id = a.get_or_create_chunk(&shared_req, &comps_req);
        let c = a.chunk_mut(id);
        assert!(!c.is_full());
        c.append(Entity { id: i }, vec![i]);
    }
    assert_eq!(a.chunks().len(), 2);
    assert_eq!(a.chunks()[0].len(), 2);
    assert_eq!(a.chunks()[1].len(), 1);
}
