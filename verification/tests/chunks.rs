use file_shards::principal::Principal;
use file_shards::chunk::PostChunk;
use file_shards::chunks_store::ChunksStore;
use file_shards::api_error::ApiError;

fn owner(tag: u8) -> Principal {
    Principal::from_bytes(vec![tag, 5, 6])
}

#[test]
fn put_then_get_round_trips_bytes() {
    let a = owner(1);
    let shard_addr = owner(200);
    let mut shard = ChunksStore::init(Some(a.duplicate()));
    let stored = shard
        .add_chunk(&a, PostChunk { blob: vec![9, 8, 7], index: 0 }, &shard_addr)
        .unwrap();
    assert_eq!(stored.id, 1);
    assert_eq!(stored.index, 0);
    assert_eq!(stored.canister.bytes, shard_addr.bytes);
    let bytes = shard.get_chunks_by_chunk_id(stored.id, &a).unwrap();
    assert_eq!(bytes, vec![9, 8, 7]);
}

#[test]
fn only_the_shard_owner_reads_and_writes() {
    let a = owner(1);
    let b = owner(2);
    let shard_addr = owner(200);
    let mut shard = ChunksStore::init(Some(a.duplicate()));
    let stored = shard
        .add_chunk(&a, PostChunk { blob: vec![1], index: 0 }, &shard_addr)
        .unwrap();
    match shard.add_chunk(&b, PostChunk { blob: vec![2], index: 1 }, &shard_addr) {
        Err(ApiError::Unauthorized(m)) => assert_eq!(m, "UNAUTHORIZED"),
        _ => panic!("expected Unauthorized"),
    }
    match shard.get_chunks_by_chunk_id(stored.id, &b) {
        Err(ApiError::Unauthorized(m)) => assert_eq!(m, "UNAUTHORIZED"),
        _ => panic!("expected Unauthorized"),
    }
    match shard.delete_chunks(&b, vec![stored.id]) {
        Err(ApiError::Unauthorized(m)) => assert_eq!(m, "UNAUTHORIZED"),
        _ => panic!("expected Unauthorized"),
    }
    // a's chunk is still there
    assert!(shard.get_chunks_by_chunk_id(stored.id, &a).is_ok());
}

#[test]
fn missing_chunk_fails_not_found() {
    let a = owner(1);
    let shard = ChunksStore::init(Some(a.duplicate()));
    match shard.get_chunks_by_chunk_id(5, &a) {
        Err(ApiError::NotFound(m)) => assert_eq!(m, "CHUNKS_NOT_FOUND"),
        _ => panic!("expected NotFound"),
    }
}

#[test]
fn delete_skips_absent_ids_silently() {
    let a = owner(1);
    let shard_addr = owner(200);
    let mut shard = ChunksStore::init(Some(a.duplicate()));
    let c1 = shard.add_chunk(&a, PostChunk { blob: vec![1], index: 0 }, &shard_addr).unwrap();
    let c2 = shard.add_chunk(&a, PostChunk { blob: vec![2], index: 1 }, &shard_addr).unwrap();
    let removed = shard.delete_chunks(&a, vec![c1.id, 77, c2.id]).unwrap();
    assert_eq!(removed, vec![c1.id, c2.id]);
    assert!(shard.get_chunks_by_chunk_id(c1.id, &a).is_err());
    assert!(shard.get_chunks_by_chunk_id(c2.id, &a).is_err());
}

#[test]
fn trusted_delete_takes_the_owner_explicitly() {
    let a = owner(1);
    let shard_addr = owner(200);
    let mut shard = ChunksStore::init(Some(a.duplicate()));
    let c1 = shard.add_chunk(&a, PostChunk { blob: vec![3], index: 0 }, &shard_addr).unwrap();
    let removed = shard.delete_chunks_intercanister_call(&a, vec![c1.id]).unwrap();
    assert_eq!(removed, vec![c1.id]);
    assert!(shard.get_chunks_by_chunk_id(c1.id, &a).is_err());
}

#[test]
fn chunk_ids_count_up_per_shard() {
    let a = owner(1);
    let shard_addr = owner(200);
    let mut shard = ChunksStore::init(Some(a.duplicate()));
    for expect in 1..=3u32 {
        let c = shard
            .add_chunk(&a, PostChunk { blob: vec![0], index: expect }, &shard_addr)
            .unwrap();
        assert_eq!(c.id, expect);
    }
}

#[test]
fn snapshot_restore_round_trip_chunks() {
    let a = owner(1);
    let shard_addr = owner(200);
    let mut shard = ChunksStore::init(Some(a.duplicate()));
    let c1 = shard.add_chunk(&a, PostChunk { blob: vec![1, 2], index: 0 }, &shard_addr).unwrap();
    let snap = shard.snapshot();
    let restored = ChunksStore::restore(snap);
    assert_eq!(restored.canister_owner.bytes, shard.canister_owner.bytes);
    assert_eq!(restored.chunk_id, shard.chunk_id);
    assert_eq!(restored.get_chunks_by_chunk_id(c1.id, &a).unwrap(), vec![1, 2]);
    let state = restored.get_state();
    assert_eq!(state.chunk_id, 1);
    assert_eq!(state.chunks.len(), 1);
    assert_eq!(state.chunks[0].0, c1.id);
    assert_eq!(state.chunks[0].1.bytes, a.bytes);
}
