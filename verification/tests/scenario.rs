use file_shards::principal::Principal;
use file_shards::asset::{AssetType, PostAsset};
use file_shards::settings::Settings;
use file_shards::assets_store::AssetsStore;
use file_shards::chunks_store::ChunksStore;
use file_shards::users_store::UsersStore;
use file_shards::chunk::{Chunk, PostChunk};
use file_shards::protocol::add_asset_with_cleanup;

fn draft(name: &str, kind: AssetType, parent: Option<u32>, me: &Principal) -> PostAsset {
    PostAsset {
        id: None,
        user_id: me.duplicate(),
        parent_id: parent,
        asset_type: kind,
        name: name.to_string(),
        size: 0,
        extension: String::new(),
        mime_type: String::new(),
        chunks: vec![],
        settings: Settings::default(),
    }
}

#[test]
fn register_upload_and_shallow_delete() {
    let a = Principal::from_bytes(vec![10, 11]);
    let shard_address = Principal::from_bytes(vec![0, 0, 0, 0, 1, 1]);

    // owner A registers and receives one shard address
    let mut users = UsersStore::default();
    users.create_user(&a, Some("a".to_string()), 1).unwrap();
    let mut shard = ChunksStore::init(Some(a.duplicate()));
    let record = users.attach_canister(&a, shard_address.duplicate()).unwrap();
    assert_eq!(record.canisters.len(), 1);
    assert_eq!(record.canisters[0].bytes, shard_address.bytes);

    // A creates a root folder: asset id 1, a folder
    let mut assets = AssetsStore::new();
    let root = assets.add_asset(&a, draft("root", AssetType::Folder, None, &a), 2);
    assert_eq!(root.id, 1);
    assert!(matches!(root.asset_type, AssetType::Folder));

    // A uploads a file under the folder, its content stored in the shard
    let stored = shard
        .add_chunk(&a, PostChunk { blob: vec![1, 2, 3], index: 0 }, &shard_address)
        .unwrap();
    let mut file = draft("a.txt", AssetType::File, Some(root.id), &a);
    file.chunks = vec![Chunk {
        id: stored.id,
        index: stored.index,
        canister: stored.canister.duplicate(),
    }];
    file.size = 3;
    let file_asset = assets.add_asset(&a, file, 3);
    assert_eq!(file_asset.id, 2);
    assert_eq!(file_asset.chunks[0].canister.bytes, shard_address.bytes);

    // deleting the folder is shallow: the file stays, orphaned
    let deleted = assets.delete_assets(&a, vec![root.id]).unwrap();
    assert_eq!(deleted, vec![root.id]);
    let left = assets.get_user_assets(&a);
    assert_eq!(left.len(), 1);
    assert_eq!(left[0].id, file_asset.id);
    assert_eq!(left[0].parent_id, Some(root.id));
}

#[test]
fn reupload_deletes_the_old_chunks_first() {
    let a = Principal::from_bytes(vec![10, 11]);
    let shard_address = Principal::from_bytes(vec![0, 0, 0, 0, 1, 1]);
    let mut assets = AssetsStore::new();
    let mut shard = ChunksStore::init(Some(a.duplicate()));

    // first upload: two chunks and a file referencing them
    let c1 = shard.add_chunk(&a, PostChunk { blob: vec![1], index: 0 }, &shard_address).unwrap();
    let c2 = shard.add_chunk(&a, PostChunk { blob: vec![2], index: 1 }, &shard_address).unwrap();
    let mut first = draft("a.bin", AssetType::File, None, &a);
    first.chunks = vec![
        Chunk { id: c1.id, index: 0, canister: shard_address.duplicate() },
        Chunk { id: c2.id, index: 1, canister: shard_address.duplicate() },
    ];
    first.size = 2;
    let made = add_asset_with_cleanup(&mut assets, &mut shard, &a, first, 1);

    // second upload for the same asset id: new content, bigger size
    let c3 = shard.add_chunk(&a, PostChunk { blob: vec![3, 4], index: 0 }, &shard_address).unwrap();
    let mut second = draft("a.bin", AssetType::File, None, &a);
    second.id = Some(made.id);
    second.chunks = vec![Chunk { id: c3.id, index: 0, canister: shard_address.duplicate() }];
    second.size = 2;
    let updated = add_asset_with_cleanup(&mut assets, &mut shard, &a, second, 9);
    assert_eq!(updated.id, made.id);
    assert_eq!(updated.updated_at, 9);

    // the previously referenced chunks are no longer retrievable
    assert!(shard.get_chunks_by_chunk_id(c1.id, &a).is_err());
    assert!(shard.get_chunks_by_chunk_id(c2.id, &a).is_err());
    // the new content is untouched
    assert_eq!(shard.get_chunks_by_chunk_id(c3.id, &a).unwrap(), vec![3, 4]);
}

fn draft_for(tag: u8, name: &str) -> (Principal, PostAsset) {
    let p = Principal::from_bytes(vec![tag]);
    let d = draft(name, AssetType::File, None, &p);
    (p, d)
}

#[test]
fn owners_never_see_each_other() {
    let mut assets = AssetsStore::new();
    let (a, da) = draft_for(1, "a");
    let (b, db) = draft_for(2, "b");
    let of_a = assets.add_asset(&a, da, 1);
    let of_b = assets.add_asset(&b, db, 2);
    let list_a = assets.get_user_assets(&a);
    let list_b = assets.get_user_assets(&b);
    assert_eq!(list_a.len(), 1);
    assert_eq!(list_b.len(), 1);
    assert_eq!(list_a[0].id, of_a.id);
    assert_eq!(list_b[0].id, of_b.id);
    // chunks of one owner's shard are closed to the other
    let shard_address = Principal::from_bytes(vec![0, 1]);
    let mut shard = ChunksStore::init(Some(a.duplicate()));
    let c = shard.add_chunk(&a, PostChunk { blob: vec![5], index: 0 }, &shard_address).unwrap();
    assert!(shard.get_chunks_by_chunk_id(c.id, &b).is_err());
}
