use file_shards::principal::Principal;
use file_shards::utils::get_nested_child_assets;
use file_shards::asset::{AssetType, PostAsset, EditAsset, MoveAsset};
use file_shards::settings::Settings;
use file_shards::assets_store::AssetsStore;
use file_shards::api_error::ApiError;
use file_shards::chunk::Chunk;

fn owner(tag: u8) -> Principal {
    Principal::from_bytes(vec![tag, 1, 2, 3])
}

fn draft(name: &str, kind: AssetType, parent: Option<u32>) -> PostAsset {
    PostAsset {
        id: None,
        user_id: owner(9),
        parent_id: parent,
        asset_type: kind,
        name: name.to_string(),
        size: 0,
        extension: String::new(),
        mime_type: String::new(),
        chunks: vec![],
        settings: Settings::default(),
    }
}

#[test]
fn fresh_ids_strictly_increase() {
    let mut store = AssetsStore::new();
    let a = owner(1);
    let first = store.add_asset(&a, draft("one", AssetType::Folder, None), 10);
    let second = store.add_asset(&a, draft("two", AssetType::Folder, None), 11);
    assert_eq!(first.id, 1);
    assert_eq!(second.id, 2);
    // ids are not reused after a delete
    let deleted = store.delete_assets(&a, vec![2]).unwrap();
    assert_eq!(deleted, vec![2]);
    let third = store.add_asset(&a, draft("three", AssetType::Folder, None), 12);
    assert_eq!(third.id, 3);
}

#[test]
fn unresolvable_update_becomes_create() {
    let mut store = AssetsStore::new();
    let a = owner(1);
    let mut d = draft("ghost", AssetType::Folder, None);
    d.id = Some(77);
    let created = store.add_asset(&a, d, 5);
    // the unknown id falls through to creation under a fresh id
    assert_eq!(created.id, 1);
    assert_eq!(created.created_at, 5);
    assert!(!created.is_favorite);
}

#[test]
fn update_refreshes_size_and_timestamp() {
    let mut store = AssetsStore::new();
    let a = owner(1);
    let made = store.add_asset(&a, draft("file", AssetType::File, None), 5);
    let mut d = draft("ignored", AssetType::File, None);
    d.id = Some(made.id);
    d.size = 321;
    let updated = store.add_asset(&a, d, 9);
    assert_eq!(updated.id, made.id);
    assert_eq!(updated.size, 321);
    assert_eq!(updated.updated_at, 9);
    assert_eq!(updated.created_at, 5);
    // the name of the stored asset is untouched by an update
    assert_eq!(updated.name, "file");
}

#[test]
fn delete_fails_unless_subset() {
    let mut store = AssetsStore::new();
    let a = owner(1);
    let made = store.add_asset(&a, draft("one", AssetType::Folder, None), 1);
    match store.delete_assets(&a, vec![made.id, 999]) {
        Err(ApiError::NotFound(m)) => assert_eq!(m, "ASSET_NOT_FOUND"),
        _ => panic!("expected NotFound"),
    }
    // nothing was deleted by the failed batch
    assert_eq!(store.get_user_assets(&a).len(), 1);
    let out = store.delete_assets(&a, vec![made.id]).unwrap();
    assert_eq!(out, vec![made.id]);
    assert_eq!(store.get_user_assets(&a).len(), 0);
}

#[test]
fn delete_leaves_other_assets_alone() {
    let mut store = AssetsStore::new();
    let a = owner(1);
    let one = store.add_asset(&a, draft("one", AssetType::Folder, None), 1);
    let two = store.add_asset(&a, draft("two", AssetType::File, None), 2);
    let three = store.add_asset(&a, draft("three", AssetType::File, None), 3);
    store.delete_assets(&a, vec![two.id]).unwrap();
    let left = store.get_user_assets(&a);
    let ids: Vec<u32> = left.iter().map(|x| x.id).collect();
    assert_eq!(ids, vec![one.id, three.id]);
}

#[test]
fn edit_forces_folder_extension_empty() {
    let mut store = AssetsStore::new();
    let a = owner(1);
    let folder = store.add_asset(&a, draft("dir", AssetType::Folder, None), 1);
    let patched = store
        .edit_asset(
            &a,
            EditAsset {
                id: folder.id,
                parent_id: None,
                is_favorite: None,
                name: None,
                extension: Some("png".to_string()),
            },
            2,
        )
        .unwrap();
    assert_eq!(patched.extension, "");
}

#[test]
fn edit_sets_file_extension() {
    let mut store = AssetsStore::new();
    let a = owner(1);
    let file = store.add_asset(&a, draft("pic", AssetType::File, None), 1);
    let patched = store
        .edit_asset(
            &a,
            EditAsset {
                id: file.id,
                parent_id: None,
                is_favorite: Some(true),
                name: Some("pic2".to_string()),
                extension: Some("png".to_string()),
            },
            2,
        )
        .unwrap();
    assert_eq!(patched.extension, "png");
    assert_eq!(patched.name, "pic2");
    assert!(patched.is_favorite);
    assert_eq!(patched.updated_at, 2);
}

#[test]
fn edit_unknown_id_fails_not_found() {
    let mut store = AssetsStore::new();
    let a = owner(1);
    match store.edit_asset(
        &a,
        EditAsset { id: 4, parent_id: None, is_favorite: None, name: None, extension: None },
        2,
    ) {
        Err(ApiError::NotFound(m)) => assert_eq!(m, "ASSET_NOT_FOUND"),
        _ => panic!("expected NotFound"),
    }
}

#[test]
fn move_reparents_in_order() {
    let mut store = AssetsStore::new();
    let a = owner(1);
    let dir = store.add_asset(&a, draft("dir", AssetType::Folder, None), 1);
    let f1 = store.add_asset(&a, draft("f1", AssetType::File, None), 2);
    let f2 = store.add_asset(&a, draft("f2", AssetType::File, None), 3);
    let moved = store
        .move_assets(
            &a,
            vec![
                MoveAsset { id: f1.id, parent_id: Some(dir.id) },
                MoveAsset { id: f2.id, parent_id: Some(dir.id) },
            ],
            7,
        )
        .unwrap();
    assert_eq!(moved.len(), 2);
    assert_eq!(moved[0].id, f1.id);
    assert_eq!(moved[0].parent_id, Some(dir.id));
    assert_eq!(moved[1].parent_id, Some(dir.id));
    assert_eq!(moved[0].updated_at, 7);
}

#[test]
fn move_is_all_or_nothing() {
    let mut store = AssetsStore::new();
    let a = owner(1);
    let f1 = store.add_asset(&a, draft("f1", AssetType::File, None), 1);
    match store.move_assets(
        &a,
        vec![
            MoveAsset { id: f1.id, parent_id: Some(42) },
            MoveAsset { id: 999, parent_id: None },
        ],
        7,
    ) {
        Err(ApiError::NotFound(m)) => assert_eq!(m, "ASSET_NOT_FOUND"),
        _ => panic!("expected NotFound"),
    }
    // the batch failed, so even its valid entry was not applied
    let listed = store.get_user_assets(&a);
    assert_eq!(listed[0].parent_id, None);
}

#[test]
fn listing_is_scoped_to_the_owner() {
    let mut store = AssetsStore::new();
    let a = owner(1);
    let b = owner(2);
    store.add_asset(&a, draft("mine", AssetType::Folder, None), 1);
    let of_b = store.get_user_assets(&b);
    assert!(of_b.is_empty());
    // owner b can neither edit nor delete a's asset
    assert!(store
        .edit_asset(
            &b,
            EditAsset { id: 1, parent_id: None, is_favorite: None, name: None, extension: None },
            2,
        )
        .is_err());
    assert!(store.delete_assets(&b, vec![1]).is_err());
    // a's view is untouched
    assert_eq!(store.get_user_assets(&a).len(), 1);
}

#[test]
fn snapshot_restore_round_trip_assets() {
    let mut store = AssetsStore::new();
    let a = owner(1);
    let dir = store.add_asset(&a, draft("dir", AssetType::Folder, None), 1);
    let mut with_chunks = draft("data", AssetType::File, Some(dir.id));
    with_chunks.chunks = vec![Chunk { id: 4, index: 0, canister: owner(7) }];
    with_chunks.size = 12;
    store.add_asset(&a, with_chunks, 2);

    let snap = store.snapshot();
    let restored = AssetsStore::restore(snap);

    let before = store.get_all_assets();
    let after = restored.get_all_assets();
    assert_eq!(before.len(), after.len());
    for (x, y) in before.iter().zip(after.iter()) {
        assert_eq!(x.id, y.id);
        assert_eq!(x.user_id.bytes, y.user_id.bytes);
        assert_eq!(x.parent_id, y.parent_id);
        assert_eq!(x.name, y.name);
        assert_eq!(x.size, y.size);
        assert_eq!(x.created_at, y.created_at);
        assert_eq!(x.updated_at, y.updated_at);
        assert_eq!(x.chunks.len(), y.chunks.len());
        for (c, d) in x.chunks.iter().zip(y.chunks.iter()) {
            assert_eq!(c.id, d.id);
            assert_eq!(c.index, d.index);
            assert_eq!(c.canister.bytes, d.canister.bytes);
        }
    }
    // the ownership index survives too
    assert_eq!(restored.get_user_assets(&a).len(), 2);
    assert_eq!(restored.asset_id, store.asset_id);
}

#[test]
fn nested_children_follow_folders_only() {
    let mut store = AssetsStore::new();
    let a = owner(1);
    let root = store.add_asset(&a, draft("root", AssetType::Folder, None), 1);
    let sub = store.add_asset(&a, draft("sub", AssetType::Folder, Some(root.id)), 2);
    let in_sub = store.add_asset(&a, draft("deep", AssetType::File, Some(sub.id)), 3);
    let stray_parent = store.add_asset(&a, draft("file", AssetType::File, Some(root.id)), 4);
    // a child hanging under a file is not followed
    store.add_asset(&a, draft("under_file", AssetType::File, Some(stray_parent.id)), 5);
    let assets = store.get_user_assets(&a);
    let mut found = get_nested_child_assets(&assets, &root.id);
    found.sort();
    assert_eq!(found, vec![sub.id, in_sub.id, stray_parent.id]);
}
