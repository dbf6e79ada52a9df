use file_shards::principal::Principal;
use file_shards::users_store::UsersStore;
use file_shards::api_error::ApiError;

fn owner(tag: u8) -> Principal {
    Principal::from_bytes(vec![tag, 9])
}

#[test]
fn registration_is_exactly_once() {
    let mut users = UsersStore::default();
    let a = owner(1);
    let made = users.create_user(&a, Some("alice".to_string()), 5).unwrap();
    assert_eq!(made.user_id.bytes, a.bytes);
    assert_eq!(made.username.as_deref(), Some("alice"));
    assert_eq!(made.created_at, 5);
    assert!(made.canisters.is_empty());
    match users.create_user(&a, None, 6) {
        Err(ApiError::AlreadyExists(m)) => assert_eq!(m, "USER_EXISTS"),
        _ => panic!("expected AlreadyExists"),
    }
}

#[test]
fn unknown_user_fails_not_found() {
    let users = UsersStore::default();
    match users.get_user(&owner(1)) {
        Err(ApiError::NotFound(m)) => assert_eq!(m, "USER_NOT_FOUND"),
        _ => panic!("expected NotFound"),
    }
}

#[test]
fn attach_canister_appends_the_shard_address() {
    let mut users = UsersStore::default();
    let a = owner(1);
    users.create_user(&a, None, 5).unwrap();
    let shard = owner(200);
    let updated = users.attach_canister(&a, shard.duplicate()).unwrap();
    assert_eq!(updated.canisters.len(), 1);
    assert_eq!(updated.canisters[0].bytes, shard.bytes);
    let fetched = users.get_user(&a).unwrap();
    assert_eq!(fetched.canisters.len(), 1);
    // attaching to an unknown owner changes nothing
    assert!(users.attach_canister(&owner(2), owner(201)).is_none());
}

#[test]
fn admin_views_list_every_owner() {
    let mut users = UsersStore::default();
    let a = owner(1);
    let b = owner(2);
    users.create_user(&a, None, 1).unwrap();
    users.create_user(&b, None, 2).unwrap();
    users.attach_canister(&a, owner(200));
    let all = users.get_all_users();
    assert_eq!(all.len(), 2);
    let canisters = users.get_all_chunk_canisters();
    assert_eq!(canisters.len(), 2);
    assert_eq!(canisters[0].0.bytes, a.bytes);
    assert_eq!(canisters[0].1.len(), 1);
    assert_eq!(canisters[1].1.len(), 0);
}

#[test]
fn snapshot_restore_round_trip_users() {
    let mut users = UsersStore::default();
    let a = owner(1);
    users.create_user(&a, Some("alice".to_string()), 5).unwrap();
    users.attach_canister(&a, owner(200));
    let restored = UsersStore::restore(users.snapshot());
    let x = users.get_user(&a).unwrap();
    let y = restored.get_user(&a).unwrap();
    assert_eq!(x.user_id.bytes, y.user_id.bytes);
    assert_eq!(x.username, y.username);
    assert_eq!(x.created_at, y.created_at);
    assert_eq!(x.canisters.len(), y.canisters.len());
    assert_eq!(x.canisters[0].bytes, y.canisters[0].bytes);
    assert_eq!(users.get_chunks_wasm(), restored.get_chunks_wasm());
}
