use vstd::prelude::*;
use vstd::seq_lib::group_seq_lib_default;
use crate::asset::{AssetV, AssetTypeV, PostAssetV, EditAssetV, MoveAsset};
use crate::assets_store::{
    AssetsStoreV,
    OwnerAssetsV,
    store_inv,
    owner_ids,
    owner_index,
    has_owner,
    has_asset,
    asset_index,
    owned_asset_exists,
    user_assets_of,
    upsert_updates,
    spec_add_asset,
    spec_edit_asset,
    spec_move_one,
    spec_move_assets,
    spec_delete_assets,
    movable,
    deletable,
    lemma_owner_index_is,
    lemma_inv_same_skeleton,
    lemma_inv_after_delete,
};
use crate::seq_facts::{
    lemma_filter_push,
    lemma_filter_from,
    lemma_filter_update_excluded,
    lemma_filter_absorb,
};

verus! {

broadcast use group_seq_lib_default;

// ===== Owner isolation

/// An id is indexed for at most one owner: two index entries never share an
/// id, because each resolves to the one asset carrying it, whose owner both
/// entries would have to be.
pub proof fn lemma_id_has_one_owner(s: AssetsStoreV, o1: Seq<u8>, o2: Seq<u8>, id: u32)
    requires
        store_inv(s),
        o1 != o2,
        owner_ids(s.user_assets, o1).contains(id),
    ensures
        !owner_ids(s.user_assets, o2).contains(id),
{
    if owner_ids(s.user_assets, o2).contains(id) {
        let k1 = owner_index(s.user_assets, o1);
        let k2 = owner_index(s.user_assets, o2);
        let i1 = choose|i: int|
            0 <= i < s.user_assets[k1].ids.len() && s.user_assets[k1].ids[i] == id;
        let i2 = choose|i: int|
            0 <= i < s.user_assets[k2].ids.len() && s.user_assets[k2].ids[i] == id;
        assert(owned_asset_exists(s.assets, o1, s.user_assets[k1].ids[i1]));
        assert(owned_asset_exists(s.assets, o2, s.user_assets[k2].ids[i2]));
        let j1 = choose|j: int|
            0 <= j < s.assets.len() && (#[trigger] s.assets[j]).id == id && s.assets[j].user_id
                == o1;
        let j2 = choose|j: int|
            0 <= j < s.assets.len() && (#[trigger] s.assets[j]).id == id && s.assets[j].user_id
                == o2;
        if j1 < j2 {
            assert(s.assets[j1].id != s.assets[j2].id);
        } else if j2 < j1 {
            assert(s.assets[j2].id != s.assets[j1].id);
        }
    }
}

/// Every asset an owner's listing shows belongs to that owner: no
/// operation authenticated as one owner ever sees another owner's assets.
pub proof fn lemma_listing_shows_only_owner(s: AssetsStoreV, owner: Seq<u8>)
    requires
        store_inv(s),
    ensures
        forall|i: int|
            0 <= i < user_assets_of(s, owner).len() ==> (#[trigger] user_assets_of(s, owner)[
            i]).user_id == owner,
{
    let pred = |a: AssetV| owner_ids(s.user_assets, owner).contains(a.id);
    let f = s.assets.filter(pred);
    lemma_filter_from(s.assets, pred);
    assert forall|i: int| 0 <= i < user_assets_of(s, owner).len() implies (
    #[trigger] user_assets_of(s, owner)[i]).user_id == owner by {
        assert(user_assets_of(s, owner) == f);
        s.assets.lemma_filter_pred(pred, i);
        assert(pred(f[i]));
        assert(s.assets.contains(f[i]));
        let j = choose|j: int| 0 <= j < s.assets.len() && s.assets[j] == f[i];
        let k = owner_index(s.user_assets, owner);
        let i0 = choose|i0: int|
            0 <= i0 < s.user_assets[k].ids.len() && s.user_assets[k].ids[i0] == f[i].id;
        assert(owned_asset_exists(s.assets, owner, s.user_assets[k].ids[i0]));
        let j1 = choose|j1: int|
            0 <= j1 < s.assets.len() && (#[trigger] s.assets[j1]).id == f[i].id
                && s.assets[j1].user_id == owner;
        if j < j1 {
            assert(s.assets[j].id != s.assets[j1].id);
        } else if j1 < j {
            assert(s.assets[j1].id != s.assets[j].id);
        }
    }
}

/// Replacing one index entry by one with the same owner, other than `o`'s
/// entry, leaves `o`'s indexed ids unchanged.
pub proof fn lemma_owner_ids_entry_update(
    entries: Seq<OwnerAssetsV>,
    k: int,
    entry2: OwnerAssetsV,
    o: Seq<u8>,
)
    requires
        crate::assets_store::owners_distinct(entries),
        0 <= k < entries.len(),
        entry2.owner == entries[k].owner,
        entries[k].owner != o,
    ensures
        owner_ids(entries.update(k, entry2), o) == owner_ids(entries, o),
{
    let e2 = entries.update(k, entry2);
    assert forall|i: int, j: int| 0 <= i < j < e2.len() implies (#[trigger] e2[i]).owner != (
    #[trigger] e2[j]).owner by {
        assert(e2[i].owner == entries[i].owner);
        assert(e2[j].owner == entries[j].owner);
    }
    if has_owner(entries, o) {
        let k0 = owner_index(entries, o);
        assert(e2[k0].owner == o);
        lemma_owner_index_is(e2, o, k0);
    } else {
        if has_owner(e2, o) {
            let k0 = owner_index(e2, o);
            assert(entries[k0].owner == e2[k0].owner);
        }
    }
}

/// Appending an index entry for a different owner leaves `o`'s indexed ids
/// unchanged.
pub proof fn lemma_owner_ids_entry_push(entries: Seq<OwnerAssetsV>, e: OwnerAssetsV, o: Seq<u8>)
    requires
        crate::assets_store::owners_distinct(entries),
        !has_owner(entries, e.owner),
        e.owner != o,
    ensures
        owner_ids(entries.push(e), o) == owner_ids(entries, o),
{
    let e2 = entries.push(e);
    assert forall|i: int, j: int| 0 <= i < j < e2.len() implies (#[trigger] e2[i]).owner != (
    #[trigger] e2[j]).owner by {
        if j == e2.len() - 1 {
            if entries[i].owner == e.owner {
                assert(has_owner(entries, e.owner));
            }
        } else {
            assert(e2[i].owner == entries[i].owner);
            assert(e2[j].owner == entries[j].owner);
        }
    }
    if has_owner(entries, o) {
        let k0 = owner_index(entries, o);
        assert(e2[k0].owner == o);
        lemma_owner_index_is(e2, o, k0);
    } else {
        if has_owner(e2, o) {
            let k0 = owner_index(e2, o);
            assert(k0 < entries.len());
            assert(entries[k0].owner == e2[k0].owner);
        }
    }
}

/// An upsert authenticated as one owner leaves every other owner's listing
/// exactly as it was.
pub proof fn lemma_add_preserves_other_listing(
    s: AssetsStoreV,
    caller: Seq<u8>,
    post: PostAssetV,
    now: u64,
    other: Seq<u8>,
)
    requires
        store_inv(s),
        s.asset_id < u32::MAX,
        other != caller,
    ensures
        user_assets_of(spec_add_asset(s, caller, post, now).0, other) == user_assets_of(s, other),
{
    let s2 = spec_add_asset(s, caller, post, now).0;
    let pred = |a: AssetV| owner_ids(s.user_assets, other).contains(a.id);
    let pred2 = |a: AssetV| owner_ids(s2.user_assets, other).contains(a.id);
    if upsert_updates(s, caller, post) {
        let id = match post.id {
            Some(id) => id,
            None => 0u32,
        };
        let j = asset_index(s.assets, id);
        assert(s2.user_assets == s.user_assets);
        assert(pred2 =~= pred);
        if pred(s.assets[j]) {
            lemma_id_has_one_owner(s, caller, other, id);
        }
        lemma_filter_update_excluded(s.assets, j, spec_add_asset(s, caller, post, now).1, pred);
    } else {
        let id = (s.asset_id + 1) as u32;
        let a = spec_add_asset(s, caller, post, now).1;
        // the fresh id is not indexed for `other`
        if owner_ids(s.user_assets, other).contains(id) {
            let k0 = owner_index(s.user_assets, other);
            let i0 = choose|i0: int|
                0 <= i0 < s.user_assets[k0].ids.len() && s.user_assets[k0].ids[i0] == id;
            assert(owned_asset_exists(s.assets, other, s.user_assets[k0].ids[i0]));
            let j0 = choose|j0: int|
                0 <= j0 < s.assets.len() && (#[trigger] s.assets[j0]).id == id
                    && s.assets[j0].user_id == other;
            assert(1 <= s.assets[j0].id <= s.asset_id);
            assert(false);
        }
        lemma_filter_push(s.assets, a, pred);
        if has_owner(s.user_assets, caller) {
            let k = owner_index(s.user_assets, caller);
            lemma_owner_ids_entry_update(
                s.user_assets,
                k,
                OwnerAssetsV { owner: caller, ids: s.user_assets[k].ids.push(id) },
                other,
            );
        } else {
            lemma_owner_ids_entry_push(
                s.user_assets,
                OwnerAssetsV { owner: caller, ids: seq![id] },
                other,
            );
        }
        assert(owner_ids(s2.user_assets, other) == owner_ids(s.user_assets, other));
        assert(pred2 =~= pred);
    }
}

/// An accepted patch authenticated as one owner leaves every other owner's
/// listing exactly as it was.
pub proof fn lemma_edit_preserves_other_listing(
    s: AssetsStoreV,
    caller: Seq<u8>,
    edit: EditAssetV,
    now: u64,
    other: Seq<u8>,
)
    requires
        store_inv(s),
        crate::assets_store::editable(s, caller, edit.id),
        other != caller,
    ensures
        user_assets_of(spec_edit_asset(s, edit, now).0, other) == user_assets_of(s, other),
{
    let s2 = spec_edit_asset(s, edit, now).0;
    let pred = |a: AssetV| owner_ids(s.user_assets, other).contains(a.id);
    let pred2 = |a: AssetV| owner_ids(s2.user_assets, other).contains(a.id);
    let j = asset_index(s.assets, edit.id);
    assert(s2.user_assets == s.user_assets);
    assert(pred2 =~= pred);
    if pred(s.assets[j]) {
        lemma_id_has_one_owner(s, caller, other, edit.id);
    }
    lemma_filter_update_excluded(s.assets, j, spec_edit_asset(s, edit, now).1, pred);
}

/// Moves never touch the ownership index, and every moved asset keeps its
/// id and owner.
pub proof fn lemma_move_keeps_skeleton(s: AssetsStoreV, moves: Seq<MoveAsset>, now: u64)
    requires
        store_inv(s),
    ensures
        spec_move_assets(s, moves, now).0.user_assets == s.user_assets,
        spec_move_assets(s, moves, now).0.asset_id == s.asset_id,
        spec_move_assets(s, moves, now).0.assets.len() == s.assets.len(),
        forall|j: int|
            0 <= j < s.assets.len() ==> (#[trigger] spec_move_assets(s, moves, now).0.assets[j]).id
                == s.assets[j].id && spec_move_assets(s, moves, now).0.assets[j].user_id
                == s.assets[j].user_id,
        store_inv(spec_move_assets(s, moves, now).0),
    decreases moves.len(),
{
    if moves.len() > 0 {
        lemma_move_keeps_skeleton(s, moves.drop_last(), now);
        let prev = spec_move_assets(s, moves.drop_last(), now).0;
        let s2 = spec_move_assets(s, moves, now).0;
        let mv = moves.last();
        if has_asset(prev.assets, mv.id) {
            let j = asset_index(prev.assets, mv.id);
            assert forall|m: int| 0 <= m < s.assets.len() implies (#[trigger] s2.assets[m]).id
                == s.assets[m].id && s2.assets[m].user_id == s.assets[m].user_id by {
                if m != j {
                    assert(s2.assets[m] == prev.assets[m]);
                }
            }
            lemma_inv_same_skeleton(prev, s2);
        }
    }
}

/// A move batch authenticated as one owner leaves every other owner's
/// listing exactly as it was.
pub proof fn lemma_move_preserves_other_listing(
    s: AssetsStoreV,
    caller: Seq<u8>,
    moves: Seq<MoveAsset>,
    now: u64,
    other: Seq<u8>,
)
    requires
        store_inv(s),
        movable(s, caller, moves),
        other != caller,
    ensures
        user_assets_of(spec_move_assets(s, moves, now).0, other) == user_assets_of(s, other),
    decreases moves.len(),
{
    let pred = |a: AssetV| owner_ids(s.user_assets, other).contains(a.id);
    if moves.len() > 0 {
        assert forall|i: int| 0 <= i < moves.drop_last().len() implies owner_ids(
            s.user_assets,
            caller,
        ).contains((#[trigger] moves.drop_last()[i]).id) by {
            assert(moves.drop_last()[i] == moves[i]);
        }
        lemma_move_preserves_other_listing(s, caller, moves.drop_last(), now, other);
        lemma_move_keeps_skeleton(s, moves.drop_last(), now);
        let prev = spec_move_assets(s, moves.drop_last(), now).0;
        let s2 = spec_move_assets(s, moves, now).0;
        let mv = moves.last();
        let pred_prev = |a: AssetV| owner_ids(prev.user_assets, other).contains(a.id);
        let pred2 = |a: AssetV| owner_ids(s2.user_assets, other).contains(a.id);
        assert(pred_prev =~= pred);
        if has_asset(prev.assets, mv.id) {
            let j = asset_index(prev.assets, mv.id);
            assert(s2.user_assets == s.user_assets);
            assert(pred2 =~= pred);
            if pred(prev.assets[j]) {
                assert(prev.assets[j].id == mv.id);
                assert(movable(s, caller, moves));
                assert(owner_ids(s.user_assets, caller).contains(mv.id));
                lemma_id_has_one_owner(s, caller, other, mv.id);
            }
            lemma_filter_update_excluded(prev.assets, j, spec_move_one(prev, mv, now).1, pred);
        } else {
            assert(s2 == prev);
            assert(pred2 =~= pred);
        }
    }
}

/// A delete batch authenticated as one owner leaves every other owner's
/// listing exactly as it was.
pub proof fn lemma_delete_preserves_other_listing(
    s: AssetsStoreV,
    caller: Seq<u8>,
    ids: Seq<u32>,
    other: Seq<u8>,
)
    requires
        store_inv(s),
        deletable(s, caller, ids),
        other != caller,
    ensures
        user_assets_of(spec_delete_assets(s, caller, ids), other) == user_assets_of(s, other),
{
    let s2 = spec_delete_assets(s, caller, ids);
    let keep = |a: AssetV| !ids.contains(a.id);
    let pred = |a: AssetV| owner_ids(s.user_assets, other).contains(a.id);
    let pred2 = |a: AssetV| owner_ids(s2.user_assets, other).contains(a.id);
    if has_owner(s.user_assets, caller) {
        let k = owner_index(s.user_assets, caller);
        lemma_owner_ids_entry_update(
            s.user_assets,
            k,
            OwnerAssetsV {
                owner: caller,
                ids: s.user_assets[k].ids.filter(|id2: u32| !ids.contains(id2)),
            },
            other,
        );
    }
    assert(owner_ids(s2.user_assets, other) == owner_ids(s.user_assets, other));
    assert(pred2 =~= pred);
    assert forall|i: int| 0 <= i < s.assets.len() && pred(#[trigger] s.assets[i]) implies keep(
        s.assets[i],
    ) by {
        if ids.contains(s.assets[i].id) {
            let m = choose|m: int| 0 <= m < ids.len() && ids[m] == s.assets[i].id;
            assert(owner_ids(s.user_assets, caller).contains(ids[m]));
            lemma_id_has_one_owner(s, caller, other, s.assets[i].id);
        }
    }
    lemma_filter_absorb(s.assets, keep, pred);
}

/// A chunk delete authenticated as one owner never touches another owner's
/// blocks: every block stored for a different owner survives the batch.
pub proof fn lemma_chunk_delete_other_owner(
    chunks: Seq<crate::chunks_store::StoredChunkV>,
    caller: Seq<u8>,
    ids: Seq<u32>,
    other: Seq<u8>,
)
    requires
        other != caller,
    ensures
        forall|i: int|
            0 <= i < chunks.len() && (#[trigger] chunks[i]).owner == other
                ==> crate::chunks_store::spec_delete_chunks(chunks, caller, ids).0.contains(
                chunks[i],
            ),
    decreases ids.len(),
{
    if ids.len() > 0 {
        lemma_chunk_delete_other_owner(chunks, caller, ids.drop_last(), other);
        let prev = crate::chunks_store::spec_delete_chunks(chunks, caller, ids.drop_last()).0;
        let out = crate::chunks_store::spec_delete_chunks(chunks, caller, ids).0;
        let id = ids.last();
        if crate::chunks_store::has_chunk(prev, id, caller) {
            let idx = crate::chunks_store::chunk_index(prev, id, caller);
            assert(prev[idx].owner == caller);
            assert forall|i: int|
                0 <= i < chunks.len() && (#[trigger] chunks[i]).owner == other
                implies out.contains(chunks[i]) by {
                assert(prev.contains(chunks[i]));
                let q = choose|q: int| 0 <= q < prev.len() && prev[q] == chunks[i];
                assert(q != idx);
                if q < idx {
                    assert(out[q] == chunks[i]);
                } else {
                    assert(out[q - 1] == chunks[i]);
                }
            }
        }
    } else {
        assert forall|i: int|
            0 <= i < chunks.len() && (#[trigger] chunks[i]).owner == other
            implies crate::chunks_store::spec_delete_chunks(chunks, caller, ids).0.contains(
            chunks[i],
        ) by {
            assert(crate::chunks_store::spec_delete_chunks(chunks, caller, ids).0 == chunks);
        }
    }
}

// ===== Monotone id allocation

/// An upsert without a draft id allocates `asset_id + 1`: strictly greater
/// than every id the store holds, and — the counter bounding every id ever
/// handed out — than every id previously allocated.
pub proof fn lemma_fresh_id_strictly_greater(
    s: AssetsStoreV,
    caller: Seq<u8>,
    post: PostAssetV,
    now: u64,
)
    requires
        store_inv(s),
        s.asset_id < u32::MAX,
        post.id is None,
    ensures
        spec_add_asset(s, caller, post, now).1.id == s.asset_id + 1,
        forall|i: int|
            0 <= i < s.assets.len() ==> (#[trigger] s.assets[i]).id < spec_add_asset(
                s,
                caller,
                post,
                now,
            ).1.id,
{
    assert forall|i: int| 0 <= i < s.assets.len() implies (#[trigger] s.assets[i]).id
        < spec_add_asset(s, caller, post, now).1.id by {
        assert(1 <= s.assets[i].id <= s.asset_id);
    }
}

/// The id counter never decreases under any transition; with every held id
/// bounded by the counter, an id allocated later therefore exceeds every id
/// allocated earlier, including deleted ones.
pub proof fn lemma_counter_monotone(
    s: AssetsStoreV,
    caller: Seq<u8>,
    post: PostAssetV,
    edit: EditAssetV,
    moves: Seq<MoveAsset>,
    ids: Seq<u32>,
    now: u64,
)
    requires
        store_inv(s),
        s.asset_id < u32::MAX,
    ensures
        spec_add_asset(s, caller, post, now).0.asset_id >= s.asset_id,
        spec_edit_asset(s, edit, now).0.asset_id == s.asset_id,
        spec_move_assets(s, moves, now).0.asset_id == s.asset_id,
        spec_delete_assets(s, caller, ids).asset_id == s.asset_id,
{
    lemma_move_keeps_skeleton(s, moves, now);
}

// ===== Exact deletes

/// A deletable batch removes exactly the named ids: afterwards none of
/// them names an asset anywhere in the store, and every asset not named
/// survives untouched.
pub proof fn lemma_delete_many_exact(s: AssetsStoreV, caller: Seq<u8>, ids: Seq<u32>)
    requires
        store_inv(s),
        deletable(s, caller, ids),
    ensures
        store_inv(spec_delete_assets(s, caller, ids)),
        forall|i: int|
            0 <= i < spec_delete_assets(s, caller, ids).assets.len() ==> !ids.contains(
                (#[trigger] spec_delete_assets(s, caller, ids).assets[i]).id,
            ),
        forall|j: int|
            0 <= j < s.assets.len() && !ids.contains((#[trigger] s.assets[j]).id)
                ==> spec_delete_assets(s, caller, ids).assets.contains(s.assets[j]),
        forall|owner: Seq<u8>, i: int|
            0 <= i < user_assets_of(spec_delete_assets(s, caller, ids), owner).len()
                ==> !ids.contains(
                (#[trigger] user_assets_of(spec_delete_assets(s, caller, ids), owner)[i]).id,
            ),
{
    lemma_inv_after_delete(s, caller, ids);
    let s2 = spec_delete_assets(s, caller, ids);
    let keep = |a: AssetV| !ids.contains(a.id);
    let f = s.assets.filter(keep);
    assert forall|i: int| 0 <= i < f.len() implies !ids.contains((#[trigger] f[i]).id) by {
        s.assets.lemma_filter_pred(keep, i);
    }
    assert forall|j: int|
        0 <= j < s.assets.len() && !ids.contains((#[trigger] s.assets[j]).id) implies f.contains(
        s.assets[j],
    ) by {
        s.assets.lemma_filter_contains(keep, j);
    }
    // no listing of any owner shows a deleted id afterwards: a listing is a
    // selection of the assets that remain
    assert forall|owner: Seq<u8>, i: int|
        0 <= i < user_assets_of(s2, owner).len() implies !ids.contains(
        (#[trigger] user_assets_of(s2, owner)[i]).id,
    ) by {
        let pred = |a: AssetV| owner_ids(s2.user_assets, owner).contains(a.id);
        lemma_filter_from(s2.assets, pred);
        assert(user_assets_of(s2, owner) == s2.assets.filter(pred));
        assert(s2.assets.contains(user_assets_of(s2, owner)[i]));
        let j = choose|j: int|
            0 <= j < s2.assets.len() && s2.assets[j] == user_assets_of(s2, owner)[i];
        assert(!ids.contains(s2.assets[j].id));
    }
}

// ===== Forced extensions

/// What an accepted patch leaves in `extension`: always empty on a folder
/// or tokenized asset, the patch's value on a file patched with one, and
/// the old value on a file patched without one.
pub proof fn lemma_edit_extension_rule(s: AssetsStoreV, edit: EditAssetV, now: u64)
    requires
        has_asset(s.assets, edit.id),
    ensures
        ({
            let a = s.assets[asset_index(s.assets, edit.id)];
            let a2 = spec_edit_asset(s, edit, now).1;
            match a.asset_type {
                AssetTypeV::Folder => a2.extension == Seq::<char>::empty(),
                AssetTypeV::NFT(_) => a2.extension == Seq::<char>::empty(),
                AssetTypeV::File => a2.extension == match edit.extension {
                    Some(x) => x,
                    None => a.extension,
                },
            }
        }),
{
}

} // verus!
