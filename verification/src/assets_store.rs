use vstd::prelude::*;
use vstd::seq_lib::group_seq_lib_default;
use crate::principal::Principal;
use crate::asset::{Asset, AssetV, AssetTypeV, PostAsset, PostAssetV, EditAsset, EditAssetV, MoveAsset};
use crate::api_error::{ApiError, ApiErrorV};
use crate::chunk::ChunkV;
use crate::seq_facts::{
    lemma_filter_push,
    lemma_filter_from,
    lemma_filter_all_true,
    lemma_filter_keeps_distinct_keys,
};

verus! {

broadcast use group_seq_lib_default;

/// One owner's entry in the ownership index: the ids of the assets the
/// owner holds, in insertion order.
pub struct OwnerAssets {
    pub owner: Principal,
    pub ids: Vec<u32>,
}

#[verifier::ext_equal]
pub ghost struct OwnerAssetsV {
    pub owner: Seq<u8>,
    pub ids: Seq<u32>,
}

impl View for OwnerAssets {
    type V = OwnerAssetsV;

    open spec fn view(&self) -> OwnerAssetsV {
        OwnerAssetsV { owner: self.owner@, ids: self.ids@ }
    }
}

impl OwnerAssets {
    /// An owned copy with the same contents.
    pub fn duplicate(&self) -> (r: OwnerAssets)
        ensures
            r@ == self@,
    {
        OwnerAssets { owner: self.owner.duplicate(), ids: clone_ids(&self.ids) }
    }
}

/// The asset metadata store: a monotone id counter, the assets themselves,
/// and the per-owner ownership index.
pub struct AssetsStore {
    /// The last asset id handed out; ids are never reused.
    pub asset_id: u32,
    /// All assets, across all owners.
    pub assets: Vec<Asset>,
    /// For each owner, the ids of the assets the owner holds.
    pub user_assets: Vec<OwnerAssets>,
}

#[verifier::ext_equal]
pub ghost struct AssetsStoreV {
    pub asset_id: u32,
    pub assets: Seq<AssetV>,
    pub user_assets: Seq<OwnerAssetsV>,
}

/// The view of a sequence of assets.
pub open spec fn assets_view(assets: Seq<Asset>) -> Seq<AssetV> {
    assets.map_values(|a: Asset| a@)
}

impl View for AssetsStore {
    type V = AssetsStoreV;

    open spec fn view(&self) -> AssetsStoreV {
        AssetsStoreV {
            asset_id: self.asset_id,
            assets: assets_view(self.assets@),
            user_assets: self.user_assets@.map_values(|e: OwnerAssets| e@),
        }
    }
}

// ===== Reading the state, in specifications

/// Whether the ownership index has an entry for `owner`.
pub open spec fn has_owner(entries: Seq<OwnerAssetsV>, owner: Seq<u8>) -> bool {
    exists|k: int| 0 <= k < entries.len() && (#[trigger] entries[k]).owner == owner
}

/// The position of `owner`'s entry in the ownership index.
pub open spec fn owner_index(entries: Seq<OwnerAssetsV>, owner: Seq<u8>) -> int {
    choose|k: int| 0 <= k < entries.len() && (#[trigger] entries[k]).owner == owner
}

/// The asset ids indexed for `owner`; empty when the owner has no entry.
pub open spec fn owner_ids(entries: Seq<OwnerAssetsV>, owner: Seq<u8>) -> Seq<u32> {
    if has_owner(entries, owner) {
        entries[owner_index(entries, owner)].ids
    } else {
        Seq::<u32>::empty()
    }
}

/// Whether some asset carries the id `id`.
pub open spec fn has_asset(assets: Seq<AssetV>, id: u32) -> bool {
    exists|j: int| 0 <= j < assets.len() && (#[trigger] assets[j]).id == id
}

/// The position of the asset carrying id `id`.
pub open spec fn asset_index(assets: Seq<AssetV>, id: u32) -> int {
    choose|j: int| 0 <= j < assets.len() && (#[trigger] assets[j]).id == id
}

// ===== The store invariant

/// No two assets carry the same id.
pub open spec fn asset_ids_distinct(assets: Seq<AssetV>) -> bool {
    forall|i: int, j: int|
        0 <= i < j < assets.len() ==> (#[trigger] assets[i]).id != (#[trigger] assets[j]).id
}

/// Every asset id lies between 1 and the counter.
pub open spec fn asset_ids_bounded(assets: Seq<AssetV>, bound: u32) -> bool {
    forall|i: int| 0 <= i < assets.len() ==> 1 <= (#[trigger] assets[i]).id <= bound
}

/// No two index entries belong to the same owner.
pub open spec fn owners_distinct(entries: Seq<OwnerAssetsV>) -> bool {
    forall|i: int, j: int|
        0 <= i < j < entries.len() ==> (#[trigger] entries[i]).owner != (#[trigger] entries[j]).owner
}

/// No id occurs twice in a sequence of ids.
pub open spec fn ids_distinct(ids: Seq<u32>) -> bool {
    forall|i: int, j: int| 0 <= i < j < ids.len() ==> ids[i] != ids[j]
}

/// No id occurs twice within one owner's entry.
pub open spec fn entry_ids_distinct(entries: Seq<OwnerAssetsV>) -> bool {
    forall|k: int| 0 <= k < entries.len() ==> ids_distinct((#[trigger] entries[k]).ids)
}

/// Whether an asset with id `id` owned by `owner` exists.
pub open spec fn owned_asset_exists(assets: Seq<AssetV>, owner: Seq<u8>, id: u32) -> bool {
    exists|j: int|
        0 <= j < assets.len() && (#[trigger] assets[j]).id == id && assets[j].user_id == owner
}

/// Every indexed id resolves to an asset owned by the entry's owner.
pub open spec fn index_sound(s: AssetsStoreV) -> bool {
    forall|k: int, i: int|
        0 <= k < s.user_assets.len() && 0 <= i < s.user_assets[k].ids.len()
            ==> owned_asset_exists(
                s.assets,
                s.user_assets[k].owner,
                #[trigger] s.user_assets[k].ids[i],
            )
}

/// Whether the pair (`owner`, `id`) appears in the ownership index.
pub open spec fn indexed(entries: Seq<OwnerAssetsV>, owner: Seq<u8>, id: u32) -> bool {
    exists|k: int|
        0 <= k < entries.len() && (#[trigger] entries[k]).owner == owner
            && entries[k].ids.contains(id)
}

/// Every asset is indexed under its owner.
pub open spec fn index_complete(s: AssetsStoreV) -> bool {
    forall|j: int|
        0 <= j < s.assets.len()
            ==> indexed(s.user_assets, (#[trigger] s.assets[j]).user_id, s.assets[j].id)
}

/// The store's invariant: ids unique and bounded by the counter, one index
/// entry per owner, no id indexed twice, and the ownership index in exact
/// correspondence with the assets held.
pub open spec fn store_inv(s: AssetsStoreV) -> bool {
    &&& asset_ids_distinct(s.assets)
    &&& asset_ids_bounded(s.assets, s.asset_id)
    &&& owners_distinct(s.user_assets)
    &&& entry_ids_distinct(s.user_assets)
    &&& index_sound(s)
    &&& index_complete(s)
}

// ===== Uniqueness of positions

/// With owners distinct, an entry for `owner` at position `k` is the entry
/// the index resolves to.
pub proof fn lemma_owner_index_is(entries: Seq<OwnerAssetsV>, owner: Seq<u8>, k: int)
    requires
        owners_distinct(entries),
        0 <= k < entries.len(),
        entries[k].owner == owner,
    ensures
        has_owner(entries, owner),
        owner_index(entries, owner) == k,
{
    assert(has_owner(entries, owner));
    let k2 = owner_index(entries, owner);
    if k2 < k {
        assert(entries[k2].owner != entries[k].owner);
    } else if k < k2 {
        assert(entries[k].owner != entries[k2].owner);
    }
}

/// With ids distinct, an asset with id `id` at position `j` is the asset
/// the id resolves to.
pub proof fn lemma_asset_index_is(assets: Seq<AssetV>, id: u32, j: int)
    requires
        asset_ids_distinct(assets),
        0 <= j < assets.len(),
        assets[j].id == id,
    ensures
        has_asset(assets, id),
        asset_index(assets, id) == j,
{
    assert(has_asset(assets, id));
    let j2 = asset_index(assets, id);
    if j2 < j {
        assert(assets[j2].id != assets[j].id);
    } else if j < j2 {
        assert(assets[j].id != assets[j2].id);
    }
}

// ===== The store itself

impl AssetsStore {
    /// The store invariant, at the executable type.
    pub open spec fn inv(&self) -> bool {
        store_inv(self@)
    }

    /// An empty store.
    pub fn new() -> (r: AssetsStore)
        ensures
            r.inv(),
            r@ == (AssetsStoreV {
                asset_id: 0,
                assets: Seq::<AssetV>::empty(),
                user_assets: Seq::<OwnerAssetsV>::empty(),
            }),
    {
        let r = AssetsStore { asset_id: 0, assets: Vec::new(), user_assets: Vec::new() };
        proof {
            assert(r@.assets =~= Seq::<AssetV>::empty());
            assert(r@.user_assets =~= Seq::<OwnerAssetsV>::empty());
        }
        r
    }

    /// The position of `owner`'s entry in the ownership index, if any.
    fn find_owner(&self, owner: &Principal) -> (r: Option<usize>)
        ensures
            match r {
                Some(k) => k < self.user_assets.len() && self@.user_assets[k as int].owner
                    == owner@,
                None => !has_owner(self@.user_assets, owner@),
            },
    {
        let mut k: usize = 0;
        while k < self.user_assets.len()
            invariant
                k <= self.user_assets.len(),
                forall|m: int| 0 <= m < k ==> (#[trigger] self@.user_assets[m]).owner != owner@,
            decreases self.user_assets.len() - k,
        {
            if self.user_assets[k].owner.same_as(owner) {
                return Some(k);
            }
            k = k + 1;
        }
        None
    }

    /// Whether `id` is indexed for `owner`.
    fn owner_has_id(&self, owner: &Principal, id: u32) -> (r: bool)
        requires
            self.inv(),
        ensures
            r == owner_ids(self@.user_assets, owner@).contains(id),
    {
        match self.find_owner(owner) {
            Some(k) => {
                proof {
                    lemma_owner_index_is(self@.user_assets, owner@, k as int);
                }
                ids_contain(&self.user_assets[k].ids, id)
            },
            None => false,
        }
    }

    /// The position of the asset carrying `id`, if any.
    fn find_asset(&self, id: u32) -> (r: Option<usize>)
        ensures
            match r {
                Some(j) => j < self.assets.len() && self@.assets[j as int].id == id,
                None => !has_asset(self@.assets, id),
            },
    {
        let mut j: usize = 0;
        while j < self.assets.len()
            invariant
                j <= self.assets.len(),
                forall|m: int| 0 <= m < j ==> (#[trigger] self@.assets[m]).id != id,
            decreases self.assets.len() - j,
        {
            if self.assets[j].id == id {
                return Some(j);
            }
            j = j + 1;
        }
        None
    }

    /// All assets, across all owners. An administrative view.
    pub fn get_all_assets(&self) -> (r: Vec<Asset>)
        ensures
            assets_view(r@) == self@.assets,
    {
        let mut r: Vec<Asset> = Vec::new();
        let mut j: usize = 0;
        while j < self.assets.len()
            invariant
                j <= self.assets.len(),
                r@.len() == j,
                forall|m: int| 0 <= m < j ==> (#[trigger] r@[m])@ == self.assets@[m]@,
            decreases self.assets.len() - j,
        {
            r.push(self.assets[j].duplicate());
            j = j + 1;
        }
        proof {
            assert(assets_view(r@) =~= self@.assets);
        }
        r
    }

    /// The assets whose ids are indexed for `caller`, in storage order.
    pub fn get_user_assets(&self, caller_principal: &Principal) -> (r: Vec<Asset>)
        requires
            self.inv(),
        ensures
            assets_view(r@) == user_assets_of(self@, caller_principal@),
    {
        let ghost pred = |a: AssetV|
            owner_ids(self@.user_assets, caller_principal@).contains(a.id);
        let empty_ids: Vec<u32> = Vec::new();
        let ids: &Vec<u32> = match self.find_owner(caller_principal) {
            Some(k) => {
                proof {
                    lemma_owner_index_is(self@.user_assets, caller_principal@, k as int);
                }
                &self.user_assets[k].ids
            },
            None => &empty_ids,
        };
        proof {
            assert(ids@ =~= owner_ids(self@.user_assets, caller_principal@));
        }
        let mut r: Vec<Asset> = Vec::new();
        let mut j: usize = 0;
        while j < self.assets.len()
            invariant
                j <= self.assets.len(),
                ids@ == owner_ids(self@.user_assets, caller_principal@),
                assets_view(r@) == self@.assets.take(j as int).filter(pred),
                pred == (|a: AssetV| owner_ids(
                    self@.user_assets,
                    caller_principal@,
                ).contains(a.id)),
            decreases self.assets.len() - j,
        {
            let a = &self.assets[j];
            let ghost r_before = r@;
            if ids_contain(ids, a.id) {
                r.push(a.duplicate());
            }
            proof {
                let av = self@.assets[j as int];
                assert(av == a@);
                lemma_filter_push(self@.assets.take(j as int), av, pred);
                assert(self@.assets.take(j as int + 1)
                    =~= self@.assets.take(j as int).push(av));
                if pred(av) {
                    assert(assets_view(r@) =~= assets_view(r_before).push(a@));
                } else {
                    assert(assets_view(r@) =~= assets_view(r_before));
                }
            }
            j = j + 1;
        }
        proof {
            assert(self@.assets.take(self@.assets.len() as int) =~= self@.assets);
            assert(assets_view(r@) == self@.assets.filter(pred));
            assert(self@.assets.filter(pred) == user_assets_of(self@, caller_principal@)) by {
                assert(pred =~= (|a: AssetV| owner_ids(
                    self@.user_assets,
                    caller_principal@,
                ).contains(a.id)));
            }
        }
        r
    }

    /// Upsert a draft asset for the caller. When the draft's id resolves to
    /// an asset the caller holds, that asset's `size` and `updated_at` are
    /// refreshed in place; otherwise a fresh asset is created under a newly
    /// allocated id and indexed for the caller. A draft id that resolves to
    /// nothing is not an error: the draft is treated as new.
    ///
    /// When the draft replaces a stored file's content, the chunks the
    /// previous asset referenced are to be deleted from their shard before
    /// this runs; `chunks_to_delete` names them.
    pub fn add_asset(
        &mut self,
        caller_principal: &Principal,
        post_asset: PostAsset,
        now: u64,
    ) -> (r: Asset)
        requires
            old(self).inv(),
            old(self).asset_id < u32::MAX,
        ensures
            final(self).inv(),
            final(self)@ == spec_add_asset(old(self)@, caller_principal@, post_asset@, now).0,
            r@ == spec_add_asset(old(self)@, caller_principal@, post_asset@, now).1,
    {
        let ghost s0 = self@;
        let ghost postv = post_asset@;

        let mut update_idx: Option<usize> = None;
        if let Some(id) = post_asset.id {
            let mut owned = false;
            if let Some(k) = self.find_owner(caller_principal) {
                proof {
                    lemma_owner_index_is(s0.user_assets, caller_principal@, k as int);
                }
                owned = ids_contain(&self.user_assets[k].ids, id);
                proof {
                    assert(owned == owner_ids(s0.user_assets, caller_principal@).contains(id));
                }
            }
            proof {
                assert(owned == owner_ids(s0.user_assets, caller_principal@).contains(id));
            }
            if owned {
                update_idx = self.find_asset(id);
                proof {
                    if let Some(j) = update_idx {
                        assert(s0.assets[j as int].id == id);
                        assert(has_asset(s0.assets, id));
                    }
                }
            }
            proof {
                assert((update_idx is Some) == upsert_updates(s0, caller_principal@, postv));
            }
        }
        proof {
            assert((update_idx is Some) == upsert_updates(s0, caller_principal@, postv));
        }

        match update_idx {
            Some(j) => {
                let ghost jv = j as int;
                let mut a2 = self.assets[j].duplicate();
                a2.size = post_asset.size;
                a2.updated_at = now;
                let ret = a2.duplicate();
                let ghost a2v = a2@;
                self.assets[j] = a2;
                proof {
                    let id: u32 = match postv.id {
                        Some(id) => id,
                        None => 0,
                    };
                    lemma_asset_index_is(s0.assets, id, jv);
                    assert(a2v =~= (AssetV { size: postv.size, updated_at: now, ..s0.assets[jv] }));
                    assert(self@.assets =~= s0.assets.update(jv, a2v));
                    assert(self@.user_assets =~= s0.user_assets);
                    assert(self@ =~= spec_add_asset(s0, caller_principal@, postv, now).0);
                    assert forall|m: int| 0 <= m < s0.assets.len() implies (#[trigger] self@.assets[m]).id
                        == s0.assets[m].id && self@.assets[m].user_id == s0.assets[m].user_id by {}
                    lemma_inv_same_skeleton(s0, self@);
                }
                ret
            },
            None => {
                self.asset_id = self.asset_id + 1;
                let id: u32 = self.asset_id;
                let new_asset = Asset {
                    id: id,
                    user_id: caller_principal.duplicate(),
                    parent_id: post_asset.parent_id,
                    asset_type: post_asset.asset_type,
                    name: post_asset.name,
                    is_favorite: false,
                    size: post_asset.size,
                    extension: post_asset.extension,
                    mime_type: post_asset.mime_type,
                    created_at: now,
                    updated_at: now,
                    chunks: post_asset.chunks,
                    settings: post_asset.settings,
                };
                let ret = new_asset.duplicate();
                let ghost nav = new_asset@;
                self.assets.push(new_asset);
                let opt_k = self.find_owner(caller_principal);
                match opt_k {
                    Some(k) => {
                        let new_entry = {
                            let entry = &self.user_assets[k];
                            let mut new_ids = clone_ids(&entry.ids);
                            new_ids.push(id);
                            OwnerAssets { owner: entry.owner.duplicate(), ids: new_ids }
                        };
                        self.user_assets[k] = new_entry;
                        proof {
                            lemma_owner_index_is(s0.user_assets, caller_principal@, k as int);
                        }
                    },
                    None => {
                        let single: Vec<u32> = vec![id];
                        proof {
                            assert(single@ =~= seq![id]);
                        }
                        self.user_assets.push(
                            OwnerAssets { owner: caller_principal.duplicate(), ids: single },
                        );
                    },
                }
                proof {
                    let target = spec_create_asset(s0, caller_principal@, postv, now);
                    assert(nav =~= target.1);
                    assert(self@.assets =~= s0.assets.push(nav));
                    assert(self@.user_assets =~= target.0.user_assets);
                    assert(self@ =~= target.0);
                    lemma_inv_after_create(s0, caller_principal@, postv, now);
                }
                ret
            },
        }
    }

    /// Apply a patch to one of the caller's assets. Fails with `NotFound`
    /// when the patch's id does not resolve to an asset the caller holds,
    /// leaving the store untouched.
    pub fn edit_asset(
        &mut self,
        caller_principal: &Principal,
        edit_asset: EditAsset,
        now: u64,
    ) -> (r: Result<Asset, ApiError>)
        requires
            old(self).inv(),
        ensures
            final(self).inv(),
            editable(old(self)@, caller_principal@, edit_asset@.id) ==> {
                &&& final(self)@ == spec_edit_asset(old(self)@, edit_asset@, now).0
                &&& r matches Ok(a) && a@ == spec_edit_asset(old(self)@, edit_asset@, now).1
            },
            !editable(old(self)@, caller_principal@, edit_asset@.id) ==> {
                &&& final(self)@ == old(self)@
                &&& r matches Err(e) && e@ == ApiErrorV::NotFound("ASSET_NOT_FOUND"@)
            },
    {
        let ghost s0 = self@;
        let ghost ev = edit_asset@;

        let found = self.owner_has_id(caller_principal, edit_asset.id);
        let idx = if found {
            self.find_asset(edit_asset.id)
        } else {
            None
        };
        match idx {
            Some(j) => {
                proof {
                    assert(s0.assets[j as int].id == ev.id);
                    assert(has_asset(s0.assets, ev.id));
                }
                let mut a2 = self.assets[j].duplicate();
                a2.parent_id = edit_asset.parent_id;
                if let Some(name) = edit_asset.name {
                    a2.name = name;
                }
                let file = a2.asset_type.is_file();
                if file {
                    if let Some(ext) = edit_asset.extension {
                        a2.extension = ext;
                    }
                } else {
                    a2.extension = String::new();
                }
                if let Some(fav) = edit_asset.is_favorite {
                    a2.is_favorite = fav;
                }
                a2.updated_at = now;
                let ret = a2.duplicate();
                let ghost a2v = a2@;
                self.assets[j] = a2;
                proof {
                    lemma_asset_index_is(s0.assets, ev.id, j as int);
                    assert(a2v =~= spec_edit_asset(s0, ev, now).1);
                    assert(self@.assets =~= s0.assets.update(j as int, a2v));
                    assert(self@ =~= spec_edit_asset(s0, ev, now).0);
                    assert forall|m: int| 0 <= m < s0.assets.len() implies (
                    #[trigger] self@.assets[m]).id == s0.assets[m].id && self@.assets[m].user_id
                        == s0.assets[m].user_id by {}
                    lemma_inv_same_skeleton(s0, self@);
                }
                Ok(ret)
            },
            None => {
                proof {
                    assert(self@ =~= s0);
                }
                Err(ApiError::NotFound("ASSET_NOT_FOUND".to_owned()))
            },
        }
    }

    /// Reparent a batch of the caller's assets, left to right. Fails with
    /// `NotFound`, changing nothing, unless every named id resolves to an
    /// asset the caller holds; on success the moved assets are returned in
    /// input order.
    pub fn move_assets(
        &mut self,
        caller_principal: &Principal,
        move_assets: Vec<MoveAsset>,
        now: u64,
    ) -> (r: Result<Vec<Asset>, ApiError>)
        requires
            old(self).inv(),
        ensures
            final(self).inv(),
            movable(old(self)@, caller_principal@, move_assets@) ==> {
                &&& final(self)@ == spec_move_assets(old(self)@, move_assets@, now).0
                &&& r matches Ok(out) && assets_view(out@) == spec_move_assets(
                    old(self)@,
                    move_assets@,
                    now,
                ).1
            },
            !movable(old(self)@, caller_principal@, move_assets@) ==> {
                &&& final(self)@ == old(self)@
                &&& r matches Err(e) && e@ == ApiErrorV::NotFound("ASSET_NOT_FOUND"@)
            },
    {
        let ghost s0 = self@;

        let mut i: usize = 0;
        while i < move_assets.len()
            invariant
                self.inv(),
                self@ == s0,
                i <= move_assets.len(),
                forall|m: int|
                    0 <= m < i ==> owner_ids(s0.user_assets, caller_principal@).contains(
                        (#[trigger] move_assets@[m]).id,
                    ),
            decreases move_assets.len() - i,
        {
            if !self.owner_has_id(caller_principal, move_assets[i].id) {
                proof {
                    assert(!movable(s0, caller_principal@, move_assets@));
                }
                return Err(ApiError::NotFound("ASSET_NOT_FOUND".to_owned()));
            }
            i = i + 1;
        }
        proof {
            assert(movable(s0, caller_principal@, move_assets@));
        }

        let mut out: Vec<Asset> = Vec::new();
        let mut n: usize = 0;
        while n < move_assets.len()
            invariant
                self.inv(),
                n <= move_assets.len(),
                movable(s0, caller_principal@, move_assets@),
                store_inv(s0),
                self@.user_assets == s0.user_assets,
                self@.assets.len() == s0.assets.len(),
                forall|m: int|
                    0 <= m < s0.assets.len() ==> (#[trigger] self@.assets[m]).id
                        == s0.assets[m].id && self@.assets[m].user_id == s0.assets[m].user_id,
                self@ == spec_move_assets(s0, move_assets@.take(n as int), now).0,
                assets_view(out@) == spec_move_assets(s0, move_assets@.take(n as int), now).1,
            decreases move_assets.len() - n,
        {
            let ghost sc = self@;
            let mv = move_assets[n];
            proof {
                // the id is indexed for the caller, so the asset exists here
                assert(owner_ids(s0.user_assets, caller_principal@).contains(mv.id));
                let k = owner_index(s0.user_assets, caller_principal@);
                let i2 = choose|i2: int|
                    0 <= i2 < s0.user_assets[k].ids.len() && s0.user_assets[k].ids[i2] == mv.id;
                assert(owned_asset_exists(s0.assets, s0.user_assets[k].owner,
                    s0.user_assets[k].ids[i2]));
                let j2 = choose|j2: int|
                    0 <= j2 < s0.assets.len() && (#[trigger] s0.assets[j2]).id == mv.id
                        && s0.assets[j2].user_id == s0.user_assets[k].owner;
                assert(sc.assets[j2].id == mv.id);
                assert(has_asset(sc.assets, mv.id));
            }
            match self.find_asset(mv.id) {
                Some(j) => {
                    let mut a2 = self.assets[j].duplicate();
                    a2.parent_id = mv.parent_id;
                    a2.updated_at = now;
                    out.push(a2.duplicate());
                    let ghost a2v = a2@;
                    self.assets[j] = a2;
                    proof {
                        lemma_asset_index_is(sc.assets, mv.id, j as int);
                        assert(a2v =~= spec_move_one(sc, mv, now).1);
                        assert(self@.assets =~= sc.assets.update(j as int, a2v));
                        assert(self@ =~= spec_move_one(sc, mv, now).0);
                        assert(move_assets@.take(n as int + 1).drop_last() =~= move_assets@.take(
                            n as int,
                        ));
                        assert(move_assets@.take(n as int + 1).last() == move_assets@[n as int]);
                        assert(assets_view(out@) =~= spec_move_assets(
                            s0,
                            move_assets@.take(n as int + 1),
                            now,
                        ).1);
                        assert forall|m: int| 0 <= m < sc.assets.len() implies (
                        #[trigger] self@.assets[m]).id == sc.assets[m].id
                            && self@.assets[m].user_id == sc.assets[m].user_id by {}
                        lemma_inv_same_skeleton(sc, self@);
                    }
                },
                None => {
                    proof {
                        assert(false);
                    }
                },
            }
            n = n + 1;
        }
        proof {
            assert(move_assets@.take(move_assets@.len() as int) =~= move_assets@);
        }
        Ok(out)
    }

    /// Delete a batch of the caller's assets. Fails with `NotFound`,
    /// changing nothing, unless every named id is indexed for the caller; on
    /// success exactly the named ids leave the store and the caller's entry,
    /// and the named ids are returned. The delete is shallow: children of a
    /// deleted folder stay.
    pub fn delete_assets(
        &mut self,
        caller_principal: &Principal,
        delete_asset_ids: Vec<u32>,
    ) -> (r: Result<Vec<u32>, ApiError>)
        requires
            old(self).inv(),
        ensures
            final(self).inv(),
            deletable(old(self)@, caller_principal@, delete_asset_ids@) ==> {
                &&& final(self)@ == spec_delete_assets(
                    old(self)@,
                    caller_principal@,
                    delete_asset_ids@,
                )
                &&& r matches Ok(out) && out@ == delete_asset_ids@
            },
            !deletable(old(self)@, caller_principal@, delete_asset_ids@) ==> {
                &&& final(self)@ == old(self)@
                &&& r matches Err(e) && e@ == ApiErrorV::NotFound("ASSET_NOT_FOUND"@)
            },
    {
        let ghost s0 = self@;
        let ghost idsv = delete_asset_ids@;

        let mut i: usize = 0;
        while i < delete_asset_ids.len()
            invariant
                self.inv(),
                self@ == s0,
                i <= delete_asset_ids.len(),
                idsv == delete_asset_ids@,
                forall|m: int|
                    0 <= m < i ==> owner_ids(s0.user_assets, caller_principal@).contains(
                        #[trigger] idsv[m],
                    ),
            decreases delete_asset_ids.len() - i,
        {
            if !self.owner_has_id(caller_principal, delete_asset_ids[i]) {
                proof {
                    assert(!deletable(s0, caller_principal@, idsv));
                }
                return Err(ApiError::NotFound("ASSET_NOT_FOUND".to_owned()));
            }
            i = i + 1;
        }
        proof {
            assert(deletable(s0, caller_principal@, idsv));
        }

        let ghost idpred = |id2: u32| !idsv.contains(id2);
        let ghost apred = |a: AssetV| !idsv.contains(a.id);

        match self.find_owner(caller_principal) {
            Some(k) => {
                proof {
                    lemma_owner_index_is(s0.user_assets, caller_principal@, k as int);
                }
                let new_entry = {
                    let entry = &self.user_assets[k];
                    let mut kept: Vec<u32> = Vec::new();
                    let mut m: usize = 0;
                    while m < entry.ids.len()
                        invariant
                            m <= entry.ids.len(),
                            idsv == delete_asset_ids@,
                            idpred == (|id2: u32| !idsv.contains(id2)),
                            kept@ == entry.ids@.take(m as int).filter(idpred),
                        decreases entry.ids.len() - m,
                    {
                        let id2: u32 = entry.ids[m];
                        if !ids_contain(&delete_asset_ids, id2) {
                            kept.push(id2);
                        }
                        proof {
                            lemma_filter_push(entry.ids@.take(m as int), id2, idpred);
                            assert(entry.ids@.take(m as int + 1) =~= entry.ids@.take(
                                m as int,
                            ).push(id2));
                        }
                        m = m + 1;
                    }
                    proof {
                        assert(entry.ids@.take(entry.ids@.len() as int) =~= entry.ids@);
                    }
                    OwnerAssets { owner: entry.owner.duplicate(), ids: kept }
                };
                self.user_assets[k] = new_entry;
            },
            None => {},
        }
        let ghost s1 = self@;

        let mut kept_assets: Vec<Asset> = Vec::new();
        let mut j: usize = 0;
        while j < self.assets.len()
            invariant
                j <= self.assets.len(),
                self@ == s1,
                s1.assets == s0.assets,
                idsv == delete_asset_ids@,
                apred == (|a: AssetV| !idsv.contains(a.id)),
                assets_view(kept_assets@) == s0.assets.take(j as int).filter(apred),
            decreases self.assets.len() - j,
        {
            let a = &self.assets[j];
            let ghost kept_before = assets_view(kept_assets@);
            if !ids_contain(&delete_asset_ids, a.id) {
                kept_assets.push(a.duplicate());
            }
            proof {
                let av = s0.assets[j as int];
                assert(av == a@);
                lemma_filter_push(s0.assets.take(j as int), av, apred);
                assert(s0.assets.take(j as int + 1) =~= s0.assets.take(j as int).push(av));
                if apred(av) {
                    assert(assets_view(kept_assets@) =~= kept_before.push(a@));
                } else {
                    assert(assets_view(kept_assets@) =~= kept_before);
                }
            }
            j = j + 1;
        }
        proof {
            assert(s0.assets.take(s0.assets.len() as int) =~= s0.assets);
        }
        self.assets = kept_assets;
        proof {
            assert(self@.assets =~= s0.assets.filter(apred));
            assert(self@ =~= spec_delete_assets(s0, caller_principal@, idsv));
            lemma_inv_after_delete(s0, caller_principal@, idsv);
        }
        Ok(delete_asset_ids)
    }

    /// The cross-shard cleanup targets of a draft: when the draft replaces
    /// the content of an existing file asset that references stored chunks,
    /// the address of the shard those chunks live in (one shard per owner in
    /// practice) and the ids to delete there. `None` when the upsert will
    /// create, the draft is not a file, or nothing is referenced.
    pub fn chunks_to_delete(&self, caller_principal: &Principal, post_asset: &PostAsset) -> (r:
        Option<(Principal, Vec<u32>)>)
        requires
            self.inv(),
        ensures
            match r {
                Some(t) => spec_cleanup_target(self@, caller_principal@, post_asset@) == Some(
                    (t.0@, t.1@),
                ),
                None => spec_cleanup_target(self@, caller_principal@, post_asset@) is None,
            },
    {
        if !post_asset.asset_type.is_file() {
            return None;
        }
        let id: u32 = match post_asset.id {
            Some(id) => id,
            None => {
                return None;
            },
        };
        if !self.owner_has_id(caller_principal, id) {
            return None;
        }
        match self.find_asset(id) {
            Some(j) => {
                proof {
                    lemma_asset_index_is(self@.assets, id, j as int);
                }
                let a = &self.assets[j];
                if a.chunks.len() == 0 {
                    proof {
                        assert(self@.assets[j as int].chunks.len() == 0);
                    }
                    return None;
                }
                let canister = a.chunks[0].canister.duplicate();
                let mut chunk_ids: Vec<u32> = Vec::new();
                let mut m: usize = 0;
                while m < a.chunks.len()
                    invariant
                        m <= a.chunks.len(),
                        chunk_ids@.len() == m,
                        forall|i: int| 0 <= i < m ==> chunk_ids@[i] == a.chunks@[i]@.id,
                    decreases a.chunks.len() - m,
                {
                    chunk_ids.push(a.chunks[m].id);
                    m = m + 1;
                }
                proof {
                    let av = self@.assets[j as int];
                    assert(chunk_ids@ =~= av.chunks.map_values(|c: ChunkV| c.id));
                    assert(canister@ == av.chunks[0].canister);
                }
                Some((canister, chunk_ids))
            },
            None => None,
        }
    }

    /// A full copy of the store's state, for persistence across restarts.
    pub fn snapshot(&self) -> (r: AssetsStore)
        ensures
            r@ == self@,
    {
        let mut entries: Vec<OwnerAssets> = Vec::new();
        let mut k: usize = 0;
        while k < self.user_assets.len()
            invariant
                k <= self.user_assets.len(),
                entries@.len() == k,
                forall|m: int| 0 <= m < k ==> (#[trigger] entries@[m])@ == self.user_assets@[m]@,
            decreases self.user_assets.len() - k,
        {
            entries.push(self.user_assets[k].duplicate());
            k = k + 1;
        }
        let r = AssetsStore {
            asset_id: self.asset_id,
            assets: self.get_all_assets(),
            user_assets: entries,
        };
        proof {
            assert(r@.user_assets =~= self@.user_assets);
            assert(r@ =~= self@);
        }
        r
    }

    /// Adopt a snapshot verbatim as the running state.
    pub fn restore(snapshot: AssetsStore) -> (r: AssetsStore)
        ensures
            r@ == snapshot@,
    {
        snapshot
    }
}

impl Default for AssetsStore {
    /// An empty store.
    fn default() -> (r: AssetsStore)
        ensures
            r.inv(),
            r@ == (AssetsStoreV {
                asset_id: 0,
                assets: Seq::<AssetV>::empty(),
                user_assets: Seq::<OwnerAssetsV>::empty(),
            }),
    {
        AssetsStore::new()
    }
}

/// The cross-shard cleanup targets of a draft, at the specification level:
/// the shard address recorded on the previous asset's first chunk
/// reference, with every referenced chunk id.
pub open spec fn spec_cleanup_target(s: AssetsStoreV, caller: Seq<u8>, post: PostAssetV) -> Option<
    (Seq<u8>, Seq<u32>),
> {
    if post.asset_type is File && upsert_updates(s, caller, post) {
        let id = match post.id {
            Some(id) => id,
            None => 0,
        };
        let a = s.assets[asset_index(s.assets, id)];
        if a.chunks.len() > 0 {
            Some((a.chunks[0].canister, a.chunks.map_values(|c: ChunkV| c.id)))
        } else {
            None
        }
    } else {
        None
    }
}

/// Creation preserves the store invariant: the fresh id is strictly greater
/// than every id held, so uniqueness and the index correspondence carry
/// over, extended by the new asset.
pub proof fn lemma_inv_after_create(s: AssetsStoreV, caller: Seq<u8>, post: PostAssetV, now: u64)
    requires
        store_inv(s),
        s.asset_id < u32::MAX,
    ensures
        store_inv(spec_create_asset(s, caller, post, now).0),
{
    let id = (s.asset_id + 1) as u32;
    let s2 = spec_create_asset(s, caller, post, now).0;
    let a = spec_create_asset(s, caller, post, now).1;
    let n = s.assets.len() as int;

    // every id already held is at most the old counter, so the fresh id is new
    assert forall|i: int| 0 <= i < n implies (#[trigger] s.assets[i]).id != id by {
        assert(1 <= s.assets[i].id <= s.asset_id);
    }
    assert(asset_ids_distinct(s2.assets));
    assert(asset_ids_bounded(s2.assets, s2.asset_id));

    if has_owner(s.user_assets, caller) {
        let k = owner_index(s.user_assets, caller);
        let old_ids = s.user_assets[k].ids;

        // the fresh id is not yet indexed for the caller
        assert forall|i: int| 0 <= i < old_ids.len() implies old_ids[i] != id by {
            assert(owned_asset_exists(s.assets, caller, s.user_assets[k].ids[i]));
            let j = choose|j: int|
                0 <= j < s.assets.len() && (#[trigger] s.assets[j]).id == s.user_assets[k].ids[i]
                    && s.assets[j].user_id == caller;
            assert(s.assets[j].id <= s.asset_id);
        }

        assert forall|i: int, j: int| 0 <= i < j < s2.user_assets.len() implies (
        #[trigger] s2.user_assets[i]).owner != (#[trigger] s2.user_assets[j]).owner by {
            assert(s2.user_assets[i].owner == s.user_assets[i].owner);
            assert(s2.user_assets[j].owner == s.user_assets[j].owner);
        }

        assert forall|k2: int| 0 <= k2 < s2.user_assets.len() implies ids_distinct(
            (#[trigger] s2.user_assets[k2]).ids,
        ) by {
            if k2 == k {
                let new_ids = s2.user_assets[k2].ids;
                assert(new_ids == old_ids.push(id));
                assert forall|i: int, j: int| 0 <= i < j < new_ids.len() implies new_ids[i]
                    != new_ids[j] by {
                    if j == new_ids.len() - 1 {
                        assert(new_ids[i] == old_ids[i]);
                        assert(new_ids[j] == id);
                    } else {
                        assert(ids_distinct(old_ids));
                    }
                }
            } else {
                assert(s2.user_assets[k2].ids == s.user_assets[k2].ids);
                assert(ids_distinct(s.user_assets[k2].ids));
            }
        }

        assert forall|k2: int, i: int|
            0 <= k2 < s2.user_assets.len() && 0 <= i < s2.user_assets[k2].ids.len()
            implies owned_asset_exists(
                s2.assets,
                s2.user_assets[k2].owner,
                #[trigger] s2.user_assets[k2].ids[i],
            ) by {
            if k2 == k && i == s2.user_assets[k2].ids.len() - 1 {
                assert(s2.assets[n].id == id && s2.assets[n].user_id == caller);
            } else {
                let id2 = s2.user_assets[k2].ids[i];
                let owner2 = s2.user_assets[k2].owner;
                assert(s.user_assets[k2].ids[i] == id2 && s.user_assets[k2].owner == owner2);
                assert(owned_asset_exists(s.assets, owner2, id2));
                let j = choose|j: int|
                    0 <= j < s.assets.len() && (#[trigger] s.assets[j]).id == id2
                        && s.assets[j].user_id == owner2;
                assert(s2.assets[j].id == id2 && s2.assets[j].user_id == owner2);
            }
        }

        assert forall|j: int| 0 <= j < s2.assets.len() implies indexed(
            s2.user_assets,
            (#[trigger] s2.assets[j]).user_id,
            s2.assets[j].id,
        ) by {
            if j < n {
                assert(indexed(s.user_assets, s.assets[j].user_id, s.assets[j].id));
                let k3 = choose|k3: int|
                    0 <= k3 < s.user_assets.len() && (#[trigger] s.user_assets[k3]).owner
                        == s.assets[j].user_id && s.user_assets[k3].ids.contains(s.assets[j].id);
                if k3 == k {
                    let m = choose|m: int|
                        0 <= m < old_ids.len() && old_ids[m] == s.assets[j].id;
                    assert(s2.user_assets[k3].ids[m] == s.assets[j].id);
                    assert(s2.user_assets[k3].ids.contains(s.assets[j].id));
                } else {
                    assert(s2.user_assets[k3].owner == s.assets[j].user_id);
                    assert(s2.user_assets[k3].ids.contains(s.assets[j].id));
                }
            } else {
                assert(s2.user_assets[k].ids[old_ids.len() as int] == id);
                assert(s2.user_assets[k].ids.contains(id));
                assert(s2.user_assets[k].owner == caller);
            }
        }
    } else {
        let kn = s.user_assets.len() as int;
        assert forall|i: int, j: int| 0 <= i < j < s2.user_assets.len() implies (
        #[trigger] s2.user_assets[i]).owner != (#[trigger] s2.user_assets[j]).owner by {
            if j == kn {
                assert(s2.user_assets[i].owner == s.user_assets[i].owner);
                if s.user_assets[i].owner == caller {
                    assert(has_owner(s.user_assets, caller));
                }
            }
        }

        assert forall|k2: int| 0 <= k2 < s2.user_assets.len() implies ids_distinct(
            (#[trigger] s2.user_assets[k2]).ids,
        ) by {
            if k2 < kn {
                assert(s2.user_assets[k2].ids == s.user_assets[k2].ids);
                assert(ids_distinct(s.user_assets[k2].ids));
            } else {
                assert(s2.user_assets[k2].ids == seq![id]);
            }
        }

        assert forall|k2: int, i: int|
            0 <= k2 < s2.user_assets.len() && 0 <= i < s2.user_assets[k2].ids.len()
            implies owned_asset_exists(
                s2.assets,
                s2.user_assets[k2].owner,
                #[trigger] s2.user_assets[k2].ids[i],
            ) by {
            if k2 == kn {
                assert(s2.user_assets[k2].ids[i] == id);
                assert(s2.assets[n].id == id && s2.assets[n].user_id == caller);
            } else {
                let id2 = s2.user_assets[k2].ids[i];
                let owner2 = s2.user_assets[k2].owner;
                assert(s.user_assets[k2].ids[i] == id2 && s.user_assets[k2].owner == owner2);
                assert(owned_asset_exists(s.assets, owner2, id2));
                let j = choose|j: int|
                    0 <= j < s.assets.len() && (#[trigger] s.assets[j]).id == id2
                        && s.assets[j].user_id == owner2;
                assert(s2.assets[j].id == id2 && s2.assets[j].user_id == owner2);
            }
        }

        assert forall|j: int| 0 <= j < s2.assets.len() implies indexed(
            s2.user_assets,
            (#[trigger] s2.assets[j]).user_id,
            s2.assets[j].id,
        ) by {
            if j < n {
                assert(indexed(s.user_assets, s.assets[j].user_id, s.assets[j].id));
                let k3 = choose|k3: int|
                    0 <= k3 < s.user_assets.len() && (#[trigger] s.user_assets[k3]).owner
                        == s.assets[j].user_id && s.user_assets[k3].ids.contains(s.assets[j].id);
                assert(s2.user_assets[k3].owner == s.assets[j].user_id);
                assert(s2.user_assets[k3].ids.contains(s.assets[j].id));
            } else {
                assert(s2.user_assets[kn].ids[0] == id);
                assert(s2.user_assets[kn].ids.contains(id));
                assert(s2.user_assets[kn].owner == caller);
            }
        }
    }
}

/// The assets the store lists for `owner`: those whose ids appear in the
/// owner's entry of the ownership index.
pub open spec fn user_assets_of(s: AssetsStoreV, owner: Seq<u8>) -> Seq<AssetV> {
    s.assets.filter(|a: AssetV| owner_ids(s.user_assets, owner).contains(a.id))
}

// ===== The upsert transition

/// Whether a draft resolves to an asset the caller already holds, so that
/// the upsert updates that asset in place rather than creating a fresh one.
/// A draft id that resolves to nothing falls through to creation.
pub open spec fn upsert_updates(s: AssetsStoreV, caller: Seq<u8>, post: PostAssetV) -> bool {
    match post.id {
        Some(id) => owner_ids(s.user_assets, caller).contains(id) && has_asset(s.assets, id),
        None => false,
    }
}

/// The in-place update: only `size` and `updated_at` change.
pub open spec fn spec_update_asset(s: AssetsStoreV, post: PostAssetV, now: u64) -> (
    AssetsStoreV,
    AssetV,
) {
    let id = match post.id {
        Some(id) => id,
        None => 0,
    };
    let j = asset_index(s.assets, id);
    let a2 = AssetV { size: post.size, updated_at: now, ..s.assets[j] };
    (AssetsStoreV { assets: s.assets.update(j, a2), ..s }, a2)
}

/// The creation: the next id is allocated, a fresh asset is built from the
/// draft with `created_at == updated_at == now`, and its id is appended to
/// the caller's entry of the ownership index.
pub open spec fn spec_create_asset(
    s: AssetsStoreV,
    caller: Seq<u8>,
    post: PostAssetV,
    now: u64,
) -> (AssetsStoreV, AssetV) {
    let id = (s.asset_id + 1) as u32;
    let a = AssetV {
        id: id,
        user_id: caller,
        parent_id: post.parent_id,
        asset_type: post.asset_type,
        name: post.name,
        is_favorite: false,
        size: post.size,
        extension: post.extension,
        mime_type: post.mime_type,
        created_at: now,
        updated_at: now,
        chunks: post.chunks,
        settings: post.settings,
    };
    let entries = if has_owner(s.user_assets, caller) {
        let k = owner_index(s.user_assets, caller);
        s.user_assets.update(
            k,
            OwnerAssetsV { owner: caller, ids: s.user_assets[k].ids.push(id) },
        )
    } else {
        s.user_assets.push(OwnerAssetsV { owner: caller, ids: seq![id] })
    };
    (AssetsStoreV { asset_id: id, assets: s.assets.push(a), user_assets: entries }, a)
}

/// What an upsert does: update in place when the draft resolves, create
/// otherwise.
pub open spec fn spec_add_asset(
    s: AssetsStoreV,
    caller: Seq<u8>,
    post: PostAssetV,
    now: u64,
) -> (AssetsStoreV, AssetV) {
    if upsert_updates(s, caller, post) {
        spec_update_asset(s, post, now)
    } else {
        spec_create_asset(s, caller, post, now)
    }
}

// ===== The edit transition

/// Whether `id` resolves to an asset held by `caller`.
pub open spec fn editable(s: AssetsStoreV, caller: Seq<u8>, id: u32) -> bool {
    owner_ids(s.user_assets, caller).contains(id) && has_asset(s.assets, id)
}

/// What an accepted patch does to the resolved asset: `parent_id` is
/// overwritten unconditionally, `name` and `is_favorite` only where the
/// patch carries them, and `extension` only where the patch carries it and
/// the asset is a file — folders and tokenized assets always end with an
/// empty extension, whatever the patch says.
pub open spec fn spec_edit_asset(s: AssetsStoreV, edit: EditAssetV, now: u64) -> (
    AssetsStoreV,
    AssetV,
) {
    let j = asset_index(s.assets, edit.id);
    let a = s.assets[j];
    let a2 = AssetV {
        parent_id: edit.parent_id,
        name: match edit.name {
            Some(n) => n,
            None => a.name,
        },
        is_favorite: match edit.is_favorite {
            Some(b) => b,
            None => a.is_favorite,
        },
        extension: match a.asset_type {
            AssetTypeV::File => match edit.extension {
                Some(x) => x,
                None => a.extension,
            },
            AssetTypeV::Folder => Seq::<char>::empty(),
            AssetTypeV::NFT(_) => Seq::<char>::empty(),
        },
        updated_at: now,
        ..a
    };
    (AssetsStoreV { assets: s.assets.update(j, a2), ..s }, a2)
}

// ===== The move transition

/// One reparenting: `parent_id` is overwritten and `updated_at` refreshed.
pub open spec fn spec_move_one(s: AssetsStoreV, mv: MoveAsset, now: u64) -> (AssetsStoreV, AssetV) {
    if has_asset(s.assets, mv.id) {
        let j = asset_index(s.assets, mv.id);
        let a2 = AssetV { parent_id: mv.parent_id, updated_at: now, ..s.assets[j] };
        (AssetsStoreV { assets: s.assets.update(j, a2), ..s }, a2)
    } else {
        (s, vstd::pervasive::arbitrary())
    }
}

/// A batch of reparentings, applied left to right; the moved assets are
/// reported in input order, as they stand right after their own move.
pub open spec fn spec_move_assets(s: AssetsStoreV, moves: Seq<MoveAsset>, now: u64) -> (
    AssetsStoreV,
    Seq<AssetV>,
)
    decreases moves.len(),
{
    if moves.len() == 0 {
        (s, Seq::<AssetV>::empty())
    } else {
        let prev = spec_move_assets(s, moves.drop_last(), now);
        let step = spec_move_one(prev.0, moves.last(), now);
        (step.0, prev.1.push(step.1))
    }
}

/// Whether every id in the batch is indexed for `caller`.
pub open spec fn movable(s: AssetsStoreV, caller: Seq<u8>, moves: Seq<MoveAsset>) -> bool {
    forall|i: int|
        0 <= i < moves.len() ==> owner_ids(s.user_assets, caller).contains(
            (#[trigger] moves[i]).id,
        )
}

// ===== The delete transition

/// Whether every id in the batch is indexed for `caller`.
pub open spec fn deletable(s: AssetsStoreV, caller: Seq<u8>, ids: Seq<u32>) -> bool {
    forall|i: int|
        0 <= i < ids.len() ==> owner_ids(s.user_assets, caller).contains(#[trigger] ids[i])
}

/// What a delete does: the named assets leave the store and the caller's
/// entry of the ownership index; everything else is untouched. The delete
/// is shallow: children of a deleted folder stay, under their old parent
/// id.
pub open spec fn spec_delete_assets(s: AssetsStoreV, caller: Seq<u8>, ids: Seq<u32>) -> AssetsStoreV {
    let entries = if has_owner(s.user_assets, caller) {
        let k = owner_index(s.user_assets, caller);
        s.user_assets.update(
            k,
            OwnerAssetsV {
                owner: caller,
                ids: s.user_assets[k].ids.filter(|id2: u32| !ids.contains(id2)),
            },
        )
    } else {
        s.user_assets
    };
    AssetsStoreV {
        asset_id: s.asset_id,
        assets: s.assets.filter(|a: AssetV| !ids.contains(a.id)),
        user_assets: entries,
    }
}

/// Under the invariant, an id indexed for `caller` names an asset whose
/// owner is `caller`; so an id indexed for a different owner is never among
/// a batch that is deletable by `caller`.
pub proof fn lemma_inv_after_delete(s: AssetsStoreV, caller: Seq<u8>, ids: Seq<u32>)
    requires
        store_inv(s),
        deletable(s, caller, ids),
    ensures
        store_inv(spec_delete_assets(s, caller, ids)),
{
    let s2 = spec_delete_assets(s, caller, ids);
    let apred = |a: AssetV| !ids.contains(a.id);
    let fassets = s.assets.filter(apred);
    lemma_filter_from(s.assets, apred);
    lemma_filter_keeps_distinct_keys(s.assets, apred, |a: AssetV| a.id);
    assert(asset_ids_distinct(s2.assets));
    assert forall|i: int| 0 <= i < fassets.len() implies 1 <= (#[trigger] fassets[i]).id
        <= s2.asset_id by {
        assert(s.assets.contains(fassets[i]));
        let j = choose|j: int| 0 <= j < s.assets.len() && s.assets[j] == fassets[i];
        assert(1 <= s.assets[j].id <= s.asset_id);
    }

    if has_owner(s.user_assets, caller) {
        let k = owner_index(s.user_assets, caller);
        let idpred = |id2: u32| !ids.contains(id2);
        let old_ids = s.user_assets[k].ids;
        let kept = old_ids.filter(idpred);
        lemma_filter_from(old_ids, idpred);
        assert forall|i: int, j: int| 0 <= i < j < old_ids.len() implies old_ids[i]
            != old_ids[j] by {
            assert(ids_distinct(old_ids));
        }
        lemma_filter_keeps_distinct_keys(old_ids, idpred, |x: u32| x);

        assert forall|i: int, j: int| 0 <= i < j < s2.user_assets.len() implies (
        #[trigger] s2.user_assets[i]).owner != (#[trigger] s2.user_assets[j]).owner by {
            assert(s2.user_assets[i].owner == s.user_assets[i].owner);
            assert(s2.user_assets[j].owner == s.user_assets[j].owner);
        }

        assert forall|k2: int| 0 <= k2 < s2.user_assets.len() implies ids_distinct(
            (#[trigger] s2.user_assets[k2]).ids,
        ) by {
            if k2 != k {
                assert(s2.user_assets[k2].ids == s.user_assets[k2].ids);
                assert(ids_distinct(s.user_assets[k2].ids));
            }
        }

        assert forall|k2: int, i: int|
            0 <= k2 < s2.user_assets.len() && 0 <= i < s2.user_assets[k2].ids.len()
            implies owned_asset_exists(
                s2.assets,
                s2.user_assets[k2].owner,
                #[trigger] s2.user_assets[k2].ids[i],
            ) by {
            let owner2 = s2.user_assets[k2].owner;
            let id2 = s2.user_assets[k2].ids[i];
            if k2 == k {
                // id2 survives the filter of the caller's entry
                assert(kept[i] == id2);
                assert(idpred(id2)) by {
                    old_ids.lemma_filter_pred(idpred, i);
                }
                assert(old_ids.contains(id2));
                let i0 = choose|i0: int| 0 <= i0 < old_ids.len() && old_ids[i0] == id2;
                assert(owned_asset_exists(s.assets, caller, s.user_assets[k].ids[i0]));
                let j = choose|j: int|
                    0 <= j < s.assets.len() && (#[trigger] s.assets[j]).id == id2
                        && s.assets[j].user_id == caller;
                assert(apred(s.assets[j]));
                s.assets.lemma_filter_contains(apred, j);
                assert(fassets.contains(s.assets[j]));
                let j2 = choose|j2: int| 0 <= j2 < fassets.len() && fassets[j2] == s.assets[j];
                assert(s2.assets[j2].id == id2 && s2.assets[j2].user_id == owner2);
            } else {
                assert(s.user_assets[k2].ids[i] == id2 && s.user_assets[k2].owner == owner2);
                assert(owned_asset_exists(s.assets, owner2, s.user_assets[k2].ids[i]));
                let j = choose|j: int|
                    0 <= j < s.assets.len() && (#[trigger] s.assets[j]).id == id2
                        && s.assets[j].user_id == owner2;
                // the batch names only the caller's ids, and this id belongs
                // to a different owner
                if ids.contains(id2) {
                    let m = choose|m: int| 0 <= m < ids.len() && ids[m] == id2;
                    assert(owner_ids(s.user_assets, caller).contains(ids[m]));
                    let i1 = choose|i1: int| 0 <= i1 < old_ids.len() && old_ids[i1] == id2;
                    assert(owned_asset_exists(s.assets, caller, s.user_assets[k].ids[i1]));
                    let j1 = choose|j1: int|
                        0 <= j1 < s.assets.len() && (#[trigger] s.assets[j1]).id == id2
                            && s.assets[j1].user_id == caller;
                    if j1 < j {
                        assert(s.assets[j1].id != s.assets[j].id);
                    } else if j < j1 {
                        assert(s.assets[j].id != s.assets[j1].id);
                    }
                    if k2 < k {
                        assert(s.user_assets[k2].owner != s.user_assets[k].owner);
                    } else {
                        assert(s.user_assets[k].owner != s.user_assets[k2].owner);
                    }
                    assert(false);
                }
                assert(apred(s.assets[j]));
                s.assets.lemma_filter_contains(apred, j);
                let j2 = choose|j2: int| 0 <= j2 < fassets.len() && fassets[j2] == s.assets[j];
                assert(s2.assets[j2].id == id2 && s2.assets[j2].user_id == owner2);
            }
        }

        assert forall|j: int| 0 <= j < s2.assets.len() implies indexed(
            s2.user_assets,
            (#[trigger] s2.assets[j]).user_id,
            s2.assets[j].id,
        ) by {
            let a = s2.assets[j];
            assert(apred(a)) by {
                s.assets.lemma_filter_pred(apred, j);
            }
            assert(s.assets.contains(a));
            let j0 = choose|j0: int| 0 <= j0 < s.assets.len() && s.assets[j0] == a;
            assert(indexed(s.user_assets, s.assets[j0].user_id, s.assets[j0].id));
            let k3 = choose|k3: int|
                0 <= k3 < s.user_assets.len() && (#[trigger] s.user_assets[k3]).owner == a.user_id
                    && s.user_assets[k3].ids.contains(a.id);
            if k3 == k {
                let i0 = choose|i0: int| 0 <= i0 < old_ids.len() && old_ids[i0] == a.id;
                assert(idpred(old_ids[i0]));
                old_ids.lemma_filter_contains(idpred, i0);
                assert(s2.user_assets[k3].ids.contains(a.id));
                assert(s2.user_assets[k3].owner == a.user_id);
            } else {
                assert(s2.user_assets[k3] == s.user_assets[k3]);
            }
        }
    } else {
        // a deletable batch for an unknown owner is empty, so nothing moves
        if ids.len() > 0 {
            assert(owner_ids(s.user_assets, caller).contains(ids[0]));
            assert(false);
        }
        assert forall|i: int| 0 <= i < s.assets.len() implies apred(#[trigger] s.assets[i]) by {}
        lemma_filter_all_true(s.assets, apred);
        assert(s2 =~= s);
    }
}

/// A store whose assets keep their ids and owners, under the same counter
/// and the same ownership index, keeps the invariant.
pub proof fn lemma_inv_same_skeleton(s1: AssetsStoreV, s2: AssetsStoreV)
    requires
        store_inv(s1),
        s2.user_assets == s1.user_assets,
        s2.asset_id == s1.asset_id,
        s2.assets.len() == s1.assets.len(),
        forall|j: int|
            0 <= j < s1.assets.len() ==> (#[trigger] s2.assets[j]).id == s1.assets[j].id
                && s2.assets[j].user_id == s1.assets[j].user_id,
    ensures
        store_inv(s2),
{
    assert forall|k: int, i: int|
        0 <= k < s2.user_assets.len() && 0 <= i < s2.user_assets[k].ids.len()
        implies owned_asset_exists(
            s2.assets,
            s2.user_assets[k].owner,
            #[trigger] s2.user_assets[k].ids[i],
        ) by {
        let id = s2.user_assets[k].ids[i];
        let owner = s2.user_assets[k].owner;
        assert(owned_asset_exists(s1.assets, owner, id));
        let j = choose|j: int|
            0 <= j < s1.assets.len() && (#[trigger] s1.assets[j]).id == id
                && s1.assets[j].user_id == owner;
        assert(s2.assets[j].id == id && s2.assets[j].user_id == owner);
    }
    assert forall|j: int| 0 <= j < s2.assets.len() implies indexed(
        s2.user_assets,
        (#[trigger] s2.assets[j]).user_id,
        s2.assets[j].id,
    ) by {
        assert(indexed(s1.user_assets, s1.assets[j].user_id, s1.assets[j].id));
    }
}

/// An owned copy of a vector of ids.
fn clone_ids(ids: &Vec<u32>) -> (r: Vec<u32>)
    ensures
        r@ == ids@,
{
    let mut r: Vec<u32> = Vec::new();
    let mut i: usize = 0;
    while i < ids.len()
        invariant
            i <= ids.len(),
            r@ == ids@.take(i as int),
        decreases ids.len() - i,
    {
        r.push(ids[i]);
        i = i + 1;
        proof {
            assert(r@ =~= ids@.take(i as int));
        }
    }
    proof {
        assert(ids@.take(ids@.len() as int) =~= ids@);
    }
    r
}

/// Whether `id` occurs among `ids`.
pub(crate) fn ids_contain(ids: &Vec<u32>, id: u32) -> (r: bool)
    ensures
        r == ids@.contains(id),
{
    let mut i: usize = 0;
    while i < ids.len()
        invariant
            i <= ids.len(),
            forall|m: int| 0 <= m < i ==> ids@[m] != id,
        decreases ids.len() - i,
    {
        if ids[i] == id {
            return true;
        }
        i = i + 1;
    }
    false
}

} // verus!
