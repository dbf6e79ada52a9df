use vstd::prelude::*;
use crate::principal::Principal;
use crate::asset::{Asset, PostAsset};
use crate::assets_store::{AssetsStore, spec_add_asset, spec_cleanup_target};
use crate::chunks_store::{
    ChunksStore,
    spec_delete_chunks,
    has_chunk,
    lemma_delete_chunks_removes,
};

verus! {

/// The cross-shard cleanup protocol, composed with the upsert it guards:
/// when a draft replaces the content of an existing file asset, every chunk
/// the previous asset referenced is deleted from the shard holding it —
/// before any metadata changes — and only then is the upsert committed. The
/// cleanup call's own result is ignored: a failed cleanup leaks orphaned
/// bytes, never a dangling reference.
///
/// `shard` is the chunk store the cleanup targets resolve to; the caller
/// routes by the shard address the targets name (one shard per owner in
/// practice). After the call, none of the previously referenced chunk ids
/// is retrievable from the shard for this owner.
pub fn add_asset_with_cleanup(
    assets: &mut AssetsStore,
    shard: &mut ChunksStore,
    caller_principal: &Principal,
    post_asset: PostAsset,
    now: u64,
) -> (r: Asset)
    requires
        old(assets).inv(),
        old(assets).asset_id < u32::MAX,
        old(shard).inv(),
    ensures
        final(assets).inv(),
        final(shard).inv(),
        final(assets)@ == spec_add_asset(old(assets)@, caller_principal@, post_asset@, now).0,
        r@ == spec_add_asset(old(assets)@, caller_principal@, post_asset@, now).1,
        final(shard)@.canister_owner == old(shard)@.canister_owner,
        final(shard)@.chunk_id == old(shard)@.chunk_id,
        match spec_cleanup_target(old(assets)@, caller_principal@, post_asset@) {
            Some(t) => {
                &&& final(shard)@.chunks == spec_delete_chunks(
                    old(shard)@.chunks,
                    caller_principal@,
                    t.1,
                ).0
                &&& forall|m: int|
                    0 <= m < t.1.len() ==> !has_chunk(
                        final(shard)@.chunks,
                        #[trigger] t.1[m],
                        caller_principal@,
                    )
            },
            None => final(shard)@ == old(shard)@,
        },
{
    let target = assets.chunks_to_delete(caller_principal, &post_asset);
    match target {
        Some((_shard_address, chunk_ids)) => {
            let ghost idsv = chunk_ids@;
            let _ = shard.delete_chunks_intercanister_call(caller_principal, chunk_ids);
            proof {
                lemma_delete_chunks_removes(
                    old(shard)@.chunks,
                    caller_principal@,
                    idsv,
                    old(shard)@.chunk_id,
                );
            }
        },
        None => {},
    }
    assets.add_asset(caller_principal, post_asset, now)
}

} // verus!
