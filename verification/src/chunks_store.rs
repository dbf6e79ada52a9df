use vstd::prelude::*;
use crate::principal::{Principal, anonymous_id, clone_bytes};
use crate::chunk::{Chunk, ChunkV, PostChunk, ChunkStoreState, ChunkStoreStateV};
use crate::api_error::{ApiError, ApiErrorV};

verus! {

/// One stored content block: its id, the owner it was stored for, and the
/// raw bytes.
pub struct StoredChunk {
    pub id: u32,
    pub owner: Principal,
    pub blob: Vec<u8>,
}

#[verifier::ext_equal]
pub ghost struct StoredChunkV {
    pub id: u32,
    pub owner: Seq<u8>,
    pub blob: Seq<u8>,
}

impl View for StoredChunk {
    type V = StoredChunkV;

    open spec fn view(&self) -> StoredChunkV {
        StoredChunkV { id: self.id, owner: self.owner@, blob: self.blob@ }
    }
}

impl StoredChunk {
    /// An owned copy with the same contents.
    pub fn duplicate(&self) -> (r: StoredChunk)
        ensures
            r@ == self@,
    {
        StoredChunk { id: self.id, owner: self.owner.duplicate(), blob: clone_bytes(&self.blob) }
    }
}

/// The chunk store of one shard: the owner the shard was provisioned for,
/// the shard's id counter, and the stored blocks keyed by id and owner.
pub struct ChunksStore {
    /// The identity that controls this shard.
    pub canister_owner: Principal,
    /// The last chunk id handed out by this shard; ids are never reused.
    pub chunk_id: u32,
    /// The stored blocks.
    pub chunks: Vec<StoredChunk>,
}

#[verifier::ext_equal]
pub ghost struct ChunksStoreV {
    pub canister_owner: Seq<u8>,
    pub chunk_id: u32,
    pub chunks: Seq<StoredChunkV>,
}

impl View for ChunksStore {
    type V = ChunksStoreV;

    open spec fn view(&self) -> ChunksStoreV {
        ChunksStoreV {
            canister_owner: self.canister_owner@,
            chunk_id: self.chunk_id,
            chunks: self.chunks@.map_values(|c: StoredChunk| c@),
        }
    }
}

/// Whether a block with id `id` stored for `owner` exists.
pub open spec fn has_chunk(chunks: Seq<StoredChunkV>, id: u32, owner: Seq<u8>) -> bool {
    exists|j: int|
        0 <= j < chunks.len() && (#[trigger] chunks[j]).id == id && chunks[j].owner == owner
}

/// The position of the block with id `id` stored for `owner`.
pub open spec fn chunk_index(chunks: Seq<StoredChunkV>, id: u32, owner: Seq<u8>) -> int {
    choose|j: int|
        0 <= j < chunks.len() && (#[trigger] chunks[j]).id == id && chunks[j].owner == owner
}

/// No two blocks carry the same id: the shard's counter never hands an id
/// out twice.
pub open spec fn chunk_ids_distinct(chunks: Seq<StoredChunkV>) -> bool {
    forall|i: int, j: int|
        0 <= i < j < chunks.len() ==> (#[trigger] chunks[i]).id != (#[trigger] chunks[j]).id
}

/// Every stored id lies between 1 and the counter.
pub open spec fn chunk_ids_bounded(chunks: Seq<StoredChunkV>, bound: u32) -> bool {
    forall|i: int| 0 <= i < chunks.len() ==> 1 <= (#[trigger] chunks[i]).id <= bound
}

/// The shard invariant.
pub open spec fn shard_inv(s: ChunksStoreV) -> bool {
    &&& chunk_ids_distinct(s.chunks)
    &&& chunk_ids_bounded(s.chunks, s.chunk_id)
}

/// With ids distinct, a block with id `id` at position `j` is the block the
/// key resolves to.
pub proof fn lemma_chunk_index_is(chunks: Seq<StoredChunkV>, id: u32, owner: Seq<u8>, j: int)
    requires
        chunk_ids_distinct(chunks),
        0 <= j < chunks.len(),
        chunks[j].id == id,
        chunks[j].owner == owner,
    ensures
        has_chunk(chunks, id, owner),
        chunk_index(chunks, id, owner) == j,
{
    assert(has_chunk(chunks, id, owner));
    let j2 = chunk_index(chunks, id, owner);
    if j2 < j {
        assert(chunks[j2].id != chunks[j].id);
    } else if j < j2 {
        assert(chunks[j].id != chunks[j2].id);
    }
}

/// One removal by key, in order; absent keys are skipped silently.
pub open spec fn spec_delete_chunks(chunks: Seq<StoredChunkV>, owner: Seq<u8>, ids: Seq<u32>) -> (
    Seq<StoredChunkV>,
    Seq<u32>,
)
    decreases ids.len(),
{
    if ids.len() == 0 {
        (chunks, Seq::<u32>::empty())
    } else {
        let prev = spec_delete_chunks(chunks, owner, ids.drop_last());
        let id = ids.last();
        if has_chunk(prev.0, id, owner) {
            (prev.0.remove(chunk_index(prev.0, id, owner)), prev.1.push(id))
        } else {
            prev
        }
    }
}

/// Removing one block keeps ids distinct and bounded, and keeps every other
/// block.
pub proof fn lemma_remove_chunk(chunks: Seq<StoredChunkV>, r: int, bound: u32)
    requires
        chunk_ids_distinct(chunks),
        chunk_ids_bounded(chunks, bound),
        0 <= r < chunks.len(),
    ensures
        chunk_ids_distinct(chunks.remove(r)),
        chunk_ids_bounded(chunks.remove(r), bound),
        forall|i: int|
            0 <= i < chunks.remove(r).len() ==> chunks.contains(#[trigger] chunks.remove(r)[i]),
{
    let out = chunks.remove(r);
    assert forall|i: int| 0 <= i < out.len() implies chunks.contains(#[trigger] out[i]) by {
        if i < r {
            assert(out[i] == chunks[i]);
        } else {
            assert(out[i] == chunks[i + 1]);
        }
    }
    assert forall|i: int, j: int| 0 <= i < j < out.len() implies (#[trigger] out[i]).id != (
    #[trigger] out[j]).id by {
        if j < r {
        } else if i < r {
            assert(out[j] == chunks[j + 1]);
        } else {
            assert(out[i] == chunks[i + 1] && out[j] == chunks[j + 1]);
        }
    }
    assert forall|i: int| 0 <= i < out.len() implies 1 <= (#[trigger] out[i]).id <= bound by {
        if i < r {
            assert(out[i] == chunks[i]);
        } else {
            assert(out[i] == chunks[i + 1]);
        }
    }
}

/// After a batch removal every id named in the batch is gone for that
/// owner: the shard's ids are distinct, so removing the one block under a
/// key leaves no other block under it, and removal never adds blocks back.
pub proof fn lemma_delete_chunks_removes(
    chunks: Seq<StoredChunkV>,
    owner: Seq<u8>,
    ids: Seq<u32>,
    bound: u32,
)
    requires
        chunk_ids_distinct(chunks),
        chunk_ids_bounded(chunks, bound),
    ensures
        chunk_ids_distinct(spec_delete_chunks(chunks, owner, ids).0),
        chunk_ids_bounded(spec_delete_chunks(chunks, owner, ids).0, bound),
        forall|i: int|
            0 <= i < spec_delete_chunks(chunks, owner, ids).0.len() ==> chunks.contains(
                #[trigger] spec_delete_chunks(chunks, owner, ids).0[i],
            ),
        forall|m: int|
            0 <= m < ids.len() ==> !has_chunk(
                spec_delete_chunks(chunks, owner, ids).0,
                #[trigger] ids[m],
                owner,
            ),
    decreases ids.len(),
{
    if ids.len() > 0 {
        lemma_delete_chunks_removes(chunks, owner, ids.drop_last(), bound);
        let prev = spec_delete_chunks(chunks, owner, ids.drop_last()).0;
        let out = spec_delete_chunks(chunks, owner, ids).0;
        let id = ids.last();
        if has_chunk(prev, id, owner) {
            let idx = chunk_index(prev, id, owner);
            lemma_remove_chunk(prev, idx, bound);
            assert(out == prev.remove(idx));
            // each survivor is a survivor of the previous step
            assert forall|i: int| 0 <= i < out.len() implies chunks.contains(#[trigger] out[i]) by {
                assert(prev.contains(out[i]));
                let p = choose|p: int| 0 <= p < prev.len() && prev[p] == out[i];
                assert(chunks.contains(prev[p]));
            }
            assert forall|m: int| 0 <= m < ids.len() implies !has_chunk(
                out,
                #[trigger] ids[m],
                owner,
            ) by {
                if exists|j: int|
                    0 <= j < out.len() && (#[trigger] out[j]).id == ids[m] && out[j].owner
                        == owner {
                    let j = choose|j: int|
                        0 <= j < out.len() && (#[trigger] out[j]).id == ids[m] && out[j].owner
                            == owner;
                    if m < ids.len() - 1 {
                        // it would already witness the key in the previous step
                        if j < idx {
                            assert(out[j] == prev[j]);
                        } else {
                            assert(out[j] == prev[j + 1]);
                        }
                        assert(has_chunk(prev, ids[m], owner));
                        assert(ids.drop_last()[m] == ids[m]);
                        assert(false);
                    } else {
                        // the block under the removed key was the only one
                        // carrying its id
                        if j < idx {
                            assert(out[j] == prev[j]);
                            assert(prev[j].id != prev[idx].id);
                        } else {
                            assert(out[j] == prev[j + 1]);
                            assert(prev[idx].id != prev[j + 1].id);
                        }
                        assert(false);
                    }
                }
            }
        } else {
            assert(out == prev);
            assert forall|m: int| 0 <= m < ids.len() implies !has_chunk(
                out,
                #[trigger] ids[m],
                owner,
            ) by {
                if m < ids.len() - 1 {
                    assert(ids.drop_last()[m] == ids[m]);
                }
            }
        }
    }
}

impl Default for ChunksStore {
    /// A shard owned by nobody, holding nothing.
    fn default() -> (r: ChunksStore)
        ensures
            r@ == (ChunksStoreV {
                canister_owner: anonymous_id(),
                chunk_id: 0,
                chunks: Seq::<StoredChunkV>::empty(),
            }),
            shard_inv(r@),
    {
        let r = ChunksStore {
            canister_owner: Principal::anonymous(),
            chunk_id: 0,
            chunks: Vec::new(),
        };
        proof {
            assert(r@.chunks =~= Seq::<StoredChunkV>::empty());
        }
        r
    }
}

impl ChunksStore {
    /// The shard invariant, at the executable type.
    pub open spec fn inv(&self) -> bool {
        shard_inv(self@)
    }

    /// A fresh shard configured for `canister_owner`; with no owner given,
    /// the shard starts as the default, owned by nobody.
    pub fn init(canister_owner: Option<Principal>) -> (r: ChunksStore)
        ensures
            r.inv(),
            r@.chunk_id == 0,
            r@.chunks == Seq::<StoredChunkV>::empty(),
            r@.canister_owner == match canister_owner {
                Some(o) => o@,
                None => anonymous_id(),
            },
    {
        match canister_owner {
            Some(owner) => {
                let r = ChunksStore { canister_owner: owner, chunk_id: 0, chunks: Vec::new() };
                proof {
                    assert(r@.chunks =~= Seq::<StoredChunkV>::empty());
                }
                r
            },
            None => ChunksStore::default(),
        }
    }

    /// The position of the block keyed by (`id`, `owner`), if any.
    fn find_chunk(&self, id: u32, owner: &Principal) -> (r: Option<usize>)
        ensures
            match r {
                Some(j) => j < self.chunks.len() && self@.chunks[j as int].id == id
                    && self@.chunks[j as int].owner == owner@,
                None => !has_chunk(self@.chunks, id, owner@),
            },
    {
        let mut j: usize = 0;
        while j < self.chunks.len()
            invariant
                j <= self.chunks.len(),
                forall|m: int|
                    0 <= m < j ==> !((#[trigger] self@.chunks[m]).id == id && self@.chunks[m].owner
                        == owner@),
            decreases self.chunks.len() - j,
        {
            if self.chunks[j].id == id && self.chunks[j].owner.same_as(owner) {
                return Some(j);
            }
            j = j + 1;
        }
        None
    }

    /// All stored blocks. An administrative view.
    pub fn get_all_chunks(&self) -> (r: Vec<StoredChunk>)
        ensures
            r@.map_values(|c: StoredChunk| c@) == self@.chunks,
    {
        let mut r: Vec<StoredChunk> = Vec::new();
        let mut j: usize = 0;
        while j < self.chunks.len()
            invariant
                j <= self.chunks.len(),
                r@.len() == j,
                forall|m: int| 0 <= m < j ==> (#[trigger] r@[m])@ == self.chunks@[m]@,
            decreases self.chunks.len() - j,
        {
            r.push(self.chunks[j].duplicate());
            j = j + 1;
        }
        proof {
            assert(r@.map_values(|c: StoredChunk| c@) =~= self@.chunks);
        }
        r
    }

    /// The shard's keys, for an administrator: each block's id with the
    /// owner it was stored for.
    pub fn get_state(&self) -> (r: ChunkStoreState)
        ensures
            r@ == (ChunkStoreStateV {
                canister_owner: self@.canister_owner,
                chunk_id: self@.chunk_id,
                chunks: self@.chunks.map_values(|c: StoredChunkV| (c.id, c.owner)),
            }),
    {
        let mut keys: Vec<(u32, Principal)> = Vec::new();
        let mut j: usize = 0;
        while j < self.chunks.len()
            invariant
                j <= self.chunks.len(),
                keys@.len() == j,
                forall|m: int|
                    0 <= m < j ==> (#[trigger] keys@[m]).0 == self.chunks@[m]@.id && keys@[m].1@
                        == self.chunks@[m]@.owner,
            decreases self.chunks.len() - j,
        {
            let c = &self.chunks[j];
            keys.push((c.id, c.owner.duplicate()));
            j = j + 1;
        }
        let r = ChunkStoreState {
            canister_owner: self.canister_owner.duplicate(),
            chunk_id: self.chunk_id,
            chunks: keys,
        };
        proof {
            assert(r@.chunks =~= self@.chunks.map_values(|c: StoredChunkV| (c.id, c.owner)));
        }
        r
    }

    /// The bytes stored under (`chunk_id`, caller). Only the shard's owner
    /// may read; an unknown key fails with `NotFound`.
    pub fn get_chunks_by_chunk_id(&self, chunk_id: u32, caller_principal: &Principal) -> (r: Result<
        Vec<u8>,
        ApiError,
    >)
        requires
            self.inv(),
        ensures
            caller_principal@ != self@.canister_owner ==> (r matches Err(e) && e@
                == ApiErrorV::Unauthorized("UNAUTHORIZED"@)),
            caller_principal@ == self@.canister_owner && has_chunk(
                self@.chunks,
                chunk_id,
                caller_principal@,
            ) ==> (r matches Ok(b) && b@ == self@.chunks[chunk_index(
                self@.chunks,
                chunk_id,
                caller_principal@,
            )].blob),
            caller_principal@ == self@.canister_owner && !has_chunk(
                self@.chunks,
                chunk_id,
                caller_principal@,
            ) ==> (r matches Err(e) && e@ == ApiErrorV::NotFound("CHUNKS_NOT_FOUND"@)),
    {
        if !caller_principal.same_as(&self.canister_owner) {
            return Err(ApiError::Unauthorized("UNAUTHORIZED".to_owned()));
        }
        match self.find_chunk(chunk_id, caller_principal) {
            Some(j) => {
                proof {
                    lemma_chunk_index_is(self@.chunks, chunk_id, caller_principal@, j as int);
                }
                Ok(clone_bytes(&self.chunks[j].blob))
            },
            None => Err(ApiError::NotFound("CHUNKS_NOT_FOUND".to_owned())),
        }
    }

    /// Store a fresh block for the caller. Only the shard's owner may
    /// write. The new block gets the next id; the returned reference names
    /// this shard by `self_canister`, the address the shard itself runs
    /// under.
    pub fn add_chunk(
        &mut self,
        caller_principal: &Principal,
        post_chunk: PostChunk,
        self_canister: &Principal,
    ) -> (r: Result<Chunk, ApiError>)
        requires
            old(self).inv(),
            old(self).chunk_id < u32::MAX,
        ensures
            final(self).inv(),
            caller_principal@ != old(self)@.canister_owner ==> final(self)@ == old(self)@ && (
            r matches Err(e) && e@ == ApiErrorV::Unauthorized("UNAUTHORIZED"@)),
            caller_principal@ == old(self)@.canister_owner ==> {
                &&& final(self)@ == (ChunksStoreV {
                    canister_owner: old(self)@.canister_owner,
                    chunk_id: (old(self)@.chunk_id + 1) as u32,
                    chunks: old(self)@.chunks.push(
                        StoredChunkV {
                            id: (old(self)@.chunk_id + 1) as u32,
                            owner: caller_principal@,
                            blob: post_chunk@.blob,
                        },
                    ),
                })
                &&& r matches Ok(c) && c@ == (ChunkV {
                    id: (old(self)@.chunk_id + 1) as u32,
                    index: post_chunk@.index,
                    canister: self_canister@,
                })
            },
    {
        let ghost s0 = self@;
        if !caller_principal.same_as(&self.canister_owner) {
            return Err(ApiError::Unauthorized("UNAUTHORIZED".to_owned()));
        }
        self.chunk_id = self.chunk_id + 1;
        let id: u32 = self.chunk_id;
        self.chunks.push(
            StoredChunk { id: id, owner: caller_principal.duplicate(), blob: post_chunk.blob },
        );
        proof {
            assert(self@.chunks =~= s0.chunks.push(
                StoredChunkV { id: id, owner: caller_principal@, blob: post_chunk@.blob },
            ));
            assert forall|i: int, j: int| 0 <= i < j < self@.chunks.len() implies (
            #[trigger] self@.chunks[i]).id != (#[trigger] self@.chunks[j]).id by {
                if j == self@.chunks.len() - 1 {
                    assert(1 <= s0.chunks[i].id <= s0.chunk_id);
                }
            }
        }
        Ok(Chunk { id: id, index: post_chunk.index, canister: self_canister.duplicate() })
    }

    /// Remove the blocks keyed by the given ids for `owner`, in order,
    /// returning the ids actually removed; absent ids are skipped, not an
    /// error.
    fn remove_for_owner(&mut self, owner: &Principal, delete_chunk_ids: &Vec<u32>) -> (r: Vec<u32>)
        requires
            old(self).inv(),
        ensures
            final(self).inv(),
            final(self)@.canister_owner == old(self)@.canister_owner,
            final(self)@.chunk_id == old(self)@.chunk_id,
            (final(self)@.chunks, r@) == spec_delete_chunks(
                old(self)@.chunks,
                owner@,
                delete_chunk_ids@,
            ),
    {
        let ghost s0 = self@;
        let mut removed: Vec<u32> = Vec::new();
        let mut i: usize = 0;
        while i < delete_chunk_ids.len()
            invariant
                i <= delete_chunk_ids.len(),
                self@.canister_owner == s0.canister_owner,
                self@.chunk_id == s0.chunk_id,
                chunk_ids_distinct(self@.chunks),
                chunk_ids_bounded(self@.chunks, self@.chunk_id),
                (self@.chunks, removed@) == spec_delete_chunks(
                    s0.chunks,
                    owner@,
                    delete_chunk_ids@.take(i as int),
                ),
            decreases delete_chunk_ids.len() - i,
        {
            let ghost sc = self@;
            let id: u32 = delete_chunk_ids[i];
            proof {
                assert(delete_chunk_ids@.take(i as int + 1).drop_last() =~= delete_chunk_ids@.take(
                    i as int,
                ));
                assert(delete_chunk_ids@.take(i as int + 1).last() == id);
            }
            match self.find_chunk(id, owner) {
                Some(j) => {
                    proof {
                        lemma_chunk_index_is(sc.chunks, id, owner@, j as int);
                        lemma_remove_chunk(sc.chunks, j as int, sc.chunk_id);
                    }
                    self.chunks.remove(j);
                    removed.push(id);
                    proof {
                        assert(self@.chunks =~= sc.chunks.remove(j as int));
                    }
                },
                None => {},
            }
            i = i + 1;
        }
        proof {
            assert(delete_chunk_ids@.take(delete_chunk_ids@.len() as int) =~= delete_chunk_ids@);
        }
        removed
    }

    /// Remove a batch of the caller's blocks. Only the shard's owner may
    /// delete; absent ids are skipped silently and the ids actually removed
    /// are returned.
    pub fn delete_chunks(&mut self, caller_principal: &Principal, delete_chunk_ids: Vec<u32>) -> (r:
        Result<Vec<u32>, ApiError>)
        requires
            old(self).inv(),
        ensures
            final(self).inv(),
            caller_principal@ != old(self)@.canister_owner ==> final(self)@ == old(self)@ && (
            r matches Err(e) && e@ == ApiErrorV::Unauthorized("UNAUTHORIZED"@)),
            caller_principal@ == old(self)@.canister_owner ==> {
                &&& final(self)@.canister_owner == old(self)@.canister_owner
                &&& final(self)@.chunk_id == old(self)@.chunk_id
                &&& r matches Ok(out) && (final(self)@.chunks, out@) == spec_delete_chunks(
                    old(self)@.chunks,
                    caller_principal@,
                    delete_chunk_ids@,
                )
            },
    {
        if !caller_principal.same_as(&self.canister_owner) {
            return Err(ApiError::Unauthorized("UNAUTHORIZED".to_owned()));
        }
        Ok(self.remove_for_owner(caller_principal, &delete_chunk_ids))
    }

    /// Remove a batch of blocks stored for the given owner, on behalf of
    /// the metadata store's cleanup call. The owner is taken from the
    /// argument, not from the caller: the boundary restricts this entry
    /// point to the trusted service allow-list.
    pub fn delete_chunks_intercanister_call(
        &mut self,
        caller_principal: &Principal,
        delete_chunk_ids: Vec<u32>,
    ) -> (r: Result<Vec<u32>, ApiError>)
        requires
            old(self).inv(),
        ensures
            final(self).inv(),
            final(self)@.canister_owner == old(self)@.canister_owner,
            final(self)@.chunk_id == old(self)@.chunk_id,
            r matches Ok(out) && (final(self)@.chunks, out@) == spec_delete_chunks(
                old(self)@.chunks,
                caller_principal@,
                delete_chunk_ids@,
            ),
    {
        Ok(self.remove_for_owner(caller_principal, &delete_chunk_ids))
    }

    /// A full copy of the shard's state, for persistence across restarts.
    pub fn snapshot(&self) -> (r: ChunksStore)
        ensures
            r@ == self@,
    {
        let r = ChunksStore {
            canister_owner: self.canister_owner.duplicate(),
            chunk_id: self.chunk_id,
            chunks: {
                let mut cs: Vec<StoredChunk> = Vec::new();
                let mut j: usize = 0;
                while j < self.chunks.len()
                    invariant
                        j <= self.chunks.len(),
                        cs@.len() == j,
                        forall|m: int| 0 <= m < j ==> (#[trigger] cs@[m])@ == self.chunks@[m]@,
                    decreases self.chunks.len() - j,
                {
                    cs.push(self.chunks[j].duplicate());
                    j = j + 1;
                }
                cs
            },
        };
        proof {
            assert(r@.chunks =~= self@.chunks);
        }
        r
    }

    /// Adopt a snapshot verbatim as the running state.
    pub fn restore(snapshot: ChunksStore) -> (r: ChunksStore)
        ensures
            r@ == snapshot@,
    {
        snapshot
    }
}

} // verus!
