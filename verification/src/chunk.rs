use vstd::prelude::*;
use crate::principal::Principal;

verus! {

/// A reference to one stored content block: the block's id and the address
/// of the shard that physically holds its bytes.
pub struct Chunk {
    pub id: u32,
    pub index: u32,
    pub canister: Principal,
}

#[verifier::ext_equal]
pub ghost struct ChunkV {
    pub id: u32,
    pub index: u32,
    pub canister: Seq<u8>,
}

impl View for Chunk {
    type V = ChunkV;

    open spec fn view(&self) -> ChunkV {
        ChunkV { id: self.id, index: self.index, canister: self.canister@ }
    }
}

impl Chunk {
    /// An owned copy with the same contents.
    pub fn duplicate(&self) -> (r: Chunk)
        ensures
            r@ == self@,
    {
        Chunk { id: self.id, index: self.index, canister: self.canister.duplicate() }
    }
}

/// The view of a sequence of chunk references.
pub open spec fn chunks_view(chunks: Seq<Chunk>) -> Seq<ChunkV> {
    chunks.map_values(|c: Chunk| c@)
}

/// An owned copy of a vector of chunk references.
pub fn clone_chunks(chunks: &Vec<Chunk>) -> (r: Vec<Chunk>)
    ensures
        chunks_view(r@) == chunks_view(chunks@),
{
    let mut r: Vec<Chunk> = Vec::new();
    let mut i: usize = 0;
    while i < chunks.len()
        invariant
            i <= chunks.len(),
            r@.len() == i,
            forall|k: int| 0 <= k < i ==> #[trigger] r@[k]@ == chunks@[k]@,
        decreases chunks.len() - i,
    {
        r.push(chunks[i].duplicate());
        i = i + 1;
    }
    proof {
        assert(chunks_view(r@) =~= chunks_view(chunks@));
    }
    r
}

/// A fresh content block handed to a shard for storage: the raw bytes and
/// the block's position within its file.
pub struct PostChunk {
    pub blob: Vec<u8>,
    pub index: u32,
}

#[verifier::ext_equal]
pub ghost struct PostChunkV {
    pub blob: Seq<u8>,
    pub index: u32,
}

impl View for PostChunk {
    type V = PostChunkV;

    open spec fn view(&self) -> PostChunkV {
        PostChunkV { blob: self.blob@, index: self.index }
    }
}

/// The keys held by one shard, reported to an administrator: each stored
/// block's id paired with the owner it was stored for.
pub struct ChunkStoreState {
    pub canister_owner: Principal,
    pub chunk_id: u32,
    pub chunks: Vec<(u32, Principal)>,
}

#[verifier::ext_equal]
pub ghost struct ChunkStoreStateV {
    pub canister_owner: Seq<u8>,
    pub chunk_id: u32,
    pub chunks: Seq<(u32, Seq<u8>)>,
}

impl View for ChunkStoreState {
    type V = ChunkStoreStateV;

    open spec fn view(&self) -> ChunkStoreStateV {
        ChunkStoreStateV {
            canister_owner: self.canister_owner@,
            chunk_id: self.chunk_id,
            chunks: self.chunks@.map_values(|p: (u32, Principal)| (p.0, p.1@)),
        }
    }
}

} // verus!
