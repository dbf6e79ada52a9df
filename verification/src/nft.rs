use vstd::prelude::*;
use crate::principal::Principal;

verus! {

/// A reference to a token held by an external ledger: the ledger's identity
/// and the token's index within it.
pub struct Nft {
    pub principal: Principal,
    pub index: u32,
}

#[verifier::ext_equal]
pub ghost struct NftV {
    pub principal: Seq<u8>,
    pub index: u32,
}

impl View for Nft {
    type V = NftV;

    open spec fn view(&self) -> NftV {
        NftV { principal: self.principal@, index: self.index }
    }
}

impl Nft {
    /// An owned copy with the same contents.
    pub fn duplicate(&self) -> (r: Nft)
        ensures
            r@ == self@,
    {
        Nft { principal: self.principal.duplicate(), index: self.index }
    }
}

impl Default for Nft {
    /// The anonymous ledger identity and index zero.
    fn default() -> (r: Nft)
        ensures
            r@ == (NftV { principal: crate::principal::anonymous_id(), index: 0 }),
    {
        Nft { principal: Principal::anonymous(), index: 0 }
    }
}

} // verus!
