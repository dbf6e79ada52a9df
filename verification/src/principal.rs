use vstd::prelude::*;

verus! {

/// An opaque caller identity: the universal partition key of the service.
/// A principal is carried as its raw byte representation; two principals
/// denote the same owner exactly when their bytes agree.
pub struct Principal {
    pub bytes: Vec<u8>,
}

impl View for Principal {
    type V = Seq<u8>;

    open spec fn view(&self) -> Seq<u8> {
        self.bytes@
    }
}

/// The byte representation of the single reserved "nobody" identity.
pub open spec fn anonymous_id() -> Seq<u8> {
    seq![4u8]
}

impl Principal {
    /// Wrap raw identity bytes.
    pub fn from_bytes(bytes: Vec<u8>) -> (r: Principal)
        ensures
            r@ == bytes@,
    {
        Principal { bytes }
    }

    /// The reserved anonymous identity.
    pub fn anonymous() -> (r: Principal)
        ensures
            r@ == anonymous_id(),
    {
        let bytes: Vec<u8> = vec![4u8];
        proof {
            assert(bytes@ =~= anonymous_id());
        }
        Principal { bytes }
    }

    /// Whether two principals denote the same owner.
    pub fn same_as(&self, other: &Principal) -> (r: bool)
        ensures
            r == (self@ == other@),
    {
        let r = self.bytes == other.bytes;
        proof {
            if r {
                assert(self@ =~= other@);
            }
        }
        r
    }

    /// An owned copy of this identity.
    pub fn duplicate(&self) -> (r: Principal)
        ensures
            r@ == self@,
    {
        let bytes = clone_bytes(&self.bytes);
        Principal { bytes }
    }
}

/// An owned copy of a byte vector.
pub fn clone_bytes(v: &Vec<u8>) -> (r: Vec<u8>)
    ensures
        r@ == v@,
{
    let r = v.clone();
    proof {
        assert(r@ =~= v@);
    }
    r
}

} // verus!
