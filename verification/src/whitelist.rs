use vstd::prelude::*;
use crate::principal::Principal;
use crate::user::principals_view;

verus! {

/// The first trusted service identity, as raw principal bytes.
pub open spec fn admin_id_0() -> Seq<u8> {
    seq![
        196u8, 75u8, 5u8, 132u8, 125u8, 225u8, 127u8, 95u8, 211u8, 193u8, 96u8, 63u8, 134u8,
        229u8, 159u8, 75u8, 47u8, 24u8, 148u8, 71u8, 162u8, 194u8, 254u8, 70u8, 123u8, 60u8,
        20u8, 208u8, 2u8,
    ]
}

/// The second trusted service identity, as raw principal bytes.
pub open spec fn admin_id_1() -> Seq<u8> {
    seq![
        234u8, 152u8, 3u8, 117u8, 23u8, 112u8, 216u8, 223u8, 123u8, 234u8, 139u8, 2u8, 22u8,
        79u8, 82u8, 245u8, 189u8, 229u8, 77u8, 55u8, 222u8, 214u8, 89u8, 255u8, 80u8, 21u8,
        41u8, 113u8, 2u8,
    ]
}

/// The third trusted service identity, as raw principal bytes.
pub open spec fn admin_id_2() -> Seq<u8> {
    seq![0u8, 0u8, 0u8, 0u8, 1u8, 192u8, 15u8, 118u8, 1u8, 1u8]
}

/// The fourth trusted service identity, as raw principal bytes.
pub open spec fn admin_id_3() -> Seq<u8> {
    seq![0u8, 0u8, 0u8, 0u8, 1u8, 192u8, 16u8, 46u8, 1u8, 1u8]
}

/// The fifth trusted service identity, as raw principal bytes.
pub open spec fn admin_id_4() -> Seq<u8> {
    seq![0u8, 0u8, 0u8, 0u8, 1u8, 192u8, 5u8, 241u8, 1u8, 1u8]
}

/// The fixed allow-list of trusted service identities.
pub open spec fn admin_ids() -> Seq<Seq<u8>> {
    seq![admin_id_0(), admin_id_1(), admin_id_2(), admin_id_3(), admin_id_4()]
}

/// Whether `p` is on the trusted service allow-list.
pub open spec fn is_admin(p: Seq<u8>) -> bool {
    admin_ids().contains(p)
}

/// The fixed allow-list of trusted service identities, as principals.
pub fn whitelist() -> (r: Vec<Principal>)
    ensures
        principals_view(r@) == admin_ids(),
{
    let p0 = Principal::from_bytes(vec![
        196u8, 75u8, 5u8, 132u8, 125u8, 225u8, 127u8, 95u8, 211u8, 193u8, 96u8, 63u8, 134u8,
        229u8, 159u8, 75u8, 47u8, 24u8, 148u8, 71u8, 162u8, 194u8, 254u8, 70u8, 123u8, 60u8,
        20u8, 208u8, 2u8,
    ]);
    let p1 = Principal::from_bytes(vec![
        234u8, 152u8, 3u8, 117u8, 23u8, 112u8, 216u8, 223u8, 123u8, 234u8, 139u8, 2u8, 22u8,
        79u8, 82u8, 245u8, 189u8, 229u8, 77u8, 55u8, 222u8, 214u8, 89u8, 255u8, 80u8, 21u8,
        41u8, 113u8, 2u8,
    ]);
    let p2 = Principal::from_bytes(vec![0u8, 0u8, 0u8, 0u8, 1u8, 192u8, 15u8, 118u8, 1u8, 1u8]);
    let p3 = Principal::from_bytes(vec![0u8, 0u8, 0u8, 0u8, 1u8, 192u8, 16u8, 46u8, 1u8, 1u8]);
    let p4 = Principal::from_bytes(vec![0u8, 0u8, 0u8, 0u8, 1u8, 192u8, 5u8, 241u8, 1u8, 1u8]);
    proof {
        assert(p0@ =~= admin_id_0());
        assert(p1@ =~= admin_id_1());
        assert(p2@ =~= admin_id_2());
        assert(p3@ =~= admin_id_3());
        assert(p4@ =~= admin_id_4());
    }
    let r: Vec<Principal> = vec![p0, p1, p2, p3, p4];
    proof {
        assert(principals_view(r@) =~= admin_ids());
    }
    r
}

} // verus!
