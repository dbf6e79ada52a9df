use vstd::prelude::*;
use crate::principal::{Principal, anonymous_id};
use crate::api_error::{ApiError, ApiErrorV};
use crate::whitelist::{whitelist, is_admin, admin_ids};
use crate::user::principals_view;
use crate::asset::{Asset, AssetV};
use crate::assets_store::{assets_view, asset_ids_distinct, ids_distinct, has_asset};

verus! {

/// Reject the reserved anonymous identity; every other caller passes and
/// is handed back unchanged.
pub fn validate_anonymous(principal: &Principal) -> (r: Result<Principal, ApiError>)
    ensures
        principal@ != anonymous_id() ==> (r matches Ok(p) && p@ == principal@),
        principal@ == anonymous_id() ==> (r matches Err(e) && e@ == ApiErrorV::Unauthorized(
            "UNAUTHORIZED"@,
        )),
{
    let anon = Principal::anonymous();
    if principal.same_as(&anon) {
        Err(ApiError::Unauthorized("UNAUTHORIZED".to_owned()))
    } else {
        Ok(principal.duplicate())
    }
}

/// Accept only identities on the trusted service allow-list; an accepted
/// caller is handed back unchanged.
pub fn validate_admin(principal: &Principal) -> (r: Result<Principal, ApiError>)
    ensures
        is_admin(principal@) ==> (r matches Ok(p) && p@ == principal@),
        !is_admin(principal@) ==> (r matches Err(e) && e@ == ApiErrorV::Unauthorized(
            "UNAUTHORIZED"@,
        )),
{
    let allow = whitelist();
    let mut i: usize = 0;
    while i < allow.len()
        invariant
            i <= allow.len(),
            principals_view(allow@) == admin_ids(),
            forall|m: int| 0 <= m < i ==> admin_ids()[m] != principal@,
        decreases allow.len() - i,
    {
        if allow[i].same_as(principal) {
            proof {
                assert(admin_ids()[i as int] == principal@);
                assert(is_admin(principal@));
            }
            return Ok(principal.duplicate());
        }
        proof {
            assert(admin_ids()[i as int] == allow@[i as int]@);
        }
        i = i + 1;
    }
    proof {
        assert(!is_admin(principal@));
    }
    Err(ApiError::Unauthorized("UNAUTHORIZED".to_owned()))
}

/// Whether some asset carries id `id` and is a folder.
pub open spec fn folder_with_id(assets: Seq<AssetV>, id: u32) -> bool {
    exists|j: int|
        0 <= j < assets.len() && (#[trigger] assets[j]).id == id && assets[j].asset_type
            is Folder
}

/// Whether `a` hangs directly under the subtree being collected: its parent
/// is the root itself, or a folder whose id was already collected.
pub open spec fn child_of_collected(
    assets: Seq<AssetV>,
    root: u32,
    collected: Seq<u32>,
    a: AssetV,
) -> bool {
    match a.parent_id {
        Some(p) => p == root || (collected.contains(p) && folder_with_id(assets, p)),
        None => false,
    }
}

/// Distinct collected ids, each carried by some asset, are no more
/// numerous than the assets.
proof fn lemma_collected_bound(collected: Seq<u32>, assets: Seq<AssetV>)
    requires
        ids_distinct(collected),
        forall|i: int| 0 <= i < collected.len() ==> has_asset(assets, #[trigger] collected[i]),
    ensures
        collected.len() <= assets.len(),
{
    broadcast use vstd::seq_lib::group_seq_lib_default;
    broadcast use vstd::set::group_set_axioms;

    collected.unique_seq_to_set();
    let idseq = assets.map_values(|a: AssetV| a.id);
    idseq.lemma_cardinality_of_set();
    assert forall|x: u32| collected.to_set().contains(x) implies idseq.to_set().contains(x) by {
        let i = choose|i: int| 0 <= i < collected.len() && collected[i] == x;
        assert(has_asset(assets, collected[i]));
        let j = choose|j: int| 0 <= j < assets.len() && (#[trigger] assets[j]).id == x;
        assert(idseq[j] == x);
        assert(idseq.contains(x));
    }
    assert(collected.to_set().subset_of(idseq.to_set()));
    vstd::set_lib::lemma_len_subset(collected.to_set(), idseq.to_set());
}

/// Whether the one asset carrying `id`, if any, is a folder.
fn is_folder_of(assets: &Vec<Asset>, id: u32) -> (r: bool)
    requires
        asset_ids_distinct(assets_view(assets@)),
    ensures
        r == folder_with_id(assets_view(assets@), id),
{
    let mut j: usize = 0;
    while j < assets.len()
        invariant
            j <= assets.len(),
            asset_ids_distinct(assets_view(assets@)),
            forall|m: int| 0 <= m < j ==> (#[trigger] assets_view(assets@)[m]).id != id,
        decreases assets.len() - j,
    {
        if assets[j].id == id {
            let r = assets[j].asset_type.is_folder();
            proof {
                let av = assets_view(assets@);
                let ji = j as int;
                assert(av[ji] == assets@[ji]@);
                assert(av[ji].id == id);
                if r {
                    assert(av[ji].asset_type is Folder);
                } else {
                    if folder_with_id(av, id) {
                        let j2 = choose|j2: int|
                            0 <= j2 < av.len() && (#[trigger] av[j2]).id == id && av[j2].asset_type
                                is Folder;
                        assert(ji != j2);
                        crate::assets_store::lemma_asset_index_is(av, id, ji);
                        crate::assets_store::lemma_asset_index_is(av, id, j2);
                    }
                }
            }
            return r;
        }
        j = j + 1;
    }
    false
}

/// A spec-level count of an unfinished round.
pub open spec fn round_flag(changed: bool) -> int {
    if changed {
        1
    } else {
        0
    }
}

/// The collected id `id` is accounted for: some asset carries it and hangs
/// under the root or under a collected folder.
pub open spec fn sound_entry(assets: Seq<AssetV>, root: u32, collected: Seq<u32>, id: u32) -> bool {
    exists|j: int|
        0 <= j < assets.len() && (#[trigger] assets[j]).id == id && child_of_collected(
            assets,
            root,
            collected,
            assets[j],
        )
}

/// Every collected id is accounted for.
pub open spec fn collected_sound(assets: Seq<AssetV>, root: u32, collected: Seq<u32>) -> bool {
    forall|i: int|
        0 <= i < collected.len() ==> sound_entry(assets, root, collected, #[trigger] collected[i])
}

/// Everything collected so far is closed under the children of the root
/// among the first `upto` assets.
pub open spec fn collected_closed(
    assets: Seq<AssetV>,
    root: u32,
    collected: Seq<u32>,
    upto: int,
) -> bool {
    forall|m: int|
        0 <= m < upto && child_of_collected(assets, root, collected, #[trigger] assets[m])
            ==> collected.contains(assets[m].id)
}

/// An accounted-for id stays accounted for when the collection grows.
proof fn lemma_sound_grows(
    assets: Seq<AssetV>,
    root: u32,
    c1: Seq<u32>,
    c2: Seq<u32>,
    id: u32,
)
    requires
        sound_entry(assets, root, c1, id),
        forall|p: u32| c1.contains(p) ==> c2.contains(p),
    ensures
        sound_entry(assets, root, c2, id),
{
    let j = choose|j: int|
        0 <= j < assets.len() && (#[trigger] assets[j]).id == id && child_of_collected(
            assets,
            root,
            c1,
            assets[j],
        );
    assert(child_of_collected(assets, root, c2, assets[j]));
}

/// Collect the ids below `asset_id`: every asset hanging directly under it,
/// and, recursively, everything hanging under a collected folder — children
/// of collected files or tokenized assets are not followed. The result is
/// exactly the least such set: each returned id's asset hangs under the
/// root or under a collected folder, and no id is returned twice.
pub fn get_nested_child_assets(assets: &Vec<Asset>, asset_id: &u32) -> (r: Vec<u32>)
    requires
        asset_ids_distinct(assets_view(assets@)),
    ensures
        ids_distinct(r@),
        collected_sound(assets_view(assets@), *asset_id, r@),
        collected_closed(assets_view(assets@), *asset_id, r@, assets_view(assets@).len() as int),
{
    let ghost av = assets_view(assets@);
    let root: u32 = *asset_id;
    let mut result: Vec<u32> = Vec::new();
    let mut changed = true;
    while changed
        invariant
            asset_ids_distinct(av),
            av == assets_view(assets@),
            root == *asset_id,
            ids_distinct(result@),
            result@.len() <= assets@.len(),
            collected_sound(av, root, result@),
            !changed ==> collected_closed(av, root, result@, av.len() as int),
        decreases assets@.len() - result@.len() + round_flag(changed),
    {
        changed = false;
        let ghost len0 = result@.len();
        let mut m: usize = 0;
        while m < assets.len()
            invariant
                asset_ids_distinct(av),
                av == assets_view(assets@),
                root == *asset_id,
                m <= assets.len(),
                ids_distinct(result@),
                result@.len() <= assets@.len(),
                result@.len() >= len0,
                changed ==> result@.len() > len0,
                collected_sound(av, root, result@),
                !changed ==> collected_closed(av, root, result@, m as int),
            decreases assets.len() - m,
        {
            let a = &assets[m];
            let is_child = match a.parent_id {
                Some(p) => p == root || (
                crate::assets_store::ids_contain(&result, p) && is_folder_of(assets, p)),
                None => false,
            };
            proof {
                assert(av[m as int] == a@);
                assert(is_child == child_of_collected(av, root, result@, av[m as int]));
            }
            if is_child && !crate::assets_store::ids_contain(&result, a.id) {
                let ghost before = result@;
                result.push(a.id);
                changed = true;
                proof {
                    assert forall|p: u32| before.contains(p) implies result@.contains(p) by {
                        let q = choose|q: int| 0 <= q < before.len() && before[q] == p;
                        assert(result@[q] == p);
                    }
                    assert forall|i: int| 0 <= i < result@.len() implies sound_entry(
                        av,
                        root,
                        result@,
                        #[trigger] result@[i],
                    ) by {
                        if i < before.len() {
                            assert(sound_entry(av, root, before, before[i]));
                            lemma_sound_grows(av, root, before, result@, before[i]);
                        } else {
                            assert(result@[i] == av[m as int].id);
                            assert(child_of_collected(av, root, before, av[m as int]));
                            assert(child_of_collected(av, root, result@, av[m as int]));
                            assert(sound_entry(av, root, result@, result@[i]));
                        }
                    }
                    assert forall|i: int| 0 <= i < result@.len() implies has_asset(
                        av,
                        #[trigger] result@[i],
                    ) by {
                        assert(sound_entry(av, root, result@, result@[i]));
                        let j0 = choose|j0: int|
                            0 <= j0 < av.len() && (#[trigger] av[j0]).id == result@[i]
                                && child_of_collected(av, root, result@, av[j0]);
                        assert(has_asset(av, result@[i]));
                    }
                    lemma_collected_bound(result@, av);
                    assert(av.len() == assets@.len());
                }
            }
            m = m + 1;
        }
    }
    result
}

/// Reject the anonymous identity, then require membership of the trusted
/// service allow-list.
pub fn validate_anonymous_and_admin(principal: &Principal) -> (r: Result<Principal, ApiError>)
    ensures
        principal@ != anonymous_id() && is_admin(principal@) ==> (r matches Ok(p) && p@
            == principal@),
        principal@ == anonymous_id() || !is_admin(principal@) ==> (r matches Err(e) && e@
            == ApiErrorV::Unauthorized("UNAUTHORIZED"@)),
{
    match validate_anonymous(principal) {
        Ok(_) => validate_admin(principal),
        Err(e) => Err(e),
    }
}

} // verus!
