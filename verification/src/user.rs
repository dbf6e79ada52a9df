use vstd::prelude::*;
use crate::principal::{Principal, anonymous_id};
use crate::text::{opt_text, clone_opt_string};

verus! {

/// An owner's registration record: the identity itself, an optional display
/// name, the registration time, and the storage shards provisioned for it.
pub struct User {
    pub user_id: Principal,
    pub username: Option<String>,
    pub created_at: u64,
    pub canisters: Vec<Principal>,
    pub alias_user_ids: Option<Vec<Principal>>,
}

#[verifier::ext_equal]
pub ghost struct UserV {
    pub user_id: Seq<u8>,
    pub username: Option<Seq<char>>,
    pub created_at: u64,
    pub canisters: Seq<Seq<u8>>,
    pub alias_user_ids: Option<Seq<Seq<u8>>>,
}

/// The view of a sequence of principals.
pub open spec fn principals_view(ps: Seq<Principal>) -> Seq<Seq<u8>> {
    ps.map_values(|p: Principal| p@)
}

/// The view of an optional sequence of principals.
pub open spec fn opt_principals_view(ps: Option<Vec<Principal>>) -> Option<Seq<Seq<u8>>> {
    match ps {
        Some(v) => Some(principals_view(v@)),
        None => None,
    }
}

impl View for User {
    type V = UserV;

    open spec fn view(&self) -> UserV {
        UserV {
            user_id: self.user_id@,
            username: opt_text(self.username),
            created_at: self.created_at,
            canisters: principals_view(self.canisters@),
            alias_user_ids: opt_principals_view(self.alias_user_ids),
        }
    }
}

/// An owned copy of a vector of principals.
pub fn clone_principals(ps: &Vec<Principal>) -> (r: Vec<Principal>)
    ensures
        principals_view(r@) == principals_view(ps@),
{
    let mut r: Vec<Principal> = Vec::new();
    let mut i: usize = 0;
    while i < ps.len()
        invariant
            i <= ps.len(),
            r@.len() == i,
            forall|k: int| 0 <= k < i ==> #[trigger] r@[k]@ == ps@[k]@,
        decreases ps.len() - i,
    {
        r.push(ps[i].duplicate());
        i = i + 1;
    }
    proof {
        assert(principals_view(r@) =~= principals_view(ps@));
    }
    r
}

impl User {
    /// An owned copy with the same contents.
    pub fn duplicate(&self) -> (r: User)
        ensures
            r@ == self@,
    {
        User {
            user_id: self.user_id.duplicate(),
            username: clone_opt_string(&self.username),
            created_at: self.created_at,
            canisters: clone_principals(&self.canisters),
            alias_user_ids: match &self.alias_user_ids {
                Some(v) => Some(clone_principals(v)),
                None => None,
            },
        }
    }
}

impl Default for User {
    /// The anonymous identity, unnamed, with no shards.
    fn default() -> (r: User)
        ensures
            r@ == (UserV {
                user_id: anonymous_id(),
                username: None,
                created_at: 0,
                canisters: Seq::<Seq<u8>>::empty(),
                alias_user_ids: None,
            }),
    {
        let r = User {
            user_id: Principal::anonymous(),
            username: None,
            created_at: 0,
            canisters: Vec::new(),
            alias_user_ids: None,
        };
        proof {
            assert(principals_view(r.canisters@) =~= Seq::<Seq<u8>>::empty());
        }
        r
    }
}

} // verus!
