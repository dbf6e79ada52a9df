use vstd::prelude::*;
use crate::principal::{Principal, clone_bytes};
use crate::user::{User, UserV, principals_view, clone_principals};
use crate::api_error::{ApiError, ApiErrorV};
use crate::text::clone_opt_string;

verus! {

/// The identity directory: every registered owner's record, and the
/// program installed into each freshly provisioned storage shard.
pub struct UsersStore {
    /// One record per registered owner.
    pub users: Vec<User>,
    /// The shard program handed to the platform at provisioning time.
    pub chunks_wasm: Vec<u8>,
}

#[verifier::ext_equal]
pub ghost struct UsersStoreV {
    pub users: Seq<UserV>,
    pub chunks_wasm: Seq<u8>,
}

impl View for UsersStore {
    type V = UsersStoreV;

    open spec fn view(&self) -> UsersStoreV {
        UsersStoreV {
            users: self.users@.map_values(|u: User| u@),
            chunks_wasm: self.chunks_wasm@,
        }
    }
}

/// Whether a record for `owner` exists.
pub open spec fn has_user(users: Seq<UserV>, owner: Seq<u8>) -> bool {
    exists|j: int| 0 <= j < users.len() && (#[trigger] users[j]).user_id == owner
}

/// The position of `owner`'s record.
pub open spec fn user_index(users: Seq<UserV>, owner: Seq<u8>) -> int {
    choose|j: int| 0 <= j < users.len() && (#[trigger] users[j]).user_id == owner
}

/// No two records belong to the same owner: registration is gated to
/// exactly once per identity.
pub open spec fn users_distinct(users: Seq<UserV>) -> bool {
    forall|i: int, j: int|
        0 <= i < j < users.len() ==> (#[trigger] users[i]).user_id != (#[trigger] users[j]).user_id
}

/// With records distinct, a record for `owner` at position `j` is the
/// record the identity resolves to.
pub proof fn lemma_user_index_is(users: Seq<UserV>, owner: Seq<u8>, j: int)
    requires
        users_distinct(users),
        0 <= j < users.len(),
        users[j].user_id == owner,
    ensures
        has_user(users, owner),
        user_index(users, owner) == j,
{
    assert(has_user(users, owner));
    let j2 = user_index(users, owner);
    if j2 < j {
        assert(users[j2].user_id != users[j].user_id);
    } else if j < j2 {
        assert(users[j].user_id != users[j2].user_id);
    }
}

impl Default for UsersStore {
    /// An empty directory holding no shard program.
    fn default() -> (r: UsersStore)
        ensures
            r.inv(),
            r@ == (UsersStoreV { users: Seq::<UserV>::empty(), chunks_wasm: Seq::<u8>::empty() }),
    {
        let r = UsersStore { users: Vec::new(), chunks_wasm: Vec::new() };
        proof {
            assert(r@.users =~= Seq::<UserV>::empty());
            assert(r@.chunks_wasm =~= Seq::<u8>::empty());
        }
        r
    }
}

impl UsersStore {
    /// The directory invariant, at the executable type.
    pub open spec fn inv(&self) -> bool {
        users_distinct(self@.users)
    }

    /// The position of `owner`'s record, if any.
    fn find_user(&self, owner: &Principal) -> (r: Option<usize>)
        ensures
            match r {
                Some(j) => j < self.users.len() && self@.users[j as int].user_id == owner@,
                None => !has_user(self@.users, owner@),
            },
    {
        let mut j: usize = 0;
        while j < self.users.len()
            invariant
                j <= self.users.len(),
                forall|m: int| 0 <= m < j ==> (#[trigger] self@.users[m]).user_id != owner@,
            decreases self.users.len() - j,
        {
            if self.users[j].user_id.same_as(owner) {
                return Some(j);
            }
            j = j + 1;
        }
        None
    }

    /// All owner records. An administrative view.
    pub fn get_all_users(&self) -> (r: Vec<User>)
        ensures
            r@.map_values(|u: User| u@) == self@.users,
    {
        let mut r: Vec<User> = Vec::new();
        let mut j: usize = 0;
        while j < self.users.len()
            invariant
                j <= self.users.len(),
                r@.len() == j,
                forall|m: int| 0 <= m < j ==> (#[trigger] r@[m])@ == self.users@[m]@,
            decreases self.users.len() - j,
        {
            r.push(self.users[j].duplicate());
            j = j + 1;
        }
        proof {
            assert(r@.map_values(|u: User| u@) =~= self@.users);
        }
        r
    }

    /// Every owner paired with the shard addresses provisioned for it. An
    /// administrative view.
    pub fn get_all_chunk_canisters(&self) -> (r: Vec<(Principal, Vec<Principal>)>)
        ensures
            r@.len() == self@.users.len(),
            forall|m: int|
                0 <= m < r@.len() ==> (#[trigger] r@[m]).0@ == self@.users[m].user_id
                    && principals_view(r@[m].1@) == self@.users[m].canisters,
    {
        let mut r: Vec<(Principal, Vec<Principal>)> = Vec::new();
        let mut j: usize = 0;
        while j < self.users.len()
            invariant
                j <= self.users.len(),
                r@.len() == j,
                forall|m: int|
                    0 <= m < j ==> (#[trigger] r@[m]).0@ == self@.users[m].user_id
                        && principals_view(r@[m].1@) == self@.users[m].canisters,
            decreases self.users.len() - j,
        {
            let u = &self.users[j];
            r.push((u.user_id.duplicate(), clone_principals(&u.canisters)));
            j = j + 1;
        }
        r
    }

    /// The caller's own record; `NotFound` for an unregistered identity.
    pub fn get_user(&self, caller_principal: &Principal) -> (r: Result<User, ApiError>)
        requires
            self.inv(),
        ensures
            has_user(self@.users, caller_principal@) ==> (r matches Ok(u) && u@ == self@.users[
                user_index(self@.users, caller_principal@)]),
            !has_user(self@.users, caller_principal@) ==> (r matches Err(e) && e@
                == ApiErrorV::NotFound("USER_NOT_FOUND"@)),
    {
        match self.find_user(caller_principal) {
            Some(j) => {
                proof {
                    lemma_user_index_is(self@.users, caller_principal@, j as int);
                }
                Ok(self.users[j].duplicate())
            },
            None => Err(ApiError::NotFound("USER_NOT_FOUND".to_owned())),
        }
    }

    /// Register the caller: exactly once per identity. A second
    /// registration fails with `AlreadyExists` and changes nothing. The
    /// fresh record carries no shard address yet; the shard provisioned
    /// right after registration is attached with `attach_canister`.
    pub fn create_user(
        &mut self,
        caller_principal: &Principal,
        username: Option<String>,
        now: u64,
    ) -> (r: Result<User, ApiError>)
        requires
            old(self).inv(),
        ensures
            final(self).inv(),
            has_user(old(self)@.users, caller_principal@) ==> final(self)@ == old(self)@ && (
            r matches Err(e) && e@ == ApiErrorV::AlreadyExists("USER_EXISTS"@)),
            !has_user(old(self)@.users, caller_principal@) ==> {
                &&& final(self)@.chunks_wasm == old(self)@.chunks_wasm
                &&& final(self)@.users == old(self)@.users.push(
                    UserV {
                        user_id: caller_principal@,
                        username: crate::text::opt_text(username),
                        created_at: now,
                        canisters: Seq::<Seq<u8>>::empty(),
                        alias_user_ids: None,
                    },
                )
                &&& r matches Ok(u) && u@ == (UserV {
                    user_id: caller_principal@,
                    username: crate::text::opt_text(username),
                    created_at: now,
                    canisters: Seq::<Seq<u8>>::empty(),
                    alias_user_ids: None,
                })
            },
    {
        let ghost s0 = self@;
        if let Some(_j) = self.find_user(caller_principal) {
            return Err(ApiError::AlreadyExists("USER_EXISTS".to_owned()));
        }
        let user_to_add = User {
            user_id: caller_principal.duplicate(),
            username: username,
            created_at: now,
            canisters: Vec::new(),
            alias_user_ids: None,
        };
        let ret = user_to_add.duplicate();
        let ghost uv = user_to_add@;
        self.users.push(user_to_add);
        proof {
            assert(principals_view(Seq::<Principal>::empty()) =~= Seq::<Seq<u8>>::empty());
            assert(uv.canisters =~= Seq::<Seq<u8>>::empty());
            assert(self@.users =~= s0.users.push(uv));
            assert forall|i: int, j: int| 0 <= i < j < self@.users.len() implies (
            #[trigger] self@.users[i]).user_id != (#[trigger] self@.users[j]).user_id by {
                if j == self@.users.len() - 1 {
                    if s0.users[i].user_id == caller_principal@ {
                        assert(has_user(s0.users, caller_principal@));
                    }
                }
            }
        }
        Ok(ret)
    }

    /// Attach a freshly provisioned shard address to an owner's record,
    /// returning the updated record; an unknown owner changes nothing.
    pub fn attach_canister(&mut self, user_principal: &Principal, canister: Principal) -> (r:
        Option<User>)
        requires
            old(self).inv(),
        ensures
            final(self).inv(),
            final(self)@.chunks_wasm == old(self)@.chunks_wasm,
            has_user(old(self)@.users, user_principal@) ==> {
                &&& final(self)@.users == old(self)@.users.update(
                    user_index(old(self)@.users, user_principal@),
                    UserV {
                        canisters: old(self)@.users[user_index(
                            old(self)@.users,
                            user_principal@,
                        )].canisters.push(canister@),
                        ..old(self)@.users[user_index(old(self)@.users, user_principal@)]
                    },
                )
                &&& r matches Some(u) && u@ == final(self)@.users[user_index(
                    old(self)@.users,
                    user_principal@,
                )]
            },
            !has_user(old(self)@.users, user_principal@) ==> final(self)@ == old(self)@ && r
                is None,
    {
        let ghost s0 = self@;
        match self.find_user(user_principal) {
            Some(j) => {
                proof {
                    lemma_user_index_is(s0.users, user_principal@, j as int);
                }
                let mut u2 = self.users[j].duplicate();
                u2.canisters.push(canister);
                let ret = u2.duplicate();
                let ghost u2v = u2@;
                self.users[j] = u2;
                proof {
                    assert(u2v.canisters =~= s0.users[j as int].canisters.push(canister@));
                    assert(u2v =~= (UserV {
                        canisters: s0.users[j as int].canisters.push(canister@),
                        ..s0.users[j as int]
                    }));
                    assert(self@.users =~= s0.users.update(j as int, u2v));
                    assert forall|i: int, m: int| 0 <= i < m < self@.users.len() implies (
                    #[trigger] self@.users[i]).user_id != (#[trigger] self@.users[m]).user_id by {
                        assert(self@.users[i].user_id == s0.users[i].user_id);
                        assert(self@.users[m].user_id == s0.users[m].user_id);
                    }
                }
                Some(ret)
            },
            None => {
                proof {
                    assert(self@ =~= s0);
                }
                None
            },
        }
    }

    /// The shard program to install into freshly provisioned shards. An
    /// administrative view.
    pub fn get_chunks_wasm(&self) -> (r: Vec<u8>)
        ensures
            r@ == self@.chunks_wasm,
    {
        clone_bytes(&self.chunks_wasm)
    }

    /// A full copy of the directory's state, for persistence across
    /// restarts.
    pub fn snapshot(&self) -> (r: UsersStore)
        ensures
            r@ == self@,
    {
        let r = UsersStore { users: self.get_all_users(), chunks_wasm: clone_bytes(&self.chunks_wasm) };
        proof {
            assert(r@ =~= self@);
        }
        r
    }

    /// Adopt a snapshot verbatim as the running state.
    pub fn restore(snapshot: UsersStore) -> (r: UsersStore)
        ensures
            r@ == snapshot@,
    {
        snapshot
    }
}

} // verus!
