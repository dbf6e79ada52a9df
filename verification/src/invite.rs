use vstd::prelude::*;
use crate::principal::{Principal, anonymous_id};
use crate::text::opt_text;

verus! {

/// Where an invitation to a shared asset stands.
#[derive(Clone, Copy, Debug, PartialEq, Eq, Structural)]
pub enum InviteStatus {
    Accepted,
    Pending,
    Declined,
}

/// An invitation by one owner granting another identity access to one of
/// the owner's assets. Part of the sharing workflow, which is not yet wired
/// into the stores.
pub struct Invite {
    pub invited_by_principal: Principal,
    pub invited_by_username: Option<String>,
    pub asset_id: u32,
    pub status: InviteStatus,
    pub expires_at: Option<u64>,
}

#[verifier::ext_equal]
pub ghost struct InviteV {
    pub invited_by_principal: Seq<u8>,
    pub invited_by_username: Option<Seq<char>>,
    pub asset_id: u32,
    pub status: InviteStatus,
    pub expires_at: Option<u64>,
}

impl View for Invite {
    type V = InviteV;

    open spec fn view(&self) -> InviteV {
        InviteV {
            invited_by_principal: self.invited_by_principal@,
            invited_by_username: opt_text(self.invited_by_username),
            asset_id: self.asset_id,
            status: self.status,
            expires_at: self.expires_at,
        }
    }
}

impl Default for Invite {
    /// A pending invitation from the anonymous identity for asset zero.
    fn default() -> (r: Invite)
        ensures
            r@ == (InviteV {
                invited_by_principal: anonymous_id(),
                invited_by_username: None,
                asset_id: 0,
                status: InviteStatus::Pending,
                expires_at: None,
            }),
    {
        Invite {
            invited_by_principal: Principal::anonymous(),
            invited_by_username: None,
            asset_id: 0,
            status: InviteStatus::Pending,
            expires_at: None,
        }
    }
}

} // verus!
