use vstd::prelude::*;

verus! {

/// The platform's report of a failed shard provisioning step: the
/// platform's error code and its message.
#[derive(Debug)]
pub struct CanisterFailedError {
    pub code: u32,
    pub message: String,
}

/// The typed failures every public operation can return.
#[derive(Debug)]
pub enum ApiError {
    /// The caller fails an authorization predicate.
    Unauthorized(String),
    /// The referenced asset, chunk or owner does not exist or is not
    /// visible to the caller.
    NotFound(String),
    /// A second registration for an already-registered owner.
    AlreadyExists(String),
    /// Shard provisioning failed; carries the platform's code and message.
    CanisterFailed(CanisterFailedError),
}

#[verifier::ext_equal]
pub ghost enum ApiErrorV {
    Unauthorized(Seq<char>),
    NotFound(Seq<char>),
    AlreadyExists(Seq<char>),
    CanisterFailed(u32, Seq<char>),
}

impl View for ApiError {
    type V = ApiErrorV;

    open spec fn view(&self) -> ApiErrorV {
        match self {
            ApiError::Unauthorized(m) => ApiErrorV::Unauthorized(m@),
            ApiError::NotFound(m) => ApiErrorV::NotFound(m@),
            ApiError::AlreadyExists(m) => ApiErrorV::AlreadyExists(m@),
            ApiError::CanisterFailed(e) => ApiErrorV::CanisterFailed(e.code, e.message@),
        }
    }
}

impl ApiError {
    /// The error's message, for display.
    pub fn message(&self) -> (r: String)
        ensures
            r@ == match self@ {
                ApiErrorV::Unauthorized(m) => m,
                ApiErrorV::NotFound(m) => m,
                ApiErrorV::AlreadyExists(m) => m,
                ApiErrorV::CanisterFailed(_, m) => m,
            },
    {
        match self {
            ApiError::Unauthorized(m) => m.clone(),
            ApiError::NotFound(m) => m.clone(),
            ApiError::AlreadyExists(m) => m.clone(),
            ApiError::CanisterFailed(e) => e.message.clone(),
        }
    }
}

} // verus!
