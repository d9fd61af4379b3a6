use vstd::prelude::*;

verus! {

/// A request as it arrives on the wire, after the dispatcher has decoded it.
/// `LoadIdentity` and `SendIdentity` concern session identity and are handled
/// by the authentication side, not by the matching engine.
#[derive(Debug, PartialEq, Eq)]
pub enum ServerRequest {
    NeedReviewer {},
    HaveTimeForReview {},
    WillReview { review_id: u32 },
    WontReview { review_id: u32 },
    LoadIdentity {},
    SendIdentity { token: String },
}

/// Every answer the service can give. The matching engine itself produces
/// `Accepted`, `NoReviewerNeeded`, `AlreadyRegistered`, `NeedsReviewer` and
/// `ReviewNotFound`; the identity answers come from the authentication side.
#[derive(Debug, PartialEq, Eq)]
pub enum ServerResponse {
    Accepted {},
    NoReviewerNeeded {},
    AlreadyRegistered {},
    NeedsReviewer { coder: String, review_id: u32 },
    ReviewNotFound {},
    KnownIdentity { username: String },
    UnknownIdentity {},
}

} // verus!
