use vstd::prelude::*;

use crate::application::Application;
use crate::authentication::Authentication;
use crate::authentication::lookup;
use crate::idgen::IdGenerator;
use crate::model::AppState;
use crate::model::accept_post;
use crate::model::decline_post;
use crate::model::need_reviewer_post;
use crate::model::offer_post;
use crate::shared::ServerRequest;
use crate::shared::ServerResponse;

verus! {

/// The response merely names the identity the session resolved to.
pub open spec fn identity_response(coder: Seq<char>, r: ServerResponse) -> bool {
    r matches ServerResponse::KnownIdentity { username } && username@ == coder
}

/// What a request earns once the session has resolved to `coder`: the four
/// matching requests move the engine as their operations say; the identity
/// requests leave it alone and name the identity.
pub open spec fn engine_response(
    pre: AppState,
    post: AppState,
    request: ServerRequest,
    coder: Seq<char>,
    now: u64,
    r: ServerResponse,
) -> bool {
    match request {
        ServerRequest::NeedReviewer {  } => need_reviewer_post(pre, post, coder, now, r),
        ServerRequest::HaveTimeForReview {  } => offer_post(pre, post, coder, now, r),
        ServerRequest::WillReview { review_id } => accept_post(pre, post, review_id, r),
        ServerRequest::WontReview { review_id } => decline_post(pre, post, review_id, r),
        _ => post == pre && identity_response(coder, r),
    }
}

/// How one decoded request is served: a session token that resolves to a
/// known identity reaches the engine (and the token is kept for the cookie);
/// an unknown or absent token earns `UnknownIdentity`, except that a bare
/// `SendIdentity` request may establish the session by naming a known token.
pub open spec fn distribute_post(
    app_pre: AppState,
    app_post: AppState,
    users: Seq<(Seq<char>, Seq<char>)>,
    request: ServerRequest,
    token: Option<String>,
    now: u64,
    r: (ServerResponse, Option<String>),
) -> bool {
    match token {
        Some(t) => match lookup(users, t@) {
            Some(coder) => engine_response(app_pre, app_post, request, coder, now, r.0) && (
            r.1 matches Some(c) && c@ == t@),
            None => app_post == app_pre && r.0 == (ServerResponse::UnknownIdentity {  }) && r.1
                is None,
        },
        None => match request {
            ServerRequest::SendIdentity { token: sent } => match lookup(users, sent@) {
                Some(coder) => app_post == app_pre && identity_response(coder, r.0) && (
                r.1 matches Some(c) && c@ == sent@),
                None => app_post == app_pre && r.0 == (ServerResponse::UnknownIdentity {  })
                    && r.1 is None,
            },
            _ => app_post == app_pre && r.0 == (ServerResponse::UnknownIdentity {  }) && r.1
                is None,
        },
    }
}

/// Serve one decoded request: resolve the session token against the user
/// database, let the engine act for the resolved identity, and hand back the
/// response together with the token to set as the session cookie.
pub fn distribute_request_under_services<G: IdGenerator>(
    application: &mut Application<G>,
    authentication: &mut Authentication,
    parsed: &ServerRequest,
    token: &Option<String>,
    now: u64,
) -> (r: (ServerResponse, Option<String>))
    requires
        old(application).wf(),
        old(application)@.reviews.len() <= u32::MAX,
    ensures
        final(application).wf(),
        final(authentication)@ == old(authentication)@,
        distribute_post(
            old(application)@,
            final(application)@,
            old(authentication)@,
            *parsed,
            *token,
            now,
            r,
        ),
{
    match token {
        Some(token_value) => match authentication.process_request(token_value) {
            Some(coder) => {
                let response = match parsed {
                    ServerRequest::NeedReviewer {  } => application.need_reviewer(
                        coder.clone(),
                        now,
                    ),
                    ServerRequest::HaveTimeForReview {  } => application.have_time_for_review(
                        &coder,
                        now,
                    ),
                    ServerRequest::WillReview { review_id } => application.will_review(*review_id),
                    ServerRequest::WontReview { review_id } => application.wont_review(*review_id),
                    _ => ServerResponse::KnownIdentity { username: coder.clone() },
                };
                (response, Some(token_value.clone()))
            },
            None => (ServerResponse::UnknownIdentity {  }, None),
        },
        None => match parsed {
            ServerRequest::SendIdentity { token: sent } => match authentication.process_request(
                sent,
            ) {
                Some(coder) => (
                    ServerResponse::KnownIdentity { username: coder },
                    Some(sent.clone()),
                ),
                None => (ServerResponse::UnknownIdentity {  }, None),
            },
            _ => (ServerResponse::UnknownIdentity {  }, None),
        },
    }
}

} // verus!
