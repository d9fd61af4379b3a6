use vstd::prelude::*;

use crate::shared::ServerResponse;
use vstd::seq_lib::*;
use vstd::set_lib::*;

verus! {

/// Mathematical image of one active review: the id it was filed under, the
/// coder whose work is under review, the coder (if any) who was displaced to
/// make room under the WIP limit, and the second at which it started.
#[verifier::ext_equal]
pub struct ReviewData {
    pub id: u32,
    pub coder: Seq<char>,
    pub enqueued: Option<Seq<char>>,
    pub started: u64,
}

/// Mathematical image of the whole matching engine: the waiting coders in
/// arrival order, the active reviews in creation order, and the immutable
/// configuration values the transitions depend on.
#[verifier::ext_equal]
pub struct AppState {
    pub waiting: Seq<Seq<char>>,
    pub reviews: Seq<ReviewData>,
    pub wip_limit: nat,
    pub timeout: u64,
}

/// A review is reclaimed by a sweep once its age strictly exceeds the timeout.
pub open spec fn is_expired(r: ReviewData, now: u64, timeout: u64) -> bool {
    r.started + timeout < now
}

/// Some active review is filed under this id.
pub open spec fn has_id(reviews: Seq<ReviewData>, id: u32) -> bool {
    exists|i: int| 0 <= i < reviews.len() && reviews[i].id == id
}

/// The name waits for review.
pub open spec fn in_waiting(s: AppState, name: Seq<char>) -> bool {
    s.waiting.contains(name)
}

/// The name is tied up in some active review, as its coder or as its
/// displaced coder.
pub open spec fn in_reviews(s: AppState, name: Seq<char>) -> bool {
    exists|i: int|
        0 <= i < s.reviews.len() && (s.reviews[i].coder == name || s.reviews[i].enqueued == Some(
            name,
        ))
}

/// The name is registered somewhere in the system; a second registration
/// attempt under it must be refused.
pub open spec fn registered(s: AppState, name: Seq<char>) -> bool {
    in_waiting(s, name) || in_reviews(s, name)
}

/// No name waits twice.
pub open spec fn waiting_distinct(s: AppState) -> bool {
    forall|i: int, j: int| 0 <= i < j < s.waiting.len() ==> s.waiting[i] != s.waiting[j]
}

/// No waiting name also sits in a review, neither as its coder nor as its
/// displaced coder.
pub open spec fn waiting_disjoint_from_reviews(s: AppState) -> bool {
    forall|i: int, j: int|
        0 <= i < s.waiting.len() && 0 <= j < s.reviews.len() ==> s.waiting[i]
            != s.reviews[j].coder && Some(s.waiting[i]) != s.reviews[j].enqueued
}

/// Across all reviews, the coder slots and the displaced-coder slots hold
/// pairwise different names.
pub open spec fn review_slots_distinct(s: AppState) -> bool {
    forall|i: int, j: int|
        0 <= i < s.reviews.len() && 0 <= j < s.reviews.len() ==> (Some(s.reviews[i].coder)
            != s.reviews[j].enqueued && (i != j ==> s.reviews[i].coder != s.reviews[j].coder) && (i
            != j && s.reviews[i].enqueued is Some ==> s.reviews[i].enqueued
            != s.reviews[j].enqueued))
}

/// Every identity appears in at most one of: the waiting set, a review's
/// coder slot, a review's displaced-coder slot.
pub open spec fn identities_unique(s: AppState) -> bool {
    waiting_distinct(s) && waiting_disjoint_from_reviews(s) && review_slots_distinct(s)
}

/// No two simultaneously active reviews share an id.
pub open spec fn ids_unique(reviews: Seq<ReviewData>) -> bool {
    forall|i: int, j: int| 0 <= i < j < reviews.len() ==> reviews[i].id != reviews[j].id
}

/// Well-formedness of an engine state: identities are registered at most once
/// system-wide, review ids are fresh among the active reviews, and the
/// configured limit admits at least one waiting coder.
pub open spec fn wf(s: AppState) -> bool {
    identities_unique(s) && ids_unique(s.reviews) && s.wip_limit >= 1
}

/// Admission below the WIP limit: the coder joins the back of the waiting set.
pub open spec fn enqueue_waiting(s: AppState, coder: Seq<char>) -> AppState {
    AppState { waiting: s.waiting.push(coder), ..s }
}

/// Assignment at the WIP limit, and direct assignment on offered review
/// time: the waiting coder at index `k` leaves the waiting set and a review
/// for it is filed under the fresh id, carrying the displaced coder if any.
pub open spec fn assign(
    s: AppState,
    k: int,
    id: u32,
    enqueued: Option<Seq<char>>,
    now: u64,
) -> AppState {
    AppState {
        waiting: s.waiting.remove(k),
        reviews: s.reviews.push(
            ReviewData { id, coder: s.waiting[k], enqueued, started: now },
        ),
        ..s
    }
}

/// Acceptance of the review at index `k`: the review goes away and its
/// displaced coder, if any, re-enters the waiting set.
pub open spec fn resolve_accept(s: AppState, k: int) -> AppState {
    AppState {
        waiting: match s.reviews[k].enqueued {
            Some(c) => s.waiting.push(c),
            None => s.waiting,
        },
        reviews: s.reviews.remove(k),
        ..s
    }
}

/// Decline of the review at index `k`: the review goes away, its coder
/// re-enters the waiting set, and its displaced coder, if any, is dropped.
pub open spec fn resolve_decline(s: AppState, k: int) -> AppState {
    AppState { waiting: s.waiting.push(s.reviews[k].coder), reviews: s.reviews.remove(k), ..s }
}

/// The reviews that a sweep at `now` leaves in place, in their old order.
pub open spec fn surviving_reviews(
    reviews: Seq<ReviewData>,
    now: u64,
    timeout: u64,
) -> Seq<ReviewData>
    decreases reviews.len(),
{
    if reviews.len() == 0 {
        Seq::empty()
    } else if is_expired(reviews.first(), now, timeout) {
        surviving_reviews(reviews.drop_first(), now, timeout)
    } else {
        seq![reviews.first()] + surviving_reviews(reviews.drop_first(), now, timeout)
    }
}

/// The coders of the reviews that a sweep at `now` reclaims, in the reviews'
/// old order; they re-enter the waiting set.
pub open spec fn reclaimed_coders(
    reviews: Seq<ReviewData>,
    now: u64,
    timeout: u64,
) -> Seq<Seq<char>>
    decreases reviews.len(),
{
    if reviews.len() == 0 {
        Seq::empty()
    } else if is_expired(reviews.first(), now, timeout) {
        seq![reviews.first().coder] + reclaimed_coders(reviews.drop_first(), now, timeout)
    } else {
        reclaimed_coders(reviews.drop_first(), now, timeout)
    }
}

/// A whole sweep: expired reviews go away and their coders re-join the
/// waiting set behind those already there.
pub open spec fn sweep(s: AppState, now: u64) -> AppState {
    AppState {
        waiting: s.waiting + reclaimed_coders(s.reviews, now, s.timeout),
        reviews: surviving_reviews(s.reviews, now, s.timeout),
        ..s
    }
}

/// The least index of a waiting coder other than `name`, or the length of the
/// waiting set when every waiting coder is `name` (the self-match exclusion
/// of an offered review).
pub open spec fn first_other(waiting: Seq<Seq<char>>, name: Seq<char>) -> int
    decreases waiting.len(),
{
    if waiting.len() == 0 {
        0
    } else if waiting.first() != name {
        0
    } else {
        1 + first_other(waiting.drop_first(), name)
    }
}

/// What `first_other` picks: an index within bounds, pointing (when it is in
/// bounds) at a coder other than `name`, with only `name` before it.
pub proof fn lemma_first_other(waiting: Seq<Seq<char>>, name: Seq<char>)
    ensures
        0 <= first_other(waiting, name) <= waiting.len(),
        first_other(waiting, name) < waiting.len() ==> waiting[first_other(waiting, name)] != name,
        forall|i: int| 0 <= i < first_other(waiting, name) ==> waiting[i] == name,
    decreases waiting.len(),
{
    if waiting.len() == 0 {
    } else if waiting.first() != name {
    } else {
        let rest = waiting.drop_first();
        lemma_first_other(rest, name);
        let k = first_other(waiting, name);
        assert(k == 1 + first_other(rest, name));
        assert forall|i: int| 0 <= i < k implies waiting[i] == name by {
            if i > 0 {
                assert(rest[i - 1] == waiting[i]);
            }
        }
        if k < waiting.len() {
            assert(rest[k - 1] != name);
        }
    }
}

/// What a RequestReviewer call returns, and how the state moves, as a
/// relation between the state before, the state after and the response.
pub open spec fn need_reviewer_post(
    pre: AppState,
    post: AppState,
    coder: Seq<char>,
    now: u64,
    r: ServerResponse,
) -> bool {
    match r {
        ServerResponse::AlreadyRegistered {  } => registered(pre, coder) && post == pre,
        ServerResponse::Accepted {  } => !registered(pre, coder) && pre.waiting.len()
            < pre.wip_limit && post == enqueue_waiting(pre, coder),
        ServerResponse::NeedsReviewer { coder: selected, review_id } => !registered(pre, coder)
            && pre.waiting.len() >= pre.wip_limit && pre.waiting.len() > 0 && selected@
            == pre.waiting[0] && !has_id(pre.reviews, review_id) && post == assign(
            pre,
            0,
            review_id,
            Some(coder),
            now,
        ),
        _ => false,
    }
}

/// What an OfferReviewTime call returns, and how the state moves.
pub open spec fn offer_post(
    pre: AppState,
    post: AppState,
    reviewer: Seq<char>,
    now: u64,
    r: ServerResponse,
) -> bool {
    match r {
        ServerResponse::NoReviewerNeeded {  } => first_other(pre.waiting, reviewer)
            == pre.waiting.len() && post == pre,
        ServerResponse::NeedsReviewer { coder: selected, review_id } => first_other(
            pre.waiting,
            reviewer,
        ) < pre.waiting.len() && selected@ == pre.waiting[first_other(pre.waiting, reviewer)]
            && !has_id(pre.reviews, review_id) && post == assign(
            pre,
            first_other(pre.waiting, reviewer),
            review_id,
            None,
            now,
        ),
        _ => false,
    }
}

/// What an AcceptReview call returns, and how the state moves.
pub open spec fn accept_post(pre: AppState, post: AppState, review_id: u32, r: ServerResponse) -> bool {
    match r {
        ServerResponse::ReviewNotFound {  } => !has_id(pre.reviews, review_id) && post == pre,
        ServerResponse::Accepted {  } => exists|k: int|
            0 <= k < pre.reviews.len() && #[trigger] pre.reviews[k].id == review_id && post
                == resolve_accept(pre, k),
        _ => false,
    }
}

/// What a DeclineReview call returns, and how the state moves.
pub open spec fn decline_post(pre: AppState, post: AppState, review_id: u32, r: ServerResponse) -> bool {
    match r {
        ServerResponse::ReviewNotFound {  } => !has_id(pre.reviews, review_id) && post == pre,
        ServerResponse::Accepted {  } => exists|k: int|
            0 <= k < pre.reviews.len() && #[trigger] pre.reviews[k].id == review_id && post
                == resolve_decline(pre, k),
        _ => false,
    }
}

/// Admitting an unregistered coder below the WIP limit keeps every identity
/// registered at most once and every id fresh.
pub proof fn lemma_enqueue_wf(s: AppState, coder: Seq<char>)
    requires
        wf(s),
        !registered(s, coder),
    ensures
        wf(enqueue_waiting(s, coder)),
{
    let t = enqueue_waiting(s, coder);
    assert forall|k: int| 0 <= k < s.waiting.len() implies s.waiting[k] != coder by {
        if s.waiting[k] == coder {
            assert(s.waiting.contains(coder));
        }
    }
    assert forall|i: int, j: int| 0 <= i < j < t.waiting.len() implies t.waiting[i]
        != t.waiting[j] by {
        if j < s.waiting.len() {
        } else {
            assert(t.waiting[j] == coder);
        }
    }
    assert forall|i: int, j: int|
        0 <= i < t.waiting.len() && 0 <= j < t.reviews.len() implies t.waiting[i]
        != t.reviews[j].coder && Some(t.waiting[i]) != t.reviews[j].enqueued by {
        if i < s.waiting.len() {
        } else {
            assert(t.waiting[i] == coder);
            assert(!in_reviews(s, coder));
        }
    }
}

/// Starting a review for the waiting coder at index `k`, under a fresh id and
/// with an unregistered (or absent) displaced coder, keeps every identity
/// registered at most once and every id fresh.
pub proof fn lemma_assign_wf(s: AppState, k: int, id: u32, enqueued: Option<Seq<char>>, now: u64)
    requires
        wf(s),
        0 <= k < s.waiting.len(),
        !has_id(s.reviews, id),
        enqueued matches Some(e) ==> !registered(s, e),
    ensures
        wf(assign(s, k, id, enqueued, now)),
{
    let t = assign(s, k, id, enqueued, now);
    let n = s.reviews.len() as int;
    if let Some(e) = enqueued {
        assert forall|i: int| 0 <= i < s.waiting.len() implies s.waiting[i] != e by {
            if s.waiting[i] == e {
                assert(s.waiting.contains(e));
            }
        }
        assert(!in_reviews(s, e));
    }
    assert forall|i: int, j: int| 0 <= i < j < t.waiting.len() implies t.waiting[i]
        != t.waiting[j] by {
        let io: int = if i < k {
            i
        } else {
            i + 1
        };
        let jo: int = if j < k {
            j
        } else {
            j + 1
        };
        assert(t.waiting[i] == s.waiting[io]);
        assert(t.waiting[j] == s.waiting[jo]);
    }
    assert forall|i: int, j: int|
        0 <= i < t.waiting.len() && 0 <= j < t.reviews.len() implies t.waiting[i]
        != t.reviews[j].coder && Some(t.waiting[i]) != t.reviews[j].enqueued by {
        let io: int = if i < k {
            i
        } else {
            i + 1
        };
        assert(t.waiting[i] == s.waiting[io]);
        if j < n {
            assert(t.reviews[j] == s.reviews[j]);
        } else {
            assert(t.reviews[j].coder == s.waiting[k]);
            assert(io != k);
        }
    }
    assert forall|i: int, j: int|
        0 <= i < t.reviews.len() && 0 <= j < t.reviews.len() implies (Some(t.reviews[i].coder)
        != t.reviews[j].enqueued && (i != j ==> t.reviews[i].coder != t.reviews[j].coder) && (i != j
        && t.reviews[i].enqueued is Some ==> t.reviews[i].enqueued != t.reviews[j].enqueued)) by {
        if i < n && j < n {
        } else if i == n && j < n {
            assert(t.reviews[i].coder == s.waiting[k]);
            assert(Some(s.waiting[k]) != s.reviews[j].enqueued);
            assert(s.waiting[k] != s.reviews[j].coder);
            if let Some(e) = enqueued {
                if s.reviews[j].coder == e || s.reviews[j].enqueued == Some(e) {
                    assert(in_reviews(s, e));
                }
            }
        } else if i < n && j == n {
            assert(t.reviews[j].coder == s.waiting[k]);
            assert(s.reviews[i].coder != s.waiting[k]);
            if let Some(e) = enqueued {
                if s.reviews[i].coder == e || s.reviews[i].enqueued == Some(e) {
                    assert(in_reviews(s, e));
                }
            }
        } else {
            assert(i == j);
            if let Some(e) = enqueued {
                assert(t.reviews[i].coder == s.waiting[k]);
                assert(s.waiting[k] != e);
            }
        }
    }
    assert forall|i: int, j: int| 0 <= i < j < t.reviews.len() implies t.reviews[i].id
        != t.reviews[j].id by {
        if j == n {
            if t.reviews[i].id == id {
                assert(s.reviews[i].id == id);
                assert(has_id(s.reviews, id));
            }
        }
    }
}

/// Accepting the review at index `k` keeps every identity registered at most
/// once and every id fresh: the displaced coder it may re-queue was held in
/// that review alone.
pub proof fn lemma_resolve_accept_wf(s: AppState, k: int)
    requires
        wf(s),
        0 <= k < s.reviews.len(),
    ensures
        wf(resolve_accept(s, k)),
{
    let t = resolve_accept(s, k);
    match s.reviews[k].enqueued {
        Some(c) => {
            assert forall|i: int| 0 <= i < s.waiting.len() implies s.waiting[i] != c by {
                assert(Some(s.waiting[i]) != s.reviews[k].enqueued);
            }
            assert forall|i: int, j: int| 0 <= i < j < t.waiting.len() implies t.waiting[i]
                != t.waiting[j] by {
                if j == s.waiting.len() {
                    assert(t.waiting[j] == c);
                }
            }
            assert forall|i: int, j: int|
                0 <= i < t.waiting.len() && 0 <= j < t.reviews.len() implies t.waiting[i]
                != t.reviews[j].coder && Some(t.waiting[i]) != t.reviews[j].enqueued by {
                let jo: int = if j < k {
                    j
                } else {
                    j + 1
                };
                assert(t.reviews[j] == s.reviews[jo]);
                if i == s.waiting.len() {
                    assert(t.waiting[i] == c);
                    assert(jo != k);
                    assert(Some(s.reviews[k].coder) != s.reviews[k].enqueued);
                    assert(s.reviews[jo].coder != c) by {
                        assert(Some(s.reviews[jo].coder) != s.reviews[k].enqueued);
                    }
                    assert(s.reviews[jo].enqueued != Some(c)) by {
                        assert(s.reviews[k].enqueued is Some ==> s.reviews[k].enqueued
                            != s.reviews[jo].enqueued);
                    }
                }
            }
        },
        None => {
            assert forall|i: int, j: int|
                0 <= i < t.waiting.len() && 0 <= j < t.reviews.len() implies t.waiting[i]
                != t.reviews[j].coder && Some(t.waiting[i]) != t.reviews[j].enqueued by {
                let jo: int = if j < k {
                    j
                } else {
                    j + 1
                };
                assert(t.reviews[j] == s.reviews[jo]);
            }
        },
    }
    assert forall|i: int, j: int|
        0 <= i < t.reviews.len() && 0 <= j < t.reviews.len() implies (Some(t.reviews[i].coder)
        != t.reviews[j].enqueued && (i != j ==> t.reviews[i].coder != t.reviews[j].coder) && (i != j
        && t.reviews[i].enqueued is Some ==> t.reviews[i].enqueued != t.reviews[j].enqueued)) by {
        let io: int = if i < k {
            i
        } else {
            i + 1
        };
        let jo: int = if j < k {
            j
        } else {
            j + 1
        };
        assert(t.reviews[i] == s.reviews[io]);
        assert(t.reviews[j] == s.reviews[jo]);
    }
    assert forall|i: int, j: int| 0 <= i < j < t.reviews.len() implies t.reviews[i].id
        != t.reviews[j].id by {
        let io: int = if i < k {
            i
        } else {
            i + 1
        };
        let jo: int = if j < k {
            j
        } else {
            j + 1
        };
        assert(t.reviews[i] == s.reviews[io]);
        assert(t.reviews[j] == s.reviews[jo]);
    }
}

/// Declining the review at index `k` keeps every identity registered at most
/// once and every id fresh: the coder it re-queues was held in that review
/// alone, and its displaced coder is dropped.
pub proof fn lemma_resolve_decline_wf(s: AppState, k: int)
    requires
        wf(s),
        0 <= k < s.reviews.len(),
    ensures
        wf(resolve_decline(s, k)),
{
    let t = resolve_decline(s, k);
    let c = s.reviews[k].coder;
    assert forall|i: int| 0 <= i < s.waiting.len() implies s.waiting[i] != c by {
        assert(s.waiting[i] != s.reviews[k].coder);
    }
    assert forall|i: int, j: int| 0 <= i < j < t.waiting.len() implies t.waiting[i]
        != t.waiting[j] by {
        if j == s.waiting.len() {
            assert(t.waiting[j] == c);
        }
    }
    assert forall|i: int, j: int|
        0 <= i < t.waiting.len() && 0 <= j < t.reviews.len() implies t.waiting[i]
        != t.reviews[j].coder && Some(t.waiting[i]) != t.reviews[j].enqueued by {
        let jo: int = if j < k {
            j
        } else {
            j + 1
        };
        assert(t.reviews[j] == s.reviews[jo]);
        if i == s.waiting.len() {
            assert(t.waiting[i] == c);
            assert(jo != k);
            assert(s.reviews[jo].coder != c);
            assert(Some(s.reviews[k].coder) != s.reviews[jo].enqueued);
        }
    }
    assert forall|i: int, j: int|
        0 <= i < t.reviews.len() && 0 <= j < t.reviews.len() implies (Some(t.reviews[i].coder)
        != t.reviews[j].enqueued && (i != j ==> t.reviews[i].coder != t.reviews[j].coder) && (i != j
        && t.reviews[i].enqueued is Some ==> t.reviews[i].enqueued != t.reviews[j].enqueued)) by {
        let io: int = if i < k {
            i
        } else {
            i + 1
        };
        let jo: int = if j < k {
            j
        } else {
            j + 1
        };
        assert(t.reviews[i] == s.reviews[io]);
        assert(t.reviews[j] == s.reviews[jo]);
    }
    assert forall|i: int, j: int| 0 <= i < j < t.reviews.len() implies t.reviews[i].id
        != t.reviews[j].id by {
        let io: int = if i < k {
            i
        } else {
            i + 1
        };
        let jo: int = if j < k {
            j
        } else {
            j + 1
        };
        assert(t.reviews[i] == s.reviews[io]);
        assert(t.reviews[j] == s.reviews[jo]);
    }
}

/// Among pairwise distinct ids of at most the id range's size, some 32-bit id
/// is free: the engine can always find a fresh id.
pub proof fn lemma_free_id_exists(reviews: Seq<ReviewData>)
    requires
        ids_unique(reviews),
        reviews.len() <= u32::MAX,
    ensures
        exists|id: u32| !has_id(reviews, id),
{
    if !(exists|id: u32| !has_id(reviews, id)) {
        assert(forall|id: u32| has_id(reviews, id));
        let ids = reviews.map_values(|r: ReviewData| r.id as int);
        let range = set_int_range(0, 0x1_0000_0000);
        assert forall|v: int| range.contains(v) implies ids.to_set().contains(v) by {
            let idu = v as u32;
            assert(has_id(reviews, idu));
            let i = choose|i: int| 0 <= i < reviews.len() && reviews[i].id == idu;
            assert(ids[i] == v);
            assert(ids.contains(v));
        }
        assert(range.subset_of(ids.to_set()));
        lemma_int_range(0, 0x1_0000_0000);
        ids.lemma_cardinality_of_set();
        broadcast use seq_to_set_is_finite;

        lemma_len_subset(range, ids.to_set());
        assert(0x1_0000_0000 <= reviews.len());
        assert(false);
    }
}

/// WIP bound, as far as it holds: a RequestReviewer call never lifts the
/// waiting set above the configured limit. (Resolving a review can: it
/// re-queues a coder without consulting the limit.)
pub proof fn lemma_request_preserves_wip_bound(
    pre: AppState,
    post: AppState,
    coder: Seq<char>,
    now: u64,
    r: ServerResponse,
)
    requires
        pre.waiting.len() <= pre.wip_limit,
        need_reviewer_post(pre, post, coder, now, r),
    ensures
        post.waiting.len() <= post.wip_limit,
{
}

/// An OfferReviewTime call never grows the waiting set, so it too keeps the
/// waiting set within the configured limit.
pub proof fn lemma_offer_preserves_wip_bound(
    pre: AppState,
    post: AppState,
    reviewer: Seq<char>,
    now: u64,
    r: ServerResponse,
)
    requires
        pre.waiting.len() <= pre.wip_limit,
        offer_post(pre, post, reviewer, now, r),
    ensures
        post.waiting.len() <= post.wip_limit,
{
    lemma_first_other(pre.waiting, reviewer);
}

/// Resolution conservation: accepting or declining a review under a known id
/// removes exactly one review and re-queues at most one coder.
pub proof fn lemma_resolution_conservation(
    pre: AppState,
    post: AppState,
    review_id: u32,
    r: ServerResponse,
)
    requires
        accept_post(pre, post, review_id, r) || decline_post(pre, post, review_id, r),
        r == (ServerResponse::Accepted {  }),
    ensures
        post.reviews.len() == pre.reviews.len() - 1,
        pre.waiting.len() <= post.waiting.len() <= pre.waiting.len() + 1,
{
}

/// An id held by some review of the swept table was held by a review of the
/// original table.
proof fn lemma_surviving_id_implies(reviews: Seq<ReviewData>, now: u64, timeout: u64, id: u32)
    requires
        has_id(surviving_reviews(reviews, now, timeout), id),
    ensures
        has_id(reviews, id),
    decreases reviews.len(),
{
    if reviews.len() == 0 {
    } else {
        let rest = reviews.drop_first();
        let sv = surviving_reviews(reviews, now, timeout);
        if is_expired(reviews.first(), now, timeout) {
            lemma_surviving_id_implies(rest, now, timeout, id);
            let i = choose|i: int| 0 <= i < rest.len() && rest[i].id == id;
            assert(reviews[i + 1].id == id);
        } else {
            let i = choose|i: int| 0 <= i < sv.len() && sv[i].id == id;
            if i == 0 {
                assert(reviews[0].id == id);
            } else {
                assert(surviving_reviews(rest, now, timeout)[i - 1].id == id);
                lemma_surviving_id_implies(rest, now, timeout, id);
                let j = choose|j: int| 0 <= j < rest.len() && rest[j].id == id;
                assert(reviews[j + 1].id == id);
            }
        }
    }
}

/// A sweep removes every expired review: its id is gone from the table the
/// sweep leaves behind.
pub proof fn lemma_sweep_removes_expired(reviews: Seq<ReviewData>, now: u64, timeout: u64, k: int)
    requires
        ids_unique(reviews),
        0 <= k < reviews.len(),
        is_expired(reviews[k], now, timeout),
    ensures
        !has_id(surviving_reviews(reviews, now, timeout), reviews[k].id),
    decreases reviews.len(),
{
    let rest = reviews.drop_first();
    let id = reviews[k].id;
    assert(forall|i: int| 0 <= i < rest.len() ==> rest[i] == reviews[i + 1]);
    if k == 0 {
        if has_id(surviving_reviews(reviews, now, timeout), id) {
            assert(surviving_reviews(reviews, now, timeout) == surviving_reviews(
                rest,
                now,
                timeout,
            ));
            lemma_surviving_id_implies(rest, now, timeout, id);
            let j = choose|j: int| 0 <= j < rest.len() && rest[j].id == id;
            assert(reviews[j + 1].id == reviews[0].id);
            assert(false);
        }
    } else {
        lemma_sweep_removes_expired(rest, now, timeout, k - 1);
        let sv = surviving_reviews(reviews, now, timeout);
        if is_expired(reviews.first(), now, timeout) {
            assert(sv == surviving_reviews(rest, now, timeout));
        } else {
            if has_id(sv, id) {
                let i = choose|i: int| 0 <= i < sv.len() && sv[i].id == id;
                if i == 0 {
                    assert(reviews[0].id == reviews[k].id);
                    assert(false);
                } else {
                    assert(surviving_reviews(rest, now, timeout)[i - 1].id == id);
                    assert(has_id(surviving_reviews(rest, now, timeout), id));
                    assert(false);
                }
            }
        }
    }
}

/// A sweep re-queues the coder of every expired review.
pub proof fn lemma_sweep_requeues_coder(reviews: Seq<ReviewData>, now: u64, timeout: u64, k: int)
    requires
        0 <= k < reviews.len(),
        is_expired(reviews[k], now, timeout),
    ensures
        reclaimed_coders(reviews, now, timeout).contains(reviews[k].coder),
    decreases reviews.len(),
{
    let rest = reviews.drop_first();
    let rc = reclaimed_coders(reviews, now, timeout);
    if k == 0 {
        assert(rc[0] == reviews[0].coder);
    } else {
        assert(rest[k - 1] == reviews[k]);
        lemma_sweep_requeues_coder(rest, now, timeout, k - 1);
        let rcr = reclaimed_coders(rest, now, timeout);
        let i = choose|i: int| 0 <= i < rcr.len() && rcr[i] == reviews[k].coder;
        if is_expired(reviews.first(), now, timeout) {
            assert(rc[i + 1] == reviews[k].coder);
        } else {
            assert(rc[i] == reviews[k].coder);
        }
    }
}

/// Timeout liveness: a review whose age exceeds the timeout at `now` is gone
/// after a sweep at `now`, and its coder is back in the waiting set.
pub proof fn lemma_timeout_liveness(s: AppState, now: u64, k: int)
    requires
        ids_unique(s.reviews),
        0 <= k < s.reviews.len(),
        is_expired(s.reviews[k], now, s.timeout),
    ensures
        !has_id(sweep(s, now).reviews, s.reviews[k].id),
        sweep(s, now).waiting.contains(s.reviews[k].coder),
{
    lemma_sweep_removes_expired(s.reviews, now, s.timeout, k);
    lemma_sweep_requeues_coder(s.reviews, now, s.timeout, k);
    let c = s.reviews[k].coder;
    let rc = reclaimed_coders(s.reviews, now, s.timeout);
    let i = choose|i: int| 0 <= i < rc.len() && rc[i] == c;
    assert(sweep(s, now).waiting[s.waiting.len() + i] == c);
}

} // verus!
