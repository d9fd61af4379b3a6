use vstd::prelude::*;

use crate::idgen::IdGenerator;
use crate::model::AppState;
use crate::model::ReviewData;
use crate::model::accept_post;
use crate::model::assign;
use crate::model::decline_post;
use crate::model::enqueue_waiting;
use crate::model::first_other;
use crate::model::has_id;
use crate::model::in_reviews;
use crate::model::in_waiting;
use crate::model::is_expired;
use crate::model::lemma_assign_wf;
use crate::model::lemma_enqueue_wf;
use crate::model::lemma_first_other;
use crate::model::lemma_free_id_exists;
use crate::model::lemma_resolve_accept_wf;
use crate::model::lemma_resolve_decline_wf;
use crate::model::need_reviewer_post;
use crate::model::offer_post;
use crate::model::reclaimed_coders;
use crate::model::registered;
use crate::model::resolve_accept;
use crate::model::resolve_decline;
use crate::model::surviving_reviews;
use crate::model::sweep;
use crate::model::wf;
use crate::shared::ServerResponse;

verus! {

/// A matching request, already decoded and carrying the authenticated
/// identity it concerns.
#[derive(Debug, PartialEq, Eq)]
pub enum FindReviewerRequest {
    NeedReviewer { coder: String },
    HaveTimeForReview { reviewer: String },
    WillReview { review_id: u32 },
    WontReview { review_id: u32 },
}

/// The engine's immutable configuration: where to listen (used only by the
/// surrounding service), after how many seconds an unresolved review is
/// reclaimed, and how many coders may wait at once.
pub struct ApplicationConfiguration {
    pub address: String,
    pub timeout_in_s: u64,
    pub wip_limit: usize,
}

impl Default for ApplicationConfiguration {
    fn default() -> (c: Self)
        ensures
            c.address@ == "localhost:3000"@,
            c.timeout_in_s == 30,
            c.wip_limit == 5,
    {
        ApplicationConfiguration {
            address: "localhost:3000".to_owned(),
            timeout_in_s: 30,
            wip_limit: 5,
        }
    }
}

/// One active review: the coder under review, the coder displaced to make
/// room for it (if any), the second it started at, and its id.
struct Review {
    id: u32,
    coder: String,
    enqueued_coder: Option<String>,
    started: u64,
}

impl View for Review {
    type V = ReviewData;

    closed spec fn view(&self) -> ReviewData {
        ReviewData {
            id: self.id,
            coder: self.coder@,
            enqueued: match self.enqueued_coder {
                Some(c) => Some(c@),
                None => None,
            },
            started: self.started,
        }
    }
}

/// The matching engine. It owns the waiting set (kept in arrival order; the
/// selection policy is to pick the coder that has waited longest) and the
/// table of active reviews, and draws candidate ids from the generator it was
/// constructed with.
pub struct Application<G: IdGenerator> {
    configuration: ApplicationConfiguration,
    waiting_coders: Vec<String>,
    active_reviews: Vec<Review>,
    generator: G,
}

spec fn reviews_view(rs: Seq<Review>) -> Seq<ReviewData> {
    rs.map_values(|r: Review| r@)
}

spec fn waiting_view(ws: Seq<String>) -> Seq<Seq<char>> {
    ws.map_values(|s: String| s@)
}

impl<G: IdGenerator> View for Application<G> {
    type V = AppState;

    closed spec fn view(&self) -> AppState {
        AppState {
            waiting: waiting_view(self.waiting_coders@),
            reviews: reviews_view(self.active_reviews@),
            wip_limit: self.configuration.wip_limit as nat,
            timeout: self.configuration.timeout_in_s,
        }
    }
}

impl<G: IdGenerator> Application<G> {
    /// The engine's state is well-formed: identities are registered at most
    /// once system-wide and active review ids are pairwise distinct.
    pub open spec fn wf(&self) -> bool {
        wf(self@)
    }

    /// A fresh engine under the given configuration, with nobody waiting and
    /// no review active.
    pub fn new(configuration: ApplicationConfiguration, generator: G) -> (app: Application<G>)
        requires
            configuration.wip_limit >= 1,
        ensures
            app.wf(),
            app@.waiting == Seq::<Seq<char>>::empty(),
            app@.reviews == Seq::<ReviewData>::empty(),
            app@.wip_limit == configuration.wip_limit as nat,
            app@.timeout == configuration.timeout_in_s,
    {
        let app = Application {
            configuration,
            waiting_coders: Vec::new(),
            active_reviews: Vec::new(),
            generator,
        };
        proof {
            assert(app@.waiting =~= Seq::<Seq<char>>::empty());
            assert(app@.reviews =~= Seq::<ReviewData>::empty());
        }
        app
    }

    /// The coder is already known to the system, as a waiting coder, as the
    /// coder of an active review, or as a review's displaced coder.
    pub fn is_already_registered(&self, coder: &String) -> (r: bool)
        ensures
            r == registered(self@, coder@),
    {
        let mut i: usize = 0;
        while i < self.waiting_coders.len()
            invariant
                i <= self.waiting_coders.len(),
                forall|k: int| 0 <= k < i ==> self@.waiting[k] != coder@,
            decreases self.waiting_coders.len() - i,
        {
            if self.waiting_coders[i] == *coder {
                proof {
                    assert(self@.waiting[i as int] == coder@);
                    assert(in_waiting(self@, coder@));
                }
                return true;
            }
            i += 1;
        }
        assert(!in_waiting(self@, coder@));
        let mut j: usize = 0;
        while j < self.active_reviews.len()
            invariant
                j <= self.active_reviews.len(),
                forall|k: int|
                    0 <= k < j ==> self@.reviews[k].coder != coder@ && self@.reviews[k].enqueued
                        != Some(coder@),
            decreases self.active_reviews.len() - j,
        {
            let review = &self.active_reviews[j];
            if review.coder == *coder {
                proof {
                    assert(self@.reviews[j as int].coder == coder@);
                }
                return true;
            }
            let enqueued_matches = match &review.enqueued_coder {
                Some(c) => *c == *coder,
                None => false,
            };
            if enqueued_matches {
                proof {
                    assert(self@.reviews[j as int].enqueued == Some(coder@));
                }
                return true;
            }
            proof {
                assert(self@.reviews[j as int].coder != coder@);
                assert(self@.reviews[j as int].enqueued != Some(coder@));
            }
            j += 1;
        }
        assert(!in_reviews(self@, coder@));
        false
    }

    /// Some active review is filed under this id.
    pub fn has_review(&self, id: u32) -> (r: bool)
        ensures
            r == has_id(self@.reviews, id),
    {
        let mut i: usize = 0;
        while i < self.active_reviews.len()
            invariant
                i <= self.active_reviews.len(),
                forall|k: int| 0 <= k < i ==> self@.reviews[k].id != id,
            decreases self.active_reviews.len() - i,
        {
            if self.active_reviews[i].id == id {
                proof {
                    assert(self@.reviews[i as int].id == id);
                }
                return true;
            }
            i += 1;
        }
        false
    }

    /// How many coders are waiting.
    pub fn waiting_count(&self) -> (n: usize)
        ensures
            n == self@.waiting.len(),
    {
        self.waiting_coders.len()
    }

    /// The coder is in the waiting set.
    pub fn is_waiting(&self, coder: &String) -> (r: bool)
        ensures
            r == in_waiting(self@, coder@),
    {
        let mut i: usize = 0;
        while i < self.waiting_coders.len()
            invariant
                i <= self.waiting_coders.len(),
                forall|k: int| 0 <= k < i ==> self@.waiting[k] != coder@,
            decreases self.waiting_coders.len() - i,
        {
            if self.waiting_coders[i] == *coder {
                proof {
                    assert(self@.waiting[i as int] == coder@);
                }
                return true;
            }
            i += 1;
        }
        false
    }

    /// How many reviews are active.
    pub fn active_review_count(&self) -> (n: usize)
        ensures
            n == self@.reviews.len(),
    {
        self.active_reviews.len()
    }

    /// An id not filed under any active review. The generator is consulted a
    /// bounded number of times; should every candidate collide, the least
    /// free id is taken instead (one exists, because active ids are pairwise
    /// distinct and there are at most as many as the id range holds).
    fn fresh_id(&mut self) -> (id: u32)
        requires
            old(self).wf(),
            old(self)@.reviews.len() <= u32::MAX,
        ensures
            final(self)@ == old(self)@,
            !has_id(old(self)@.reviews, id),
    {
        let ghost s0 = self@;
        let mut attempts: u8 = 0;
        while attempts < 16
            invariant
                self@ == s0,
                attempts <= 16,
            decreases 16 - attempts,
        {
            let candidate = self.generator.generate();
            if !self.has_review(candidate) {
                return candidate;
            }
            attempts += 1;
        }
        let mut candidate: u32 = 0;
        loop
            invariant
                self@ == s0,
                wf(s0),
                s0.reviews.len() <= u32::MAX,
                forall|x: u32| x < candidate ==> has_id(s0.reviews, x),
            decreases u32::MAX - candidate,
        {
            if !self.has_review(candidate) {
                return candidate;
            }
            if candidate == u32::MAX {
                proof {
                    lemma_free_id_exists(s0.reviews);
                    let free = choose|f: u32| !has_id(s0.reviews, f);
                    if free < candidate {
                        assert(has_id(s0.reviews, free));
                    }
                    assert(false);
                }
            }
            candidate = candidate + 1;
        }
    }

    /// Move the waiting coder at index `k` into a new review filed under a
    /// fresh id, carrying the displaced coder if one was handed in, and name
    /// the coder now under review.
    fn start_review(&mut self, k: usize, enqueued_coder: Option<String>, now: u64) -> (r:
        ServerResponse)
        requires
            old(self).wf(),
            k < old(self)@.waiting.len(),
            old(self)@.reviews.len() <= u32::MAX,
            (match enqueued_coder {
                Some(e) => !registered(old(self)@, e@),
                None => true,
            }),
        ensures
            final(self).wf(),
            (match r {
                ServerResponse::NeedsReviewer { coder, review_id } => coder@ == old(
                    self,
                )@.waiting[k as int] && !has_id(old(self)@.reviews, review_id) && final(self)@
                    == assign(
                    old(self)@,
                    k as int,
                    review_id,
                    (match enqueued_coder {
                        Some(e) => Some(e@),
                        None => None,
                    }),
                    now,
                ),
                _ => false,
            }),
    {
        let ghost s0 = self@;
        let ghost enq: Option<Seq<char>> = match &enqueued_coder {
            Some(e) => Some(e@),
            None => None,
        };
        let id = self.fresh_id();
        let coder = self.waiting_coders.remove(k);
        let review = Review { id, coder: coder.clone(), enqueued_coder, started: now };
        let ghost rv = review@;
        self.active_reviews.push(review);
        proof {
            assert(rv == (ReviewData { id, coder: s0.waiting[k as int], enqueued: enq, started: now }));
            assert(self@.waiting =~= s0.waiting.remove(k as int));
            assert(self@.reviews =~= s0.reviews.push(rv));
            assert(self@ =~= assign(s0, k as int, id, enq, now));
            lemma_assign_wf(s0, k as int, id, enq, now);
        }
        ServerResponse::NeedsReviewer { coder, review_id: id }
    }

    /// RequestReviewer: refuse a coder the system already knows; admit it to
    /// the waiting set while the WIP limit leaves room; at the limit, put the
    /// longest-waiting coder under review instead and park the incoming coder
    /// inside that review until it resolves.
    pub fn need_reviewer(&mut self, incoming_coder: String, now: u64) -> (r: ServerResponse)
        requires
            old(self).wf(),
            old(self)@.reviews.len() <= u32::MAX,
        ensures
            final(self).wf(),
            need_reviewer_post(old(self)@, final(self)@, incoming_coder@, now, r),
    {
        let ghost s0 = self@;
        let ghost cv = incoming_coder@;
        if self.is_already_registered(&incoming_coder) {
            return ServerResponse::AlreadyRegistered {};
        }
        if self.waiting_coders.len() >= self.configuration.wip_limit {
            // wip_limit >= 1, so somebody waits; the pick is the coder that
            // has waited longest
            self.start_review(0, Some(incoming_coder), now)
        } else {
            self.waiting_coders.push(incoming_coder);
            proof {
                assert(self@.waiting =~= s0.waiting.push(cv));
                assert(self@ =~= enqueue_waiting(s0, cv));
                lemma_enqueue_wf(s0, cv);
            }
            ServerResponse::Accepted {}
        }
    }

    /// OfferReviewTime: pair the offered review time with the longest-waiting
    /// coder other than the offering party itself, opening a review without a
    /// displaced coder; report that no review is needed when nobody else
    /// waits.
    pub fn have_time_for_review(&mut self, incoming_reviewer: &String, now: u64) -> (r:
        ServerResponse)
        requires
            old(self).wf(),
            old(self)@.reviews.len() <= u32::MAX,
        ensures
            final(self).wf(),
            offer_post(old(self)@, final(self)@, incoming_reviewer@, now, r),
    {
        let ghost s0 = self@;
        let ghost name = incoming_reviewer@;
        proof {
            lemma_first_other(s0.waiting, name);
        }
        let mut i: usize = 0;
        while i < self.waiting_coders.len()
            invariant
                self@ == s0,
                i <= self.waiting_coders.len(),
                forall|j: int| 0 <= j < i ==> s0.waiting[j] == name,
            decreases self.waiting_coders.len() - i,
        {
            if !(self.waiting_coders[i] == *incoming_reviewer) {
                proof {
                    let fo = first_other(s0.waiting, name);
                    lemma_first_other(s0.waiting, name);
                    assert(s0.waiting[i as int] != name);
                    if fo < i {
                        assert(s0.waiting[fo] == name);
                        assert(false);
                    }
                    if fo > i {
                        assert(s0.waiting[i as int] == name);
                        assert(false);
                    }
                    assert(fo == i);
                }
                return self.start_review(i, None, now);
            }
            i += 1;
        }
        proof {
            let fo = first_other(s0.waiting, name);
            lemma_first_other(s0.waiting, name);
            if fo < s0.waiting.len() {
                assert(s0.waiting[fo] == name);
                assert(false);
            }
        }
        ServerResponse::NoReviewerNeeded {}
    }

    /// WillReview: resolve the review under this id as accepted; its displaced
    /// coder, if any, re-enters the waiting set. An unknown id is reported,
    /// with nothing changed.
    pub fn will_review(&mut self, review_id: u32) -> (r: ServerResponse)
        requires
            old(self).wf(),
        ensures
            final(self).wf(),
            accept_post(old(self)@, final(self)@, review_id, r),
    {
        let ghost s0 = self@;
        let mut i: usize = 0;
        while i < self.active_reviews.len()
            invariant
                self@ == s0,
                i <= self.active_reviews.len(),
                forall|j: int| 0 <= j < i ==> s0.reviews[j].id != review_id,
            decreases self.active_reviews.len() - i,
        {
            if self.active_reviews[i].id == review_id {
                proof {
                    assert(s0.reviews[i as int].id == review_id);
                }
                let review = self.active_reviews.remove(i);
                let ghost rv = review@;
                match review.enqueued_coder {
                    Some(c) => {
                        self.waiting_coders.push(c);
                        proof {
                            assert(rv.enqueued == Some(c@));
                            assert(self@.waiting =~= s0.waiting.push(c@));
                        }
                    },
                    None => {
                        proof {
                            assert(rv.enqueued is None);
                        }
                    },
                }
                proof {
                    assert(self@.reviews =~= s0.reviews.remove(i as int));
                    assert(self@ =~= resolve_accept(s0, i as int));
                    lemma_resolve_accept_wf(s0, i as int);
                }
                return ServerResponse::Accepted {};
            }
            i += 1;
        }
        ServerResponse::ReviewNotFound {}
    }

    /// WontReview: resolve the review under this id as declined; its coder
    /// re-enters the waiting set and its displaced coder, if any, is dropped.
    /// An unknown id is reported, with nothing changed.
    pub fn wont_review(&mut self, review_id: u32) -> (r: ServerResponse)
        requires
            old(self).wf(),
        ensures
            final(self).wf(),
            decline_post(old(self)@, final(self)@, review_id, r),
    {
        let ghost s0 = self@;
        let mut i: usize = 0;
        while i < self.active_reviews.len()
            invariant
                self@ == s0,
                i <= self.active_reviews.len(),
                forall|j: int| 0 <= j < i ==> s0.reviews[j].id != review_id,
            decreases self.active_reviews.len() - i,
        {
            if self.active_reviews[i].id == review_id {
                proof {
                    assert(s0.reviews[i as int].id == review_id);
                }
                let review = self.active_reviews.remove(i);
                let ghost rv = review@;
                self.waiting_coders.push(review.coder);
                proof {
                    assert(self@.waiting =~= s0.waiting.push(rv.coder));
                    assert(self@.reviews =~= s0.reviews.remove(i as int));
                    assert(self@ =~= resolve_decline(s0, i as int));
                    lemma_resolve_decline_wf(s0, i as int);
                }
                return ServerResponse::Accepted {};
            }
            i += 1;
        }
        ServerResponse::ReviewNotFound {}
    }

    /// SweepTimeouts: every review whose age at `now` strictly exceeds the
    /// configured timeout is resolved as declined, so its coder re-enters the
    /// waiting set and its displaced coder is dropped.
    pub fn process_timeouts(&mut self, now: u64)
        requires
            old(self).wf(),
        ensures
            final(self).wf(),
            final(self)@ == sweep(old(self)@, now),
    {
        let ghost s0 = self@;
        let timeout = self.configuration.timeout_in_s;
        let mut i: usize = 0;
        proof {
            assert(self@.reviews.take(0) =~= Seq::<ReviewData>::empty());
            assert(self@.reviews.skip(0) =~= self@.reviews);
            assert(Seq::<ReviewData>::empty() + surviving_reviews(s0.reviews, now, s0.timeout)
                =~= surviving_reviews(s0.reviews, now, s0.timeout));
        }
        while i < self.active_reviews.len()
            invariant
                wf(self@),
                self@.wip_limit == s0.wip_limit,
                self@.timeout == s0.timeout,
                timeout == s0.timeout,
                i <= self.active_reviews.len(),
                surviving_reviews(s0.reviews, now, s0.timeout) == self@.reviews.take(i as int)
                    + surviving_reviews(self@.reviews.skip(i as int), now, s0.timeout),
                s0.waiting + reclaimed_coders(s0.reviews, now, s0.timeout) == self@.waiting
                    + reclaimed_coders(self@.reviews.skip(i as int), now, s0.timeout),
            decreases self.active_reviews.len() - i,
        {
            let ghost c0 = self@;
            let ghost rest = c0.reviews.skip(i as int);
            proof {
                assert(rest[0] == c0.reviews[i as int]);
            }
            let started = self.active_reviews[i].started;
            if now > started && now - started > timeout {
                proof {
                    assert(is_expired(rest.first(), now, s0.timeout));
                }
                let review = self.active_reviews.remove(i);
                let ghost rv = review@;
                self.waiting_coders.push(review.coder);
                proof {
                    assert(self@.waiting =~= c0.waiting.push(rv.coder));
                    assert(self@.reviews =~= c0.reviews.remove(i as int));
                    assert(self@ =~= resolve_decline(c0, i as int));
                    lemma_resolve_decline_wf(c0, i as int);
                    assert(self@.reviews.skip(i as int) =~= rest.drop_first());
                    assert(self@.reviews.take(i as int) =~= c0.reviews.take(i as int));
                    assert(surviving_reviews(rest, now, s0.timeout) == surviving_reviews(
                        rest.drop_first(),
                        now,
                        s0.timeout,
                    ));
                    assert(reclaimed_coders(rest, now, s0.timeout) =~= seq![rv.coder]
                        + reclaimed_coders(rest.drop_first(), now, s0.timeout));
                    assert(c0.waiting + reclaimed_coders(rest, now, s0.timeout) =~= self@.waiting
                        + reclaimed_coders(rest.drop_first(), now, s0.timeout));
                }
            } else {
                proof {
                    assert(!is_expired(rest.first(), now, s0.timeout));
                    assert(self@.reviews.skip(i + 1) =~= rest.drop_first());
                    assert(self@.reviews.take(i + 1) =~= c0.reviews.take(i as int).push(
                        rest.first(),
                    ));
                    assert(surviving_reviews(rest, now, s0.timeout) == seq![rest.first()]
                        + surviving_reviews(rest.drop_first(), now, s0.timeout));
                    assert(c0.reviews.take(i as int) + surviving_reviews(rest, now, s0.timeout)
                        =~= self@.reviews.take(i + 1) + surviving_reviews(
                        rest.drop_first(),
                        now,
                        s0.timeout,
                    ));
                    assert(reclaimed_coders(rest, now, s0.timeout) == reclaimed_coders(
                        rest.drop_first(),
                        now,
                        s0.timeout,
                    ));
                }
                i += 1;
            }
        }
        proof {
            assert(self@.reviews.skip(i as int) =~= Seq::<ReviewData>::empty());
            assert(surviving_reviews(Seq::<ReviewData>::empty(), now, s0.timeout)
                =~= Seq::<ReviewData>::empty());
            assert(reclaimed_coders(Seq::<ReviewData>::empty(), now, s0.timeout)
                =~= Seq::<Seq<char>>::empty());
            assert(self@.reviews.take(i as int) =~= self@.reviews);
            assert(self@.reviews.take(i as int) + surviving_reviews(
                Seq::<ReviewData>::empty(),
                now,
                s0.timeout,
            ) =~= self@.reviews);
            assert(self@.waiting + reclaimed_coders(Seq::<ReviewData>::empty(), now, s0.timeout)
                =~= self@.waiting);
            assert(self@ =~= sweep(s0, now));
        }
    }

    /// Apply one decoded matching request to the engine and give back the
    /// response it earns.
    pub fn dispatch_request(&mut self, request: FindReviewerRequest, now: u64) -> (r:
        ServerResponse)
        requires
            old(self).wf(),
            old(self)@.reviews.len() <= u32::MAX,
        ensures
            final(self).wf(),
            (match request {
                FindReviewerRequest::NeedReviewer { coder } => need_reviewer_post(
                    old(self)@,
                    final(self)@,
                    coder@,
                    now,
                    r,
                ),
                FindReviewerRequest::HaveTimeForReview { reviewer } => offer_post(
                    old(self)@,
                    final(self)@,
                    reviewer@,
                    now,
                    r,
                ),
                FindReviewerRequest::WillReview { review_id } => accept_post(
                    old(self)@,
                    final(self)@,
                    review_id,
                    r,
                ),
                FindReviewerRequest::WontReview { review_id } => decline_post(
                    old(self)@,
                    final(self)@,
                    review_id,
                    r,
                ),
            }),
    {
        match request {
            FindReviewerRequest::NeedReviewer { coder } => self.need_reviewer(coder, now),
            FindReviewerRequest::HaveTimeForReview { reviewer } => self.have_time_for_review(
                &reviewer,
                now,
            ),
            FindReviewerRequest::WillReview { review_id } => self.will_review(review_id),
            FindReviewerRequest::WontReview { review_id } => self.wont_review(review_id),
        }
    }
}

} // verus!
