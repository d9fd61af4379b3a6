use find_reviewer::application::Application;
use find_reviewer::application::ApplicationConfiguration;
use find_reviewer::application::FindReviewerRequest;
use find_reviewer::idgen::RandomIdGenerator;
use find_reviewer::idgen::SequentialIdGenerator;
use find_reviewer::ServerResponse;

fn configuration(wip_limit: usize, timeout_in_s: u64) -> ApplicationConfiguration {
    ApplicationConfiguration {
        address: "localhost:3000".to_owned(),
        timeout_in_s,
        wip_limit,
    }
}

fn application(wip_limit: usize, timeout_in_s: u64) -> Application<SequentialIdGenerator> {
    Application::new(configuration(wip_limit, timeout_in_s), SequentialIdGenerator { next: 0 })
}

fn need(app: &mut Application<SequentialIdGenerator>, coder: &str, now: u64) -> ServerResponse {
    app.need_reviewer(coder.to_owned(), now)
}

#[test]
fn scenario_wip_limit_reached() {
    let mut app = application(5, 30);
    let coders = ["coder1", "coder2", "coder3", "coder4", "coder5"];
    for coder in &coders {
        assert_eq!(need(&mut app, coder, 0), ServerResponse::Accepted {});
    }
    assert_eq!(app.waiting_count(), 5);
    match need(&mut app, "coder6", 0) {
        ServerResponse::NeedsReviewer { coder, review_id } => {
            assert!(coders.contains(&coder.as_str()));
            assert!(app.has_review(review_id));
        }
        other => panic!("expected NeedsReviewer, got {:?}", other),
    }
    assert_eq!(app.waiting_count(), 4);
    assert!(!app.is_waiting(&"coder6".to_owned()));
    assert!(app.is_already_registered(&"coder6".to_owned()));
    assert_eq!(app.active_review_count(), 1);
}

#[test]
fn scenario_duplicate_registration() {
    let mut app = application(5, 30);
    assert_eq!(need(&mut app, "coder1", 0), ServerResponse::Accepted {});
    assert_eq!(need(&mut app, "coder1", 0), ServerResponse::AlreadyRegistered {});
}

#[test]
fn scenario_self_match_excluded() {
    let mut app = application(5, 30);
    assert_eq!(need(&mut app, "coderA", 0), ServerResponse::Accepted {});
    let r = app.have_time_for_review(&"coderA".to_owned(), 0);
    assert_eq!(r, ServerResponse::NoReviewerNeeded {});
    assert!(app.is_waiting(&"coderA".to_owned()));
}

#[test]
fn scenario_accept_requeues_displaced_coder() {
    let mut app = application(1, 30);
    assert_eq!(need(&mut app, "w", 0), ServerResponse::Accepted {});
    let review_id = match need(&mut app, "x", 0) {
        ServerResponse::NeedsReviewer { coder, review_id } => {
            assert_eq!(coder, "w");
            review_id
        }
        other => panic!("expected NeedsReviewer, got {:?}", other),
    };
    assert_eq!(app.will_review(review_id), ServerResponse::Accepted {});
    assert_eq!(app.active_review_count(), 0);
    assert!(app.is_waiting(&"x".to_owned()));
    assert!(!app.is_already_registered(&"w".to_owned()));
}

#[test]
fn scenario_unknown_review_id() {
    let mut app = application(5, 30);
    assert_eq!(need(&mut app, "coder1", 0), ServerResponse::Accepted {});
    assert_eq!(app.will_review(999), ServerResponse::ReviewNotFound {});
    assert_eq!(app.wont_review(999), ServerResponse::ReviewNotFound {});
    assert_eq!(app.waiting_count(), 1);
    assert_eq!(app.active_review_count(), 0);
}

#[test]
fn scenario_timeout_boundary() {
    let mut app = application(1, 30);
    assert_eq!(need(&mut app, "a", 0), ServerResponse::Accepted {});
    let review_id = match need(&mut app, "b", 0) {
        ServerResponse::NeedsReviewer { review_id, .. } => review_id,
        other => panic!("expected NeedsReviewer, got {:?}", other),
    };
    app.process_timeouts(30);
    assert!(app.has_review(review_id));
    app.process_timeouts(31);
    assert!(!app.has_review(review_id));
    assert!(app.is_waiting(&"a".to_owned()));
    assert!(!app.is_already_registered(&"b".to_owned()));
}

#[test]
fn offered_review_skips_the_offerer() {
    let mut app = application(5, 30);
    assert_eq!(need(&mut app, "one", 0), ServerResponse::Accepted {});
    assert_eq!(need(&mut app, "two", 0), ServerResponse::Accepted {});
    match app.have_time_for_review(&"one".to_owned(), 0) {
        ServerResponse::NeedsReviewer { coder, review_id } => {
            assert_eq!(coder, "two");
            assert!(app.has_review(review_id));
        }
        other => panic!("expected NeedsReviewer, got {:?}", other),
    }
    assert!(app.is_waiting(&"one".to_owned()));
    assert!(!app.is_waiting(&"two".to_owned()));
}

#[test]
fn offer_on_empty_waiting_set() {
    let mut app = application(5, 30);
    let r = app.have_time_for_review(&"anyone".to_owned(), 0);
    assert_eq!(r, ServerResponse::NoReviewerNeeded {});
}

#[test]
fn decline_requeues_coder_and_drops_displaced() {
    let mut app = application(1, 30);
    assert_eq!(need(&mut app, "w", 0), ServerResponse::Accepted {});
    let review_id = match need(&mut app, "x", 0) {
        ServerResponse::NeedsReviewer { review_id, .. } => review_id,
        other => panic!("expected NeedsReviewer, got {:?}", other),
    };
    assert_eq!(app.wont_review(review_id), ServerResponse::Accepted {});
    assert_eq!(app.active_review_count(), 0);
    assert!(app.is_waiting(&"w".to_owned()));
    assert!(!app.is_already_registered(&"x".to_owned()));
}

#[test]
fn resolution_removes_exactly_one_review() {
    let mut app = application(1, 30);
    assert_eq!(need(&mut app, "a", 0), ServerResponse::Accepted {});
    let first = match need(&mut app, "b", 0) {
        ServerResponse::NeedsReviewer { review_id, .. } => review_id,
        other => panic!("expected NeedsReviewer, got {:?}", other),
    };
    assert_eq!(need(&mut app, "c", 0), ServerResponse::Accepted {});
    let second = match need(&mut app, "d", 0) {
        ServerResponse::NeedsReviewer { review_id, .. } => review_id,
        other => panic!("expected NeedsReviewer, got {:?}", other),
    };
    assert_ne!(first, second);
    let waiting_before = app.waiting_count();
    assert_eq!(app.active_review_count(), 2);
    assert_eq!(app.will_review(first), ServerResponse::Accepted {});
    assert_eq!(app.active_review_count(), 1);
    assert!(app.waiting_count() <= waiting_before + 1);
    assert_eq!(app.wont_review(second), ServerResponse::Accepted {});
    assert_eq!(app.active_review_count(), 0);
}

#[test]
fn identity_registered_at_most_once() {
    let mut app = application(1, 30);
    assert_eq!(need(&mut app, "a", 0), ServerResponse::Accepted {});
    let review_id = match need(&mut app, "b", 0) {
        ServerResponse::NeedsReviewer { review_id, .. } => review_id,
        other => panic!("expected NeedsReviewer, got {:?}", other),
    };
    // "a" sits in the review's coder slot, "b" in its displaced slot: both
    // count as registered, neither waits.
    assert_eq!(need(&mut app, "a", 0), ServerResponse::AlreadyRegistered {});
    assert_eq!(need(&mut app, "b", 0), ServerResponse::AlreadyRegistered {});
    assert!(!app.is_waiting(&"a".to_owned()));
    assert!(!app.is_waiting(&"b".to_owned()));
    assert_eq!(app.will_review(review_id), ServerResponse::Accepted {});
    // Resolving the review frees "a"; with "b" re-queued at the limit, a new
    // request from "a" is admitted by displacing "b" into a fresh review.
    match need(&mut app, "a", 0) {
        ServerResponse::NeedsReviewer { coder, .. } => assert_eq!(coder, "b"),
        other => panic!("expected NeedsReviewer, got {:?}", other),
    }
}

#[test]
fn admission_respects_wip_limit() {
    let mut app = application(3, 30);
    for coder in ["a", "b", "c", "d", "e", "f"] {
        need(&mut app, coder, 0);
        assert!(app.waiting_count() <= 3);
    }
}

#[test]
fn sweep_reclaims_only_expired_reviews() {
    let mut app = application(1, 10);
    assert_eq!(need(&mut app, "a", 0), ServerResponse::Accepted {});
    let early = match need(&mut app, "b", 0) {
        ServerResponse::NeedsReviewer { review_id, .. } => review_id,
        other => panic!("expected NeedsReviewer, got {:?}", other),
    };
    assert_eq!(need(&mut app, "c", 5), ServerResponse::Accepted {});
    let late = match need(&mut app, "d", 5) {
        ServerResponse::NeedsReviewer { review_id, .. } => review_id,
        other => panic!("expected NeedsReviewer, got {:?}", other),
    };
    app.process_timeouts(12);
    assert!(!app.has_review(early));
    assert!(app.has_review(late));
    assert!(app.is_waiting(&"a".to_owned()));
    assert!(!app.is_already_registered(&"b".to_owned()));
}

#[test]
fn dispatching_routes_each_request() {
    let mut app = application(1, 30);
    let r = app.dispatch_request(
        FindReviewerRequest::NeedReviewer { coder: "a".to_owned() },
        0,
    );
    assert_eq!(r, ServerResponse::Accepted {});
    let r = app.dispatch_request(
        FindReviewerRequest::HaveTimeForReview { reviewer: "z".to_owned() },
        0,
    );
    let review_id = match r {
        ServerResponse::NeedsReviewer { coder, review_id } => {
            assert_eq!(coder, "a");
            review_id
        }
        other => panic!("expected NeedsReviewer, got {:?}", other),
    };
    let r = app.dispatch_request(FindReviewerRequest::WontReview { review_id }, 0);
    assert_eq!(r, ServerResponse::Accepted {});
    let r = app.dispatch_request(FindReviewerRequest::WillReview { review_id }, 0);
    assert_eq!(r, ServerResponse::ReviewNotFound {});
}

#[test]
fn random_generator_produces_usable_ids() {
    let mut app = Application::new(configuration(1, 30), RandomIdGenerator {});
    assert_eq!(app.need_reviewer("a".to_owned(), 0), ServerResponse::Accepted {});
    let review_id = match app.need_reviewer("b".to_owned(), 0) {
        ServerResponse::NeedsReviewer { review_id, .. } => review_id,
        other => panic!("expected NeedsReviewer, got {:?}", other),
    };
    assert!(app.has_review(review_id));
    assert_eq!(app.will_review(review_id), ServerResponse::Accepted {});
    assert!(app.is_waiting(&"b".to_owned()));
}

#[test]
fn default_configuration_values() {
    let config = ApplicationConfiguration::default();
    assert_eq!(config.address, "localhost:3000");
    assert_eq!(config.timeout_in_s, 30);
    assert_eq!(config.wip_limit, 5);
}
