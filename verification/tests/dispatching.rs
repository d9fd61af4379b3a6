use find_reviewer::application::Application;
use find_reviewer::application::ApplicationConfiguration;
use find_reviewer::authentication::Authentication;
use find_reviewer::authentication::UserDatabase;
use find_reviewer::dispatcher::distribute_request_under_services;
use find_reviewer::idgen::SequentialIdGenerator;
use find_reviewer::ServerRequest;
use find_reviewer::ServerResponse;

fn services() -> (Application<SequentialIdGenerator>, Authentication) {
    let configuration = ApplicationConfiguration {
        address: "localhost:3000".to_owned(),
        timeout_in_s: 30,
        wip_limit: 5,
    };
    (
        Application::new(configuration, SequentialIdGenerator { next: 0 }),
        Authentication::new(UserDatabase::default()),
    )
}

#[test]
fn known_session_reaches_the_engine() {
    let (mut app, mut auth) = services();
    let token = Some("token1".to_owned());
    let (response, cookie) = distribute_request_under_services(
        &mut app,
        &mut auth,
        &ServerRequest::NeedReviewer {},
        &token,
        0,
    );
    assert_eq!(response, ServerResponse::Accepted {});
    assert_eq!(cookie, Some("token1".to_owned()));
    assert!(app.is_waiting(&"user1".to_owned()));
}

#[test]
fn unknown_session_is_turned_away() {
    let (mut app, mut auth) = services();
    let token = Some("bogus".to_owned());
    let (response, cookie) = distribute_request_under_services(
        &mut app,
        &mut auth,
        &ServerRequest::NeedReviewer {},
        &token,
        0,
    );
    assert_eq!(response, ServerResponse::UnknownIdentity {});
    assert_eq!(cookie, None);
    assert_eq!(app.waiting_count(), 0);
}

#[test]
fn sending_a_known_token_establishes_the_session() {
    let (mut app, mut auth) = services();
    let (response, cookie) = distribute_request_under_services(
        &mut app,
        &mut auth,
        &ServerRequest::SendIdentity { token: "token2".to_owned() },
        &None,
        0,
    );
    assert_eq!(response, ServerResponse::KnownIdentity { username: "user2".to_owned() });
    assert_eq!(cookie, Some("token2".to_owned()));
}

#[test]
fn requests_without_a_session_are_turned_away() {
    let (mut app, mut auth) = services();
    let (response, cookie) = distribute_request_under_services(
        &mut app,
        &mut auth,
        &ServerRequest::NeedReviewer {},
        &None,
        0,
    );
    assert_eq!(response, ServerResponse::UnknownIdentity {});
    assert_eq!(cookie, None);
}

#[test]
fn identity_request_names_the_resolved_user() {
    let (mut app, mut auth) = services();
    let token = Some("token1".to_owned());
    let (response, _cookie) = distribute_request_under_services(
        &mut app,
        &mut auth,
        &ServerRequest::LoadIdentity {},
        &token,
        0,
    );
    assert_eq!(response, ServerResponse::KnownIdentity { username: "user1".to_owned() });
    assert_eq!(app.waiting_count(), 0);
    assert_eq!(app.active_review_count(), 0);
}
