use find_reviewer::authentication::Authentication;
use find_reviewer::authentication::UserDatabase;
use find_reviewer::session::extract_token;

#[test]
fn default_database_resolves_sample_tokens() {
    let mut auth = Authentication::new(UserDatabase::default());
    assert_eq!(auth.process_request(&"token1".to_owned()), Some("user1".to_owned()));
    assert_eq!(auth.process_request(&"token2".to_owned()), Some("user2".to_owned()));
}

#[test]
fn unknown_token_is_refused() {
    let mut auth = Authentication::new(UserDatabase::default());
    assert_eq!(auth.process_request(&"token3".to_owned()), None);
    assert_eq!(auth.process_request(&"".to_owned()), None);
}

#[test]
fn entries_round_trip() {
    let entries = vec![
        ("alpha".to_owned(), "alice".to_owned()),
        ("beta".to_owned(), "bob".to_owned()),
    ];
    let database = UserDatabase::from_entries(entries.clone());
    assert_eq!(database.entries(), &entries);
    let mut auth = Authentication::new(database);
    assert_eq!(auth.process_request(&"beta".to_owned()), Some("bob".to_owned()));
    assert_eq!(auth.process_request(&"alice".to_owned()), None);
}

#[test]
fn token_is_extracted_from_cookie_lines() {
    let cookies = vec!["theme=dark".to_owned(), "token=abc123".to_owned()];
    assert_eq!(extract_token(&cookies), Some("abc123".to_owned()));
}

#[test]
fn token_value_stops_at_the_next_separator() {
    let cookies = vec!["token=abc=def".to_owned()];
    assert_eq!(extract_token(&cookies), Some("abc".to_owned()));
}

#[test]
fn cookie_lines_without_a_token_yield_nothing() {
    assert_eq!(extract_token(&vec![]), None);
    assert_eq!(extract_token(&vec!["token".to_owned()]), None);
    assert_eq!(extract_token(&vec!["theme=dark".to_owned()]), None);
    assert_eq!(extract_token(&vec!["=token".to_owned()]), None);
}

#[test]
fn empty_token_value_is_extracted() {
    assert_eq!(extract_token(&vec!["token=".to_owned()]), Some("".to_owned()));
}

#[test]
fn first_matching_entry_wins() {
    let entries = vec![
        ("tok".to_owned(), "first".to_owned()),
        ("tok".to_owned(), "second".to_owned()),
    ];
    let mut auth = Authentication::new(UserDatabase::from_entries(entries));
    assert_eq!(auth.process_request(&"tok".to_owned()), Some("first".to_owned()));
}
