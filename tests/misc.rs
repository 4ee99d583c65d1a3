use site::broadcast::{broadcast_targets, tally};
use site::error::{AppError, ServerError};
use site::keys::{create_api_key, strip_outer_quotes, AUTHORIZATION_KEY_LENGTH, KEY_LENGTH};
use site::layout::{has_prefix, wraps_in_layout, Link};
use site::models::{upgrade_outcome, NewClient, UpgradeOutcome};
use site::registry::Registry;

#[test]
fn broadcast_counts_failures_without_stopping() {
    let mut reg: Registry<bool> = Registry::new();
    for id in 0..5 {
        reg.insert(id, id % 2 == 0);
    }
    let targets = broadcast_targets(&reg);
    assert_eq!(targets.len(), 5);
    let outcomes: Vec<bool> = targets.iter().map(|id| *reg.get(*id).unwrap()).collect();
    let report = tally(&outcomes);
    assert_eq!(report.delivered, 3);
    assert_eq!(report.failed, 2);
    let none = tally(&Vec::new());
    assert_eq!((none.delivered, none.failed), (0, 0));
}

#[test]
fn keys_have_the_asked_length_and_alphabet() {
    for len in [0, 1, AUTHORIZATION_KEY_LENGTH, KEY_LENGTH] {
        let key = create_api_key(len);
        assert_eq!(key.chars().count(), len);
        assert!(key.chars().all(|c| c.is_ascii_alphanumeric()));
    }
}

#[test]
fn quotes_are_stripped_once() {
    assert_eq!(strip_outer_quotes("\"abc\""), "abc");
    assert_eq!(strip_outer_quotes("\"\"x\"\""), "\"x\"");
    assert_eq!(strip_outer_quotes("\"\""), "");
    assert_eq!(strip_outer_quotes("\""), "\"");
    assert_eq!(strip_outer_quotes("abc"), "abc");
    assert_eq!(strip_outer_quotes("\"abc"), "\"abc");
}

#[test]
fn layout_wrapping_rules() {
    assert!(wraps_in_layout(None, "/clients"));
    assert!(wraps_in_layout(Some("false"), "/"));
    assert!(!wraps_in_layout(Some("true"), "/clients"));
    assert!(!wraps_in_layout(None, "/favicon.ico"));
    assert!(!wraps_in_layout(None, "/static/style.css"));
    assert!(!wraps_in_layout(None, "/api/new"));
    assert!(has_prefix("/apiary", "/api"));
    assert!(!has_prefix("/ap", "/api"));
}

#[test]
fn upgrade_decisions() {
    let missing = upgrade_outcome(false, Some(3));
    assert!(missing == UpgradeOutcome::MissingKey);
    assert_eq!(missing.status_code(), 400);
    assert_eq!(missing.message(), "Missing API key in request!");
    let refused = upgrade_outcome(true, None);
    assert!(refused == UpgradeOutcome::Unauthorized);
    assert_eq!(refused.status_code(), 401);
    assert_eq!(refused.message(), "No access authorized with given api key!");
    assert!(upgrade_outcome(true, Some(7)) == UpgradeOutcome::Accept(7));
}

#[test]
fn app_error_codes_and_messages() {
    let cases = vec![
        (AppError::BadRequest("x".to_string()), 400, "Bad Request: x"),
        (AppError::Unauthorized("y".to_string()), 401, "Unauthorized: y"),
        (AppError::Forbidden("z".to_string()), 403, "Forbidden: z"),
        (AppError::NotFound("page".to_string()), 404, "Not Found: page"),
        (AppError::ServiceUnavailable("db".to_string()), 503, "Service Unavailable: db"),
        (AppError::internal(anyhow::Error::msg("boom")), 500, "Internal Server Error: boom"),
    ];
    for (err, code, text) in cases {
        assert_eq!(err.status_code(), code);
        assert_eq!(err.message(), text);
    }
}

#[test]
fn server_error_message() {
    let err = ServerError(anyhow::Error::msg("pool down"));
    assert_eq!(err.status_code(), 500);
    assert_eq!(err.message(), "Something went wrong: pool down");
}

#[test]
fn new_client_is_authorized_and_not_revoked() {
    let c = NewClient::new("turtle", "AbC12345");
    assert_eq!(c.name, "turtle");
    assert_eq!(c.auth_key, "AbC12345");
    assert_eq!(c.status, "Authorized");
    assert!(!c.revoked);
    let link = Link::new("Home", "/");
    assert_eq!((link.name, link.url), ("Home", "/"));
}
