use meta_crawler::cache::CacheControl;
use meta_crawler::config::{parse_integer, Config, ConfigVars};
use meta_crawler::errors::{ApiClientError, ConfigError};
use meta_crawler::fetch::{describe_status, FetchStep, Outcome, Reply, Resource, RetryPolicy};
use meta_crawler::text::to_decimal;

const POLICY: RetryPolicy = RetryPolicy { delay_ms: 500, max_retries: 3 };

fn finish(step: FetchStep) -> (Outcome, u64) {
    match step {
        FetchStep::Finish { outcome, pause_ms } => (outcome, pause_ms),
        FetchStep::Retry { .. } => panic!("expected a finish"),
    }
}

fn wait(step: FetchStep) -> u64 {
    match step {
        FetchStep::Retry { wait_ms } => wait_ms,
        FetchStep::Finish { .. } => panic!("expected a retry"),
    }
}

#[test]
fn decoded_reply_finishes_after_pause() {
    let (o, p) = finish(POLICY.decide(Resource::Event, 1, &Reply::Decoded { has_data: true }));
    assert!(matches!(o, Outcome::Data));
    assert_eq!(p, 500);
    let (o, _) = finish(POLICY.decide(Resource::Event, 1, &Reply::Decoded { has_data: false }));
    assert!(matches!(o, Outcome::NoData));
}

#[test]
fn not_found_is_terminal() {
    let (o, p) = finish(POLICY.decide(Resource::Event, 1, &Reply::Status(404)));
    assert!(matches!(o, Outcome::Error(ApiClientError::NotFound)));
    assert_eq!(p, 500);
    let (o, p) = finish(POLICY.decide(Resource::Standings, 1, &Reply::Status(404)));
    assert!(matches!(o, Outcome::Error(ApiClientError::NotFound)));
    assert_eq!(p, 500);
    let (o, _) = finish(POLICY.decide(Resource::Statistics, 1, &Reply::Status(404)));
    assert!(matches!(o, Outcome::NoData));
}

#[test]
fn server_errors_retry_with_doubling_backoff() {
    assert_eq!(wait(POLICY.decide(Resource::Event, 1, &Reply::Status(503))), 1000);
    assert_eq!(wait(POLICY.decide(Resource::Event, 2, &Reply::Status(500))), 2000);
    let (o, p) = finish(POLICY.decide(Resource::Event, 3, &Reply::Status(502)));
    assert!(matches!(o, Outcome::Error(ApiClientError::ServerError)));
    assert_eq!(p, 0);
    assert_eq!(POLICY.backoff_ms(0), 500);
    let huge = RetryPolicy { delay_ms: u64::MAX / 2 + 1, max_retries: 5 };
    assert_eq!(huge.backoff_ms(1), u64::MAX);
}

#[test]
fn at_most_max_retries_attempts() {
    let once = RetryPolicy { delay_ms: 10, max_retries: 1 };
    let (o, _) = finish(once.decide(Resource::Event, 1, &Reply::Status(500)));
    assert!(matches!(o, Outcome::Error(ApiClientError::ServerError)));
    let none = RetryPolicy { delay_ms: 10, max_retries: 0 };
    let t = Reply::Transport { timed_out: true, message: String::new() };
    assert!(matches!(finish(none.decide(Resource::Event, 1, &t)).0, Outcome::Error(ApiClientError::Timeout)));
}

#[test]
fn timeouts_retry_then_fail() {
    let timeout = Reply::Transport { timed_out: true, message: "t".to_string() };
    assert_eq!(wait(POLICY.decide(Resource::Decklist, 2, &timeout)), 2000);
    let (o, _) = finish(POLICY.decide(Resource::Decklist, 3, &timeout));
    assert!(matches!(o, Outcome::Error(ApiClientError::Timeout)));
    let refused = Reply::Transport { timed_out: false, message: "refused".to_string() };
    match finish(POLICY.decide(Resource::Card, 3, &refused)).0 {
        Outcome::Error(ApiClientError::RequestFailed(m)) => assert_eq!(m, "refused"),
        _ => panic!("expected a failed request"),
    }
}

#[test]
fn other_statuses_and_bad_bodies_are_terminal() {
    match finish(POLICY.decide(Resource::Event, 1, &Reply::Status(403))).0 {
        Outcome::Error(ApiClientError::RequestFailed(m)) => assert_eq!(m, "Status: 403"),
        _ => panic!("expected a failed request"),
    }
    match finish(POLICY.decide(Resource::Event, 1, &Reply::Undecodable("bad".to_string()))).0 {
        Outcome::Error(ApiClientError::DeserializationError(m)) => assert_eq!(m, "bad"),
        _ => panic!("expected a decode error"),
    }
}

#[test]
fn statistics_lookup_never_fails() {
    let (o, p) = finish(POLICY.decide(Resource::Statistics, 1, &Reply::Undecodable("x".to_string())));
    assert!(matches!(o, Outcome::NoData));
    assert_eq!(p, 500);
    let (o, _) = finish(POLICY.decide(Resource::Statistics, 3, &Reply::Status(500)));
    assert!(matches!(o, Outcome::NoData));
    let (o, _) = finish(POLICY.decide(Resource::Statistics, 1, &Reply::Status(401)));
    assert!(matches!(o, Outcome::NoData));
}

#[test]
fn transport_errors_classified() {
    assert!(matches!(ApiClientError::from_transport(true, None, String::new()), ApiClientError::Timeout));
    assert!(matches!(ApiClientError::from_transport(false, Some(404), String::new()), ApiClientError::NotFound));
    assert!(matches!(ApiClientError::from_transport(false, Some(502), String::new()), ApiClientError::ServerError));
    match ApiClientError::from_transport(false, Some(400), "bad request".to_string()) {
        ApiClientError::RequestFailed(m) => assert_eq!(m, "bad request"),
        _ => panic!("expected a failed request"),
    }
}

#[test]
fn decimal_rendering() {
    assert_eq!(to_decimal(0), "0");
    assert_eq!(to_decimal(7), "7");
    assert_eq!(to_decimal(3600), "3600");
    assert_eq!(to_decimal(u64::MAX), "18446744073709551615");
    assert_eq!(describe_status(500), "Status: 500");
}

#[test]
fn cache_header_for_successful_gets() {
    let cc = CacheControl::new(3600);
    assert_eq!(cc.max_age(), 3600);
    let m = cc.new_transform(());
    assert_eq!(m.header_for(true, 200), Some("public, max-age=3600".to_string()));
    assert_eq!(m.header_for(false, 200), None);
    assert_eq!(m.header_for(true, 404), None);
}

fn vars() -> ConfigVars {
    ConfigVars {
        mongodb_uri: Some("mongodb://db".to_string()),
        mongodb_database: None,
        host: None,
        port: None,
        request_delay_ms: None,
        max_retries: None,
        request_timeout_secs: None,
        crawler_max_404s: None,
        crawler_start_id: None,
        cache_ttl_secs: None,
    }
}

#[test]
fn config_defaults() {
    let c = Config::from_vars(vars()).unwrap();
    assert_eq!(c.mongodb_uri, "mongodb://db");
    assert_eq!(c.mongodb_database, "grand-archive-meta");
    assert_eq!(c.host, "0.0.0.0");
    assert_eq!(c.port, 8080);
    assert_eq!(c.request_delay_ms, 500);
    assert_eq!(c.max_retries, 3);
    assert_eq!(c.request_timeout_secs, 10);
    assert_eq!(c.crawler_max_404s, 10);
    assert_eq!(c.crawler_start_id, 1);
    assert_eq!(c.cache_ttl_secs, 3600);
}

#[test]
fn config_reads_settings_and_falls_back() {
    let mut v = vars();
    v.port = Some("9000".to_string());
    v.max_retries = Some("five".to_string());
    v.crawler_start_id = Some("-20".to_string());
    v.request_delay_ms = Some("+250".to_string());
    let c = Config::from_vars(v).unwrap();
    assert_eq!(c.port, 9000);
    assert_eq!(c.max_retries, 3);
    assert_eq!(c.crawler_start_id, -20);
    assert_eq!(c.request_delay_ms, 250);
}

#[test]
fn config_errors() {
    let mut v = vars();
    v.mongodb_uri = None;
    assert_eq!(Config::from_vars(v).unwrap_err(), ConfigError::MissingEnvVar("MONGODB_URI"));
    let mut v = vars();
    v.port = Some("70000".to_string());
    assert_eq!(Config::from_vars(v).unwrap_err(), ConfigError::InvalidPort);
}

#[test]
fn integer_parsing() {
    assert_eq!(parse_integer("42", false, 0, 100), Some(42));
    assert_eq!(parse_integer("-5", false, -10, 10), None);
    assert_eq!(parse_integer("-5", true, -10, 10), Some(-5));
    assert_eq!(parse_integer("", true, -10, 10), None);
    assert_eq!(parse_integer("+", true, -10, 10), None);
    assert_eq!(parse_integer("1x", true, -10, 10), None);
    assert_eq!(parse_integer("11", true, -10, 10), None);
    assert_eq!(parse_integer("99999999999999999999999999", false, 0, 100), None);
}
