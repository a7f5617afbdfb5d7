//! Signing in, exchanging tokens, and commands that need a token.
use gaffer::auth::{
    auth_success_lines, exchange_attempt, exchange_next, fetch_id_token, parse_session,
    persistent_api_url, poll_deadline, poll_next, poll_once, poll_start,
    request_device_authorization, session_next, session_timeout, session_token, try_exchange,
    url_of, verify_code, DeviceAuthorization, DeviceCredential, DeviceFlowError, ExchangeStep, ExchangedToken,
    HttpReply, OAuthError, OidcError, PollConfig, PollOutcome, PollStep, SessionEvent, SessionStep, EXCHANGE_MAX_RETRIES,
    MAX_CONSECUTIVE_ERRORS, SESSION_TIMEOUT_MS,
};
use gaffer::commands::{
    child_exit_code, classify_cause, classify_failures, collect_reports, configured_token, ensure_gitignore,
    final_exit_code, is_debug, is_in_monorepo, markers_of_shared_roots, resolve_token,
    suggested_fix, DirFacts, FailOn, FailureClassification, ReportOutcome,
};
use gaffer::upload::UploadError;

const AUTH_BODY: &str = r#"{"device_code":"dev_abc","user_code":"WDJB4MJK","verification_uri":"https://app.gaffer.sh/cli/setup","verification_uri_complete":"https://app.gaffer.sh/cli/setup?code=WDJB4MJK","expires_in":300,"interval":5}"#;
const GRANTED_BODY: &str = r#"{"access_token":"gfr_abc123","token_type":"Bearer","scope":"upload:prj_1","project_id":"prj_1","organization_id":"org_1"}"#;

/// A status and a body, or why there is no answer.
type Reply = Result<(u16, String), String>;

fn reply(status: u16, body: &str) -> Reply {
    Ok((status, body.to_string()))
}

/// The object in a body.
fn object(body: &str) -> Result<serde_json::Value, String> {
    serde_json::from_str(body).map_err(|e| e.to_string())
}

fn text(v: &serde_json::Value, key: &str) -> Result<String, String> {
    maybe(v, key).ok_or_else(|| format!("missing field `{key}`"))
}

fn maybe(v: &serde_json::Value, key: &str) -> Option<String> {
    v.get(key).and_then(|t| t.as_str()).map(str::to_string)
}

fn authorization(body: &str) -> Result<DeviceAuthorization, String> {
    let v = object(body)?;
    Ok(DeviceAuthorization {
        device_code: text(&v, "device_code")?,
        user_code: text(&v, "user_code")?,
        verification_uri: text(&v, "verification_uri")?,
        verification_uri_complete: maybe(&v, "verification_uri_complete"),
        expires_in: v.get("expires_in").and_then(|n| n.as_u64()),
        interval: v.get("interval").and_then(|n| n.as_u64()),
    })
}

fn credential(body: &str) -> Result<DeviceCredential, String> {
    let v = object(body)?;
    Ok(DeviceCredential {
        access_token: text(&v, "access_token")?,
        scope: maybe(&v, "scope"),
        project_id: maybe(&v, "project_id"),
        organization_id: maybe(&v, "organization_id"),
    })
}

fn identity(body: &str) -> Result<String, String> {
    text(&object(body)?, "value")
}

fn token(body: &str) -> Result<ExchangedToken, String> {
    let v = object(body)?;
    Ok(ExchangedToken {
        access_token: text(&v, "access_token")?,
        claimed: v.get("claimed").and_then(|c| c.as_bool()).unwrap_or(false),
        claim_url: maybe(&v, "claim_url"),
    })
}

fn read<T>(reply: &Reply, value: fn(&str) -> Result<T, String>) -> Result<HttpReply<T>, String> {
    let (status, body) = reply.clone()?;
    let error = object(&body).ok().and_then(|v| {
        Some(OAuthError { error: maybe(&v, "error")?, description: maybe(&v, "error_description") })
    });
    Ok(HttpReply { status, value: value(&body), error })
}

fn some(s: &str) -> Option<String> {
    Some(s.to_string())
}

#[test]
fn request_device_authorization_happy_path() {
    let auth = request_device_authorization(read(&reply(200, AUTH_BODY), authorization)).ok().expect("should succeed");
    assert_eq!(auth.device_code, "dev_abc");
    assert_eq!(auth.user_code, "WDJB4MJK");
    assert_eq!(auth.browser_url(), "https://app.gaffer.sh/cli/setup?code=WDJB4MJK");
    assert_eq!(auth.interval, Some(5));
    let config = auth.poll_config(1_000);
    assert_eq!(config.interval, 5_000);
    assert_eq!(config.deadline, 301_000);
}

#[test]
fn request_device_authorization_404_reports_unsupported() {
    let err = request_device_authorization(read(&reply(404, "{}"), authorization)).err().expect("404 is an error");
    assert!(matches!(err, DeviceFlowError::Unsupported));
}

#[test]
fn request_device_authorization_surfaces_error_body() {
    let body = r#"{"error":"invalid_client","error_description":"Unknown client_id: nope"}"#;
    let err = request_device_authorization(read(&reply(400, body), authorization)).err().expect("400 is an error");
    let msg = err.message();
    assert!(msg.contains("invalid_client"), "{}", msg);
    assert!(msg.contains("Unknown client_id"), "{}", msg);
}

#[test]
fn authorizations_must_be_complete() {
    assert!(request_device_authorization(read(&reply(200, "{}"), authorization)).is_err());
    assert!(request_device_authorization(read(&Err("refused".to_string()), authorization)).is_err());
}

/// Poll immediately, so that only the replies count.
fn fast_poll() -> PollConfig {
    PollConfig { interval: 0, slow_down_increment: 0, deadline: 30_000 }
}

/// Runs the poll on the given replies; the last one is repeated.
fn poll_for_credential(
    replies: Vec<Reply>,
    config: PollConfig,
) -> Result<DeviceCredential, DeviceFlowError> {
    let mut state = poll_start(&config);
    let mut n = 0;
    loop {
        if let Some(late) = poll_deadline(&config, n as u64) {
            return Err(late);
        }
        let at = n.min(replies.len() - 1);
        match poll_next(&config, &state, poll_once(read(&replies[at], credential))) {
            PollStep::Done(credential) => return Ok(credential),
            PollStep::Failed(e) => return Err(e),
            PollStep::Continue(next) => state = next,
        }
        n += 1;
        assert!(n < 100);
    }
}

fn poll_error(replies: Vec<Reply>) -> String {
    match poll_for_credential(replies, fast_poll()) {
        Ok(_) => panic!("should stop"),
        Err(e) => e.message(),
    }
}

#[test]
fn poll_returns_the_credential_on_first_success() {
    let credential = poll_for_credential(vec![reply(200, GRANTED_BODY)], fast_poll()).ok().unwrap();
    assert_eq!(credential.access_token, "gfr_abc123");
    assert_eq!(credential.project_id.as_deref(), Some("prj_1"));
    assert_eq!(credential.organization_id.as_deref(), Some("org_1"));
}

#[test]
fn poll_keeps_going_while_authorization_is_pending() {
    let replies = vec![
        reply(400, r#"{"error":"authorization_pending"}"#),
        reply(400, r#"{"error":"authorization_pending"}"#),
        reply(200, GRANTED_BODY),
    ];
    let credential = poll_for_credential(replies, fast_poll()).ok().expect("should grant");
    assert_eq!(credential.access_token, "gfr_abc123");
}

#[test]
fn poll_backs_off_on_slow_down_and_still_succeeds() {
    let mut config = fast_poll();
    config.slow_down_increment = 1;
    let slow = poll_once(read(&reply(400, r#"{"error":"slow_down"}"#), credential));
    match poll_next(&config, &poll_start(&config), slow) {
        PollStep::Continue(state) => assert_eq!(state.interval, 1),
        _ => panic!("should go on"),
    }
    let replies = vec![reply(400, r#"{"error":"slow_down"}"#), reply(200, GRANTED_BODY)];
    let credential = poll_for_credential(replies, config).ok().expect("should grant");
    assert_eq!(credential.access_token, "gfr_abc123");
}

#[test]
fn poll_stops_on_expired_token() {
    let msg = poll_error(vec![reply(400, r#"{"error":"expired_token"}"#)]);
    assert!(msg.contains("expired"), "{}", msg);
}

#[test]
fn poll_stops_on_access_denied() {
    let msg = poll_error(vec![reply(400, r#"{"error":"access_denied"}"#)]);
    assert!(msg.contains("denied"), "{}", msg);
}

#[test]
fn poll_stops_on_invalid_grant_from_a_replayed_device_code() {
    let body = r#"{"error":"invalid_grant","error_description":"Unknown device code"}"#;
    let msg = poll_error(vec![reply(400, body)]);
    assert!(msg.contains("invalid_grant"), "{}", msg);
}

#[test]
fn poll_gives_up_after_consecutive_transport_failures() {
    let msg = poll_error(vec![Err("connection refused".to_string())]);
    assert!(msg.contains("consecutive failures"), "{}", msg);
}

#[test]
fn polls_end_at_the_deadline() {
    assert!(poll_deadline(&fast_poll(), 29_999).is_none());
    assert!(poll_deadline(&fast_poll(), 30_000).is_some());
    assert!(matches!(
        poll_for_credential(
            vec![reply(400, r#"{"error":"authorization_pending"}"#)],
            PollConfig { interval: 0, slow_down_increment: 0, deadline: 7 },
        ),
        Err(DeviceFlowError::Failed(_))
    ));
}

#[test]
fn try_exchange_returns_none_without_env() {
    assert!(try_exchange(&None, &None, &None).is_none());
}

#[test]
fn try_exchange_returns_none_with_only_one_var_set() {
    let url = some("http://example.invalid/token");
    assert!(try_exchange(&url, &None, &None).is_none());
    assert!(try_exchange(&url, &some(""), &None).is_none());
}

#[test]
fn try_exchange_happy_path() {
    let plan = try_exchange(&some("http://h/token"), &some("runner-bearer"), &some("http://h/"))
        .expect("OIDC env vars were set");
    assert_eq!(plan.request_url, "http://h/token");
    assert_eq!(plan.bearer, "runner-bearer");
    assert_eq!(plan.origin, "http://h");
    let id_token = fetch_id_token(read(&reply(200, r#"{"value":"fake.jwt"}"#), identity)).ok().unwrap();
    assert_eq!(id_token, "fake.jwt");
    let answer = reply(
        200,
        r#"{"access_token":"gfr_abc123","token_type":"Bearer","expires_in":3600,"scope":"upload","project_id":"p1","organization_id":"o1","claimed":false,"claim_url":"https://app.gaffer.sh/claim/xyz"}"#,
    );
    let exchanged =
        exchange_attempt(read(&answer, token)).ok().expect("exchange should succeed");
    assert_eq!(exchanged.access_token, "gfr_abc123");
    assert!(!exchanged.claimed);
    assert_eq!(exchanged.claim_url.as_deref(), Some("https://app.gaffer.sh/claim/xyz"));
    let lines = auth_success_lines(&exchanged, &some("org/repo"));
    assert_eq!(lines.len(), 2);
    assert!(lines[0].contains("org/repo"));
    assert!(lines[1].contains("https://app.gaffer.sh/claim/xyz"));
}

#[test]
fn fetch_id_token_http_error() {
    let err = fetch_id_token(read(&reply(403, "{}"), identity)).expect_err_message();
    assert!(err.contains("HTTP 403"));
    assert!(matches!(fetch_id_token(read(&reply(403, "{}"), identity)), Err(OidcError::IdTokenFetch(_))));
    assert!(fetch_id_token(read(&reply(200, "{}"), identity)).is_err());
    assert!(fetch_id_token(read(&Err("refused".to_string()), identity)).is_err());
}

trait ErrorMessage {
    fn expect_err_message(self) -> String;
}

impl<T> ErrorMessage for Result<T, OidcError> {
    fn expect_err_message(self) -> String {
        match self {
            Ok(_) => panic!("should be an error"),
            Err(e) => e.message(),
        }
    }
}

/// Runs the exchange on the given replies, and says how many were used.
fn exchange_for_project_token(replies: Vec<Reply>) -> (Result<ExchangedToken, OidcError>, usize) {
    let mut attempt = 0;
    for (n, r) in replies.iter().enumerate() {
        match exchange_next(attempt, exchange_attempt(read(r, token))) {
            ExchangeStep::Done(token) => return (Ok(token), n + 1),
            ExchangeStep::Repeat { delay_ms } => {
                assert_eq!(delay_ms, 300);
                attempt += 1;
            }
            ExchangeStep::Failed(e) => return (Err(e), n + 1),
        }
    }
    panic!("more attempts than replies");
}

const EXCHANGED: &str = r#"{"access_token":"gfr_xyz","token_type":"Bearer","expires_in":3600,"scope":"upload","project_id":"p1","organization_id":"o1","claimed":true}"#;

#[test]
fn exchange_for_project_token_http_error_surfaces_body() {
    let body = r#"{"error":"invalid_grant","error_description":"subject_token is expired"}"#;
    let (result, _) = exchange_for_project_token(vec![reply(400, body)]);
    assert!(matches!(result, Err(OidcError::Exchange(_))));
    let msg = result.expect_err_message();
    assert!(msg.contains("invalid_grant"));
    assert!(msg.contains("subject_token is expired"));
}

#[test]
fn exchange_for_project_token_happy_path() {
    let (result, _) = exchange_for_project_token(vec![reply(200, EXCHANGED)]);
    let exchanged = result.ok().expect("exchange should succeed");
    assert_eq!(exchanged.access_token, "gfr_xyz");
    assert!(exchanged.claimed);
    assert_eq!(exchanged.claim_url, None);
}

#[test]
fn exchange_for_project_token_retries_429_then_succeeds() {
    let body = r#"{"access_token":"gfr_after_retry","token_type":"Bearer","expires_in":3600,"scope":"upload","project_id":"p1","organization_id":"o1","claimed":true}"#;
    let (result, used) = exchange_for_project_token(vec![
        reply(429, r#"{"error":"slow_down"}"#),
        reply(200, body),
    ]);
    assert_eq!(result.ok().expect("should succeed after retry").access_token, "gfr_after_retry");
    assert_eq!(used, 2);
}

#[test]
fn exchange_for_project_token_retries_500_then_succeeds() {
    let body = r#"{"access_token":"gfr_after_500","token_type":"Bearer","expires_in":3600,"scope":"upload","project_id":"p1","organization_id":"o1","claimed":true}"#;
    let (result, used) = exchange_for_project_token(vec![
        reply(500, r#"{"error":"server_error","error_description":"transient"}"#),
        reply(200, body),
    ]);
    assert_eq!(result.ok().expect("should succeed after retry").access_token, "gfr_after_500");
    assert_eq!(used, 2);
}

#[test]
fn exchange_for_project_token_gives_up_after_exhausting_retries() {
    let replies: Vec<Reply> =
        (0..=EXCHANGE_MAX_RETRIES).map(|_| reply(500, r#"{"error":"server_error"}"#)).collect();
    let (result, used) = exchange_for_project_token(replies);
    assert!(result.expect_err_message().contains("HTTP 500"));
    assert_eq!(used as u32, EXCHANGE_MAX_RETRIES + 1);
}

#[test]
fn exchange_for_project_token_does_not_retry_terminal_400() {
    let body = r#"{"error":"invalid_grant","error_description":"expired"}"#;
    let (result, used) =
        exchange_for_project_token(vec![reply(400, body), reply(200, EXCHANGED)]);
    assert!(result.expect_err_message().contains("invalid_grant"));
    assert_eq!(used, 1);
}

#[test]
fn transport_failures_of_an_exchange_are_final() {
    let (result, used) =
        exchange_for_project_token(vec![Err("refused".to_string()), reply(200, EXCHANGED)]);
    assert!(result.expect_err_message().contains("refused"));
    assert_eq!(used, 1);
}

#[test]
fn sessions_are_read_and_verified() {
    let session = parse_session(r#"{"code":"abcdef123456","url":"http://h/s"}"#).ok().unwrap();
    assert_eq!(session.url, "http://h/s");
    assert_eq!(verify_code(&session.code), "123456");
    assert!(parse_session("nonsense").is_err());
    assert!(parse_session("{}").is_err());
    assert_eq!(session_token(r#"{"status":"ready","token":"gfr_1"}"#).as_deref(), Some("gfr_1"));
    assert_eq!(session_token(r#"{"status":"pending","token":"gfr_1"}"#), None);
    assert_eq!(url_of("http://h", "/x"), "http://h/x");
    assert_eq!(persistent_api_url("https://app.gaffer.sh"), None);
    assert_eq!(persistent_api_url("http://h").as_deref(), Some("http://h"));
}

#[test]
fn sessions_end_after_repeated_failures() {
    let mut errors = 0;
    let mut steps = 0;
    loop {
        match session_next(errors, SessionEvent::Unreachable("down".to_string())) {
            SessionStep::Continue { errors: next, .. } => errors = next,
            SessionStep::Failed(_) => break,
            SessionStep::Done(_) => panic!("no token came"),
        }
        steps += 1;
        assert!(steps < 50);
    }
    assert_eq!(steps + 1, MAX_CONSECUTIVE_ERRORS);
    let waiting = session_next(3, SessionEvent::Answered { token: None });
    assert!(matches!(waiting, SessionStep::Continue { errors: 0, .. }));
    let done = session_next(0, SessionEvent::Answered { token: some("gfr_1") });
    assert!(matches!(done, SessionStep::Done(t) if t == "gfr_1"));
    assert!(session_timeout(0, "http://h").is_none());
    assert!(session_timeout(SESSION_TIMEOUT_MS + 1, "http://h").is_some());
}

#[test]
fn resolve_token_explicit_flag_wins_over_everything() {
    let configured = configured_token(&some("flag-token"), &some("env-token"), &None, &None);
    assert_eq!(resolve_token(configured, None).ok().as_deref(), Some("flag-token"));
}

#[test]
fn resolve_token_env_var_wins_over_oidc() {
    let configured = configured_token(&None, &some("env-token"), &None, &None);
    assert_eq!(resolve_token(configured, None).ok().as_deref(), Some("env-token"));
}

#[test]
fn resolve_token_missing_everything_hints_at_id_token_permission() {
    let err = resolve_token(configured_token(&None, &None, &None, &None), None).err().unwrap();
    assert_eq!(err.kind(), "missing_token");
    assert!(err.message().contains("id-token: write"));
}

#[test]
fn exchanged_tokens_serve_where_none_is_configured() {
    let token =
        ExchangedToken { access_token: "gfr_x".to_string(), claimed: true, claim_url: None };
    assert_eq!(resolve_token(None, Some(Ok(token))).ok().as_deref(), Some("gfr_x"));
    let failed = Some(Err(OidcError::Exchange("HTTP 500".to_string())));
    let err = resolve_token(None, failed).err().unwrap();
    assert!(err.message().contains("HTTP 500"));
}

#[test]
fn errors_suggest_what_to_do() {
    let user = UploadError::user("missing_token", "x");
    let server = UploadError::server("http", "x").with_status(500);
    assert_ne!(classify_cause(&user), classify_cause(&server));
    assert!(!suggested_fix(&user).is_empty());
    assert_ne!(suggested_fix(&user), suggested_fix(&server));
}

#[test]
fn exit_codes_follow_the_child_unless_old_failures_are_forgiven() {
    let old = vec![FailureClassification::PreExisting, FailureClassification::Flaky];
    let new = vec![FailureClassification::New];
    assert_eq!(final_exit_code(1, &None, &old), 1);
    assert_eq!(final_exit_code(1, &Some(FailOn::New), &old), 0);
    assert_eq!(final_exit_code(1, &Some(FailOn::New), &new), 1);
    assert_eq!(final_exit_code(0, &Some(FailOn::New), &new), 1);
    assert_eq!(final_exit_code(5, &Some(FailOn::New), &new), 5);
    assert_eq!(child_exit_code(Some(9), None), 137);
    assert_eq!(child_exit_code(None, Some(3)), 3);
    assert_eq!(child_exit_code(None, None), 1);
    assert!(is_debug(&some("1")));
    assert!(!is_debug(&None));
}

#[test]
fn failures_are_told_apart() {
    let list = |v: &[&str]| -> Vec<String> { v.iter().map(|s| s.to_string()).collect() };
    let failed = list(&["old", "flaky", "fresh"]);
    let flaky = list(&["flaky"]);
    assert_eq!(
        classify_failures(&failed, &flaky, &Some(list(&["old"]))),
        vec![
            FailureClassification::PreExisting,
            FailureClassification::Flaky,
            FailureClassification::New
        ]
    );
    let unknown = classify_failures(&failed, &flaky, &None);
    assert_eq!(unknown[0], FailureClassification::Unknown);
    assert_eq!(final_exit_code(1, &Some(FailOn::New), &unknown), 1);
}

#[test]
fn reports_are_collected() {
    let collected = collect_reports(vec![
        ReportOutcome::Unusable,
        ReportOutcome::Coverage { content: "c1".to_string(), filename: "lcov".to_string() },
        ReportOutcome::Tests { framework: "vitest".to_string(), tests: vec![] },
    ]);
    assert_eq!(collected.framework, "vitest");
    assert!(collected.tests.is_empty());
    assert_eq!(collected.coverage, Some(("c1".to_string(), "lcov".to_string())));
}

#[test]
fn the_data_directory_is_ignored_once() {
    let first = ensure_gitignore("node_modules\n").unwrap();
    assert!(first.starts_with("node_modules\n"));
    assert!(ensure_gitignore(&first).is_none());
}

#[test]
fn monorepos_are_recognized() {
    let plain = || DirFacts {
        names: vec!["src".to_string(), "package.json".to_string()],
        package_json: None,
        cargo_toml: None,
    };
    assert!(!is_in_monorepo(&vec![plain()]));
    let mut npm = plain();
    npm.package_json = some(r#"{"workspaces":["packages/*"]}"#);
    assert!(is_in_monorepo(&vec![plain(), npm]));
    let mut single = plain();
    single.package_json = some(r#"{"name":"x"}"#);
    assert!(!is_in_monorepo(&vec![single]));
    let mut cargo = plain();
    cargo.cargo_toml = some("[workspace]\nmembers = []\n");
    assert!(is_in_monorepo(&vec![cargo]));
    for marker in ["pnpm-workspace.yaml", "turbo.json", "nx.json", "lerna.json", "go.work"] {
        let mut root = plain();
        root.names.push(marker.to_string());
        assert!(is_in_monorepo(&vec![plain(), root]), "{marker}");
    }
    assert_eq!(markers_of_shared_roots().len(), 5);
}

/// A reply whose body does not hold what was asked for.
fn unreadable<T>(status: u16, reason: &str) -> Result<HttpReply<T>, String> {
    Ok(HttpReply { status, value: Err(reason.to_string()), error: None })
}

#[test]
fn unreadable_bodies_are_refused_with_the_reason() {
    let reason = "json: duplicate field `user_code` at line 1 column 40";
    let err = request_device_authorization(unreadable(200, reason)).err().unwrap();
    assert_eq!(err.message(), format!("invalid device authorization response: {reason}"));
    match poll_once(unreadable(200, "json: expected ident at line 1 column 2")) {
        PollOutcome::Terminal(m) => {
            assert_eq!(m, "invalid token response: json: expected ident at line 1 column 2")
        }
        _ => panic!("expected a refusal"),
    }
    match fetch_id_token(unreadable(200, "json: missing field `value` at line 1 column 2")) {
        Err(OidcError::IdTokenFetch(m)) => {
            assert_eq!(m, "invalid response body: json: missing field `value` at line 1 column 2")
        }
        _ => panic!("expected a refusal"),
    }
    let failure = exchange_attempt(unreadable(200, "json: missing field")).err().unwrap();
    assert_eq!(failure.detail, "invalid response body: json: missing field");
    assert_eq!(failure.status, None);
}

#[test]
fn unreadable_errors_leave_the_status() {
    match poll_once(unreadable(400, "json: duplicate field `error`")) {
        PollOutcome::Transient(m) => assert_eq!(m, "HTTP 400"),
        _ => panic!("expected another try"),
    }
    let failure = exchange_attempt(unreadable(429, "json: duplicate field `error`")).err().unwrap();
    assert_eq!(failure.detail, "HTTP 429");
    assert_eq!(failure.status, Some(429));
    let err = request_device_authorization(unreadable(500, "json: no object")).err().unwrap();
    assert_eq!(err.message(), "HTTP 500");
}
