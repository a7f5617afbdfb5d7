//! Authentication: the device flow, the exchange of a runner's identity, and setup sessions.
//!
//! Requests and waiting happen elsewhere; here stands what to ask for, what answers mean and what
//! to do next.
use vstd::prelude::*;

use crate::git::nonempty;
use crate::json::{field_at, json_field, text_in, text_of_field, JsonField};
use crate::text::{
    chars_of, concat2, concat3, decimal, decimal_of, opt_text, same, slice_of, text_of,
    trim_end_by, trim_end_of,
};
use crate::upload::DEFAULT_API_URL;

verus! {

/// The scope that a login asks for unless told otherwise.
pub const UPLOAD_SCOPE: &'static str = "upload";

/// The wait between two polls unless the server asks for another, in milliseconds.
pub const DEFAULT_INTERVAL_MS: u64 = 5_000;

/// By how much a poll slows down when the server asks for it, in milliseconds.
pub const SLOW_DOWN_INCREMENT_MS: u64 = 5_000;

/// How long a login may take unless the server says otherwise, in milliseconds.
pub const DEFAULT_LIFETIME_MS: u64 = 300_000;

/// How many failures in a row end a login.
pub const MAX_CONSECUTIVE_ERRORS: u32 = 5;

/// How often an exchange is repeated.
pub const EXCHANGE_MAX_RETRIES: u32 = 2;

/// The wait before an exchange is repeated, in milliseconds.
pub const EXCHANGE_RETRY_BACKOFF_MS: u64 = 300;

/// A server's answer to a request for a `T`, as its body was read.
pub struct HttpReply<T> {
    pub status: u16,
    /// What was asked for, or why the body does not hold it. It counts where the request succeeded.
    pub value: Result<T, String>,
    /// The error that the body describes. It counts where the request was refused.
    pub error: Option<OAuthError>,
}

/// Whether a status says that a request succeeded.
pub open spec fn is_ok_status(status: u16) -> bool {
    200 <= status < 300
}

/// `HTTP` and the status.
pub open spec fn http_status(status: u16) -> Seq<char> {
    "HTTP "@ + decimal(status as nat)
}

fn http_status_text(status: u16) -> (r: String)
    ensures
        r@ == http_status(status),
{
    concat2("HTTP ", decimal_of(status as u64).as_str())
}

/// An address below `origin`.
pub open spec fn address(origin: Seq<char>, path: Seq<char>) -> Seq<char> {
    trim_end_by(origin, |c: char| c == '/') + path
}

/// An address below `origin`, whether or not `origin` ends in slashes.
pub fn url_of(origin: &str, path: &str) -> (r: String)
    ensures
        r@ == address(origin@, path@),
{
    concat2(text_of(&trim_end_of(&chars_of(origin), '/')).as_str(), path)
}

// ---------------------------------------------------------------------------------------------
// Errors of the authorization server
// ---------------------------------------------------------------------------------------------
/// An error as the authorization server describes it.
pub struct OAuthError {
    pub error: String,
    pub description: Option<String>,
}

/// An error for display.
pub open spec fn described(e: OAuthError) -> Seq<char> {
    match e.description {
        Some(d) => e.error@ + " ("@ + d@ + ")"@,
        None => e.error@,
    }
}

impl OAuthError {
    /// The error for display.
    pub fn describe(&self) -> (r: String)
        ensures
            r@ == described(*self),
    {
        match &self.description {
            Some(d) => {
                let head = concat3(self.error.as_str(), " (", d.as_str());
                concat2(head.as_str(), ")")
            },
            None => self.error.clone(),
        }
    }
}

// ---------------------------------------------------------------------------------------------
// Device flow
// ---------------------------------------------------------------------------------------------
/// The codes of a device flow.
pub struct DeviceAuthorization {
    pub device_code: String,
    pub user_code: String,
    pub verification_uri: String,
    pub verification_uri_complete: Option<String>,
    /// In seconds.
    pub expires_in: Option<u64>,
    /// In seconds.
    pub interval: Option<u64>,
}

/// What a finished device flow yields.
pub struct DeviceCredential {
    pub access_token: String,
    pub scope: Option<String>,
    pub project_id: Option<String>,
    pub organization_id: Option<String>,
}

/// What a `DeviceCredential` says.
pub ghost struct CredentialView {
    pub access_token: Seq<char>,
    pub scope: Option<Seq<char>>,
    pub project_id: Option<Seq<char>>,
    pub organization_id: Option<Seq<char>>,
}

impl DeepView for DeviceCredential {
    type V = CredentialView;

    open spec fn deep_view(&self) -> CredentialView {
        CredentialView {
            access_token: self.access_token@,
            scope: opt_text(self.scope),
            project_id: opt_text(self.project_id),
            organization_id: opt_text(self.organization_id),
        }
    }
}

/// Why a device flow yielded nothing.
pub enum DeviceFlowError {
    /// The server does not know the flow: an older one may still work.
    Unsupported,
    Failed(String),
}

/// What a `DeviceFlowError` says.
pub open spec fn flow_message(e: DeviceFlowError) -> Seq<char> {
    match e {
        DeviceFlowError::Unsupported =>
            "this Gaffer deployment does not support the device authorization flow"@,
        DeviceFlowError::Failed(m) => m@,
    }
}

impl DeviceFlowError {
    /// What the error tells the user.
    pub fn message(&self) -> (r: String)
        ensures
            r@ == flow_message(*self),
    {
        match self {
            DeviceFlowError::Unsupported =>
                "this Gaffer deployment does not support the device authorization flow".to_owned(),
            DeviceFlowError::Failed(m) => m.clone(),
        }
    }
}

/// How to poll, in milliseconds.
#[derive(Clone, Copy, PartialEq, Eq, Structural, Debug)]
pub struct PollConfig {
    pub interval: u64,
    pub slow_down_increment: u64,
    /// The time at which polling ends.
    pub deadline: u64,
}

/// `seconds` in milliseconds, as far as they fit.
pub open spec fn ms_of(seconds: u64) -> u64 {
    if seconds * 1000 > u64::MAX {
        u64::MAX
    } else {
        (seconds * 1000) as u64
    }
}

fn to_ms(seconds: u64) -> (r: u64)
    ensures
        r == ms_of(seconds),
{
    let ms: u128 = (seconds as u128) * 1000;
    if ms > u64::MAX as u128 {
        u64::MAX
    } else {
        ms as u64
    }
}

impl DeviceAuthorization {
    /// Where to send the user: the address that already holds the code, where there is one.
    pub fn browser_url(&self) -> (r: &str)
        ensures
            r@ == match self.verification_uri_complete {
                Some(url) => url@,
                None => self.verification_uri@,
            },
    {
        match &self.verification_uri_complete {
            Some(url) => url.as_str(),
            None => self.verification_uri.as_str(),
        }
    }

    /// How to poll, starting at the time `now`.
    pub fn poll_config(&self, now: u64) -> (r: PollConfig)
        ensures
            r.interval == match self.interval {
                Some(s) => ms_of(s),
                None => 5_000,
            },
            r.slow_down_increment == 5_000,
            ({
                let life = match self.expires_in {
                    Some(s) => ms_of(s),
                    None => 300_000,
                };
                r.deadline == if now + life > u64::MAX {
                    u64::MAX as int
                } else {
                    now + life
                }
            }),
    {
        let interval: u64 = match self.interval {
            Some(s) => to_ms(s),
            None => DEFAULT_INTERVAL_MS,
        };
        let life: u64 = match self.expires_in {
            Some(s) => to_ms(s),
            None => DEFAULT_LIFETIME_MS,
        };
        PollConfig {
            interval,
            slow_down_increment: SLOW_DOWN_INCREMENT_MS,
            deadline: now.saturating_add(life),
        }
    }
}

/// Why codes were not granted, when the server knows the flow and answered.
pub open spec fn authorization_failure(h: HttpReply<DeviceAuthorization>) -> Seq<char> {
    if is_ok_status(h.status) {
        "invalid device authorization response: "@ + h.value->Err_0@
    } else {
        match h.error {
            Some(e) => http_status(h.status) + " ("@ + described(e) + ")"@,
            None => http_status(h.status),
        }
    }
}

/// What the reply to the request for codes means: the codes, or the error. Without a reply, the
/// connection failed for the given reason.
pub fn request_device_authorization(reply: Result<HttpReply<DeviceAuthorization>, String>) -> (r:
    Result<DeviceAuthorization, DeviceFlowError>)
    ensures
        match reply {
            Err(reason) => r is Err && r->Err_0 is Failed && flow_message(r->Err_0) == reason@,
            Ok(h) => {
                &&& r is Ok <==> is_ok_status(h.status) && h.value is Ok
                &&& match r {
                    Ok(a) => Ok::<DeviceAuthorization, String>(a) == h.value,
                    Err(e) => {
                        &&& e is Unsupported <==> h.status == 404
                        &&& h.status != 404 ==> flow_message(e) == authorization_failure(h)
                    },
                }
            },
        },
{
    let h = match reply {
        Ok(h) => h,
        Err(reason) => {
            return Err(DeviceFlowError::Failed(reason));
        },
    };
    if h.status == 404 {
        return Err(DeviceFlowError::Unsupported);
    }
    if !(200 <= h.status && h.status < 300) {
        let text = http_status_text(h.status);
        let detail = match &h.error {
            Some(e) => {
                let head = concat3(text.as_str(), " (", e.describe().as_str());
                concat2(head.as_str(), ")")
            },
            None => text,
        };
        return Err(DeviceFlowError::Failed(detail));
    }
    match h.value {
        Ok(a) => Ok(a),
        Err(reason) => Err(
            DeviceFlowError::Failed(
                concat2("invalid device authorization response: ", reason.as_str()),
            ),
        ),
    }
}

/// What one poll came to.
pub enum PollOutcome {
    Granted(DeviceCredential),
    Pending,
    SlowDown,
    Terminal(String),
    Transient(String),
}

/// What a `PollOutcome` says.
pub ghost enum PollView {
    Granted(CredentialView),
    Pending,
    SlowDown,
    Terminal(Seq<char>),
    Transient(Seq<char>),
}

impl DeepView for PollOutcome {
    type V = PollView;

    open spec fn deep_view(&self) -> PollView {
        match self {
            PollOutcome::Granted(c) => PollView::Granted(c.deep_view()),
            PollOutcome::Pending => PollView::Pending,
            PollOutcome::SlowDown => PollView::SlowDown,
            PollOutcome::Terminal(m) => PollView::Terminal(m@),
            PollOutcome::Transient(m) => PollView::Transient(m@),
        }
    }
}

/// What the reply to a poll means.
pub open spec fn judged_poll(h: HttpReply<DeviceCredential>) -> PollView {
    if is_ok_status(h.status) {
        match h.value {
            Ok(c) => PollView::Granted(c.deep_view()),
            Err(reason) => PollView::Terminal("invalid token response: "@ + reason@),
        }
    } else {
        match h.error {
            None => PollView::Transient(http_status(h.status)),
            Some(e) => if e.error@ == "authorization_pending"@ {
                PollView::Pending
            } else if e.error@ == "slow_down"@ {
                PollView::SlowDown
            } else if e.error@ == "expired_token"@ {
                PollView::Terminal("the login request expired before it was approved"@)
            } else if e.error@ == "access_denied"@ {
                PollView::Terminal("the login was denied in the browser"@)
            } else if h.status >= 500 {
                PollView::Transient(described(e))
            } else {
                PollView::Terminal(described(e))
            },
        }
    }
}

/// What one poll came to. Without a reply, the connection failed for the given reason.
pub fn poll_once(reply: Result<HttpReply<DeviceCredential>, String>) -> (r: PollOutcome)
    ensures
        match reply {
            Err(reason) => r.deep_view() == PollView::Transient(reason@),
            Ok(h) => r.deep_view() == judged_poll(h),
        },
{
    let h = match reply {
        Ok(h) => h,
        Err(reason) => {
            return PollOutcome::Transient(reason);
        },
    };
    if 200 <= h.status && h.status < 300 {
        return match h.value {
            Ok(c) => PollOutcome::Granted(c),
            Err(reason) => PollOutcome::Terminal(
                concat2("invalid token response: ", reason.as_str()),
            ),
        };
    }
    match &h.error {
        None => PollOutcome::Transient(http_status_text(h.status)),
        Some(e) => {
            let name = e.error.as_str();
            if same(name, "authorization_pending") {
                PollOutcome::Pending
            } else if same(name, "slow_down") {
                PollOutcome::SlowDown
            } else if same(name, "expired_token") {
                PollOutcome::Terminal(
                    "the login request expired before it was approved".to_owned(),
                )
            } else if same(name, "access_denied") {
                PollOutcome::Terminal("the login was denied in the browser".to_owned())
            } else if h.status >= 500 {
                PollOutcome::Transient(e.describe())
            } else {
                PollOutcome::Terminal(e.describe())
            }
        },
    }
}

/// Where a poll stands.
#[derive(Clone, Copy, PartialEq, Eq, Structural, Debug)]
pub struct PollState {
    /// The wait before the next poll, in milliseconds.
    pub interval: u64,
    pub consecutive_errors: u32,
}

/// What follows a poll.
pub enum PollStep {
    Done(DeviceCredential),
    Continue(PollState),
    Failed(DeviceFlowError),
}

/// Whether the time for a login is over.
pub fn poll_deadline(config: &PollConfig, now: u64) -> (r: Option<DeviceFlowError>)
    ensures
        r is Some <==> now >= config.deadline,
        match r {
            Some(e) => e is Failed && flow_message(e)
                == "timed out waiting for the login to be approved"@,
            None => true,
        },
{
    if now >= config.deadline {
        Some(
            DeviceFlowError::Failed("timed out waiting for the login to be approved".to_owned()),
        )
    } else {
        None
    }
}

/// The state before the first poll.
pub fn poll_start(config: &PollConfig) -> (r: PollState)
    ensures
        r.interval == config.interval,
        r.consecutive_errors == 0,
{
    PollState { interval: config.interval, consecutive_errors: 0 }
}

/// What follows a poll: an answer resets the count of failures, a request to slow down lengthens
/// the wait, and `MAX_CONSECUTIVE_ERRORS` failures in a row end the login.
pub fn poll_next(config: &PollConfig, state: &PollState, outcome: PollOutcome) -> (r: PollStep)
    requires
        state.consecutive_errors < MAX_CONSECUTIVE_ERRORS,
    ensures
        match outcome {
            PollOutcome::Granted(c) => r == PollStep::Done(c),
            PollOutcome::Pending => r == PollStep::Continue(
                PollState { interval: state.interval, consecutive_errors: 0 },
            ),
            PollOutcome::SlowDown => r is Continue && r->Continue_0.consecutive_errors == 0
                && r->Continue_0.interval == (if state.interval + config.slow_down_increment
                > u64::MAX {
                u64::MAX as int
            } else {
                state.interval + config.slow_down_increment
            }),
            PollOutcome::Terminal(m) => r == PollStep::Failed(DeviceFlowError::Failed(m)),
            PollOutcome::Transient(m) => if state.consecutive_errors + 1
                >= MAX_CONSECUTIVE_ERRORS {
                r is Failed && r->Failed_0 is Failed && flow_message(r->Failed_0)
                    == "gave up after "@ + decimal((state.consecutive_errors + 1) as nat)
                    + " consecutive failures: "@ + m@
            } else {
                r == PollStep::Continue(
                    PollState {
                        interval: state.interval,
                        consecutive_errors: (state.consecutive_errors + 1) as u32,
                    },
                )
            },
        },
        match r {
            PollStep::Continue(next) => next.consecutive_errors < MAX_CONSECUTIVE_ERRORS
                && errors_after(state.consecutive_errors as nat, outcome.deep_view()) == Some(
                next.consecutive_errors as nat,
            ),
            _ => errors_after(state.consecutive_errors as nat, outcome.deep_view()) is None,
        },
{
    match outcome {
        PollOutcome::Granted(c) => PollStep::Done(c),
        PollOutcome::Pending => PollStep::Continue(
            PollState { interval: state.interval, consecutive_errors: 0 },
        ),
        PollOutcome::SlowDown => PollStep::Continue(
            PollState {
                interval: state.interval.saturating_add(config.slow_down_increment),
                consecutive_errors: 0,
            },
        ),
        PollOutcome::Terminal(m) => PollStep::Failed(DeviceFlowError::Failed(m)),
        PollOutcome::Transient(m) => {
            let errors: u32 = state.consecutive_errors + 1;
            if errors >= MAX_CONSECUTIVE_ERRORS {
                let head = concat3(
                    "gave up after ",
                    decimal_of(errors as u64).as_str(),
                    " consecutive failures: ",
                );
                PollStep::Failed(
                    DeviceFlowError::Failed(concat2(head.as_str(), m.as_str())),
                )
            } else {
                PollStep::Continue(
                    PollState { interval: state.interval, consecutive_errors: errors },
                )
            }
        },
    }
}

/// The count of failures after one more poll; `None` where the login is over.
pub open spec fn errors_after(errors: nat, outcome: PollView) -> Option<nat> {
    match outcome {
        PollView::Granted(_) => None,
        PollView::Terminal(_) => None,
        PollView::Pending => Some(0),
        PollView::SlowDown => Some(0),
        PollView::Transient(_) => if errors + 1 >= MAX_CONSECUTIVE_ERRORS {
            None
        } else {
            Some(errors + 1)
        },
    }
}

/// The count of failures after the given polls; `None` where the login is over by then.
pub open spec fn errors_after_all(errors: nat, outcomes: Seq<PollView>) -> Option<nat>
    decreases outcomes.len(),
{
    if outcomes.len() == 0 {
        Some(errors)
    } else {
        match errors_after(errors, outcomes[0]) {
            Some(e) => errors_after_all(e, outcomes.drop_first()),
            None => None,
        }
    }
}

/// A login does not go on forever against a broken connection: `MAX_CONSECUTIVE_ERRORS` failures
/// in a row end it.
pub proof fn failing_polls_end(errors: nat, outcomes: Seq<PollView>)
    requires
        errors < MAX_CONSECUTIVE_ERRORS,
        errors + outcomes.len() >= MAX_CONSECUTIVE_ERRORS,
        forall|k: int| 0 <= k < outcomes.len() ==> #[trigger] outcomes[k] is Transient,
    ensures
        errors_after_all(errors, outcomes) is None,
    decreases outcomes.len(),
{
    assert(outcomes[0] is Transient);
    if errors + 1 < MAX_CONSECUTIVE_ERRORS {
        assert forall|k: int| 0 <= k < outcomes.drop_first().len() implies #[trigger] outcomes.drop_first()[k]
            is Transient by {
            assert(outcomes[k + 1] is Transient);
        }
        failing_polls_end(errors + 1, outcomes.drop_first());
    }
}

/// Waiting for the user costs nothing: as long as the server says that approval is pending, the
/// login goes on with a clean count.
pub proof fn pending_polls_go_on(errors: nat, outcomes: Seq<PollView>)
    requires
        outcomes.len() > 0,
        forall|k: int|
            0 <= k < outcomes.len() ==> #[trigger] outcomes[k] is Pending || outcomes[k] is SlowDown,
    ensures
        errors_after_all(errors, outcomes) == Some(0nat),
    decreases outcomes.len(),
{
    assert(outcomes[0] is Pending || outcomes[0] is SlowDown);
    let rest = outcomes.drop_first();
    if rest.len() > 0 {
        assert forall|k: int| 0 <= k < rest.len() implies #[trigger] rest[k] is Pending || rest[k]
            is SlowDown by {
            assert(outcomes[k + 1] is Pending || outcomes[k + 1] is SlowDown);
        }
        pending_polls_go_on(0, rest);
    }
}

// ---------------------------------------------------------------------------------------------
// Exchange of a runner's identity
// ---------------------------------------------------------------------------------------------
/// A project token that a runner's identity was exchanged for.
pub struct ExchangedToken {
    pub access_token: String,
    /// Whether somebody owns the organization that the token belongs to.
    pub claimed: bool,
    pub claim_url: Option<String>,
}

/// Why an exchange that was begun failed.
pub enum OidcError {
    IdTokenFetch(String),
    Exchange(String),
}

/// What an `OidcError` says.
pub open spec fn oidc_message(e: OidcError) -> Seq<char> {
    match e {
        OidcError::IdTokenFetch(m) =>
            "failed to fetch the GitHub Actions runner ID token: "@ + m@,
        OidcError::Exchange(m) =>
            "failed to exchange the OIDC token for a Gaffer project token: "@ + m@,
    }
}

impl OidcError {
    /// What the error tells the user.
    pub fn message(&self) -> (r: String)
        ensures
            r@ == oidc_message(*self),
    {
        match self {
            OidcError::IdTokenFetch(m) => concat2(
                "failed to fetch the GitHub Actions runner ID token: ",
                m.as_str(),
            ),
            OidcError::Exchange(m) => concat2(
                "failed to exchange the OIDC token for a Gaffer project token: ",
                m.as_str(),
            ),
        }
    }
}

/// What an exchange needs.
pub struct ExchangePlan {
    /// Where the runner hands out its identity.
    pub request_url: String,
    pub bearer: String,
    /// The audience of the identity and the server of the exchange, without trailing slashes.
    pub origin: String,
}

/// The server that is meant, without trailing slashes.
pub open spec fn origin_of(api_url: Option<String>) -> Seq<char> {
    trim_end_by(
        match api_url {
            Some(url) => url@,
            None => DEFAULT_API_URL@,
        },
        |c: char| c == '/',
    )
}

/// What an exchange needs, given where the runner hands out its identity and with which bearer.
/// `None` where the runner hands out none: then there is nothing to exchange.
pub fn try_exchange(
    request_url: &Option<String>,
    request_token: &Option<String>,
    api_url: &Option<String>,
) -> (r: Option<ExchangePlan>)
    ensures
        r is Some <==> nonempty(*request_url) is Some && nonempty(*request_token) is Some,
        match r {
            Some(plan) => {
                &&& Some(plan.request_url@) == nonempty(*request_url)
                &&& Some(plan.bearer@) == nonempty(*request_token)
                &&& plan.origin@ == origin_of(*api_url)
            },
            None => true,
        },
{
    match (request_url, request_token) {
        (Some(url), Some(token)) => {
            if url.as_str().is_empty() || token.as_str().is_empty() {
                return None;
            }
            let base = match api_url {
                Some(u) => u.as_str(),
                None => DEFAULT_API_URL,
            };
            Some(
                ExchangePlan {
                    request_url: url.clone(),
                    bearer: token.clone(),
                    origin: text_of(&trim_end_of(&chars_of(base), '/')),
                },
            )
        },
        _ => None,
    }
}

/// The runner's identity, from the reply to the request for it. Without a reply, the connection
/// failed for the given reason.
pub fn fetch_id_token(reply: Result<HttpReply<String>, String>) -> (r: Result<String, OidcError>)
    ensures
        match reply {
            Err(reason) => r is Err && r->Err_0 is IdTokenFetch && r->Err_0->IdTokenFetch_0@
                == reason@,
            Ok(h) => {
                &&& r is Ok <==> is_ok_status(h.status) && h.value is Ok
                &&& match r {
                    Ok(v) => v@ == h.value->Ok_0@,
                    Err(e) => e is IdTokenFetch && e->IdTokenFetch_0@ == (if is_ok_status(
                        h.status,
                    ) {
                        "invalid response body: "@ + h.value->Err_0@
                    } else {
                        http_status(h.status)
                    }),
                }
            },
        },
{
    let h = match reply {
        Ok(h) => h,
        Err(reason) => {
            return Err(OidcError::IdTokenFetch(reason));
        },
    };
    if !(200 <= h.status && h.status < 300) {
        return Err(OidcError::IdTokenFetch(http_status_text(h.status)));
    }
    match h.value {
        Ok(v) => Ok(v),
        Err(reason) => Err(
            OidcError::IdTokenFetch(concat2("invalid response body: ", reason.as_str())),
        ),
    }
}

/// Why one attempt at an exchange failed: with a status where the server refused it.
pub struct ExchangeFailure {
    pub status: Option<u16>,
    pub detail: String,
}

/// What the server said when it refused an exchange.
pub open spec fn refusal(status: u16, error: Option<OAuthError>) -> Seq<char> {
    match error {
        Some(e) => match e.description {
            Some(d) => http_status(status) + " ("@ + e.error@ + ": "@ + d@ + ")"@,
            None => http_status(status) + " ("@ + e.error@ + ")"@,
        },
        None => http_status(status),
    }
}

fn refusal_text(status: u16, error: &Option<OAuthError>) -> (r: String)
    ensures
        r@ == refusal(status, *error),
{
    let text = http_status_text(status);
    match error {
        Some(e) => {
            let head = concat3(text.as_str(), " (", e.error.as_str());
            match &e.description {
                Some(d) => {
                    let more = concat3(head.as_str(), ": ", d.as_str());
                    concat2(more.as_str(), ")")
                },
                None => concat2(head.as_str(), ")"),
            }
        },
        None => text,
    }
}

/// What one attempt at an exchange came to. Without a reply, the connection failed for the given
/// reason.
pub fn exchange_attempt(reply: Result<HttpReply<ExchangedToken>, String>) -> (r: Result<
    ExchangedToken,
    ExchangeFailure,
>)
    ensures
        match reply {
            Err(reason) => r is Err && r->Err_0.status is None && r->Err_0.detail@ == reason@,
            Ok(h) => {
                &&& r is Ok <==> is_ok_status(h.status) && h.value is Ok
                &&& match r {
                    Ok(t) => Ok::<ExchangedToken, String>(t) == h.value,
                    Err(f) => if is_ok_status(h.status) {
                        f.status is None && f.detail@ == "invalid response body: "@
                            + h.value->Err_0@
                    } else {
                        f.status == Some(h.status) && f.detail@ == refusal(h.status, h.error)
                    },
                }
            },
        },
{
    let h = match reply {
        Ok(h) => h,
        Err(reason) => {
            return Err(ExchangeFailure { status: None, detail: reason });
        },
    };
    if !(200 <= h.status && h.status < 300) {
        let detail = refusal_text(h.status, &h.error);
        return Err(ExchangeFailure { status: Some(h.status), detail });
    }
    match h.value {
        Ok(t) => Ok(t),
        Err(reason) => Err(
            ExchangeFailure {
                status: None,
                detail: concat2("invalid response body: ", reason.as_str()),
            },
        ),
    }
}

/// Whether a refused exchange is worth repeating.
pub open spec fn is_retryable(status: u16) -> bool {
    status == 429 || status == 500
}

/// Whether a refused exchange is worth repeating: the server was busy, or had a fault of its own.
pub fn is_retryable_exchange_status(status: u16) -> (r: bool)
    ensures
        r == is_retryable(status),
{
    status == 429 || status == 500
}

/// What follows an attempt at an exchange.
pub enum ExchangeStep {
    Done(ExchangedToken),
    /// Try again after so many milliseconds.
    Repeat { delay_ms: u64 },
    Failed(OidcError),
}

/// What follows attempt number `attempt`, counted from zero.
pub fn exchange_next(attempt: u32, result: Result<ExchangedToken, ExchangeFailure>) -> (r:
    ExchangeStep)
    ensures
        match result {
            Ok(t) => r == ExchangeStep::Done(t),
            Err(f) => if f.status is Some && is_retryable(f.status->0) && attempt < 2 {
                r == (ExchangeStep::Repeat { delay_ms: 300 })
            } else {
                r == ExchangeStep::Failed(OidcError::Exchange(f.detail))
            },
        },
        attempt >= EXCHANGE_MAX_RETRIES ==> !(r is Repeat),
{
    match result {
        Ok(t) => ExchangeStep::Done(t),
        Err(f) => {
            if let Some(status) = f.status {
                if is_retryable_exchange_status(status) && attempt < EXCHANGE_MAX_RETRIES {
                    return ExchangeStep::Repeat { delay_ms: EXCHANGE_RETRY_BACKOFF_MS };
                }
            }
            ExchangeStep::Failed(OidcError::Exchange(f.detail))
        },
    }
}

/// What is printed after a successful exchange: for which repository, and where an organization
/// without owner can be claimed.
pub fn auth_success_lines(token: &ExchangedToken, repository: &Option<String>) -> (r: Vec<String>)
    ensures
        r@.len() == (if !token.claimed && token.claim_url is Some {
            2int
        } else {
            1int
        }),
        r@[0]@ == "gaffer: authenticated via GitHub Actions OIDC for "@ + match nonempty(
            *repository,
        ) {
            Some(repo) => repo,
            None => "this repository"@,
        },
        !token.claimed && token.claim_url is Some ==> r@[1]@
            == "gaffer: this organization hasn't been claimed yet, claim it at "@
            + token.claim_url->0@,
{
    let repo = match repository {
        Some(repo) => if repo.as_str().is_empty() {
            "this repository"
        } else {
            repo.as_str()
        },
        None => "this repository",
    };
    let mut r: Vec<String> = Vec::new();
    r.push(concat2("gaffer: authenticated via GitHub Actions OIDC for ", repo));
    if !token.claimed {
        if let Some(url) = &token.claim_url {
            r.push(
                concat2(
                    "gaffer: this organization hasn't been claimed yet, claim it at ",
                    url.as_str(),
                ),
            );
        }
    }
    r
}

// ---------------------------------------------------------------------------------------------
// Setup sessions
// ---------------------------------------------------------------------------------------------
/// How long a setup session may take, in milliseconds.
pub const SESSION_TIMEOUT_MS: u64 = 300_000;

/// The wait between two polls of a setup session, in milliseconds.
pub const SESSION_POLL_INTERVAL_MS: u64 = 2_000;

/// A setup session.
pub struct SetupSession {
    pub code: String,
    pub url: String,
}

/// A setup session, given the members of the server's answer.
pub fn judge_session(is_json: bool, code: Option<String>, url: Option<String>) -> (r: Result<
    SetupSession,
    String,
>)
    ensures
        r is Ok <==> is_json && code is Some && url is Some,
        match r {
            Ok(s) => Some(s.code) == code && Some(s.url) == url,
            Err(e) => e@ == (if !is_json {
                "Invalid session response"@
            } else if code is None {
                "Missing session code"@
            } else {
                "Missing session URL"@
            }),
        },
{
    if !is_json {
        return Err("Invalid session response".to_owned());
    }
    match (code, url) {
        (None, _) => Err("Missing session code".to_owned()),
        (Some(_), None) => Err("Missing session URL".to_owned()),
        (Some(code), Some(url)) => Ok(SetupSession { code, url }),
    }
}

/// The text of a member.
pub open spec fn member_text(body: Seq<char>, pointer: Seq<char>) -> Option<Seq<char>> {
    text_in(field_at(body, pointer))
}

/// Opens a setup session from the server's answer.
pub fn parse_session(body: &str) -> (r: Result<SetupSession, String>)
    ensures
        r is Ok <==> !(field_at(body@, ""@) is NotJson) && member_text(body@, "/code"@) is Some
            && member_text(body@, "/url"@) is Some,
        match r {
            Ok(s) => Some(s.code@) == member_text(body@, "/code"@) && Some(s.url@) == member_text(
                body@,
                "/url"@,
            ),
            Err(e) => e@ == (if field_at(body@, ""@) is NotJson {
                "Invalid session response"@
            } else if member_text(body@, "/code"@) is None {
                "Missing session code"@
            } else {
                "Missing session URL"@
            }),
        },
{
    let is_json = match json_field(body, "") {
        JsonField::NotJson => false,
        _ => true,
    };
    judge_session(
        is_json,
        text_of_field(&json_field(body, "/code")),
        text_of_field(&json_field(body, "/url")),
    )
}

/// The part of a session's code that the user compares: its last six characters.
pub open spec fn shown_code(code: Seq<char>) -> Seq<char> {
    if code.len() >= 6 {
        code.skip(code.len() - 6)
    } else {
        code
    }
}

/// The part of a session's code that the user compares.
pub fn verify_code(code: &str) -> (r: String)
    ensures
        r@ == shown_code(code@),
{
    let v = chars_of(code);
    let n: usize = v.len();
    if n >= 6 {
        let tail = slice_of(&v, n - 6, n);
        assert(tail@ =~= code@.skip(code@.len() - 6));
        text_of(&tail)
    } else {
        code.to_owned()
    }
}

/// What one poll of a setup session came to.
pub enum SessionEvent {
    /// The server answered; the token is there once the user has approved.
    Answered { token: Option<String> },
    /// The server refused with this status.
    Refused(u16),
    /// There was no answer.
    Unreachable(String),
}

/// What follows a poll of a setup session.
pub enum SessionStep {
    Done(String),
    /// Poll again, after so many more milliseconds than usual.
    Continue { errors: u32, extra_ms: u64 },
    Failed(String),
}

/// The token that the answer to a poll holds: once it is ready.
pub open spec fn ready_token(body: Seq<char>) -> Option<Seq<char>> {
    if member_text(body, "/status"@) == Some("ready"@) {
        member_text(body, "/token"@)
    } else {
        None
    }
}

/// The token that the answer to a poll holds: once it is ready.
pub fn session_token(body: &str) -> (r: Option<String>)
    ensures
        opt_text(r) == ready_token(body@),
{
    match text_of_field(&json_field(body, "/status")) {
        Some(status) => if same(status.as_str(), "ready") {
            text_of_field(&json_field(body, "/token"))
        } else {
            None
        },
        None => None,
    }
}

/// What follows a poll of a setup session: an answer resets the count of failures, a busy server
/// is given five seconds more, and `MAX_CONSECUTIVE_ERRORS` failures in a row end the session.
pub fn session_next(errors: u32, event: SessionEvent) -> (r: SessionStep)
    requires
        errors < MAX_CONSECUTIVE_ERRORS,
    ensures
        match event {
            SessionEvent::Answered { token } => match token {
                Some(t) => r == SessionStep::Done(t),
                None => r == (SessionStep::Continue { errors: 0, extra_ms: 0 }),
            },
            SessionEvent::Refused(status) => if status == 404 {
                r is Failed && r->Failed_0@
                    == "Session expired or not found. Please re-run `gaffer init`."@
            } else if status == 429 {
                r == (SessionStep::Continue { errors, extra_ms: 5_000 })
            } else if errors + 1 >= MAX_CONSECUTIVE_ERRORS {
                r is Failed && r->Failed_0@ == "Server returned HTTP "@ + decimal(status as nat)
                    + " after "@ + decimal((errors + 1) as nat)
                    + " consecutive failures. Check your network and try again."@
            } else {
                r == (SessionStep::Continue { errors: (errors + 1) as u32, extra_ms: 0 })
            },
            SessionEvent::Unreachable(reason) => if errors + 1 >= MAX_CONSECUTIVE_ERRORS {
                r is Failed && r->Failed_0@ == "Cannot reach Gaffer server after "@ + decimal(
                    (errors + 1) as nat,
                ) + " attempts: "@ + reason@ + ". Check your network and try again."@
            } else {
                r == (SessionStep::Continue { errors: (errors + 1) as u32, extra_ms: 0 })
            },
        },
        r is Continue ==> r->errors < MAX_CONSECUTIVE_ERRORS,
{
    match event {
        SessionEvent::Answered { token } => match token {
            Some(t) => SessionStep::Done(t),
            None => SessionStep::Continue { errors: 0, extra_ms: 0 },
        },
        SessionEvent::Refused(status) => {
            if status == 404 {
                return SessionStep::Failed(
                    "Session expired or not found. Please re-run `gaffer init`.".to_owned(),
                );
            }
            if status == 429 {
                return SessionStep::Continue { errors, extra_ms: 5_000 };
            }
            if errors + 1 >= MAX_CONSECUTIVE_ERRORS {
                let head = concat3(
                    "Server returned HTTP ",
                    decimal_of(status as u64).as_str(),
                    " after ",
                );
                return SessionStep::Failed(
                    concat3(
                        head.as_str(),
                        decimal_of((errors + 1) as u64).as_str(),
                        " consecutive failures. Check your network and try again.",
                    ),
                );
            }
            SessionStep::Continue { errors: errors + 1, extra_ms: 0 }
        },
        SessionEvent::Unreachable(reason) => {
            if errors + 1 >= MAX_CONSECUTIVE_ERRORS {
                let head = concat3(
                    "Cannot reach Gaffer server after ",
                    decimal_of((errors + 1) as u64).as_str(),
                    " attempts: ",
                );
                return SessionStep::Failed(
                    concat3(
                        head.as_str(),
                        reason.as_str(),
                        ". Check your network and try again.",
                    ),
                );
            }
            SessionStep::Continue { errors: errors + 1, extra_ms: 0 }
        },
    }
}

/// Whether the time for a setup session is over.
pub fn session_timeout(elapsed_ms: u64, api_base: &str) -> (r: Option<String>)
    ensures
        r is Some <==> elapsed_ms > 300_000,
        match r {
            Some(m) => m@ == "Authentication timed out. You can copy your token from "@ + api_base@
                + "/settings and set GAFFER_TOKEN."@,
            None => true,
        },
{
    if elapsed_ms > SESSION_TIMEOUT_MS {
        Some(
            concat3(
                "Authentication timed out. You can copy your token from ",
                api_base,
                "/settings and set GAFFER_TOKEN.",
            ),
        )
    } else {
        None
    }
}

/// The address that is worth writing down: any but the one that is used anyway.
pub fn persistent_api_url(api_base: &str) -> (r: Option<String>)
    ensures
        opt_text(r) == (if api_base@ != DEFAULT_API_URL@ {
            Some(api_base@)
        } else {
            None
        }),
{
    if same(api_base, DEFAULT_API_URL) {
        None
    } else {
        Some(api_base.to_owned())
    }
}

} // verus!
