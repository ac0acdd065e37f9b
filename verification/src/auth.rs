//! Authentication decisions: which credentials a sign-in uses, what each token
//! request sends, how a token response becomes a session, when the cached
//! access token is still good and how a refresh updates the session.
//!
//! The HTTP exchanges themselves are made by the host; every decision between
//! them is here.
use vstd::prelude::*;
use crate::error::CoreError;
use crate::text::{chars_of, extend_chars, string_from};

verus! {

/// The tenant used when the caller names none.
pub const DEFAULT_TENANT: &'static str = "common";

/// Public client id of Microsoft's Graph Command Line Tools, used for the
/// interactive device-code flow when the user does not provide their own app.
pub const DEFAULT_PUBLIC_APP_ID: &'static str = "14d82eec-204b-4c2f-b7e8-296a70dab67e";

/// Scope of an app-only (client-credentials) token.
pub const SCOPE_APP: &'static str = "https://graph.microsoft.com/.default";

/// Scope of a delegated (device-code) token, with a refresh token.
pub const SCOPE_DELEGATED: &'static str = "https://graph.microsoft.com/.default offline_access";

/// The earliest instant the clock can report, in nanoseconds since the Unix
/// epoch (the first instant of the year -9999).
pub const MIN_INSTANT_NS: i128 = -377_705_116_800_000_000_000i128;

/// The latest instant the clock can report, in nanoseconds since the Unix
/// epoch (the last instant of the year 9999).
pub const MAX_INSTANT_NS: i128 = 253_402_300_799_999_999_999i128;

/// Nanoseconds in a second.
pub const NS_PER_SEC: i128 = 1_000_000_000i128;

/// The current instant, in nanoseconds since the Unix epoch, read through
/// `time::OffsetDateTime::now_utc` and `unix_timestamp_nanos`. Nothing is
/// claimed of the value but that it lies in the span of years (±9999) that the
/// `time` crate represents by default.
#[verifier::external_body]
fn now_ns() -> (r: i128)
    ensures
        MIN_INSTANT_NS <= r <= MAX_INSTANT_NS,
{
    time::OffsetDateTime::now_utc().unix_timestamp_nanos()
}

/// How a session was signed in.
#[derive(Debug, Clone, Copy, PartialEq, Eq, Structural)]
pub enum AuthMode {
    AppOnly,
    DeviceCode,
}

/// A token endpoint's successful answer.
pub struct TokenResponse {
    pub access_token: String,
    pub refresh_token: Option<String>,
    pub expires_in: i64,
}

/// A token endpoint's error answer.
pub struct TokenError {
    pub error: String,
    pub error_description: Option<String>,
}

/// The view of an optional string.
pub open spec fn ostr(o: Option<String>) -> Option<Seq<char>> {
    match o {
        Some(s) => Some(s@),
        None => None,
    }
}

fn clone_opt(o: &Option<String>) -> (r: Option<String>)
    ensures
        ostr(r) == ostr(*o),
{
    match o {
        Some(s) => Some(s.clone()),
        None => None,
    }
}

/// Active credentials and token cache. Lives only in the backend process.
pub struct Session {
    pub mode: AuthMode,
    pub tenant_id: String,
    pub app_id: String,
    app_secret: Option<String>,
    access_token: String,
    refresh_token: Option<String>,
    /// When the access token stops being used, in nanoseconds since the Unix epoch.
    expires_at: i128,
    pub org_name: Option<String>,
    pub org_id: Option<String>,
}

/// The mathematical value of a [`Session`].
pub struct SessionV {
    pub mode: AuthMode,
    pub tenant_id: Seq<char>,
    pub app_id: Seq<char>,
    pub secret: Option<Seq<char>>,
    pub token: Seq<char>,
    pub refresh: Option<Seq<char>>,
    pub expires_at: int,
    pub org_name: Option<Seq<char>>,
    pub org_id: Option<Seq<char>>,
}

impl View for Session {
    type V = SessionV;

    closed spec fn view(&self) -> SessionV {
        SessionV {
            mode: self.mode,
            tenant_id: self.tenant_id@,
            app_id: self.app_id@,
            secret: ostr(self.app_secret),
            token: self.access_token@,
            refresh: ostr(self.refresh_token),
            expires_at: self.expires_at as int,
            org_name: ostr(self.org_name),
            org_id: ostr(self.org_id),
        }
    }
}

/// How long a token is used: its lifetime, at least a minute, less thirty
/// seconds of margin, in seconds.
pub open spec fn usable_secs(expires_in: i64) -> int {
    (if expires_in < 60 { 60 } else { expires_in as int }) - 30
}

/// The instant a token obtained at `now` stops being used.
pub open spec fn expiry(now: int, expires_in: i64) -> int {
    now + usable_secs(expires_in) * NS_PER_SEC
}

/// Whether that instant is one the clock can represent.
pub open spec fn expiry_in_range(now: int, expires_in: i64) -> bool {
    expiry(now, expires_in) <= MAX_INSTANT_NS
}

fn usable_ns(expires_in: i64) -> (r: i128)
    ensures
        r == usable_secs(expires_in) * NS_PER_SEC,
{
    let secs: i128 = if expires_in < 60 { 60 } else { expires_in as i128 };
    (secs - 30) * NS_PER_SEC
}

/// Public status snapshot safe to send to the UI (no secrets or tokens).
pub struct AuthStatus {
    pub authenticated: bool,
    pub mode: Option<AuthMode>,
    pub tenant_id: Option<String>,
    pub app_id: Option<String>,
    pub org_name: Option<String>,
    pub org_id: Option<String>,
}

impl AuthStatus {
    /// The status when nobody is signed in.
    pub fn signed_out() -> (r: AuthStatus)
        ensures
            !r.authenticated,
            r.mode is None,
            r.tenant_id is None,
            r.app_id is None,
            r.org_name is None,
            r.org_id is None,
    {
        AuthStatus { authenticated: false, mode: None, tenant_id: None, app_id: None, org_name: None, org_id: None }
    }
}

/// Payload returned when a device-code flow starts.
pub struct DeviceCodeStart {
    pub device_code: String,
    pub user_code: String,
    pub verification_uri: String,
    pub expires_in: i64,
    pub interval: i64,
    pub message: String,
    pub tenant_id: String,
    pub app_id: String,
}

/// The token endpoint of a tenant.
pub open spec fn authority_spec(tenant: Seq<char>) -> Seq<char> {
    "https://login.microsoftonline.com/"@ + tenant + "/oauth2/v2.0/token"@
}

/// The token endpoint of a tenant.
pub fn authority(tenant: &str) -> (r: String)
    ensures
        r@ == authority_spec(tenant@),
{
    let mut s = chars_of("https://login.microsoftonline.com/");
    extend_chars(&mut s, &chars_of(tenant));
    extend_chars(&mut s, &chars_of("/oauth2/v2.0/token"));
    string_from(&s)
}

/// The device-authorization endpoint of a tenant.
pub open spec fn device_code_url_spec(tenant: Seq<char>) -> Seq<char> {
    "https://login.microsoftonline.com/"@ + tenant + "/oauth2/v2.0/devicecode"@
}

/// The device-authorization endpoint of a tenant.
pub fn device_code_url(tenant: &str) -> (r: String)
    ensures
        r@ == device_code_url_spec(tenant@),
{
    let mut s = chars_of("https://login.microsoftonline.com/");
    extend_chars(&mut s, &chars_of(tenant));
    extend_chars(&mut s, &chars_of("/oauth2/v2.0/devicecode"));
    string_from(&s)
}

/// A form-encoded POST to make: where, and the fields in order.
pub struct TokenRequest {
    pub url: String,
    pub form: Vec<(String, String)>,
}

/// The view of form fields.
pub open spec fn form_view(f: Seq<(String, String)>) -> Seq<(Seq<char>, Seq<char>)> {
    f.map_values(|p: (String, String)| (p.0@, p.1@))
}

fn field(k: &str, v: &str) -> (r: (String, String))
    ensures
        r.0@ == k@,
        r.1@ == v@,
{
    (k.to_owned(), v.to_owned())
}

/// The client-credentials request of an app.
pub open spec fn client_credentials_form(app_id: Seq<char>, secret: Seq<char>) -> Seq<(Seq<char>, Seq<char>)> {
    seq![
        ("client_id"@, app_id),
        ("scope"@, SCOPE_APP@),
        ("client_secret"@, secret),
        ("grant_type"@, "client_credentials"@),
    ]
}

/// The refresh-token request of a delegated session.
pub open spec fn refresh_form(app_id: Seq<char>, refresh: Seq<char>) -> Seq<(Seq<char>, Seq<char>)> {
    seq![
        ("client_id"@, app_id),
        ("scope"@, SCOPE_DELEGATED@),
        ("refresh_token"@, refresh),
        ("grant_type"@, "refresh_token"@),
    ]
}

/// One poll of the device-code grant.
pub open spec fn device_poll_form(app_id: Seq<char>, device_code: Seq<char>) -> Seq<(Seq<char>, Seq<char>)> {
    seq![
        ("client_id"@, app_id),
        ("grant_type"@, "urn:ietf:params:oauth:grant-type:device_code"@),
        ("device_code"@, device_code),
    ]
}

/// The start of the device-code grant.
pub open spec fn device_start_form(app_id: Seq<char>) -> Seq<(Seq<char>, Seq<char>)> {
    seq![("client_id"@, app_id), ("scope"@, SCOPE_DELEGATED@)]
}

/// The client-credentials token request for an app of a tenant.
pub fn client_credentials_request(tenant: &str, app_id: &str, secret: &str) -> (r: TokenRequest)
    ensures
        r.url@ == authority_spec(tenant@),
        form_view(r.form@) == client_credentials_form(app_id@, secret@),
{
    let mut form: Vec<(String, String)> = Vec::new();
    form.push(field("client_id", app_id));
    form.push(field("scope", SCOPE_APP));
    form.push(field("client_secret", secret));
    form.push(field("grant_type", "client_credentials"));
    assert(form_view(form@) =~= client_credentials_form(app_id@, secret@));
    TokenRequest { url: authority(tenant), form }
}

/// The refresh-token request of a delegated session.
pub fn refresh_request(tenant: &str, app_id: &str, refresh: &str) -> (r: TokenRequest)
    ensures
        r.url@ == authority_spec(tenant@),
        form_view(r.form@) == refresh_form(app_id@, refresh@),
{
    let mut form: Vec<(String, String)> = Vec::new();
    form.push(field("client_id", app_id));
    form.push(field("scope", SCOPE_DELEGATED));
    form.push(field("refresh_token", refresh));
    form.push(field("grant_type", "refresh_token"));
    assert(form_view(form@) =~= refresh_form(app_id@, refresh@));
    TokenRequest { url: authority(tenant), form }
}

/// One poll for a device-code token.
pub fn device_poll_request(tenant: &str, app_id: &str, device_code: &str) -> (r: TokenRequest)
    ensures
        r.url@ == authority_spec(tenant@),
        form_view(r.form@) == device_poll_form(app_id@, device_code@),
{
    let mut form: Vec<(String, String)> = Vec::new();
    form.push(field("client_id", app_id));
    form.push(field("grant_type", "urn:ietf:params:oauth:grant-type:device_code"));
    form.push(field("device_code", device_code));
    assert(form_view(form@) =~= device_poll_form(app_id@, device_code@));
    TokenRequest { url: authority(tenant), form }
}

/// The value, unless it is absent or empty.
pub open spec fn non_empty_or(o: Option<Seq<char>>, default: Seq<char>) -> Seq<char> {
    match o {
        Some(s) => if s.len() > 0 { s } else { default },
        None => default,
    }
}

fn non_empty_or_exec(o: Option<String>, default: &str) -> (r: String)
    ensures
        r@ == non_empty_or(ostr(o), default@),
{
    match o {
        Some(s) => if chars_of(s.as_str()).len() > 0 { s } else { default.to_owned() },
        None => default.to_owned(),
    }
}

/// The start of the device-code grant: the tenant and app it is for (the
/// common tenant and the public app when none is named), and the request.
pub fn device_start_request(tenant_id: Option<String>, app_id: Option<String>) -> (r: (String, String, TokenRequest))
    ensures
        r.0@ == non_empty_or(ostr(tenant_id), DEFAULT_TENANT@),
        r.1@ == non_empty_or(ostr(app_id), DEFAULT_PUBLIC_APP_ID@),
        r.2.url@ == device_code_url_spec(r.0@),
        form_view(r.2.form@) == device_start_form(r.1@),
{
    let tenant = non_empty_or_exec(tenant_id, DEFAULT_TENANT);
    let app = non_empty_or_exec(app_id, DEFAULT_PUBLIC_APP_ID);
    let mut form: Vec<(String, String)> = Vec::new();
    form.push(field("client_id", app.as_str()));
    form.push(field("scope", SCOPE_DELEGATED));
    assert(form_view(form@) =~= device_start_form(app@));
    let url = device_code_url(tenant.as_str());
    (tenant, app, TokenRequest { url, form })
}

/// The error a token endpoint's error answer stands for: still waiting for
/// the user, or a failure with the endpoint's description.
pub open spec fn token_error_spec(error: Seq<char>, description: Option<Seq<char>>) -> CoreErrorKind {
    if error == "authorization_pending"@ || error == "slow_down"@ {
        CoreErrorKind::Pending
    } else {
        CoreErrorKind::Auth(
            match description {
                Some(d) => d,
                None => error,
            },
        )
    }
}

/// The shape of an authentication error, for contracts.
pub enum CoreErrorKind {
    Pending,
    Auth(Seq<char>),
}

/// Whether an error has the given shape.
pub open spec fn error_is(e: CoreError, k: CoreErrorKind) -> bool {
    match k {
        CoreErrorKind::Pending => e is AuthorizationPending,
        CoreErrorKind::Auth(m) => e matches CoreError::Auth(s) && s@ == m,
    }
}

/// Map a token endpoint's error answer to the error of the sign-in.
pub fn token_error(err: TokenError) -> (r: CoreError)
    ensures
        error_is(r, token_error_spec(err.error@, ostr(err.error_description))),
{
    let e = chars_of(err.error.as_str());
    if crate::text::chars_eq(&e, &chars_of("authorization_pending")) || crate::text::chars_eq(&e, &chars_of("slow_down")) {
        CoreError::AuthorizationPending
    } else {
        match err.error_description {
            Some(d) => CoreError::Auth(d),
            None => CoreError::Auth(err.error),
        }
    }
}

/// The value given, else the one from the environment.
pub open spec fn given_or(given: Option<Seq<char>>, env: Option<Seq<char>>) -> Option<Seq<char>> {
    match given {
        Some(g) => Some(g),
        None => env,
    }
}

/// The app-only credentials to sign in with: each argument falls back to its
/// environment variable (`tenant_id`, `app_id`, `app_secret`); the first one
/// missing in both is reported.
pub fn app_only_credentials(
    tenant_id: Option<String>,
    app_id: Option<String>,
    app_secret: Option<String>,
    env_tenant_id: Option<String>,
    env_app_id: Option<String>,
    env_app_secret: Option<String>,
) -> (r: Result<(String, String, String), CoreError>)
    ensures
        match r {
            Ok((t, a, s)) => given_or(ostr(tenant_id), ostr(env_tenant_id)) == Some(t@) && given_or(
                ostr(app_id),
                ostr(env_app_id),
            ) == Some(a@) && given_or(ostr(app_secret), ostr(env_app_secret)) == Some(s@),
            Err(e) => if given_or(ostr(tenant_id), ostr(env_tenant_id)) is None {
                error_is(e, CoreErrorKind::Auth("tenant_id required"@))
            } else if given_or(ostr(app_id), ostr(env_app_id)) is None {
                error_is(e, CoreErrorKind::Auth("app_id required"@))
            } else {
                given_or(ostr(app_secret), ostr(env_app_secret)) is None && error_is(
                    e,
                    CoreErrorKind::Auth("app_secret required"@),
                )
            },
        },
{
    let t = match tenant_id {
        Some(t) => t,
        None => match env_tenant_id {
            Some(t) => t,
            None => {
                return Err(CoreError::Auth("tenant_id required".to_owned()));
            },
        },
    };
    let a = match app_id {
        Some(a) => a,
        None => match env_app_id {
            Some(a) => a,
            None => {
                return Err(CoreError::Auth("app_id required".to_owned()));
            },
        },
    };
    let s = match app_secret {
        Some(s) => s,
        None => match env_app_secret {
            Some(s) => s,
            None => {
                return Err(CoreError::Auth("app_secret required".to_owned()));
            },
        },
    };
    Ok((t, a, s))
}

/// What to do to hand out an access token.
pub enum TokenStep {
    /// The cached token is still good.
    Ready(String),
    /// The token has expired: make this request and hand its answer to `apply_token`.
    Request(TokenRequest),
    /// The token has expired and cannot be renewed.
    Fail(CoreError),
}

/// What a session whose token has expired does to hand out a token: a
/// client-credentials request for an app-only session, or a refresh request
/// for a delegated one, or a failure when the secret or refresh token to make
/// it with is missing.
pub open spec fn renewal_step(s: SessionV, r: TokenStep) -> bool {
    match s.mode {
        AuthMode::AppOnly => match s.secret {
            Some(secret) => r matches TokenStep::Request(q) && q.url@ == authority_spec(s.tenant_id) && form_view(q.form@)
                == client_credentials_form(s.app_id, secret),
            None => r matches TokenStep::Fail(e) && error_is(e, CoreErrorKind::Auth("missing app secret"@)),
        },
        AuthMode::DeviceCode => match s.refresh {
            Some(refresh) => r matches TokenStep::Request(q) && q.url@ == authority_spec(s.tenant_id) && form_view(q.form@)
                == refresh_form(s.app_id, refresh),
            None => r matches TokenStep::Fail(e) && error_is(e, CoreErrorKind::Auth("session expired, sign in again"@)),
        },
    }
}

impl Session {
    /// A session from a token endpoint's answer obtained at instant `now`
    /// (nanoseconds since the Unix epoch).
    pub fn from_token_at(
        mode: AuthMode,
        tenant_id: String,
        app_id: String,
        app_secret: Option<String>,
        t: TokenResponse,
        now: i128,
    ) -> (r: Session)
        requires
            MIN_INSTANT_NS <= now,
            expiry_in_range(now as int, t.expires_in),
        ensures
            r@.mode == mode,
            r@.tenant_id == tenant_id@,
            r@.app_id == app_id@,
            r@.secret == ostr(app_secret),
            r@.token == t.access_token@,
            r@.refresh == ostr(t.refresh_token),
            r@.expires_at == expiry(now as int, t.expires_in),
            r@.org_name is None,
            r@.org_id is None,
    {
        let expires_at = now + usable_ns(t.expires_in);
        Session {
            mode,
            tenant_id,
            app_id,
            app_secret,
            access_token: t.access_token,
            refresh_token: t.refresh_token,
            expires_at,
            org_name: None,
            org_id: None,
        }
    }

    /// A session from a token endpoint's answer obtained now. `None` when the
    /// token's expiry lies beyond the last instant the clock represents.
    pub fn from_token(
        mode: AuthMode,
        tenant_id: String,
        app_id: String,
        app_secret: Option<String>,
        t: TokenResponse,
    ) -> (r: Option<Session>)
        ensures
            match r {
                Some(s) => s@.mode == mode && s@.tenant_id == tenant_id@ && s@.app_id == app_id@ && s@.secret
                    == ostr(app_secret) && s@.token == t.access_token@ && s@.refresh == ostr(t.refresh_token)
                    && MIN_INSTANT_NS <= s@.expires_at - usable_secs(t.expires_in) * NS_PER_SEC <= MAX_INSTANT_NS
                    && s@.org_name is None && s@.org_id is None,
                None => true,
            },
    {
        let now = now_ns();
        if usable_ns(t.expires_in) <= MAX_INSTANT_NS - now {
            let ghost e = t.expires_in;
            let s = Session::from_token_at(mode, tenant_id, app_id, app_secret, t, now);
            assert(s@.expires_at == expiry(now as int, e));
            Some(s)
        } else {
            None
        }
    }

    /// The status of a signed-in session.
    pub fn status(&self) -> (r: AuthStatus)
        ensures
            r.authenticated,
            r.mode == Some(self@.mode),
            ostr(r.tenant_id) == Some(self@.tenant_id),
            ostr(r.app_id) == Some(self@.app_id),
            ostr(r.org_name) == self@.org_name,
            ostr(r.org_id) == self@.org_id,
    {
        AuthStatus {
            authenticated: true,
            mode: Some(self.mode),
            tenant_id: Some(self.tenant_id.clone()),
            app_id: Some(self.app_id.clone()),
            org_name: clone_opt(&self.org_name),
            org_id: clone_opt(&self.org_id),
        }
    }

    /// How the session was signed in.
    pub fn auth_mode(&self) -> (r: AuthMode)
        ensures
            r == self@.mode,
    {
        self.mode
    }

    /// The tenant the session is signed in to.
    pub fn tenant(&self) -> (r: &String)
        ensures
            r@ == self@.tenant_id,
    {
        &self.tenant_id
    }

    /// The app the session is signed in with.
    pub fn app(&self) -> (r: &String)
        ensures
            r@ == self@.app_id,
    {
        &self.app_id
    }

    /// Record the organisation the session's tenant belongs to.
    pub fn set_organization(&mut self, name: Option<String>, id: Option<String>)
        ensures
            final(self)@ == (SessionV { org_name: ostr(name), org_id: ostr(id), ..old(self)@ }),
    {
        self.org_name = name;
        self.org_id = id;
    }

    /// The refresh token of the session, if it has one.
    pub fn refresh_token(&self) -> (r: Option<&String>)
        ensures
            match r {
                Some(s) => self@.refresh == Some(s@),
                None => self@.refresh is None,
            },
    {
        match &self.refresh_token {
            Some(s) => Some(s),
            None => None,
        }
    }

    /// What to do, at instant `now`, to hand out an access token: the cached
    /// one while it has not expired; else a client-credentials request for an
    /// app-only session, or a refresh request for a delegated one, or a failure
    /// when the secret or refresh token to make it with is missing.
    pub fn token_step_at(&self, now: i128) -> (r: TokenStep)
        ensures
            now < self@.expires_at ==> (r matches TokenStep::Ready(t) && t@ == self@.token),
            self@.expires_at <= now ==> renewal_step(self@, r),
    {
        if now < self.expires_at {
            return TokenStep::Ready(self.access_token.clone());
        }
        match self.mode {
            AuthMode::AppOnly => match &self.app_secret {
                Some(secret) => TokenStep::Request(
                    client_credentials_request(self.tenant_id.as_str(), self.app_id.as_str(), secret.as_str()),
                ),
                None => TokenStep::Fail(CoreError::Auth("missing app secret".to_owned())),
            },
            AuthMode::DeviceCode => match &self.refresh_token {
                Some(refresh) => TokenStep::Request(
                    refresh_request(self.tenant_id.as_str(), self.app_id.as_str(), refresh.as_str()),
                ),
                None => TokenStep::Fail(CoreError::Auth("session expired, sign in again".to_owned())),
            },
        }
    }

    /// What to do, now, to hand out an access token (see `token_step_at`):
    /// the cached token, or what an expired session does to renew it.
    pub fn token_step(&self) -> (r: TokenStep)
        ensures
            match r {
                TokenStep::Ready(t) => t@ == self@.token,
                _ => renewal_step(self@, r),
            },
    {
        let now = now_ns();
        self.token_step_at(now)
    }

    /// Take in the answer to a renewal made at instant `now`: the new access
    /// token and expiry; a delegated session also takes a new refresh token
    /// when the answer has one and keeps its own otherwise.
    pub fn apply_token_at(&mut self, t: TokenResponse, now: i128)
        requires
            MIN_INSTANT_NS <= now,
            expiry_in_range(now as int, t.expires_in),
        ensures
            final(self)@.mode == old(self)@.mode,
            final(self)@.tenant_id == old(self)@.tenant_id,
            final(self)@.app_id == old(self)@.app_id,
            final(self)@.secret == old(self)@.secret,
            final(self)@.org_name == old(self)@.org_name,
            final(self)@.org_id == old(self)@.org_id,
            final(self)@.token == t.access_token@,
            final(self)@.expires_at == expiry(now as int, t.expires_in),
            final(self)@.refresh == if old(self)@.mode == AuthMode::DeviceCode && t.refresh_token is Some {
                ostr(t.refresh_token)
            } else {
                old(self)@.refresh
            },
    {
        self.expires_at = now + usable_ns(t.expires_in);
        self.access_token = t.access_token;
        if self.mode == AuthMode::DeviceCode {
            match t.refresh_token {
                Some(r) => {
                    self.refresh_token = Some(r);
                },
                None => {},
            }
        }
    }

    /// Take in the answer to a renewal made now. `false`, with the session
    /// unchanged, when the new expiry lies beyond the last instant the clock
    /// represents.
    pub fn apply_token(&mut self, t: TokenResponse) -> (r: bool)
        ensures
            final(self)@.mode == old(self)@.mode,
            final(self)@.tenant_id == old(self)@.tenant_id,
            final(self)@.app_id == old(self)@.app_id,
            final(self)@.secret == old(self)@.secret,
            final(self)@.org_name == old(self)@.org_name,
            final(self)@.org_id == old(self)@.org_id,
            r ==> final(self)@.token == t.access_token@,
            r ==> final(self)@.refresh == if old(self)@.mode == AuthMode::DeviceCode && t.refresh_token is Some {
                ostr(t.refresh_token)
            } else {
                old(self)@.refresh
            },
            r ==> MIN_INSTANT_NS <= final(self)@.expires_at - usable_secs(t.expires_in) * NS_PER_SEC <= MAX_INSTANT_NS,
            !r ==> final(self)@ == old(self)@,
    {
        let now = now_ns();
        if usable_ns(t.expires_in) <= MAX_INSTANT_NS - now {
            self.apply_token_at(t, now);
            true
        } else {
            false
        }
    }
}

/// A token obtained at instant `now` is handed out, without renewal, for at
/// least thirty seconds: the expiry a session takes from it lies that far ahead.
pub proof fn law_new_token_lasts(now: int, expires_in: i64)
    ensures
        now + 30 * NS_PER_SEC <= expiry(now, expires_in),
{
}

} // verus!
