use intune_core::auth::{
    app_only_credentials, authority, client_credentials_request, device_poll_request, device_start_request, refresh_request,
    token_error, AuthMode, AuthStatus, Session, TokenError, TokenResponse, TokenStep, NS_PER_SEC,
};
use intune_core::error::CoreError;
use intune_core::token_store::persisted_auth;

fn pairs(form: &[(String, String)]) -> Vec<(&str, &str)> {
    form.iter().map(|(k, v)| (k.as_str(), v.as_str())).collect()
}

fn response(token: &str, refresh: Option<&str>, expires_in: i64) -> TokenResponse {
    TokenResponse { access_token: token.to_string(), refresh_token: refresh.map(String::from), expires_in }
}

#[test]
fn authority_and_forms() {
    assert_eq!(authority("contoso"), "https://login.microsoftonline.com/contoso/oauth2/v2.0/token");
    let r = client_credentials_request("t", "app", "secret");
    assert_eq!(r.url, "https://login.microsoftonline.com/t/oauth2/v2.0/token");
    assert_eq!(
        pairs(&r.form),
        vec![
            ("client_id", "app"),
            ("scope", "https://graph.microsoft.com/.default"),
            ("client_secret", "secret"),
            ("grant_type", "client_credentials"),
        ]
    );
    let r = refresh_request("t", "app", "rt");
    assert_eq!(
        pairs(&r.form),
        vec![
            ("client_id", "app"),
            ("scope", "https://graph.microsoft.com/.default offline_access"),
            ("refresh_token", "rt"),
            ("grant_type", "refresh_token"),
        ]
    );
    let r = device_poll_request("t", "app", "dc");
    assert_eq!(
        pairs(&r.form),
        vec![("client_id", "app"), ("grant_type", "urn:ietf:params:oauth:grant-type:device_code"), ("device_code", "dc")]
    );
}

#[test]
fn device_start_defaults() {
    let (tenant, app, req) = device_start_request(None, Some(String::new()));
    assert_eq!(tenant, "common");
    assert_eq!(app, "14d82eec-204b-4c2f-b7e8-296a70dab67e");
    assert_eq!(req.url, "https://login.microsoftonline.com/common/oauth2/v2.0/devicecode");
    assert_eq!(pairs(&req.form), vec![("client_id", app.as_str()), ("scope", "https://graph.microsoft.com/.default offline_access")]);
    let (tenant, app, _) = device_start_request(Some("t1".to_string()), Some("a1".to_string()));
    assert_eq!((tenant.as_str(), app.as_str()), ("t1", "a1"));
}

#[test]
fn token_errors_map_to_core_errors() {
    let e = token_error(TokenError { error: "authorization_pending".to_string(), error_description: Some("wait".to_string()) });
    assert!(matches!(e, CoreError::AuthorizationPending));
    let e = token_error(TokenError { error: "slow_down".to_string(), error_description: None });
    assert!(matches!(e, CoreError::AuthorizationPending));
    let e = token_error(TokenError { error: "invalid_grant".to_string(), error_description: Some("expired".to_string()) });
    assert!(matches!(e, CoreError::Auth(ref m) if m == "expired"));
    let e = token_error(TokenError { error: "invalid_grant".to_string(), error_description: None });
    assert!(matches!(e, CoreError::Auth(ref m) if m == "invalid_grant"));
}

#[test]
fn app_only_credentials_fall_back_to_environment() {
    let r = app_only_credentials(Some("t".into()), None, None, None, Some("envapp".into()), Some("envsecret".into()));
    assert_eq!(r.unwrap(), ("t".to_string(), "envapp".to_string(), "envsecret".to_string()));
    let r = app_only_credentials(None, Some("a".into()), Some("s".into()), None, None, None);
    assert!(matches!(r, Err(CoreError::Auth(ref m)) if m == "tenant_id required"));
    let r = app_only_credentials(Some("t".into()), None, Some("s".into()), None, None, None);
    assert!(matches!(r, Err(CoreError::Auth(ref m)) if m == "app_id required"));
    let r = app_only_credentials(Some("t".into()), Some("a".into()), None, None, None, None);
    assert!(matches!(r, Err(CoreError::Auth(ref m)) if m == "app_secret required"));
}

#[test]
fn cached_token_until_expiry_then_renewal() {
    let now: i128 = 1_700_000_000 * NS_PER_SEC;
    let s = Session::from_token_at(AuthMode::AppOnly, "t".into(), "a".into(), Some("sec".into()), response("tok", None, 3600), now);
    match s.token_step_at(now) {
        TokenStep::Ready(t) => assert_eq!(t, "tok"),
        _ => panic!("expected the cached token"),
    }
    let expiry = now + 3570 * NS_PER_SEC;
    assert!(matches!(s.token_step_at(expiry - 1), TokenStep::Ready(_)));
    match s.token_step_at(expiry) {
        TokenStep::Request(q) => assert_eq!(pairs(&q.form)[3], ("grant_type", "client_credentials")),
        _ => panic!("expected a renewal"),
    }
    let short = Session::from_token_at(AuthMode::AppOnly, "t".into(), "a".into(), None, response("tok", None, 5), now);
    assert!(matches!(short.token_step_at(now + 29 * NS_PER_SEC), TokenStep::Ready(_)));
    match short.token_step_at(now + 30 * NS_PER_SEC) {
        TokenStep::Fail(CoreError::Auth(m)) => assert_eq!(m, "missing app secret"),
        _ => panic!("expected a failure"),
    }
}

#[test]
fn delegated_refresh_keeps_refresh_token_when_none_is_returned() {
    let now: i128 = 1_000 * NS_PER_SEC;
    let mut s = Session::from_token_at(AuthMode::DeviceCode, "t".into(), "a".into(), None, response("tok1", Some("r1"), 60), now);
    let later = now + 40 * NS_PER_SEC;
    match s.token_step_at(later) {
        TokenStep::Request(q) => assert_eq!(pairs(&q.form)[2], ("refresh_token", "r1")),
        _ => panic!("expected a refresh"),
    }
    s.apply_token_at(response("tok2", None, 120), later);
    assert_eq!(s.refresh_token().map(|x| x.as_str()), Some("r1"));
    match s.token_step_at(later) {
        TokenStep::Ready(t) => assert_eq!(t, "tok2"),
        _ => panic!("the new token is used"),
    }
    s.apply_token_at(response("tok3", Some("r2"), 120), later);
    assert_eq!(s.refresh_token().map(|x| x.as_str()), Some("r2"));
    let none = Session::from_token_at(AuthMode::DeviceCode, "t".into(), "a".into(), None, response("tok", None, 60), now);
    match none.token_step_at(later) {
        TokenStep::Fail(CoreError::Auth(m)) => assert_eq!(m, "session expired, sign in again"),
        _ => panic!("expected a failure"),
    }
}

#[test]
fn session_from_the_clock() {
    let s = Session::from_token(AuthMode::AppOnly, "t".into(), "a".into(), None, response("tok", None, 3600)).unwrap();
    match s.token_step() {
        TokenStep::Ready(t) => assert_eq!(t, "tok"),
        _ => panic!("a fresh token is used"),
    }
    assert!(Session::from_token(AuthMode::AppOnly, "t".into(), "a".into(), None, response("tok", None, i64::MAX)).is_none());
}

#[test]
fn status_and_persistence() {
    let out = AuthStatus::signed_out();
    assert!(!out.authenticated && out.mode.is_none() && out.tenant_id.is_none());
    let now: i128 = 0;
    let mut s = Session::from_token_at(AuthMode::DeviceCode, "t".into(), "a".into(), None, response("tok", Some("r"), 60), now);
    s.set_organization(Some("Contoso".into()), Some("o1".into()));
    let st = s.status();
    assert!(st.authenticated);
    assert_eq!(st.mode, Some(AuthMode::DeviceCode));
    assert_eq!(st.tenant_id.as_deref(), Some("t"));
    assert_eq!(st.org_name.as_deref(), Some("Contoso"));
    let p = persisted_auth(&s).unwrap();
    assert_eq!((p.tenant_id.as_str(), p.app_id.as_str(), p.refresh_token.as_str()), ("t", "a", "r"));
    let app = Session::from_token_at(AuthMode::AppOnly, "t".into(), "a".into(), Some("x".into()), response("tok", Some("r"), 60), now);
    assert!(persisted_auth(&app).is_none());
}
