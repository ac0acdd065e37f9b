//! What is kept of a delegated session so that it can be restored across
//! restarts: only the refresh token and what it belongs to. Access tokens and
//! client secrets are never kept.
use vstd::prelude::*;
use crate::auth::{AuthMode, Session, TokenRequest, authority_spec, form_view, refresh_form, refresh_request};

verus! {

/// The material needed to rehydrate a delegated session.
pub struct PersistedAuth {
    pub tenant_id: String,
    pub app_id: String,
    pub refresh_token: String,
}

/// What is kept of a session: a delegated (device-code) session with a
/// refresh token keeps its tenant, app and refresh token; an app-only
/// session, or one without a refresh token, keeps nothing.
pub fn persisted_auth(session: &Session) -> (r: Option<PersistedAuth>)
    ensures
        match r {
            Some(p) => session@.mode == AuthMode::DeviceCode && session@.refresh == Some(p.refresh_token@)
                && p.tenant_id@ == session@.tenant_id && p.app_id@ == session@.app_id,
            None => session@.mode != AuthMode::DeviceCode || session@.refresh is None,
        },
{
    if session.auth_mode() == AuthMode::DeviceCode {
        match session.refresh_token() {
            Some(refresh) => Some(
                PersistedAuth {
                    tenant_id: session.tenant().clone(),
                    app_id: session.app().clone(),
                    refresh_token: refresh.clone(),
                },
            ),
            None => None,
        }
    } else {
        None
    }
}

/// The request that restores a kept session: a refresh with its refresh token.
pub fn restore_request(p: &PersistedAuth) -> (r: TokenRequest)
    ensures
        r.url@ == authority_spec(p.tenant_id@),
        form_view(r.form@) == refresh_form(p.app_id@, p.refresh_token@),
{
    refresh_request(p.tenant_id.as_str(), p.app_id.as_str(), p.refresh_token.as_str())
}

} // verus!
