//! Tokens of the Qonto account and the URL of its consent page.
use crate::oauth::{expiry_of, expiry_time, token_is_fresh, url_encode, url_encoded, TokenStep};
use vstd::prelude::*;
use vstd::utf8::encode_utf8;

verus! {

/// The tokens stored for the Qonto account.
pub struct StoredTokens {
    pub access_token: String,
    pub refresh_token: Option<String>,
    pub expires_at: u64,
}

impl StoredTokens {
    /// The tokens of a token-endpoint reply received at `now`.
    pub fn from_response(
        access_token: String,
        refresh_token: Option<String>,
        expires_in: Option<u64>,
        now: u64,
    ) -> (r: StoredTokens)
        requires
            expiry_of(now, expires_in) <= u64::MAX,
        ensures
            r.access_token == access_token,
            r.refresh_token == refresh_token,
            r.expires_at == expiry_of(now, expires_in),
    {
        StoredTokens { access_token, refresh_token, expires_at: expiry_time(now, expires_in) }
    }
}

/// The start-up step for the stored Qonto tokens: use the access token while
/// it has more than five minutes left, else authorize again (Qonto tokens are
/// not refreshed).
pub fn next_step(stored: &Option<StoredTokens>, now: u64) -> (r: TokenStep)
    requires
        now + 300 <= u64::MAX,
    ensures
        match *stored {
            Some(t) => if t.expires_at > now + 300 {
                r matches TokenStep::Use(a) && a == t.access_token
            } else {
                r is Authorize
            },
            None => r is Authorize,
        },
{
    match stored {
        Some(t) => if token_is_fresh(t.expires_at, now) {
            TokenStep::Use(t.access_token.clone())
        } else {
            TokenStep::Authorize
        },
        None => TokenStep::Authorize,
    }
}

/// The Qonto consent page for this client.
pub open spec fn consent_url(
    oauth_base: Seq<char>,
    client_id: Seq<char>,
    redirect_uri: Seq<char>,
    scope: Seq<char>,
    state: Seq<char>,
) -> Seq<char> {
    oauth_base + "/oauth2/auth?client_id="@ + url_encoded(encode_utf8(client_id))
        + "&redirect_uri="@ + url_encoded(encode_utf8(redirect_uri)) + "&scope="@ + url_encoded(
        encode_utf8(scope),
    ) + "&response_type=code&state="@ + state
}

/// The URL of the Qonto consent page.
pub fn auth_url(oauth_base: &str, client_id: &str, redirect_uri: &str, scope: &str, state: &str) -> (r: String)
    ensures
        r@ == consent_url(oauth_base@, client_id@, redirect_uri@, scope@, state@),
{
    let mut s = String::from_str(oauth_base);
    s.append("/oauth2/auth?client_id=");
    let a = url_encode(client_id);
    s.append(a.as_str());
    s.append("&redirect_uri=");
    let b = url_encode(redirect_uri);
    s.append(b.as_str());
    s.append("&scope=");
    let c = url_encode(scope);
    s.append(c.as_str());
    s.append("&response_type=code&state=");
    s.append(state);
    s
}

/// The token endpoint under `oauth_base`.
pub fn token_url(oauth_base: &str) -> (r: String)
    ensures
        r@ == oauth_base@ + "/oauth2/token"@,
{
    let mut s = String::from_str(oauth_base);
    s.append("/oauth2/token");
    s
}

} // verus!
