//! Tokens of the Gmail account and the URL of its consent page.
use crate::oauth::{expiry_of, expiry_time, token_is_fresh, url_encode, url_encoded, TokenStep};
use vstd::prelude::*;
use vstd::utf8::encode_utf8;

verus! {

/// The tokens stored for the Gmail account.
pub struct Tokens {
    pub access_token: String,
    pub refresh_token: Option<String>,
    pub expires_at: u64,
}

impl Tokens {
    /// The tokens of a token-endpoint reply received at `now`.
    pub fn from_response(
        access_token: String,
        refresh_token: Option<String>,
        expires_in: Option<u64>,
        now: u64,
    ) -> (r: Tokens)
        requires
            expiry_of(now, expires_in) <= u64::MAX,
        ensures
            r.access_token == access_token,
            r.refresh_token == refresh_token,
            r.expires_at == expiry_of(now, expires_in),
    {
        Tokens { access_token, refresh_token, expires_at: expiry_time(now, expires_in) }
    }

    /// Takes the access token and expiry of a refresh reply; the refresh token
    /// stays.
    pub fn apply_refresh(&mut self, new: Tokens)
        ensures
            final(self).access_token == new.access_token,
            final(self).expires_at == new.expires_at,
            final(self).refresh_token == old(self).refresh_token,
    {
        self.access_token = new.access_token;
        self.expires_at = new.expires_at;
    }
}

/// The start-up step for the stored Gmail tokens: use the access token while
/// it has more than five minutes left, else refresh it when a refresh token is
/// stored, else authorize again.
pub fn next_step(stored: &Option<Tokens>, now: u64) -> (r: TokenStep)
    requires
        now + 300 <= u64::MAX,
    ensures
        match *stored {
            None => r is Authorize,
            Some(t) => if t.expires_at > now + 300 {
                r matches TokenStep::Use(a) && a == t.access_token
            } else {
                match t.refresh_token {
                    Some(rt) => r matches TokenStep::Refresh(x) && x == rt,
                    None => r is Authorize,
                }
            },
        },
{
    match stored {
        None => TokenStep::Authorize,
        Some(t) => {
            if token_is_fresh(t.expires_at, now) {
                TokenStep::Use(t.access_token.clone())
            } else {
                match &t.refresh_token {
                    Some(rt) => TokenStep::Refresh(rt.clone()),
                    None => TokenStep::Authorize,
                }
            }
        },
    }
}

/// The Google consent page for this client, asking for offline access.
pub open spec fn consent_url(
    auth_base: Seq<char>,
    client_id: Seq<char>,
    redirect_uri: Seq<char>,
    scope: Seq<char>,
    state: Seq<char>,
) -> Seq<char> {
    auth_base + "?client_id="@ + url_encoded(encode_utf8(client_id)) + "&redirect_uri="@
        + url_encoded(encode_utf8(redirect_uri)) + "&scope="@ + url_encoded(encode_utf8(scope))
        + "&response_type=code&state="@ + state + "&access_type=offline&prompt=consent"@
}

/// The URL of the Google consent page.
pub fn auth_url(auth_base: &str, client_id: &str, redirect_uri: &str, scope: &str, state: &str) -> (r: String)
    ensures
        r@ == consent_url(auth_base@, client_id@, redirect_uri@, scope@, state@),
{
    let mut s = String::from_str(auth_base);
    s.append("?client_id=");
    let a = url_encode(client_id);
    s.append(a.as_str());
    s.append("&redirect_uri=");
    let b = url_encode(redirect_uri);
    s.append(b.as_str());
    s.append("&scope=");
    let c = url_encode(scope);
    s.append(c.as_str());
    s.append("&response_type=code&state=");
    s.append(state);
    s.append("&access_type=offline&prompt=consent");
    s
}

} // verus!
