//! Tokens of the Google account as the dashboard keeps them, and the pages it
//! shows in the browser after the consent screen.
use crate::oauth::{expiry_of, expiry_time, token_is_fresh, TokenStep};
use vstd::prelude::*;
use vstd::utf8::encode_utf8;

verus! {

/// The tokens stored for the Google account.
pub struct GoogleTokens {
    pub access_token: String,
    pub refresh_token: Option<String>,
    pub expires_at: u64,
}

impl GoogleTokens {
    /// The tokens of a token-endpoint reply received at `now`.
    pub fn from_response(
        access_token: String,
        refresh_token: Option<String>,
        expires_in: Option<u64>,
        now: u64,
    ) -> (r: GoogleTokens)
        requires
            expiry_of(now, expires_in) <= u64::MAX,
        ensures
            r.access_token == access_token,
            r.refresh_token == refresh_token,
            r.expires_at == expiry_of(now, expires_in),
    {
        GoogleTokens { access_token, refresh_token, expires_at: expiry_time(now, expires_in) }
    }

    /// Takes the access token and expiry of a refresh reply; the refresh token
    /// stays.
    pub fn apply_refresh(&mut self, new: GoogleTokens)
        ensures
            final(self).access_token == new.access_token,
            final(self).expires_at == new.expires_at,
            final(self).refresh_token == old(self).refresh_token,
    {
        self.access_token = new.access_token;
        self.expires_at = new.expires_at;
    }
}

/// The start-up step for the stored Google tokens (see `gmail::auth::next_step`).
pub fn next_step(stored: &Option<GoogleTokens>, now: u64) -> (r: TokenStep)
    requires
        now + 300 <= u64::MAX,
    ensures
        match *stored {
            None => r is Authorize,
            Some(t) => if t.expires_at > now + 300 {
                r matches TokenStep::Use(a) && a == t.access_token
            } else {
                match t.refresh_token {
                    Some(rt) => r matches TokenStep::Refresh(x) && x == rt,
                    None => r is Authorize,
                }
            },
        },
{
    match stored {
        None => TokenStep::Authorize,
        Some(t) => {
            if token_is_fresh(t.expires_at, now) {
                TokenStep::Use(t.access_token.clone())
            } else {
                match &t.refresh_token {
                    Some(rt) => TokenStep::Refresh(rt.clone()),
                    None => TokenStep::Authorize,
                }
            }
        },
    }
}

/// The page sent once Google's code has arrived.
pub const GOOGLE_SUCCESS: &'static str = "HTTP/1.1 200 OK\r\nContent-Type: text/html; charset=utf-8\r\n\r\n<!DOCTYPE html><html><body style='font-family:sans-serif;padding:2em;text-align:center'><h2>Google authentifie !</h2><p>Tu peux fermer cet onglet.</p></body></html>";

/// Start of the page that reports a Google OAuth error, before the message.
pub const GOOGLE_ERROR_HEAD: &'static str = "HTTP/1.1 400 Bad Request\r\nContent-Type: text/html\r\n\r\n<h2>Erreur OAuth Google</h2><pre>";

/// The page that reports a Google OAuth error.
pub fn google_error_page(msg: &str) -> (r: String)
    ensures
        r@ == GOOGLE_ERROR_HEAD@ + msg@ + "</pre>"@,
{
    let mut s = String::from_str(GOOGLE_ERROR_HEAD);
    s.append(msg);
    s.append("</pre>");
    s
}

/// The bytes of the page sent once Google's code has arrived.
pub fn google_success_page() -> (r: Vec<u8>)
    ensures
        r@ == encode_utf8(GOOGLE_SUCCESS@),
{
    GOOGLE_SUCCESS.as_bytes_vec()
}

} // verus!
