use yaltech_tools::auth_google::{google_error_page, google_success_page, GoogleTokens};
use yaltech_tools::gmail::auth::{auth_url as gmail_auth_url, Tokens};
use yaltech_tools::oauth::{
    callback_reply, error_page, expiry_time, parse_callback, success_page, token_is_fresh,
    url_decode, url_encode, CallbackResult, TokenStep,
};
use yaltech_tools::qonto::auth::{auth_url as qonto_auth_url, token_url, StoredTokens};

#[test]
fn url_encode_keeps_unreserved_and_escapes_the_rest() {
    assert_eq!(url_encode("abc-_.~XYZ09"), "abc-_.~XYZ09");
    assert_eq!(url_encode("a b"), "a%20b");
    assert_eq!(url_encode("a+b&c=d/e"), "a%2Bb%26c%3Dd%2Fe");
    assert_eq!(url_encode("é"), "%C3%A9");
    assert_eq!(url_encode(""), "");
}

#[test]
fn url_decode_handles_escapes_plus_and_errors() {
    assert_eq!(url_decode("a%20b"), "a b");
    assert_eq!(url_decode("a+b"), "a b");
    assert_eq!(url_decode("%41%62"), "Ab");
    // an invalid escape is dropped with its two bytes
    assert_eq!(url_decode("x%zzy"), "xy");
    // `+` followed by a hex digit is accepted by from_str_radix
    assert_eq!(url_decode("%+5"), "\u{5}");
    // a trailing `%` reads as `%00`
    assert_eq!(url_decode("a%"), "a\u{0}");
    assert_eq!(url_decode("%A"), "\u{a0}");
    // bytes are read one by one
    assert_eq!(url_decode("%C3%A9"), "\u{c3}\u{a9}");
    assert_eq!(url_decode("é"), "\u{c3}\u{a9}");
}

#[test]
fn url_decode_inverts_url_encode_on_ascii() {
    for s in ["hello world", "a+b=c&d", "~user/path?x=1", "", "%%%"] {
        assert_eq!(url_decode(&url_encode(s)), s);
    }
    // non-ASCII text comes back byte by byte
    assert_eq!(url_decode(&url_encode("ç")), "\u{c3}\u{a7}");
}

fn code_of(r: CallbackResult) -> Option<String> {
    match r {
        CallbackResult::Code(c) => Some(c),
        _ => None,
    }
}

fn error_of(r: CallbackResult) -> Option<String> {
    match r {
        CallbackResult::Error(e) => Some(e),
        _ => None,
    }
}

#[test]
fn parse_callback_reads_the_code() {
    let r = parse_callback("GET /callback?code=4%2F0Ab&state=xyz HTTP/1.1\r\nHost: localhost\r\n\r\n");
    assert_eq!(code_of(r), Some("4/0Ab".to_string()));
}

#[test]
fn parse_callback_last_parameter_wins() {
    let r = parse_callback("GET /cb?code=first&code=second HTTP/1.1");
    assert_eq!(code_of(r), Some("second".to_string()));
}

#[test]
fn parse_callback_reports_errors() {
    let r = parse_callback("GET /cb?error=access_denied&error_description=User+denied%2Baccess HTTP/1.1");
    assert_eq!(error_of(r), Some("access_denied: User denied access".to_string()));
    let r = parse_callback("GET /cb?error=oops HTTP/1.1");
    assert_eq!(error_of(r), Some("oops: ".to_string()));
}

#[test]
fn parse_callback_ignores_other_requests() {
    assert!(matches!(parse_callback("GET /favicon.ico HTTP/1.1"), CallbackResult::Ignore));
    assert!(matches!(parse_callback(""), CallbackResult::Ignore));
    assert!(matches!(parse_callback("GET"), CallbackResult::Ignore));
    assert!(matches!(parse_callback("GET /cb?state=1 HTTP/1.1"), CallbackResult::Ignore));
    // the query stops at the next `?`
    let r = parse_callback("  GET   /cb?code=a?code=b HTTP/1.1");
    assert_eq!(code_of(r), Some("a".to_string()));
    // a parameter without `=` has an empty value
    let r = parse_callback("GET /cb?code HTTP/1.1");
    assert_eq!(code_of(r), Some(String::new()));
}

#[test]
fn callback_round_trip_with_encoded_code() {
    for code in ["4/0AfJohXn-abc_def", "a b+c", "x&y=z"] {
        let req = format!("GET /oauth?code={} HTTP/1.1\r\n", url_encode(code));
        assert_eq!(code_of(parse_callback(&req)), Some(code.to_string()));
    }
}

#[test]
fn pages_sent_to_the_browser() {
    let page = success_page();
    assert!(page.starts_with(b"HTTP/1.1 200 OK\r\n"));
    assert!(page.windows(8).any(|w| w == b"re\xE7ue !<"));
    assert!(page.ends_with(b"</body></html>"));
    assert_eq!(
        error_page("bad"),
        "HTTP/1.1 400 Bad Request\r\nContent-Type: text/html\r\n\r\n<h2>Erreur OAuth</h2><pre>bad</pre>"
    );
    assert_eq!(callback_reply(&CallbackResult::Ignore), b"HTTP/1.1 200 OK\r\nContent-Length: 0\r\n\r\n".to_vec());
    assert_eq!(callback_reply(&CallbackResult::Code("c".into())), page);
    assert_eq!(callback_reply(&CallbackResult::Error("e".into())), error_page("e").into_bytes());
    assert!(google_error_page("x").contains("<h2>Erreur OAuth Google</h2><pre>x</pre>"));
    assert!(String::from_utf8(google_success_page()).unwrap().contains("Google authentifie !"));
}

#[test]
fn token_lifetimes() {
    assert!(token_is_fresh(1301, 1000));
    assert!(!token_is_fresh(1300, 1000));
    assert_eq!(expiry_time(1000, Some(60)), 1060);
    assert_eq!(expiry_time(1000, None), 4600);
}

#[test]
fn gmail_token_steps() {
    let fresh = Tokens { access_token: "A".into(), refresh_token: Some("R".into()), expires_at: 2000 };
    match yaltech_tools::gmail::auth::next_step(&Some(fresh), 1000) {
        TokenStep::Use(a) => assert_eq!(a, "A"),
        _ => panic!("expected Use"),
    }
    let stale = Tokens { access_token: "A".into(), refresh_token: Some("R".into()), expires_at: 1200 };
    match yaltech_tools::gmail::auth::next_step(&Some(stale), 1000) {
        TokenStep::Refresh(r) => assert_eq!(r, "R"),
        _ => panic!("expected Refresh"),
    }
    let no_refresh = Tokens { access_token: "A".into(), refresh_token: None, expires_at: 0 };
    assert!(matches!(yaltech_tools::gmail::auth::next_step(&Some(no_refresh), 1000), TokenStep::Authorize));
    assert!(matches!(yaltech_tools::gmail::auth::next_step(&None, 1000), TokenStep::Authorize));
}

#[test]
fn refresh_keeps_the_refresh_token() {
    let mut t = Tokens { access_token: "old".into(), refresh_token: Some("R".into()), expires_at: 5 };
    let new = Tokens::from_response("new".into(), None, Some(100), 1000);
    assert_eq!(new.expires_at, 1100);
    t.apply_refresh(new);
    assert_eq!(t.access_token, "new");
    assert_eq!(t.expires_at, 1100);
    assert_eq!(t.refresh_token.as_deref(), Some("R"));

    let mut g = GoogleTokens { access_token: "old".into(), refresh_token: Some("R".into()), expires_at: 5 };
    g.apply_refresh(GoogleTokens::from_response("n".into(), Some("X".into()), None, 10));
    assert_eq!((g.access_token.as_str(), g.expires_at, g.refresh_token.as_deref()), ("n", 3610, Some("R")));
    match yaltech_tools::auth_google::next_step(&Some(g), 0) {
        TokenStep::Use(a) => assert_eq!(a, "n"),
        _ => panic!("expected Use"),
    }
}

#[test]
fn qonto_tokens_are_never_refreshed() {
    let stale = StoredTokens::from_response("A".into(), Some("R".into()), Some(10), 1000);
    assert!(matches!(yaltech_tools::qonto::auth::next_step(&Some(stale), 1000), TokenStep::Authorize));
    let fresh = StoredTokens::from_response("A".into(), None, None, 1000);
    assert!(matches!(yaltech_tools::qonto::auth::next_step(&Some(fresh), 1000), TokenStep::Use(_)));
}

#[test]
fn consent_urls() {
    assert_eq!(
        gmail_auth_url("https://accounts.example/auth", "id 1", "http://127.0.0.1:8080/", "a b", "00ff"),
        "https://accounts.example/auth?client_id=id%201&redirect_uri=http%3A%2F%2F127.0.0.1%3A8080%2F&scope=a%20b&response_type=code&state=00ff&access_type=offline&prompt=consent"
    );
    assert_eq!(
        qonto_auth_url("https://oauth.q", "cid", "http://x/cb", "offline_access", "s"),
        "https://oauth.q/oauth2/auth?client_id=cid&redirect_uri=http%3A%2F%2Fx%2Fcb&scope=offline_access&response_type=code&state=s"
    );
    assert_eq!(token_url("https://oauth.q"), "https://oauth.q/oauth2/token");
}

#[test]
fn state_token_is_sixteen_lower_hex_digits() {
    assert_eq!(yaltech_tools::oauth::state_token(0xff), "00000000000000ff");
    assert_eq!(yaltech_tools::oauth::state_token(0xDEADBEEF01234567), "deadbeef01234567");
    assert_eq!(yaltech_tools::oauth::state_token(u64::MAX), "ffffffffffffffff");
}
