//! Pieces of the OAuth authorization-code flow that do not touch the network:
//! percent-encoding, the parsing of the redirect request, the pages sent back
//! to the browser, and the expiry arithmetic of tokens.
use crate::text::{
    chars_of, digit, digit_char, find, find_from, is_ws, lead_len, lemma_find, lemma_lead_len,
    lemma_split_first, lemma_split_none, non_ws, skip_non_ws, skip_ws, slice_of, split, string_of,
    ws,
};
use vstd::prelude::*;
use vstd::string::StringSliceAdditionalSpecFns;
use vstd::utf8::*;

verus! {

// ---------------------------------------------------------------------------
// Percent-encoding
// ---------------------------------------------------------------------------

/// Bytes that `url_encode` leaves as they are.
pub open spec fn is_unreserved(b: u8) -> bool {
    (0x41 <= b && b <= 0x5a) || (0x61 <= b && b <= 0x7a) || (0x30 <= b && b <= 0x39) || b == 0x2d
        || b == 0x5f || b == 0x2e || b == 0x7e
}

/// Upper-case hexadecimal digit of `d` (`{:X}`).
pub open spec fn hex_upper(d: nat) -> char {
    if d < 10 {
        digit(d)
    } else if d == 10 {
        'A'
    } else if d == 11 {
        'B'
    } else if d == 12 {
        'C'
    } else if d == 13 {
        'D'
    } else if d == 14 {
        'E'
    } else {
        'F'
    }
}

/// What `url_encode` writes for one byte of its input.
pub open spec fn encode_byte(b: u8) -> Seq<char> {
    if is_unreserved(b) {
        seq![b as char]
    } else if b == 0x20 {
        seq!['%', '2', '0']
    } else {
        seq!['%', hex_upper((b / 16) as nat), hex_upper((b % 16) as nat)]
    }
}

/// `url_encode` of a string whose UTF-8 bytes are `b`.
pub open spec fn url_encoded(b: Seq<u8>) -> Seq<char>
    decreases b.len(),
{
    if b.len() == 0 {
        Seq::empty()
    } else {
        encode_byte(b[0]) + url_encoded(b.drop_first())
    }
}

/// Value of a hexadecimal digit byte (either case).
pub open spec fn hex_value(b: u8) -> Option<nat> {
    if 0x30 <= b && b <= 0x39 {
        Some((b - 0x30) as nat)
    } else if 0x41 <= b && b <= 0x46 {
        Some((b - 0x41 + 10) as nat)
    } else if 0x61 <= b && b <= 0x66 {
        Some((b - 0x61 + 10) as nat)
    } else {
        None
    }
}

/// `u8::from_str_radix(.., 16)` on the two characters `h1 as char` and
/// `h2 as char`: two hexadecimal digits, or a `+` sign and one digit.
pub open spec fn hex_pair(h1: u8, h2: u8) -> Option<u8> {
    match (hex_value(h1), hex_value(h2)) {
        (Some(a), Some(b)) => Some((16 * a + b) as u8),
        (None, Some(b)) => if h1 == 0x2b {
            Some(b as u8)
        } else {
            None
        },
        _ => None,
    }
}

/// `url_decode` of a string whose UTF-8 bytes are `b`: each byte becomes the
/// character with the same number, `+` becomes a space, and `%` takes the two
/// following bytes (`0` where the input ends) as a hexadecimal byte, dropping
/// them when they are not one.
pub open spec fn url_decoded(b: Seq<u8>) -> Seq<char>
    decreases b.len(),
{
    if b.len() == 0 {
        Seq::empty()
    } else if b[0] == 0x25 {
        let h1: u8 = if b.len() > 1 {
            b[1]
        } else {
            0x30
        };
        let h2: u8 = if b.len() > 2 {
            b[2]
        } else {
            0x30
        };
        let rest = b.skip(if b.len() > 3 {
            3
        } else {
            b.len() as int
        });
        match hex_pair(h1, h2) {
            Some(v) => seq![v as char] + url_decoded(rest),
            None => url_decoded(rest),
        }
    } else if b[0] == 0x2b {
        seq![' '] + url_decoded(b.drop_first())
    } else {
        seq![b[0] as char] + url_decoded(b.drop_first())
    }
}

/// Each byte read as the character with the same number.
pub open spec fn latin1(b: Seq<u8>) -> Seq<char> {
    b.map_values(|x: u8| x as char)
}

fn hex_upper_char(d: u8) -> (c: char)
    requires
        d < 16,
    ensures
        c == hex_upper(d as nat),
{
    if d < 10 {
        digit_char(d as u64)
    } else if d == 10 {
        'A'
    } else if d == 11 {
        'B'
    } else if d == 12 {
        'C'
    } else if d == 13 {
        'D'
    } else if d == 14 {
        'E'
    } else {
        'F'
    }
}

/// Percent-encodes the UTF-8 bytes of `s`, keeping the unreserved characters
/// `A-Z a-z 0-9 - _ . ~`.
pub fn url_encode(s: &str) -> (r: String)
    ensures
        r@ == url_encoded(s.spec_bytes()),
{
    let b = s.as_bytes();
    let mut out: Vec<char> = Vec::new();
    let mut i: usize = 0;
    proof {
        assert(b@.skip(0) =~= b@);
        assert(out@ + url_encoded(b@) =~= url_encoded(b@));
    }
    while i < b.len()
        invariant
            i <= b.len(),
            b@ == s.spec_bytes(),
            out@ + url_encoded(b@.skip(i as int)) == url_encoded(b@),
        decreases b.len() - i,
    {
        let x = b[i];
        proof {
            assert(b@.skip(i as int).drop_first() =~= b@.skip(i + 1));
        }
        if (0x41 <= x && x <= 0x5a) || (0x61 <= x && x <= 0x7a) || (0x30 <= x && x <= 0x39) || x
            == 0x2d || x == 0x5f || x == 0x2e || x == 0x7e {
            out.push(x as char);
        } else if x == 0x20 {
            out.push('%');
            out.push('2');
            out.push('0');
        } else {
            out.push('%');
            out.push(hex_upper_char(x / 16));
            out.push(hex_upper_char(x % 16));
        }
        proof {
            assert(out@ + url_encoded(b@.skip(i + 1)) =~= old_out_plus(out@, b@, i as int));
        }
        i += 1;
    }
    proof {
        assert(b@.skip(b.len() as int) =~= Seq::<u8>::empty());
        assert(out@ + Seq::<char>::empty() =~= out@);
    }
    string_of(&out)
}

spec fn old_out_plus(out: Seq<char>, b: Seq<u8>, i: int) -> Seq<char> {
    out + url_encoded(b.skip(i + 1))
}

fn hex_value_of(b: u8) -> (r: Option<u8>)
    ensures
        r is Some <==> hex_value(b) is Some,
        r matches Some(v) ==> v as nat == hex_value(b).unwrap() && v < 16,
{
    if 0x30 <= b && b <= 0x39 {
        Some(b - 0x30)
    } else if 0x41 <= b && b <= 0x46 {
        Some(b - 0x41 + 10)
    } else if 0x61 <= b && b <= 0x66 {
        Some(b - 0x61 + 10)
    } else {
        None
    }
}

fn hex_pair_of(h1: u8, h2: u8) -> (r: Option<u8>)
    ensures
        r == hex_pair(h1, h2),
{
    match (hex_value_of(h1), hex_value_of(h2)) {
        (Some(a), Some(b)) => Some(16 * a + b),
        (None, Some(b)) => if h1 == 0x2b {
            Some(b)
        } else {
            None
        },
        _ => None,
    }
}

/// Decodes a percent-encoded string byte by byte (see `url_decoded`).
pub fn url_decode(s: &str) -> (r: String)
    ensures
        r@ == url_decoded(s.spec_bytes()),
{
    let b = s.as_bytes();
    let n = b.len();
    let mut out: Vec<char> = Vec::new();
    let mut i: usize = 0;
    proof {
        assert(b@.skip(0) =~= b@);
        assert(out@ + url_decoded(b@) =~= url_decoded(b@));
    }
    while i < n
        invariant
            i <= n,
            n == b.len(),
            b@ == s.spec_bytes(),
            out@ + url_decoded(b@.skip(i as int)) == url_decoded(b@),
        decreases n - i,
    {
        let x = b[i];
        let ghost t = b@.skip(i as int);
        if x == 0x25 {
            let h1: u8 = if i + 1 < n {
                b[i + 1]
            } else {
                0x30
            };
            let h2: u8 = if n - i > 2 {
                b[i + 2]
            } else {
                0x30
            };
            let next = if n - i > 3 {
                i + 3
            } else {
                n
            };
            proof {
                assert(t.skip(next - i) =~= b@.skip(next as int));
            }
            match hex_pair_of(h1, h2) {
                Some(v) => {
                    out.push(v as char);
                    proof {
                        assert(out@ + url_decoded(b@.skip(next as int)) =~= out@.drop_last() + (
                        seq![v as char] + url_decoded(t.skip(next - i))));
                    }
                },
                None => {},
            }
            i = next;
        } else {
            proof {
                assert(t.drop_first() =~= b@.skip(i + 1));
            }
            if x == 0x2b {
                out.push(' ');
                proof {
                    assert(out@ + url_decoded(b@.skip(i + 1)) =~= out@.drop_last() + (seq![' ']
                        + url_decoded(t.drop_first())));
                }
            } else {
                out.push(x as char);
                proof {
                    assert(out@ + url_decoded(b@.skip(i + 1)) =~= out@.drop_last() + (seq![
                        x as char,
                    ] + url_decoded(t.drop_first())));
                }
            }
            i += 1;
        }
    }
    proof {
        assert(b@.skip(n as int) =~= Seq::<u8>::empty());
        assert(out@ + Seq::<char>::empty() =~= out@);
    }
    string_of(&out)
}

// ---------------------------------------------------------------------------
// The redirect request
// ---------------------------------------------------------------------------

/// Outcome of reading the browser's redirect request.
pub enum CallbackResult {
    /// The authorization code, decoded.
    Code(String),
    /// `error: error_description` as sent by the provider.
    Error(String),
    /// A request without a code or an error (a favicon, for instance).
    Ignore,
}

/// The view of a `CallbackResult`.
pub enum CallbackOutcome {
    Code(Seq<char>),
    Error(Seq<char>),
    Ignore,
}

impl View for CallbackResult {
    type V = CallbackOutcome;

    open spec fn view(&self) -> CallbackOutcome {
        match self {
            CallbackResult::Code(c) => CallbackOutcome::Code(c@),
            CallbackResult::Error(e) => CallbackOutcome::Error(e@),
            CallbackResult::Ignore => CallbackOutcome::Ignore,
        }
    }
}

/// The second white-space separated word of `s` (`split_whitespace().nth(1)`).
pub open spec fn second_word(s: Seq<char>) -> Option<Seq<char>> {
    let a = s.skip(lead_len(s, ws()) as int);
    let n1 = lead_len(a, non_ws());
    let b = a.skip(n1 as int);
    let c = b.skip(lead_len(b, ws()) as int);
    let n2 = lead_len(c, non_ws());
    if n1 == 0 || n2 == 0 {
        None
    } else {
        Some(c.take(n2 as int))
    }
}

/// The query string of the request line: the part of the request target
/// between its first `?` and the next one.
pub open spec fn request_query(req: Seq<char>) -> Option<Seq<char>> {
    match second_word(req) {
        None => None,
        Some(path) => {
            let parts = split(path, '?');
            if parts.len() >= 2 {
                Some(parts[1])
            } else {
                None
            }
        },
    }
}

/// Name of a `name=value` parameter (the whole piece when it has no `=`).
pub open spec fn param_name(p: Seq<char>) -> Seq<char> {
    let i = find(p, '=');
    if i < 0 {
        p
    } else {
        p.take(i)
    }
}

/// Value of a `name=value` parameter (empty when it has no `=`).
pub open spec fn param_value(p: Seq<char>) -> Seq<char> {
    let i = find(p, '=');
    if i < 0 {
        Seq::empty()
    } else {
        p.skip(i + 1)
    }
}

/// The value of the last piece named `name`: later parameters override
/// earlier ones.
pub open spec fn last_param(pieces: Seq<Seq<char>>, name: Seq<char>) -> Option<Seq<char>>
    decreases pieces.len(),
{
    if pieces.len() == 0 {
        None
    } else if param_name(pieces.last()) == name {
        Some(param_value(pieces.last()))
    } else {
        last_param(pieces.drop_last(), name)
    }
}

/// The raw value of parameter `name` in the query string `q`.
pub open spec fn query_param(q: Seq<char>, name: Seq<char>) -> Option<Seq<char>> {
    last_param(split(q, '&'), name)
}

pub open spec fn plus_to_space(s: Seq<char>) -> Seq<char> {
    s.map_values(|c: char| if c == '+' { ' ' } else { c })
}

/// `url_decode` of a parameter value.
pub open spec fn decoded(v: Seq<char>) -> Seq<char> {
    url_decoded(encode_utf8(v))
}

/// What `parse_callback` makes of a request.
pub open spec fn callback_outcome(req: Seq<char>) -> CallbackOutcome {
    match request_query(req) {
        None => CallbackOutcome::Ignore,
        Some(q) => match query_param(q, seq!['c', 'o', 'd', 'e']) {
            Some(code) => CallbackOutcome::Code(decoded(code)),
            None => match query_param(q, seq!['e', 'r', 'r', 'o', 'r']) {
                Some(e) => CallbackOutcome::Error(
                    e + seq![':', ' '] + match query_param(
                        q,
                        seq!['e', 'r', 'r', 'o', 'r', '_', 'd', 'e', 's', 'c', 'r', 'i', 'p', 't', 'i', 'o', 'n'],
                    ) {
                        Some(d) => plus_to_space(decoded(d)),
                        None => Seq::empty(),
                    },
                ),
                None => CallbackOutcome::Ignore,
            },
        },
    }
}

pub open spec fn opt_chars(o: Option<Vec<char>>) -> Option<Seq<char>> {
    match o {
        Some(v) => Some(v@),
        None => None,
    }
}

/// Splits `name=value` at its first `=`.
fn split_param(p: &Vec<char>) -> (r: (Vec<char>, Vec<char>))
    ensures
        r.0@ == param_name(p@),
        r.1@ == param_value(p@),
{
    let e = find_from(p, 0, '=');
    proof {
        lemma_find(p@, '=', e as int);
    }
    let name = slice_of(p, 0, e);
    let value = if e < p.len() {
        slice_of(p, e + 1, p.len())
    } else {
        Vec::new()
    };
    proof {
        assert(p@.subrange(0, e as int) =~= (if e == p.len() {
            p@
        } else {
            p@.take(e as int)
        }));
        if e < p.len() {
            assert(p@.subrange(e + 1, p.len() as int) =~= p@.skip(e + 1));
        } else {
            assert(value@ =~= Seq::<char>::empty());
        }
    }
    (name, value)
}

/// The value of parameter `name` in the query string `q`, if any.
fn find_param(q: &Vec<char>, name: &Vec<char>) -> (r: Option<Vec<char>>)
    ensures
        opt_chars(r) == query_param(q@, name@),
{
    let mut found: Option<Vec<char>> = None;
    let mut pos: usize = 0;
    let mut more = true;
    let ghost mut done: Seq<Seq<char>> = Seq::empty();
    proof {
        assert(q@.skip(0) =~= q@);
        assert(done + split(q@, '&') =~= split(q@, '&'));
    }
    while more
        invariant
            pos <= q.len(),
            more ==> split(q@, '&') == done + split(q@.skip(pos as int), '&'),
            !more ==> split(q@, '&') == done,
            opt_chars(found) == last_param(done, name@),
        decreases q.len() - pos + (if more {
            1int
        } else {
            0int
        }),
    {
        let j = find_from(q, pos, '&');
        let piece = slice_of(q, pos, j);
        let ghost rest = q@.skip(pos as int);
        proof {
            assert(piece@ =~= rest.take(j - pos));
            assert(done.push(piece@).drop_last() =~= done);
        }
        let (key, value) = split_param(&piece);
        if same_chars(&key, name) {
            found = Some(value);
        }
        proof {
            done = done.push(piece@);
        }
        if j == q.len() {
            proof {
                assert(rest.take(j - pos) =~= rest);
                lemma_split_none(rest, '&');
                assert(split(q@, '&') =~= done);
            }
            more = false;
        } else {
            proof {
                lemma_split_first(rest, '&', j - pos);
                assert(rest.skip(j - pos + 1) =~= q@.skip(j + 1));
                assert(split(q@, '&') =~= done + split(q@.skip(j + 1), '&'));
            }
            pos = j + 1;
        }
    }
    found
}

/// Whether two character vectors are equal.
pub fn same_chars(a: &Vec<char>, b: &Vec<char>) -> (r: bool)
    ensures
        r == (a@ == b@),
{
    if a.len() != b.len() {
        return false;
    }
    let mut i: usize = 0;
    while i < a.len()
        invariant
            i <= a.len(),
            a.len() == b.len(),
            forall|j: int| 0 <= j < i ==> a@[j] == b@[j],
        decreases a.len() - i,
    {
        if a[i] != b[i] {
            return false;
        }
        i += 1;
    }
    assert(a@ =~= b@);
    true
}

/// The query string of a request, if its target has one.
fn query_of(v: &Vec<char>) -> (r: Option<Vec<char>>)
    ensures
        opt_chars(r) == request_query(v@),
{
    let ghost s = v@;
    let i = skip_ws(v, 0);
    let j = skip_non_ws(v, i);
    let k = skip_ws(v, j);
    let l = skip_non_ws(v, k);
    proof {
        lemma_lead_len(s, ws(), i as int);
        let a = s.skip(i as int);
        lemma_lead_len(a, non_ws(), j - i);
        let b = a.skip(j - i);
        assert(b =~= s.skip(j as int));
        lemma_lead_len(b, ws(), k - j);
        let c = b.skip(k - j);
        assert(c =~= s.skip(k as int));
        lemma_lead_len(c, non_ws(), l - k);
        assert(c.take(l - k) =~= s.subrange(k as int, l as int));
    }
    if j == i || l == k {
        return None;
    }
    let path = slice_of(v, k, l);
    let q1 = find_from(&path, 0, '?');
    if q1 == path.len() {
        proof {
            lemma_split_none(path@, '?');
        }
        return None;
    }
    let q2 = find_from(&path, q1 + 1, '?');
    let query = slice_of(&path, q1 + 1, q2);
    proof {
        lemma_split_first(path@, '?', q1 as int);
        let rest = path@.skip(q1 + 1);
        if q2 == path.len() {
            lemma_split_none(rest, '?');
            assert(query@ =~= rest);
        } else {
            lemma_split_first(rest, '?', q2 - q1 - 1);
            assert(query@ =~= rest.take(q2 - q1 - 1));
            crate::text::lemma_split_len(rest.skip(q2 - q1), '?');
        }
    }
    Some(query)
}

fn decode_chars(v: &Vec<char>) -> (r: Vec<char>)
    ensures
        r@ == decoded(v@),
{
    let s = string_of(v);
    let d = url_decode(s.as_str());
    chars_of(d.as_str())
}

/// Reads the browser's redirect request: the code it carries, the error it
/// reports, or nothing of interest.
pub fn parse_callback(request: &str) -> (r: CallbackResult)
    ensures
        r@ == callback_outcome(request@),
{
    let v = chars_of(request);
    let q = match query_of(&v) {
        Some(q) => q,
        None => return CallbackResult::Ignore,
    };
    if let Some(code) = find_param(&q, &vec!['c', 'o', 'd', 'e']) {
        let c = decode_chars(&code);
        return CallbackResult::Code(string_of(&c));
    }
    if let Some(error) = find_param(&q, &vec!['e', 'r', 'r', 'o', 'r']) {
        let ghost ev = error@;
        let mut msg = error;
        msg.push(':');
        msg.push(' ');
        assert(msg@ =~= ev + seq![':', ' ']);
        let desc_key = vec![
            'e', 'r', 'r', 'o', 'r', '_', 'd', 'e', 's', 'c', 'r', 'i', 'p', 't', 'i', 'o', 'n',
        ];
        let ghost before = msg@;
        assert(desc_key@ =~= seq![
            'e', 'r', 'r', 'o', 'r', '_', 'd', 'e', 's', 'c', 'r', 'i', 'p', 't', 'i', 'o', 'n',
        ]);
        if let Some(d) = find_param(&q, &desc_key) {
            let dec = decode_chars(&d);
            let mut i: usize = 0;
            while i < dec.len()
                invariant
                    i <= dec.len(),
                    msg@ == before + plus_to_space(dec@.take(i as int)),
                decreases dec.len() - i,
            {
                let c = dec[i];
                msg.push(if c == '+' { ' ' } else { c });
                assert(plus_to_space(dec@.take(i + 1)) =~= plus_to_space(dec@.take(i as int)).push(
                    if c == '+' { ' ' } else { c },
                ));
                i += 1;
            }
            assert(dec@.take(dec.len() as int) =~= dec@);
        } else {
            assert(before + Seq::<char>::empty() =~= before);
        }
        return CallbackResult::Error(string_of(&msg));
    }
    CallbackResult::Ignore
}

// ---------------------------------------------------------------------------
// Replies to the browser
// ---------------------------------------------------------------------------

/// Start of the page sent once the code has arrived, up to the byte 0xE7
/// (`ç` in Latin-1) of "reçue".
pub const SUCCESS_HEAD: &'static str = "HTTP/1.1 200 OK\r\nContent-Type: text/html; charset=utf-8\r\n\r\n<!DOCTYPE html><html><body style='font-family:sans-serif;padding:2em;text-align:center'><h2>Autorisation re";

/// End of the page sent once the code has arrived, after the byte 0xE7.
pub const SUCCESS_TAIL: &'static str = "ue !</h2><p>Tu peux fermer cet onglet.</p></body></html>";

/// Start of the page that reports an OAuth error, before the message.
pub const ERROR_HEAD: &'static str = "HTTP/1.1 400 Bad Request\r\nContent-Type: text/html\r\n\r\n<h2>Erreur OAuth</h2><pre>";

/// End of the page that reports an OAuth error, after the message.
pub const ERROR_TAIL: &'static str = "</pre>";

/// Empty reply to a request that carries neither a code nor an error.
pub const EMPTY_OK: &'static str = "HTTP/1.1 200 OK\r\nContent-Length: 0\r\n\r\n";

pub open spec fn success_bytes() -> Seq<u8> {
    encode_utf8(SUCCESS_HEAD@) + seq![0xE7u8] + encode_utf8(SUCCESS_TAIL@)
}

/// The HTTP response sent once the code has arrived.
pub fn success_page() -> (r: Vec<u8>)
    ensures
        r@ == success_bytes(),
{
    let mut v = SUCCESS_HEAD.as_bytes_vec();
    v.push(0xE7u8);
    let mut t = SUCCESS_TAIL.as_bytes_vec();
    v.append(&mut t);
    v
}

/// The HTTP response that shows an OAuth error message.
pub fn error_page(msg: &str) -> (r: String)
    ensures
        r@ == ERROR_HEAD@ + msg@ + ERROR_TAIL@,
{
    let mut s = String::from_str(ERROR_HEAD);
    s.append(msg);
    s.append(ERROR_TAIL);
    s
}

/// The bytes written back to the browser for a parsed request.
pub fn callback_reply(result: &CallbackResult) -> (r: Vec<u8>)
    ensures
        r@ == match result@ {
            CallbackOutcome::Code(_) => success_bytes(),
            CallbackOutcome::Error(m) => encode_utf8(ERROR_HEAD@ + m + ERROR_TAIL@),
            CallbackOutcome::Ignore => encode_utf8(EMPTY_OK@),
        },
{
    match result {
        CallbackResult::Code(_) => success_page(),
        CallbackResult::Error(msg) => {
            let page = error_page(msg.as_str());
            page.as_str().as_bytes_vec()
        },
        CallbackResult::Ignore => EMPTY_OK.as_bytes_vec(),
    }
}

// ---------------------------------------------------------------------------
// Token lifetimes
// ---------------------------------------------------------------------------

/// A stored access token is used as is while it has more than five minutes
/// left.
pub fn token_is_fresh(expires_at: u64, now: u64) -> (r: bool)
    requires
        now + 300 <= u64::MAX,
    ensures
        r == (expires_at > now + 300),
{
    expires_at > now + 300
}

/// Expiry time of a token issued at `now` that lives `expires_in` seconds
/// (an hour when the provider does not say).
pub fn expiry_time(now: u64, expires_in: Option<u64>) -> (r: u64)
    requires
        now + (match expires_in {
            Some(e) => e,
            None => 3600,
        }) <= u64::MAX,
    ensures
        r == now + match expires_in {
            Some(e) => e,
            None => 3600,
        },
{
    match expires_in {
        Some(e) => now + e,
        None => now + 3600,
    }
}

/// What to do at start-up with the tokens found on disk.
pub enum TokenStep {
    /// The stored access token is still good.
    Use(String),
    /// Ask for a new access token with this refresh token.
    Refresh(String),
    /// Go through the consent page again.
    Authorize,
}

pub open spec fn expiry_of(now: u64, expires_in: Option<u64>) -> int {
    now + match expires_in {
        Some(e) => e,
        None => 3600,
    }
}

// ---------------------------------------------------------------------------
// Encoding followed by decoding
// ---------------------------------------------------------------------------

pub open spec fn ascii_bytes(cs: Seq<char>) -> Seq<u8> {
    cs.map_values(|c: char| c as u8)
}

proof fn lemma_encode_byte_ascii(x: u8)
    ensures
        is_ascii_chars(encode_byte(x)),
        encode_byte(x).len() > 0,
{
}

proof fn lemma_url_encoded_ascii(b: Seq<u8>)
    ensures
        is_ascii_chars(url_encoded(b)),
    decreases b.len(),
{
    if b.len() > 0 {
        lemma_encode_byte_ascii(b[0]);
        lemma_url_encoded_ascii(b.drop_first());
        let x = encode_byte(b[0]);
        let y = url_encoded(b.drop_first());
        assert forall|i| 0 <= i < (x + y).len() implies '\0' <= #[trigger] (x + y)[i] <= '\u{7f}' by {
            if i < x.len() {
                assert((x + y)[i] == x[i]);
            } else {
                assert((x + y)[i] == y[i - x.len()]);
            }
        }
    }
}

proof fn lemma_hex_roundtrip(d: nat)
    requires
        d < 16,
    ensures
        hex_value(hex_upper(d) as u8) == Some(d),
{
}

proof fn lemma_unit_decodes(x: u8, r: Seq<u8>)
    ensures
        url_decoded(ascii_bytes(encode_byte(x)) + r) == seq![x as char] + url_decoded(r),
{
    let u = ascii_bytes(encode_byte(x));
    let w = u + r;
    if is_unreserved(x) {
        assert(u =~= seq![x]);
        assert(w.drop_first() =~= r);
    } else if x == 0x20 {
        assert(u =~= seq![0x25u8, 0x32u8, 0x30u8]);
        assert(w.skip(3) =~= r);
        assert(hex_pair(0x32, 0x30) == Some(0x20u8));
    } else {
        let hi = (x / 16) as nat;
        let lo = (x % 16) as nat;
        lemma_hex_roundtrip(hi);
        lemma_hex_roundtrip(lo);
        assert(u =~= seq![0x25u8, hex_upper(hi) as u8, hex_upper(lo) as u8]);
        assert(w.skip(3) =~= r);
        assert(hex_pair(hex_upper(hi) as u8, hex_upper(lo) as u8) == Some(x));
    }
}

proof fn lemma_decode_encoded(b: Seq<u8>)
    ensures
        url_decoded(ascii_bytes(url_encoded(b))) == latin1(b),
    decreases b.len(),
{
    if b.len() == 0 {
        assert(ascii_bytes(url_encoded(b)) =~= Seq::<u8>::empty());
        assert(latin1(b) =~= Seq::<char>::empty());
    } else {
        let x = encode_byte(b[0]);
        let y = url_encoded(b.drop_first());
        assert(ascii_bytes(x + y) =~= ascii_bytes(x) + ascii_bytes(y));
        lemma_unit_decodes(b[0], ascii_bytes(y));
        lemma_decode_encoded(b.drop_first());
        assert(latin1(b) =~= seq![b[0] as char] + latin1(b.drop_first()));
    }
}

proof fn lemma_latin1_ascii(s: Seq<char>)
    requires
        is_ascii_chars(s),
    ensures
        latin1(encode_utf8(s)) == s,
{
    is_ascii_chars_encode_utf8(s);
    assert forall|i| 0 <= i < s.len() implies #[trigger] latin1(encode_utf8(s))[i] == s[i] by {
        assert(s[i] as u8 == encode_utf8(s)[i]);
        assert('\0' <= s[i] <= '\u{7f}');
    }
    assert(latin1(encode_utf8(s)) =~= s);
}

/// Decoding undoes encoding byte for byte: `url_decode(url_encode(s))` is the
/// UTF-8 bytes of `s`, each read as one character; for an ASCII `s` it is `s`.
pub proof fn url_decode_inverts_url_encode(s: Seq<char>)
    ensures
        url_decoded(encode_utf8(url_encoded(encode_utf8(s)))) == latin1(encode_utf8(s)),
        is_ascii_chars(s) ==> url_decoded(encode_utf8(url_encoded(encode_utf8(s)))) == s,
{
    let e = url_encoded(encode_utf8(s));
    lemma_url_encoded_ascii(encode_utf8(s));
    is_ascii_chars_encode_utf8(e);
    assert(encode_utf8(e) =~= ascii_bytes(e));
    lemma_decode_encoded(encode_utf8(s));
    if is_ascii_chars(s) {
        lemma_latin1_ascii(s);
    }
}

/// Characters that `url_encode` writes: unreserved ASCII characters and `%`.
pub open spec fn query_safe(c: char) -> bool {
    let u = c as u32;
    u == 0x25 || (0x30 <= u && u <= 0x39) || (0x41 <= u && u <= 0x5a) || (0x61 <= u && u <= 0x7a)
        || u == 0x2d || u == 0x5f || u == 0x2e || u == 0x7e
}

proof fn lemma_encode_byte_safe(x: u8)
    ensures
        forall|i: int| 0 <= i < encode_byte(x).len() ==> query_safe(#[trigger] encode_byte(x)[i]),
{
    if is_unreserved(x) {
        assert((x as char) as u32 == x as u32);
    } else if x != 0x20 {
        let hi = (x / 16) as nat;
        let lo = (x % 16) as nat;
        assert(query_safe(hex_upper(hi)));
        assert(query_safe(hex_upper(lo)));
    }
}

/// What `url_encode` writes is made of unreserved characters and `%` only:
/// no white space, `?`, `&`, `=`, `+` or `#`.
pub proof fn url_encode_is_query_safe(b: Seq<u8>)
    ensures
        forall|i: int| 0 <= i < url_encoded(b).len() ==> query_safe(#[trigger] url_encoded(b)[i]),
    decreases b.len(),
{
    if b.len() > 0 {
        url_encode_is_query_safe(b.drop_first());
        lemma_encode_byte_safe(b[0]);
        let x = encode_byte(b[0]);
        let y = url_encoded(b.drop_first());
        assert forall|i: int| 0 <= i < (x + y).len() implies query_safe(#[trigger] (x + y)[i]) by {
            if i < x.len() {
                assert((x + y)[i] == x[i]);
            } else {
                assert((x + y)[i] == y[i - x.len()]);
            }
        }
    }
}

proof fn lemma_second_word(method: Seq<char>, w: Seq<char>, tail: Seq<char>)
    requires
        method.len() > 0,
        w.len() > 0,
        forall|i: int| 0 <= i < method.len() ==> !is_ws(#[trigger] method[i]),
        forall|i: int| 0 <= i < w.len() ==> !is_ws(#[trigger] w[i]),
        tail.len() > 0,
        tail[0] == ' ',
    ensures
        second_word(method + seq![' '] + w + tail) == Some(w),
{
    let req = method + seq![' '] + w + tail;
    let m = method.len() as int;
    assert(req[0] == method[0]);
    lemma_lead_len(req, ws(), 0);
    assert(req.skip(0) =~= req);
    assert forall|j: int| 0 <= j < m implies #[trigger] non_ws()(req[j]) by {
        assert(req[j] == method[j]);
    }
    assert(req[m] == ' ');
    lemma_lead_len(req, non_ws(), m);
    let b = req.skip(m);
    assert(b[0] == ' ');
    assert(b[1] == w[0]);
    lemma_lead_len(b, ws(), 1);
    let c = b.skip(1);
    assert(c =~= w + tail);
    assert forall|j: int| 0 <= j < w.len() implies #[trigger] non_ws()(c[j]) by {
        assert(c[j] == w[j]);
    }
    assert(c[w.len() as int] == ' ');
    lemma_lead_len(c, non_ws(), w.len() as int);
    assert(c.take(w.len() as int) =~= w);
}

proof fn lemma_query_part(path: Seq<char>, q: Seq<char>)
    requires
        forall|i: int| 0 <= i < path.len() ==> #[trigger] path[i] != '?',
        forall|i: int| 0 <= i < q.len() ==> #[trigger] q[i] != '?',
    ensures
        split(path + seq!['?'] + q, '?').len() >= 2,
        split(path + seq!['?'] + q, '?')[1] == q,
{
    let w = path + seq!['?'] + q;
    assert(w[path.len() as int] == '?');
    assert forall|j: int| 0 <= j < path.len() implies w[j] != '?' by {
        assert(w[j] == path[j]);
    }
    lemma_split_first(w, '?', path.len() as int);
    assert(w.skip(path.len() as int + 1) =~= q);
    lemma_split_none(q, '?');
}

proof fn lemma_code_param(enc: Seq<char>)
    requires
        forall|i: int| 0 <= i < enc.len() ==> query_safe(#[trigger] enc[i]),
    ensures
        query_param(seq!['c', 'o', 'd', 'e', '='] + enc, seq!['c', 'o', 'd', 'e']) == Some(enc),
{
    let q = seq!['c', 'o', 'd', 'e', '='] + enc;
    assert forall|j: int| 0 <= j < q.len() implies #[trigger] q[j] != '&' by {
        if j >= 5 {
            assert(q[j] == enc[j - 5]);
        }
    }
    lemma_split_none(q, '&');
    lemma_find(q, '=', 4);
    assert(q.take(4) =~= seq!['c', 'o', 'd', 'e']);
    assert(q.skip(5) =~= enc);
}

/// The redirect that carries a code which the provider percent-encoded is
/// read back as that code: for any request line `METHOD path?code=ENC rest`,
/// where `ENC` is `url_encode(code)`, `parse_callback` gives the bytes of
/// `code` (the code itself when it is ASCII).
pub proof fn callback_reads_back_encoded_code(
    method: Seq<char>,
    path: Seq<char>,
    code: Seq<char>,
    rest: Seq<char>,
)
    requires
        method.len() > 0,
        forall|i: int| 0 <= i < method.len() ==> !is_ws(#[trigger] method[i]),
        forall|i: int| 0 <= i < path.len() ==> !is_ws(#[trigger] path[i]) && path[i] != '?',
    ensures
        ({
            let req = method + seq![' '] + path + seq!['?', 'c', 'o', 'd', 'e', '='] + url_encoded(
                encode_utf8(code),
            ) + seq![' '] + rest;
            &&& callback_outcome(req) == CallbackOutcome::Code(latin1(encode_utf8(code)))
            &&& is_ascii_chars(code) ==> callback_outcome(req) == CallbackOutcome::Code(code)
        }),
{
    let enc = url_encoded(encode_utf8(code));
    url_encode_is_query_safe(encode_utf8(code));
    let q = seq!['c', 'o', 'd', 'e', '='] + enc;
    let w = path + seq!['?'] + q;
    let tail = seq![' '] + rest;
    assert(method + seq![' '] + path + seq!['?', 'c', 'o', 'd', 'e', '='] + enc + seq![' '] + rest
        =~= method + seq![' '] + w + tail);
    assert forall|j: int| 0 <= j < q.len() implies !is_ws(#[trigger] q[j]) && q[j] != '?' by {
        if j >= 5 {
            assert(q[j] == enc[j - 5]);
        }
    }
    assert forall|j: int| 0 <= j < w.len() implies !is_ws(#[trigger] w[j]) by {
        if j < path.len() {
            assert(w[j] == path[j]);
        } else if j > path.len() {
            assert(w[j] == q[j - path.len() - 1]);
        }
    }
    lemma_second_word(method, w, tail);
    lemma_query_part(path, q);
    lemma_code_param(enc);
    url_decode_inverts_url_encode(code);
}

/// The lower-case hexadecimal digit of `d` (below 16).
pub open spec fn lower_hex_char(d: nat) -> char {
    if d < 10 {
        (48 + d) as char
    } else {
        (87 + d) as char
    }
}

/// The last `n` hexadecimal digits of `h`, most significant first, padded
/// with zeros.
pub open spec fn lower_hex(h: nat, n: nat) -> Seq<char>
    decreases n,
{
    if n == 0 {
        Seq::empty()
    } else {
        lower_hex(h / 16, (n - 1) as nat).push(lower_hex_char(h % 16))
    }
}

fn push_lower_hex(out: &mut Vec<char>, h: u64, n: u32)
    ensures
        final(out)@ == old(out)@ + lower_hex(h as nat, n as nat),
    decreases n,
{
    if n > 0 {
        push_lower_hex(out, h / 16, n - 1);
        let d: u8 = (h % 16) as u8;
        let c: char = if d < 10 {
            (48u8 + d) as char
        } else {
            (87u8 + d) as char
        };
        out.push(c);
    }
}

/// The `state` value of an authorization request, from a 64-bit hash: its 16
/// lower-case hexadecimal digits, zero-padded.
pub fn state_token(hash: u64) -> (r: String)
    ensures
        r@ == lower_hex(hash as nat, 16),
{
    let mut v: Vec<char> = Vec::new();
    push_lower_hex(&mut v, hash, 16);
    assert(v@ =~= lower_hex(hash as nat, 16));
    string_of(&v)
}

} // verus!
