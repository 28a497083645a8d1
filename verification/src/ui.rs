//! What the screen shows, as text: amounts, dates, truncated cells, the
//! colour class of a status, the reminder and footer labels. Drawing is left
//! to the terminal front end.
use crate::text::{
    chars_of, dec, dec2, dec_int, push_dec, push_dec2, push_dec_i64, push_str, same_str,
    string_of,
};
use vstd::prelude::*;
use vstd::string::StringSliceAdditionalSpecFns;
use vstd::utf8::{
    encode_utf8, encode_utf8_decode_utf8, encode_utf8_valid_utf8, is_char_boundary,
    is_char_boundary_iff_not_is_continuation_byte, is_char_boundary_start_end_of_seq,
    is_continuation_byte, valid_utf8, valid_utf8_split,
};

verus! {

// ---------------------------------------------------------------------------
// Numbers
// ---------------------------------------------------------------------------

/// The first `k` characters of `s`, with a space before each character that
/// has a positive multiple of three characters after it.
pub open spec fn grouped(s: Seq<char>, k: nat) -> Seq<char>
    decreases k,
{
    if k == 0 {
        Seq::empty()
    } else {
        let prev = grouped(s, (k - 1) as nat);
        let i = k - 1;
        if i > 0 && (s.len() - i) % 3 == 0 {
            prev + seq![' ', s[i]]
        } else {
            prev.push(s[i])
        }
    }
}

/// `n` in decimal with its digits grouped by three.
pub open spec fn thousands(n: int) -> Seq<char> {
    grouped(dec_int(n), dec_int(n).len())
}

/// `n` in decimal with its digits grouped by three, separated by spaces.
pub fn format_thousands(n: i64) -> (r: String)
    ensures
        r@ == thousands(n as int),
{
    let mut digits: Vec<char> = Vec::new();
    push_dec_i64(&mut digits, n);
    assert(digits@ =~= dec_int(n as int));
    let len = digits.len();
    let mut out: Vec<char> = Vec::new();
    let mut i: usize = 0;
    while i < len
        invariant
            i <= len,
            len == digits.len(),
            out@ == grouped(digits@, i as nat),
        decreases len - i,
    {
        if i > 0 && (len - i) % 3 == 0 {
            out.push(' ');
        }
        out.push(digits[i]);
        proof {
            if i > 0 && (len - i) % 3 == 0 {
                assert(out@ =~= grouped(digits@, i as nat) + seq![' ', digits@[i as int]]);
            }
        }
        i += 1;
    }
    string_of(&out)
}

/// `-1 234,56 EUR`: the sign, the whole units grouped by three, a comma, two
/// digits of cents, a space and the currency.
pub open spec fn amount_text(cents: int, currency: Seq<char>) -> Seq<char> {
    let a = if cents < 0 {
        -cents
    } else {
        cents
    };
    (if cents < 0 {
        seq!['-']
    } else {
        Seq::empty()
    }) + thousands(a / 100) + seq![','] + dec2((a % 100) as nat) + seq![' '] + currency
}

/// An amount in cents, for display. `i64::MIN` has no absolute value and is
/// not accepted.
pub fn format_amount(cents: i64, currency: &str) -> (r: String)
    requires
        cents != i64::MIN,
    ensures
        r@ == amount_text(cents as int, currency@),
{
    let abs: i64 = if cents < 0 {
        -cents
    } else {
        cents
    };
    let mut out: Vec<char> = Vec::new();
    if cents < 0 {
        out.push('-');
    }
    let units = format_thousands(abs / 100);
    push_str(&mut out, units.as_str());
    out.push(',');
    push_dec2(&mut out, (abs % 100) as u64);
    out.push(' ');
    push_str(&mut out, currency);
    assert(out@ =~= amount_text(cents as int, currency@));
    string_of(&out)
}

// ---------------------------------------------------------------------------
// Cells
// ---------------------------------------------------------------------------

/// At most `max` characters: a longer text keeps `max - 1` characters and
/// ends with `…`.
pub open spec fn truncated(s: Seq<char>, max: nat) -> Seq<char> {
    if s.len() <= max {
        s
    } else {
        s.take(max - 1).push('…')
    }
}

/// Shortens `s` to `max` characters. A non-empty text cannot be cut to zero
/// characters.
pub fn truncate(s: &str, max: usize) -> (r: String)
    requires
        max == 0 ==> s@.len() == 0,
    ensures
        r@ == truncated(s@, max as nat),
{
    let v = chars_of(s);
    if v.len() <= max {
        return String::from_str(s);
    }
    let mut out = crate::text::slice_of(&v, 0, max - 1);
    out.push('…');
    assert(out@ =~= s@.take(max - 1).push('…'));
    string_of(&out)
}

/// `YYYY-MM-DD…` shown as `DD/MM/YY`: the first ten bytes split at `-` into
/// exactly three pieces are rearranged, the year losing its first two bytes;
/// any other text is shown as it is.
pub open spec fn date_bytes(b: Seq<u8>) -> Seq<u8> {
    if b.len() >= 10 {
        let p = crate::text::split(b.take(10), 0x2du8);
        if p.len() == 3 {
            p[2] + seq![0x2fu8] + p[1] + seq![0x2fu8] + p[0].skip(2)
        } else {
            b
        }
    } else {
        b
    }
}

/// The byte positions that `format_date` slices at fall on character
/// boundaries (and the year piece has two bytes to drop).
pub open spec fn date_sliceable(b: Seq<u8>) -> bool {
    b.len() >= 10 ==> {
        &&& is_char_boundary(b, 10)
        &&& crate::text::split(b.take(10), 0x2du8).len() == 3 ==> {
            &&& crate::text::split(b.take(10), 0x2du8)[0].len() >= 2
            &&& is_char_boundary(b, 2)
        }
    }
}

proof fn lemma_encode_concat(a: Seq<char>, b: Seq<char>)
    ensures
        encode_utf8(a + b) == encode_utf8(a) + encode_utf8(b),
    decreases a.len(),
{
    if a.len() == 0 {
        assert(a + b =~= b);
    } else {
        lemma_encode_concat(a.drop_first(), b);
        assert((a + b).drop_first() =~= a.drop_first() + b);
        assert((a + b)[0] == a[0]);
    }
}

/// Position of the first `-` in `b[from..]`, or `b.len()`.
fn find_dash(b: &[u8], from: usize) -> (r: usize)
    requires
        from <= b@.len(),
    ensures
        from <= r <= b@.len(),
        forall|j: int| from <= j < r ==> b@[j] != 0x2du8,
        r == b@.len() || b@[r as int] == 0x2du8,
{
    let mut i = from;
    while i < b.len() && b[i] != 0x2d
        invariant
            from <= i <= b@.len(),
            forall|j: int| from <= j < i ==> b@[j] != 0x2du8,
        decreases b@.len() - i,
    {
        i += 1;
    }
    i
}

proof fn lemma_dash_boundary(bytes: Seq<u8>, i: int)
    requires
        valid_utf8(bytes),
        0 <= i < bytes.len(),
        bytes[i] == 0x2du8,
    ensures
        is_char_boundary(bytes, i),
        i + 1 == bytes.len() || is_char_boundary(bytes, i + 1),
{
    is_char_boundary_iff_not_is_continuation_byte(bytes, i);
    if i + 1 < bytes.len() {
        assert(!is_continuation_byte(bytes[i + 1])) by {
            valid_utf8_split(bytes, i);
            let rest = bytes.subrange(i, bytes.len() as int);
            assert(rest[0] == 0x2du8);
            reveal_with_fuel(valid_utf8, 2);
            assert(rest.drop_first()[0] == bytes[i + 1]);
            lemma_valid_after_ascii(rest);
        }
        is_char_boundary_iff_not_is_continuation_byte(bytes, i + 1);
    }
}

proof fn lemma_valid_after_ascii(rest: Seq<u8>)
    requires
        valid_utf8(rest),
        rest.len() >= 2,
        rest[0] == 0x2du8,
    ensures
        !is_continuation_byte(rest[1]),
{
    reveal_with_fuel(valid_utf8, 2);
    let tail = rest.subrange(1, rest.len() as int);
    assert(valid_utf8(tail));
    is_char_boundary_start_end_of_seq(tail);
    is_char_boundary_iff_not_is_continuation_byte(tail, 0);
    assert(tail[0] == rest[1]);
}

/// Splits `s` around the `-` at byte `at`.
fn split_at_dash<'a>(s: &'a str, at: usize) -> (r: (&'a str, &'a str))
    requires
        at < s.spec_bytes().len(),
        s.spec_bytes()[at as int] == 0x2du8,
    ensures
        r.0.spec_bytes() == s.spec_bytes().take(at as int),
        r.1.spec_bytes() == s.spec_bytes().skip(at + 1),
{
    let ghost sb = s.spec_bytes();
    proof {
        encode_utf8_valid_utf8(s@);
        lemma_dash_boundary(sb, at as int);
    }
    let (x, rest) = s.split_at(at);
    proof {
        let rb = rest.spec_bytes();
        assert(rb =~= sb.skip(at as int));
        encode_utf8_valid_utf8(rest@);
        is_char_boundary_start_end_of_seq(rb);
        if rb.len() > 1 {
            is_char_boundary_iff_not_is_continuation_byte(sb, at + 1);
            assert(rb[1] == sb[at + 1]);
            is_char_boundary_iff_not_is_continuation_byte(rb, 1);
        }
    }
    let (_, y) = rest.split_at(1);
    proof {
        assert(y.spec_bytes() =~= sb.skip(at + 1));
    }
    (x, y)
}

/// The bytes of `s` from byte 2 on; byte 2 must start a character.
fn skip_two<'a>(s: &'a str) -> (r: &'a str)
    requires
        s.spec_bytes().len() >= 2,
        s.spec_bytes().len() == 2 || !is_continuation_byte(s.spec_bytes()[2]),
    ensures
        r.spec_bytes() == s.spec_bytes().skip(2),
{
    proof {
        encode_utf8_valid_utf8(s@);
        is_char_boundary_start_end_of_seq(s.spec_bytes());
        if s.spec_bytes().len() > 2 {
            is_char_boundary_iff_not_is_continuation_byte(s.spec_bytes(), 2);
        }
    }
    let (_, y) = s.split_at(2);
    y
}

proof fn lemma_no_dash(b: Seq<u8>, from: int)
    requires
        0 <= from <= b.len(),
        forall|j: int| from <= j < b.len() ==> b[j] != 0x2du8,
    ensures
        crate::text::split(b.skip(from), 0x2du8) == seq![b.skip(from)],
{
    let r = b.skip(from);
    assert forall|j: int| 0 <= j < r.len() implies r[j] != 0x2du8 by {
        assert(r[j] == b[from + j]);
    }
    crate::text::lemma_split_none(r, 0x2du8);
}

proof fn lemma_slash() 
    ensures
        encode_utf8(seq!['/']) == seq![0x2fu8],
{
    let s = seq!['/'];
    assert(vstd::utf8::is_ascii_chars(s));
    vstd::utf8::is_ascii_chars_encode_utf8(s);
    assert(encode_utf8(s) =~= seq![0x2fu8]);
}

fn joined_date(p2: &str, p1: &str, year: &str) -> (r: String)
    ensures
        encode_utf8(r@) == p2.spec_bytes() + seq![0x2fu8] + p1.spec_bytes() + seq![0x2fu8]
            + year.spec_bytes(),
{
    let mut s = String::from_str(p2);
    crate::text::push_char(&mut s, '/');
    s.append(p1);
    crate::text::push_char(&mut s, '/');
    s.append(year);
    proof {
        lemma_slash();
        let sl = seq!['/'];
        assert(s@ =~= p2@ + sl + p1@ + sl + year@);
        lemma_encode_concat(p2@, sl);
        lemma_encode_concat(p2@ + sl, p1@);
        lemma_encode_concat(p2@ + sl + p1@, sl);
        lemma_encode_concat(p2@ + sl + p1@ + sl, year@);
    }
    s
}

/// A date `YYYY-MM-DD` as `DD/MM/YY`; other texts are kept.
pub fn format_date(date: &str) -> (r: String)
    requires
        date_sliceable(date.spec_bytes()),
    ensures
        encode_utf8(r@) == date_bytes(date.spec_bytes()),
{
    let b = date.as_bytes();
    proof {
        encode_utf8_valid_utf8(date@);
        encode_utf8_decode_utf8(date@);
    }
    let n = b.len();
    if n < 10 {
        return String::from_str(date);
    }
    let (head, _) = date.split_at(10);
    let ghost h = head.spec_bytes();
    assert(h =~= b@.take(10));
    let a = find_dash(head.as_bytes(), 0);
    if a == 10 {
        proof {
            crate::text::lemma_split_none(h, 0x2du8);
        }
        return String::from_str(date);
    }
    let (p0, r1) = split_at_dash(head, a);
    proof {
        crate::text::lemma_split_first(h, 0x2du8, a as int);
    }
    let c = find_dash(r1.as_bytes(), 0);
    if c == r1.as_bytes().len() {
        proof {
            lemma_no_dash(r1.spec_bytes(), 0);
            assert(r1.spec_bytes().skip(0) =~= r1.spec_bytes());
        }
        return String::from_str(date);
    }
    let (p1, p2) = split_at_dash(r1, c);
    proof {
        crate::text::lemma_split_first(r1.spec_bytes(), 0x2du8, c as int);
    }
    let e = find_dash(p2.as_bytes(), 0);
    if e < p2.as_bytes().len() {
        proof {
            crate::text::lemma_split_first(p2.spec_bytes(), 0x2du8, e as int);
            crate::text::lemma_split_len(p2.spec_bytes().skip(e + 1), 0x2du8);
        }
        return String::from_str(date);
    }
    proof {
        lemma_no_dash(p2.spec_bytes(), 0);
        assert(p2.spec_bytes().skip(0) =~= p2.spec_bytes());
        let parts = crate::text::split(h, 0x2du8);
        assert(parts =~= seq![p0.spec_bytes(), p1.spec_bytes(), p2.spec_bytes()]);
        assert(p0.spec_bytes() =~= b@.take(a as int));
        is_char_boundary_iff_not_is_continuation_byte(b@, 2);
        if a > 2 {
            assert(p0.spec_bytes()[2] == b@[2]);
        }
    }
    let year = skip_two(p0);
    joined_date(p2, p1, year)
}

// ---------------------------------------------------------------------------
// Colours and labels
// ---------------------------------------------------------------------------

/// The colour class of a piece of text; the front end picks the colour.
#[derive(PartialEq, Eq, Structural, Debug, Clone, Copy)]
pub enum Tone {
    Plain,
    Green,
    Yellow,
    DarkGray,
    Red,
    Blue,
    White,
    Cyan,
}

/// A piece of text with its colour class and weight.
pub struct Span {
    pub text: String,
    pub tone: Tone,
    pub bold: bool,
}

pub open spec fn span_views(v: Seq<Span>) -> Seq<(Seq<char>, Tone, bool)> {
    v.map_values(|x: Span| (x.text@, x.tone, x.bold))
}

/// Colour of a client-invoice status.
pub open spec fn client_tone(s: Seq<char>) -> Tone {
    if s == "Payee"@ || s == "Payée"@ {
        Tone::Green
    } else if s == "Non payee"@ || s == "Non payée"@ {
        Tone::Yellow
    } else if s == "Brouillon"@ {
        Tone::DarkGray
    } else if s == "Annulee"@ || s == "Annulée"@ {
        Tone::Red
    } else {
        Tone::Plain
    }
}

/// Colour of a supplier-invoice status.
pub open spec fn supplier_tone(s: Seq<char>) -> Tone {
    if s == "Payee"@ || s == "Payée"@ {
        Tone::Green
    } else if s == "Approuvee"@ || s == "Approuvée"@ {
        Tone::Blue
    } else if s == "En attente"@ {
        Tone::Yellow
    } else if s == "A valider"@ || s == "À valider"@ {
        Tone::Yellow
    } else if s == "Brouillon"@ {
        Tone::DarkGray
    } else if s == "Annulee"@ || s == "Annulée"@ {
        Tone::Red
    } else {
        Tone::Plain
    }
}

/// Colour of the kind of a mail invoice.
pub open spec fn kind_tone(k: Seq<char>) -> Tone {
    if crate::text::starts_with(k, "PDF"@) {
        Tone::Green
    } else if k == "Lien"@ {
        Tone::Yellow
    } else {
        Tone::DarkGray
    }
}

/// Colour of the amount of a mail invoice: dim when there is none.
pub open spec fn amount_tone(a: Seq<char>) -> Tone {
    if a == crate::gmail::api::dash() {
        Tone::DarkGray
    } else {
        Tone::White
    }
}

pub fn client_status_tone(s: &str) -> (r: Tone)
    ensures
        r == client_tone(s@),
{
    if same_str(s, "Payee") || same_str(s, "Payée") {
        Tone::Green
    } else if same_str(s, "Non payee") || same_str(s, "Non payée") {
        Tone::Yellow
    } else if same_str(s, "Brouillon") {
        Tone::DarkGray
    } else if same_str(s, "Annulee") || same_str(s, "Annulée") {
        Tone::Red
    } else {
        Tone::Plain
    }
}

pub fn supplier_status_tone(s: &str) -> (r: Tone)
    ensures
        r == supplier_tone(s@),
{
    if same_str(s, "Payee") || same_str(s, "Payée") {
        Tone::Green
    } else if same_str(s, "Approuvee") || same_str(s, "Approuvée") {
        Tone::Blue
    } else if same_str(s, "En attente") {
        Tone::Yellow
    } else if same_str(s, "A valider") || same_str(s, "À valider") {
        Tone::Yellow
    } else if same_str(s, "Brouillon") {
        Tone::DarkGray
    } else if same_str(s, "Annulee") || same_str(s, "Annulée") {
        Tone::Red
    } else {
        Tone::Plain
    }
}

pub fn mail_kind_tone(k: &str) -> (r: Tone)
    ensures
        r == kind_tone(k@),
{
    let v = chars_of(k);
    if crate::text::starts_with_chars(&v, &chars_of("PDF")) {
        Tone::Green
    } else if same_str(k, "Lien") {
        Tone::Yellow
    } else {
        Tone::DarkGray
    }
}

pub fn mail_amount_tone(a: &str) -> (r: Tone)
    ensures
        r == amount_tone(a@),
{
    proof {
        reveal_strlit("\u{2014}");
        assert("\u{2014}"@ =~= crate::gmail::api::dash());
    }
    if same_str(a, "\u{2014}") {
        Tone::DarkGray
    } else {
        Tone::White
    }
}

/// How far off a reminder is: overdue and today in bold red, the next two
/// days in red, later days in green.
pub open spec fn reminder_status_view(d: int) -> (Seq<char>, Tone, bool) {
    if d <= 0 {
        (
            if d == 0 {
                "Aujourd'hui !"@
            } else {
                "En retard "@ + dec((-d) as nat) + "j"@
            },
            Tone::Red,
            true,
        )
    } else if d == 1 {
        ("Demain"@, Tone::Red, false)
    } else if d == 2 {
        ("Dans 2j"@, Tone::Red, false)
    } else {
        ("Dans "@ + dec(d as nat) + "j"@, Tone::Green, false)
    }
}

/// The status cell of a reminder `delta` days away.
pub fn reminder_status(delta: i32) -> (r: Span)
    requires
        delta != i32::MIN,
    ensures
        (r.text@, r.tone, r.bold) == reminder_status_view(delta as int),
{
    if delta <= 0 {
        let text = if delta == 0 {
            String::from_str("Aujourd'hui !")
        } else {
            let mut v: Vec<char> = Vec::new();
            push_str(&mut v, "En retard ");
            push_dec(&mut v, (-delta) as u64);
            push_str(&mut v, "j");
            string_of(&v)
        };
        Span { text, tone: Tone::Red, bold: true }
    } else if delta == 1 {
        Span { text: String::from_str("Demain"), tone: Tone::Red, bold: false }
    } else if delta == 2 {
        Span { text: String::from_str("Dans 2j"), tone: Tone::Red, bold: false }
    } else {
        let mut v: Vec<char> = Vec::new();
        push_str(&mut v, "Dans ");
        push_dec(&mut v, delta as u64);
        push_str(&mut v, "j");
        Span { text: string_of(&v), tone: Tone::Green, bold: false }
    }
}

/// The day cell of a reminder: `J` and the day on two digits.
pub fn reminder_day(day: u32) -> (r: String)
    ensures
        r@ == seq!['J'] + dec2(day as nat),
{
    let mut v: Vec<char> = Vec::new();
    v.push('J');
    push_dec2(&mut v, day as u64);
    string_of(&v)
}

/// How long ago the last refresh was: seconds under a minute, else minutes
/// and seconds.
pub open spec fn elapsed_text(s: nat) -> Seq<char> {
    if s < 60 {
        "il y a "@ + dec(s) + "s"@
    } else {
        "il y a "@ + dec(s / 60) + "m"@ + dec(s % 60) + "s"@
    }
}

pub fn elapsed_label(secs: u64) -> (r: String)
    ensures
        r@ == elapsed_text(secs as nat),
{
    let mut v: Vec<char> = Vec::new();
    push_str(&mut v, "il y a ");
    if secs < 60 {
        push_dec(&mut v, secs);
        push_str(&mut v, "s");
    } else {
        push_dec(&mut v, secs / 60);
        push_str(&mut v, "m");
        push_dec(&mut v, secs % 60);
        push_str(&mut v, "s");
    }
    string_of(&v)
}

/// The title of the window, which says when data is loading.
pub fn header_title(loading: bool) -> (r: &'static str)
    ensures
        r@ == (if loading {
            "  YalTech — Comptabilite Qonto  [chargement...]"@
        } else {
            "  YalTech — Comptabilite Qonto  "@
        }),
{
    if loading {
        "  YalTech — Comptabilite Qonto  [chargement...]"
    } else {
        "  YalTech — Comptabilite Qonto  "
    }
}

/// The tables of the view.
pub enum TableKind {
    Clients,
    Suppliers,
    Mails,
}

pub open spec fn empty_text(t: TableKind) -> Seq<char> {
    match t {
        TableKind::Clients => "\n  Aucune facture client."@,
        TableKind::Suppliers => "\n  Aucune facture fournisseur."@,
        TableKind::Mails => "\n  Aucune facture détectée."@,
    }
}

/// What an empty table shows instead of rows: a loading notice while data is
/// loading, else a "nothing found" notice; `None` when the table has rows.
pub fn placeholder(table: TableKind, loading: bool, empty: bool) -> (r: Option<&'static str>)
    ensures
        !empty ==> r is None,
        empty && loading ==> (r matches Some(t) && t@ == "\n  Chargement..."@),
        empty && !loading ==> (r matches Some(t) && t@ == empty_text(table)),
{
    if !empty {
        None
    } else if loading {
        Some("\n  Chargement...")
    } else {
        match table {
            TableKind::Clients => Some("\n  Aucune facture client."),
            TableKind::Suppliers => Some("\n  Aucune facture fournisseur."),
            TableKind::Mails => Some("\n  Aucune facture détectée."),
        }
    }
}

/// What the reminder panel shows when no reminder is due.
pub const NO_REMINDER: &'static str = "\n  Aucun rappel cette semaine";

// ---------------------------------------------------------------------------
// Footer
// ---------------------------------------------------------------------------

pub open spec fn keys_help(editing: bool, reminders: bool) -> Seq<(Seq<char>, Tone, bool)> {
    if editing {
        seq![("[Entrée] Confirmer"@, Tone::Yellow, true), ("  [Esc] Annuler"@, Tone::DarkGray, false)]
    } else if reminders {
        seq![
            ("[q] Quitter"@, Tone::DarkGray, false),
            ("  [Tab] Factures Gmail"@, Tone::DarkGray, false),
            ("  [↑↓] Naviguer"@, Tone::DarkGray, false),
            ("  [Entrée] Acquitter"@, Tone::Cyan, true),
        ]
    } else {
        seq![
            ("[q] Quitter"@, Tone::DarkGray, false),
            ("  [Tab] Rappels"@, Tone::DarkGray, false),
            ("  [r] Rafraichir"@, Tone::DarkGray, false),
            ("  [↑↓] Naviguer"@, Tone::DarkGray, false),
            ("  [Entrée] PDF"@, Tone::DarkGray, false),
            ("  [e] Montant"@, Tone::DarkGray, false),
            ("  [d] Ignorer"@, Tone::DarkGray, false),
        ]
    }
}

/// The footer: key help for the current mode and panel, then the time since
/// the last refresh, the counts when there are Qonto invoices, and the error.
pub open spec fn footer_view(
    editing: bool,
    reminders: bool,
    since_refresh: Option<u64>,
    clients: nat,
    suppliers: nat,
    mails: nat,
    error: Option<Seq<char>>,
) -> Seq<(Seq<char>, Tone, bool)> {
    keys_help(editing, reminders) + match since_refresh {
        Some(s) => seq![("  |  Derniere MAJ: "@ + elapsed_text(s as nat), Tone::DarkGray, false)],
        None => Seq::empty(),
    } + if clients + suppliers > 0 {
        seq![
            (
                "  |  "@ + dec(clients) + " clients / "@ + dec(suppliers) + " fourn. / "@ + dec(
                    mails,
                ) + " mails"@,
                Tone::DarkGray,
                false,
            ),
        ]
    } else {
        Seq::empty()
    } + match error {
        Some(e) => seq![("  |  \u{26A0} "@ + truncated(e, 60), Tone::Red, false)],
        None => Seq::empty(),
    }
}

fn span(text: &str, tone: Tone, bold: bool) -> (r: Span)
    ensures
        r.text@ == text@,
        r.tone == tone,
        r.bold == bold,
{
    Span { text: String::from_str(text), tone, bold }
}

fn key_spans(editing: bool, reminders: bool) -> (r: Vec<Span>)
    ensures
        span_views(r@) == keys_help(editing, reminders),
{
    let mut v: Vec<Span> = Vec::new();
    if editing {
        v.push(span("[Entrée] Confirmer", Tone::Yellow, true));
        v.push(span("  [Esc] Annuler", Tone::DarkGray, false));
    } else if reminders {
        v.push(span("[q] Quitter", Tone::DarkGray, false));
        v.push(span("  [Tab] Factures Gmail", Tone::DarkGray, false));
        v.push(span("  [↑↓] Naviguer", Tone::DarkGray, false));
        v.push(span("  [Entrée] Acquitter", Tone::Cyan, true));
    } else {
        v.push(span("[q] Quitter", Tone::DarkGray, false));
        v.push(span("  [Tab] Rappels", Tone::DarkGray, false));
        v.push(span("  [r] Rafraichir", Tone::DarkGray, false));
        v.push(span("  [↑↓] Naviguer", Tone::DarkGray, false));
        v.push(span("  [Entrée] PDF", Tone::DarkGray, false));
        v.push(span("  [e] Montant", Tone::DarkGray, false));
        v.push(span("  [d] Ignorer", Tone::DarkGray, false));
    }
    assert(span_views(v@) =~= keys_help(editing, reminders));
    v
}

/// The spans of the footer line.
pub fn footer_spans(
    editing: bool,
    reminders: bool,
    since_refresh: Option<u64>,
    clients: usize,
    suppliers: usize,
    mails: usize,
    error: Option<&str>,
) -> (r: Vec<Span>)
    requires
        clients + suppliers <= usize::MAX,
    ensures
        span_views(r@) == footer_view(
            editing,
            reminders,
            since_refresh,
            clients as nat,
            suppliers as nat,
            mails as nat,
            match error {
                Some(e) => Some(e@),
                None => None,
            },
        ),
{
    let mut v = key_spans(editing, reminders);
    let ghost base = span_views(v@);
    let ghost opt_err = match error {
        Some(e) => Some(e@),
        None => None::<Seq<char>>,
    };
    if let Some(s) = since_refresh {
        let mut t: Vec<char> = Vec::new();
        push_str(&mut t, "  |  Derniere MAJ: ");
        let e = elapsed_label(s);
        push_str(&mut t, e.as_str());
        v.push(Span { text: string_of(&t), tone: Tone::DarkGray, bold: false });
    }
    let ghost with_time = span_views(v@);
    assert(with_time =~= base + match since_refresh {
        Some(s) => seq![("  |  Derniere MAJ: "@ + elapsed_text(s as nat), Tone::DarkGray, false)],
        None => Seq::empty(),
    });
    if clients + suppliers > 0 {
        let mut t: Vec<char> = Vec::new();
        push_str(&mut t, "  |  ");
        push_dec(&mut t, clients as u64);
        push_str(&mut t, " clients / ");
        push_dec(&mut t, suppliers as u64);
        push_str(&mut t, " fourn. / ");
        push_dec(&mut t, mails as u64);
        push_str(&mut t, " mails");
        v.push(Span { text: string_of(&t), tone: Tone::DarkGray, bold: false });
    }
    let ghost with_counts = span_views(v@);
    assert(with_counts =~= with_time + if clients + suppliers > 0 {
        seq![
            (
                "  |  "@ + dec(clients as nat) + " clients / "@ + dec(suppliers as nat)
                    + " fourn. / "@ + dec(mails as nat) + " mails"@,
                Tone::DarkGray,
                false,
            ),
        ]
    } else {
        Seq::empty()
    });
    if let Some(e) = error {
        let mut t: Vec<char> = Vec::new();
        push_str(&mut t, "  |  \u{26A0} ");
        let cut = truncate(e, 60);
        push_str(&mut t, cut.as_str());
        v.push(Span { text: string_of(&t), tone: Tone::Red, bold: false });
    }
    assert(span_views(v@) =~= with_counts + match opt_err {
        Some(e) => seq![("  |  \u{26A0} "@ + truncated(e, 60), Tone::Red, false)],
        None => Seq::empty(),
    });
    v
}

// ---------------------------------------------------------------------------
// Table rows
// ---------------------------------------------------------------------------

/// The dates of a record can be shown by `format_date`.
pub open spec fn date_ok(s: String) -> bool {
    date_sliceable(encode_utf8(s@))
}

/// The cells of a client invoice: number, client (25 characters), amount,
/// status, issue date and due date.
pub fn client_row(inv: &crate::models::Invoice) -> (r: Vec<String>)
    requires
        inv.amount_cents != i64::MIN,
        date_ok(inv.issue_date),
        date_ok(inv.due_date),
    ensures
        r@.len() == 6,
        r@[0]@ == inv.number@,
        r@[1]@ == truncated(inv.client@, 25),
        r@[2]@ == amount_text(inv.amount_cents as int, inv.currency@),
        r@[3]@ == inv.status@,
        encode_utf8(r@[4]@) == date_bytes(encode_utf8(inv.issue_date@)),
        encode_utf8(r@[5]@) == date_bytes(encode_utf8(inv.due_date@)),
{
    let mut r: Vec<String> = Vec::new();
    r.push(inv.number.clone());
    r.push(truncate(inv.client.as_str(), 25));
    r.push(format_amount(inv.amount_cents, inv.currency.as_str()));
    r.push(inv.status.clone());
    r.push(format_date(inv.issue_date.as_str()));
    r.push(format_date(inv.due_date.as_str()));
    r
}

/// The cells of a supplier invoice: label (30 characters), supplier (20),
/// amount, status and due date.
pub fn supplier_row(inv: &crate::models::SupplierInvoice) -> (r: Vec<String>)
    requires
        inv.amount_cents != i64::MIN,
        date_ok(inv.due_date),
    ensures
        r@.len() == 5,
        r@[0]@ == truncated(inv.label@, 30),
        r@[1]@ == truncated(inv.supplier@, 20),
        r@[2]@ == amount_text(inv.amount_cents as int, inv.currency@),
        r@[3]@ == inv.status@,
        encode_utf8(r@[4]@) == date_bytes(encode_utf8(inv.due_date@)),
{
    let mut r: Vec<String> = Vec::new();
    r.push(truncate(inv.label.as_str(), 30));
    r.push(truncate(inv.supplier.as_str(), 20));
    r.push(format_amount(inv.amount_cents, inv.currency.as_str()));
    r.push(inv.status.clone());
    r.push(format_date(inv.due_date.as_str()));
    r
}

/// The cells of a mail invoice: sender (18 characters), subject (24),
/// amount, kind (14) and date.
pub fn mail_row(m: &crate::models::MailInvoice) -> (r: Vec<String>)
    ensures
        r@.len() == 5,
        r@[0]@ == truncated(m.from@, 18),
        r@[1]@ == truncated(m.subject@, 24),
        r@[2]@ == m.amount@,
        r@[3]@ == truncated(m.kind@, 14),
        r@[4]@ == m.date@,
{
    let mut r: Vec<String> = Vec::new();
    r.push(truncate(m.from.as_str(), 18));
    r.push(truncate(m.subject.as_str(), 24));
    r.push(m.amount.clone());
    r.push(truncate(m.kind.as_str(), 14));
    r.push(m.date.clone());
    r
}

// ---------------------------------------------------------------------------
// Laws
// ---------------------------------------------------------------------------

/// `s` without its spaces.
pub open spec fn without_spaces(s: Seq<char>) -> Seq<char>
    decreases s.len(),
{
    if s.len() == 0 {
        Seq::empty()
    } else if s.last() == ' ' {
        without_spaces(s.drop_last())
    } else {
        without_spaces(s.drop_last()).push(s.last())
    }
}

proof fn lemma_dec_no_space(n: nat)
    ensures
        forall|i: int| 0 <= i < dec(n).len() ==> #[trigger] dec(n)[i] != ' ',
    decreases n,
{
    if n >= 10 {
        lemma_dec_no_space(n / 10);
        let p = dec(n / 10);
        assert forall|i: int| 0 <= i < dec(n).len() implies #[trigger] dec(n)[i] != ' ' by {
            if i < p.len() {
                assert(dec(n)[i] == p[i]);
            }
        }
    }
}

proof fn lemma_grouped_strip(s: Seq<char>, k: nat)
    requires
        k <= s.len(),
        forall|i: int| 0 <= i < s.len() ==> #[trigger] s[i] != ' ',
    ensures
        without_spaces(grouped(s, k)) == s.take(k as int),
    decreases k,
{
    if k > 0 {
        lemma_grouped_strip(s, (k - 1) as nat);
        let prev = grouped(s, (k - 1) as nat);
        let i = k - 1;
        if i > 0 && (s.len() - i) % 3 == 0 {
            let g = prev + seq![' ', s[i]];
            assert(g.drop_last() =~= prev.push(' '));
            assert(g.last() == s[i]);
            assert(prev.push(' ').drop_last() =~= prev);
            assert(prev.push(' ').last() == ' ');
            assert(without_spaces(prev.push(' ')) == without_spaces(prev));
            assert(without_spaces(g) == without_spaces(prev.push(' ')).push(s[i]));
        } else {
            assert(prev.push(s[i]).drop_last() =~= prev);
            assert(prev.push(s[i]).last() == s[i]);
        }
        assert(s.take(k as int) =~= s.take(i).push(s[i]));
    } else {
        assert(s.take(0) =~= Seq::<char>::empty());
    }
}

/// Grouping digits by three only inserts spaces: removing them gives back
/// the plain decimal representation.
pub proof fn thousands_only_adds_spaces(n: int)
    ensures
        without_spaces(thousands(n)) == dec_int(n),
{
    let d = dec_int(n);
    if n < 0 {
        lemma_dec_no_space((-n) as nat);
        let p = dec((-n) as nat);
        assert forall|i: int| 0 <= i < d.len() implies #[trigger] d[i] != ' ' by {
            if i > 0 {
                assert(d[i] == p[i - 1]);
            }
        }
    } else {
        lemma_dec_no_space(n as nat);
    }
    lemma_grouped_strip(d, d.len());
    assert(d.take(d.len() as int) =~= d);
}

/// A truncated cell is never longer than its width, and a text that fits is
/// kept as it is.
pub proof fn truncate_fits(s: Seq<char>, max: nat)
    requires
        max > 0 || s.len() == 0,
    ensures
        truncated(s, max).len() <= max,
        s.len() <= max ==> truncated(s, max) == s,
        s.len() > max ==> truncated(s, max).take(max - 1) == s.take(max - 1),
{
    if s.len() > max {
        assert(truncated(s, max).take(max - 1) =~= s.take(max - 1));
    }
}

/// How far off a reminder is, as shown: bold exactly when it is today or
/// overdue; red exactly when it is at most two days away; "Aujourd'hui !" on
/// its day, "Demain" the day before, and otherwise the number of days, late
/// ("En retard Nj") or ahead ("Dans Nj").
pub proof fn reminder_status_by_delay(d: int)
    ensures
        reminder_status_view(d).2 <==> d <= 0,
        reminder_status_view(d).1 == Tone::Red <==> d <= 2,
        reminder_status_view(d).1 != Tone::Red ==> reminder_status_view(d).1 == Tone::Green,
        d == 0 ==> reminder_status_view(d).0 == "Aujourd'hui !"@,
        d == 1 ==> reminder_status_view(d).0 == "Demain"@,
        d < 0 ==> reminder_status_view(d).0 == "En retard "@ + dec((-d) as nat) + "j"@,
        d >= 2 ==> reminder_status_view(d).0 == "Dans "@ + dec(d as nat) + "j"@,
{
    if d == 2 {
        reveal_strlit("Dans 2j");
        reveal_strlit("Dans ");
        reveal_strlit("j");
        assert(dec(2) =~= seq!['2']);
        assert("Dans "@ + dec(2) + "j"@ =~= "Dans 2j"@);
    }
}

/// A status that the client table shows as paid (green) or cancelled (red)
/// is shown the same way in the supplier table, and the reverse.
pub proof fn paid_and_cancelled_look_alike(s: Seq<char>)
    ensures
        client_tone(s) == Tone::Green <==> supplier_tone(s) == Tone::Green,
        client_tone(s) == Tone::Red <==> supplier_tone(s) == Tone::Red,
        client_tone(s) == Tone::DarkGray <==> supplier_tone(s) == Tone::DarkGray,
{
    reveal_strlit("Payee");
    reveal_strlit("Payée");
    reveal_strlit("Non payee");
    reveal_strlit("Non payée");
    reveal_strlit("Brouillon");
    reveal_strlit("Annulee");
    reveal_strlit("Annulée");
    reveal_strlit("Approuvee");
    reveal_strlit("Approuvée");
    reveal_strlit("En attente");
    reveal_strlit("A valider");
    reveal_strlit("À valider");
    assert("Payee"@.len() == 5);
    assert("Payée"@.len() == 5);
    assert("Non payee"@.len() == 9);
    assert("Non payée"@.len() == 9);
    assert("Brouillon"@.len() == 9);
    assert("Annulee"@.len() == 7);
    assert("Annulée"@.len() == 7);
    assert("Approuvee"@.len() == 9);
    assert("Approuvée"@.len() == 9);
    assert("En attente"@.len() == 10);
    assert("A valider"@.len() == 9);
    assert("À valider"@.len() == 9);
    assert("Brouillon"@[0] == 'B');
    assert("Non payee"@[0] == 'N');
    assert("Non payée"@[0] == 'N');
    assert("Approuvee"@[0] == 'A');
    assert("Approuvée"@[0] == 'A');
    assert("A valider"@[0] == 'A');
    assert("À valider"@[0] == 'À');
}

/// The colours of a classified mail: a PDF invoice is green, a link invoice
/// yellow, a plain invoice mail dim; its amount is dim exactly when none was
/// read from an attachment.
pub proof fn mail_tones_follow_classification(
    message_id: Seq<char>,
    subject: Seq<char>,
    from: Seq<char>,
    date: Seq<char>,
    amount: Option<Seq<char>>,
    filenames: Seq<Seq<char>>,
    first_pdf_path: Option<Seq<char>>,
    body_text: Seq<char>,
)
    ensures
        crate::gmail::api::classified(message_id, subject, from, date, amount, filenames, first_pdf_path, body_text)
            matches Some(v) ==> {
            &&& filenames.len() > 0 ==> kind_tone(v.kind) == Tone::Green
            &&& filenames.len() == 0 && v.link is Some ==> kind_tone(v.kind) == Tone::Yellow
            &&& filenames.len() == 0 && v.link is None ==> kind_tone(v.kind) == Tone::DarkGray
            &&& (amount_tone(v.amount) == Tone::DarkGray <==> (filenames.len() == 0 || amount is None
                || amount == Some(crate::gmail::api::dash())))
        },
{
    reveal_strlit("PDF (");
    reveal_strlit("PDF");
    reveal_strlit("Lien");
    reveal_strlit("Mail");
    let c = crate::gmail::api::classified(
        message_id,
        subject,
        from,
        date,
        amount,
        filenames,
        first_pdf_path,
        body_text,
    );
    reveal_strlit(")");
    if filenames.len() > 0 {
        let k = "PDF ("@ + crate::text::join(filenames, ", "@) + ")"@;
        assert(k.take(3) =~= "PDF"@);
        assert(crate::text::starts_with(k, "PDF"@));
    } else {
        assert(!crate::text::starts_with("Lien"@, "PDF"@)) by {
            assert("Lien"@[0] != "PDF"@[0]);
        }
        assert(!crate::text::starts_with("Mail"@, "PDF"@)) by {
            assert("Mail"@[0] != "PDF"@[0]);
        }
        assert("Mail"@ != "Lien"@) by {
            assert("Mail"@[0] != "Lien"@[0]);
        }
    }
}

/// The footer: the key help for the mode and panel first; then, in this
/// order and each only when there is something to say, the time since the
/// last refresh, the counts of the three tables (when there are Qonto
/// invoices), and the error in red, last.
pub proof fn footer_layout(
    editing: bool,
    reminders: bool,
    since_refresh: Option<u64>,
    clients: nat,
    suppliers: nat,
    mails: nat,
    error: Option<Seq<char>>,
)
    ensures
        ({
            let f = footer_view(editing, reminders, since_refresh, clients, suppliers, mails, error);
            let k = keys_help(editing, reminders);
            let n = k.len() + (if since_refresh is Some { 1int } else { 0 }) + (if clients + suppliers
                > 0 {
                1int
            } else {
                0
            }) + (if error is Some { 1int } else { 0 });
            &&& f.len() == n
            &&& f.subrange(0, k.len() as int) == k
            &&& (since_refresh matches Some(s) ==> f[k.len() as int] == (
                "  |  Derniere MAJ: "@ + elapsed_text(s as nat),
                Tone::DarkGray,
                false,
            ))
            &&& (error matches Some(e) ==> f[n - 1] == ("  |  \u{26A0} "@ + truncated(e, 60), Tone::Red, false))
            &&& (clients + suppliers > 0 ==> f[n - 1 - (if error is Some { 1int } else { 0 })] == (
                "  |  "@ + dec(clients) + " clients / "@ + dec(suppliers) + " fourn. / "@ + dec(mails)
                    + " mails"@,
                Tone::DarkGray,
                false,
            ))
            &&& (forall|i: int| 0 <= i < f.len() ==> (#[trigger] f[i]).1 == Tone::Red ==> i == n - 1 && error is Some)
        }),
{
    let f = footer_view(editing, reminders, since_refresh, clients, suppliers, mails, error);
    let k = keys_help(editing, reminders);
    assert(f.subrange(0, k.len() as int) =~= k);
}

} // verus!
