//! What the dashboard makes of a Gmail message: its PDF attachments, the text
//! of its body, and whether it is an invoice.
use crate::codec::{
    base64_decode, base64_url_safe, from_utf8_lossy, regex_find, regex_first_match, regex_valid,
    utf8_lossy,
};
use crate::models::{MailInvoice, MailInvoiceView};
use crate::pdf::extractor::{extract_amount, extracted_amount};
use crate::pdf::storage::{attachment_path, min_len, path_for};
use crate::text::{
    chars_of, contains, contains_chars, eq_ignore_ascii_case, eq_ignore_case, ends_with,
    ends_with_chars, find, find_from, join, lemma_find, lemma_join_push, lemma_split_first,
    lemma_split_len, lemma_split_none, lowercase, slice_of, split, starts_with,
    starts_with_chars, string_of, to_lowercase, trim, trim_char, trim_matching, trim_ws,
};
use vstd::string::StringSliceAdditionalSpecFns;
use vstd::utf8::is_char_boundary;
use vstd::prelude::*;

verus! {

/// A header of a message.
pub struct Header {
    pub name: String,
    pub value: String,
}

/// The body of a message or of one of its parts.
pub struct Body {
    pub attachment_id: Option<String>,
    pub size: u64,
    pub data: Option<String>,
}

/// A MIME part of a message.
pub struct Part {
    pub mime_type: String,
    pub filename: Option<String>,
    pub body: Option<Body>,
    pub parts: Vec<Part>,
}

pub open spec fn opt_view(o: Option<String>) -> Option<Seq<char>> {
    match o {
        Some(s) => Some(s@),
        None => None,
    }
}

/// A PDF attachment: its file name and, when the attachment is stored apart,
/// its attachment id.
pub open spec fn pdf_views(v: Seq<(String, Option<String>)>) -> Seq<(Seq<char>, Option<Seq<char>>)> {
    v.map_values(|e: (String, Option<String>)| (e.0@, opt_view(e.1)))
}

/// The text carried by a body: its data decoded from base64 and read as UTF-8,
/// or nothing when it has no data or the data is not base64.
pub open spec fn body_text(b: Body) -> Seq<char> {
    match b.data {
        Some(d) => match base64_url_safe(d@) {
            Some(bytes) => utf8_lossy(bytes),
            None => Seq::empty(),
        },
        None => Seq::empty(),
    }
}

/// A part is a PDF when its type says so or its file name ends in `.pdf`,
/// in any case.
pub open spec fn is_pdf_part(p: Part) -> bool {
    p.mime_type@ == "application/pdf"@ || match p.filename {
        Some(f) => ends_with(lowercase(f@), ".pdf"@),
        None => false,
    }
}

/// The attachment entry of a PDF part: kept when it has an attachment id or a
/// non-empty body; named "facture.pdf" when the part has no file name.
pub open spec fn pdf_entry(p: Part) -> Seq<(Seq<char>, Option<Seq<char>>)> {
    let name = match p.filename {
        Some(f) => f@,
        None => "facture.pdf"@,
    };
    let att = match p.body {
        Some(b) => opt_view(b.attachment_id),
        None => None,
    };
    let sized = match p.body {
        Some(b) => b.size > 0,
        None => false,
    };
    if att is Some || sized {
        seq![(name, att)]
    } else {
        Seq::empty()
    }
}

pub open spec fn is_text_type(m: Seq<char>) -> bool {
    starts_with(m, "text/plain"@) || starts_with(m, "text/html"@)
}

/// PDF attachments and body text found in a list of parts, or, when there are
/// no parts, in the body of a message of type `mime`.
pub open spec fn collected(parts: Seq<Part>, body: Option<Body>, mime: Seq<char>) -> (Seq<(Seq<char>, Option<Seq<char>>)>, Seq<char>)
    decreases parts, 1nat,
{
    if parts.len() == 0 {
        match body {
            Some(b) => if contains(mime, "text/plain"@) || contains(mime, "text/html"@) {
                (Seq::empty(), body_text(b))
            } else {
                (Seq::empty(), Seq::empty())
            },
            None => (Seq::empty(), Seq::empty()),
        }
    } else {
        parts_collected(parts)
    }
}

/// What the parts contribute, in order.
pub open spec fn parts_collected(ps: Seq<Part>) -> (Seq<(Seq<char>, Option<Seq<char>>)>, Seq<char>)
    decreases ps, 0nat,
{
    if ps.len() == 0 {
        (Seq::empty(), Seq::empty())
    } else {
        let a = parts_collected(ps.drop_last());
        let b = part_collected(ps.last());
        (a.0 + b.0, a.1 + b.1)
    }
}

/// What one part contributes: a PDF entry, its text, or what its own parts
/// hold when it is a `multipart/` part.
pub open spec fn part_collected(p: Part) -> (Seq<(Seq<char>, Option<Seq<char>>)>, Seq<char>)
    decreases p, 2nat,
{
    if is_pdf_part(p) {
        (pdf_entry(p), Seq::empty())
    } else if is_text_type(p.mime_type@) {
        (
            Seq::empty(),
            match p.body {
                Some(b) => body_text(b),
                None => Seq::empty(),
            },
        )
    } else if starts_with(p.mime_type@, "multipart/"@) {
        proof {
            assert(decreases_to!(p => p.parts));
            assert(decreases_to!(p.parts => p.parts@));
        }
        collected(p.parts@, None, Seq::empty())
    } else {
        (Seq::empty(), Seq::empty())
    }
}

pub open spec fn deref_body(b: Option<&Body>) -> Option<Body> {
    match b {
        Some(x) => Some(*x),
        None => None,
    }
}

fn copy_opt(o: &Option<String>) -> (c: Option<String>)
    ensures
        opt_view(c) == opt_view(*o),
{
    match o {
        Some(s) => Some(s.clone()),
        None => None,
    }
}

fn append_body_text(b: &Body, text: &mut String)
    ensures
        final(text)@ == old(text)@ + body_text(*b),
{
    if let Some(data) = &b.data {
        if let Ok(decoded) = base64_decode(data.as_str()) {
            let s = from_utf8_lossy(decoded.as_slice());
            text.append(s.as_str());
            return ;
        }
    }
    assert(old(text)@ + Seq::<char>::empty() =~= old(text)@);
}

fn is_pdf(p: &Part) -> (r: bool)
    ensures
        r == is_pdf_part(*p),
{
    let m = chars_of(p.mime_type.as_str());
    let pdf_type = chars_of("application/pdf");
    if crate::oauth::same_chars(&m, &pdf_type) {
        return true;
    }
    match &p.filename {
        Some(f) => {
            let lower = to_lowercase(f.as_str());
            let l = chars_of(lower.as_str());
            let ext = chars_of(".pdf");
            ends_with_chars(&l, &ext)
        },
        None => false,
    }
}

/// Gathers the PDF attachments and the text of a message: from `parts` when
/// there are any (descending into `multipart/` parts), otherwise from `body`
/// when `mime_type` names text.
pub fn collect_parts(
    parts: &Vec<Part>,
    body: Option<&Body>,
    mime_type: &str,
    pdfs: &mut Vec<(String, Option<String>)>,
    text: &mut String,
)
    ensures
        pdf_views(final(pdfs)@) == pdf_views(old(pdfs)@) + collected(parts@, deref_body(body), mime_type@).0,
        final(text)@ == old(text)@ + collected(parts@, deref_body(body), mime_type@).1,
    decreases parts@,
{
    if parts.len() == 0 {
        assert(pdf_views(old(pdfs)@) + Seq::<(Seq<char>, Option<Seq<char>>)>::empty() =~= pdf_views(old(pdfs)@));
        if let Some(b) = body {
            let m = chars_of(mime_type);
            let plain = chars_of("text/plain");
            let html = chars_of("text/html");
            if contains_chars(&m, &plain) || contains_chars(&m, &html) {
                append_body_text(b, text);
                return ;
            }
        }
        assert(old(text)@ + Seq::<char>::empty() =~= old(text)@);
        return ;
    }
    let ghost p0 = pdf_views(old(pdfs)@);
    let ghost t0 = old(text)@;
    let mut i: usize = 0;
    proof {
        assert(parts@.take(0) =~= Seq::<Part>::empty());
        assert(p0 + Seq::<(Seq<char>, Option<Seq<char>>)>::empty() =~= p0);
        assert(t0 + Seq::<char>::empty() =~= t0);
    }
    while i < parts.len()
        invariant
            i <= parts.len(),
            pdf_views(pdfs@) == p0 + parts_collected(parts@.take(i as int)).0,
            text@ == t0 + parts_collected(parts@.take(i as int)).1,
        decreases parts.len() - i,
    {
        let part = &parts[i];
        let ghost before_p = pdf_views(pdfs@);
        let ghost before_t = text@;
        proof {
            assert(parts@.take(i + 1).drop_last() =~= parts@.take(i as int));
            assert(parts@.take(i + 1).last() == parts@[i as int]);
        }
        if is_pdf(part) {
            let name = match &part.filename {
                Some(f) => f.clone(),
                None => String::from_str("facture.pdf"),
            };
            let att = match &part.body {
                Some(b) => copy_opt(&b.attachment_id),
                None => None,
            };
            let sized = match &part.body {
                Some(b) => b.size > 0,
                None => false,
            };
            if att.is_some() || sized {
                pdfs.push((name, att));
                proof {
                    assert(pdf_views(pdfs@) =~= before_p + pdf_entry(*part));
                }
            } else {
                proof {
                    assert(pdf_views(pdfs@) =~= before_p + pdf_entry(*part));
                }
            }
            proof {
                assert(text@ =~= before_t + Seq::<char>::empty());
            }
        } else {
            let m = chars_of(part.mime_type.as_str());
            let plain = chars_of("text/plain");
            let html = chars_of("text/html");
            let multi = chars_of("multipart/");
            if starts_with_chars(&m, &plain) || starts_with_chars(&m, &html) {
                if let Some(b) = &part.body {
                    append_body_text(b, text);
                } else {
                    assert(text@ =~= before_t + Seq::<char>::empty());
                }
            } else if starts_with_chars(&m, &multi) {
                proof {
                    assert(decreases_to!(parts@ => parts@[i as int]));
                    assert(decreases_to!(parts@[i as int] => parts@[i as int].parts));
                    assert(decreases_to!(parts@[i as int].parts => parts@[i as int].parts@));
                }
                collect_parts(&part.parts, None, "", pdfs, text);
            } else {
                assert(text@ =~= before_t + Seq::<char>::empty());
            }
            proof {
                assert(pdf_views(pdfs@) =~= before_p + part_collected(*part).0) by {
                    if !is_text_type(part.mime_type@) && starts_with(part.mime_type@, "multipart/"@) {
                    } else {
                        assert(before_p + Seq::<(Seq<char>, Option<Seq<char>>)>::empty() =~= before_p);
                    }
                }
            }
        }
        proof {
            let a = parts_collected(parts@.take(i as int));
            let b = part_collected(parts@[i as int]);
            assert(p0 + (a.0 + b.0) =~= (p0 + a.0) + b.0);
            assert(t0 + (a.1 + b.1) =~= (t0 + a.1) + b.1);
        }
        i += 1;
    }
    proof {
        assert(parts@.take(parts.len() as int) =~= parts@);
    }
}

// ---------------------------------------------------------------------------
// Headers
// ---------------------------------------------------------------------------

/// The value of the first header called `name`, ignoring ASCII case.
pub open spec fn first_header(hs: Seq<Header>, name: Seq<char>) -> Option<Seq<char>>
    decreases hs.len(),
{
    if hs.len() == 0 {
        None
    } else if eq_ignore_ascii_case(hs[0].name@, name) {
        Some(hs[0].value@)
    } else {
        first_header(hs.drop_first(), name)
    }
}

/// The value of the first header called `name`, ignoring ASCII case.
pub fn header_value(headers: &Vec<Header>, name: &str) -> (r: Option<String>)
    ensures
        opt_view(r) == first_header(headers@, name@),
{
    let n = chars_of(name);
    let mut i: usize = 0;
    assert(headers@.skip(0) =~= headers@);
    while i < headers.len()
        invariant
            i <= headers.len(),
            n@ == name@,
            first_header(headers@, name@) == first_header(headers@.skip(i as int), name@),
        decreases headers.len() - i,
    {
        let h = &headers[i];
        let hn = chars_of(h.name.as_str());
        proof {
            assert(headers@.skip(i as int)[0] == headers@[i as int]);
            assert(headers@.skip(i as int).drop_first() =~= headers@.skip(i + 1));
        }
        if eq_ignore_case(&hn, &n) {
            return Some(h.value.clone());
        }
        i += 1;
    }
    None
}

/// The sender's name in `Name <address>`, without quotes; the whole header
/// when there is no `<` or nothing before it.
pub open spec fn display_name(from: Seq<char>) -> Seq<char> {
    let i = find(from, '<');
    if i >= 0 {
        let name = trim(trim_char(trim(from.take(i)), '"'));
        if name.len() > 0 {
            name
        } else {
            from
        }
    } else {
        from
    }
}

/// The sender's name out of a `From` header.
pub fn extract_name(from: &str) -> (r: String)
    ensures
        r@ == display_name(from@),
{
    let v = chars_of(from);
    let end = find_from(&v, 0, '<');
    proof {
        lemma_find(v@, '<', end as int);
    }
    if end < v.len() {
        let head = slice_of(&v, 0, end);
        assert(head@ =~= from@.take(end as int));
        let a = trim_ws(&head);
        let b = trim_matching(&a, '"');
        let name = trim_ws(&b);
        if name.len() > 0 {
            return string_of(&name);
        }
    }
    String::from_str(from)
}

/// The date part (`dd Mon yyyy`) of a `Date` header such as
/// `Tue, 4 Mar 2025 10:00:00 +0100`: the second to fourth space-separated
/// words of the trimmed header, or the header itself when it has fewer.
pub open spec fn short_date(raw: Seq<char>) -> Seq<char> {
    let parts = split(trim(raw), ' ');
    if parts.len() >= 4 {
        parts[1] + seq![' '] + parts[2] + seq![' '] + parts[3]
    } else {
        raw
    }
}

/// The date part of a `Date` header.
pub fn parse_date(raw: &str) -> (r: String)
    ensures
        r@ == short_date(raw@),
{
    let v = chars_of(raw);
    let t = trim_ws(&v);
    let ghost ts = t@;
    let n = t.len();
    let s1 = find_from(&t, 0, ' ');
    if s1 == n {
        proof {
            lemma_split_none(ts, ' ');
        }
        return String::from_str(raw);
    }
    let ghost r1 = ts.skip(s1 + 1);
    proof {
        lemma_split_first(ts, ' ', s1 as int);
    }
    let s2 = find_from(&t, s1 + 1, ' ');
    if s2 == n {
        proof {
            assert forall|j: int| 0 <= j < r1.len() implies r1[j] != ' ' by {
                assert(r1[j] == ts[s1 + 1 + j]);
            }
            lemma_split_none(r1, ' ');
        }
        return String::from_str(raw);
    }
    let ghost r2 = ts.skip(s2 + 1);
    proof {
        assert forall|j: int| 0 <= j < s2 - s1 - 1 implies r1[j] != ' ' by {
            assert(r1[j] == ts[s1 + 1 + j]);
        }
        lemma_split_first(r1, ' ', s2 - s1 - 1);
        assert(r1.skip(s2 - s1) =~= r2);
        assert(r1.take(s2 - s1 - 1) =~= ts.subrange(s1 + 1, s2 as int));
    }
    let s3 = find_from(&t, s2 + 1, ' ');
    if s3 == n {
        proof {
            assert forall|j: int| 0 <= j < r2.len() implies r2[j] != ' ' by {
                assert(r2[j] == ts[s2 + 1 + j]);
            }
            lemma_split_none(r2, ' ');
        }
        return String::from_str(raw);
    }
    let ghost r3 = ts.skip(s3 + 1);
    proof {
        assert forall|j: int| 0 <= j < s3 - s2 - 1 implies r2[j] != ' ' by {
            assert(r2[j] == ts[s2 + 1 + j]);
        }
        lemma_split_first(r2, ' ', s3 - s2 - 1);
        assert(r2.skip(s3 - s2) =~= r3);
        assert(r2.take(s3 - s2 - 1) =~= ts.subrange(s2 + 1, s3 as int));
        lemma_split_len(r3, ' ');
    }
    let s4 = find_from(&t, s3 + 1, ' ');
    proof {
        if s4 == n {
            assert forall|j: int| 0 <= j < r3.len() implies r3[j] != ' ' by {
                assert(r3[j] == ts[s3 + 1 + j]);
            }
            lemma_split_none(r3, ' ');
            assert(r3 =~= ts.subrange(s3 + 1, s4 as int));
        } else {
            assert forall|j: int| 0 <= j < s4 - s3 - 1 implies r3[j] != ' ' by {
                assert(r3[j] == ts[s3 + 1 + j]);
            }
            lemma_split_first(r3, ' ', s4 - s3 - 1);
            assert(r3.take(s4 - s3 - 1) =~= ts.subrange(s3 + 1, s4 as int));
        }
    }
    let mut out = slice_of(&t, s1 + 1, s2);
    out.push(' ');
    let mut p2 = slice_of(&t, s2 + 1, s3);
    out.append(&mut p2);
    out.push(' ');
    let mut p3 = slice_of(&t, s3 + 1, s4);
    out.append(&mut p3);
    proof {
        let parts = split(ts, ' ');
        assert(parts[1] == ts.subrange(s1 + 1, s2 as int));
        assert(parts[2] == ts.subrange(s2 + 1, s3 as int));
        assert(parts[3] == ts.subrange(s3 + 1, s4 as int));
    }
    string_of(&out)
}

/// The date, subject and raw sender of a message, from its headers.
pub fn message_fields(headers: &Vec<Header>) -> (r: (String, String, String))
    ensures
        r.0@ == match first_header(headers@, "subject"@) {
            Some(v) => v,
            None => Seq::empty(),
        },
        r.1@ == match first_header(headers@, "date"@) {
            Some(v) => short_date(v),
            None => Seq::empty(),
        },
        r.2@ == match first_header(headers@, "from"@) {
            Some(v) => v,
            None => Seq::empty(),
        },
{
    let subject = match header_value(headers, "subject") {
        Some(v) => v,
        None => String::new(),
    };
    let date = match header_value(headers, "date") {
        Some(v) => parse_date(v.as_str()),
        None => String::new(),
    };
    let from = match header_value(headers, "from") {
        Some(v) => v,
        None => String::new(),
    };
    (subject, date, from)
}

// ---------------------------------------------------------------------------
// Is it an invoice?
// ---------------------------------------------------------------------------

/// A link that looks like the download of an invoice.
pub const INVOICE_LINK: &'static str = r"https?://\S+(?:facture|invoice|bill|receipt|download)[^\s<>]*";

pub open spec fn invoice_link(text: Seq<char>) -> Option<Seq<char>> {
    if regex_valid(INVOICE_LINK@) {
        regex_first_match(INVOICE_LINK@, text)
    } else {
        None
    }
}

/// The first link in `text` that looks like the download of an invoice.
pub fn extract_invoice_link(text: &str) -> (r: Option<String>)
    ensures
        opt_view(r) == invoice_link(text@),
{
    match regex_find(INVOICE_LINK, text) {
        Ok(o) => o,
        Err(_) => None,
    }
}

/// What is collected while the PDF attachments of a message are fetched one
/// after the other.
pub struct PdfScan {
    /// The first amount read out of an attachment.
    pub amount: Option<String>,
    /// The names of all PDF attachments, in order.
    pub filenames: Vec<String>,
    /// Where the first attachment that has an id is stored.
    pub first_pdf_path: Option<String>,
}

pub open spec fn names(v: Seq<String>) -> Seq<Seq<char>> {
    v.map_values(|s: String| s@)
}

impl PdfScan {
    /// A scan that has seen no attachment yet.
    pub fn new() -> (r: PdfScan)
        ensures
            r.amount is None,
            r.filenames@.len() == 0,
            r.first_pdf_path is None,
    {
        PdfScan { amount: None, filenames: Vec::new(), first_pdf_path: None }
    }

    /// Notes the attachment `filename`. When it has an id (and so must be
    /// fetched), returns the path where it is stored, which also becomes the
    /// message's PDF path if it is the first one.
    pub fn begin_attachment(
        &mut self,
        pdf_dir: &str,
        message_id: &str,
        filename: &str,
        att_id: &Option<String>,
    ) -> (r: Option<String>)
        requires
            att_id is Some ==> is_char_boundary(
                message_id.spec_bytes(),
                min_len(16, message_id.spec_bytes().len()) as int,
            ),
        ensures
            names(final(self).filenames@) == names(old(self).filenames@).push(filename@),
            final(self).amount == old(self).amount,
            r is Some <==> att_id is Some,
            r matches Some(p) ==> p@ == attachment_path(pdf_dir@, message_id@, filename@),
            opt_view(final(self).first_pdf_path) == (if old(self).first_pdf_path is None && r is Some {
                opt_view(r)
            } else {
                opt_view(old(self).first_pdf_path)
            }),
    {
        self.filenames.push(String::from_str(filename));
        assert(names(self.filenames@) =~= names(old(self).filenames@).push(filename@));
        match att_id {
            Some(_) => {
                let path = path_for(pdf_dir, message_id, filename);
                if self.first_pdf_path.is_none() {
                    self.first_pdf_path = Some(path.clone());
                }
                Some(path)
            },
            None => None,
        }
    }

    /// Reads the amount out of the text of a fetched attachment, unless an
    /// earlier attachment already gave one.
    pub fn record_text(&mut self, text: &str)
        ensures
            final(self).filenames == old(self).filenames,
            final(self).first_pdf_path == old(self).first_pdf_path,
            old(self).amount is Some ==> final(self).amount == old(self).amount,
            old(self).amount is None ==> opt_view(final(self).amount) == extracted_amount(text@),
    {
        if self.amount.is_none() {
            let a = extract_amount(text);
            self.amount = a;
        }
    }
}

pub open spec fn dash() -> Seq<char> {
    seq!['\u{2014}']
}

/// The record of a message, given the outcome of the scan of its PDF
/// attachments and the text of its body: a PDF invoice when it has PDF
/// attachments, a link when its text holds an invoice link, a plain mail when
/// its subject speaks of an invoice, and nothing otherwise.
pub open spec fn classified(
    message_id: Seq<char>,
    subject: Seq<char>,
    from: Seq<char>,
    date: Seq<char>,
    amount: Option<Seq<char>>,
    filenames: Seq<Seq<char>>,
    first_pdf_path: Option<Seq<char>>,
    body_text: Seq<char>,
) -> Option<MailInvoiceView> {
    if filenames.len() > 0 {
        Some(
            MailInvoiceView {
                message_id,
                subject,
                from: display_name(from),
                date,
                amount: match amount {
                    Some(a) => a,
                    None => dash(),
                },
                kind: "PDF ("@ + join(filenames, ", "@) + ")"@,
                link: None,
                pdf_path: first_pdf_path,
            },
        )
    } else if invoice_link(body_text) is Some {
        Some(
            MailInvoiceView {
                message_id,
                subject,
                from: display_name(from),
                date,
                amount: dash(),
                kind: "Lien"@,
                link: invoice_link(body_text),
                pdf_path: None,
            },
        )
    } else if contains(lowercase(subject), "facture"@) || contains(lowercase(subject), "invoice"@) {
        Some(
            MailInvoiceView {
                message_id,
                subject,
                from: display_name(from),
                date,
                amount: dash(),
                kind: "Mail"@,
                link: None,
                pdf_path: None,
            },
        )
    } else {
        None
    }
}

pub open spec fn opt_mail(o: Option<MailInvoice>) -> Option<MailInvoiceView> {
    match o {
        Some(m) => Some(m@),
        None => None,
    }
}

fn dash_string() -> (r: String)
    ensures
        r@ == dash(),
{
    let mut v: Vec<char> = Vec::new();
    v.push('\u{2014}');
    string_of(&v)
}

fn pdf_kind(filenames: &Vec<String>) -> (r: String)
    ensures
        r@ == "PDF ("@ + join(names(filenames@), ", "@) + ")"@,
{
    let mut s = String::from_str("PDF (");
    let ghost head = s@;
    let mut i: usize = 0;
    while i < filenames.len()
        invariant
            i <= filenames.len(),
            s@ == head + join(names(filenames@.take(i as int)), ", "@),
        decreases filenames.len() - i,
    {
        proof {
            assert(names(filenames@.take(i + 1)) =~= names(filenames@.take(i as int)).push(
                filenames@[i as int]@,
            ));
            lemma_join_push(names(filenames@.take(i as int)), ", "@, filenames@[i as int]@);
        }
        if i > 0 {
            s.append(", ");
        }
        s.append(filenames[i].as_str());
        i += 1;
    }
    assert(filenames@.take(filenames.len() as int) =~= filenames@);
    s.append(")");
    s
}

/// The record of a message once its attachments have been scanned.
pub fn mail_invoice_from(
    message_id: &str,
    subject: &str,
    from: &str,
    date: &str,
    scan: &PdfScan,
    body_text: &str,
) -> (r: Option<MailInvoice>)
    ensures
        opt_mail(r) == classified(
            message_id@,
            subject@,
            from@,
            date@,
            opt_view(scan.amount),
            names(scan.filenames@),
            opt_view(scan.first_pdf_path),
            body_text@,
        ),
{
    if scan.filenames.len() > 0 {
        let amount = match &scan.amount {
            Some(a) => a.clone(),
            None => dash_string(),
        };
        let first = match &scan.first_pdf_path {
            Some(p) => Some(p.clone()),
            None => None,
        };
        return Some(
            MailInvoice {
                message_id: String::from_str(message_id),
                subject: String::from_str(subject),
                from: extract_name(from),
                date: String::from_str(date),
                amount,
                kind: pdf_kind(&scan.filenames),
                link: None,
                pdf_path: first,
            },
        );
    }
    if let Some(link) = extract_invoice_link(body_text) {
        return Some(
            MailInvoice {
                message_id: String::from_str(message_id),
                subject: String::from_str(subject),
                from: extract_name(from),
                date: String::from_str(date),
                amount: dash_string(),
                kind: String::from_str("Lien"),
                link: Some(link),
                pdf_path: None,
            },
        );
    }
    let lower = to_lowercase(subject);
    let l = chars_of(lower.as_str());
    if contains_chars(&l, &chars_of("facture")) || contains_chars(&l, &chars_of("invoice")) {
        return Some(
            MailInvoice {
                message_id: String::from_str(message_id),
                subject: String::from_str(subject),
                from: extract_name(from),
                date: String::from_str(date),
                amount: dash_string(),
                kind: String::from_str("Mail"),
                link: None,
                pdf_path: None,
            },
        );
    }
    None
}

// ---------------------------------------------------------------------------
// Which messages to fetch
// ---------------------------------------------------------------------------

/// Where the record of a listed message comes from.
pub enum MailSource {
    /// Already in the cache.
    Cached(MailInvoice),
    /// To be fetched; the message id.
    Fetch(String),
    /// Marked ignored: not shown, neither fetched nor taken from the cache.
    Ignored,
}

/// The record cached last under `id`.
pub open spec fn cached_record(c: Seq<(String, MailInvoice)>, id: Seq<char>) -> Option<MailInvoice>
    decreases c.len(),
{
    if c.len() == 0 {
        None
    } else if c.last().0@ == id {
        Some(c.last().1)
    } else {
        cached_record(c.drop_last(), id)
    }
}

/// `id` is among the ids marked ignored.
pub open spec fn is_ignored(ignored: Seq<String>, id: Seq<char>) -> bool {
    exists|k: int| 0 <= k < ignored.len() && #[trigger] ignored[k]@ == id
}

/// Message `i` of the list is the first with its id.
pub open spec fn first_listing(ids: Seq<String>, i: int) -> bool {
    forall|j: int| 0 <= j < i ==> ids[j]@ != ids[i]@
}

fn cached_lookup(c: &Vec<(String, MailInvoice)>, id: &String) -> (r: Option<MailInvoice>)
    ensures
        r == cached_record(c@, id@),
{
    let mut k = c.len();
    assert(c@.take(k as int) =~= c@);
    while k > 0
        invariant
            k <= c.len(),
            cached_record(c@, id@) == cached_record(c@.take(k as int), id@),
        decreases k,
    {
        proof {
            assert(c@.take(k as int).drop_last() =~= c@.take(k - 1));
            assert(c@.take(k as int).last() == c@[k - 1]);
        }
        if c[k - 1].0 == *id {
            return Some(crate::models::copy_mail(&c[k - 1].1));
        }
        k -= 1;
    }
    None
}

fn ignored_lookup(ignored: &Vec<String>, id: &String) -> (r: bool)
    ensures
        r == is_ignored(ignored@, id@),
{
    let mut k: usize = 0;
    while k < ignored.len()
        invariant
            k <= ignored.len(),
            forall|j: int| 0 <= j < k ==> ignored@[j]@ != id@,
        decreases ignored.len() - k,
    {
        if ignored[k] == *id {
            return true;
        }
        k += 1;
    }
    false
}

fn listed_before(ids: &Vec<String>, i: usize) -> (r: bool)
    requires
        i < ids.len(),
    ensures
        r == !first_listing(ids@, i as int),
{
    let mut j: usize = 0;
    while j < i
        invariant
            j <= i < ids.len(),
            forall|k: int| 0 <= k < j ==> ids@[k]@ != ids@[i as int]@,
        decreases i - j,
    {
        if ids[j] == ids[i] {
            return true;
        }
        j += 1;
    }
    false
}

/// `plan` is the plan for the listed `ids`: one entry for each of the first
/// `max_results`, in order; `Ignored` exactly for the ids marked ignored; else
/// the cached record when the cache holds the id and no earlier listing took
/// it; else a request to fetch the id.
pub open spec fn planned(
    ids: Seq<String>,
    max_results: u32,
    cached: Seq<(String, MailInvoice)>,
    ignored: Seq<String>,
    plan: Seq<MailSource>,
) -> bool {
    &&& plan.len() == min_len(max_results as nat, ids.len() as nat)
    &&& forall|i: int|
        0 <= i < plan.len() ==> match #[trigger] plan[i] {
            MailSource::Ignored => is_ignored(ignored, ids[i]@),
            MailSource::Cached(m) => !is_ignored(ignored, ids[i]@) && first_listing(ids, i)
                && cached_record(cached, ids[i]@) == Some(m),
            MailSource::Fetch(id) => id@ == ids[i]@ && !is_ignored(ignored, ids[i]@) && !(
            first_listing(ids, i) && cached_record(cached, ids[i]@) is Some),
        }
}

/// For each of the first `max_results` listed messages, in order: nothing to
/// show when its id is marked ignored; else its cached record when the cache
/// holds its id and no earlier listing took it; else a request to fetch it.
pub fn plan_mail_fetch(
    ids: &Vec<String>,
    max_results: u32,
    cached: &Vec<(String, MailInvoice)>,
    ignored: &Vec<String>,
) -> (r: Vec<MailSource>)
    ensures
        planned(ids@, max_results, cached@, ignored@, r@),
{
    let n: usize = if (max_results as usize) < ids.len() {
        max_results as usize
    } else {
        ids.len()
    };
    let mut r: Vec<MailSource> = Vec::new();
    let mut i: usize = 0;
    while i < n
        invariant
            i <= n,
            n == min_len(max_results as nat, ids.len() as nat),
            r.len() == i,
            forall|k: int|
                0 <= k < i ==> match #[trigger] r[k] {
                    MailSource::Ignored => is_ignored(ignored@, ids@[k]@),
                    MailSource::Cached(m) => !is_ignored(ignored@, ids@[k]@) && first_listing(
                        ids@,
                        k,
                    ) && cached_record(cached@, ids@[k]@) == Some(m),
                    MailSource::Fetch(id) => id@ == ids@[k]@ && !is_ignored(ignored@, ids@[k]@)
                        && !(first_listing(ids@, k) && cached_record(cached@, ids@[k]@) is Some),
                },
        decreases n - i,
    {
        if ignored_lookup(ignored, &ids[i]) {
            r.push(MailSource::Ignored);
        } else {
            let seen = listed_before(ids, i);
            let hit = if seen {
                None
            } else {
                cached_lookup(cached, &ids[i])
            };
            match hit {
                Some(m) => r.push(MailSource::Cached(m)),
                None => r.push(MailSource::Fetch(ids[i].clone())),
            }
        }
        i += 1;
    }
    r
}

/// The records shown for the first `k` entries of `plan`, given what each
/// fetch gave (`fetched[i]` for entry `i`): the cached records, and the
/// fetched ones that came back; nothing for an ignored message.
pub open spec fn assembled_upto(plan: Seq<MailSource>, fetched: Seq<Option<MailInvoice>>, k: nat) -> Seq<
    MailInvoice,
>
    decreases k,
{
    if k == 0 {
        Seq::empty()
    } else {
        let prev = assembled_upto(plan, fetched, (k - 1) as nat);
        match plan[k - 1] {
            MailSource::Cached(m) => prev.push(m),
            MailSource::Fetch(_) => match fetched[k - 1] {
                Some(m) => prev.push(m),
                None => prev,
            },
            MailSource::Ignored => prev,
        }
    }
}

/// The records shown for `plan`.
pub open spec fn assembled(plan: Seq<MailSource>, fetched: Seq<Option<MailInvoice>>) -> Seq<MailInvoice> {
    assembled_upto(plan, fetched, plan.len())
}

/// The list of mail invoices, in listing order, once the messages the plan
/// asks for have been fetched: `fetched[i]` is what the fetch of entry `i` gave
/// (`None` when it failed or the message is no invoice; not read for the
/// other entries).
pub fn assemble_mails(plan: &Vec<MailSource>, fetched: &Vec<Option<MailInvoice>>) -> (r: Vec<MailInvoice>)
    requires
        plan.len() == fetched.len(),
    ensures
        r@ == assembled(plan@, fetched@),
{
    let mut r: Vec<MailInvoice> = Vec::new();
    let mut i: usize = 0;
    while i < plan.len()
        invariant
            i <= plan.len() == fetched.len(),
            r@ == assembled_upto(plan@, fetched@, i as nat),
        decreases plan.len() - i,
    {
        match &plan[i] {
            MailSource::Cached(m) => r.push(crate::models::copy_mail(m)),
            MailSource::Fetch(_) => match &fetched[i] {
                Some(m) => r.push(crate::models::copy_mail(m)),
                None => {},
            },
            MailSource::Ignored => {},
        }
        i += 1;
    }
    r
}

/// `id` is one of the listed ids.
pub open spec fn is_listed(ids: Seq<String>, id: Seq<char>) -> bool {
    exists|i: int| 0 <= i < ids.len() && #[trigger] ids[i]@ == id
}

/// Each record of the cache is held under its own message id.
pub open spec fn keyed_by_id(cached: Seq<(String, MailInvoice)>) -> bool {
    forall|k: int| 0 <= k < cached.len() ==> (#[trigger] cached[k]).1.message_id@ == cached[k].0@
}

/// Each record that a fetch gave carries the id it was fetched by.
pub open spec fn fetched_by_id(plan: Seq<MailSource>, fetched: Seq<Option<MailInvoice>>) -> bool {
    forall|i: int|
        0 <= i < plan.len() ==> match #[trigger] plan[i] {
            MailSource::Fetch(fid) => match fetched[i] {
                Some(m) => m.message_id@ == fid@,
                None => true,
            },
            _ => true,
        }
}

proof fn lemma_cached_record_keyed(c: Seq<(String, MailInvoice)>, id: Seq<char>)
    requires
        keyed_by_id(c),
    ensures
        cached_record(c, id) matches Some(m) ==> m.message_id@ == id,
    decreases c.len(),
{
    if c.len() > 0 {
        assert(keyed_by_id(c.drop_last())) by {
            assert forall|k: int| 0 <= k < c.drop_last().len() implies (#[trigger] c.drop_last()[k]).1.message_id@
                == c.drop_last()[k].0@ by {
                assert(c.drop_last()[k] == c[k]);
            }
        }
        assert(c.last() == c[c.len() - 1]);
        lemma_cached_record_keyed(c.drop_last(), id);
    }
}

proof fn lemma_assembled_ids(
    ids: Seq<String>,
    max_results: u32,
    cached: Seq<(String, MailInvoice)>,
    ignored: Seq<String>,
    plan: Seq<MailSource>,
    fetched: Seq<Option<MailInvoice>>,
    k: nat,
)
    requires
        planned(ids, max_results, cached, ignored, plan),
        plan.len() == fetched.len(),
        k <= plan.len(),
        keyed_by_id(cached),
        fetched_by_id(plan, fetched),
    ensures
        forall|j: int|
            0 <= j < assembled_upto(plan, fetched, k).len() ==> {
                let id = (#[trigger] assembled_upto(plan, fetched, k)[j]).message_id@;
                is_listed(ids, id) && !is_ignored(ignored, id)
            },
    decreases k,
{
    if k > 0 {
        let km = (k - 1) as nat;
        lemma_assembled_ids(ids, max_results, cached, ignored, plan, fetched, km);
        let i = k - 1;
        let prev = assembled_upto(plan, fetched, km);
        let cur = assembled_upto(plan, fetched, k);
        assert(i < ids.len());
        lemma_cached_record_keyed(cached, ids[i]@);
        assert forall|j: int| 0 <= j < cur.len() implies {
            let id = (#[trigger] cur[j]).message_id@;
            is_listed(ids, id) && !is_ignored(ignored, id)
        } by {
            if j < prev.len() {
                assert(cur[j] == prev[j]);
            } else {
                assert(cur[j].message_id@ == ids[i]@);
                assert(is_listed(ids, ids[i]@));
            }
        }
    }
}

/// An ignored message is never shown: every record listed after a refresh
/// carries the id of a listed message that is not marked ignored. This holds
/// when the cache holds each record under its own id, and each fetched record
/// carries the id it was fetched by.
pub proof fn ignored_mail_never_shown(
    ids: Seq<String>,
    max_results: u32,
    cached: Seq<(String, MailInvoice)>,
    ignored: Seq<String>,
    plan: Seq<MailSource>,
    fetched: Seq<Option<MailInvoice>>,
)
    requires
        planned(ids, max_results, cached, ignored, plan),
        plan.len() == fetched.len(),
        keyed_by_id(cached),
        fetched_by_id(plan, fetched),
    ensures
        forall|j: int|
            0 <= j < assembled(plan, fetched).len() ==> {
                let id = (#[trigger] assembled(plan, fetched)[j]).message_id@;
                is_listed(ids, id) && !is_ignored(ignored, id)
            },
{
    lemma_assembled_ids(ids, max_results, cached, ignored, plan, fetched, plan.len());
}

/// A cached record is used for at most one listing: a later listing of the
/// same id is fetched.
pub proof fn cached_record_used_once(ids: Seq<String>, i: int, j: int)
    requires
        0 <= i < j < ids.len(),
        ids[i]@ == ids[j]@,
    ensures
        !first_listing(ids, j),
{
}

/// How a message is classified. Whatever the case, a record keeps the id,
/// subject and date of the message and shows the sender's display name.
/// - With PDF attachments, it is a PDF invoice: its kind lists the file names,
///   its amount is the one read from an attachment (a dash when none was), its
///   path is the first stored attachment's, and it has no link.
/// - Otherwise, when the invoice-link pattern matches the body text, it is a
///   link invoice carrying the first match, with a dash for the amount.
/// - Otherwise it is a plain invoice mail exactly when its lower-cased
///   subject contains "facture" or "invoice"; else it is no invoice at all.
pub proof fn invoice_mail_classification(
    message_id: Seq<char>,
    subject: Seq<char>,
    from: Seq<char>,
    date: Seq<char>,
    amount: Option<Seq<char>>,
    filenames: Seq<Seq<char>>,
    first_pdf_path: Option<Seq<char>>,
    body_text: Seq<char>,
)
    ensures
        ({
            let r = classified(message_id, subject, from, date, amount, filenames, first_pdf_path, body_text);
            let link = if regex_valid(INVOICE_LINK@) {
                regex_first_match(INVOICE_LINK@, body_text)
            } else {
                None
            };
            let subject_says = contains(lowercase(subject), "facture"@) || contains(
                lowercase(subject),
                "invoice"@,
            );
            &&& (r matches Some(v) ==> v.message_id == message_id && v.subject == subject && v.date
                == date && v.from == display_name(from))
            &&& (filenames.len() > 0 ==> (r matches Some(v) && v.kind == "PDF ("@ + join(
                filenames,
                ", "@,
            ) + ")"@ && v.amount == (match amount {
                Some(a) => a,
                None => seq!['\u{2014}'],
            }) && v.pdf_path == first_pdf_path && v.link is None))
            &&& (filenames.len() == 0 && link is Some ==> (r matches Some(v) && v.kind == "Lien"@
                && v.link == link && v.amount == seq!['\u{2014}'] && v.pdf_path is None))
            &&& (filenames.len() == 0 && link is None ==> (r is Some <==> subject_says))
            &&& (filenames.len() == 0 && link is None && subject_says ==> (r matches Some(v) && v.kind
                == "Mail"@ && v.amount == seq!['\u{2014}'] && v.link is None && v.pdf_path is None))
        }),
{
}

/// The text of a body is its data decoded from base64 (URL-safe) and read as
/// UTF-8; a body without data, or whose data is not base64, gives no text.
pub proof fn body_text_is_decoded_data(b: Body)
    ensures
        match b.data {
            Some(d) => match base64_url_safe(d@) {
                Some(bytes) => body_text(b) == utf8_lossy(bytes),
                None => body_text(b) == Seq::<char>::empty(),
            },
            None => body_text(b) == Seq::<char>::empty(),
        },
{
}

/// A message without parts gives no attachment, and its body's text exactly
/// when its type names plain text or HTML (e.g. "text/html; charset=UTF-8").
pub proof fn single_part_message_text(body: Option<Body>, mime: Seq<char>)
    ensures
        collected(Seq::empty(), body, mime).0 == Seq::<(Seq<char>, Option<Seq<char>>)>::empty(),
        (contains(mime, "text/plain"@) || contains(mime, "text/html"@)) ==> collected(
            Seq::empty(),
            body,
            mime,
        ).1 == match body {
            Some(b) => body_text(b),
            None => Seq::<char>::empty(),
        },
        !(contains(mime, "text/plain"@) || contains(mime, "text/html"@)) ==> collected(
            Seq::empty(),
            body,
            mime,
        ).1 == Seq::<char>::empty(),
{
}

/// The parts of a message contribute in order: what a list followed by
/// another gives is what the first gives followed by what the second gives.
pub proof fn parts_contribute_in_order(ps: Seq<Part>, qs: Seq<Part>)
    ensures
        parts_collected(ps + qs) == (parts_collected(ps).0 + parts_collected(qs).0, parts_collected(
            ps,
        ).1 + parts_collected(qs).1),
    decreases qs.len(),
{
    if qs.len() == 0 {
        assert(ps + qs =~= ps);
        assert(parts_collected(ps).0 + parts_collected(qs).0 =~= parts_collected(ps).0);
        assert(parts_collected(ps).1 + parts_collected(qs).1 =~= parts_collected(ps).1);
    } else {
        parts_contribute_in_order(ps, qs.drop_last());
        assert((ps + qs).drop_last() =~= ps + qs.drop_last());
        assert((ps + qs).last() == qs.last());
        let a = parts_collected(ps);
        let b = parts_collected(qs.drop_last());
        let c = part_collected(qs.last());
        assert(a.0 + b.0 + c.0 =~= a.0 + (b.0 + c.0));
        assert(a.1 + b.1 + c.1 =~= a.1 + (b.1 + c.1));
    }
}

/// What one part contributes. A PDF part (type "application/pdf", or a file
/// name ending in ".pdf" in any case) gives its attachment, named after its
/// file ("facture.pdf" when it has none), when it has an attachment id or a
/// non-empty body, and no text. Otherwise a part of type text/plain or
/// text/html gives its body's text; a multipart part gives what its own
/// parts give; any other part gives nothing.
pub proof fn one_part_contribution(p: Part)
    ensures
        parts_collected(seq![p]) == part_collected(p),
        is_pdf_part(p) <==> (p.mime_type@ == "application/pdf"@ || (p.filename matches Some(f)
            && ends_with(lowercase(f@), ".pdf"@))),
        is_pdf_part(p) ==> part_collected(p).1 == Seq::<char>::empty(),
        is_pdf_part(p) ==> ({
            let att = match p.body {
                Some(b) => opt_view(b.attachment_id),
                None => None,
            };
            let sized = p.body matches Some(b) && b.size > 0;
            let name = match p.filename {
                Some(f) => f@,
                None => "facture.pdf"@,
            };
            &&& (att is Some || sized) ==> part_collected(p).0 == seq![(name, att)]
            &&& !(att is Some || sized) ==> part_collected(p).0 == Seq::<(Seq<char>, Option<Seq<char>>)>::empty()
        }),
        !is_pdf_part(p) && (starts_with(p.mime_type@, "text/plain"@) || starts_with(
            p.mime_type@,
            "text/html"@,
        )) ==> part_collected(p) == (Seq::<(Seq<char>, Option<Seq<char>>)>::empty(), match p.body {
            Some(b) => body_text(b),
            None => Seq::<char>::empty(),
        }),
        !is_pdf_part(p) && !(starts_with(p.mime_type@, "text/plain"@) || starts_with(
            p.mime_type@,
            "text/html"@,
        )) && starts_with(p.mime_type@, "multipart/"@) ==> part_collected(p) == parts_collected(
            p.parts@,
        ),
        !is_pdf_part(p) && !(starts_with(p.mime_type@, "text/plain"@) || starts_with(
            p.mime_type@,
            "text/html"@,
        )) && !starts_with(p.mime_type@, "multipart/"@) ==> part_collected(p) == (Seq::<
            (Seq<char>, Option<Seq<char>>),
        >::empty(), Seq::<char>::empty()),
{
    assert(seq![p].drop_last() =~= Seq::<Part>::empty());
    let e = parts_collected(Seq::<Part>::empty());
    let c = part_collected(p);
    assert(e.0 + c.0 =~= c.0);
    assert(e.1 + c.1 =~= c.1);
    if p.parts@.len() == 0 {
        assert(collected(p.parts@, None, Seq::empty()) == parts_collected(p.parts@));
    }
}

proof fn lemma_assembled_prefix(
    p1: Seq<MailSource>,
    f1: Seq<Option<MailInvoice>>,
    p2: Seq<MailSource>,
    f2: Seq<Option<MailInvoice>>,
    k: nat,
)
    requires
        p1.len() == f1.len(),
        k <= p1.len(),
    ensures
        assembled_upto(p1 + p2, f1 + f2, k) == assembled_upto(p1, f1, k),
    decreases k,
{
    if k > 0 {
        lemma_assembled_prefix(p1, f1, p2, f2, (k - 1) as nat);
        assert((p1 + p2)[k - 1] == p1[k - 1]);
        assert((f1 + f2)[k - 1] == f1[k - 1]);
    }
}

proof fn lemma_assembled_suffix(
    p1: Seq<MailSource>,
    f1: Seq<Option<MailInvoice>>,
    p2: Seq<MailSource>,
    f2: Seq<Option<MailInvoice>>,
    m: nat,
)
    requires
        p1.len() == f1.len(),
        p2.len() == f2.len(),
        m <= p2.len(),
    ensures
        assembled_upto(p1 + p2, f1 + f2, p1.len() + m) == assembled(p1, f1) + assembled_upto(p2, f2, m),
    decreases m,
{
    if m == 0 {
        lemma_assembled_prefix(p1, f1, p2, f2, p1.len());
        assert(assembled(p1, f1) + Seq::<MailInvoice>::empty() =~= assembled(p1, f1));
    } else {
        lemma_assembled_suffix(p1, f1, p2, f2, (m - 1) as nat);
        let k = p1.len() + m;
        assert((p1 + p2)[k - 1] == p2[m - 1]);
        assert((f1 + f2)[k - 1] == f2[m - 1]);
        let a = assembled(p1, f1);
        let b = assembled_upto(p2, f2, (m - 1) as nat);
        match p2[m - 1] {
            MailSource::Cached(x) => {
                assert((a + b).push(x) =~= a + b.push(x));
            },
            MailSource::Fetch(_) => match f2[m - 1] {
                Some(x) => {
                    assert((a + b).push(x) =~= a + b.push(x));
                },
                None => {},
            },
            MailSource::Ignored => {},
        }
    }
}

/// The mails shown keep the order of the plan: what a plan followed by
/// another gives is what the first gives followed by what the second gives,
/// so for entries `i < j` that both give a record, the record of `i` comes
/// first.
pub proof fn shown_mails_follow_the_plan(
    p1: Seq<MailSource>,
    f1: Seq<Option<MailInvoice>>,
    p2: Seq<MailSource>,
    f2: Seq<Option<MailInvoice>>,
)
    requires
        p1.len() == f1.len(),
        p2.len() == f2.len(),
    ensures
        assembled(p1 + p2, f1 + f2) == assembled(p1, f1) + assembled(p2, f2),
{
    lemma_assembled_suffix(p1, f1, p2, f2, p2.len());
}

/// What one entry of the plan shows: a cached record; the fetched record
/// when the fetch gave one, else nothing; nothing for an ignored message.
pub proof fn shown_mail_of_one_entry(e: MailSource, x: Option<MailInvoice>)
    ensures
        assembled(seq![e], seq![x]) == match e {
            MailSource::Cached(m) => seq![m],
            MailSource::Fetch(_) => match x {
                Some(m) => seq![m],
                None => Seq::<MailInvoice>::empty(),
            },
            MailSource::Ignored => Seq::<MailInvoice>::empty(),
        },
{
    let p = seq![e];
    let f = seq![x];
    assert(p.len() == 1);
    assert(p[0] == e);
    assert(f[0] == x);
    assert(assembled_upto(p, f, 0) == Seq::<MailInvoice>::empty());
    assert(assembled(p, f) == assembled_upto(p, f, 1));
    match e {
        MailSource::Cached(m) => {
            assert(Seq::<MailInvoice>::empty().push(m) =~= seq![m]);
        },
        MailSource::Fetch(_) => match x {
            Some(m) => {
                assert(Seq::<MailInvoice>::empty().push(m) =~= seq![m]);
            },
            None => {},
        },
        MailSource::Ignored => {},
    }
}

/// The cache answers with the record stored last under an id: adding a
/// record under `key` makes it the answer for `key` and changes nothing for
/// other ids; an empty cache holds nothing.
pub proof fn cache_answers_last_record(c: Seq<(String, MailInvoice)>, key: String, m: MailInvoice, id: Seq<char>)
    ensures
        cached_record(Seq::empty(), id) is None,
        cached_record(c.push((key, m)), key@) == Some(m),
        id != key@ ==> cached_record(c.push((key, m)), id) == cached_record(c, id),
{
    assert(c.push((key, m)).drop_last() =~= c);
}

/// How each listed message is planned. An id marked ignored is left out.
/// Otherwise the first listing of an id that the cache holds takes the cached
/// record; every other listing (a later one of the same id, or one the cache
/// does not hold) is fetched by its id. So no cached record is used twice.
pub proof fn plan_uses_cache_once(
    ids: Seq<String>,
    max_results: u32,
    cached: Seq<(String, MailInvoice)>,
    ignored: Seq<String>,
    plan: Seq<MailSource>,
    i: int,
    j: int,
)
    requires
        planned(ids, max_results, cached, ignored, plan),
        0 <= i < plan.len(),
    ensures
        plan.len() == if (max_results as int) < ids.len() {
            max_results as int
        } else {
            ids.len() as int
        },
        (exists|k: int| 0 <= k < ignored.len() && ignored[k]@ == ids[i]@) ==> plan[i] is Ignored,
        !(exists|k: int| 0 <= k < ignored.len() && ignored[k]@ == ids[i]@) ==> ({
            let earlier = exists|k: int| 0 <= k < i && ids[k]@ == ids[i]@;
            &&& !earlier ==> (cached_record(cached, ids[i]@) matches Some(m) ==> plan[i] == MailSource::Cached(m))
            &&& (earlier || cached_record(cached, ids[i]@) is None) ==> (plan[i] matches MailSource::Fetch(
                id,
            ) && id@ == ids[i]@)
        }),
        0 <= j < i && ids[j]@ == ids[i]@ ==> !(plan[i] is Cached),
{
    if exists|k: int| 0 <= k < ignored.len() && ignored[k]@ == ids[i]@ {
        assert(is_ignored(ignored, ids[i]@));
    } else {
        assert(!is_ignored(ignored, ids[i]@));
    }
    if 0 <= j < i && ids[j]@ == ids[i]@ {
        assert(!first_listing(ids, i));
    }
}

/// A header is looked up by name, ignoring ASCII case: the value is that of
/// the first header whose name matches, and there is none exactly when no
/// header matches.
pub proof fn header_lookup_takes_first_match(hs: Seq<Header>, name: Seq<char>, k: int)
    ensures
        first_header(hs, name) is None <==> forall|j: int|
            0 <= j < hs.len() ==> !eq_ignore_ascii_case(#[trigger] hs[j].name@, name),
        0 <= k < hs.len() && eq_ignore_ascii_case(hs[k].name@, name) && (forall|j: int|
            0 <= j < k ==> !eq_ignore_ascii_case(#[trigger] hs[j].name@, name)) ==> first_header(hs, name)
            == Some(hs[k].value@),
    decreases hs.len(),
{
    if hs.len() > 0 {
        let t = hs.drop_first();
        header_lookup_takes_first_match(t, name, k - 1);
        assert forall|j: int| 0 <= j < t.len() implies #[trigger] t[j] == hs[j + 1] by {}
        if first_header(hs, name) is None {
            assert forall|j: int| 0 <= j < hs.len() implies !eq_ignore_ascii_case(#[trigger] hs[j].name@, name) by {
                if j > 0 {
                    assert(t[j - 1] == hs[j]);
                }
            }
        }
        if forall|j: int| 0 <= j < hs.len() ==> !eq_ignore_ascii_case(#[trigger] hs[j].name@, name) {
            assert(!eq_ignore_ascii_case(hs[0].name@, name));
            assert forall|j: int| 0 <= j < t.len() implies !eq_ignore_ascii_case(#[trigger] t[j].name@, name) by {
                assert(t[j] == hs[j + 1]);
            }
        }
        if 0 < k < hs.len() && eq_ignore_ascii_case(hs[k].name@, name) && (forall|j: int|
            0 <= j < k ==> !eq_ignore_ascii_case(#[trigger] hs[j].name@, name)) {
            assert(!eq_ignore_ascii_case(hs[0].name@, name));
            assert(t[k - 1] == hs[k]);
            assert forall|j: int| 0 <= j < k - 1 implies !eq_ignore_ascii_case(#[trigger] t[j].name@, name) by {
                assert(t[j] == hs[j + 1]);
            }
        }
    }
}

/// The sender shown for a `From` header: when the header has a `<` with a
/// name before it, that name without the white space and quotes around it;
/// otherwise (no `<`, or nothing but quotes and spaces before it) the header
/// as it is.
pub proof fn sender_name_before_address(from: Seq<char>, name: Seq<char>, rest: Seq<char>)
    ensures
        (forall|i: int| 0 <= i < from.len() ==> from[i] != '<') ==> display_name(from) == from,
        from == name + seq!['<'] + rest && (forall|i: int| 0 <= i < name.len() ==> name[i] != '<') ==> {
            let shown = trim(trim_char(trim(name), '"'));
            &&& shown.len() > 0 ==> display_name(from) == shown
            &&& shown.len() == 0 ==> display_name(from) == from
        },
{
    if forall|i: int| 0 <= i < from.len() ==> from[i] != '<' {
        lemma_find(from, '<', from.len() as int);
    }
    if from == name + seq!['<'] + rest && (forall|i: int| 0 <= i < name.len() ==> name[i] != '<') {
        assert(from[name.len() as int] == '<');
        assert forall|j: int| 0 <= j < name.len() implies from[j] != '<' by {
            assert(from[j] == name[j]);
        }
        lemma_find(from, '<', name.len() as int);
        assert(from.take(name.len() as int) =~= name);
    }
}

} // verus!
