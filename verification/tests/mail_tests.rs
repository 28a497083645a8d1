use base64::Engine;
use yaltech_tools::cache::{expand, pdf_path};
use yaltech_tools::gmail::api::{
    assemble_mails, collect_parts, extract_invoice_link, extract_name, header_value, mail_invoice_from,
    message_fields, parse_date, plan_mail_fetch, Body, Header, MailSource, Part, PdfScan,
};
use yaltech_tools::models::MailInvoice;
use yaltech_tools::pdf::extractor::{decode_attachment, extract_amount};
use yaltech_tools::pdf::storage::{archive_dir, byte_prefix, files_of_message, join, path_for};
use yaltech_tools::util::expand_home;

fn b64(s: &str) -> String {
    base64::engine::general_purpose::URL_SAFE.encode(s)
}

fn header(n: &str, v: &str) -> Header {
    Header { name: n.into(), value: v.into() }
}

#[test]
fn headers_are_found_ignoring_case() {
    let hs = vec![header("From", "Acme <billing@acme.fr>"), header("SUBJECT", "Votre facture"), header("subject", "second")];
    assert_eq!(header_value(&hs, "subject").as_deref(), Some("Votre facture"));
    assert_eq!(header_value(&hs, "date"), None);
    let (subject, date, from) = message_fields(&hs);
    assert_eq!(subject, "Votre facture");
    assert_eq!(date, "");
    assert_eq!(from, "Acme <billing@acme.fr>");
}

#[test]
fn sender_names() {
    assert_eq!(extract_name("Acme SAS <billing@acme.fr>"), "Acme SAS");
    assert_eq!(extract_name("\"Jean Dupont\" <jd@x.fr>"), "Jean Dupont");
    assert_eq!(extract_name("  \" Spaced \"  <a@b>"), "Spaced");
    assert_eq!(extract_name("<only@address>"), "<only@address>");
    assert_eq!(extract_name("plain@address.fr"), "plain@address.fr");
}

#[test]
fn dates_keep_day_month_year() {
    assert_eq!(parse_date("Tue, 4 Mar 2025 10:00:00 +0100"), "4 Mar 2025");
    assert_eq!(parse_date("  Tue, 4 Mar 2025  "), "4 Mar 2025");
    assert_eq!(parse_date("4 Mar 2025"), "4 Mar 2025");
    assert_eq!(parse_date("Tue,  4 Mar"), " 4 Mar");
}

#[test]
fn amounts_read_from_pdf_text() {
    assert_eq!(extract_amount("Facture n°12\nTotal TTC : 1 234,56 €").as_deref(), Some("1\u{202F}234,56 €"));
    assert_eq!(extract_amount("MONTANT 99.00 EUR").as_deref(), Some("99.00 €"));
    assert_eq!(extract_amount("frais 12,00 € seulement").as_deref(), Some("12,00 €"));
    assert_eq!(extract_amount("rien à payer"), None);
}

#[test]
fn invoice_links() {
    let text = "Bonjour, <a href=\"https://shop.example/download/facture-12.pdf\">ici</a>";
    assert_eq!(extract_invoice_link(text).as_deref(), Some("https://shop.example/download/facture-12.pdf\""));
    assert_eq!(extract_invoice_link("voir https://example.com/home"), None);
}

#[test]
fn attachments_decode_from_base64() {
    assert_eq!(decode_attachment(&b64("%PDF-1.4")), Some(b"%PDF-1.4".to_vec()));
    assert_eq!(decode_attachment("not base64!"), None);
}

#[test]
fn parts_give_pdfs_and_text() {
    let parts = vec![
        Part { mime_type: "text/plain".into(), filename: None, body: Some(Body { attachment_id: None, size: 5, data: Some(b64("hello ")) }), parts: vec![] },
        Part { mime_type: "application/octet-stream".into(), filename: Some("Facture.PDF".into()), body: Some(Body { attachment_id: Some("att1".into()), size: 100, data: None }), parts: vec![] },
        Part { mime_type: "application/pdf".into(), filename: None, body: Some(Body { attachment_id: None, size: 0, data: None }), parts: vec![] },
        Part {
            mime_type: "multipart/alternative".into(),
            filename: None,
            body: None,
            parts: vec![
                Part { mime_type: "text/html".into(), filename: None, body: Some(Body { attachment_id: None, size: 3, data: Some(b64("<b>x</b>")) }), parts: vec![] },
                Part { mime_type: "application/pdf".into(), filename: None, body: Some(Body { attachment_id: None, size: 7, data: None }), parts: vec![] },
            ],
        },
        Part { mime_type: "image/png".into(), filename: Some("logo.png".into()), body: None, parts: vec![] },
    ];
    let mut pdfs = Vec::new();
    let mut text = String::new();
    collect_parts(&parts, None, "multipart/mixed", &mut pdfs, &mut text);
    assert_eq!(text, "hello <b>x</b>");
    assert_eq!(pdfs, vec![("Facture.PDF".to_string(), Some("att1".to_string())), ("facture.pdf".to_string(), None)]);
}

#[test]
fn single_part_messages_use_their_body() {
    let body = Body { attachment_id: None, size: 4, data: Some(b64("only text")) };
    let mut pdfs = Vec::new();
    let mut text = String::from(">");
    collect_parts(&vec![], Some(&body), "text/plain; charset=UTF-8", &mut pdfs, &mut text);
    assert_eq!(text, ">only text");
    collect_parts(&vec![], Some(&body), "image/png", &mut pdfs, &mut text);
    assert_eq!(text, ">only text");
    let bad = Body { attachment_id: None, size: 4, data: Some("@@@".into()) };
    collect_parts(&vec![], Some(&bad), "text/html", &mut pdfs, &mut text);
    assert_eq!(text, ">only text");
    assert!(pdfs.is_empty());
}

#[test]
fn attachment_paths() {
    assert_eq!(path_for("/data/pdfs", "18c2f0a1b2c3d4e5f6a7", "Facture n°1.pdf"), "/data/pdfs/18c2f0a1b2c3d4e5_Facture_n_1.pdf");
    assert_eq!(path_for("/data/pdfs/", "abc", "a/b.pdf"), "/data/pdfs/abc_a_b.pdf");
    assert_eq!(path_for("", "abc", "x.pdf"), "abc_x.pdf");
    assert_eq!(path_for("/d", "/abs", "x.pdf"), "/abs_x.pdf");
    assert_eq!(pdf_path("/d", "id", "é.pdf"), "/d/id_é.pdf");
    assert_eq!(archive_dir("/d"), "/d/archives");
    assert_eq!(byte_prefix("abcdef", 3), "abc");
    assert_eq!(byte_prefix("ab", 16), "ab");
    assert_eq!(join("/a", &"b".chars().collect()), "/a/b");
}

#[test]
fn home_expansion() {
    assert_eq!(expand_home("~/docs/x.db", "/home/me"), "/home/me/docs/x.db");
    assert_eq!(expand_home("/abs/x.db", "/home/me"), "/abs/x.db");
    assert_eq!(expand_home("~", "/home/me"), "~");
    assert_eq!(expand("~/", "."), "./");
}

#[test]
fn pdf_scan_and_classification() {
    let mut scan = PdfScan::new();
    assert_eq!(scan.begin_attachment("/p", "msg1", "a.pdf", &None), None);
    let p = scan.begin_attachment("/p", "msg1", "b.pdf", &Some("att".into()));
    assert_eq!(p.as_deref(), Some("/p/msg1_b.pdf"));
    scan.record_text("pas de montant");
    scan.record_text("Total : 10,00 €");
    scan.record_text("Total : 99,00 €");
    let _ = scan.begin_attachment("/p", "msg1", "c.pdf", &Some("att2".into()));
    assert_eq!(scan.first_pdf_path.as_deref(), Some("/p/msg1_b.pdf"));
    let inv = mail_invoice_from("msg1", "Re: rien", "Shop <s@x>", "4 Mar 2025", &scan, "").unwrap();
    assert_eq!(inv.amount, "10,00 €");
    assert_eq!(inv.kind, "PDF (a.pdf, b.pdf, c.pdf)");
    assert_eq!(inv.from, "Shop");
    assert_eq!(inv.pdf_path.as_deref(), Some("/p/msg1_b.pdf"));
    assert_eq!(inv.link, None);

    let empty = PdfScan::new();
    let link = mail_invoice_from("m2", "Hello", "x", "d", &empty, "get https://a.io/invoice/7 now").unwrap();
    assert_eq!(link.kind, "Lien");
    assert_eq!(link.amount, "\u{2014}");
    assert_eq!(link.link.as_deref(), Some("https://a.io/invoice/7"));

    let mail = mail_invoice_from("m3", "Votre FACTURE de mars", "x", "d", &empty, "").unwrap();
    assert_eq!(mail.kind, "Mail");
    assert!(mail_invoice_from("m4", "Newsletter", "x", "d", &empty, "").is_none());
}

fn mail(id: &str) -> MailInvoice {
    MailInvoice {
        message_id: id.into(),
        subject: format!("s-{}", id),
        from: "f".into(),
        date: "d".into(),
        amount: "\u{2014}".into(),
        kind: "Mail".into(),
        link: None,
        pdf_path: None,
    }
}

#[test]
fn fetch_plan_uses_each_cached_record_once() {
    let ids: Vec<String> = ["a", "b", "a", "c", "d"].iter().map(|s| s.to_string()).collect();
    let mut newer = mail("a");
    newer.subject = "newer".into();
    let cached = vec![("a".to_string(), mail("a")), ("c".to_string(), mail("c")), ("a".to_string(), newer)];
    let plan = plan_mail_fetch(&ids, 4, &cached, &vec![]);
    assert_eq!(plan.len(), 4);
    match &plan[0] {
        MailSource::Cached(m) => assert_eq!(m.subject, "newer"),
        _ => panic!(),
    }
    assert!(matches!(&plan[1], MailSource::Fetch(id) if id == "b"));
    assert!(matches!(&plan[2], MailSource::Fetch(id) if id == "a"));
    assert!(matches!(&plan[3], MailSource::Cached(m) if m.message_id == "c"));
    assert_eq!(plan_mail_fetch(&ids, 10, &vec![], &vec![]).len(), 5);
}

#[test]
fn fetch_plan_leaves_ignored_mails_out() {
    let ids: Vec<String> = ["a", "b", "c"].iter().map(|s| s.to_string()).collect();
    let cached = vec![("a".to_string(), mail("a"))];
    let ignored = vec!["a".to_string(), "c".to_string()];
    let plan = plan_mail_fetch(&ids, 10, &cached, &ignored);
    assert_eq!(plan.len(), 3);
    assert!(matches!(&plan[0], MailSource::Ignored));
    assert!(matches!(&plan[1], MailSource::Fetch(id) if id == "b"));
    assert!(matches!(&plan[2], MailSource::Ignored));
}

#[test]
fn stored_files_start_with_the_id_prefix() {
    for (dir, id, name) in [("/d", "0123456789abcdefXYZ", "f.pdf"), ("", "short", "x y.pdf"), ("/d/", "id", "a")] {
        let path = path_for(dir, id, name);
        let file = path.rsplit('/').next().unwrap();
        assert!(file.starts_with(byte_prefix(id, 16)));
    }
}

#[test]
fn assembled_list_keeps_cached_and_fetched_records_in_order() {
    let ids: Vec<String> = ["a", "b", "c", "d"].iter().map(|s| s.to_string()).collect();
    let cached = vec![("a".to_string(), mail("a"))];
    let ignored = vec!["c".to_string()];
    let plan = plan_mail_fetch(&ids, 10, &cached, &ignored);
    let fetched = vec![None, Some(mail("b")), None, None];
    let shown = assemble_mails(&plan, &fetched);
    let shown_ids: Vec<&str> = shown.iter().map(|m| m.message_id.as_str()).collect();
    assert_eq!(shown_ids, vec!["a", "b"]);
    assert!(shown.iter().all(|m| m.message_id != "c"));
}

#[test]
fn files_of_a_message_are_those_with_its_prefix() {
    let names: Vec<String> =
        ["0123456789abcdef_a.pdf", "other.pdf", "0123456789abcdef_b.pdf", "0123"].iter().map(|s| s.to_string()).collect();
    assert_eq!(files_of_message(&names, "0123456789abcdefXYZ"), vec![0, 2]);
    assert_eq!(files_of_message(&names, "0123"), vec![0, 2, 3]);
    assert_eq!(files_of_message(&names, "zz"), Vec::<usize>::new());
}
