use yaltech_tools::models::{Invoice, MailInvoice, SupplierInvoice};
use yaltech_tools::ui::{
    client_row, client_status_tone, elapsed_label, footer_spans, format_amount, format_date,
    format_thousands, header_title, mail_amount_tone, mail_kind_tone, mail_row, placeholder,
    reminder_day, reminder_status, supplier_row, supplier_status_tone, truncate, TableKind, Tone,
    NO_REMINDER,
};

#[test]
fn thousands() {
    assert_eq!(format_thousands(0), "0");
    assert_eq!(format_thousands(999), "999");
    assert_eq!(format_thousands(1000), "1 000");
    assert_eq!(format_thousands(1234567), "1 234 567");
    assert_eq!(format_thousands(-123), "- 123");
    assert_eq!(format_thousands(-1234), "-1 234");
    assert_eq!(format_thousands(i64::MIN), "-9 223 372 036 854 775 808");
}

#[test]
fn grouping_only_adds_spaces() {
    for n in [0i64, 7, 12345, -98765, 1_000_000] {
        assert_eq!(format_thousands(n).replace(' ', ""), n.to_string());
    }
}

#[test]
fn amounts() {
    assert_eq!(format_amount(123456, "EUR"), "1 234,56 EUR");
    assert_eq!(format_amount(-5, "EUR"), "-0,05 EUR");
    assert_eq!(format_amount(100, ""), "1,00 ");
    assert_eq!(format_amount(0, "USD"), "0,00 USD");
}

#[test]
fn dates() {
    assert_eq!(format_date("2025-03-04"), "04/03/25");
    assert_eq!(format_date("2025-03-04T10:00:00Z"), "04/03/25");
    assert_eq!(format_date("2025/03/04"), "2025/03/04");
    assert_eq!(format_date("short"), "short");
    assert_eq!(format_date(""), "");
    assert_eq!(format_date("2025-03-0-"), "2025-03-0-");
}

#[test]
fn truncation() {
    assert_eq!(truncate("abc", 3), "abc");
    assert_eq!(truncate("abcd", 3), "ab…");
    assert_eq!(truncate("éèàù", 2), "é…");
    assert_eq!(truncate("", 0), "");
    for (s, m) in [("hello world", 5), ("x", 1), ("longer text here", 60)] {
        assert!(truncate(s, m).chars().count() <= m);
    }
}

#[test]
fn tones() {
    assert_eq!(client_status_tone("Payée"), Tone::Green);
    assert_eq!(client_status_tone("Non payee"), Tone::Yellow);
    assert_eq!(client_status_tone("Brouillon"), Tone::DarkGray);
    assert_eq!(client_status_tone("Annulée"), Tone::Red);
    assert_eq!(client_status_tone("?"), Tone::Plain);
    assert_eq!(supplier_status_tone("Approuvee"), Tone::Blue);
    assert_eq!(supplier_status_tone("À valider"), Tone::Yellow);
    assert_eq!(supplier_status_tone("En attente"), Tone::Yellow);
    assert_eq!(mail_kind_tone("PDF (a.pdf)"), Tone::Green);
    assert_eq!(mail_kind_tone("Lien"), Tone::Yellow);
    assert_eq!(mail_kind_tone("Mail"), Tone::DarkGray);
    assert_eq!(mail_amount_tone("\u{2014}"), Tone::DarkGray);
    assert_eq!(mail_amount_tone("12 €"), Tone::White);
}

#[test]
fn reminder_cells() {
    let s = reminder_status(0);
    assert_eq!((s.text.as_str(), s.tone, s.bold), ("Aujourd'hui !", Tone::Red, true));
    let s = reminder_status(-3);
    assert_eq!((s.text.as_str(), s.tone, s.bold), ("En retard 3j", Tone::Red, true));
    assert_eq!(reminder_status(1).text, "Demain");
    assert_eq!(reminder_status(2).text, "Dans 2j");
    let s = reminder_status(5);
    assert_eq!((s.text.as_str(), s.tone, s.bold), ("Dans 5j", Tone::Green, false));
    assert_eq!(reminder_day(5), "J05");
    assert_eq!(reminder_day(28), "J28");
}

#[test]
fn labels() {
    assert_eq!(elapsed_label(5), "il y a 5s");
    assert_eq!(elapsed_label(125), "il y a 2m5s");
    assert_eq!(header_title(true), "  YalTech — Comptabilite Qonto  [chargement...]");
    assert_eq!(header_title(false), "  YalTech — Comptabilite Qonto  ");
    assert_eq!(placeholder(TableKind::Clients, true, true), Some("\n  Chargement..."));
    assert_eq!(placeholder(TableKind::Suppliers, false, true), Some("\n  Aucune facture fournisseur."));
    assert_eq!(placeholder(TableKind::Mails, false, true), Some("\n  Aucune facture détectée."));
    assert_eq!(placeholder(TableKind::Mails, true, false), None);
    assert_eq!(NO_REMINDER, "\n  Aucun rappel cette semaine");
}

#[test]
fn footer() {
    let f = footer_spans(true, false, None, 0, 0, 0, None);
    let texts: Vec<&str> = f.iter().map(|s| s.text.as_str()).collect();
    assert_eq!(texts, vec!["[Entrée] Confirmer", "  [Esc] Annuler"]);
    let f = footer_spans(false, true, Some(61), 2, 1, 7, Some("boom"));
    let texts: Vec<&str> = f.iter().map(|s| s.text.as_str()).collect();
    assert_eq!(
        texts,
        vec![
            "[q] Quitter",
            "  [Tab] Factures Gmail",
            "  [↑↓] Naviguer",
            "  [Entrée] Acquitter",
            "  |  Derniere MAJ: il y a 1m1s",
            "  |  2 clients / 1 fourn. / 7 mails",
            "  |  \u{26A0} boom",
        ]
    );
    assert_eq!(f[3].tone, Tone::Cyan);
    assert_eq!(f[6].tone, Tone::Red);
    let f = footer_spans(false, false, None, 0, 0, 3, None);
    assert_eq!(f.len(), 7);
    assert_eq!(f[6].text, "  [d] Ignorer");
}

#[test]
fn rows() {
    let inv = Invoice {
        number: "F1".into(),
        client: "A very long client name that overflows".into(),
        amount_cents: 250000,
        currency: "EUR".into(),
        status: "Payee".into(),
        issue_date: "2025-01-31".into(),
        due_date: "".into(),
    };
    assert_eq!(client_row(&inv), vec!["F1", "A very long client name …", "2 500,00 EUR", "Payee", "31/01/25", ""]);
    let s = SupplierInvoice {
        label: "L".into(),
        supplier: "S".into(),
        amount_cents: -1,
        currency: "EUR".into(),
        status: "Brouillon".into(),
        due_date: "2025-12-01".into(),
    };
    assert_eq!(supplier_row(&s), vec!["L", "S", "-0,01 EUR", "Brouillon", "01/12/25"]);
    let m = MailInvoice {
        message_id: "id".into(),
        subject: "Votre facture du mois de mars 2025".into(),
        from: "Service client".into(),
        date: "4 Mar 2025".into(),
        amount: "\u{2014}".into(),
        kind: "PDF (a.pdf, b.pdf)".into(),
        link: None,
        pdf_path: None,
    };
    assert_eq!(mail_row(&m), vec!["Service client", "Votre facture du mois d…", "\u{2014}", "PDF (a.pdf, b…", "4 Mar 2025"]);
}
