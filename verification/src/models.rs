//! Records shown by the dashboard.
use vstd::prelude::*;

verus! {

/// A monthly task, shown from a week before its day of the month.
pub struct Reminder {
    pub day: u32,
    pub label: String,
}

/// An invoice sent to a client.
pub struct Invoice {
    pub number: String,
    pub client: String,
    pub amount_cents: i64,
    pub currency: String,
    pub status: String,
    pub issue_date: String,
    pub due_date: String,
}

/// An invoice received from a supplier.
pub struct SupplierInvoice {
    pub label: String,
    pub supplier: String,
    pub amount_cents: i64,
    pub currency: String,
    pub status: String,
    pub due_date: String,
}

/// A mail that looks like an invoice.
pub struct MailInvoice {
    pub message_id: String,
    pub subject: String,
    pub from: String,
    pub date: String,
    pub amount: String,
    pub kind: String,
    pub link: Option<String>,
    pub pdf_path: Option<String>,
}

/// The view of a mail invoice: its fields as character sequences.
pub struct MailInvoiceView {
    pub message_id: Seq<char>,
    pub subject: Seq<char>,
    pub from: Seq<char>,
    pub date: Seq<char>,
    pub amount: Seq<char>,
    pub kind: Seq<char>,
    pub link: Option<Seq<char>>,
    pub pdf_path: Option<Seq<char>>,
}

pub open spec fn opt_str(o: Option<String>) -> Option<Seq<char>> {
    match o {
        Some(s) => Some(s@),
        None => None,
    }
}

impl View for MailInvoice {
    type V = MailInvoiceView;

    open spec fn view(&self) -> MailInvoiceView {
        MailInvoiceView {
            message_id: self.message_id@,
            subject: self.subject@,
            from: self.from@,
            date: self.date@,
            amount: self.amount@,
            kind: self.kind@,
            link: opt_str(self.link),
            pdf_path: opt_str(self.pdf_path),
        }
    }
}

/// The reminders, as (day of the month, label).
pub open spec fn reminder_table() -> Seq<(u32, Seq<char>)> {
    seq![
        (10u32, "Envoyer l'export comptable"@),
        (25u32, "Saisir temps dans Bound"@),
        (28u32, "Envoyer la facture mensuelle"@),
        (28u32, "Saisir indemnites de route"@),
    ]
}

/// The reminder rows as records.
pub fn reminders() -> (r: Vec<Reminder>)
    ensures
        r.len() == reminder_table().len(),
        forall|i: int|
            0 <= i < r.len() ==> r[i].day == #[trigger] reminder_table()[i].0 && r[i].label@
                == reminder_table()[i].1,
{
    let mut r: Vec<Reminder> = Vec::new();
    r.push(Reminder { day: 10, label: String::from_str("Envoyer l'export comptable") });
    r.push(Reminder { day: 25, label: String::from_str("Saisir temps dans Bound") });
    r.push(Reminder { day: 28, label: String::from_str("Envoyer la facture mensuelle") });
    r.push(Reminder { day: 28, label: String::from_str("Saisir indemnites de route") });
    r
}

/// A copy of a reminder.
pub fn copy_reminder(r: &Reminder) -> (c: Reminder)
    ensures
        c.day == r.day,
        c.label@ == r.label@,
{
    Reminder { day: r.day, label: r.label.clone() }
}

/// `Option<String>::clone`.
pub fn copy_opt(o: &Option<String>) -> (c: Option<String>)
    ensures
        c == *o,
{
    match o {
        Some(s) => Some(s.clone()),
        None => None,
    }
}

/// A copy of a mail invoice.
pub fn copy_mail(m: &MailInvoice) -> (c: MailInvoice)
    ensures
        c == *m,
{
    MailInvoice {
        message_id: m.message_id.clone(),
        subject: m.subject.clone(),
        from: m.from.clone(),
        date: m.date.clone(),
        amount: m.amount.clone(),
        kind: m.kind.clone(),
        link: copy_opt(&m.link),
        pdf_path: copy_opt(&m.pdf_path),
    }
}

} // verus!
