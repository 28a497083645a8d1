//! Qonto invoices mapped with accented status labels, and supplier invoices
//! labelled by their supplier when they have no label.
use crate::models::{Invoice, SupplierInvoice};
use crate::qonto::api::{
    or_empty, string_or_empty, supplier_status_label, translate_supplier_status, QontoClientInvoice,
    QontoParty,
};
use crate::text::same_str;
use vstd::prelude::*;

verus! {

/// A supplier invoice as the API returns it: a flat label, status, amount,
/// currency and due date, with its supplier.
pub struct QontoSupplierInvoice {
    pub label: String,
    pub status: String,
    pub total_amount_cents: i64,
    pub currency: String,
    pub due_date: Option<String>,
    pub supplier: Option<QontoParty>,
}

/// Accented French label of a client-invoice status; unknown statuses are
/// kept.
pub open spec fn client_status_label(s: Seq<char>) -> Seq<char> {
    if s == "draft"@ {
        "Brouillon"@
    } else if s == "unpaid"@ {
        "Non payée"@
    } else if s == "paid"@ {
        "Payée"@
    } else if s == "canceled"@ {
        "Annulée"@
    } else {
        s
    }
}

pub fn translate_client_status(s: &str) -> (r: String)
    ensures
        r@ == client_status_label(s@),
{
    if same_str(s, "draft") {
        String::from_str("Brouillon")
    } else if same_str(s, "unpaid") {
        String::from_str("Non payée")
    } else if same_str(s, "paid") {
        String::from_str("Payée")
    } else if same_str(s, "canceled") {
        String::from_str("Annulée")
    } else {
        String::from_str(s)
    }
}

/// The record shown for a client invoice.
pub fn invoice_from(i: &QontoClientInvoice) -> (r: Invoice)
    ensures
        r.number@ == i.number@,
        r.client@ == match i.client {
            Some(c) => c.name@,
            None => Seq::empty(),
        },
        r.amount_cents == i.total_amount_cents,
        r.currency@ == i.currency@,
        r.status@ == client_status_label(i.status@),
        r.issue_date@ == or_empty(i.issue_date),
        r.due_date@ == or_empty(i.due_date),
{
    Invoice {
        number: i.number.clone(),
        client: match &i.client {
            Some(c) => c.name.clone(),
            None => String::new(),
        },
        amount_cents: i.total_amount_cents,
        currency: i.currency.clone(),
        status: translate_client_status(i.status.as_str()),
        issue_date: string_or_empty(&i.issue_date),
        due_date: string_or_empty(&i.due_date),
    }
}

pub open spec fn supplier_name(i: QontoSupplierInvoice) -> Seq<char> {
    match i.supplier {
        Some(s) => s.name@,
        None => Seq::empty(),
    }
}

/// The record shown for a supplier invoice: an empty label is replaced by the
/// supplier's name.
pub fn supplier_invoice_from(i: &QontoSupplierInvoice) -> (r: SupplierInvoice)
    ensures
        r.label@ == (if i.label@.len() == 0 {
            supplier_name(*i)
        } else {
            i.label@
        }),
        r.supplier@ == supplier_name(*i),
        r.amount_cents == i.total_amount_cents,
        r.currency@ == i.currency@,
        r.status@ == supplier_status_label(i.status@),
        r.due_date@ == or_empty(i.due_date),
{
    let name = match &i.supplier {
        Some(s) => s.name.clone(),
        None => String::new(),
    };
    let label = if i.label.as_str().is_empty() {
        name.clone()
    } else {
        i.label.clone()
    };
    SupplierInvoice {
        label,
        supplier: name,
        amount_cents: i.total_amount_cents,
        currency: i.currency.clone(),
        status: translate_supplier_status(i.status.as_str()),
        due_date: string_or_empty(&i.due_date),
    }
}

} // verus!
