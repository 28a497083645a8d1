//! Invoices as the Qonto API describes them, turned into the records shown.
use crate::models::{Invoice, SupplierInvoice};
use crate::text::same_str;
use vstd::prelude::*;

verus! {

/// A client or supplier as Qonto names it.
pub struct QontoParty {
    pub name: String,
}

/// A client invoice as the Qonto API returns it.
pub struct QontoClientInvoice {
    pub number: String,
    pub status: String,
    pub total_amount_cents: i64,
    pub currency: String,
    pub issue_date: Option<String>,
    pub due_date: Option<String>,
    pub client: Option<QontoParty>,
}

/// An amount as the supplier-invoice API writes it: a decimal string.
pub struct QontoAmount {
    pub value: String,
    pub currency: String,
}

/// A supplier invoice as the Qonto API returns it.
pub struct QontoSupplierInvoice {
    pub invoice_number: String,
    pub supplier_name: String,
    pub status: String,
    pub total_amount: Option<QontoAmount>,
    pub due_date: Option<String>,
}

/// Error message that marks a refused (HTTP 403) supplier-invoice request.
pub const SUPPLIER_FORBIDDEN: &'static str = "__forbidden__";

/// How a reply of the invoice API is handled.
pub enum ResponseOutcome {
    /// 2xx: the body holds the invoices.
    Success,
    /// 403 on the supplier invoices: the account may not read them.
    Forbidden,
    /// Any other status: an error that carries the status and body.
    Failed,
}

pub open spec fn or_empty(o: Option<String>) -> Seq<char> {
    match o {
        Some(s) => s@,
        None => Seq::empty(),
    }
}

/// French label of a client-invoice status; unknown statuses are kept.
pub open spec fn client_status_label(s: Seq<char>) -> Seq<char> {
    if s == "draft"@ {
        "Brouillon"@
    } else if s == "unpaid"@ {
        "Non payee"@
    } else if s == "paid"@ {
        "Payee"@
    } else if s == "canceled"@ {
        "Annulee"@
    } else {
        s
    }
}

/// French label of a supplier-invoice status; unknown statuses are kept.
pub open spec fn supplier_status_label(s: Seq<char>) -> Seq<char> {
    if s == "draft"@ {
        "Brouillon"@
    } else if s == "pending"@ {
        "En attente"@
    } else if s == "to_review"@ {
        "A valider"@
    } else if s == "approved"@ {
        "Approuvee"@
    } else if s == "paid"@ {
        "Payee"@
    } else if s == "canceled"@ {
        "Annulee"@
    } else {
        s
    }
}

pub fn translate_client_status(s: &str) -> (r: String)
    ensures
        r@ == client_status_label(s@),
{
    if same_str(s, "draft") {
        String::from_str("Brouillon")
    } else if same_str(s, "unpaid") {
        String::from_str("Non payee")
    } else if same_str(s, "paid") {
        String::from_str("Payee")
    } else if same_str(s, "canceled") {
        String::from_str("Annulee")
    } else {
        String::from_str(s)
    }
}

pub fn translate_supplier_status(s: &str) -> (r: String)
    ensures
        r@ == supplier_status_label(s@),
{
    if same_str(s, "draft") {
        String::from_str("Brouillon")
    } else if same_str(s, "pending") {
        String::from_str("En attente")
    } else if same_str(s, "to_review") {
        String::from_str("A valider")
    } else if same_str(s, "approved") {
        String::from_str("Approuvee")
    } else if same_str(s, "paid") {
        String::from_str("Payee")
    } else if same_str(s, "canceled") {
        String::from_str("Annulee")
    } else {
        String::from_str(s)
    }
}

pub(crate) fn string_or_empty(o: &Option<String>) -> (r: String)
    ensures
        r@ == or_empty(*o),
{
    match o {
        Some(s) => s.clone(),
        None => String::new(),
    }
}

/// `r` is the record shown for the client invoice `i`: the client's name
/// (empty when unknown), the status in French, missing dates empty.
pub open spec fn shows_client_invoice(r: Invoice, i: QontoClientInvoice) -> bool {
    &&& r.number@ == i.number@
    &&& r.client@ == match i.client {
        Some(c) => c.name@,
        None => Seq::empty(),
    }
    &&& r.amount_cents == i.total_amount_cents
    &&& r.currency@ == i.currency@
    &&& r.status@ == client_status_label(i.status@)
    &&& r.issue_date@ == or_empty(i.issue_date)
    &&& r.due_date@ == or_empty(i.due_date)
}

/// The record shown for a client invoice.
pub fn invoice_from(i: &QontoClientInvoice) -> (r: Invoice)
    ensures
        shows_client_invoice(r, *i),
{
    Invoice {
        number: i.number.clone(),
        client: match &i.client {
            Some(c) => c.name.clone(),
            None => String::new(),
        },
        amount_cents: i.total_amount_cents,
        currency: i.currency.clone(),
        status: translate_client_status(i.status.as_str()),
        issue_date: string_or_empty(&i.issue_date),
        due_date: string_or_empty(&i.due_date),
    }
}

/// The record shown for a supplier invoice. `parsed_cents` is the amount in
/// cents read from `total_amount.value`; it is used only when the invoice has
/// an amount, and an invoice without one counts 0 EUR.
pub fn supplier_invoice_from(i: &QontoSupplierInvoice, parsed_cents: i64) -> (r: SupplierInvoice)
    ensures
        r.label@ == i.invoice_number@,
        r.supplier@ == i.supplier_name@,
        r.amount_cents == (if i.total_amount is Some {
            parsed_cents
        } else {
            0
        }),
        r.currency@ == match i.total_amount {
            Some(a) => a.currency@,
            None => "EUR"@,
        },
        r.status@ == supplier_status_label(i.status@),
        r.due_date@ == or_empty(i.due_date),
{
    let (amount_cents, currency) = match &i.total_amount {
        Some(a) => (parsed_cents, a.currency.clone()),
        None => (0i64, String::from_str("EUR")),
    };
    SupplierInvoice {
        label: i.invoice_number.clone(),
        supplier: i.supplier_name.clone(),
        amount_cents,
        currency,
        status: translate_supplier_status(i.status.as_str()),
        due_date: string_or_empty(&i.due_date),
    }
}

/// The records shown for a list of client invoices, in order.
pub fn invoices_from(list: &Vec<QontoClientInvoice>) -> (r: Vec<Invoice>)
    ensures
        r.len() == list.len(),
        forall|k: int| 0 <= k < r.len() ==> shows_client_invoice(#[trigger] r[k], list[k]),
{
    let mut r: Vec<Invoice> = Vec::new();
    let mut k: usize = 0;
    while k < list.len()
        invariant
            k <= list.len(),
            r.len() == k,
            forall|j: int| 0 <= j < k ==> shows_client_invoice(#[trigger] r[j], list[j]),
        decreases list.len() - k,
    {
        r.push(invoice_from(&list[k]));
        k += 1;
    }
    r
}

/// How a reply to the client-invoice request is handled.
pub fn client_response(status: u16) -> (r: ResponseOutcome)
    ensures
        r is Success <==> 200 <= status <= 299,
        r is Failed <==> !(200 <= status <= 299),
{
    if 200 <= status && status <= 299 {
        ResponseOutcome::Success
    } else {
        ResponseOutcome::Failed
    }
}

/// How a reply to the supplier-invoice request is handled: a refusal is
/// reported apart from other failures.
pub fn supplier_response(status: u16) -> (r: ResponseOutcome)
    ensures
        r is Forbidden <==> status == 403,
        r is Success <==> 200 <= status <= 299,
        r is Failed <==> status != 403 && !(200 <= status <= 299),
{
    if status == 403 {
        ResponseOutcome::Forbidden
    } else if 200 <= status && status <= 299 {
        ResponseOutcome::Success
    } else {
        ResponseOutcome::Failed
    }
}

} // verus!
