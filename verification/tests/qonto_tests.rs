use yaltech_tools::api::qonto as v1;
use yaltech_tools::qonto::api::{
    client_response, invoice_from, invoices_from, supplier_invoice_from, supplier_response,
    translate_client_status, translate_supplier_status, QontoAmount, QontoClientInvoice,
    QontoParty, QontoSupplierInvoice, ResponseOutcome, SUPPLIER_FORBIDDEN,
};

#[test]
fn status_labels() {
    assert_eq!(translate_client_status("draft"), "Brouillon");
    assert_eq!(translate_client_status("unpaid"), "Non payee");
    assert_eq!(translate_client_status("paid"), "Payee");
    assert_eq!(translate_client_status("canceled"), "Annulee");
    assert_eq!(translate_client_status("weird"), "weird");
    assert_eq!(translate_supplier_status("pending"), "En attente");
    assert_eq!(translate_supplier_status("to_review"), "A valider");
    assert_eq!(translate_supplier_status("approved"), "Approuvee");
    assert_eq!(translate_supplier_status("paid"), "Payee");
    assert_eq!(translate_supplier_status("canceled"), "Annulee");
    assert_eq!(translate_supplier_status("draft"), "Brouillon");
    assert_eq!(translate_supplier_status(""), "");
    assert_eq!(v1::translate_client_status("unpaid"), "Non payée");
    assert_eq!(v1::translate_client_status("paid"), "Payée");
    assert_eq!(v1::translate_client_status("canceled"), "Annulée");
}

#[test]
fn client_invoices_map() {
    let raw = QontoClientInvoice {
        number: "F-001".into(),
        status: "paid".into(),
        total_amount_cents: 12345,
        currency: "EUR".into(),
        issue_date: Some("2025-01-02".into()),
        due_date: None,
        client: Some(QontoParty { name: "Acme".into() }),
    };
    let inv = invoice_from(&raw);
    assert_eq!((inv.number.as_str(), inv.client.as_str(), inv.amount_cents), ("F-001", "Acme", 12345));
    assert_eq!((inv.status.as_str(), inv.issue_date.as_str(), inv.due_date.as_str()), ("Payee", "2025-01-02", ""));
    assert_eq!(v1::invoice_from(&raw).status, "Payée");
    let all = invoices_from(&vec![raw]);
    assert_eq!(all.len(), 1);
    assert_eq!(all[0].number, "F-001");
}

#[test]
fn supplier_invoices_map() {
    let raw = QontoSupplierInvoice {
        invoice_number: "S-9".into(),
        supplier_name: "OVH".into(),
        status: "to_review".into(),
        total_amount: Some(QontoAmount { value: "12.5".into(), currency: "USD".into() }),
        due_date: Some("2025-02-01".into()),
    };
    let inv = supplier_invoice_from(&raw, 1250);
    assert_eq!((inv.label.as_str(), inv.supplier.as_str(), inv.amount_cents, inv.currency.as_str()), ("S-9", "OVH", 1250, "USD"));
    assert_eq!(inv.status, "A valider");
    let none = QontoSupplierInvoice { total_amount: None, ..raw };
    let inv = supplier_invoice_from(&none, 777);
    assert_eq!((inv.amount_cents, inv.currency.as_str()), (0, "EUR"));

    let old = v1::QontoSupplierInvoice {
        label: "".into(),
        status: "paid".into(),
        total_amount_cents: 5,
        currency: "EUR".into(),
        due_date: None,
        supplier: Some(QontoParty { name: "Free".into() }),
    };
    let inv = v1::supplier_invoice_from(&old);
    assert_eq!((inv.label.as_str(), inv.supplier.as_str(), inv.status.as_str()), ("Free", "Free", "Payee"));
}

#[test]
fn http_outcomes() {
    assert!(matches!(client_response(200), ResponseOutcome::Success));
    assert!(matches!(client_response(403), ResponseOutcome::Failed));
    assert!(matches!(supplier_response(403), ResponseOutcome::Forbidden));
    assert!(matches!(supplier_response(204), ResponseOutcome::Success));
    assert!(matches!(supplier_response(500), ResponseOutcome::Failed));
    assert_eq!(SUPPLIER_FORBIDDEN, "__forbidden__");
}
