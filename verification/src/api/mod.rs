//! A Qonto mapping with accented status labels and label fallback for
//! supplier invoices.
pub mod qonto;
