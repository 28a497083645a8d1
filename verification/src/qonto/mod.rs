//! Qonto: client and supplier invoices, and the OAuth flow of the account.
pub mod api;
pub mod auth;
