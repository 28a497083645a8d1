//! Gmail: which mails are invoices, and the OAuth tokens of the account.
pub mod api;
pub mod auth;
