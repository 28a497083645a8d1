//! Verified core of a terminal dashboard of invoices: client and supplier
//! invoices from Qonto, invoice mails from Gmail, and monthly reminders.
//!
//! The library holds what the dashboard computes: percent-encoding and the
//! reading of OAuth redirects, what a Gmail message reveals about an invoice,
//! the mapping of Qonto records, file names of attachments, the state of the
//! interactive view, and the texts shown on screen. Network, disk, terminal
//! and clock stay with the program that uses it.
pub mod text;
pub mod codec;
pub mod models;
pub mod config;
pub mod util;
pub mod oauth;
pub mod auth_google;
pub mod gmail;
pub mod qonto;
pub mod api;
pub mod pdf;
pub mod cache;
pub mod app;
pub mod ui;
