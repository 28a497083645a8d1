# yaltech-tools

A terminal dashboard of invoices: client and supplier invoices from Qonto,
invoice mails found in Gmail (with their PDF attachments), and monthly
reminders.

- `src/` is the library, written in Verus: every function carries a contract,
  and all but a few are proved against it. The exceptions are the thin
  wrappers around calls into std, `base64` and `regex` (in `src/codec.rs` and
  `src/text.rs`): their contracts are trusted, not proved, and say what those
  calls return. The library covers percent-encoding and the reading of the
  OAuth redirect, the tokens' lifetimes, what a Gmail message says about an
  invoice (attachments, body text, links, sender, date), the mapping of Qonto
  records, the names of attachment files, the state of the view (selections,
  reminders, amount editing, refresh outcome) and the texts on screen.
- `app/` is the program around it: configuration, HTTP calls, the SQLite
  cache, the OAuth listener, PDF text extraction, logging and drawing with
  ratatui.
- `tests/` exercises the library on concrete values.
