use yaltech_tools::app::{
    join_strings, key_command, refresh_due, reminder_ack_key, App, AppMode, Command, Key, Panel,
};
use yaltech_tools::models::{reminders, Invoice, MailInvoice};

fn mail(id: &str, amount: &str) -> MailInvoice {
    MailInvoice {
        message_id: id.into(),
        subject: "s".into(),
        from: "f".into(),
        date: "d".into(),
        amount: amount.into(),
        kind: "Mail".into(),
        link: None,
        pdf_path: Some(format!("/p/{}.pdf", id)),
    }
}

fn app_with_mails(n: usize) -> App {
    let mut a = App::new("qt".into(), "gt".into(), vec![]);
    a.mail_invoices = (0..n).map(|i| mail(&format!("m{}", i), "\u{2014}")).collect();
    a
}

#[test]
fn new_app_is_loading_on_mail_panel() {
    let a = App::new("q".into(), "g".into(), vec!["k".into()]);
    assert!(a.loading);
    assert!(a.active_panel == Panel::Mail);
    assert!(matches!(a.mode, AppMode::Normal));
    assert_eq!(a.mail_selected, None);
    assert_eq!(a.reminder_acks, vec!["k".to_string()]);
    assert!(a.error.is_none());
}

#[test]
fn reminder_table_and_keys() {
    let r = reminders();
    assert_eq!(r.len(), 4);
    assert_eq!((r[0].day, r[0].label.as_str()), (10, "Envoyer l'export comptable"));
    assert_eq!((r[3].day, r[3].label.as_str()), (28, "Saisir indemnites de route"));
    assert_eq!(reminder_ack_key("2025-03", 10, "Envoyer l'export comptable"), "2025-03|10|Envoyer l'export comptable");
}

#[test]
fn reminders_shown_a_week_ahead() {
    let a = App::new("q".into(), "g".into(), vec![]);
    let v = a.visible_reminders(5, "2025-03");
    assert_eq!(v.len(), 1);
    assert_eq!((v[0].0.day, v[0].1), (10, 5));
    let v = a.visible_reminders(26, "2025-03");
    let days: Vec<(u32, i32)> = v.iter().map(|(r, d)| (r.day, *d)).collect();
    assert_eq!(days, vec![(10, -16), (25, -1), (28, 2), (28, 2)]);
    assert!(a.visible_reminders(1, "2025-03").is_empty());
}

#[test]
fn acknowledging_hides_a_reminder() {
    let mut a = App::new("q".into(), "g".into(), vec![]);
    a.reminder_selected = Some(2);
    let key = a.ack_selected_reminder(26, "2025-03");
    assert_eq!(key.as_deref(), Some("2025-03|28|Envoyer la facture mensuelle"));
    let v = a.visible_reminders(26, "2025-03");
    assert_eq!(v.len(), 3);
    assert!(v.iter().all(|(r, _)| r.label != "Envoyer la facture mensuelle"));
    assert_eq!(a.reminder_selected, Some(2));
    // the last one: the selection moves up
    a.reminder_selected = Some(2);
    let _ = a.ack_selected_reminder(26, "2025-03");
    assert_eq!(a.reminder_selected, Some(1));
    // another month keeps its own acknowledgements
    assert_eq!(a.visible_reminders(26, "2025-04").len(), 4);
    // nothing selected: nothing happens
    a.reminder_selected = None;
    assert_eq!(a.ack_selected_reminder(26, "2025-03"), None);
    // acknowledging everything clears the selection
    a.reminder_selected = Some(0);
    let _ = a.ack_selected_reminder(26, "2025-03");
    a.reminder_selected = Some(0);
    let _ = a.ack_selected_reminder(26, "2025-03");
    assert_eq!(a.reminder_selected, None);
    assert_eq!(a.reminder_acks.len(), 4);
}

#[test]
fn reminder_selection_wraps() {
    let mut a = App::new("q".into(), "g".into(), vec![]);
    a.reminder_select_next(26, "2025-03");
    assert_eq!(a.reminder_selected, Some(0));
    a.reminder_select_prev(26, "2025-03");
    assert_eq!(a.reminder_selected, Some(3));
    a.reminder_select_next(26, "2025-03");
    assert_eq!(a.reminder_selected, Some(0));
    let mut b = App::new("q".into(), "g".into(), vec![]);
    b.reminder_select_next(1, "2025-03");
    assert_eq!(b.reminder_selected, None);
}

#[test]
fn switching_panels() {
    let mut a = App::new("q".into(), "g".into(), vec![]);
    a.switch_panel(26, "2025-03");
    assert!(a.active_panel == Panel::Reminders);
    assert_eq!(a.reminder_selected, Some(0));
    a.switch_panel(26, "2025-03");
    assert!(a.active_panel == Panel::Mail);
    let mut b = App::new("q".into(), "g".into(), vec![]);
    b.switch_panel(1, "2025-03");
    assert!(b.active_panel == Panel::Reminders);
    assert_eq!(b.reminder_selected, None);
}

#[test]
fn mail_selection_wraps_and_round_trips() {
    let mut a = app_with_mails(3);
    a.mail_select_prev();
    assert_eq!(a.mail_selected, Some(2));
    a.mail_select_next();
    assert_eq!(a.mail_selected, Some(0));
    a.mail_select_next();
    a.mail_select_prev();
    assert_eq!(a.mail_selected, Some(0));
    let mut empty = app_with_mails(0);
    empty.mail_select_next();
    assert_eq!(empty.mail_selected, None);
}

#[test]
fn ignoring_removes_the_selected_mail() {
    let mut a = app_with_mails(3);
    assert_eq!(a.ignore_selected(), None);
    a.mail_selected = Some(2);
    let (id, path) = a.ignore_selected().unwrap();
    assert_eq!((id.as_str(), path.as_deref()), ("m2", Some("/p/m2.pdf")));
    assert_eq!(a.mail_invoices.len(), 2);
    assert_eq!(a.mail_selected, Some(1));
    a.mail_selected = Some(0);
    let _ = a.ignore_selected();
    let _ = a.ignore_selected();
    assert!(a.mail_invoices.is_empty());
    assert_eq!(a.mail_selected, None);
    a.mail_selected = Some(5);
    assert_eq!(a.ignore_selected(), None);
}

#[test]
fn opening_the_selected_pdf() {
    let mut a = app_with_mails(2);
    assert_eq!(a.open_selected_pdf(), None);
    a.mail_selected = Some(1);
    assert_eq!(a.open_selected_pdf(), Some(("m1".to_string(), Some("/p/m1.pdf".to_string()))));
}

#[test]
fn editing_an_amount() {
    let mut a = app_with_mails(2);
    a.mail_selected = Some(1);
    assert!(!a.is_editing());
    a.start_edit_amount();
    assert_eq!(a.edit_buffer(), Some(""));
    for c in " 12,5x".chars() {
        a.push_char(c);
    }
    a.pop_char();
    a.push_char('0');
    a.push_char(' ');
    assert_eq!(a.edit_buffer(), Some(" 12,50 "));
    let (id, amount) = a.confirm_edit_amount().unwrap();
    assert_eq!((id.as_str(), amount.as_str()), ("m1", "12,50"));
    assert_eq!(a.mail_invoices[1].amount, "12,50");
    assert!(!a.is_editing());
    assert_eq!(a.confirm_edit_amount(), None);

    a.start_edit_amount();
    assert_eq!(a.edit_buffer(), Some("12,50"));
    a.cancel_edit();
    assert_eq!(a.edit_buffer(), None);

    a.start_edit_amount();
    for _ in 0..10 {
        a.pop_char();
    }
    a.push_char(' ');
    assert_eq!(a.confirm_edit_amount().map(|p| p.1), Some("\u{2014}".to_string()));
    assert_eq!(a.mail_invoices[1].amount, "\u{2014}");
}

#[test]
fn untouched_edit_keeps_the_amount() {
    let mut a = app_with_mails(1);
    a.mail_invoices[0].amount = "42,00 €".into();
    a.mail_selected = Some(0);
    a.start_edit_amount();
    assert_eq!(a.confirm_edit_amount().unwrap().1, "42,00 €");
    a.start_edit_amount();
    a.mail_invoices[0].amount = "\u{2014}".into();
}

#[test]
fn refresh_outcomes() {
    let mut a = app_with_mails(1);
    a.error = Some("old".into());
    a.begin_refresh();
    assert!(a.loading && a.error.is_none());
    let inv = Invoice {
        number: "1".into(),
        client: "c".into(),
        amount_cents: 1,
        currency: "EUR".into(),
        status: "Payee".into(),
        issue_date: "".into(),
        due_date: "".into(),
    };
    a.apply_refresh(Ok(vec![inv]), Err("403".into()), Err("timeout".into()));
    assert!(!a.loading);
    assert_eq!(a.invoices.len(), 1);
    assert_eq!(a.mail_invoices.len(), 1);
    assert_eq!(a.error.as_deref(), Some("Qonto fourn.: 403 | Gmail: timeout"));
    a.begin_refresh();
    a.apply_refresh(Ok(vec![]), Ok(vec![]), Ok(vec![]));
    assert!(a.error.is_none());
    assert!(a.invoices.is_empty() && a.mail_invoices.is_empty());
    assert_eq!(join_strings(&vec!["a".into(), "b".into(), "c".into()], ", "), "a, b, c");
}

#[test]
fn keys_and_refresh_period() {
    assert!(matches!(key_command(Key::Char('q')), Command::Quit));
    assert!(matches!(key_command(Key::Char('Q')), Command::Quit));
    assert!(matches!(key_command(Key::Esc), Command::Quit));
    assert!(matches!(key_command(Key::Char('R')), Command::Refresh));
    assert!(matches!(key_command(Key::Char('x')), Command::Nothing));
    assert!(matches!(key_command(Key::Other), Command::Nothing));
    assert!(refresh_due(300, 300));
    assert!(!refresh_due(299, 300));
}

#[test]
fn moving_down_in_an_empty_table_keeps_any_selection() {
    let mut a = App::new("q".into(), "g".into(), vec![]);
    a.mail_selected = Some(usize::MAX);
    a.mail_select_next();
    assert_eq!(a.mail_selected, Some(usize::MAX));
    // on day 1, no reminder is less than a week away
    a.reminder_selected = Some(usize::MAX);
    a.reminder_select_next(1, "2025-03");
    assert_eq!(a.reminder_selected, Some(usize::MAX));
}
