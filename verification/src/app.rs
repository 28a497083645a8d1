//! State of the interactive view: the invoices on screen, the selection in
//! each table, the reminders acknowledged this month, and the amount being
//! typed.
use crate::models::{
    copy_reminder, reminder_table, reminders, Invoice, MailInvoice, Reminder, SupplierInvoice,
};
use crate::text::{dec, push_dec, push_str, string_of, trim};
use vstd::prelude::*;

verus! {

/// The panel that has the keyboard.
#[derive(PartialEq, Eq, Structural)]
pub enum Panel {
    Reminders,
    Mail,
}

/// Whether an amount is being typed, and what has been typed so far.
pub enum AppMode {
    Normal,
    EditAmount(String),
}

/// The state of the view.
pub struct App {
    pub access_token: String,
    pub google_token: String,
    pub invoices: Vec<Invoice>,
    pub supplier_invoices: Vec<SupplierInvoice>,
    pub supplier_unavailable: bool,
    pub mail_invoices: Vec<MailInvoice>,
    /// Selected row of the mail table.
    pub mail_selected: Option<usize>,
    /// Selected row of the reminder table.
    pub reminder_selected: Option<usize>,
    pub active_panel: Panel,
    /// Keys of the reminders acknowledged (see `ack_key`).
    pub reminder_acks: Vec<String>,
    pub mode: AppMode,
    pub loading: bool,
    pub error: Option<String>,
}

// ---------------------------------------------------------------------------
// Reminders
// ---------------------------------------------------------------------------

/// The key under which a reminder is acknowledged for a month:
/// `YYYY-MM|day|label`.
pub open spec fn ack_key(month: Seq<char>, day: u32, label: Seq<char>) -> Seq<char> {
    month + seq!['|'] + dec(day as nat) + seq!['|'] + label
}

pub open spec fn keys(acks: Seq<String>) -> Seq<Seq<char>> {
    acks.map_values(|s: String| s@)
}

/// The reminders of the table's first `k` rows that are shown on day
/// `today`: those whose day is less than a week ahead (or past) and that were
/// not acknowledged this month; with each, its day minus today.
pub open spec fn visible_upto(acks: Seq<Seq<char>>, today: u32, month: Seq<char>, k: nat) -> Seq<(u32, Seq<char>, int)>
    decreases k,
{
    if k == 0 {
        Seq::empty()
    } else {
        let prev = visible_upto(acks, today, month, (k - 1) as nat);
        let row = reminder_table()[k - 1];
        let delta = row.0 - today;
        if delta >= 7 || acks.contains(ack_key(month, row.0, row.1)) {
            prev
        } else {
            prev.push((row.0, row.1, delta))
        }
    }
}

/// The reminders shown on day `today` of `month`, in table order.
pub open spec fn visible(acks: Seq<Seq<char>>, today: u32, month: Seq<char>) -> Seq<(u32, Seq<char>, int)> {
    visible_upto(acks, today, month, reminder_table().len())
}

pub open spec fn reminder_rows(v: Seq<(Reminder, i32)>) -> Seq<(u32, Seq<char>, int)> {
    v.map_values(|e: (Reminder, i32)| (e.0.day, e.0.label@, e.1 as int))
}

/// The key of a reminder for a month.
pub fn reminder_ack_key(month: &str, day: u32, label: &str) -> (r: String)
    ensures
        r@ == ack_key(month@, day, label@),
{
    let mut v: Vec<char> = Vec::new();
    push_str(&mut v, month);
    v.push('|');
    push_dec(&mut v, day as u64);
    v.push('|');
    push_str(&mut v, label);
    assert(v@ =~= ack_key(month@, day, label@));
    string_of(&v)
}

fn has_key(acks: &Vec<String>, key: &String) -> (r: bool)
    ensures
        r == keys(acks@).contains(key@),
{
    let mut i: usize = 0;
    while i < acks.len()
        invariant
            i <= acks.len(),
            forall|j: int| 0 <= j < i ==> acks@[j]@ != key@,
        decreases acks.len() - i,
    {
        if acks[i] == *key {
            assert(keys(acks@)[i as int] == key@);
            return true;
        }
        i += 1;
    }
    proof {
        if keys(acks@).contains(key@) {
            let j = choose|j: int| 0 <= j < keys(acks@).len() && keys(acks@)[j] == key@;
            assert(acks@[j]@ == key@);
        }
    }
    false
}

/// Fields that the reminder operations leave alone.
pub open spec fn same_but_reminders(a: App, b: App) -> bool {
    &&& a.access_token == b.access_token
    &&& a.google_token == b.google_token
    &&& a.invoices == b.invoices
    &&& a.supplier_invoices == b.supplier_invoices
    &&& a.supplier_unavailable == b.supplier_unavailable
    &&& a.mail_invoices == b.mail_invoices
    &&& a.mail_selected == b.mail_selected
    &&& a.active_panel == b.active_panel
    &&& a.mode == b.mode
    &&& a.loading == b.loading
    &&& a.error == b.error
}

/// Fields that the mail-table operations leave alone.
pub open spec fn same_but_mail(a: App, b: App) -> bool {
    &&& a.access_token == b.access_token
    &&& a.google_token == b.google_token
    &&& a.invoices == b.invoices
    &&& a.supplier_invoices == b.supplier_invoices
    &&& a.supplier_unavailable == b.supplier_unavailable
    &&& a.reminder_selected == b.reminder_selected
    &&& a.reminder_acks == b.reminder_acks
    &&& a.active_panel == b.active_panel
    &&& a.loading == b.loading
    &&& a.error == b.error
}

/// The next row after `sel` in a table of `len` rows, wrapping around; the
/// first row when nothing is selected.
pub open spec fn next_row(sel: Option<usize>, len: nat) -> Option<usize> {
    if len == 0 {
        sel
    } else {
        match sel {
            Some(i) => Some(((i + 1) % (len as int)) as usize),
            None => Some(0),
        }
    }
}

/// The row before `sel` in a table of `len` rows, wrapping around; the last
/// row when nothing (or the first row) is selected.
pub open spec fn prev_row(sel: Option<usize>, len: nat) -> Option<usize> {
    if len == 0 {
        sel
    } else {
        match sel {
            Some(i) => if i == 0 {
                Some((len - 1) as usize)
            } else {
                Some((i - 1) as usize)
            },
            None => Some((len - 1) as usize),
        }
    }
}

/// The selection kept after the table shrank to `len` rows.
pub open spec fn clamp_row(i: usize, len: nat) -> Option<usize> {
    if len == 0 {
        None
    } else if i < len {
        Some(i)
    } else {
        Some((len - 1) as usize)
    }
}

fn step_next(sel: Option<usize>, len: usize) -> (r: Option<usize>)
    requires
        len > 0,
        sel != Some(usize::MAX),
    ensures
        r == next_row(sel, len as nat),
{
    match sel {
        Some(i) => Some((i + 1) % len),
        None => Some(0),
    }
}

fn step_prev(sel: Option<usize>, len: usize) -> (r: Option<usize>)
    requires
        len > 0,
    ensures
        r == prev_row(sel, len as nat),
{
    match sel {
        Some(i) => if i == 0 {
            Some(len - 1)
        } else {
            Some(i - 1)
        },
        None => Some(len - 1),
    }
}

impl App {
    /// A view that is loading, with the mail panel active and nothing
    /// selected.
    pub fn new(access_token: String, google_token: String, reminder_acks: Vec<String>) -> (r: App)
        ensures
            r.access_token == access_token,
            r.google_token == google_token,
            r.reminder_acks == reminder_acks,
            r.invoices@.len() == 0,
            r.supplier_invoices@.len() == 0,
            r.mail_invoices@.len() == 0,
            !r.supplier_unavailable,
            r.mail_selected is None,
            r.reminder_selected is None,
            r.active_panel == Panel::Mail,
            r.mode is Normal,
            r.loading,
            r.error is None,
    {
        App {
            access_token,
            google_token,
            invoices: Vec::new(),
            supplier_invoices: Vec::new(),
            supplier_unavailable: false,
            mail_invoices: Vec::new(),
            mail_selected: None,
            reminder_selected: None,
            active_panel: Panel::Mail,
            reminder_acks,
            mode: AppMode::Normal,
            loading: true,
            error: None,
        }
    }

    /// The reminders to show on day `today` (1 to 31) of `month` (`YYYY-MM`),
    /// each with its day minus today.
    pub fn visible_reminders(&self, today: u32, month: &str) -> (r: Vec<(Reminder, i32)>)
        requires
            today <= i32::MAX,
        ensures
            reminder_rows(r@) == visible(keys(self.reminder_acks@), today, month@),
    {
        let table = reminders();
        let mut r: Vec<(Reminder, i32)> = Vec::new();
        let mut k: usize = 0;
        while k < table.len()
            invariant
                k <= table.len(),
                today <= i32::MAX,
                table.len() == reminder_table().len(),
                forall|i: int|
                    0 <= i < table.len() ==> table[i].day == #[trigger] reminder_table()[i].0
                        && table[i].label@ == reminder_table()[i].1,
                reminder_rows(r@) == visible_upto(keys(self.reminder_acks@), today, month@, k as nat),
            decreases table.len() - k,
        {
            let row = &table[k];
            let delta: i64 = row.day as i64 - today as i64;
            proof {
                assert(table[k as int].day == reminder_table()[k as int].0);
            }
            if delta < 7 {
                let key = reminder_ack_key(month, row.day, row.label.as_str());
                if !has_key(&self.reminder_acks, &key) {
                    r.push((copy_reminder(row), delta as i32));
                    assert(reminder_rows(r@) =~= reminder_rows(r@.drop_last()).push(
                        (row.day, row.label@, delta as int),
                    ));
                }
            }
            k += 1;
        }
        r
    }

    /// Acknowledges the selected reminder for this month and returns its key;
    /// the selection stays on the same row, or the last one, or goes when no
    /// reminder is left. Nothing happens when no shown reminder is selected.
    pub fn ack_selected_reminder(&mut self, today: u32, month: &str) -> (r: Option<String>)
        requires
            today <= i32::MAX,
        ensures
            ({
                let vis = visible(keys(old(self).reminder_acks@), today, month@);
                match old(self).reminder_selected {
                    Some(idx) if idx < vis.len() => {
                        let key = ack_key(month@, vis[idx as int].0, vis[idx as int].1);
                        let new_acks = if keys(old(self).reminder_acks@).contains(key) {
                            keys(old(self).reminder_acks@)
                        } else {
                            keys(old(self).reminder_acks@).push(key)
                        };
                        &&& r matches Some(k) && k@ == key
                        &&& keys(final(self).reminder_acks@) == new_acks
                        &&& final(self).reminder_selected == clamp_row(
                            idx,
                            visible(new_acks, today, month@).len(),
                        )
                        &&& same_but_reminders(*old(self), *final(self))
                    },
                    _ => r is None && *final(self) == *old(self),
                }
            }),
    {
        let idx = match self.reminder_selected {
            Some(i) => i,
            None => return None,
        };
        let vis = self.visible_reminders(today, month);
        if idx >= vis.len() {
            return None;
        }
        proof {
            assert(reminder_rows(vis@)[idx as int] == (vis@[idx as int].0.day, vis@[idx as int].0.label@, vis@[idx as int].1 as int));
        }
        let key = reminder_ack_key(month, vis[idx].0.day, vis[idx].0.label.as_str());
        if !has_key(&self.reminder_acks, &key) {
            self.reminder_acks.push(key.clone());
            assert(keys(self.reminder_acks@) =~= keys(old(self).reminder_acks@).push(key@));
        }
        let new_len = self.visible_reminders(today, month).len();
        if new_len == 0 {
            self.reminder_selected = None;
        } else if idx < new_len {
            self.reminder_selected = Some(idx);
        } else {
            self.reminder_selected = Some(new_len - 1);
        }
        Some(key)
    }

    /// Moves the reminder selection down, wrapping around.
    pub fn reminder_select_next(&mut self, today: u32, month: &str)
        requires
            today <= i32::MAX,
            visible(keys(old(self).reminder_acks@), today, month@).len() > 0 ==> old(self).reminder_selected
                != Some(usize::MAX),
        ensures
            final(self).reminder_selected == next_row(
                old(self).reminder_selected,
                visible(keys(old(self).reminder_acks@), today, month@).len(),
            ),
            final(self).reminder_acks == old(self).reminder_acks,
            same_but_reminders(*old(self), *final(self)),
    {
        let len = self.visible_reminders(today, month).len();
        if len == 0 {
            return ;
        }
        self.reminder_selected = step_next(self.reminder_selected, len);
    }

    /// Moves the reminder selection up, wrapping around.
    pub fn reminder_select_prev(&mut self, today: u32, month: &str)
        requires
            today <= i32::MAX,
        ensures
            final(self).reminder_selected == prev_row(
                old(self).reminder_selected,
                visible(keys(old(self).reminder_acks@), today, month@).len(),
            ),
            final(self).reminder_acks == old(self).reminder_acks,
            same_but_reminders(*old(self), *final(self)),
    {
        let len = self.visible_reminders(today, month).len();
        if len == 0 {
            return ;
        }
        self.reminder_selected = step_prev(self.reminder_selected, len);
    }

    /// Gives the keyboard to the other panel; entering the reminders selects
    /// the first one when none is selected and some are shown.
    pub fn switch_panel(&mut self, today: u32, month: &str)
        requires
            today <= i32::MAX,
        ensures
            old(self).active_panel == Panel::Mail ==> final(self).active_panel == Panel::Reminders
                && final(self).reminder_selected == (if old(self).reminder_selected is None
                && visible(keys(old(self).reminder_acks@), today, month@).len() > 0 {
                Some(0usize)
            } else {
                old(self).reminder_selected
            }),
            old(self).active_panel == Panel::Reminders ==> final(self).active_panel == Panel::Mail
                && final(self).reminder_selected == old(self).reminder_selected,
            final(self).reminder_acks == old(self).reminder_acks,
            final(self).mail_invoices == old(self).mail_invoices,
            final(self).mail_selected == old(self).mail_selected,
            final(self).mode == old(self).mode,
            final(self).invoices == old(self).invoices,
            final(self).supplier_invoices == old(self).supplier_invoices,
            final(self).supplier_unavailable == old(self).supplier_unavailable,
            final(self).access_token == old(self).access_token,
            final(self).google_token == old(self).google_token,
            final(self).loading == old(self).loading,
            final(self).error == old(self).error,
    {
        match self.active_panel {
            Panel::Mail => {
                if self.reminder_selected.is_none() && self.visible_reminders(today, month).len()
                    > 0 {
                    self.reminder_selected = Some(0);
                }
                self.active_panel = Panel::Reminders;
            },
            Panel::Reminders => {
                self.active_panel = Panel::Mail;
            },
        }
    }
}

/// What typing starts from: the current amount, or nothing when it is "—".
pub open spec fn edit_start(amount: Seq<char>) -> Seq<char> {
    if amount == crate::gmail::api::dash() {
        Seq::empty()
    } else {
        amount
    }
}

/// The amount set from what was typed: trimmed, or "—" when blank.
pub open spec fn confirmed_amount(typed: Seq<char>) -> Seq<char> {
    if trim(typed).len() == 0 {
        crate::gmail::api::dash()
    } else {
        trim(typed)
    }
}

impl App {
    /// Moves the mail selection down, wrapping around.
    pub fn mail_select_next(&mut self)
        requires
            old(self).mail_invoices@.len() > 0 ==> old(self).mail_selected != Some(usize::MAX),
        ensures
            final(self).mail_selected == next_row(old(self).mail_selected, old(self).mail_invoices@.len()),
            final(self).mail_invoices == old(self).mail_invoices,
            final(self).mode == old(self).mode,
            same_but_mail(*old(self), *final(self)),
    {
        let len = self.mail_invoices.len();
        if len == 0 {
            return ;
        }
        self.mail_selected = step_next(self.mail_selected, len);
    }

    /// Moves the mail selection up, wrapping around.
    pub fn mail_select_prev(&mut self)
        ensures
            final(self).mail_selected == prev_row(old(self).mail_selected, old(self).mail_invoices@.len()),
            final(self).mail_invoices == old(self).mail_invoices,
            final(self).mode == old(self).mode,
            same_but_mail(*old(self), *final(self)),
    {
        let len = self.mail_invoices.len();
        if len == 0 {
            return ;
        }
        self.mail_selected = step_prev(self.mail_selected, len);
    }

    /// The message id and stored PDF path of the selected mail, for the
    /// viewer to open; `None` when no mail is selected.
    pub fn open_selected_pdf(&self) -> (r: Option<(String, Option<String>)>)
        ensures
            match self.mail_selected {
                Some(i) if i < self.mail_invoices@.len() => r matches Some(p) && p.0
                    == self.mail_invoices@[i as int].message_id && p.1
                    == self.mail_invoices@[i as int].pdf_path,
                _ => r is None,
            },
    {
        let i = match self.mail_selected {
            Some(i) => i,
            None => return None,
        };
        if i >= self.mail_invoices.len() {
            return None;
        }
        let inv = &self.mail_invoices[i];
        Some((inv.message_id.clone(), crate::models::copy_opt(&inv.pdf_path)))
    }

    /// Removes the selected mail from the table and returns its message id
    /// and PDF path; the selection stays on the same row, or the last one, or
    /// goes when the table is empty.
    pub fn ignore_selected(&mut self) -> (r: Option<(String, Option<String>)>)
        ensures
            match old(self).mail_selected {
                Some(i) if i < old(self).mail_invoices@.len() => {
                    &&& r matches Some(p) && p.0 == old(self).mail_invoices@[i as int].message_id
                        && p.1 == old(self).mail_invoices@[i as int].pdf_path
                    &&& final(self).mail_invoices@ == old(self).mail_invoices@.remove(i as int)
                    &&& final(self).mail_selected == clamp_row(i, (old(self).mail_invoices@.len() - 1) as nat)
                    &&& final(self).mode == old(self).mode
                    &&& same_but_mail(*old(self), *final(self))
                },
                _ => r is None && *final(self) == *old(self),
            },
    {
        let i = match self.mail_selected {
            Some(i) => i,
            None => return None,
        };
        if i >= self.mail_invoices.len() {
            return None;
        }
        let msg_id = self.mail_invoices[i].message_id.clone();
        let pdf_path = crate::models::copy_opt(&self.mail_invoices[i].pdf_path);
        self.mail_invoices.remove(i);
        let len = self.mail_invoices.len();
        if len == 0 {
            self.mail_selected = None;
        } else if i < len {
            self.mail_selected = Some(i);
        } else {
            self.mail_selected = Some(len - 1);
        }
        Some((msg_id, pdf_path))
    }

    /// Starts typing the amount of the selected mail, from its current amount
    /// (from nothing when it has none, shown as "—").
    pub fn start_edit_amount(&mut self)
        ensures
            match old(self).mail_selected {
                Some(i) if i < old(self).mail_invoices@.len() => final(self).mode matches AppMode::EditAmount(b)
                    && b@ == edit_start(old(self).mail_invoices@[i as int].amount@),
                _ => final(self).mode == old(self).mode,
            },
            final(self).mail_invoices == old(self).mail_invoices,
            final(self).mail_selected == old(self).mail_selected,
            same_but_mail(*old(self), *final(self)),
    {
        let i = match self.mail_selected {
            Some(i) => i,
            None => return ,
        };
        if i >= self.mail_invoices.len() {
            return ;
        }
        proof {
            reveal_strlit("\u{2014}");
            assert("\u{2014}"@ =~= crate::gmail::api::dash());
        }
        let current = if crate::text::same_str(self.mail_invoices[i].amount.as_str(), "\u{2014}") {
            String::new()
        } else {
            self.mail_invoices[i].amount.clone()
        };
        self.mode = AppMode::EditAmount(current);
    }

    /// Adds a character to the amount being typed.
    pub fn push_char(&mut self, c: char)
        ensures
            match old(self).mode {
                AppMode::EditAmount(b) => final(self).mode matches AppMode::EditAmount(nb) && nb@
                    == b@.push(c),
                AppMode::Normal => final(self).mode is Normal,
            },
            final(self).mail_invoices == old(self).mail_invoices,
            final(self).mail_selected == old(self).mail_selected,
            same_but_mail(*old(self), *final(self)),
    {
        if let AppMode::EditAmount(buf) = &mut self.mode {
            crate::text::push_char(buf, c);
        }
    }

    /// Removes the last character of the amount being typed.
    pub fn pop_char(&mut self)
        ensures
            match old(self).mode {
                AppMode::EditAmount(b) => final(self).mode matches AppMode::EditAmount(nb) && nb@
                    == (if b@.len() == 0 {
                    b@
                } else {
                    b@.drop_last()
                }),
                AppMode::Normal => final(self).mode is Normal,
            },
            final(self).mail_invoices == old(self).mail_invoices,
            final(self).mail_selected == old(self).mail_selected,
            same_but_mail(*old(self), *final(self)),
    {
        if let AppMode::EditAmount(buf) = &mut self.mode {
            crate::text::pop_char(buf);
        }
    }

    /// Stops typing without changing anything.
    pub fn cancel_edit(&mut self)
        ensures
            final(self).mode is Normal,
            final(self).mail_invoices == old(self).mail_invoices,
            final(self).mail_selected == old(self).mail_selected,
            same_but_mail(*old(self), *final(self)),
    {
        self.mode = AppMode::Normal;
    }

    /// Whether an amount is being typed.
    pub fn is_editing(&self) -> (r: bool)
        ensures
            r == (self.mode is EditAmount),
    {
        match self.mode {
            AppMode::EditAmount(_) => true,
            AppMode::Normal => false,
        }
    }

    /// The amount typed so far, while typing.
    pub fn edit_buffer(&self) -> (r: Option<&str>)
        ensures
            match self.mode {
                AppMode::EditAmount(b) => r matches Some(s) && s@ == b@,
                AppMode::Normal => r is None,
            },
    {
        match &self.mode {
            AppMode::EditAmount(buf) => Some(buf.as_str()),
            AppMode::Normal => None,
        }
    }

    /// Sets the typed amount (trimmed; "—" when blank) on the selected mail,
    /// leaves typing, and returns the message id and the new amount. Nothing
    /// happens when no amount is being typed or no mail is selected.
    pub fn confirm_edit_amount(&mut self) -> (r: Option<(String, String)>)
        ensures
            match (old(self).mode, old(self).mail_selected) {
                (AppMode::EditAmount(b), Some(i)) if i < old(self).mail_invoices@.len() => {
                    let amount = confirmed_amount(b@);
                    let old_inv = old(self).mail_invoices@[i as int];
                    let new_inv = final(self).mail_invoices@[i as int];
                    &&& r matches Some(p) && p.0@ == old_inv.message_id@ && p.1@ == amount
                    &&& final(self).mode is Normal
                    &&& final(self).mail_invoices@.len() == old(self).mail_invoices@.len()
                    &&& forall|j: int|
                        0 <= j < old(self).mail_invoices@.len() && j != i
                            ==> #[trigger] final(self).mail_invoices@[j] == old(self).mail_invoices@[j]
                    &&& new_inv.amount@ == amount
                    &&& new_inv.message_id == old_inv.message_id
                    &&& new_inv.subject == old_inv.subject
                    &&& new_inv.from == old_inv.from
                    &&& new_inv.date == old_inv.date
                    &&& new_inv.kind == old_inv.kind
                    &&& new_inv.link == old_inv.link
                    &&& new_inv.pdf_path == old_inv.pdf_path
                    &&& final(self).mail_selected == old(self).mail_selected
                    &&& same_but_mail(*old(self), *final(self))
                },
                _ => r is None && *final(self) == *old(self),
            },
    {
        let buf = match &self.mode {
            AppMode::EditAmount(b) => b.clone(),
            AppMode::Normal => return None,
        };
        let i = match self.mail_selected {
            Some(i) => i,
            None => return None,
        };
        if i >= self.mail_invoices.len() {
            return None;
        }
        let chars = crate::text::chars_of(buf.as_str());
        let t = crate::text::trim_ws(&chars);
        let amount = if t.len() == 0 {
            let mut d: Vec<char> = Vec::new();
            d.push('\u{2014}');
            string_of(&d)
        } else {
            string_of(&t)
        };
        let msg_id = self.mail_invoices[i].message_id.clone();
        let old_inv = &self.mail_invoices[i];
        let updated = MailInvoice {
            message_id: old_inv.message_id.clone(),
            subject: old_inv.subject.clone(),
            from: old_inv.from.clone(),
            date: old_inv.date.clone(),
            amount: amount.clone(),
            kind: old_inv.kind.clone(),
            link: crate::models::copy_opt(&old_inv.link),
            pdf_path: crate::models::copy_opt(&old_inv.pdf_path),
        };
        self.mail_invoices.set(i, updated);
        self.mode = AppMode::Normal;
        Some((msg_id, amount))
    }
}

// ---------------------------------------------------------------------------
// Refresh
// ---------------------------------------------------------------------------

/// The message shown when some sources could not be read: one part per
/// failed source, in the order clients, suppliers, mails, joined by " | ".
pub open spec fn refresh_errors(
    client: Option<Seq<char>>,
    supplier: Option<Seq<char>>,
    mail: Option<Seq<char>>,
) -> Seq<Seq<char>> {
    let a = match client {
        Some(e) => seq!["Qonto clients: "@ + e],
        None => Seq::empty(),
    };
    let b = match supplier {
        Some(e) => seq!["Qonto fourn.: "@ + e],
        None => Seq::empty(),
    };
    let c = match mail {
        Some(e) => seq!["Gmail: "@ + e],
        None => Seq::empty(),
    };
    a + b + c
}

pub open spec fn err_view<T>(r: Result<T, String>) -> Option<Seq<char>> {
    match r {
        Ok(_) => None,
        Err(e) => Some(e@),
    }
}

fn labelled(label: &str, e: &String) -> (r: String)
    ensures
        r@ == label@ + e@,
{
    let mut s = String::from_str(label);
    s.append(e.as_str());
    s
}

impl App {
    /// Marks the view as loading and clears the last error.
    pub fn begin_refresh(&mut self)
        ensures
            final(self).loading,
            final(self).error is None,
            final(self).mail_invoices == old(self).mail_invoices,
            final(self).invoices == old(self).invoices,
            final(self).supplier_invoices == old(self).supplier_invoices,
            final(self).mail_selected == old(self).mail_selected,
            final(self).reminder_selected == old(self).reminder_selected,
            final(self).reminder_acks == old(self).reminder_acks,
            final(self).mode == old(self).mode,
            final(self).active_panel == old(self).active_panel,
            final(self).supplier_unavailable == old(self).supplier_unavailable,
            final(self).access_token == old(self).access_token,
            final(self).google_token == old(self).google_token,
    {
        self.loading = true;
        self.error = None;
    }

    /// Takes the outcome of a refresh: each source that was read replaces its
    /// table; the sources that failed are reported together in `error`.
    pub fn apply_refresh(
        &mut self,
        client: Result<Vec<Invoice>, String>,
        supplier: Result<Vec<SupplierInvoice>, String>,
        mail: Result<Vec<MailInvoice>, String>,
    )
        ensures
            !final(self).loading,
            final(self).invoices == match client {
                Ok(v) => v,
                Err(_) => old(self).invoices,
            },
            final(self).supplier_invoices == match supplier {
                Ok(v) => v,
                Err(_) => old(self).supplier_invoices,
            },
            final(self).mail_invoices == match mail {
                Ok(v) => v,
                Err(_) => old(self).mail_invoices,
            },
            ({
                let errs = refresh_errors(err_view(client), err_view(supplier), err_view(mail));
                if errs.len() == 0 {
                    final(self).error == old(self).error
                } else {
                    final(self).error matches Some(e) && e@ == crate::text::join(errs, " | "@)
                }
            }),
            final(self).mail_selected == old(self).mail_selected,
            final(self).reminder_selected == old(self).reminder_selected,
            final(self).reminder_acks == old(self).reminder_acks,
            final(self).mode == old(self).mode,
            final(self).active_panel == old(self).active_panel,
            final(self).supplier_unavailable == old(self).supplier_unavailable,
            final(self).access_token == old(self).access_token,
            final(self).google_token == old(self).google_token,
    {
        self.loading = false;
        let mut errors: Vec<String> = Vec::new();
        match client {
            Ok(v) => self.invoices = v,
            Err(e) => errors.push(labelled("Qonto clients: ", &e)),
        }
        match supplier {
            Ok(v) => self.supplier_invoices = v,
            Err(e) => errors.push(labelled("Qonto fourn.: ", &e)),
        }
        match mail {
            Ok(v) => self.mail_invoices = v,
            Err(e) => errors.push(labelled("Gmail: ", &e)),
        }
        proof {
            assert(crate::gmail::api::names(errors@) =~= refresh_errors(
                err_view(client),
                err_view(supplier),
                err_view(mail),
            ));
        }
        if errors.len() > 0 {
            self.error = Some(join_strings(&errors, " | "));
        }
    }
}

/// The strings of `parts` joined with `sep`.
pub fn join_strings(parts: &Vec<String>, sep: &str) -> (r: String)
    ensures
        r@ == crate::text::join(crate::gmail::api::names(parts@), sep@),
{
    let mut s = String::new();
    let mut i: usize = 0;
    while i < parts.len()
        invariant
            i <= parts.len(),
            s@ == crate::text::join(crate::gmail::api::names(parts@.take(i as int)), sep@),
        decreases parts.len() - i,
    {
        proof {
            assert(crate::gmail::api::names(parts@.take(i + 1)) =~= crate::gmail::api::names(
                parts@.take(i as int),
            ).push(parts@[i as int]@));
            crate::text::lemma_join_push(
                crate::gmail::api::names(parts@.take(i as int)),
                sep@,
                parts@[i as int]@,
            );
        }
        if i > 0 {
            s.append(sep);
        }
        s.append(parts[i].as_str());
        i += 1;
    }
    assert(parts@.take(parts.len() as int) =~= parts@);
    s
}

// ---------------------------------------------------------------------------
// Keys
// ---------------------------------------------------------------------------

/// A key press, as far as the main loop tells keys apart.
pub enum Key {
    Char(char),
    Esc,
    Other,
}

/// What the main loop does for a key press.
pub enum Command {
    Quit,
    Refresh,
    Nothing,
}

/// `q`, `Q` and Esc quit; `r` and `R` refresh; other keys do nothing.
pub fn key_command(key: Key) -> (r: Command)
    ensures
        r is Quit <==> (key matches Key::Char(c) && (c == 'q' || c == 'Q') || key is Esc),
        r is Refresh <==> (key matches Key::Char(c) && (c == 'r' || c == 'R')),
{
    match key {
        Key::Char(c) => if c == 'q' || c == 'Q' {
            Command::Quit
        } else if c == 'r' || c == 'R' {
            Command::Refresh
        } else {
            Command::Nothing
        },
        Key::Esc => Command::Quit,
        Key::Other => Command::Nothing,
    }
}

/// An automatic refresh is due once `period_secs` whole seconds have passed
/// since the last one.
pub fn refresh_due(elapsed_secs: u64, period_secs: u64) -> (r: bool)
    ensures
        r == (elapsed_secs >= period_secs),
{
    elapsed_secs >= period_secs
}

// ---------------------------------------------------------------------------
// Laws
// ---------------------------------------------------------------------------

proof fn lemma_visible_upto_entries(acks: Seq<Seq<char>>, today: u32, month: Seq<char>, k: nat)
    requires
        k <= reminder_table().len(),
    ensures
        forall|i: int|
            0 <= i < visible_upto(acks, today, month, k).len() ==> {
                let e = #[trigger] visible_upto(acks, today, month, k)[i];
                &&& e.2 == e.0 - today
                &&& e.2 < 7
                &&& !acks.contains(ack_key(month, e.0, e.1))
            },
    decreases k,
{
    if k > 0 {
        lemma_visible_upto_entries(acks, today, month, (k - 1) as nat);
        let prev = visible_upto(acks, today, month, (k - 1) as nat);
        let cur = visible_upto(acks, today, month, k);
        assert forall|i: int| 0 <= i < cur.len() && i < prev.len() implies cur[i] == prev[i] by {}
    }
}

/// A reminder on screen is never one acknowledged for the month, and is less
/// than a week away; its delay is its day minus today.
pub proof fn shown_reminders_are_due_and_open(acks: Seq<Seq<char>>, today: u32, month: Seq<char>)
    ensures
        forall|i: int|
            0 <= i < visible(acks, today, month).len() ==> {
                let e = #[trigger] visible(acks, today, month)[i];
                &&& e.2 == e.0 - today
                &&& e.2 < 7
                &&& !acks.contains(ack_key(month, e.0, e.1))
            },
{
    lemma_visible_upto_entries(acks, today, month, reminder_table().len());
}

proof fn lemma_ack_shrinks(acks: Seq<Seq<char>>, today: u32, month: Seq<char>, key: Seq<char>, k: nat)
    requires
        k <= reminder_table().len(),
    ensures
        visible_upto(acks.push(key), today, month, k).len() <= visible_upto(acks, today, month, k).len(),
        (exists|i: int|
            0 <= i < visible_upto(acks, today, month, k).len() && ack_key(
                month,
                #[trigger] visible_upto(acks, today, month, k)[i].0,
                visible_upto(acks, today, month, k)[i].1,
            ) == key) ==> visible_upto(acks.push(key), today, month, k).len() < visible_upto(
            acks,
            today,
            month,
            k,
        ).len(),
    decreases k,
{
    if k > 0 {
        let km = (k - 1) as nat;
        lemma_ack_shrinks(acks, today, month, key, km);
        let row = reminder_table()[k - 1];
        let rk = ack_key(month, row.0, row.1);
        let prev = visible_upto(acks, today, month, km);
        let cur = visible_upto(acks, today, month, k);
        assert(acks.push(key).contains(rk) <== acks.contains(rk)) by {
            if acks.contains(rk) {
                let j = choose|j: int| 0 <= j < acks.len() && acks[j] == rk;
                assert(acks.push(key)[j] == rk);
            }
        }
        assert(acks.push(key).contains(key)) by {
            assert(acks.push(key)[acks.len() as int] == key);
        }
        if exists|i: int|
            0 <= i < cur.len() && ack_key(month, #[trigger] cur[i].0, cur[i].1) == key {
            let i = choose|i: int| 0 <= i < cur.len() && ack_key(month, #[trigger] cur[i].0, cur[i].1) == key;
            if i < prev.len() {
                assert(cur[i] == prev[i]);
            }
        }
    }
}

/// How many of the table's first `k` rows are shown with `acks` and have the
/// key `key`.
spec fn shown_with_key(acks: Seq<Seq<char>>, today: u32, month: Seq<char>, key: Seq<char>, k: nat) -> nat
    decreases k,
{
    if k == 0 {
        0
    } else {
        let row = reminder_table()[k - 1];
        let rk = ack_key(month, row.0, row.1);
        let here: nat = if rk == key && row.0 - today < 7 && !acks.contains(rk) {
            1
        } else {
            0
        };
        shown_with_key(acks, today, month, key, (k - 1) as nat) + here
    }
}

proof fn lemma_ack_exact(acks: Seq<Seq<char>>, today: u32, month: Seq<char>, key: Seq<char>, k: nat)
    requires
        k <= reminder_table().len(),
    ensures
        visible_upto(acks.push(key), today, month, k).len() + shown_with_key(acks, today, month, key, k)
            == visible_upto(acks, today, month, k).len(),
    decreases k,
{
    if k > 0 {
        let km = (k - 1) as nat;
        lemma_ack_exact(acks, today, month, key, km);
        let row = reminder_table()[k - 1];
        let rk = ack_key(month, row.0, row.1);
        assert(acks.push(key).contains(rk) <==> (acks.contains(rk) || rk == key)) by {
            if acks.contains(rk) {
                let j = choose|j: int| 0 <= j < acks.len() && acks[j] == rk;
                assert(acks.push(key)[j] == rk);
            }
            if rk == key {
                assert(acks.push(key)[acks.len() as int] == key);
            }
            if acks.push(key).contains(rk) {
                let j = choose|j: int| 0 <= j < acks.push(key).len() && acks.push(key)[j] == rk;
                if j < acks.len() {
                    assert(acks[j] == rk);
                }
            }
        }
    }
}

/// The key of a reminder ends with its label.
proof fn lemma_key_tail(month: Seq<char>, day: u32, label: Seq<char>, t: int)
    requires
        0 <= t < label.len(),
    ensures
        ack_key(month, day, label)[ack_key(month, day, label).len() - 1 - t] == label[label.len() - 1 - t],
{
}

/// No two rows of the reminder table share a key, whatever the month.
proof fn lemma_table_keys_distinct(month: Seq<char>, i: int, j: int)
    requires
        0 <= i < j < reminder_table().len(),
    ensures
        ack_key(month, reminder_table()[i].0, reminder_table()[i].1) != ack_key(
            month,
            reminder_table()[j].0,
            reminder_table()[j].1,
        ),
{
    reveal_strlit("Envoyer l'export comptable");
    reveal_strlit("Saisir temps dans Bound");
    reveal_strlit("Envoyer la facture mensuelle");
    reveal_strlit("Saisir indemnites de route");
    let a = reminder_table()[i];
    let b = reminder_table()[j];
    lemma_key_tail(month, a.0, a.1, 0);
    lemma_key_tail(month, b.0, b.1, 0);
    lemma_key_tail(month, a.0, a.1, 1);
    lemma_key_tail(month, b.0, b.1, 1);
    lemma_key_tail(month, a.0, a.1, 2);
    lemma_key_tail(month, b.0, b.1, 2);
}

proof fn lemma_shown_with_key_at_most_one(acks: Seq<Seq<char>>, today: u32, month: Seq<char>, key: Seq<char>)
    ensures
        shown_with_key(acks, today, month, key, reminder_table().len()) <= 1,
{
    let t = reminder_table();
    assert forall|i: int, j: int| 0 <= i < j < t.len() implies !(ack_key(month, t[i].0, t[i].1) == key
        && ack_key(month, t[j].0, t[j].1) == key) by {
        lemma_table_keys_distinct(month, i, j);
    }
    assert(ack_key(month, t[0].0, t[0].1) == key ==> ack_key(month, t[1].0, t[1].1) != key);
    assert(ack_key(month, t[0].0, t[0].1) == key ==> ack_key(month, t[2].0, t[2].1) != key);
    assert(ack_key(month, t[0].0, t[0].1) == key ==> ack_key(month, t[3].0, t[3].1) != key);
    assert(ack_key(month, t[1].0, t[1].1) == key ==> ack_key(month, t[2].0, t[2].1) != key);
    assert(ack_key(month, t[1].0, t[1].1) == key ==> ack_key(month, t[3].0, t[3].1) != key);
    assert(ack_key(month, t[2].0, t[2].1) == key ==> ack_key(month, t[3].0, t[3].1) != key);
    reveal_with_fuel(shown_with_key, 5);
}

/// Acknowledging a reminder on screen takes it off the screen: the key
/// recorded hides every row with its day and label, and the list gets
/// exactly one row shorter.
pub proof fn acknowledged_reminder_leaves_screen(acks: Seq<Seq<char>>, today: u32, month: Seq<char>, idx: int)
    requires
        0 <= idx < visible(acks, today, month).len(),
    ensures
        ({
            let e = visible(acks, today, month)[idx];
            let after = visible(acks.push(ack_key(month, e.0, e.1)), today, month);
            &&& forall|i: int| 0 <= i < after.len() ==> !((#[trigger] after[i]).0 == e.0 && after[i].1 == e.1)
            &&& after.len() + 1 == visible(acks, today, month).len()
        }),
{
    let e = visible(acks, today, month)[idx];
    let key = ack_key(month, e.0, e.1);
    let acks2 = acks.push(key);
    assert(acks2[acks.len() as int] == key);
    assert(acks2.contains(key));
    shown_reminders_are_due_and_open(acks2, today, month);
    lemma_ack_shrinks(acks, today, month, key, reminder_table().len());
    lemma_ack_exact(acks, today, month, key, reminder_table().len());
    lemma_shown_with_key_at_most_one(acks, today, month, key);
}

/// Moving the selection down then up, or up then down, comes back to the
/// same row; every move lands inside a non-empty table, and a selection kept
/// after a table shrank is inside it.
pub proof fn selection_moves_are_inverse(i: usize, len: nat)
    requires
        i < len,
        len <= usize::MAX,
    ensures
        prev_row(next_row(Some(i), len), len) == Some(i),
        next_row(prev_row(Some(i), len), len) == Some(i),
        next_row(Some(i), len) matches Some(j) && j < len,
        prev_row(Some(i), len) matches Some(j) && j < len,
        clamp_row(i, len) == Some(i),
        forall|m: nat| #[trigger] clamp_row(i, m) matches Some(j) ==> j < m,
{
    let l = len as int;
    if i + 1 < l {
        assert((i + 1) % l == i + 1) by (nonlinear_arith)
            requires
                0 <= i + 1 < l,
        ;
    } else {
        assert((i + 1) % l == 0) by (nonlinear_arith)
            requires
                i + 1 == l,
                l > 0,
        ;
    }
    if i > 0 {
        let ii = i as int;
        assert(ii % l == ii) by (nonlinear_arith)
            requires
                0 <= ii < l,
        ;
    } else {
        assert((l - 1 + 1) % l == 0) by (nonlinear_arith)
            requires
                l > 0,
        ;
    }
}

/// After a refresh that clears the error first, the view shows an error
/// exactly when a source failed, with one part per failed source.
pub proof fn refresh_error_iff_failure(
    client: Option<Seq<char>>,
    supplier: Option<Seq<char>>,
    mail: Option<Seq<char>>,
)
    ensures
        (refresh_errors(client, supplier, mail).len() == 0) == (client is None && supplier is None
            && mail is None),
        refresh_errors(client, supplier, mail).len() == (if client is Some {
            1int
        } else {
            0
        }) + (if supplier is Some {
            1int
        } else {
            0
        }) + (if mail is Some {
            1int
        } else {
            0
        }),
{
}

/// Starting to edit an amount and confirming without typing leaves it as it
/// was, when it is "—" or already trimmed and not blank.
pub proof fn untouched_edit_keeps_amount(amount: Seq<char>)
    requires
        amount == crate::gmail::api::dash() || (trim(amount) == amount && amount.len() > 0),
    ensures
        confirmed_amount(edit_start(amount)) == amount,
{
    if amount == crate::gmail::api::dash() {
        let e = Seq::<char>::empty();
        assert(crate::text::lead_len(e, crate::text::ws()) == 0);
        assert(trim(e).len() == 0);
    }
}

proof fn lemma_visible_upto_complete(acks: Seq<Seq<char>>, today: u32, month: Seq<char>, k: nat, t: int)
    requires
        k <= reminder_table().len(),
        0 <= t < k,
        reminder_table()[t].0 - today < 7,
        !acks.contains(ack_key(month, reminder_table()[t].0, reminder_table()[t].1)),
    ensures
        visible_upto(acks, today, month, k).contains(
            (reminder_table()[t].0, reminder_table()[t].1, reminder_table()[t].0 - today),
        ),
    decreases k,
{
    let e = (reminder_table()[t].0, reminder_table()[t].1, reminder_table()[t].0 - today);
    let prev = visible_upto(acks, today, month, (k - 1) as nat);
    let cur = visible_upto(acks, today, month, k);
    if t == k - 1 {
        assert(cur == prev.push(e));
        assert(cur[prev.len() as int] == e);
    } else {
        lemma_visible_upto_complete(acks, today, month, (k - 1) as nat, t);
        let i = choose|i: int| 0 <= i < prev.len() && prev[i] == e;
        if cur != prev {
            assert(cur[i] == e);
        }
    }
}

/// Every reminder due within a week (its day minus today below 7, including
/// today itself and the days already past) that was not acknowledged this
/// month is shown, with its day minus today.
pub proof fn due_reminders_are_shown(acks: Seq<Seq<char>>, today: u32, month: Seq<char>)
    ensures
        forall|t: int|
            0 <= t < reminder_table().len() && #[trigger] reminder_table()[t].0 - today < 7 && !acks.contains(
                ack_key(month, reminder_table()[t].0, reminder_table()[t].1),
            ) ==> visible(acks, today, month).contains(
                (reminder_table()[t].0, reminder_table()[t].1, reminder_table()[t].0 - today),
            ),
{
    assert forall|t: int|
        0 <= t < reminder_table().len() && #[trigger] reminder_table()[t].0 - today < 7 && !acks.contains(
            ack_key(month, reminder_table()[t].0, reminder_table()[t].1),
        ) implies visible(acks, today, month).contains(
        (reminder_table()[t].0, reminder_table()[t].1, reminder_table()[t].0 - today),
    ) by {
        lemma_visible_upto_complete(acks, today, month, reminder_table().len(), t);
    }
}

/// How the selection moves in a table of `len` rows: down goes to the next
/// row and from the last row back to the first; up goes to the row before and
/// from the first row to the last; with nothing selected, down picks the
/// first row and up the last; in an empty table nothing changes. A table that
/// shrinks keeps the selected row when it is still there, else picks its last
/// row, and has no selection when it is empty.
pub proof fn selection_wraps_around(sel: Option<usize>, i: usize, len: nat)
    requires
        len <= usize::MAX,
    ensures
        len == 0 ==> next_row(sel, len) == sel && prev_row(sel, len) == sel,
        len > 0 ==> next_row(None, len) == Some(0usize) && prev_row(None, len) == Some((len - 1) as usize),
        i + 1 < len ==> next_row(Some(i), len) == Some((i + 1) as usize),
        i + 1 == len ==> next_row(Some(i), len) == Some(0usize),
        0 < i < len ==> prev_row(Some(i), len) == Some((i - 1) as usize),
        len > 0 ==> prev_row(Some(0usize), len) == Some((len - 1) as usize),
        clamp_row(i, len) == if len == 0 {
            None
        } else if i < len {
            Some(i)
        } else {
            Some((len - 1) as usize)
        },
{
    let l = len as int;
    if i + 1 < l {
        assert((i + 1) % l == i + 1) by (nonlinear_arith)
            requires
                0 <= i + 1 < l,
        ;
    }
    if i + 1 == l {
        assert((i + 1) % l == 0) by (nonlinear_arith)
            requires
                i + 1 == l,
                l > 0,
        ;
    }
}

} // verus!
