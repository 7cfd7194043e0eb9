//! Tasks: the central entity, its per-field mutators, and the computation of
//! the next due date of a recurring task.

use vstd::prelude::*;

use crate::calendar::{
    spec_same_date, spec_ts_add_days, spec_ts_before, same_date, ts_add_days, ts_before, ts_valid,
    weekday_of, Timestamp,
};

verus! {

/// How often a recurring task repeats.
#[derive(Clone, Copy, PartialEq, Eq, Structural, Debug)]
pub enum RecurringFrequency {
    Daily,
    Weekdays,
    Weekly,
    Monthly,
    Yearly,
}

/// One to-do item. Optional text is `None` when absent; `completed_at` is
/// set exactly when `is_completed` holds (see `task_wf`).
pub struct Task {
    pub id: u32,
    pub title: Vec<char>,
    pub description: Option<Vec<char>>,
    pub list_id: u32,
    pub due_date: Option<Timestamp>,
    pub reminder_date: Option<Timestamp>,
    pub recurring_frequency: Option<RecurringFrequency>,
    pub is_completed: bool,
    pub completed_at: Option<Timestamp>,
    pub is_in_my_day: bool,
    pub notes: Option<Vec<char>>,
    pub created_at: Timestamp,
    pub updated_at: Timestamp,
}

/// The mathematical value of a `Task`: the same fields with text as
/// character sequences.
#[verifier::ext_equal]
pub ghost struct TaskView {
    pub id: u32,
    pub title: Seq<char>,
    pub description: Option<Seq<char>>,
    pub list_id: u32,
    pub due_date: Option<Timestamp>,
    pub reminder_date: Option<Timestamp>,
    pub recurring_frequency: Option<RecurringFrequency>,
    pub is_completed: bool,
    pub completed_at: Option<Timestamp>,
    pub is_in_my_day: bool,
    pub notes: Option<Seq<char>>,
    pub created_at: Timestamp,
    pub updated_at: Timestamp,
}

impl View for Task {
    type V = TaskView;

    open spec fn view(&self) -> TaskView {
        TaskView {
            id: self.id,
            title: self.title@,
            description: self.description.deep_view(),
            list_id: self.list_id,
            due_date: self.due_date,
            reminder_date: self.reminder_date,
            recurring_frequency: self.recurring_frequency,
            is_completed: self.is_completed,
            completed_at: self.completed_at,
            is_in_my_day: self.is_in_my_day,
            notes: self.notes.deep_view(),
            created_at: self.created_at,
            updated_at: self.updated_at,
        }
    }
}

impl DeepView for Task {
    type V = TaskView;

    open spec fn deep_view(&self) -> TaskView {
        self.view()
    }
}

/// Well-formedness of a task: every timestamp in it is a supported calendar
/// value, and the completion stamp is present exactly when the task is
/// completed.
pub open spec fn task_wf(t: TaskView) -> bool {
    &&& ts_valid(t.created_at)
    &&& ts_valid(t.updated_at)
    &&& (t.due_date matches Some(d) ==> ts_valid(d))
    &&& (t.reminder_date matches Some(d) ==> ts_valid(d))
    &&& (t.completed_at matches Some(d) ==> ts_valid(d))
    &&& (t.completed_at is Some <==> t.is_completed)
}

/// Copies a character vector; the view is preserved exactly.
pub fn clone_chars(v: &Vec<char>) -> (r: Vec<char>)
    ensures
        r@ == v@,
{
    let r = v.clone();
    proof {
        assert forall|i: int| 0 <= i < v@.len() implies r@[i] == v@[i] by {
            assert(cloned::<char>(v@[i], r@[i]));
        }
        assert(r@ =~= v@);
    }
    r
}

pub fn clone_opt_chars(v: &Option<Vec<char>>) -> (r: Option<Vec<char>>)
    ensures
        r.deep_view() == v.deep_view(),
{
    match v {
        Some(x) => Some(clone_chars(x)),
        None => None,
    }
}

impl Clone for Task {
    /// A clone has the same view as the original.
    fn clone(&self) -> (r: Self)
        ensures
            r@ == self@,
    {
        Task {
            id: self.id,
            title: clone_chars(&self.title),
            description: clone_opt_chars(&self.description),
            list_id: self.list_id,
            due_date: self.due_date,
            reminder_date: self.reminder_date,
            recurring_frequency: self.recurring_frequency,
            is_completed: self.is_completed,
            completed_at: self.completed_at,
            is_in_my_day: self.is_in_my_day,
            notes: clone_opt_chars(&self.notes),
            created_at: self.created_at,
            updated_at: self.updated_at,
        }
    }
}

pub open spec fn spec_new_task(id: u32, title: Seq<char>, list_id: u32, now: Timestamp) -> TaskView {
    TaskView {
        id,
        title,
        description: None,
        list_id,
        due_date: None,
        reminder_date: None,
        recurring_frequency: None,
        is_completed: false,
        completed_at: None,
        is_in_my_day: false,
        notes: None,
        created_at: now,
        updated_at: now,
    }
}

pub open spec fn spec_toggle_completion(t: TaskView, now: Timestamp) -> TaskView {
    TaskView {
        is_completed: !t.is_completed,
        completed_at: if !t.is_completed {
            Some(now)
        } else {
            None
        },
        updated_at: now,
        ..t
    }
}

pub open spec fn spec_set_in_my_day(t: TaskView, in_my_day: bool, now: Timestamp) -> TaskView {
    TaskView { is_in_my_day: in_my_day, updated_at: now, ..t }
}

pub open spec fn spec_set_due_date(t: TaskView, due: Option<Timestamp>, now: Timestamp) -> TaskView {
    TaskView { due_date: due, updated_at: now, ..t }
}

pub open spec fn spec_set_recurring_frequency(
    t: TaskView,
    f: Option<RecurringFrequency>,
    now: Timestamp,
) -> TaskView {
    TaskView { recurring_frequency: f, updated_at: now, ..t }
}

pub open spec fn spec_set_notes(t: TaskView, notes: Option<Seq<char>>, now: Timestamp) -> TaskView {
    TaskView { notes, updated_at: now, ..t }
}

/// Whether the task has a due date on the same calendar day as `now`.
pub open spec fn spec_is_due_today(t: TaskView, now: Timestamp) -> bool {
    match t.due_date {
        Some(d) => spec_same_date(d, now),
        None => false,
    }
}

/// Whether the task's due date names an instant strictly before the one
/// `now` names, and the task is not done.
pub open spec fn spec_is_overdue(t: TaskView, now: Timestamp) -> bool {
    match t.due_date {
        Some(d) => spec_ts_before(d, now) && !t.is_completed,
        None => false,
    }
}

impl Task {
    /// A fresh task: both stamps set to `now`, all optional fields empty.
    pub fn new(id: u32, title: Vec<char>, list_id: u32, now: Timestamp) -> (r: Task)
        requires
            ts_valid(now),
        ensures
            r@ == spec_new_task(id, title@, list_id, now),
            task_wf(r@),
    {
        Task {
            id,
            title,
            description: None,
            list_id,
            due_date: None,
            reminder_date: None,
            recurring_frequency: None,
            is_completed: false,
            completed_at: None,
            is_in_my_day: false,
            notes: None,
            created_at: now,
            updated_at: now,
        }
    }

    pub fn is_due_today(&self, now: &Timestamp) -> (r: bool)
        ensures
            r == spec_is_due_today(self@, *now),
    {
        match &self.due_date {
            Some(d) => same_date(d, now),
            None => false,
        }
    }

    pub fn is_overdue(&self, now: &Timestamp) -> (r: bool)
        requires
            ts_valid(*now),
            self@.due_date matches Some(d) ==> ts_valid(d),
        ensures
            r == spec_is_overdue(self@, *now),
    {
        match &self.due_date {
            Some(d) => ts_before(d, now) && !self.is_completed,
            None => false,
        }
    }

    /// Flips the completion flag; completing stamps `completed_at`,
    /// un-completing clears it; `updated_at` is always stamped.
    pub fn toggle_completion(&mut self, now: Timestamp)
        requires
            ts_valid(now),
        ensures
            final(self)@ == spec_toggle_completion(old(self)@, now),
            task_wf(old(self)@) ==> task_wf(final(self)@),
    {
        self.is_completed = !self.is_completed;
        if self.is_completed {
            self.completed_at = Some(now);
        } else {
            self.completed_at = None;
        }
        self.updated_at = now;
    }

    pub fn add_to_my_day(&mut self, now: Timestamp)
        requires
            ts_valid(now),
        ensures
            final(self)@ == spec_set_in_my_day(old(self)@, true, now),
            task_wf(old(self)@) ==> task_wf(final(self)@),
    {
        self.is_in_my_day = true;
        self.updated_at = now;
    }

    pub fn remove_from_my_day(&mut self, now: Timestamp)
        requires
            ts_valid(now),
        ensures
            final(self)@ == spec_set_in_my_day(old(self)@, false, now),
            task_wf(old(self)@) ==> task_wf(final(self)@),
    {
        self.is_in_my_day = false;
        self.updated_at = now;
    }

    pub fn set_due_date(&mut self, due_date: Option<Timestamp>, now: Timestamp)
        requires
            ts_valid(now),
        ensures
            final(self)@ == spec_set_due_date(old(self)@, due_date, now),
    {
        self.due_date = due_date;
        self.updated_at = now;
    }

    pub fn set_recurring_frequency(&mut self, frequency: Option<RecurringFrequency>, now: Timestamp)
        requires
            ts_valid(now),
        ensures
            final(self)@ == spec_set_recurring_frequency(old(self)@, frequency, now),
            task_wf(old(self)@) ==> task_wf(final(self)@),
    {
        self.recurring_frequency = frequency;
        self.updated_at = now;
    }

    pub fn set_notes(&mut self, notes: Option<Vec<char>>, now: Timestamp)
        requires
            ts_valid(now),
        ensures
            final(self)@ == spec_set_notes(old(self)@, notes.deep_view(), now),
            task_wf(old(self)@) ==> task_wf(final(self)@),
    {
        self.notes = notes;
        self.updated_at = now;
    }
}

/// The due date of the successor of a completed recurring task: one day
/// later for Daily (then skipping to Monday for Weekdays), seven days for
/// Weekly, and the fixed offsets of thirty and 365 days for Monthly and
/// Yearly. The date saturates at the end of the supported calendar.
pub open spec fn spec_next_due_date(due: Timestamp, f: RecurringFrequency) -> Timestamp {
    match f {
        RecurringFrequency::Daily => spec_ts_add_days(due, 1),
        RecurringFrequency::Weekdays => {
            let one = spec_ts_add_days(due, 1);
            if crate::calendar::spec_weekday(one.year as int, one.month as int, one.day as int)
                == 5 {
                spec_ts_add_days(due, 3)
            } else if crate::calendar::spec_weekday(
                one.year as int,
                one.month as int,
                one.day as int,
            ) == 6 {
                spec_ts_add_days(due, 2)
            } else {
                one
            }
        },
        RecurringFrequency::Weekly => spec_ts_add_days(due, 7),
        RecurringFrequency::Monthly => spec_ts_add_days(due, 30),
        RecurringFrequency::Yearly => spec_ts_add_days(due, 365),
    }
}

pub fn next_due_date(due: &Timestamp, f: &RecurringFrequency) -> (r: Timestamp)
    requires
        ts_valid(*due),
    ensures
        r == spec_next_due_date(*due, *f),
        ts_valid(r),
{
    match f {
        RecurringFrequency::Daily => ts_add_days(*due, 1),
        RecurringFrequency::Weekdays => {
            let one = ts_add_days(*due, 1);
            let w = weekday_of(one.year, one.month, one.day);
            if w == 5 {
                ts_add_days(*due, 3)
            } else if w == 6 {
                ts_add_days(*due, 2)
            } else {
                one
            }
        },
        RecurringFrequency::Weekly => ts_add_days(*due, 7),
        RecurringFrequency::Monthly => ts_add_days(*due, 30),
        RecurringFrequency::Yearly => ts_add_days(*due, 365),
    }
}

/// Renders a frequency as its canonical literal.
pub fn frequency_literal(f: &RecurringFrequency) -> (r: Vec<char>)
    ensures
        r@ == spec_frequency_literal(*f),
{
    match f {
        RecurringFrequency::Daily => vec!['D', 'a', 'i', 'l', 'y'],
        RecurringFrequency::Weekdays => vec!['W', 'e', 'e', 'k', 'd', 'a', 'y', 's'],
        RecurringFrequency::Weekly => vec!['W', 'e', 'e', 'k', 'l', 'y'],
        RecurringFrequency::Monthly => vec!['M', 'o', 'n', 't', 'h', 'l', 'y'],
        RecurringFrequency::Yearly => vec!['Y', 'e', 'a', 'r', 'l', 'y'],
    }
}

pub open spec fn spec_frequency_literal(f: RecurringFrequency) -> Seq<char> {
    match f {
        RecurringFrequency::Daily => seq!['D', 'a', 'i', 'l', 'y'],
        RecurringFrequency::Weekdays => seq!['W', 'e', 'e', 'k', 'd', 'a', 'y', 's'],
        RecurringFrequency::Weekly => seq!['W', 'e', 'e', 'k', 'l', 'y'],
        RecurringFrequency::Monthly => seq!['M', 'o', 'n', 't', 'h', 'l', 'y'],
        RecurringFrequency::Yearly => seq!['Y', 'e', 'a', 'r', 'l', 'y'],
    }
}

/// The frequency named by a canonical literal, or `None` for anything else.
pub open spec fn spec_frequency_of_literal(s: Seq<char>) -> Option<RecurringFrequency> {
    if s == spec_frequency_literal(RecurringFrequency::Daily) {
        Some(RecurringFrequency::Daily)
    } else if s == spec_frequency_literal(RecurringFrequency::Weekdays) {
        Some(RecurringFrequency::Weekdays)
    } else if s == spec_frequency_literal(RecurringFrequency::Weekly) {
        Some(RecurringFrequency::Weekly)
    } else if s == spec_frequency_literal(RecurringFrequency::Monthly) {
        Some(RecurringFrequency::Monthly)
    } else if s == spec_frequency_literal(RecurringFrequency::Yearly) {
        Some(RecurringFrequency::Yearly)
    } else {
        None
    }
}

fn chars_eq(a: &Vec<char>, b: &Vec<char>) -> (r: bool)
    ensures
        r == (a@ == b@),
{
    let n = a.len();
    if n != b.len() {
        proof {
            assert(a@.len() != b@.len());
        }
        return false;
    }
    let mut i: usize = 0;
    while i < n
        invariant
            i <= n,
            n == a@.len() == b@.len(),
            forall|j: int| 0 <= j < i ==> a@[j] == b@[j],
        decreases n - i,
    {
        if a[i] != b[i] {
            return false;
        }
        i = i + 1;
    }
    proof {
        assert(a@ =~= b@);
    }
    true
}

pub fn frequency_of_literal(s: &Vec<char>) -> (r: Option<RecurringFrequency>)
    ensures
        r == spec_frequency_of_literal(s@),
{
    let daily = frequency_literal(&RecurringFrequency::Daily);
    if chars_eq(s, &daily) {
        return Some(RecurringFrequency::Daily);
    }
    let weekdays = frequency_literal(&RecurringFrequency::Weekdays);
    if chars_eq(s, &weekdays) {
        return Some(RecurringFrequency::Weekdays);
    }
    let weekly = frequency_literal(&RecurringFrequency::Weekly);
    if chars_eq(s, &weekly) {
        return Some(RecurringFrequency::Weekly);
    }
    let monthly = frequency_literal(&RecurringFrequency::Monthly);
    if chars_eq(s, &monthly) {
        return Some(RecurringFrequency::Monthly);
    }
    let yearly = frequency_literal(&RecurringFrequency::Yearly);
    if chars_eq(s, &yearly) {
        return Some(RecurringFrequency::Yearly);
    }
    None
}

/// Options for narrowing a rendered view of the task collection; the
/// default shows everything.
pub struct TaskFilter {
    pub list_id: Option<u32>,
    pub show_completed: bool,
    pub show_my_day_only: bool,
    pub due_today_only: bool,
    pub overdue_only: bool,
}

impl Default for TaskFilter {
    fn default() -> (r: Self)
        ensures
            r.list_id is None,
            r.show_completed,
            !r.show_my_day_only,
            !r.due_today_only,
            !r.overdue_only,
    {
        TaskFilter {
            list_id: None,
            show_completed: true,
            show_my_day_only: false,
            due_today_only: false,
            overdue_only: false,
        }
    }
}

} // verus!
