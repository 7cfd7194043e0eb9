//! The persistence gateway's verified half: the two id counters and the
//! mapping between entities and flat textual records. Reading and writing
//! the record files themselves happens outside the library.

use vstd::prelude::*;

use crate::calendar::Timestamp;
use crate::datefmt::{
    format_rfc3339, lemma_rfc3339_round_trip, parse_rfc3339, spec_format_rfc3339,
    spec_parse_rfc3339,
};
use crate::list::{List, ListView};
use crate::task::{
    clone_chars, clone_opt_chars, frequency_literal, frequency_of_literal, spec_frequency_literal,
    spec_frequency_of_literal, task_wf, RecurringFrequency, Task, TaskView,
};
use crate::list::list_wf;

verus! {

/// Why a stored record could not be read back.
#[derive(Clone, Copy, PartialEq, Eq, Structural, Debug)]
pub enum ParseError {
    /// A timestamp column is not a supported RFC 3339 value.
    BadTimestamp,
    /// The recurring-frequency column is not one of the known literals.
    BadFrequency,
}

/// A task as one flat record: every column already rendered as text.
pub struct TaskRecord {
    pub id: u32,
    pub title: Vec<char>,
    pub description: Option<Vec<char>>,
    pub list_id: u32,
    pub due_date: Option<Vec<char>>,
    pub reminder_date: Option<Vec<char>>,
    pub recurring_frequency: Option<Vec<char>>,
    pub is_completed: bool,
    pub completed_at: Option<Vec<char>>,
    pub is_in_my_day: bool,
    pub notes: Option<Vec<char>>,
    pub created_at: Vec<char>,
    pub updated_at: Vec<char>,
}

#[verifier::ext_equal]
pub ghost struct TaskRecordView {
    pub id: u32,
    pub title: Seq<char>,
    pub description: Option<Seq<char>>,
    pub list_id: u32,
    pub due_date: Option<Seq<char>>,
    pub reminder_date: Option<Seq<char>>,
    pub recurring_frequency: Option<Seq<char>>,
    pub is_completed: bool,
    pub completed_at: Option<Seq<char>>,
    pub is_in_my_day: bool,
    pub notes: Option<Seq<char>>,
    pub created_at: Seq<char>,
    pub updated_at: Seq<char>,
}

impl View for TaskRecord {
    type V = TaskRecordView;

    open spec fn view(&self) -> TaskRecordView {
        TaskRecordView {
            id: self.id,
            title: self.title@,
            description: self.description.deep_view(),
            list_id: self.list_id,
            due_date: self.due_date.deep_view(),
            reminder_date: self.reminder_date.deep_view(),
            recurring_frequency: self.recurring_frequency.deep_view(),
            is_completed: self.is_completed,
            completed_at: self.completed_at.deep_view(),
            is_in_my_day: self.is_in_my_day,
            notes: self.notes.deep_view(),
            created_at: self.created_at@,
            updated_at: self.updated_at@,
        }
    }
}

/// A list as one flat record.
pub struct ListRecord {
    pub id: u32,
    pub name: Vec<char>,
    pub color: Option<Vec<char>>,
    pub created_at: Vec<char>,
    pub updated_at: Vec<char>,
}

#[verifier::ext_equal]
pub ghost struct ListRecordView {
    pub id: u32,
    pub name: Seq<char>,
    pub color: Option<Seq<char>>,
    pub created_at: Seq<char>,
    pub updated_at: Seq<char>,
}

impl View for ListRecord {
    type V = ListRecordView;

    open spec fn view(&self) -> ListRecordView {
        ListRecordView {
            id: self.id,
            name: self.name@,
            color: self.color.deep_view(),
            created_at: self.created_at@,
            updated_at: self.updated_at@,
        }
    }
}

/// The record a task is saved as: text copied through, timestamps in
/// RFC 3339 form, the frequency as its canonical literal.
pub open spec fn spec_task_record(t: TaskView) -> TaskRecordView {
    TaskRecordView {
        id: t.id,
        title: t.title,
        description: t.description,
        list_id: t.list_id,
        due_date: match t.due_date {
            Some(d) => Some(spec_format_rfc3339(d)),
            None => None,
        },
        reminder_date: match t.reminder_date {
            Some(d) => Some(spec_format_rfc3339(d)),
            None => None,
        },
        recurring_frequency: match t.recurring_frequency {
            Some(f) => Some(spec_frequency_literal(f)),
            None => None,
        },
        is_completed: t.is_completed,
        completed_at: match t.completed_at {
            Some(d) => Some(spec_format_rfc3339(d)),
            None => None,
        },
        is_in_my_day: t.is_in_my_day,
        notes: t.notes,
        created_at: spec_format_rfc3339(t.created_at),
        updated_at: spec_format_rfc3339(t.updated_at),
    }
}

/// An absent column stays absent; a present one must parse. The outer
/// `None` marks a malformed column.
pub open spec fn spec_opt_ts(o: Option<Seq<char>>) -> Option<Option<Timestamp>> {
    match o {
        None => Some(None),
        Some(s) => match spec_parse_rfc3339(s) {
            Some(t) => Some(Some(t)),
            None => None,
        },
    }
}

pub open spec fn spec_opt_freq(o: Option<Seq<char>>) -> Option<Option<RecurringFrequency>> {
    match o {
        None => Some(None),
        Some(s) => match spec_frequency_of_literal(s) {
            Some(f) => Some(Some(f)),
            None => None,
        },
    }
}

/// The task a record names, or the first error in column order: due date,
/// reminder, frequency, created, updated, completed.
pub open spec fn spec_task_of_record(r: TaskRecordView) -> Result<TaskView, ParseError> {
    match (spec_opt_ts(r.due_date), spec_opt_ts(r.reminder_date)) {
        (Some(due), Some(rem)) => match spec_opt_freq(r.recurring_frequency) {
            Some(freq) => match (spec_parse_rfc3339(r.created_at), spec_parse_rfc3339(
                r.updated_at,
            )) {
                (Some(created), Some(updated)) => match spec_opt_ts(r.completed_at) {
                    Some(completed) => Ok(
                        TaskView {
                            id: r.id,
                            title: r.title,
                            description: r.description,
                            list_id: r.list_id,
                            due_date: due,
                            reminder_date: rem,
                            recurring_frequency: freq,
                            is_completed: r.is_completed,
                            completed_at: completed,
                            is_in_my_day: r.is_in_my_day,
                            notes: r.notes,
                            created_at: created,
                            updated_at: updated,
                        },
                    ),
                    None => Err(ParseError::BadTimestamp),
                },
                _ => Err(ParseError::BadTimestamp),
            },
            None => Err(ParseError::BadFrequency),
        },
        _ => Err(ParseError::BadTimestamp),
    }
}

pub open spec fn spec_list_record(l: ListView) -> ListRecordView {
    ListRecordView {
        id: l.id,
        name: l.name,
        color: l.color,
        created_at: spec_format_rfc3339(l.created_at),
        updated_at: spec_format_rfc3339(l.updated_at),
    }
}

pub open spec fn spec_list_of_record(r: ListRecordView) -> Result<ListView, ParseError> {
    match (spec_parse_rfc3339(r.created_at), spec_parse_rfc3339(r.updated_at)) {
        (Some(created), Some(updated)) => Ok(
            ListView {
                id: r.id,
                name: r.name,
                color: r.color,
                created_at: created,
                updated_at: updated,
            },
        ),
        _ => Err(ParseError::BadTimestamp),
    }
}

fn format_opt_ts(o: &Option<Timestamp>) -> (r: Option<Vec<char>>)
    requires
        *o matches Some(t) ==> crate::calendar::ts_valid(t),
    ensures
        r.deep_view() == match *o {
            Some(t) => Some(spec_format_rfc3339(t)),
            None => None::<Seq<char>>,
        },
{
    match o {
        Some(t) => Some(format_rfc3339(t)),
        None => None,
    }
}

fn parse_opt_ts(o: &Option<Vec<char>>) -> (r: Result<Option<Timestamp>, ParseError>)
    ensures
        match r {
            Ok(t) => spec_opt_ts(o.deep_view()) == Some(t),
            Err(e) => spec_opt_ts(o.deep_view()) is None && e == ParseError::BadTimestamp,
        },
{
    match o {
        None => {
            proof {
                assert(o.deep_view() == None::<Seq<char>>);
                assert(spec_opt_ts(o.deep_view()) == Some(None::<Timestamp>));
            }
            Ok(None)
        },
        Some(s) => {
            proof {
                assert(o.deep_view() == Some(s@));
            }
            match parse_rfc3339(s) {
                Some(t) => {
                    proof {
                        assert(spec_opt_ts(o.deep_view()) == Some(Some(t)));
                    }
                    Ok(Some(t))
                },
                None => Err(ParseError::BadTimestamp),
            }
        },
    }
}

fn parse_opt_freq(o: &Option<Vec<char>>) -> (r: Result<Option<RecurringFrequency>, ParseError>)
    ensures
        match r {
            Ok(f) => spec_opt_freq(o.deep_view()) == Some(f),
            Err(e) => spec_opt_freq(o.deep_view()) is None && e == ParseError::BadFrequency,
        },
{
    match o {
        None => {
            proof {
                assert(o.deep_view() == None::<Seq<char>>);
                assert(spec_opt_freq(o.deep_view()) == Some(None::<RecurringFrequency>));
            }
            Ok(None)
        },
        Some(s) => {
            proof {
                assert(o.deep_view() == Some(s@));
            }
            match frequency_of_literal(s) {
                Some(f) => {
                    proof {
                        assert(spec_opt_freq(o.deep_view()) == Some(Some(f)));
                    }
                    Ok(Some(f))
                },
                None => Err(ParseError::BadFrequency),
            }
        },
    }
}

/// Renders a task as the record it is saved as.
pub fn task_to_record(t: &Task) -> (r: TaskRecord)
    requires
        task_wf(t@),
    ensures
        r@ == spec_task_record(t@),
{
    let rec = TaskRecord {
        id: t.id,
        title: clone_chars(&t.title),
        description: clone_opt_chars(&t.description),
        list_id: t.list_id,
        due_date: format_opt_ts(&t.due_date),
        reminder_date: format_opt_ts(&t.reminder_date),
        recurring_frequency: match &t.recurring_frequency {
            Some(f) => Some(frequency_literal(f)),
            None => None,
        },
        is_completed: t.is_completed,
        completed_at: format_opt_ts(&t.completed_at),
        is_in_my_day: t.is_in_my_day,
        notes: clone_opt_chars(&t.notes),
        created_at: format_rfc3339(&t.created_at),
        updated_at: format_rfc3339(&t.updated_at),
    };
    proof {
        assert(rec@.id == spec_task_record(t@).id);
        assert(rec@.title == spec_task_record(t@).title);
        assert(rec@.description == spec_task_record(t@).description);
        assert(rec@.list_id == spec_task_record(t@).list_id);
        assert(rec@.due_date == spec_task_record(t@).due_date);
        assert(rec@.reminder_date == spec_task_record(t@).reminder_date);
        assert(rec@.recurring_frequency == spec_task_record(t@).recurring_frequency);
        assert(rec@.is_completed == spec_task_record(t@).is_completed);
        assert(rec@.completed_at == spec_task_record(t@).completed_at);
        assert(rec@.is_in_my_day == spec_task_record(t@).is_in_my_day);
        assert(rec@.notes == spec_task_record(t@).notes);
        assert(rec@.created_at == spec_task_record(t@).created_at);
        assert(rec@.updated_at == spec_task_record(t@).updated_at);
    }
    rec
}

/// Reads a task back from a record; errors exactly as
/// `spec_task_of_record` says.
pub fn task_from_record(r: TaskRecord) -> (t: Result<Task, ParseError>)
    ensures
        match t {
            Ok(task) => spec_task_of_record(r@) == Ok::<TaskView, ParseError>(task@),
            Err(e) => spec_task_of_record(r@) == Err::<TaskView, ParseError>(e),
        },
{
    let due_date = match parse_opt_ts(&r.due_date) {
        Ok(d) => d,
        Err(e) => {
            return Err(e);
        },
    };
    let reminder_date = match parse_opt_ts(&r.reminder_date) {
        Ok(d) => d,
        Err(e) => {
            return Err(e);
        },
    };
    let recurring_frequency = match parse_opt_freq(&r.recurring_frequency) {
        Ok(f) => f,
        Err(e) => {
            return Err(e);
        },
    };
    let created_at = match parse_rfc3339(&r.created_at) {
        Some(d) => d,
        None => {
            return Err(ParseError::BadTimestamp);
        },
    };
    let updated_at = match parse_rfc3339(&r.updated_at) {
        Some(d) => d,
        None => {
            return Err(ParseError::BadTimestamp);
        },
    };
    let completed_at = match parse_opt_ts(&r.completed_at) {
        Ok(d) => d,
        Err(e) => {
            return Err(e);
        },
    };
    Ok(
        Task {
            id: r.id,
            title: r.title,
            description: r.description,
            list_id: r.list_id,
            due_date,
            reminder_date,
            recurring_frequency,
            is_completed: r.is_completed,
            completed_at,
            is_in_my_day: r.is_in_my_day,
            notes: r.notes,
            created_at,
            updated_at,
        },
    )
}

/// Renders a list as the record it is saved as.
pub fn list_to_record(l: &List) -> (r: ListRecord)
    requires
        list_wf(l@),
    ensures
        r@ == spec_list_record(l@),
{
    ListRecord {
        id: l.id,
        name: clone_chars(&l.name),
        color: clone_opt_chars(&l.color),
        created_at: format_rfc3339(&l.created_at),
        updated_at: format_rfc3339(&l.updated_at),
    }
}

/// Reads a list back from a record.
pub fn list_from_record(r: ListRecord) -> (l: Result<List, ParseError>)
    ensures
        match l {
            Ok(list) => spec_list_of_record(r@) == Ok::<ListView, ParseError>(list@),
            Err(e) => spec_list_of_record(r@) == Err::<ListView, ParseError>(e),
        },
{
    let created_at = match parse_rfc3339(&r.created_at) {
        Some(d) => d,
        None => {
            return Err(ParseError::BadTimestamp);
        },
    };
    let updated_at = match parse_rfc3339(&r.updated_at) {
        Some(d) => d,
        None => {
            return Err(ParseError::BadTimestamp);
        },
    };
    Ok(List { id: r.id, name: r.name, color: r.color, created_at, updated_at })
}

pub proof fn lemma_frequency_literal_round_trip(f: RecurringFrequency)
    ensures
        spec_frequency_of_literal(spec_frequency_literal(f)) == Some(f),
{
}

/// Saving a well-formed task and reading the record back yields the task
/// again, field for field.
pub proof fn lemma_task_record_round_trip(t: TaskView)
    requires
        task_wf(t),
    ensures
        spec_task_of_record(spec_task_record(t)) == Ok::<TaskView, ParseError>(t),
{
    if let Some(d) = t.due_date {
        lemma_rfc3339_round_trip(d);
    }
    if let Some(d) = t.reminder_date {
        lemma_rfc3339_round_trip(d);
    }
    if let Some(d) = t.completed_at {
        lemma_rfc3339_round_trip(d);
    }
    if let Some(f) = t.recurring_frequency {
        lemma_frequency_literal_round_trip(f);
    }
    lemma_rfc3339_round_trip(t.created_at);
    lemma_rfc3339_round_trip(t.updated_at);
}

/// Saving a well-formed list and reading the record back yields the list
/// again, field for field.
pub proof fn lemma_list_record_round_trip(l: ListView)
    requires
        list_wf(l),
    ensures
        spec_list_of_record(spec_list_record(l)) == Ok::<ListView, ParseError>(l),
{
    lemma_rfc3339_round_trip(l.created_at);
    lemma_rfc3339_round_trip(l.updated_at);
}

/// The largest task id in the collection, or zero when it is empty.
pub open spec fn spec_max_task_id(s: Seq<TaskView>) -> int
    decreases s.len(),
{
    if s.len() == 0 {
        0
    } else {
        let rest = spec_max_task_id(s.drop_last());
        if s.last().id as int > rest {
            s.last().id as int
        } else {
            rest
        }
    }
}

/// The largest list id in the collection, or zero when it is empty.
pub open spec fn spec_max_list_id(s: Seq<ListView>) -> int
    decreases s.len(),
{
    if s.len() == 0 {
        0
    } else {
        let rest = spec_max_list_id(s.drop_last());
        if s.last().id as int > rest {
            s.last().id as int
        } else {
            rest
        }
    }
}

/// The id counters of the persistence gateway. Each is consumed once per
/// creation and never reused.
pub struct Storage {
    pub next_task_id: u32,
    pub next_list_id: u32,
}

impl Storage {
    /// Fresh counters, before any entities are known.
    pub fn new() -> (r: Storage)
        ensures
            r.next_task_id == 1,
            r.next_list_id == 1,
    {
        Storage { next_task_id: 1, next_list_id: 1 }
    }

    /// Sets both counters from loaded collections: one past the largest
    /// existing id, or 1 for an empty collection.
    pub fn init_counters(&mut self, tasks: &Vec<Task>, lists: &Vec<List>)
        requires
            spec_max_task_id(tasks.deep_view()) < u32::MAX,
            spec_max_list_id(lists.deep_view()) < u32::MAX,
        ensures
            final(self).next_task_id as int == spec_max_task_id(tasks.deep_view()) + 1,
            final(self).next_list_id as int == spec_max_list_id(lists.deep_view()) + 1,
    {
        let mut mx: u32 = 0;
        let mut i: usize = 0;
        while i < tasks.len()
            invariant
                i <= tasks@.len(),
                mx as int == spec_max_task_id(tasks.deep_view().take(i as int)),
                spec_max_task_id(tasks.deep_view()) < u32::MAX,
            decreases tasks@.len() - i,
        {
            proof {
                assert(tasks.deep_view().take(i as int + 1).drop_last() =~= tasks.deep_view().take(
                    i as int,
                ));
                lemma_max_task_id_take_bound(tasks.deep_view(), i as int + 1);
            }
            if tasks[i].id > mx {
                mx = tasks[i].id;
            }
            i = i + 1;
        }
        proof {
            assert(tasks.deep_view().take(tasks@.len() as int) =~= tasks.deep_view());
        }
        self.next_task_id = mx + 1;
        let mut mxl: u32 = 0;
        let mut j: usize = 0;
        while j < lists.len()
            invariant
                j <= lists@.len(),
                mxl as int == spec_max_list_id(lists.deep_view().take(j as int)),
                spec_max_list_id(lists.deep_view()) < u32::MAX,
            decreases lists@.len() - j,
        {
            proof {
                assert(lists.deep_view().take(j as int + 1).drop_last() =~= lists.deep_view().take(
                    j as int,
                ));
                lemma_max_list_id_take_bound(lists.deep_view(), j as int + 1);
            }
            if lists[j].id > mxl {
                mxl = lists[j].id;
            }
            j = j + 1;
        }
        proof {
            assert(lists.deep_view().take(lists@.len() as int) =~= lists.deep_view());
        }
        self.next_list_id = mxl + 1;
    }

    /// Hands out the next task id and advances the counter.
    pub fn get_next_task_id(&mut self) -> (id: u32)
        requires
            old(self).next_task_id < u32::MAX,
        ensures
            id == old(self).next_task_id,
            final(self).next_task_id == old(self).next_task_id + 1,
            final(self).next_list_id == old(self).next_list_id,
    {
        let id = self.next_task_id;
        self.next_task_id = self.next_task_id + 1;
        id
    }

    /// Hands out the next list id and advances the counter.
    pub fn get_next_list_id(&mut self) -> (id: u32)
        requires
            old(self).next_list_id < u32::MAX,
        ensures
            id == old(self).next_list_id,
            final(self).next_list_id == old(self).next_list_id + 1,
            final(self).next_task_id == old(self).next_task_id,
    {
        let id = self.next_list_id;
        self.next_list_id = self.next_list_id + 1;
        id
    }
}

/// A prefix's largest id is at most the whole collection's.
pub proof fn lemma_max_task_id_take_bound(s: Seq<TaskView>, i: int)
    requires
        0 <= i <= s.len(),
    ensures
        spec_max_task_id(s.take(i)) <= spec_max_task_id(s),
    decreases s.len() - i,
{
    if i == s.len() {
        assert(s.take(i) =~= s);
    } else {
        lemma_max_task_id_take_bound(s, i + 1);
        assert(s.take(i + 1).drop_last() =~= s.take(i));
    }
}

pub proof fn lemma_max_list_id_take_bound(s: Seq<ListView>, i: int)
    requires
        0 <= i <= s.len(),
    ensures
        spec_max_list_id(s.take(i)) <= spec_max_list_id(s),
    decreases s.len() - i,
{
    if i == s.len() {
        assert(s.take(i) =~= s);
    } else {
        lemma_max_list_id_take_bound(s, i + 1);
        assert(s.take(i + 1).drop_last() =~= s.take(i));
    }
}

} // verus!
