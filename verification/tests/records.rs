use tasktui::calendar::Timestamp;
use tasktui::list::List;
use tasktui::storage::{
    list_from_record, list_to_record, task_from_record, task_to_record, ParseError, Storage,
    TaskRecord,
};
use tasktui::task::{RecurringFrequency, Task};

fn chars(s: &str) -> Vec<char> {
    s.chars().collect()
}

fn text(v: &[char]) -> String {
    v.iter().collect()
}

fn ts(y: u32, mo: u32, d: u32, h: u32, mi: u32, sec: u32, off: i32) -> Timestamp {
    Timestamp { year: y, month: mo, day: d, hour: h, minute: mi, second: sec, offset_min: off }
}

fn sample_task() -> Task {
    let now = ts(2026, 10, 12, 9, 0, 0, 120);
    let mut t = Task::new(7, chars("water the plants"), 3, now);
    t.set_due_date(Some(ts(2026, 10, 12, 23, 59, 59, 120)), now);
    t.set_recurring_frequency(Some(RecurringFrequency::Weekdays), now);
    t.set_notes(Some(chars("use the small can")), now);
    t
}

#[test]
fn task_record_round_trips_every_field() {
    let t = sample_task();
    let rec = task_to_record(&t);
    assert_eq!(text(&rec.created_at), "2026-10-12T09:00:00+02:00");
    assert_eq!(rec.recurring_frequency.as_ref().map(|v| text(v)), Some("Weekdays".to_string()));
    let back = task_from_record(rec).unwrap();
    assert_eq!(back.id, t.id);
    assert_eq!(back.title, t.title);
    assert_eq!(back.description, t.description);
    assert_eq!(back.list_id, t.list_id);
    assert_eq!(back.due_date, t.due_date);
    assert_eq!(back.reminder_date, t.reminder_date);
    assert_eq!(back.recurring_frequency, t.recurring_frequency);
    assert_eq!(back.is_completed, t.is_completed);
    assert_eq!(back.completed_at, t.completed_at);
    assert_eq!(back.is_in_my_day, t.is_in_my_day);
    assert_eq!(back.notes, t.notes);
    assert_eq!(back.created_at, t.created_at);
    assert_eq!(back.updated_at, t.updated_at);
}

#[test]
fn completed_task_round_trips() {
    let now = ts(2025, 1, 2, 3, 4, 5, 0);
    let mut t = Task::new(1, chars("done thing"), 1, now);
    t.toggle_completion(now);
    let back = task_from_record(task_to_record(&t)).unwrap();
    assert!(back.is_completed);
    assert_eq!(back.completed_at, Some(now));
}

#[test]
fn list_record_round_trips_every_field() {
    let now = ts(2026, 3, 1, 12, 30, 45, -300);
    let l = List::new(4, chars("errands"), now);
    let back = list_from_record(list_to_record(&l)).unwrap();
    assert_eq!(back.id, l.id);
    assert_eq!(back.name, l.name);
    assert_eq!(back.color, l.color);
    assert_eq!(back.created_at, l.created_at);
    assert_eq!(back.updated_at, l.updated_at);
}

#[test]
fn malformed_timestamp_is_a_parse_error() {
    let t = sample_task();
    let mut rec = task_to_record(&t);
    rec.created_at = chars("yesterday-ish");
    assert!(matches!(task_from_record(rec), Err(ParseError::BadTimestamp)));
    let mut rec2 = task_to_record(&t);
    rec2.due_date = Some(chars("2026-99-99T00:00:00+00:00"));
    assert!(matches!(task_from_record(rec2), Err(ParseError::BadTimestamp)));
}

#[test]
fn unknown_frequency_is_a_parse_error() {
    let t = sample_task();
    let mut rec = task_to_record(&t);
    rec.recurring_frequency = Some(chars("Fortnightly"));
    assert!(matches!(task_from_record(rec), Err(ParseError::BadFrequency)));
    // The stored literal is case-sensitive, as written by the record mapper.
    let mut rec2 = task_to_record(&t);
    rec2.recurring_frequency = Some(chars("daily"));
    assert!(matches!(task_from_record(rec2), Err(ParseError::BadFrequency)));
}

#[test]
fn record_errors_follow_column_order() {
    let t = sample_task();
    let mut rec = task_to_record(&t);
    rec.due_date = Some(chars("nope"));
    rec.recurring_frequency = Some(chars("nope"));
    // The due-date column is checked before the frequency column.
    assert!(matches!(task_from_record(rec), Err(ParseError::BadTimestamp)));
}

#[test]
fn empty_record_builds_from_calls() {
    // A record with all optional columns absent parses to a bare task.
    let rec = TaskRecord {
        id: 9,
        title: chars("bare"),
        description: None,
        list_id: 2,
        due_date: None,
        reminder_date: None,
        recurring_frequency: None,
        is_completed: false,
        completed_at: None,
        is_in_my_day: false,
        notes: None,
        created_at: chars("2026-10-12T00:00:00+00:00"),
        updated_at: chars("2026-10-12T00:00:00+00:00"),
    };
    let t = task_from_record(rec).unwrap();
    assert_eq!(t.id, 9);
    assert_eq!(t.due_date, None);
    assert_eq!(t.recurring_frequency, None);
}

#[test]
fn storage_counters_advance_once_per_creation() {
    let mut st = Storage::new();
    assert_eq!(st.get_next_task_id(), 1);
    assert_eq!(st.get_next_task_id(), 2);
    assert_eq!(st.get_next_list_id(), 1);
    assert_eq!(st.next_task_id, 3);
    assert_eq!(st.next_list_id, 2);
}

#[test]
fn counters_initialize_from_the_largest_loaded_id() {
    let now = ts(2026, 1, 1, 0, 0, 0, 0);
    let tasks = vec![
        Task::new(5, chars("a"), 1, now),
        Task::new(2, chars("b"), 1, now),
    ];
    let lists = vec![List::new(9, chars("inbox"), now)];
    let mut st = Storage::new();
    st.init_counters(&tasks, &lists);
    assert_eq!(st.next_task_id, 6);
    assert_eq!(st.next_list_id, 10);
    let empty_tasks: Vec<Task> = Vec::new();
    let empty_lists: Vec<List> = Vec::new();
    let mut st2 = Storage::new();
    st2.init_counters(&empty_tasks, &empty_lists);
    assert_eq!(st2.next_task_id, 1);
    assert_eq!(st2.next_list_id, 1);
}
