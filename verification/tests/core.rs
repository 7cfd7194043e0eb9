use tasktui::app::{App, AppState, TaskEditorMode, TaskEditorState};
use tasktui::calendar::Timestamp;
use tasktui::input::{handle_input, Effects, Key, KeyEvent};
use tasktui::list::List;
use tasktui::task::{next_due_date, RecurringFrequency, Task};

fn chars(s: &str) -> Vec<char> {
    s.chars().collect()
}

fn text(v: &[char]) -> String {
    v.iter().collect()
}

fn ts(y: u32, mo: u32, d: u32, h: u32, mi: u32, sec: u32, off: i32) -> Timestamp {
    Timestamp { year: y, month: mo, day: d, hour: h, minute: mi, second: sec, offset_min: off }
}

fn now() -> Timestamp {
    ts(2026, 10, 12, 9, 0, 0, 120)
}

fn plain_task(id: u32, title: &str, list_id: u32) -> Task {
    Task::new(id, chars(title), list_id, now())
}

#[test]
fn overdue_is_judged_by_instant_not_by_wall_clock() {
    let mut t = plain_task(1, "a", 1);
    // Due at 10:00 +02:00, which is 08:00 UTC; "now" at 09:00 +00:00 is later.
    t.set_due_date(Some(ts(2026, 10, 12, 10, 0, 0, 120)), now());
    assert!(t.is_overdue(&ts(2026, 10, 12, 9, 0, 0, 0)));
    // At 07:00 UTC the task is not yet due.
    assert!(!t.is_overdue(&ts(2026, 10, 12, 7, 0, 0, 0)));
    // A completed task is never overdue.
    t.toggle_completion(now());
    assert!(!t.is_overdue(&ts(2026, 10, 12, 9, 0, 0, 0)));
}

fn fresh_app(tasks: Vec<Task>, lists: Vec<List>) -> App {
    App::new(tasks, lists, now()).0
}

fn key(k: Key) -> KeyEvent {
    KeyEvent { key: k, ctrl: false }
}

fn ctrl(k: Key) -> KeyEvent {
    KeyEvent { key: k, ctrl: true }
}

#[test]
fn startup_seeds_a_default_list_when_none_exist() {
    let (app, seeded) = App::new(Vec::new(), Vec::new(), now());
    assert!(seeded);
    assert_eq!(app.lists.len(), 1);
    assert_eq!(app.lists[0].id, 1);
    assert_eq!(text(&app.lists[0].name), "My Tasks");
    assert_eq!(app.storage.next_list_id, 2);
    assert_eq!(app.state, AppState::ListOverview);
    assert!(!app.should_quit);
}

#[test]
fn startup_seeds_the_my_day_order_from_flagged_and_due_tasks() {
    let mut t1 = plain_task(1, "flagged", 1);
    t1.add_to_my_day(now());
    let t2 = plain_task(2, "plain", 1);
    let mut t3 = plain_task(3, "due today", 1);
    t3.set_due_date(Some(ts(2026, 10, 12, 23, 59, 59, 120)), now());
    let lists = vec![List::new(1, chars("inbox"), now())];
    let (app, seeded) = App::new(vec![t1, t2, t3], lists, now());
    assert!(!seeded);
    assert_eq!(app.my_day_task_order, vec![1, 3]);
    assert_eq!(app.storage.next_task_id, 4);
}

#[test]
fn startup_seeds_the_my_day_order_in_ascending_id_order() {
    // The stored collection order does not decide the seed; the ids do.
    let mut t9 = plain_task(9, "late", 1);
    t9.add_to_my_day(now());
    let mut t4 = plain_task(4, "early", 1);
    t4.add_to_my_day(now());
    let mut t7 = plain_task(7, "middle", 1);
    t7.add_to_my_day(now());
    let lists = vec![List::new(1, chars("inbox"), now())];
    let (app, _) = App::new(vec![t9, t4, t7], lists, now());
    assert_eq!(app.my_day_task_order, vec![4, 7, 9]);
}

#[test]
fn displayable_count_counts_groups_and_separator() {
    let mut done = plain_task(2, "done", 1);
    done.toggle_completion(now());
    let app = fresh_app(
        vec![plain_task(1, "open", 1), done, plain_task(3, "also open", 1)],
        vec![List::new(1, chars("inbox"), now())],
    );
    let tasks = {
        let mut a = app;
        a.current_list_id = Some(1);
        a.get_current_list_tasks()
    };
    // 2 active + 1 separator + 1 completed.
    let app2 = fresh_app(Vec::new(), vec![List::new(1, chars("x"), now())]);
    assert_eq!(app2.get_displayable_task_count(&tasks), 4);
}

#[test]
fn display_rows_are_actives_then_separator_then_completeds() {
    let mut done = plain_task(2, "done", 1);
    done.toggle_completion(now());
    let mut app = fresh_app(
        vec![plain_task(1, "open", 1), done, plain_task(3, "also open", 1)],
        vec![List::new(1, chars("inbox"), now())],
    );
    app.current_list_id = Some(1);
    let tasks = app.get_current_list_tasks();
    assert_eq!(app.get_task_at_display_index(&tasks, 0).map(|t| t.id), Some(1));
    assert_eq!(app.get_task_at_display_index(&tasks, 1).map(|t| t.id), Some(3));
    assert!(app.get_task_at_display_index(&tasks, 2).is_none()); // separator
    assert_eq!(app.get_task_at_display_index(&tasks, 3).map(|t| t.id), Some(2));
    assert!(app.get_task_at_display_index(&tasks, 4).is_none());
}

#[test]
fn an_empty_list_has_no_rows() {
    let mut app = fresh_app(Vec::new(), vec![List::new(1, chars("inbox"), now())]);
    app.current_list_id = Some(1);
    let tasks = app.get_current_list_tasks();
    assert_eq!(app.get_displayable_task_count(&tasks), 0);
    for i in 0..5 {
        assert!(app.get_task_at_display_index(&tasks, i).is_none());
    }
}

#[test]
fn completing_a_daily_task_due_today_spawns_tomorrows_instance() {
    let mut t = plain_task(1, "stand-up", 1);
    t.set_due_date(Some(ts(2026, 10, 12, 23, 59, 59, 120)), now());
    t.set_recurring_frequency(Some(RecurringFrequency::Daily), now());
    t.set_notes(Some(chars("same room")), now());
    let mut app = fresh_app(vec![t], vec![List::new(1, chars("work"), now())]);
    let before = app.tasks.len();
    let saved = app.toggle_task_completion(1, now());
    assert!(saved);
    assert_eq!(app.tasks.len(), before + 1);
    assert!(app.tasks[0].is_completed);
    assert_eq!(app.tasks[0].completed_at, Some(now()));
    let spawned = &app.tasks[1];
    assert_eq!(spawned.id, 2);
    assert_eq!(text(&spawned.title), "stand-up");
    assert_eq!(spawned.list_id, 1);
    assert_eq!(spawned.due_date, Some(ts(2026, 10, 13, 23, 59, 59, 120)));
    assert_eq!(spawned.recurring_frequency, Some(RecurringFrequency::Daily));
    assert_eq!(spawned.notes.as_ref().map(|v| text(v)), Some("same room".to_string()));
    assert!(!spawned.is_completed);
    assert!(!spawned.is_in_my_day);
    // Due tomorrow, not today: the successor is absent from the My-Day order.
    assert!(!app.my_day_task_order.contains(&2));
}

#[test]
fn uncompleting_a_recurring_task_spawns_nothing() {
    let mut t = plain_task(1, "stand-up", 1);
    t.set_recurring_frequency(Some(RecurringFrequency::Daily), now());
    t.toggle_completion(now());
    let mut app = fresh_app(vec![t], vec![List::new(1, chars("work"), now())]);
    app.toggle_task_completion(1, now());
    assert_eq!(app.tasks.len(), 1);
    assert!(!app.tasks[0].is_completed);
    assert_eq!(app.tasks[0].completed_at, None);
}

#[test]
fn weekday_recurrence_skips_the_weekend() {
    // 2026-10-16 is a Friday; the next weekday instance lands on Monday.
    let due = ts(2026, 10, 16, 23, 59, 59, 0);
    let next = next_due_date(&due, &RecurringFrequency::Weekdays);
    assert_eq!((next.year, next.month, next.day), (2026, 10, 19));
    // From a Wednesday it is just the next day.
    let wed = ts(2026, 10, 14, 23, 59, 59, 0);
    let next2 = next_due_date(&wed, &RecurringFrequency::Weekdays);
    assert_eq!((next2.year, next2.month, next2.day), (2026, 10, 15));
}

#[test]
fn fixed_offset_recurrences() {
    let due = ts(2026, 1, 31, 10, 0, 0, 0);
    let weekly = next_due_date(&due, &RecurringFrequency::Weekly);
    assert_eq!((weekly.month, weekly.day), (2, 7));
    let monthly = next_due_date(&due, &RecurringFrequency::Monthly);
    assert_eq!((monthly.month, monthly.day), (3, 2));
    let yearly = next_due_date(&due, &RecurringFrequency::Yearly);
    assert_eq!((yearly.year, yearly.month, yearly.day), (2027, 1, 31));
}

#[test]
fn removing_from_my_day_twice_changes_nothing_more() {
    let mut t = plain_task(1, "a", 1);
    t.add_to_my_day(now());
    let mut app = fresh_app(vec![t], vec![List::new(1, chars("inbox"), now())]);
    assert_eq!(app.my_day_task_order, vec![1]);
    app.remove_task_from_my_day(1, now());
    let tasks_once: Vec<bool> = app.tasks.iter().map(|t| t.is_in_my_day).collect();
    let order_once = app.my_day_task_order.clone();
    let updated_once: Vec<Timestamp> = app.tasks.iter().map(|t| t.updated_at).collect();
    app.remove_task_from_my_day(1, now());
    assert_eq!(app.tasks.iter().map(|t| t.is_in_my_day).collect::<Vec<_>>(), tasks_once);
    assert_eq!(app.my_day_task_order, order_once);
    assert_eq!(app.tasks.iter().map(|t| t.updated_at).collect::<Vec<_>>(), updated_once);
}

#[test]
fn reorder_prunes_duplicates_and_swaps() {
    let mut app = fresh_app(
        vec![plain_task(1, "a", 1), plain_task(2, "b", 1), plain_task(3, "c", 1)],
        vec![List::new(1, chars("inbox"), now())],
    );
    app.my_day_task_order = vec![1, 2, 1, 3];
    app.move_task_up_in_my_day(3);
    assert_eq!(app.my_day_task_order, vec![1, 3, 2]);
    app.move_task_down_in_my_day(1);
    assert_eq!(app.my_day_task_order, vec![3, 1, 2]);
    // Boundaries are no-ops.
    app.move_task_up_in_my_day(3);
    assert_eq!(app.my_day_task_order, vec![3, 1, 2]);
    app.move_task_down_in_my_day(2);
    assert_eq!(app.my_day_task_order, vec![3, 1, 2]);
    // Never any duplicate after a sequence of reorders and additions.
    app.add_task_to_my_day(2, now());
    app.add_task_to_my_day(1, now());
    app.move_task_up_in_my_day(2);
    let mut seen = std::collections::HashSet::new();
    assert!(app.my_day_task_order.iter().all(|id| seen.insert(*id)));
}

#[test]
fn my_day_shows_ordered_tasks_first() {
    let mut t1 = plain_task(1, "a", 1);
    t1.add_to_my_day(now());
    let mut t2 = plain_task(2, "b", 1);
    t2.add_to_my_day(now());
    let mut t3 = plain_task(3, "c", 1);
    t3.add_to_my_day(now());
    let mut app = fresh_app(vec![t1, t2, t3], vec![List::new(1, chars("inbox"), now())]);
    app.my_day_task_order = vec![2];
    let shown = app.get_my_day_tasks(&now());
    let ids: Vec<u32> = shown.iter().map(|t| t.id).collect();
    assert_eq!(ids, vec![2, 1, 3]);
}

#[test]
fn deleting_a_task_purges_it_from_the_order() {
    let mut t1 = plain_task(1, "a", 1);
    t1.add_to_my_day(now());
    let mut app = fresh_app(vec![t1, plain_task(2, "b", 1)], vec![List::new(1, chars("l"), now())]);
    assert_eq!(app.my_day_task_order, vec![1]);
    app.delete_task(1);
    assert_eq!(app.tasks.len(), 1);
    assert!(app.my_day_task_order.is_empty());
}

#[test]
fn deleting_the_last_row_steps_the_cursor_back() {
    let mut app = fresh_app(
        vec![plain_task(1, "a", 1), plain_task(2, "b", 1), plain_task(3, "c", 1)],
        vec![List::new(1, chars("inbox"), now())],
    );
    app.set_current_list(1);
    app.selected_task_index = 2; // the final row of three
    let eff = handle_input(&mut app, key(Key::Delete), now());
    assert!(eff.save_tasks);
    assert_eq!(app.tasks.len(), 2);
    // max(0, old_count - 2) with three rows before the deletion.
    assert_eq!(app.selected_task_index, 1);

    // And with a single remaining task the cursor stays at zero.
    let mut app2 = fresh_app(vec![plain_task(1, "only", 1)], vec![List::new(1, chars("l"), now())]);
    app2.set_current_list(1);
    app2.selected_task_index = 0;
    handle_input(&mut app2, key(Key::Delete), now());
    assert!(app2.tasks.is_empty());
    assert_eq!(app2.selected_task_index, 0);
}

#[test]
fn quit_is_honored_on_every_screen() {
    for state in [
        AppState::ListOverview,
        AppState::TaskList,
        AppState::MyDay,
        AppState::TaskEditor,
        AppState::ListEditor,
        AppState::NoteEditor,
        AppState::MoveTask,
    ] {
        let mut app = fresh_app(Vec::new(), vec![List::new(1, chars("l"), now())]);
        app.state = state;
        handle_input(&mut app, ctrl(Key::Char('q')), now());
        assert!(app.should_quit, "{state:?}");
    }
}

#[test]
fn the_gg_chord_jumps_to_the_top() {
    let mut app = fresh_app(
        Vec::new(),
        vec![List::new(1, chars("a"), now()), List::new(2, chars("b"), now())],
    );
    app.selected_task_index = 1;
    handle_input(&mut app, key(Key::Char('g')), now());
    assert_eq!(text(&app.input_buffer), "g");
    assert_eq!(app.selected_task_index, 1);
    handle_input(&mut app, key(Key::Char('g')), now());
    assert!(app.input_buffer.is_empty());
    assert_eq!(app.selected_task_index, 0);
}

#[test]
fn the_editor_wizard_creates_a_task_end_to_end() {
    let mut app = fresh_app(Vec::new(), vec![List::new(1, chars("inbox"), now())]);
    // Open the list, then the editor.
    handle_input(&mut app, key(Key::Enter), now());
    assert_eq!(app.state, AppState::TaskList);
    handle_input(&mut app, ctrl(Key::Char('n')), now());
    assert_eq!(app.state, AppState::TaskEditor);
    assert_eq!(app.task_editor_mode, TaskEditorMode::Create);
    assert_eq!(app.task_editor_state, TaskEditorState::Title);
    // Title.
    for c in "buy milk".chars() {
        handle_input(&mut app, key(Key::Char(c)), now());
    }
    handle_input(&mut app, key(Key::Enter), now());
    assert_eq!(app.task_editor_state, TaskEditorState::DueDate);
    // Due date.
    for c in "today".chars() {
        handle_input(&mut app, key(Key::Char(c)), now());
    }
    handle_input(&mut app, key(Key::Enter), now());
    assert_eq!(app.task_editor_state, TaskEditorState::Frequency);
    // Frequency.
    for c in "Daily".chars() {
        handle_input(&mut app, key(Key::Char(c)), now());
    }
    handle_input(&mut app, key(Key::Enter), now());
    assert_eq!(app.task_editor_state, TaskEditorState::Notes);
    // Notes, then commit.
    for c in "2 liters".chars() {
        handle_input(&mut app, key(Key::Char(c)), now());
    }
    let eff = handle_input(&mut app, key(Key::Enter), now());
    assert!(eff.save_tasks);
    assert_eq!(app.state, AppState::TaskList);
    assert_eq!(app.tasks.len(), 1);
    let t = &app.tasks[0];
    assert_eq!(t.id, 1);
    assert_eq!(text(&t.title), "buy milk");
    assert_eq!(t.due_date, Some(ts(2026, 10, 12, 23, 59, 59, 120)));
    assert_eq!(t.recurring_frequency, Some(RecurringFrequency::Daily));
    assert_eq!(t.notes.as_ref().map(|v| text(v)), Some("2 liters".to_string()));
    assert_eq!(app.storage.next_task_id, 2);
}

#[test]
fn an_empty_title_blocks_creation_but_not_editing() {
    let mut app = fresh_app(Vec::new(), vec![List::new(1, chars("inbox"), now())]);
    app.set_current_list(1);
    handle_input(&mut app, ctrl(Key::Char('n')), now());
    handle_input(&mut app, key(Key::Char(' ')), now());
    handle_input(&mut app, key(Key::Enter), now());
    // Still on the title step: a new task needs a title.
    assert_eq!(app.task_editor_state, TaskEditorState::Title);

    let mut app2 = fresh_app(vec![plain_task(1, "named", 1)], vec![List::new(1, chars("l"), now())]);
    app2.set_current_list(1);
    handle_input(&mut app2, key(Key::Enter), now()); // open in Edit mode
    assert_eq!(app2.task_editor_mode, TaskEditorMode::Edit);
    app2.input_buffer.clear();
    handle_input(&mut app2, key(Key::Enter), now());
    // Editing tolerates an empty entry and advances.
    assert_eq!(app2.task_editor_state, TaskEditorState::DueDate);
}

#[test]
fn unparseable_due_date_input_is_silently_ignored() {
    let mut app = fresh_app(Vec::new(), vec![List::new(1, chars("inbox"), now())]);
    app.set_current_list(1);
    handle_input(&mut app, ctrl(Key::Char('n')), now());
    for c in "x".chars() {
        handle_input(&mut app, key(Key::Char(c)), now());
    }
    handle_input(&mut app, key(Key::Enter), now());
    for c in "someday soon".chars() {
        handle_input(&mut app, key(Key::Char(c)), now());
    }
    handle_input(&mut app, key(Key::Enter), now());
    assert_eq!(app.task_editor_state, TaskEditorState::Frequency);
    assert_eq!(app.editing_task.as_ref().unwrap().due_date, None);
}

#[test]
fn the_list_editor_creates_a_list_from_trimmed_text() {
    let mut app = fresh_app(Vec::new(), vec![List::new(1, chars("inbox"), now())]);
    handle_input(&mut app, ctrl(Key::Char('n')), now());
    assert_eq!(app.state, AppState::ListEditor);
    for c in "  groceries ".chars() {
        handle_input(&mut app, key(Key::Char(c)), now());
    }
    let eff = handle_input(&mut app, key(Key::Enter), now());
    assert!(eff.save_lists && !eff.save_tasks);
    assert_eq!(app.state, AppState::ListOverview);
    assert_eq!(app.lists.len(), 2);
    assert_eq!(text(&app.lists[1].name), "groceries");
    assert_eq!(app.lists[1].id, 2);
}

#[test]
fn moving_a_task_relocates_it_to_the_chosen_list() {
    let mut app = fresh_app(
        vec![plain_task(1, "a", 1)],
        vec![List::new(1, chars("one"), now()), List::new(2, chars("two"), now())],
    );
    app.set_current_list(1);
    handle_input(&mut app, ctrl(Key::Char('t')), now());
    assert_eq!(app.state, AppState::MoveTask);
    handle_input(&mut app, key(Key::Down), now());
    let eff = handle_input(&mut app, key(Key::Enter), now());
    assert!(eff.save_tasks);
    assert_eq!(app.state, AppState::TaskList);
    assert_eq!(app.tasks[0].list_id, 2);
    assert!(app.moving_task.is_none());
}

#[test]
fn toggling_my_day_membership_from_the_task_list() {
    let mut app = fresh_app(vec![plain_task(1, "a", 1)], vec![List::new(1, chars("l"), now())]);
    app.set_current_list(1);
    let eff = handle_input(&mut app, ctrl(Key::Char('d')), now());
    assert!(eff.save_tasks);
    assert!(app.tasks[0].is_in_my_day);
    assert_eq!(app.my_day_task_order, vec![1]);
    handle_input(&mut app, ctrl(Key::Char('d')), now());
    assert!(!app.tasks[0].is_in_my_day);
    assert!(app.my_day_task_order.is_empty());
}

#[test]
fn reordering_in_my_day_follows_the_moved_task() {
    let mut t1 = plain_task(1, "a", 1);
    t1.add_to_my_day(now());
    let mut t2 = plain_task(2, "b", 1);
    t2.add_to_my_day(now());
    let mut app = fresh_app(vec![t1, t2], vec![List::new(1, chars("l"), now())]);
    app.state = AppState::MyDay;
    app.selected_task_index = 1; // task 2
    let eff = handle_input(&mut app, ctrl(Key::Up), now());
    assert!(!eff.save_tasks && !eff.save_lists);
    assert_eq!(app.my_day_task_order, vec![2, 1]);
    // The cursor follows the task it moved.
    assert_eq!(app.selected_task_index, 0);
}

#[test]
fn note_editor_commits_only_non_blank_notes() {
    let mut app = fresh_app(vec![plain_task(1, "a", 1)], vec![List::new(1, chars("l"), now())]);
    app.set_current_list(1);
    handle_input(&mut app, ctrl(Key::Char('v')), now());
    assert_eq!(app.state, AppState::NoteEditor);
    for c in "remember".chars() {
        handle_input(&mut app, key(Key::Char(c)), now());
    }
    let eff = handle_input(&mut app, key(Key::Enter), now());
    assert!(eff.save_tasks);
    assert_eq!(app.state, AppState::TaskList);
    assert_eq!(app.tasks[0].notes.as_ref().map(|v| text(v)), Some("remember".to_string()));

    // A blank entry commits nothing.
    handle_input(&mut app, ctrl(Key::Char('v')), now());
    app.input_buffer.clear();
    handle_input(&mut app, key(Key::Char(' ')), now());
    let eff2 = handle_input(&mut app, key(Key::Enter), now());
    assert!(!eff2.save_tasks);
    assert_eq!(app.tasks[0].notes.as_ref().map(|v| text(v)), Some("remember".to_string()));
}

#[test]
fn space_toggles_completion_and_reclamps_the_cursor() {
    let mut app = fresh_app(vec![plain_task(1, "only", 1)], vec![List::new(1, chars("l"), now())]);
    app.set_current_list(1);
    let eff = handle_input(&mut app, key(Key::Char(' ')), now());
    assert!(eff.save_tasks);
    assert!(app.tasks[0].is_completed);
    assert_eq!(app.selected_task_index, 0);
    let effects: Effects = handle_input(&mut app, key(Key::Char(' ')), now());
    assert!(effects.save_tasks);
    assert!(!app.tasks[0].is_completed);
}
