//! The input interpreter: a modal state machine that turns one key press
//! into a state transition and persistence effects. Each screen's handler
//! is specified exactly by a transition function over `AppView`.

use vstd::prelude::*;

use crate::app::{
    app_room, app_wf, spec_app_add_list, spec_app_add_task, spec_app_add_to_my_day,
    spec_app_delete_task, spec_app_move_down, spec_app_move_task_to_list, spec_app_move_up,
    spec_app_remove_from_my_day, spec_app_set_current_list, spec_app_toggle_task,
    spec_app_update_task, spec_displayable_count, spec_find_list, spec_my_day_tasks,
    spec_task_at_display_index, spec_tasks_for_list, App, AppState, AppView, TaskEditorMode,
    TaskEditorState,
};
use crate::app::{find_display_index, find_list_index, lemma_find_list, spec_find_display_index};
use crate::app::{lemma_display_wf, lemma_filter_wf_current, lemma_my_day_len_any, lemma_my_day_tasks_wf, lemma_tasks_for_list_len_any};
use crate::app::lemma_toggle_len;
use crate::calendar::{ts_valid, Timestamp};
use crate::datefmt::{
    parse_date_input, spec_parse_date_input, spec_token_eq, spec_trim, token_eq_ci, trim_chars,
};
use crate::list::{spec_new_list, List, ListView};
use crate::task::{
    clone_chars, spec_new_task, spec_set_due_date, spec_set_notes, spec_set_recurring_frequency,
    RecurringFrequency, Task, TaskView,
};

verus! {

/// A key, as the interpreter distinguishes them.
#[derive(Clone, Copy, PartialEq, Eq, Structural, Debug)]
pub enum Key {
    Char(char),
    Up,
    Down,
    Enter,
    Esc,
    Backspace,
    Delete,
    Other,
}

/// One key press, with the control-modifier flag.
#[derive(Clone, Copy, PartialEq, Eq, Structural, Debug)]
pub struct KeyEvent {
    pub key: Key,
    pub ctrl: bool,
}

/// Which collections must be persisted after a step; persistence itself
/// happens outside the library.
#[derive(Clone, Copy, PartialEq, Eq, Structural, Debug)]
pub struct Effects {
    pub save_tasks: bool,
    pub save_lists: bool,
}

pub open spec fn no_effects() -> Effects {
    Effects { save_tasks: false, save_lists: false }
}

pub open spec fn tasks_effect(saved: bool) -> Effects {
    Effects { save_tasks: saved, save_lists: false }
}

/// One step on the list overview: quit, open the list editor, navigate the
/// lists (with the `gg` chord), open the selected list, or switch to My Day.
pub open spec fn spec_step_list_overview(a: AppView, key: KeyEvent) -> (AppView, Effects) {
    let e = no_effects();
    if key.ctrl && key.key == Key::Char('q') {
        (AppView { should_quit: true, ..a }, e)
    } else if key.ctrl && key.key == Key::Char('n') {
        (AppView { input_buffer: Seq::empty(), state: AppState::ListEditor, ..a }, e)
    } else if key.key == Key::Up || key.key == Key::Char('k') {
        (
            AppView {
                selected_task_index: if a.selected_task_index > 0 {
                    (a.selected_task_index - 1) as usize
                } else {
                    a.selected_task_index
                },
                ..a
            },
            e,
        )
    } else if key.key == Key::Down || key.key == Key::Char('j') {
        (
            AppView {
                selected_task_index: if a.selected_task_index + 1 < a.lists.len() {
                    (a.selected_task_index + 1) as usize
                } else {
                    a.selected_task_index
                },
                ..a
            },
            e,
        )
    } else if key.key == Key::Char('g') {
        if a.input_buffer == seq!['g'] {
            (AppView { selected_task_index: 0, input_buffer: Seq::empty(), ..a }, e)
        } else {
            (AppView { input_buffer: seq!['g'], ..a }, e)
        }
    } else if key.key == Key::Char('G') {
        (
            AppView {
                selected_task_index: if a.lists.len() == 0 {
                    0
                } else {
                    (a.lists.len() - 1) as usize
                },
                ..a
            },
            e,
        )
    } else if key.key == Key::Enter {
        if a.selected_task_index < a.lists.len() {
            (spec_app_set_current_list(a, a.lists[a.selected_task_index as int].id), e)
        } else {
            (a, e)
        }
    } else if key.ctrl && key.key == Key::Char('y') {
        (AppView { state: AppState::MyDay, selected_task_index: 0, ..a }, e)
    } else {
        (a, e)
    }
}

/// One step on the move-task screen: navigate the lists, move the staged
/// task into the selected list, or discard it.
pub open spec fn spec_step_move_task(a: AppView, key: KeyEvent, now: Timestamp) -> (
    AppView,
    Effects,
) {
    let e = no_effects();
    if key.ctrl && key.key == Key::Char('q') {
        (AppView { should_quit: true, ..a }, e)
    } else if key.key == Key::Esc {
        (AppView { moving_task: None, state: AppState::TaskList, ..a }, e)
    } else if key.key == Key::Up || key.key == Key::Char('k') {
        (
            AppView {
                selected_task_index: if a.selected_task_index > 0 {
                    (a.selected_task_index - 1) as usize
                } else {
                    a.selected_task_index
                },
                ..a
            },
            e,
        )
    } else if key.key == Key::Down || key.key == Key::Char('j') {
        (
            AppView {
                selected_task_index: if a.selected_task_index + 1 < a.lists.len() {
                    (a.selected_task_index + 1) as usize
                } else {
                    a.selected_task_index
                },
                ..a
            },
            e,
        )
    } else if key.key == Key::Char('g') {
        if a.input_buffer == seq!['g'] {
            (AppView { selected_task_index: 0, input_buffer: Seq::empty(), ..a }, e)
        } else {
            (AppView { input_buffer: seq!['g'], ..a }, e)
        }
    } else if key.key == Key::Char('G') {
        (
            AppView {
                selected_task_index: if a.lists.len() == 0 {
                    0
                } else {
                    (a.lists.len() - 1) as usize
                },
                ..a
            },
            e,
        )
    } else if key.key == Key::Enter {
        if a.selected_task_index < a.lists.len() {
            match a.moving_task {
                Some(task) => {
                    let step = spec_app_move_task_to_list(
                        AppView { moving_task: None, ..a },
                        task.id,
                        a.lists[a.selected_task_index as int].id,
                        now,
                    );
                    (AppView { state: AppState::TaskList, ..step.0 }, tasks_effect(step.1))
                },
                None => (a, e),
            }
        } else {
            (a, e)
        }
    } else {
        (a, e)
    }
}

/// One step in the list editor: edit the name buffer, commit a non-blank
/// name as a new list, or discard.
pub open spec fn spec_step_list_editor(a: AppView, key: KeyEvent, now: Timestamp) -> (
    AppView,
    Effects,
) {
    let e = no_effects();
    if key.ctrl && key.key == Key::Char('q') {
        (AppView { should_quit: true, ..a }, e)
    } else if key.key == Key::Esc {
        (AppView { state: AppState::ListOverview, input_buffer: Seq::empty(), ..a }, e)
    } else if key.key == Key::Enter {
        if spec_trim(a.input_buffer).len() > 0 {
            let a1 = spec_app_add_list(a, spec_new_list(0, spec_trim(a.input_buffer), now));
            (
                AppView { state: AppState::ListOverview, input_buffer: Seq::empty(), ..a1 },
                Effects { save_tasks: false, save_lists: true },
            )
        } else {
            (a, e)
        }
    } else if key.key == Key::Backspace {
        (
            AppView {
                input_buffer: if a.input_buffer.len() > 0 {
                    a.input_buffer.drop_last()
                } else {
                    a.input_buffer
                },
                ..a
            },
            e,
        )
    } else if key.key matches Key::Char(c) && !(key.ctrl && key.key == Key::Char('q')) {
        (
            AppView {
                input_buffer: a.input_buffer.push(match key.key {
                    Key::Char(c) => c,
                    _ => ' ',
                }),
                ..a
            },
            e,
        )
    } else {
        (a, e)
    }
}

/// Moves the cursor one row up, clamped at the top.
fn nav_up(app: &mut App)
    ensures
        final(app)@ == (AppView {
            selected_task_index: if old(app)@.selected_task_index > 0 {
                (old(app)@.selected_task_index - 1) as usize
            } else {
                old(app)@.selected_task_index
            },
            ..old(app)@
        }),
{
    if app.selected_task_index > 0 {
        app.selected_task_index = app.selected_task_index - 1;
    }
    proof {
        assert(final(app)@ =~= (AppView {
            selected_task_index: if old(app)@.selected_task_index > 0 {
                (old(app)@.selected_task_index - 1) as usize
            } else {
                old(app)@.selected_task_index
            },
            ..old(app)@
        }));
    }
}

/// Handles the `gg` chord: a second `g` jumps to the top, a first one is
/// remembered in the input buffer.
fn nav_chord_g(app: &mut App)
    ensures
        final(app)@ == if old(app)@.input_buffer == seq!['g'] {
            (AppView { selected_task_index: 0, input_buffer: Seq::empty(), ..old(app)@ })
        } else {
            (AppView { input_buffer: seq!['g'], ..old(app)@ })
        },
{
    let g: Vec<char> = vec!['g'];
    proof {
        assert(g@ =~= seq!['g']);
    }
    if text_eq(&app.input_buffer, &g) {
        app.selected_task_index = 0;
        app.input_buffer = Vec::new();
        proof {
            assert(final(app)@ =~= (AppView {
                selected_task_index: 0,
                input_buffer: Seq::<char>::empty(),
                ..old(app)@
            }));
        }
    } else {
        let mut b: Vec<char> = Vec::new();
        b.push('g');
        app.input_buffer = b;
        proof {
            assert(app.input_buffer@ =~= seq!['g']);
            assert(final(app)@ =~= (AppView { input_buffer: seq!['g'], ..old(app)@ }));
        }
    }
}

/// Whether two character vectors hold the same text.
pub fn text_eq(a: &Vec<char>, b: &Vec<char>) -> (r: bool)
    ensures
        r == (a@ == b@),
{
    let n = a.len();
    if n != b.len() {
        proof {
            assert(a@.len() != b@.len());
        }
        return false;
    }
    let mut i: usize = 0;
    while i < n
        invariant
            i <= n,
            n == a@.len() == b@.len(),
            forall|j: int| 0 <= j < i ==> a@[j] == b@[j],
        decreases n - i,
    {
        if a[i] != b[i] {
            return false;
        }
        i = i + 1;
    }
    proof {
        assert(a@ =~= b@);
    }
    true
}

fn step_list_overview(app: &mut App, key: KeyEvent) -> (eff: Effects)
    requires
        app_wf(old(app)@),
        old(app)@.lists.len() + 2 < usize::MAX,
    ensures
        final(app)@ == spec_step_list_overview(old(app)@, key).0,
        eff == spec_step_list_overview(old(app)@, key).1,
        app_wf(final(app)@),
{
    let e = Effects { save_tasks: false, save_lists: false };
    if key.ctrl && key.key == Key::Char('q') {
        app.should_quit = true;
        proof {
            assert(final(app)@ =~= spec_step_list_overview(old(app)@, key).0);
        }
        return e;
    }
    if key.ctrl && key.key == Key::Char('n') {
        app.input_buffer = Vec::new();
        app.state = AppState::ListEditor;
        proof {
            assert(final(app)@ =~= spec_step_list_overview(old(app)@, key).0);
        }
        return e;
    }
    if key.key == Key::Up || key.key == Key::Char('k') {
        nav_up(app);
        return e;
    }
    if key.key == Key::Down || key.key == Key::Char('j') {
        let n = app.lists.len();
        if n > 0 && app.selected_task_index < n - 1 {
            app.selected_task_index = app.selected_task_index + 1;
        }
        proof {
            assert(final(app)@ =~= spec_step_list_overview(old(app)@, key).0);
        }
        return e;
    }
    if key.key == Key::Char('g') {
        nav_chord_g(app);
        return e;
    }
    if key.key == Key::Char('G') {
        let n = app.lists.len();
        app.selected_task_index = if n == 0 {
            0
        } else {
            n - 1
        };
        proof {
            assert(final(app)@ =~= spec_step_list_overview(old(app)@, key).0);
        }
        return e;
    }
    if key.key == Key::Enter {
        if app.selected_task_index < app.lists.len() {
            let list_id = app.lists[app.selected_task_index].id;
            proof {
                assert(app.lists.deep_view()[app.selected_task_index as int].id == list_id);
            }
            app.set_current_list(list_id);
        }
        return e;
    }
    if key.ctrl && key.key == Key::Char('y') {
        app.state = AppState::MyDay;
        app.selected_task_index = 0;
        proof {
            assert(final(app)@ =~= spec_step_list_overview(old(app)@, key).0);
        }
        return e;
    }
    e
}

fn step_move_task(app: &mut App, key: KeyEvent, now: Timestamp) -> (eff: Effects)
    requires
        app_wf(old(app)@),
        ts_valid(now),
        old(app)@.lists.len() + 2 < usize::MAX,
    ensures
        final(app)@ == spec_step_move_task(old(app)@, key, now).0,
        eff == spec_step_move_task(old(app)@, key, now).1,
        app_wf(final(app)@),
{
    let e = Effects { save_tasks: false, save_lists: false };
    if key.ctrl && key.key == Key::Char('q') {
        app.should_quit = true;
        proof {
            assert(final(app)@ =~= spec_step_move_task(old(app)@, key, now).0);
        }
        return e;
    }
    if key.key == Key::Esc {
        app.moving_task = None;
        app.state = AppState::TaskList;
        proof {
            assert(final(app)@ =~= spec_step_move_task(old(app)@, key, now).0);
        }
        return e;
    }
    if key.key == Key::Up || key.key == Key::Char('k') {
        nav_up(app);
        proof {
            assert(final(app)@ =~= spec_step_move_task(old(app)@, key, now).0);
        }
        return e;
    }
    if key.key == Key::Down || key.key == Key::Char('j') {
        let n = app.lists.len();
        if n > 0 && app.selected_task_index < n - 1 {
            app.selected_task_index = app.selected_task_index + 1;
        }
        proof {
            assert(final(app)@ =~= spec_step_move_task(old(app)@, key, now).0);
        }
        return e;
    }
    if key.key == Key::Char('g') {
        nav_chord_g(app);
        proof {
            assert(final(app)@ =~= spec_step_move_task(old(app)@, key, now).0);
        }
        return e;
    }
    if key.key == Key::Char('G') {
        let n = app.lists.len();
        app.selected_task_index = if n == 0 {
            0
        } else {
            n - 1
        };
        proof {
            assert(final(app)@ =~= spec_step_move_task(old(app)@, key, now).0);
        }
        return e;
    }
    if key.key == Key::Enter {
        if app.selected_task_index < app.lists.len() {
            let list_id = app.lists[app.selected_task_index].id;
            proof {
                assert(app.lists.deep_view()[app.selected_task_index as int].id == list_id);
            }
            let staged = app.moving_task.take();
            match staged {
                Some(task) => {
                    let saved = app.move_task_to_list(task.id, list_id, now);
                    app.state = AppState::TaskList;
                    proof {
                        assert(final(app)@ =~= spec_step_move_task(old(app)@, key, now).0);
                    }
                    return Effects { save_tasks: saved, save_lists: false };
                },
                None => {
                    proof {
                        assert(final(app)@ =~= spec_step_move_task(old(app)@, key, now).0);
                    }
                    return e;
                },
            }
        }
        return e;
    }
    e
}

fn step_list_editor(app: &mut App, key: KeyEvent, now: Timestamp) -> (eff: Effects)
    requires
        app_wf(old(app)@),
        ts_valid(now),
        old(app)@.next_list_id < u32::MAX,
    ensures
        final(app)@ == spec_step_list_editor(old(app)@, key, now).0,
        eff == spec_step_list_editor(old(app)@, key, now).1,
        app_wf(final(app)@),
{
    let e = Effects { save_tasks: false, save_lists: false };
    if key.ctrl && key.key == Key::Char('q') {
        app.should_quit = true;
        proof {
            assert(final(app)@ =~= spec_step_list_editor(old(app)@, key, now).0);
        }
        return e;
    }
    if key.key == Key::Esc {
        app.state = AppState::ListOverview;
        app.input_buffer = Vec::new();
        proof {
            assert(final(app)@ =~= spec_step_list_editor(old(app)@, key, now).0);
        }
        return e;
    }
    if key.key == Key::Enter {
        let trimmed = trim_chars(&app.input_buffer);
        if trimmed.len() > 0 {
            let new_list = List::new(0, trimmed, now);
            let saved = app.add_list(new_list);
            app.state = AppState::ListOverview;
            app.input_buffer = Vec::new();
            proof {
                assert(final(app)@ =~= spec_step_list_editor(old(app)@, key, now).0);
            }
            return Effects { save_tasks: false, save_lists: true };
        }
        return e;
    }
    if key.key == Key::Backspace {
        let popped = app.input_buffer.pop();
        proof {
            assert(final(app)@ =~= spec_step_list_editor(old(app)@, key, now).0);
        }
        return e;
    }
    if let Key::Char(c) = key.key {
        app.input_buffer.push(c);
        proof {
            assert(final(app)@ =~= spec_step_list_editor(old(app)@, key, now).0);
        }
        return e;
    }
    e
}


/// The screen the editors return to: the open task list, else the overview.
pub open spec fn back_state(a: AppView) -> AppState {
    if a.current_list_id is Some {
        AppState::TaskList
    } else {
        AppState::ListOverview
    }
}

/// One step in the note editor: edit the buffer, commit non-blank notes to
/// the staged task, or leave.
pub open spec fn spec_step_note_editor(a: AppView, key: KeyEvent, now: Timestamp) -> (
    AppView,
    Effects,
) {
    let e = no_effects();
    if key.ctrl && key.key == Key::Char('q') {
        (AppView { should_quit: true, ..a }, e)
    } else if key.key == Key::Esc {
        (AppView { state: back_state(a), input_buffer: Seq::empty(), ..a }, e)
    } else if key.key == Key::Enter {
        if spec_trim(a.input_buffer).len() > 0 {
            match a.editing_task {
                Some(task) => {
                    let t2 = spec_set_notes(task, Some(a.input_buffer), now);
                    let step = spec_app_update_task(AppView { editing_task: None, ..a }, t2);
                    (
                        AppView { state: back_state(a), input_buffer: Seq::empty(), ..step.0 },
                        tasks_effect(step.1),
                    )
                },
                None => (AppView { state: back_state(a), input_buffer: Seq::empty(), ..a }, e),
            }
        } else {
            (
                AppView {
                    state: back_state(a),
                    input_buffer: Seq::empty(),
                    editing_task: None,
                    ..a
                },
                e,
            )
        }
    } else if key.key == Key::Backspace {
        (
            AppView {
                input_buffer: if a.input_buffer.len() > 0 {
                    a.input_buffer.drop_last()
                } else {
                    a.input_buffer
                },
                ..a
            },
            e,
        )
    } else if key.key matches Key::Char(c) {
        (
            AppView {
                input_buffer: a.input_buffer.push(match key.key {
                    Key::Char(c) => c,
                    _ => ' ',
                }),
                ..a
            },
            e,
        )
    } else {
        (a, e)
    }
}

/// The staged task after the frequency step: an empty or `none` entry
/// clears the frequency, a recognized literal sets it, and anything else
/// changes nothing.
pub open spec fn spec_apply_frequency_input(task: TaskView, trimmed: Seq<char>, now: Timestamp) -> TaskView {
    if trimmed.len() == 0 || spec_token_eq(trimmed, seq!['n', 'o', 'n', 'e']) {
        spec_set_recurring_frequency(task, None, now)
    } else if spec_token_eq(trimmed, seq!['d', 'a', 'i', 'l', 'y']) {
        spec_set_recurring_frequency(task, Some(RecurringFrequency::Daily), now)
    } else if spec_token_eq(trimmed, seq!['w', 'e', 'e', 'k', 'd', 'a', 'y', 's']) {
        spec_set_recurring_frequency(task, Some(RecurringFrequency::Weekdays), now)
    } else if spec_token_eq(trimmed, seq!['w', 'e', 'e', 'k', 'l', 'y']) {
        spec_set_recurring_frequency(task, Some(RecurringFrequency::Weekly), now)
    } else if spec_token_eq(trimmed, seq!['m', 'o', 'n', 't', 'h', 'l', 'y']) {
        spec_set_recurring_frequency(task, Some(RecurringFrequency::Monthly), now)
    } else if spec_token_eq(trimmed, seq!['y', 'e', 'a', 'r', 'l', 'y']) {
        spec_set_recurring_frequency(task, Some(RecurringFrequency::Yearly), now)
    } else {
        task
    }
}

/// The editor's Enter step on the staged task: one wizard field per press,
/// then the commit from the Notes step.
pub open spec fn spec_editor_enter(a: AppView, task: TaskView, now: Timestamp) -> (
    AppView,
    Effects,
) {
    let e = no_effects();
    let trimmed = spec_trim(a.input_buffer);
    match a.task_editor_state {
        TaskEditorState::Title => {
            if trimmed.len() > 0 {
                (
                    AppView {
                        editing_task: Some(TaskView { title: trimmed, ..task }),
                        input_buffer: Seq::empty(),
                        task_editor_state: TaskEditorState::DueDate,
                        ..a
                    },
                    e,
                )
            } else if a.task_editor_mode == TaskEditorMode::Edit {
                (
                    AppView {
                        input_buffer: Seq::empty(),
                        task_editor_state: TaskEditorState::DueDate,
                        ..a
                    },
                    e,
                )
            } else {
                (a, e)
            }
        },
        TaskEditorState::DueDate => {
            let task2 = if trimmed.len() > 0 {
                match spec_parse_date_input(a.input_buffer, now) {
                    Some(d) => spec_set_due_date(task, Some(d), now),
                    None => task,
                }
            } else {
                task
            };
            (
                AppView {
                    editing_task: Some(task2),
                    input_buffer: Seq::empty(),
                    task_editor_state: TaskEditorState::Frequency,
                    ..a
                },
                e,
            )
        },
        TaskEditorState::Frequency => {
            let task2 = spec_apply_frequency_input(task, trimmed, now);
            (
                AppView {
                    editing_task: Some(task2),
                    input_buffer: Seq::empty(),
                    task_editor_state: TaskEditorState::Notes,
                    ..a
                },
                e,
            )
        },
        TaskEditorState::Notes => {
            let task2 = if trimmed.len() > 0 {
                spec_set_notes(task, Some(trimmed), now)
            } else {
                task
            };
            if a.task_editor_mode == TaskEditorMode::Create {
                let a1 = spec_app_add_task(a, task2);
                (
                    AppView {
                        state: back_state(a),
                        editing_task: None,
                        input_buffer: Seq::empty(),
                        task_editor_state: TaskEditorState::Title,
                        ..a1
                    },
                    Effects { save_tasks: true, save_lists: false },
                )
            } else {
                let step = spec_app_update_task(a, task2);
                (
                    AppView {
                        state: back_state(a),
                        editing_task: None,
                        input_buffer: Seq::empty(),
                        task_editor_state: TaskEditorState::Title,
                        ..step.0
                    },
                    tasks_effect(step.1),
                )
            }
        },
    }
}

/// One step in the task editor: quit, abort, advance the wizard with
/// Enter, or edit the buffer.
pub open spec fn spec_step_task_editor(a: AppView, key: KeyEvent, now: Timestamp) -> (
    AppView,
    Effects,
) {
    let e = no_effects();
    if key.ctrl && key.key == Key::Char('q') {
        (AppView { should_quit: true, ..a }, e)
    } else if key.key == Key::Esc {
        (
            AppView {
                state: back_state(a),
                editing_task: None,
                input_buffer: Seq::empty(),
                task_editor_state: TaskEditorState::Title,
                ..a
            },
            e,
        )
    } else if key.key == Key::Enter {
        match a.editing_task {
            Some(task) => spec_editor_enter(a, task, now),
            None => (a, e),
        }
    } else if key.key == Key::Backspace {
        (
            AppView {
                input_buffer: if a.input_buffer.len() > 0 {
                    a.input_buffer.drop_last()
                } else {
                    a.input_buffer
                },
                ..a
            },
            e,
        )
    } else if key.key matches Key::Char(c) {
        (
            AppView {
                input_buffer: a.input_buffer.push(match key.key {
                    Key::Char(c) => c,
                    _ => ' ',
                }),
                ..a
            },
            e,
        )
    } else {
        (a, e)
    }
}

fn step_note_editor(app: &mut App, key: KeyEvent, now: Timestamp) -> (eff: Effects)
    requires
        app_wf(old(app)@),
        ts_valid(now),
    ensures
        final(app)@ == spec_step_note_editor(old(app)@, key, now).0,
        eff == spec_step_note_editor(old(app)@, key, now).1,
        app_wf(final(app)@),
{
    let e = Effects { save_tasks: false, save_lists: false };
    if key.ctrl && key.key == Key::Char('q') {
        app.should_quit = true;
        proof {
            assert(final(app)@ =~= spec_step_note_editor(old(app)@, key, now).0);
        }
        return e;
    }
    if key.key == Key::Esc {
        app.state = if app.current_list_id.is_some() {
            AppState::TaskList
        } else {
            AppState::ListOverview
        };
        app.input_buffer = Vec::new();
        proof {
            assert(final(app)@ =~= spec_step_note_editor(old(app)@, key, now).0);
        }
        return e;
    }
    if key.key == Key::Enter {
        let trimmed = trim_chars(&app.input_buffer);
        if trimmed.len() > 0 {
            let staged = app.editing_task.take();
            match staged {
                Some(mut task) => {
                    task.set_notes(Some(clone_chars(&app.input_buffer)), now);
                    let ghost t2v = task@;
                    proof {
                        let told = old(app)@.editing_task->Some_0;
                        assert(t2v == spec_set_notes(told, Some(old(app)@.input_buffer), now));
                        assert(app@ =~= (AppView { editing_task: None, ..old(app)@ }));
                    }
                    let saved = app.update_task(task);
                    proof {
                        assert(app@.tasks =~= spec_app_update_task(
                            AppView { editing_task: None, ..old(app)@ },
                            t2v,
                        ).0.tasks);
                    }
                    app.state = if app.current_list_id.is_some() {
                        AppState::TaskList
                    } else {
                        AppState::ListOverview
                    };
                    app.input_buffer = Vec::new();
                    proof {
                        let target = spec_step_note_editor(old(app)@, key, now).0;
                        assert(final(app)@.tasks =~= target.tasks);
                        assert(final(app)@ =~= target);
                    }
                    return Effects { save_tasks: saved, save_lists: false };
                },
                None => {
                    app.state = if app.current_list_id.is_some() {
                        AppState::TaskList
                    } else {
                        AppState::ListOverview
                    };
                    app.input_buffer = Vec::new();
                    proof {
                        assert(final(app)@ =~= spec_step_note_editor(old(app)@, key, now).0);
                    }
                    return e;
                },
            }
        } else {
            app.editing_task = None;
            app.state = if app.current_list_id.is_some() {
                AppState::TaskList
            } else {
                AppState::ListOverview
            };
            app.input_buffer = Vec::new();
            proof {
                assert(final(app)@ =~= spec_step_note_editor(old(app)@, key, now).0);
            }
            return e;
        }
    }
    if key.key == Key::Backspace {
        let popped = app.input_buffer.pop();
        proof {
            assert(final(app)@ =~= spec_step_note_editor(old(app)@, key, now).0);
        }
        return e;
    }
    if let Key::Char(c) = key.key {
        app.input_buffer.push(c);
        proof {
            assert(final(app)@ =~= spec_step_note_editor(old(app)@, key, now).0);
        }
        return e;
    }
    e
}

fn editor_enter(app: &mut App, now: Timestamp) -> (eff: Effects)
    requires
        app_wf(old(app)@),
        ts_valid(now),
        old(app)@.next_task_id < u32::MAX,
    ensures
        ({
            let step = match old(app)@.editing_task {
                Some(task) => spec_editor_enter(old(app)@, task, now),
                None => (old(app)@, no_effects()),
            };
            final(app)@ == step.0 && eff == step.1
        }),
        app_wf(final(app)@),
{
    let e = Effects { save_tasks: false, save_lists: false };
    let staged = app.editing_task.take();
    match staged {
        Some(mut task) => {
            let trimmed = trim_chars(&app.input_buffer);
            match app.task_editor_state {
                TaskEditorState::Title => {
                    if trimmed.len() > 0 {
                        task.title = trimmed;
                        app.editing_task = Some(task);
                        app.input_buffer = Vec::new();
                        app.task_editor_state = TaskEditorState::DueDate;
                    } else if app.task_editor_mode == TaskEditorMode::Edit {
                        app.editing_task = Some(task);
                        app.input_buffer = Vec::new();
                        app.task_editor_state = TaskEditorState::DueDate;
                    } else {
                        app.editing_task = Some(task);
                    }
                    proof {
                        let target = spec_editor_enter(
                            old(app)@,
                            old(app)@.editing_task->Some_0,
                            now,
                        ).0;
                        assert(final(app)@ =~= target);
                    }
                    e
                },
                TaskEditorState::DueDate => {
                    if trimmed.len() > 0 {
                        let parsed = parse_date_input(&app.input_buffer, &now);
                        if let Some(d) = parsed {
                            task.set_due_date(Some(d), now);
                        }
                    }
                    app.editing_task = Some(task);
                    app.input_buffer = Vec::new();
                    app.task_editor_state = TaskEditorState::Frequency;
                    proof {
                        let target = spec_editor_enter(
                            old(app)@,
                            old(app)@.editing_task->Some_0,
                            now,
                        ).0;
                        assert(final(app)@ =~= target);
                    }
                    e
                },
                TaskEditorState::Frequency => {
                    let none_tok: Vec<char> = vec!['n', 'o', 'n', 'e'];
                    let daily_tok: Vec<char> = vec!['d', 'a', 'i', 'l', 'y'];
                    let weekdays_tok: Vec<char> = vec!['w', 'e', 'e', 'k', 'd', 'a', 'y', 's'];
                    let weekly_tok: Vec<char> = vec!['w', 'e', 'e', 'k', 'l', 'y'];
                    let monthly_tok: Vec<char> = vec!['m', 'o', 'n', 't', 'h', 'l', 'y'];
                    let yearly_tok: Vec<char> = vec!['y', 'e', 'a', 'r', 'l', 'y'];
                    if trimmed.len() == 0 || token_eq_ci(&trimmed, &none_tok) {
                        task.set_recurring_frequency(None, now);
                    } else if token_eq_ci(&trimmed, &daily_tok) {
                        task.set_recurring_frequency(Some(RecurringFrequency::Daily), now);
                    } else if token_eq_ci(&trimmed, &weekdays_tok) {
                        task.set_recurring_frequency(Some(RecurringFrequency::Weekdays), now);
                    } else if token_eq_ci(&trimmed, &weekly_tok) {
                        task.set_recurring_frequency(Some(RecurringFrequency::Weekly), now);
                    } else if token_eq_ci(&trimmed, &monthly_tok) {
                        task.set_recurring_frequency(Some(RecurringFrequency::Monthly), now);
                    } else if token_eq_ci(&trimmed, &yearly_tok) {
                        task.set_recurring_frequency(Some(RecurringFrequency::Yearly), now);
                    }
                    app.editing_task = Some(task);
                    app.input_buffer = Vec::new();
                    app.task_editor_state = TaskEditorState::Notes;
                    proof {
                        let target = spec_editor_enter(
                            old(app)@,
                            old(app)@.editing_task->Some_0,
                            now,
                        ).0;
                        assert(final(app)@ =~= target);
                    }
                    e
                },
                TaskEditorState::Notes => {
                    if trimmed.len() > 0 {
                        task.set_notes(Some(trimmed), now);
                    }
                    let ghost t2v = task@;
                    proof {
                        let told = old(app)@.editing_task->Some_0;
                        let trimmedv = spec_trim(old(app)@.input_buffer);
                        assert(t2v == if trimmedv.len() > 0 {
                            spec_set_notes(told, Some(trimmedv), now)
                        } else {
                            told
                        });
                        assert(app@ =~= (AppView { editing_task: None, ..old(app)@ }));
                    }
                    let saved: bool;
                    if app.task_editor_mode == TaskEditorMode::Create {
                        saved = app.add_task(task);
                        proof {
                            assert(app@.tasks =~= spec_app_add_task(old(app)@, t2v).tasks);
                        }
                    } else {
                        saved = app.update_task(task);
                        proof {
                            assert(app@.tasks =~= spec_app_update_task(old(app)@, t2v).0.tasks);
                        }
                    }
                    app.state = if app.current_list_id.is_some() {
                        AppState::TaskList
                    } else {
                        AppState::ListOverview
                    };
                    app.editing_task = None;
                    app.input_buffer = Vec::new();
                    app.task_editor_state = TaskEditorState::Title;
                    proof {
                        let target = spec_editor_enter(
                            old(app)@,
                            old(app)@.editing_task->Some_0,
                            now,
                        ).0;
                        assert(final(app)@.tasks =~= target.tasks);
                        assert(final(app)@ =~= target);
                    }
                    Effects { save_tasks: saved, save_lists: false }
                },
            }
        },
        None => {
            proof {
                assert(final(app)@ =~= old(app)@);
            }
            e
        },
    }
}

fn step_task_editor(app: &mut App, key: KeyEvent, now: Timestamp) -> (eff: Effects)
    requires
        app_wf(old(app)@),
        ts_valid(now),
        old(app)@.next_task_id < u32::MAX,
    ensures
        final(app)@ == spec_step_task_editor(old(app)@, key, now).0,
        eff == spec_step_task_editor(old(app)@, key, now).1,
        app_wf(final(app)@),
{
    let e = Effects { save_tasks: false, save_lists: false };
    if key.ctrl && key.key == Key::Char('q') {
        app.should_quit = true;
        proof {
            assert(final(app)@ =~= spec_step_task_editor(old(app)@, key, now).0);
        }
        return e;
    }
    if key.key == Key::Esc {
        app.state = if app.current_list_id.is_some() {
            AppState::TaskList
        } else {
            AppState::ListOverview
        };
        app.editing_task = None;
        app.input_buffer = Vec::new();
        app.task_editor_state = TaskEditorState::Title;
        proof {
            assert(final(app)@ =~= spec_step_task_editor(old(app)@, key, now).0);
        }
        return e;
    }
    if key.key == Key::Enter {
        let eff = editor_enter(app, now);
        return eff;
    }
    if key.key == Key::Backspace {
        let popped = app.input_buffer.pop();
        proof {
            assert(final(app)@ =~= spec_step_task_editor(old(app)@, key, now).0);
        }
        return e;
    }
    if let Key::Char(c) = key.key {
        app.input_buffer.push(c);
        proof {
            assert(final(app)@ =~= spec_step_task_editor(old(app)@, key, now).0);
        }
        return e;
    }
    e
}


/// The tasks the task-list screen shows: those of the open list.
pub open spec fn spec_current_tasks(a: AppView) -> Seq<TaskView> {
    match a.current_list_id {
        Some(lid) => spec_tasks_for_list(a.tasks, lid),
        None => Seq::empty(),
    }
}

/// The cursor after a completion toggle: pinned to the first row of a
/// one-row screen, clamped to the last row otherwise, and zero when the
/// screen emptied.
pub open spec fn spec_reclamp_after_toggle(idx: usize, dc2: int) -> usize {
    if dc2 == 1 {
        0
    } else if dc2 > 1 {
        if idx as int >= dc2 {
            (dc2 - 1) as usize
        } else {
            idx
        }
    } else {
        0
    }
}

/// The cursor after a deletion, against the row count before it: stepped
/// down by one when it sat at or past the new end.
pub open spec fn spec_clamp_after_delete(idx: usize, dc: int) -> usize {
    if idx as int >= dc - 1 {
        if dc >= 2 {
            (dc - 2) as usize
        } else {
            0
        }
    } else {
        idx
    }
}

/// One step on the task-list screen; see the arms for the key table.
pub open spec fn spec_step_task_list(a: AppView, key: KeyEvent, now: Timestamp) -> (
    AppView,
    Effects,
) {
    let e = no_effects();
    let tasks = spec_current_tasks(a);
    let dc = spec_displayable_count(tasks);
    if key.ctrl && key.key == Key::Char('q') {
        (AppView { should_quit: true, ..a }, e)
    } else if key.key == Key::Esc {
        (
            AppView {
                state: AppState::ListOverview,
                current_list_id: None,
                selected_task_index: 0,
                ..a
            },
            e,
        )
    } else if key.ctrl && key.key == Key::Char('n') {
        match a.current_list_id {
            Some(lid) => (
                AppView {
                    editing_task: Some(spec_new_task(0, Seq::empty(), lid, now)),
                    input_buffer: Seq::empty(),
                    state: AppState::TaskEditor,
                    task_editor_mode: TaskEditorMode::Create,
                    task_editor_state: TaskEditorState::Title,
                    ..a
                },
                e,
            ),
            None => (a, e),
        }
    } else if key.key == Key::Up || key.key == Key::Char('k') {
        (
            AppView {
                selected_task_index: if a.selected_task_index > 0 {
                    (a.selected_task_index - 1) as usize
                } else {
                    a.selected_task_index
                },
                ..a
            },
            e,
        )
    } else if key.key == Key::Down || key.key == Key::Char('j') {
        (
            AppView {
                selected_task_index: if a.selected_task_index + 1 < dc {
                    (a.selected_task_index + 1) as usize
                } else {
                    a.selected_task_index
                },
                ..a
            },
            e,
        )
    } else if key.key == Key::Char('g') {
        if a.input_buffer == seq!['g'] {
            (AppView { selected_task_index: 0, input_buffer: Seq::empty(), ..a }, e)
        } else {
            (AppView { input_buffer: seq!['g'], ..a }, e)
        }
    } else if key.key == Key::Char('G') {
        (
            AppView {
                selected_task_index: if dc == 0 {
                    0
                } else {
                    (dc - 1) as usize
                },
                ..a
            },
            e,
        )
    } else if key.key == Key::Enter {
        match spec_task_at_display_index(tasks, a.selected_task_index as int) {
            Some(t) => (
                AppView {
                    editing_task: Some(t),
                    input_buffer: t.title,
                    state: AppState::TaskEditor,
                    task_editor_mode: TaskEditorMode::Edit,
                    task_editor_state: TaskEditorState::Title,
                    ..a
                },
                e,
            ),
            None => (a, e),
        }
    } else if key.key == Key::Char(' ') {
        match spec_task_at_display_index(tasks, a.selected_task_index as int) {
            Some(t) => {
                let step = spec_app_toggle_task(a, t.id, now);
                let dc2 = spec_displayable_count(spec_current_tasks(step.0));
                (
                    AppView {
                        selected_task_index: spec_reclamp_after_toggle(
                            step.0.selected_task_index,
                            dc2,
                        ),
                        ..step.0
                    },
                    tasks_effect(step.1),
                )
            },
            None => (a, e),
        }
    } else if key.ctrl && key.key == Key::Char('d') {
        match spec_task_at_display_index(tasks, a.selected_task_index as int) {
            Some(t) => if t.is_in_my_day {
                let step = spec_app_remove_from_my_day(a, t.id, now);
                (step.0, tasks_effect(step.1))
            } else {
                let step = spec_app_add_to_my_day(a, t.id, now);
                (step.0, tasks_effect(step.1))
            },
            None => (a, e),
        }
    } else if key.key == Key::Delete || key.key == Key::Backspace {
        match spec_task_at_display_index(tasks, a.selected_task_index as int) {
            Some(t) => {
                let a1 = spec_app_delete_task(a, t.id);
                (
                    AppView {
                        selected_task_index: spec_clamp_after_delete(a.selected_task_index, dc),
                        ..a1
                    },
                    Effects { save_tasks: true, save_lists: false },
                )
            },
            None => (a, e),
        }
    } else if key.ctrl && key.key == Key::Char('m') {
        (AppView { state: AppState::MyDay, selected_task_index: 0, ..a }, e)
    } else if key.ctrl && key.key == Key::Char('e') {
        if a.selected_task_index < tasks.len() {
            let t = tasks[a.selected_task_index as int];
            (
                AppView {
                    editing_task: Some(t),
                    input_buffer: t.title,
                    state: AppState::TaskEditor,
                    task_editor_mode: TaskEditorMode::Edit,
                    task_editor_state: TaskEditorState::Title,
                    ..a
                },
                e,
            )
        } else {
            (a, e)
        }
    } else if key.ctrl && key.key == Key::Char('v') {
        match spec_task_at_display_index(tasks, a.selected_task_index as int) {
            Some(t) => (
                AppView {
                    editing_task: Some(t),
                    input_buffer: match t.notes {
                        Some(n) => n,
                        None => Seq::empty(),
                    },
                    state: AppState::NoteEditor,
                    ..a
                },
                e,
            ),
            None => (a, e),
        }
    } else if key.ctrl && key.key == Key::Char('t') {
        match spec_task_at_display_index(tasks, a.selected_task_index as int) {
            Some(t) => (AppView { moving_task: Some(t), state: AppState::MoveTask, ..a }, e),
            None => (a, e),
        }
    } else {
        (a, e)
    }
}

/// One step on the My Day screen; like the task list, with Ctrl+Up and
/// Ctrl+Down reordering the selected task and the cursor following it.
pub open spec fn spec_step_my_day(a: AppView, key: KeyEvent, now: Timestamp) -> (AppView, Effects) {
    let e = no_effects();
    let tasks = spec_my_day_tasks(a.tasks, a.my_day_task_order, now);
    let dc = spec_displayable_count(tasks);
    if key.ctrl && key.key == Key::Char('q') {
        (AppView { should_quit: true, ..a }, e)
    } else if key.key == Key::Esc {
        (AppView { state: AppState::ListOverview, selected_task_index: 0, ..a }, e)
    } else if (key.key == Key::Up && !key.ctrl) || key.key == Key::Char('k') {
        (
            AppView {
                selected_task_index: if a.selected_task_index > 0 {
                    (a.selected_task_index - 1) as usize
                } else {
                    a.selected_task_index
                },
                ..a
            },
            e,
        )
    } else if (key.key == Key::Down && !key.ctrl) || key.key == Key::Char('j') {
        (
            AppView {
                selected_task_index: if dc > 0 && a.selected_task_index + 1 < dc {
                    (a.selected_task_index + 1) as usize
                } else {
                    a.selected_task_index
                },
                ..a
            },
            e,
        )
    } else if key.key == Key::Char('g') {
        if a.input_buffer == seq!['g'] {
            (AppView { selected_task_index: 0, input_buffer: Seq::empty(), ..a }, e)
        } else {
            (AppView { input_buffer: seq!['g'], ..a }, e)
        }
    } else if key.key == Key::Char('G') {
        (
            AppView {
                selected_task_index: if dc == 0 {
                    0
                } else {
                    (dc - 1) as usize
                },
                ..a
            },
            e,
        )
    } else if key.key == Key::Char(' ') {
        match spec_task_at_display_index(tasks, a.selected_task_index as int) {
            Some(t) => {
                let step = spec_app_toggle_task(a, t.id, now);
                let dc2 = spec_displayable_count(
                    spec_my_day_tasks(step.0.tasks, step.0.my_day_task_order, now),
                );
                (
                    AppView {
                        selected_task_index: spec_reclamp_after_toggle(
                            step.0.selected_task_index,
                            dc2,
                        ),
                        ..step.0
                    },
                    tasks_effect(step.1),
                )
            },
            None => (a, e),
        }
    } else if key.ctrl && key.key == Key::Char('d') {
        match spec_task_at_display_index(tasks, a.selected_task_index as int) {
            Some(t) => {
                let step = spec_app_remove_from_my_day(a, t.id, now);
                (step.0, tasks_effect(step.1))
            },
            None => (a, e),
        }
    } else if key.ctrl && key.key == Key::Char('v') {
        match spec_task_at_display_index(tasks, a.selected_task_index as int) {
            Some(t) => (
                AppView {
                    editing_task: Some(t),
                    input_buffer: match t.notes {
                        Some(n) => n,
                        None => Seq::empty(),
                    },
                    state: AppState::NoteEditor,
                    ..a
                },
                e,
            ),
            None => (a, e),
        }
    } else if key.ctrl && key.key == Key::Char('t') {
        match spec_task_at_display_index(tasks, a.selected_task_index as int) {
            Some(t) => (AppView { moving_task: Some(t), state: AppState::MoveTask, ..a }, e),
            None => (a, e),
        }
    } else if key.key == Key::Delete || key.key == Key::Backspace {
        match spec_task_at_display_index(tasks, a.selected_task_index as int) {
            Some(t) => {
                let a1 = spec_app_delete_task(a, t.id);
                (
                    AppView {
                        selected_task_index: spec_clamp_after_delete(a.selected_task_index, dc),
                        ..a1
                    },
                    Effects { save_tasks: true, save_lists: false },
                )
            },
            None => (a, e),
        }
    } else if key.key == Key::Up && key.ctrl {
        match spec_task_at_display_index(tasks, a.selected_task_index as int) {
            Some(t) => {
                let a1 = spec_app_move_up(a, t.id);
                let tasks2 = spec_my_day_tasks(a1.tasks, a1.my_day_task_order, now);
                let f = spec_find_display_index(tasks2, t.id, 0);
                (
                    AppView {
                        selected_task_index: if f >= 0 {
                            f as usize
                        } else {
                            a1.selected_task_index
                        },
                        ..a1
                    },
                    e,
                )
            },
            None => (a, e),
        }
    } else if key.key == Key::Down && key.ctrl {
        match spec_task_at_display_index(tasks, a.selected_task_index as int) {
            Some(t) => {
                let a1 = spec_app_move_down(a, t.id);
                let tasks2 = spec_my_day_tasks(a1.tasks, a1.my_day_task_order, now);
                let f = spec_find_display_index(tasks2, t.id, 0);
                (
                    AppView {
                        selected_task_index: if f >= 0 {
                            f as usize
                        } else {
                            a1.selected_task_index
                        },
                        ..a1
                    },
                    e,
                )
            },
            None => (a, e),
        }
    } else {
        (a, e)
    }
}



#[verifier::rlimit(100)]
fn step_task_list(app: &mut App, key: KeyEvent, now: Timestamp) -> (eff: Effects)
    requires
        app_wf(old(app)@),
        app_room(old(app)@),
        ts_valid(now),
    ensures
        final(app)@ == spec_step_task_list(old(app)@, key, now).0,
        eff == spec_step_task_list(old(app)@, key, now).1,
        app_wf(final(app)@),
{
    let e = Effects { save_tasks: false, save_lists: false };
    if key.ctrl && key.key == Key::Char('q') {
        app.should_quit = true;
        proof {
            assert(final(app)@ =~= spec_step_task_list(old(app)@, key, now).0);
        }
        return e;
    }
    if key.key == Key::Esc {
        app.state = AppState::ListOverview;
        app.current_list_id = None;
        app.selected_task_index = 0;
        proof {
            assert(final(app)@ =~= spec_step_task_list(old(app)@, key, now).0);
        }
        return e;
    }
    if key.ctrl && key.key == Key::Char('n') {
        match app.current_list_id {
            Some(lid) => {
                let blank = Task::new(0, Vec::new(), lid, now);
                proof {
                    assert(blank@ =~= spec_new_task(0, Seq::<char>::empty(), lid, now));
                }
                app.editing_task = Some(blank);
                app.input_buffer = Vec::new();
                app.state = AppState::TaskEditor;
                app.task_editor_mode = TaskEditorMode::Create;
                app.task_editor_state = TaskEditorState::Title;
                proof {
                    assert(final(app)@ =~= spec_step_task_list(old(app)@, key, now).0);
                }
            },
            None => {
            },
        }
        return e;
    }
    if key.key == Key::Up || key.key == Key::Char('k') {
        nav_up(app);
        proof {
            assert(final(app)@ =~= spec_step_task_list(old(app)@, key, now).0);
        }
        return e;
    }
    proof {
        lemma_tasks_for_list_len_any(old(app)@);
    }
    if key.key == Key::Down || key.key == Key::Char('j') {
        let tasks = app.get_current_list_tasks();
        let dc = app.get_displayable_task_count(&tasks);
        if dc > 0 && app.selected_task_index < dc - 1 {
            app.selected_task_index = app.selected_task_index + 1;
        }
        proof {
            assert(final(app)@ =~= spec_step_task_list(old(app)@, key, now).0);
        }
        return e;
    }
    if key.key == Key::Char('g') {
        nav_chord_g(app);
        proof {
            assert(final(app)@ =~= spec_step_task_list(old(app)@, key, now).0);
        }
        return e;
    }
    if key.key == Key::Char('G') {
        let tasks = app.get_current_list_tasks();
        let dc = app.get_displayable_task_count(&tasks);
        app.selected_task_index = if dc == 0 {
            0
        } else {
            dc - 1
        };
        proof {
            assert(final(app)@ =~= spec_step_task_list(old(app)@, key, now).0);
        }
        return e;
    }
    if key.key == Key::Enter {
        let tasks = app.get_current_list_tasks();
        let at = app.get_task_at_display_index(&tasks, app.selected_task_index);
        if let Some(t) = at {
            proof {
                lemma_filter_wf_current(old(app)@);
                lemma_display_wf(tasks.deep_view(), old(app)@.selected_task_index as int);
            }
            let title = clone_chars(&t.title);
            app.editing_task = Some(t);
            app.input_buffer = title;
            app.state = AppState::TaskEditor;
            app.task_editor_mode = TaskEditorMode::Edit;
            app.task_editor_state = TaskEditorState::Title;
            proof {
                assert(final(app)@ =~= spec_step_task_list(old(app)@, key, now).0);
            }
        }
        return e;
    }
    if key.key == Key::Char(' ') {
        let tasks = app.get_current_list_tasks();
        let at = app.get_task_at_display_index(&tasks, app.selected_task_index);
        if let Some(t) = at {
            let saved = app.toggle_task_completion(t.id, now);
            let new_tasks = app.get_current_list_tasks();
            proof {
                lemma_toggle_len(old(app)@, t@.id, now);
                assert(app@.tasks.len() <= old(app)@.tasks.len() + 1);
                lemma_tasks_for_list_len_any(app@);
            }
            let dc2 = app.get_displayable_task_count(&new_tasks);
            if dc2 == 1 {
                app.selected_task_index = 0;
            } else if dc2 > 1 {
                if app.selected_task_index >= dc2 {
                    app.selected_task_index = dc2 - 1;
                }
            } else {
                app.selected_task_index = 0;
            }
            proof {
                let target = spec_step_task_list(old(app)@, key, now).0;
                assert(final(app)@.tasks =~= target.tasks);
                assert(final(app)@ =~= target);
            }
            return Effects { save_tasks: saved, save_lists: false };
        }
        return e;
    }
    if key.ctrl && key.key == Key::Char('d') {
        let tasks = app.get_current_list_tasks();
        let at = app.get_task_at_display_index(&tasks, app.selected_task_index);
        if let Some(t) = at {
            if t.is_in_my_day {
                let saved = app.remove_task_from_my_day(t.id, now);
                proof {
                    assert(final(app)@ =~= spec_step_task_list(old(app)@, key, now).0);
                }
                return Effects { save_tasks: saved, save_lists: false };
            } else {
                let saved = app.add_task_to_my_day(t.id, now);
                proof {
                    assert(final(app)@ =~= spec_step_task_list(old(app)@, key, now).0);
                }
                return Effects { save_tasks: saved, save_lists: false };
            }
        }
        return e;
    }
    if key.key == Key::Delete || key.key == Key::Backspace {
        let tasks = app.get_current_list_tasks();
        let at = app.get_task_at_display_index(&tasks, app.selected_task_index);
        if let Some(t) = at {
            let dc = app.get_displayable_task_count(&tasks);
            let saved = app.delete_task(t.id);
            if app.selected_task_index + 1 >= dc {
                app.selected_task_index = if dc >= 2 {
                    dc - 2
                } else {
                    0
                };
            }
            proof {
                let target = spec_step_task_list(old(app)@, key, now).0;
                assert(final(app)@.tasks =~= target.tasks);
                assert(final(app)@ =~= target);
            }
            return Effects { save_tasks: true, save_lists: false };
        }
        return e;
    }
    if key.ctrl && key.key == Key::Char('m') {
        app.state = AppState::MyDay;
        app.selected_task_index = 0;
        proof {
            assert(final(app)@ =~= spec_step_task_list(old(app)@, key, now).0);
        }
        return e;
    }
    if key.ctrl && key.key == Key::Char('e') {
        let tasks = app.get_current_list_tasks();
        if app.selected_task_index < tasks.len() {
            proof {
                lemma_filter_wf_current(old(app)@);
                assert(tasks.deep_view()[old(app)@.selected_task_index as int] == tasks@[old(
                    app,
                )@.selected_task_index as int]@);
            }
            let t = tasks[app.selected_task_index].clone();
            let title = clone_chars(&t.title);
            app.editing_task = Some(t);
            app.input_buffer = title;
            app.state = AppState::TaskEditor;
            app.task_editor_mode = TaskEditorMode::Edit;
            app.task_editor_state = TaskEditorState::Title;
            proof {
                assert(final(app)@ =~= spec_step_task_list(old(app)@, key, now).0);
            }
        }
        return e;
    }
    if key.ctrl && key.key == Key::Char('v') {
        let tasks = app.get_current_list_tasks();
        let at = app.get_task_at_display_index(&tasks, app.selected_task_index);
        if let Some(t) = at {
            proof {
                lemma_filter_wf_current(old(app)@);
                lemma_display_wf(tasks.deep_view(), old(app)@.selected_task_index as int);
            }
            let notes = match &t.notes {
                Some(n) => clone_chars(n),
                None => Vec::new(),
            };
            app.editing_task = Some(t);
            app.input_buffer = notes;
            app.state = AppState::NoteEditor;
            proof {
                assert(final(app)@ =~= spec_step_task_list(old(app)@, key, now).0);
            }
        }
        return e;
    }
    if key.ctrl && key.key == Key::Char('t') {
        let tasks = app.get_current_list_tasks();
        let at = app.get_task_at_display_index(&tasks, app.selected_task_index);
        if let Some(t) = at {
            proof {
                lemma_filter_wf_current(old(app)@);
                lemma_display_wf(tasks.deep_view(), old(app)@.selected_task_index as int);
            }
            app.moving_task = Some(t);
            app.state = AppState::MoveTask;
            proof {
                assert(final(app)@ =~= spec_step_task_list(old(app)@, key, now).0);
            }
        }
        return e;
    }
    e
}

#[verifier::rlimit(100)]
fn step_my_day(app: &mut App, key: KeyEvent, now: Timestamp) -> (eff: Effects)
    requires
        app_wf(old(app)@),
        app_room(old(app)@),
        ts_valid(now),
    ensures
        final(app)@ == spec_step_my_day(old(app)@, key, now).0,
        eff == spec_step_my_day(old(app)@, key, now).1,
        app_wf(final(app)@),
{
    let e = Effects { save_tasks: false, save_lists: false };
    if key.ctrl && key.key == Key::Char('q') {
        app.should_quit = true;
        proof {
            assert(final(app)@ =~= spec_step_my_day(old(app)@, key, now).0);
        }
        return e;
    }
    if key.key == Key::Esc {
        app.state = AppState::ListOverview;
        app.selected_task_index = 0;
        proof {
            assert(final(app)@ =~= spec_step_my_day(old(app)@, key, now).0);
        }
        return e;
    }
    if (key.key == Key::Up && !key.ctrl) || key.key == Key::Char('k') {
        nav_up(app);
        proof {
            assert(final(app)@ =~= spec_step_my_day(old(app)@, key, now).0);
        }
        return e;
    }
    proof {
        lemma_my_day_len_any(old(app)@, now);
    }
    if (key.key == Key::Down && !key.ctrl) || key.key == Key::Char('j') {
        let tasks = app.get_my_day_tasks(&now);
        let dc = app.get_displayable_task_count(&tasks);
        if dc > 0 && app.selected_task_index < dc - 1 {
            app.selected_task_index = app.selected_task_index + 1;
        }
        proof {
            assert(final(app)@ =~= spec_step_my_day(old(app)@, key, now).0);
        }
        return e;
    }
    if key.key == Key::Char('g') {
        nav_chord_g(app);
        proof {
            assert(final(app)@ =~= spec_step_my_day(old(app)@, key, now).0);
        }
        return e;
    }
    if key.key == Key::Char('G') {
        let tasks = app.get_my_day_tasks(&now);
        let dc = app.get_displayable_task_count(&tasks);
        app.selected_task_index = if dc == 0 {
            0
        } else {
            dc - 1
        };
        proof {
            assert(final(app)@ =~= spec_step_my_day(old(app)@, key, now).0);
        }
        return e;
    }
    if key.key == Key::Char(' ') {
        return my_day_space(app, key, now);
    }
    if key.ctrl && key.key == Key::Char('d') {
        let tasks = app.get_my_day_tasks(&now);
        let at = app.get_task_at_display_index(&tasks, app.selected_task_index);
        if let Some(t) = at {
            let saved = app.remove_task_from_my_day(t.id, now);
            proof {
                assert(final(app)@ =~= spec_step_my_day(old(app)@, key, now).0);
            }
            return Effects { save_tasks: saved, save_lists: false };
        }
        return e;
    }
    if key.ctrl && key.key == Key::Char('v') {
        let tasks = app.get_my_day_tasks(&now);
        let at = app.get_task_at_display_index(&tasks, app.selected_task_index);
        if let Some(t) = at {
            proof {
                lemma_my_day_tasks_wf(old(app)@.tasks, old(app)@.my_day_task_order, now);
                lemma_display_wf(tasks.deep_view(), old(app)@.selected_task_index as int);
            }
            let notes = match &t.notes {
                Some(n) => clone_chars(n),
                None => Vec::new(),
            };
            app.editing_task = Some(t);
            app.input_buffer = notes;
            app.state = AppState::NoteEditor;
            proof {
                assert(final(app)@ =~= spec_step_my_day(old(app)@, key, now).0);
            }
        }
        return e;
    }
    if key.ctrl && key.key == Key::Char('t') {
        let tasks = app.get_my_day_tasks(&now);
        let at = app.get_task_at_display_index(&tasks, app.selected_task_index);
        if let Some(t) = at {
            proof {
                lemma_my_day_tasks_wf(old(app)@.tasks, old(app)@.my_day_task_order, now);
                lemma_display_wf(tasks.deep_view(), old(app)@.selected_task_index as int);
            }
            app.moving_task = Some(t);
            app.state = AppState::MoveTask;
            proof {
                assert(final(app)@ =~= spec_step_my_day(old(app)@, key, now).0);
            }
        }
        return e;
    }
    if key.key == Key::Delete || key.key == Key::Backspace {
        return my_day_delete(app, key, now);
    }
    if key.key == Key::Up && key.ctrl {
        return my_day_move(app, key, now, true);
    }
    if key.key == Key::Down && key.ctrl {
        return my_day_move(app, key, now, false);
    }
    e
}

#[verifier::rlimit(100)]
fn my_day_space(app: &mut App, key: KeyEvent, now: Timestamp) -> (eff: Effects)
    requires
        app_wf(old(app)@),
        app_room(old(app)@),
        ts_valid(now),
        key.key == Key::Char(' '),
    ensures
        final(app)@ == spec_step_my_day(old(app)@, key, now).0,
        eff == spec_step_my_day(old(app)@, key, now).1,
        app_wf(final(app)@),
{
    let e = Effects { save_tasks: false, save_lists: false };
    proof {
        lemma_my_day_len_any(old(app)@, now);
    }
    let tasks = app.get_my_day_tasks(&now);
    let at = app.get_task_at_display_index(&tasks, app.selected_task_index);
    if let Some(t) = at {
        let saved = app.toggle_task_completion(t.id, now);
        let new_tasks = app.get_my_day_tasks(&now);
        proof {
            lemma_toggle_len(old(app)@, t@.id, now);
            assert(app@.tasks.len() <= old(app)@.tasks.len() + 1);
            lemma_my_day_len_any(app@, now);
        }
        let dc2 = app.get_displayable_task_count(&new_tasks);
        if dc2 == 1 {
            app.selected_task_index = 0;
        } else if dc2 > 1 {
            if app.selected_task_index >= dc2 {
                app.selected_task_index = dc2 - 1;
            }
        } else {
            app.selected_task_index = 0;
        }
        proof {
            let target = spec_step_my_day(old(app)@, key, now).0;
            assert(final(app)@.tasks =~= target.tasks);
            assert(final(app)@ =~= target);
        }
        return Effects { save_tasks: saved, save_lists: false };
    }
    e
}

#[verifier::rlimit(100)]
fn my_day_delete(app: &mut App, key: KeyEvent, now: Timestamp) -> (eff: Effects)
    requires
        app_wf(old(app)@),
        app_room(old(app)@),
        ts_valid(now),
        key.key == Key::Delete || key.key == Key::Backspace,
    ensures
        final(app)@ == spec_step_my_day(old(app)@, key, now).0,
        eff == spec_step_my_day(old(app)@, key, now).1,
        app_wf(final(app)@),
{
    let e = Effects { save_tasks: false, save_lists: false };
    proof {
        lemma_my_day_len_any(old(app)@, now);
    }
    let tasks = app.get_my_day_tasks(&now);
    let at = app.get_task_at_display_index(&tasks, app.selected_task_index);
    if let Some(t) = at {
        let dc = app.get_displayable_task_count(&tasks);
        let saved = app.delete_task(t.id);
        if app.selected_task_index + 1 >= dc {
            app.selected_task_index = if dc >= 2 {
                dc - 2
            } else {
                0
            };
        }
        proof {
            let target = spec_step_my_day(old(app)@, key, now).0;
            assert(final(app)@.tasks =~= target.tasks);
            assert(final(app)@ =~= target);
        }
        return Effects { save_tasks: true, save_lists: false };
    }
    e
}

#[verifier::rlimit(100)]
fn my_day_move(app: &mut App, key: KeyEvent, now: Timestamp, up: bool) -> (eff: Effects)
    requires
        app_wf(old(app)@),
        app_room(old(app)@),
        ts_valid(now),
        key.ctrl,
        up ==> key.key == Key::Up,
        !up ==> key.key == Key::Down,
    ensures
        final(app)@ == spec_step_my_day(old(app)@, key, now).0,
        eff == spec_step_my_day(old(app)@, key, now).1,
        app_wf(final(app)@),
{
    let e = Effects { save_tasks: false, save_lists: false };
    proof {
        lemma_my_day_len_any(old(app)@, now);
    }
    let tasks = app.get_my_day_tasks(&now);
    let at = app.get_task_at_display_index(&tasks, app.selected_task_index);
    if let Some(t) = at {
        let saved = if up {
            app.move_task_up_in_my_day(t.id)
        } else {
            app.move_task_down_in_my_day(t.id)
        };
        let new_tasks = app.get_my_day_tasks(&now);
        proof {
            lemma_my_day_len_any(app@, now);
        }
        let found = find_display_index(app, &new_tasks, t.id);
        if let Some(i) = found {
            app.selected_task_index = i;
        }
        proof {
            let target = spec_step_my_day(old(app)@, key, now).0;
            assert(final(app)@.my_day_task_order =~= target.my_day_task_order);
            assert(final(app)@ =~= target);
        }
    }
    e
}

/// The whole state machine: one key press against the current screen.
pub open spec fn spec_handle_input(a: AppView, key: KeyEvent, now: Timestamp) -> (
    AppView,
    Effects,
) {
    match a.state {
        AppState::ListOverview => spec_step_list_overview(a, key),
        AppState::TaskList => spec_step_task_list(a, key, now),
        AppState::MyDay => spec_step_my_day(a, key, now),
        AppState::TaskEditor => spec_step_task_editor(a, key, now),
        AppState::ListEditor => spec_step_list_editor(a, key, now),
        AppState::NoteEditor => spec_step_note_editor(a, key, now),
        AppState::MoveTask => spec_step_move_task(a, key, now),
    }
}

/// Interprets one key press: dispatches on the current screen and returns
/// which collections must now be persisted; see `spec_handle_input`.
pub fn handle_input(app: &mut App, key: KeyEvent, now: Timestamp) -> (eff: Effects)
    requires
        app_wf(old(app)@),
        app_room(old(app)@),
        ts_valid(now),
    ensures
        final(app)@ == spec_handle_input(old(app)@, key, now).0,
        eff == spec_handle_input(old(app)@, key, now).1,
        app_wf(final(app)@),
{
    match app.state {
        AppState::ListOverview => step_list_overview(app, key),
        AppState::TaskList => step_task_list(app, key, now),
        AppState::MyDay => step_my_day(app, key, now),
        AppState::TaskEditor => step_task_editor(app, key, now),
        AppState::ListEditor => step_list_editor(app, key, now),
        AppState::NoteEditor => step_note_editor(app, key, now),
        AppState::MoveTask => step_move_task(app, key, now),
    }
}


} // verus!
