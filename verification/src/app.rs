//! The application state: the entity collections, the navigation context,
//! the active screen, and every mutation the input interpreter performs on
//! them. All queries and mutators are specified against `AppView`, the
//! mathematical value of an `App`.

use vstd::prelude::*;

use crate::calendar::{same_date, spec_same_date, ts_valid, Timestamp};
use crate::list::{list_wf, spec_new_list, List, ListView};
use crate::storage::{spec_max_list_id, spec_max_task_id, Storage};
use crate::task::{
    spec_is_due_today, spec_new_task, spec_next_due_date, spec_set_in_my_day,
    spec_toggle_completion, task_wf, next_due_date, Task, TaskView,
};

verus! {

/// The screen the interpreter is on.
#[derive(Clone, Copy, PartialEq, Eq, Structural, Debug)]
pub enum AppState {
    ListOverview,
    TaskList,
    MyDay,
    TaskEditor,
    ListEditor,
    NoteEditor,
    MoveTask,
}

/// Whether the task editor creates a task or edits an existing one.
#[derive(Clone, Copy, PartialEq, Eq, Structural, Debug)]
pub enum TaskEditorMode {
    Create,
    Edit,
}

/// The wizard step the task editor is on.
#[derive(Clone, Copy, PartialEq, Eq, Structural, Debug)]
pub enum TaskEditorState {
    Title,
    DueDate,
    Frequency,
    Notes,
}

/// The whole application core: collections, id counters, navigation
/// context, editor sub-state, and the My-Day order.
pub struct App {
    pub state: AppState,
    pub tasks: Vec<Task>,
    pub lists: Vec<List>,
    pub storage: Storage,
    pub current_list_id: Option<u32>,
    pub selected_task_index: usize,
    pub task_editor_mode: TaskEditorMode,
    pub task_editor_state: TaskEditorState,
    pub editing_task: Option<Task>,
    pub input_buffer: Vec<char>,
    pub should_quit: bool,
    pub moving_task: Option<Task>,
    pub my_day_task_order: Vec<u32>,
}

/// The mathematical value of an `App`.
#[verifier::ext_equal]
pub ghost struct AppView {
    pub state: AppState,
    pub tasks: Seq<TaskView>,
    pub lists: Seq<ListView>,
    pub next_task_id: u32,
    pub next_list_id: u32,
    pub current_list_id: Option<u32>,
    pub selected_task_index: usize,
    pub task_editor_mode: TaskEditorMode,
    pub task_editor_state: TaskEditorState,
    pub editing_task: Option<TaskView>,
    pub input_buffer: Seq<char>,
    pub should_quit: bool,
    pub moving_task: Option<TaskView>,
    pub my_day_task_order: Seq<u32>,
}

impl View for App {
    type V = AppView;

    open spec fn view(&self) -> AppView {
        AppView {
            state: self.state,
            tasks: self.tasks.deep_view(),
            lists: self.lists.deep_view(),
            next_task_id: self.storage.next_task_id,
            next_list_id: self.storage.next_list_id,
            current_list_id: self.current_list_id,
            selected_task_index: self.selected_task_index,
            task_editor_mode: self.task_editor_mode,
            task_editor_state: self.task_editor_state,
            editing_task: self.editing_task.deep_view(),
            input_buffer: self.input_buffer@,
            should_quit: self.should_quit,
            moving_task: self.moving_task.deep_view(),
            my_day_task_order: self.my_day_task_order@,
        }
    }
}

pub open spec fn tasks_wf(s: Seq<TaskView>) -> bool {
    forall|i: int| 0 <= i < s.len() ==> task_wf(#[trigger] s[i])
}

pub open spec fn lists_wf(s: Seq<ListView>) -> bool {
    forall|i: int| 0 <= i < s.len() ==> list_wf(#[trigger] s[i])
}

pub open spec fn task_ids_unique(s: Seq<TaskView>) -> bool {
    forall|i: int, j: int| 0 <= i < j < s.len() ==> (#[trigger] s[i]).id != (#[trigger] s[j]).id
}

pub open spec fn list_ids_unique(s: Seq<ListView>) -> bool {
    forall|i: int, j: int| 0 <= i < j < s.len() ==> (#[trigger] s[i]).id != (#[trigger] s[j]).id
}

pub open spec fn task_ids_below(s: Seq<TaskView>, bound: u32) -> bool {
    forall|i: int| 0 <= i < s.len() ==> (#[trigger] s[i]).id < bound
}

pub open spec fn list_ids_below(s: Seq<ListView>, bound: u32) -> bool {
    forall|i: int| 0 <= i < s.len() ==> (#[trigger] s[i]).id < bound
}

/// No id appears twice in the My-Day order.
pub open spec fn no_dup_ids(o: Seq<u32>) -> bool {
    forall|i: int, j: int| 0 <= i < j < o.len() ==> #[trigger] o[i] != #[trigger] o[j]
}

/// Every id in the My-Day order is below the task-id counter, so a freshly
/// allocated id can never collide with a stale entry.
pub open spec fn order_ids_below(o: Seq<u32>, bound: u32) -> bool {
    forall|i: int| 0 <= i < o.len() ==> (#[trigger] o[i]) < bound
}

/// The application invariant: entities are well-formed, ids are unique and
/// below the counters, staged editor tasks are well-formed, and the My-Day
/// order holds no duplicates.
pub open spec fn app_wf(a: AppView) -> bool {
    &&& tasks_wf(a.tasks)
    &&& task_ids_unique(a.tasks)
    &&& task_ids_below(a.tasks, a.next_task_id)
    &&& lists_wf(a.lists)
    &&& list_ids_unique(a.lists)
    &&& list_ids_below(a.lists, a.next_list_id)
    &&& no_dup_ids(a.my_day_task_order)
    &&& order_ids_below(a.my_day_task_order, a.next_task_id)
    &&& (a.editing_task matches Some(t) ==> task_wf(t))
    &&& (a.moving_task matches Some(t) ==> task_wf(t))
}

/// Headroom for one more event: counters and collection sizes are not about
/// to overflow. Checked by the caller before each event is handled.
pub open spec fn app_room(a: AppView) -> bool {
    &&& a.next_task_id < u32::MAX
    &&& a.next_list_id < u32::MAX
    &&& spec_max_task_id(a.tasks) < u32::MAX
    &&& a.tasks.len() + 2 < usize::MAX
    &&& a.lists.len() + 2 < usize::MAX
}

/// The incomplete tasks, in collection order.
pub open spec fn spec_actives(s: Seq<TaskView>) -> Seq<TaskView> {
    s.filter(|t: TaskView| !t.is_completed)
}

/// The completed tasks, in collection order.
pub open spec fn spec_completeds(s: Seq<TaskView>) -> Seq<TaskView> {
    s.filter(|t: TaskView| t.is_completed)
}

/// The tasks of one list, in collection order.
pub open spec fn spec_tasks_for_list(s: Seq<TaskView>, list_id: u32) -> Seq<TaskView> {
    s.filter(|t: TaskView| t.list_id == list_id)
}

/// The tasks that belong on the My Day screen: flagged for it, or due today.
pub open spec fn spec_my_day_pool(s: Seq<TaskView>, now: Timestamp) -> Seq<TaskView> {
    s.filter(|t: TaskView| t.is_in_my_day || spec_is_due_today(t, now))
}

/// Every task is either active or completed, so the two groups cover the
/// collection exactly.
pub proof fn lemma_split_len(s: Seq<TaskView>)
    ensures
        spec_actives(s).len() + spec_completeds(s).len() == s.len(),
    decreases s.len(),
{
    reveal_with_fuel(Seq::<_>::filter, 2);
    if s.len() > 0 {
        lemma_split_len(s.drop_last());
    }
}

/// Rows on a screen that shows `tasks`: the active tasks, one separator row
/// when both groups are non-empty, then the completed tasks.
pub open spec fn spec_displayable_count(tasks: Seq<TaskView>) -> int {
    let a = spec_actives(tasks).len();
    let c = spec_completeds(tasks).len();
    a + (if a > 0 && c > 0 {
        1int
    } else {
        0int
    }) + c
}

/// The task on display row `i`: an active task, `None` on the separator
/// row, a completed task after it, and `None` past the end.
pub open spec fn spec_task_at_display_index(tasks: Seq<TaskView>, i: int) -> Option<TaskView> {
    let a = spec_actives(tasks);
    let c = spec_completeds(tasks);
    if 0 <= i < a.len() {
        Some(a[i])
    } else if a.len() > 0 && c.len() > 0 && i == a.len() {
        None
    } else {
        let ci = if a.len() > 0 && c.len() > 0 {
            i - a.len() - 1
        } else {
            i - a.len()
        };
        if 0 <= ci < c.len() {
            Some(c[ci])
        } else {
            None
        }
    }
}

/// The display rows other than the separator are exactly the active tasks
/// in collection order followed by the completed tasks in collection order.
pub proof fn lemma_display_order(tasks: Seq<TaskView>)
    ensures
        forall|i: int|
            0 <= i < spec_actives(tasks).len() ==> spec_task_at_display_index(tasks, i) == Some(
                spec_actives(tasks)[i],
            ),
        spec_actives(tasks).len() > 0 && spec_completeds(tasks).len() > 0
            ==> spec_task_at_display_index(tasks, spec_actives(tasks).len() as int) is None,
        forall|j: int|
            0 <= j < spec_completeds(tasks).len() ==> spec_task_at_display_index(
                tasks,
                spec_displayable_count(tasks) - spec_completeds(tasks).len() + j,
            ) == Some(spec_completeds(tasks)[j]),
        forall|i: int|
            spec_displayable_count(tasks) <= i ==> spec_task_at_display_index(tasks, i) is None,
{
}

/// A screen with no tasks has no rows and names no task at any index.
pub proof fn lemma_empty_display(tasks: Seq<TaskView>)
    requires
        tasks.len() == 0,
    ensures
        spec_displayable_count(tasks) == 0,
        forall|i: int| spec_task_at_display_index(tasks, i) is None,
{
}

/// One step of a filter over a growing prefix.
pub proof fn lemma_filter_take_step(s: Seq<TaskView>, i: int, pred: spec_fn(TaskView) -> bool)
    requires
        0 <= i < s.len(),
    ensures
        s.take(i + 1).filter(pred) == if pred(s[i]) {
            s.take(i).filter(pred).push(s[i])
        } else {
            s.take(i).filter(pred)
        },
{
    reveal_with_fuel(Seq::<_>::filter, 2);
    let sing = seq![s[i]];
    assert(s.take(i + 1) =~= s.take(i) + sing);
    Seq::filter_distributes_over_add(s.take(i), sing, pred);
    assert(sing.drop_last() =~= Seq::<TaskView>::empty());
    assert(sing.filter(pred) == if pred(s[i]) {
        Seq::<TaskView>::empty().push(s[i])
    } else {
        Seq::<TaskView>::empty()
    });
    if pred(s[i]) {
        assert(s.take(i).filter(pred) + sing.filter(pred) =~= s.take(i).filter(pred).push(s[i]));
    } else {
        assert(s.take(i).filter(pred) + sing.filter(pred) =~= s.take(i).filter(pred));
    }
}

impl App {
    /// The tasks of the open list, in collection order; empty when no list
    /// is open.
    pub fn get_current_list_tasks(&self) -> (r: Vec<Task>)
        ensures
            r.deep_view() == match self@.current_list_id {
                Some(list_id) => spec_tasks_for_list(self@.tasks, list_id),
                None => Seq::<TaskView>::empty(),
            },
    {
        match self.current_list_id {
            Some(list_id) => filter_tasks_for_list(&self.tasks, list_id),
            None => {
                let r: Vec<Task> = Vec::new();
                proof {
                    assert(r.deep_view() =~= Seq::<TaskView>::empty());
                }
                r
            },
        }
    }

    /// Rows needed to show `tasks`; see `spec_displayable_count`.
    pub fn get_displayable_task_count(&self, tasks: &Vec<Task>) -> (r: usize)
        requires
            tasks@.len() + 1 <= usize::MAX,
        ensures
            r as int == spec_displayable_count(tasks.deep_view()),
    {
        let s = Ghost(tasks.deep_view());
        let n = tasks.len();
        let mut na: usize = 0;
        let mut nc: usize = 0;
        let mut i: usize = 0;
        while i < n
            invariant
                i <= n,
                n == tasks@.len(),
                s@ == tasks.deep_view(),
                na as int == spec_actives(s@.take(i as int)).len(),
                nc as int == spec_completeds(s@.take(i as int)).len(),
                na + nc == i,
            decreases n - i,
        {
            proof {
                lemma_filter_take_step(s@, i as int, |t: TaskView| !t.is_completed);
                lemma_filter_take_step(s@, i as int, |t: TaskView| t.is_completed);
                assert(s@[i as int] == tasks@[i as int]@);
            }
            if tasks[i].is_completed {
                nc = nc + 1;
            } else {
                na = na + 1;
            }
            i = i + 1;
        }
        proof {
            assert(s@.take(n as int) =~= s@);
        }
        if na > 0 && nc > 0 {
            na + 1 + nc
        } else {
            na + nc
        }
    }

    /// The task on display row `display_index`, or `None` on the separator
    /// row and past the end; see `spec_task_at_display_index`.
    pub fn get_task_at_display_index(&self, tasks: &Vec<Task>, display_index: usize) -> (r: Option<
        Task,
    >)
        ensures
            match r {
                Some(t) => spec_task_at_display_index(tasks.deep_view(), display_index as int)
                    == Some(t@),
                None => spec_task_at_display_index(tasks.deep_view(), display_index as int)
                    is None,
            },
    {
        let actives = filter_actives(tasks);
        let completeds = filter_completeds(tasks);
        let na = actives.len();
        let nc = completeds.len();
        if display_index < na {
            let t = actives[display_index].clone();
            proof {
                assert(t@ == actives.deep_view()[display_index as int]);
            }
            Some(t)
        } else if na > 0 && nc > 0 && display_index == na {
            None
        } else {
            let ci = if na > 0 && nc > 0 {
                display_index - na - 1
            } else {
                display_index - na
            };
            if ci < nc {
                let t = completeds[ci].clone();
                proof {
                    assert(t@ == completeds.deep_view()[ci as int]);
                }
                Some(t)
            } else {
                None
            }
        }
    }

    /// The open list, when one is open and still exists.
    pub fn get_current_list(&self) -> (r: Option<&List>)
        ensures
            match r {
                Some(l) => {
                    &&& self@.current_list_id matches Some(id)
                    &&& spec_find_list(self@.lists, id) >= 0
                    &&& l@ == self@.lists[spec_find_list(
                        self@.lists,
                        id,
                    )]
                },
                None => match self@.current_list_id {
                    Some(id) => spec_find_list(self@.lists, id) == -1,
                    None => true,
                },
            },
    {
        match self.current_list_id {
            Some(list_id) => {
                proof {
                    lemma_find_list(self.lists.deep_view(), list_id);
                }
                let idx = find_list_index(&self.lists, list_id);
                match idx {
                    Some(i) => {
                        proof {
                            assert(self.lists.deep_view()[i as int] == self.lists@[i as int]@);
                        }
                        Some(&self.lists[i])
                    },
                    None => None,
                }
            },
            None => None,
        }
    }
}

/// The index of the first task with `id`, or -1 when there is none.
pub open spec fn spec_find_task(s: Seq<TaskView>, id: u32) -> int
    decreases s.len(),
{
    if s.len() == 0 {
        -1
    } else if s.first().id == id {
        0
    } else {
        let r = spec_find_task(s.drop_first(), id);
        if r == -1 {
            -1
        } else {
            r + 1
        }
    }
}

/// The index of the first list with `id`, or -1 when there is none.
pub open spec fn spec_find_list(s: Seq<ListView>, id: u32) -> int
    decreases s.len(),
{
    if s.len() == 0 {
        -1
    } else if s.first().id == id {
        0
    } else {
        let r = spec_find_list(s.drop_first(), id);
        if r == -1 {
            -1
        } else {
            r + 1
        }
    }
}

/// What `spec_find_task` returns: -1 exactly when no task has the id, and
/// otherwise the first index that does.
pub proof fn lemma_find_task(s: Seq<TaskView>, id: u32)
    ensures
        spec_find_task(s, id) == -1 ==> forall|j: int|
            0 <= j < s.len() ==> (#[trigger] s[j]).id != id,
        spec_find_task(s, id) != -1 ==> {
            &&& 0 <= spec_find_task(s, id) < s.len()
            &&& s[spec_find_task(s, id)].id == id
            &&& forall|j: int| 0 <= j < spec_find_task(s, id) ==> (#[trigger] s[j]).id != id
        },
    decreases s.len(),
{
    if s.len() > 0 && s.first().id != id {
        lemma_find_task(s.drop_first(), id);
        assert forall|j: int| 1 <= j < s.len() implies s.drop_first()[j - 1] == s[j] by {}
    }
}

pub proof fn lemma_find_list(s: Seq<ListView>, id: u32)
    ensures
        spec_find_list(s, id) == -1 ==> forall|j: int|
            0 <= j < s.len() ==> (#[trigger] s[j]).id != id,
        spec_find_list(s, id) != -1 ==> {
            &&& 0 <= spec_find_list(s, id) < s.len()
            &&& s[spec_find_list(s, id)].id == id
            &&& forall|j: int| 0 <= j < spec_find_list(s, id) ==> (#[trigger] s[j]).id != id
        },
    decreases s.len(),
{
    if s.len() > 0 && s.first().id != id {
        lemma_find_list(s.drop_first(), id);
        assert forall|j: int| 1 <= j < s.len() implies s.drop_first()[j - 1] == s[j] by {}
    }
}

/// Finds the first task with `id`.
pub fn find_task_index(tasks: &Vec<Task>, id: u32) -> (r: Option<usize>)
    ensures
        match r {
            Some(i) => i as int == spec_find_task(tasks.deep_view(), id),
            None => spec_find_task(tasks.deep_view(), id) == -1,
        },
{
    proof {
        lemma_find_task(tasks.deep_view(), id);
    }
    let n = tasks.len();
    let mut i: usize = 0;
    while i < n
        invariant
            i <= n,
            n == tasks@.len(),
            forall|j: int| 0 <= j < i ==> (#[trigger] tasks.deep_view()[j]).id != id,
            spec_find_task(tasks.deep_view(), id) == -1 || spec_find_task(tasks.deep_view(), id)
                >= i,
        decreases n - i,
    {
        proof {
            lemma_find_task(tasks.deep_view(), id);
            assert(tasks.deep_view()[i as int] == tasks@[i as int]@);
        }
        if tasks[i].id == id {
            return Some(i);
        }
        i = i + 1;
    }
    None
}

/// Finds the first list with `id`.
pub fn find_list_index(lists: &Vec<List>, id: u32) -> (r: Option<usize>)
    ensures
        match r {
            Some(i) => i as int == spec_find_list(lists.deep_view(), id),
            None => spec_find_list(lists.deep_view(), id) == -1,
        },
{
    proof {
        lemma_find_list(lists.deep_view(), id);
    }
    let n = lists.len();
    let mut i: usize = 0;
    while i < n
        invariant
            i <= n,
            n == lists@.len(),
            forall|j: int| 0 <= j < i ==> (#[trigger] lists.deep_view()[j]).id != id,
            spec_find_list(lists.deep_view(), id) == -1 || spec_find_list(lists.deep_view(), id)
                >= i,
        decreases n - i,
    {
        proof {
            lemma_find_list(lists.deep_view(), id);
            assert(lists.deep_view()[i as int] == lists@[i as int]@);
        }
        if lists[i].id == id {
            return Some(i);
        }
        i = i + 1;
    }
    None
}

/// Clones the tasks of one list, in collection order.
pub fn filter_tasks_for_list(tasks: &Vec<Task>, list_id: u32) -> (r: Vec<Task>)
    ensures
        r.deep_view() == spec_tasks_for_list(tasks.deep_view(), list_id),
{
    let s = Ghost(tasks.deep_view());
    let n = tasks.len();
    let mut r: Vec<Task> = Vec::new();
    proof {
        assert(r.deep_view() =~= s@.take(0).filter(|t: TaskView| t.list_id == list_id));
    }
    let mut i: usize = 0;
    while i < n
        invariant
            i <= n,
            n == tasks@.len(),
            s@ == tasks.deep_view(),
            r.deep_view() == s@.take(i as int).filter(|t: TaskView| t.list_id == list_id),
        decreases n - i,
    {
        proof {
            lemma_filter_take_step(s@, i as int, |t: TaskView| t.list_id == list_id);
            assert(s@[i as int] == tasks@[i as int]@);
        }
        if tasks[i].list_id == list_id {
            let ghost prev = r.deep_view();
            let t = tasks[i].clone();
            r.push(t);
            proof {
                assert(r.deep_view() =~= prev.push(tasks@[i as int]@));
            }
        }
        i = i + 1;
    }
    proof {
        assert(s@.take(n as int) =~= s@);
    }
    r
}

/// Clones the incomplete tasks, in collection order.
pub fn filter_actives(tasks: &Vec<Task>) -> (r: Vec<Task>)
    ensures
        r.deep_view() == spec_actives(tasks.deep_view()),
{
    let s = Ghost(tasks.deep_view());
    let n = tasks.len();
    let mut r: Vec<Task> = Vec::new();
    proof {
        assert(r.deep_view() =~= s@.take(0).filter(|t: TaskView| !t.is_completed));
    }
    let mut i: usize = 0;
    while i < n
        invariant
            i <= n,
            n == tasks@.len(),
            s@ == tasks.deep_view(),
            r.deep_view() == s@.take(i as int).filter(|t: TaskView| !t.is_completed),
        decreases n - i,
    {
        proof {
            lemma_filter_take_step(s@, i as int, |t: TaskView| !t.is_completed);
            assert(s@[i as int] == tasks@[i as int]@);
        }
        if !tasks[i].is_completed {
            let ghost prev = r.deep_view();
            let t = tasks[i].clone();
            r.push(t);
            proof {
                assert(r.deep_view() =~= prev.push(tasks@[i as int]@));
            }
        }
        i = i + 1;
    }
    proof {
        assert(s@.take(n as int) =~= s@);
    }
    r
}

/// Clones the completed tasks, in collection order.
pub fn filter_completeds(tasks: &Vec<Task>) -> (r: Vec<Task>)
    ensures
        r.deep_view() == spec_completeds(tasks.deep_view()),
{
    let s = Ghost(tasks.deep_view());
    let n = tasks.len();
    let mut r: Vec<Task> = Vec::new();
    proof {
        assert(r.deep_view() =~= s@.take(0).filter(|t: TaskView| t.is_completed));
    }
    let mut i: usize = 0;
    while i < n
        invariant
            i <= n,
            n == tasks@.len(),
            s@ == tasks.deep_view(),
            r.deep_view() == s@.take(i as int).filter(|t: TaskView| t.is_completed),
        decreases n - i,
    {
        proof {
            lemma_filter_take_step(s@, i as int, |t: TaskView| t.is_completed);
            assert(s@[i as int] == tasks@[i as int]@);
        }
        if tasks[i].is_completed {
            let ghost prev = r.deep_view();
            let t = tasks[i].clone();
            r.push(t);
            proof {
                assert(r.deep_view() =~= prev.push(tasks@[i as int]@));
            }
        }
        i = i + 1;
    }
    proof {
        assert(s@.take(n as int) =~= s@);
    }
    r
}


/// Keeps the first occurrence of each id, in first-seen order.
pub open spec fn spec_dedup(s: Seq<u32>) -> Seq<u32>
    decreases s.len(),
{
    if s.len() == 0 {
        Seq::empty()
    } else {
        let rest = spec_dedup(s.drop_last());
        if s.drop_last().contains(s.last()) {
            rest
        } else {
            rest.push(s.last())
        }
    }
}

/// Deduplication keeps exactly the ids that were there, holds no
/// duplicates, and leaves an already duplicate-free order unchanged.
pub proof fn lemma_dedup(s: Seq<u32>)
    ensures
        no_dup_ids(spec_dedup(s)),
        forall|x: u32| spec_dedup(s).contains(x) <==> s.contains(x),
        no_dup_ids(s) ==> spec_dedup(s) == s,
    decreases s.len(),
{
    if s.len() > 0 {
        let dl = s.drop_last();
        lemma_dedup(dl);
        let rest = spec_dedup(dl);
        let last = s.last();
        assert forall|x: u32| s.contains(x) implies spec_dedup(s).contains(x) by {
            let k = choose|k: int| 0 <= k < s.len() && s[k] == x;
            if k < s.len() - 1 {
                assert(dl[k] == x);
                assert(dl.contains(x));
                assert(rest.contains(x));
                let m = choose|m: int| 0 <= m < rest.len() && rest[m] == x;
                assert(spec_dedup(s)[m] == x);
            } else {
                if dl.contains(last) {
                    assert(rest.contains(x));
                    let m = choose|m: int| 0 <= m < rest.len() && rest[m] == x;
                    assert(spec_dedup(s)[m] == x);
                } else {
                    assert(spec_dedup(s)[rest.len() as int] == x);
                }
            }
        }
        assert forall|x: u32| spec_dedup(s).contains(x) implies s.contains(x) by {
            let m = choose|m: int| 0 <= m < spec_dedup(s).len() && spec_dedup(s)[m] == x;
            if !dl.contains(last) && m == rest.len() {
                assert(s[s.len() - 1] == x);
            } else {
                assert(rest[m] == x);
                assert(rest.contains(x));
                assert(dl.contains(x));
                let k = choose|k: int| 0 <= k < dl.len() && dl[k] == x;
                assert(s[k] == x);
            }
        }
        if !dl.contains(last) {
            assert forall|i: int, j: int|
                0 <= i < j < spec_dedup(s).len() implies #[trigger] spec_dedup(s)[i]
                != #[trigger] spec_dedup(s)[j] by {
                if j < rest.len() {
                } else {
                    assert(spec_dedup(s)[i] == rest[i]);
                    assert(rest.contains(rest[i]));
                    assert(dl.contains(rest[i]));
                    assert(spec_dedup(s)[j] == last);
                }
            }
        }
        if no_dup_ids(s) {
            assert(!dl.contains(last)) by {
                if dl.contains(last) {
                    let k = choose|k: int| 0 <= k < dl.len() && dl[k] == last;
                    assert(s[k] == s[s.len() - 1]);
                }
            }
            assert(no_dup_ids(dl)) by {
                assert forall|i: int, j: int| 0 <= i < j < dl.len() implies #[trigger] dl[i]
                    != #[trigger] dl[j] by {
                    assert(s[i] == dl[i] && s[j] == dl[j]);
                }
            }
            assert(spec_dedup(s) =~= s);
        }
    }
}

/// The index of the first occurrence of `x`, or -1 when absent.
pub open spec fn spec_find_u32(s: Seq<u32>, x: u32) -> int
    decreases s.len(),
{
    if s.len() == 0 {
        -1
    } else if s.first() == x {
        0
    } else {
        let r = spec_find_u32(s.drop_first(), x);
        if r == -1 {
            -1
        } else {
            r + 1
        }
    }
}

pub proof fn lemma_find_u32(s: Seq<u32>, x: u32)
    ensures
        spec_find_u32(s, x) == -1 ==> forall|j: int| 0 <= j < s.len() ==> #[trigger] s[j] != x,
        spec_find_u32(s, x) != -1 ==> {
            &&& 0 <= spec_find_u32(s, x) < s.len()
            &&& s[spec_find_u32(s, x)] == x
            &&& forall|j: int| 0 <= j < spec_find_u32(s, x) ==> #[trigger] s[j] != x
        },
        (spec_find_u32(s, x) != -1) == s.contains(x),
    decreases s.len(),
{
    if s.len() > 0 && s.first() != x {
        lemma_find_u32(s.drop_first(), x);
        assert forall|j: int| 1 <= j < s.len() implies s.drop_first()[j - 1] == s[j] by {}
        if spec_find_u32(s.drop_first(), x) != -1 {
            assert(s.contains(x)) by {
                let r = spec_find_u32(s.drop_first(), x);
                assert(s[r + 1] == x);
            }
        } else {
            if s.contains(x) {
                let k = choose|k: int| 0 <= k < s.len() && s[k] == x;
                assert(s.drop_first()[k - 1] == x);
                assert(s.drop_first().contains(x));
            }
        }
    } else if s.len() > 0 {
        assert(s.contains(x)) by {
            assert(s[0] == x);
        }
    }
}

/// Finds the first occurrence of `x`.
pub fn find_u32(v: &Vec<u32>, x: u32) -> (r: Option<usize>)
    ensures
        match r {
            Some(i) => i as int == spec_find_u32(v@, x),
            None => spec_find_u32(v@, x) == -1,
        },
{
    proof {
        lemma_find_u32(v@, x);
    }
    let n = v.len();
    let mut i: usize = 0;
    while i < n
        invariant
            i <= n,
            n == v@.len(),
            forall|j: int| 0 <= j < i ==> #[trigger] v@[j] != x,
            spec_find_u32(v@, x) == -1 || spec_find_u32(v@, x) >= i,
        decreases n - i,
    {
        proof {
            lemma_find_u32(v@, x);
        }
        if v[i] == x {
            return Some(i);
        }
        i = i + 1;
    }
    None
}

/// Whether `x` occurs in `v`.
pub fn contains_u32(v: &Vec<u32>, x: u32) -> (r: bool)
    ensures
        r == v@.contains(x),
{
    proof {
        lemma_find_u32(v@, x);
    }
    let f = find_u32(v, x);
    f.is_some()
}

/// Every element of a filtered sequence is an element of the sequence it
/// was filtered from.
pub proof fn lemma_filter_subset<A>(s: Seq<A>, pred: spec_fn(A) -> bool)
    ensures
        forall|i: int|
            0 <= i < s.filter(pred).len() ==> s.contains(#[trigger] s.filter(pred)[i]),
    decreases s.len(),
{
    reveal_with_fuel(Seq::filter, 2);
    if s.len() > 0 {
        let dl = s.drop_last();
        lemma_filter_subset(dl, pred);
        assert forall|i: int|
            0 <= i < s.filter(pred).len() implies s.contains(#[trigger] s.filter(pred)[i]) by {
            if i < dl.filter(pred).len() {
                assert(dl.contains(dl.filter(pred)[i]));
                let k = choose|k: int| 0 <= k < dl.len() && dl[k] == dl.filter(pred)[i];
                assert(s[k] == s.filter(pred)[i]);
            } else {
                assert(s[s.len() - 1] == s.filter(pred)[i]);
            }
        }
    }
}

/// A filter where every element satisfies the predicate changes nothing.
pub proof fn lemma_filter_all<A>(s: Seq<A>, pred: spec_fn(A) -> bool)
    requires
        forall|i: int| 0 <= i < s.len() ==> pred(#[trigger] s[i]),
    ensures
        s.filter(pred) == s,
    decreases s.len(),
{
    reveal_with_fuel(Seq::filter, 2);
    if s.len() > 0 {
        lemma_filter_all(s.drop_last(), pred);
        assert(s.filter(pred) =~= s);
    }
}

/// Filtering preserves well-formedness, id uniqueness and the id bound.
pub proof fn lemma_filter_task_props(s: Seq<TaskView>, pred: spec_fn(TaskView) -> bool, bound: u32)
    requires
        tasks_wf(s),
        task_ids_unique(s),
        task_ids_below(s, bound),
    ensures
        tasks_wf(s.filter(pred)),
        task_ids_unique(s.filter(pred)),
        task_ids_below(s.filter(pred), bound),
    decreases s.len(),
{
    reveal_with_fuel(Seq::<_>::filter, 2);
    lemma_filter_subset(s, pred);
    assert forall|i: int|
        0 <= i < s.filter(pred).len() implies task_wf(#[trigger] s.filter(pred)[i]) && s.filter(
        pred,
    )[i].id < bound by {
        let k = choose|k: int| 0 <= k < s.len() && s[k] == s.filter(pred)[i];
        assert(task_wf(s[k]));
    }
    if s.len() > 0 {
        let dl = s.drop_last();
        assert(tasks_wf(dl) && task_ids_unique(dl) && task_ids_below(dl, bound)) by {
            assert forall|i: int| 0 <= i < dl.len() implies task_wf(#[trigger] dl[i]) && dl[i].id
                < bound by {
                assert(dl[i] == s[i]);
            }
            assert forall|i: int, j: int|
                0 <= i < j < dl.len() implies (#[trigger] dl[i]).id != (#[trigger] dl[j]).id by {
                assert(dl[i] == s[i] && dl[j] == s[j]);
            }
        }
        lemma_filter_task_props(dl, pred, bound);
        lemma_filter_subset(dl, pred);
        if pred(s.last()) {
            assert forall|i: int, j: int|
                0 <= i < j < s.filter(pred).len() implies (#[trigger] s.filter(pred)[i]).id
                != (#[trigger] s.filter(pred)[j]).id by {
                if j < dl.filter(pred).len() {
                    assert(dl.filter(pred)[i] == s.filter(pred)[i]);
                    assert(dl.filter(pred)[j] == s.filter(pred)[j]);
                } else {
                    assert(s.filter(pred)[j] == s.last());
                    assert(dl.filter(pred)[i] == s.filter(pred)[i]);
                    assert(dl.contains(dl.filter(pred)[i]));
                    let k = choose|k: int| 0 <= k < dl.len() && dl[k] == s.filter(pred)[i];
                    assert(s[k] == s.filter(pred)[i]);
                    assert(s[k].id != s[s.len() - 1].id);
                }
            }
        } else {
            assert forall|i: int, j: int|
                0 <= i < j < s.filter(pred).len() implies (#[trigger] s.filter(pred)[i]).id
                != (#[trigger] s.filter(pred)[j]).id by {
                assert(dl.filter(pred)[i] == s.filter(pred)[i]);
                assert(dl.filter(pred)[j] == s.filter(pred)[j]);
            }
        }
    }
}

/// Filtering a duplicate-free id order keeps it duplicate-free.
pub proof fn lemma_filter_no_dup(s: Seq<u32>, pred: spec_fn(u32) -> bool)
    requires
        no_dup_ids(s),
    ensures
        no_dup_ids(s.filter(pred)),
    decreases s.len(),
{
    reveal_with_fuel(Seq::<_>::filter, 2);
    if s.len() > 0 {
        let dl = s.drop_last();
        assert(no_dup_ids(dl)) by {
            assert forall|i: int, j: int| 0 <= i < j < dl.len() implies #[trigger] dl[i]
                != #[trigger] dl[j] by {
                assert(s[i] == dl[i] && s[j] == dl[j]);
            }
        }
        lemma_filter_no_dup(dl, pred);
        lemma_filter_subset(dl, pred);
        if pred(s.last()) {
            assert forall|i: int, j: int|
                0 <= i < j < s.filter(pred).len() implies #[trigger] s.filter(pred)[i]
                != #[trigger] s.filter(pred)[j] by {
                if j < dl.filter(pred).len() {
                    assert(dl.filter(pred)[i] == s.filter(pred)[i]);
                    assert(dl.filter(pred)[j] == s.filter(pred)[j]);
                } else {
                    assert(s.filter(pred)[j] == s.last());
                    assert(dl.filter(pred)[i] == s.filter(pred)[i]);
                    assert(dl.contains(dl.filter(pred)[i]));
                    let k = choose|k: int| 0 <= k < dl.len() && dl[k] == s.filter(pred)[i];
                    assert(s[k] == s.filter(pred)[i]);
                    assert(s[k] != s[s.len() - 1]);
                }
            }
        } else {
            assert forall|i: int, j: int|
                0 <= i < j < s.filter(pred).len() implies #[trigger] s.filter(pred)[i]
                != #[trigger] s.filter(pred)[j] by {
                assert(dl.filter(pred)[i] == s.filter(pred)[i]);
                assert(dl.filter(pred)[j] == s.filter(pred)[j]);
            }
        }
    }
}

/// `spec_find_task` names index `k` when `k` is the first index with the id.
pub proof fn lemma_find_task_is(s: Seq<TaskView>, id: u32, k: int)
    requires
        0 <= k < s.len(),
        s[k].id == id,
        forall|j: int| 0 <= j < k ==> (#[trigger] s[j]).id != id,
    ensures
        spec_find_task(s, id) == k,
{
    lemma_find_task(s, id);
    let f = spec_find_task(s, id);
    if f == -1 {
        assert(s[k].id != id);
    } else if f < k {
        assert(s[f].id != id);
    } else if f > k {
        assert(s[k].id != id);
    }
}

/// Removes duplicate ids from the order, keeping first occurrences.
fn dedup_u32(v: &Vec<u32>) -> (r: Vec<u32>)
    ensures
        r@ == spec_dedup(v@),
{
    let n = v.len();
    let mut r: Vec<u32> = Vec::new();
    proof {
        assert(v@.take(0) =~= Seq::<u32>::empty());
        assert(r@ =~= spec_dedup(v@.take(0)));
    }
    let mut i: usize = 0;
    while i < n
        invariant
            i <= n,
            n == v@.len(),
            r@ == spec_dedup(v@.take(i as int)),
            forall|x: u32| r@.contains(x) <==> v@.take(i as int).contains(x),
        decreases n - i,
    {
        proof {
            assert(v@.take(i as int + 1).drop_last() =~= v@.take(i as int));
            assert(v@.take(i as int + 1).last() == v@[i as int]);
        }
        let ghost prev_r = r@;
        let present = contains_u32(&r, v[i]);
        if !present {
            r.push(v[i]);
        }
        proof {
            let prev = v@.take(i as int);
            let cur = v@.take(i as int + 1);
            assert forall|x: u32| r@.contains(x) implies cur.contains(x) by {
                let m = choose|m: int| 0 <= m < r@.len() && r@[m] == x;
                if m < prev_r.len() {
                    assert(prev_r[m] == x);
                    assert(prev_r.contains(x));
                    assert(prev.contains(x));
                    let k = choose|k: int| 0 <= k < prev.len() && prev[k] == x;
                    assert(cur[k] == x);
                } else {
                    assert(x == v@[i as int]);
                    assert(cur[i as int] == x);
                }
            }
            assert forall|x: u32| cur.contains(x) implies r@.contains(x) by {
                let k = choose|k: int| 0 <= k < cur.len() && cur[k] == x;
                if k < i {
                    assert(prev[k] == x);
                    assert(prev.contains(x));
                    assert(prev_r.contains(x));
                    let m = choose|m: int| 0 <= m < prev_r.len() && prev_r[m] == x;
                    assert(r@[m] == x);
                } else {
                    assert(x == v@[i as int]);
                    if present {
                        assert(prev_r.contains(x));
                        let m = choose|m: int| 0 <= m < prev_r.len() && prev_r[m] == x;
                        assert(r@[m] == x);
                    } else {
                        assert(r@[prev_r.len() as int] == x);
                    }
                }
            }
        }
        i = i + 1;
    }
    proof {
        assert(v@.take(n as int) =~= v@);
    }
    r
}

/// The order after a move up: duplicates pruned, then the entry swapped
/// with its upper neighbour unless it is absent or already on top.
pub open spec fn spec_app_move_up(a: AppView, id: u32) -> AppView {
    let o = spec_dedup(a.my_day_task_order);
    let p = spec_find_u32(o, id);
    let o2 = if p >= 1 {
        o.update(p, o[p - 1]).update(p - 1, o[p])
    } else {
        o
    };
    AppView { my_day_task_order: o2, ..a }
}

/// The order after a move down: duplicates pruned, then the entry swapped
/// with its lower neighbour unless it is absent or already at the bottom.
pub open spec fn spec_app_move_down(a: AppView, id: u32) -> AppView {
    let o = spec_dedup(a.my_day_task_order);
    let p = spec_find_u32(o, id);
    let o2 = if 0 <= p < o.len() - 1 {
        o.update(p, o[p + 1]).update(p + 1, o[p])
    } else {
        o
    };
    AppView { my_day_task_order: o2, ..a }
}

/// Swapping two entries of a duplicate-free order keeps it duplicate-free.
pub proof fn lemma_swap_no_dup(o: Seq<u32>, p: int, q: int)
    requires
        no_dup_ids(o),
        0 <= p < o.len(),
        0 <= q < o.len(),
    ensures
        no_dup_ids(o.update(p, o[q]).update(q, o[p])),
{
    let o2 = o.update(p, o[q]).update(q, o[p]);
    assert forall|i: int, j: int| 0 <= i < j < o2.len() implies #[trigger] o2[i]
        != #[trigger] o2[j] by {
        assert(o2[i] == if i == q { o[p] } else if i == p { o[q] } else { o[i] });
        assert(o2[j] == if j == q { o[p] } else if j == p { o[q] } else { o[j] });
    }
}

impl App {
    /// Prunes duplicate ids from the My-Day order, keeping first occurrences.
    fn deduplicate_my_day_order(&mut self)
        ensures
            final(self)@ == (AppView {
                my_day_task_order: spec_dedup(old(self)@.my_day_task_order),
                ..old(self)@
            }),
            no_dup_ids(final(self)@.my_day_task_order),
    {
        proof {
            lemma_dedup(self.my_day_task_order@);
        }
        let o2 = dedup_u32(&self.my_day_task_order);
        self.my_day_task_order = o2;
        proof {
            assert(final(self)@ =~= AppView {
                my_day_task_order: spec_dedup(old(self)@.my_day_task_order),
                ..old(self)@
            });
        }
    }

    /// Moves the task one step up in the My-Day order, after pruning
    /// duplicates; a no-op when the id is absent or already on top. The
    /// order is duplicate-free afterwards, whatever it held before.
    pub fn move_task_up_in_my_day(&mut self, task_id: u32) -> (saved: bool)
        requires
            app_wf(old(self)@),
        ensures
            final(self)@ == spec_app_move_up(old(self)@, task_id),
            no_dup_ids(final(self)@.my_day_task_order),
            app_wf(final(self)@),
            !saved,
    {
        proof {
            lemma_dedup(old(self)@.my_day_task_order);
        }
        self.deduplicate_my_day_order();
        proof {
            lemma_find_u32(self.my_day_task_order@, task_id);
        }
        let pos = find_u32(&self.my_day_task_order, task_id);
        if let Some(p) = pos {
            if p > 0 {
                let a = self.my_day_task_order[p];
                let b = self.my_day_task_order[p - 1];
                self.my_day_task_order[p] = b;
                self.my_day_task_order[p - 1] = a;
                proof {
                    lemma_swap_no_dup(spec_dedup(old(self)@.my_day_task_order), p as int, p as int - 1);
                    assert(final(self)@ =~= spec_app_move_up(old(self)@, task_id));
                }
            } else {
                proof {
                    assert(final(self)@ =~= spec_app_move_up(old(self)@, task_id));
                }
            }
        } else {
            proof {
                assert(final(self)@ =~= spec_app_move_up(old(self)@, task_id));
            }
        }
        false
    }

    /// Moves the task one step down in the My-Day order, after pruning
    /// duplicates; a no-op when the id is absent or already at the bottom.
    /// The order is duplicate-free afterwards, whatever it held before.
    pub fn move_task_down_in_my_day(&mut self, task_id: u32) -> (saved: bool)
        requires
            app_wf(old(self)@),
        ensures
            final(self)@ == spec_app_move_down(old(self)@, task_id),
            no_dup_ids(final(self)@.my_day_task_order),
            app_wf(final(self)@),
            !saved,
    {
        proof {
            lemma_dedup(old(self)@.my_day_task_order);
        }
        self.deduplicate_my_day_order();
        proof {
            lemma_find_u32(self.my_day_task_order@, task_id);
        }
        let pos = find_u32(&self.my_day_task_order, task_id);
        if let Some(p) = pos {
            let n = self.my_day_task_order.len();
            proof {
                lemma_find_u32(self.my_day_task_order@, task_id);
            }
            if p + 1 < n {
                let a = self.my_day_task_order[p];
                let b = self.my_day_task_order[p + 1];
                self.my_day_task_order[p] = b;
                self.my_day_task_order[p + 1] = a;
                proof {
                    lemma_swap_no_dup(spec_dedup(old(self)@.my_day_task_order), p as int, p as int + 1);
                    assert(final(self)@ =~= spec_app_move_down(old(self)@, task_id));
                }
            } else {
                proof {
                    assert(final(self)@ =~= spec_app_move_down(old(self)@, task_id));
                }
            }
        } else {
            proof {
                assert(final(self)@ =~= spec_app_move_down(old(self)@, task_id));
            }
        }
        false
    }
}



/// Appending a fresh task with the next id keeps the collection invariants.
pub proof fn lemma_push_task_props(s: Seq<TaskView>, t: TaskView, bound: u32, newbound: u32)
    requires
        tasks_wf(s),
        task_ids_unique(s),
        task_ids_below(s, bound),
        task_wf(t),
        bound <= t.id < newbound,
    ensures
        tasks_wf(s.push(t)),
        task_ids_unique(s.push(t)),
        task_ids_below(s.push(t), newbound),
{
    let s2 = s.push(t);
    assert forall|i: int| 0 <= i < s2.len() implies task_wf(#[trigger] s2[i]) && s2[i].id
        < newbound by {
        if i < s.len() {
            assert(s2[i] == s[i]);
        }
    }
    assert forall|i: int, j: int|
        0 <= i < j < s2.len() implies (#[trigger] s2[i]).id != (#[trigger] s2[j]).id by {
        if j < s.len() {
            assert(s2[i] == s[i] && s2[j] == s[j]);
        } else {
            assert(s2[i] == s[i] && s2[j] == t);
        }
    }
}

/// The state after `add_task`: the task gets the next id and is appended.
pub open spec fn spec_app_add_task(a: AppView, t: TaskView) -> AppView {
    AppView {
        tasks: a.tasks.push(TaskView { id: a.next_task_id, ..t }),
        next_task_id: (a.next_task_id + 1) as u32,
        ..a
    }
}

/// The state after `update_task`, and whether anything was saved: the task
/// with the matching id is replaced in place; absent id means no change.
pub open spec fn spec_app_update_task(a: AppView, t: TaskView) -> (AppView, bool) {
    let i = spec_find_task(a.tasks, t.id);
    if i == -1 {
        (a, false)
    } else {
        (AppView { tasks: a.tasks.update(i, t), ..a }, true)
    }
}

/// The order with every entry equal to `id` removed.
pub open spec fn spec_order_without(o: Seq<u32>, id: u32) -> Seq<u32>
    decreases o.len(),
{
    if o.len() == 0 {
        Seq::empty()
    } else {
        let rest = spec_order_without(o.drop_last(), id);
        if o.last() == id {
            rest
        } else {
            rest.push(o.last())
        }
    }
}

/// Removing an id keeps the order duplicate-free, never leaves the id
/// behind, and is the identity when the id was absent.
pub proof fn lemma_order_without(o: Seq<u32>, id: u32)
    ensures
        !spec_order_without(o, id).contains(id),
        no_dup_ids(o) ==> no_dup_ids(spec_order_without(o, id)),
        !o.contains(id) ==> spec_order_without(o, id) == o,
        forall|x: u32| spec_order_without(o, id).contains(x) ==> o.contains(x),
    decreases o.len(),
{
    if o.len() > 0 {
        let dl = o.drop_last();
        lemma_order_without(dl, id);
        let rest = spec_order_without(dl, id);
        let out = spec_order_without(o, id);
        assert forall|x: u32| out.contains(x) implies o.contains(x) by {
            let m = choose|m: int| 0 <= m < out.len() && out[m] == x;
            if m < rest.len() {
                assert(rest[m] == x);
                assert(rest.contains(x));
                assert(dl.contains(x));
                let k = choose|k: int| 0 <= k < dl.len() && dl[k] == x;
                assert(o[k] == x);
            } else {
                assert(o[o.len() - 1] == x);
            }
        }
        assert(!out.contains(id)) by {
            if out.contains(id) {
                let m = choose|m: int| 0 <= m < out.len() && out[m] == id;
                if m < rest.len() {
                    assert(rest[m] == id);
                    assert(rest.contains(id));
                }
            }
        }
        if no_dup_ids(o) {
            assert(no_dup_ids(dl)) by {
                assert forall|i: int, j: int| 0 <= i < j < dl.len() implies #[trigger] dl[i]
                    != #[trigger] dl[j] by {
                    assert(o[i] == dl[i] && o[j] == dl[j]);
                }
            }
            if o.last() != id {
                assert forall|i: int, j: int| 0 <= i < j < out.len() implies #[trigger] out[i]
                    != #[trigger] out[j] by {
                    if j < rest.len() {
                    } else {
                        assert(out[i] == rest[i]);
                        assert(rest.contains(rest[i]));
                        assert(dl.contains(rest[i]));
                        let k = choose|k: int| 0 <= k < dl.len() && dl[k] == rest[i];
                        assert(o[k] == rest[i]);
                        assert(o[k] != o[o.len() - 1]);
                        assert(out[j] == o.last());
                    }
                }
            }
        }
        if !o.contains(id) {
            assert(!dl.contains(id)) by {
                if dl.contains(id) {
                    let k = choose|k: int| 0 <= k < dl.len() && dl[k] == id;
                    assert(o[k] == id);
                }
            }
            assert(o.last() != id) by {
                assert(o[o.len() - 1] == o.last());
            }
            assert(out =~= o);
        }
    }
}

/// The state after `delete_task`: the task and its order entries are gone.
pub open spec fn spec_app_delete_task(a: AppView, id: u32) -> AppView {
    AppView {
        tasks: a.tasks.filter(|t: TaskView| t.id != id),
        my_day_task_order: spec_order_without(a.my_day_task_order, id),
        ..a
    }
}

/// The state after `move_task_to_list`, and whether anything was saved.
pub open spec fn spec_app_move_task_to_list(a: AppView, id: u32, new_list_id: u32, now: Timestamp) -> (
    AppView,
    bool,
) {
    let i = spec_find_task(a.tasks, id);
    if i == -1 {
        (a, false)
    } else {
        (
            AppView {
                tasks: a.tasks.update(
                    i,
                    TaskView { list_id: new_list_id, updated_at: now, ..a.tasks[i] },
                ),
                ..a
            },
            true,
        )
    }
}

/// The state after `add_list`: the list gets the next id and is appended.
pub open spec fn spec_app_add_list(a: AppView, l: ListView) -> AppView {
    AppView {
        lists: a.lists.push(ListView { id: a.next_list_id, ..l }),
        next_list_id: (a.next_list_id + 1) as u32,
        ..a
    }
}

/// The state after `set_current_list`: the list is opened on the task-list
/// screen with the cursor reset.
pub open spec fn spec_app_set_current_list(a: AppView, list_id: u32) -> AppView {
    AppView {
        current_list_id: Some(list_id),
        selected_task_index: 0,
        state: AppState::TaskList,
        ..a
    }
}

/// Clones the tasks whose id differs from `id`, in collection order.
fn filter_tasks_ne_id(tasks: &Vec<Task>, id: u32) -> (r: Vec<Task>)
    ensures
        r.deep_view() == tasks.deep_view().filter(|t: TaskView| t.id != id),
{
    let s = Ghost(tasks.deep_view());
    let n = tasks.len();
    let mut r: Vec<Task> = Vec::new();
    proof {
        assert(r.deep_view() =~= s@.take(0).filter(|t: TaskView| t.id != id));
    }
    let mut i: usize = 0;
    while i < n
        invariant
            i <= n,
            n == tasks@.len(),
            s@ == tasks.deep_view(),
            r.deep_view() == s@.take(i as int).filter(|t: TaskView| t.id != id),
        decreases n - i,
    {
        proof {
            lemma_filter_take_step(s@, i as int, |t: TaskView| t.id != id);
            assert(s@[i as int] == tasks@[i as int]@);
        }
        if tasks[i].id != id {
            let ghost prev = r.deep_view();
            let t = tasks[i].clone();
            r.push(t);
            proof {
                assert(r.deep_view() =~= prev.push(tasks@[i as int]@));
            }
        }
        i = i + 1;
    }
    proof {
        assert(s@.take(n as int) =~= s@);
    }
    r
}

/// Keeps the order entries that differ from `id`.
fn filter_u32_ne(v: &Vec<u32>, id: u32) -> (r: Vec<u32>)
    ensures
        r@ == spec_order_without(v@, id),
{
    let n = v.len();
    let mut r: Vec<u32> = Vec::new();
    proof {
        assert(v@.take(0) =~= Seq::<u32>::empty());
        assert(r@ =~= spec_order_without(v@.take(0), id));
    }
    let mut i: usize = 0;
    while i < n
        invariant
            i <= n,
            n == v@.len(),
            r@ == spec_order_without(v@.take(i as int), id),
        decreases n - i,
    {
        proof {
            assert(v@.take(i as int + 1).drop_last() =~= v@.take(i as int));
            assert(v@.take(i as int + 1).last() == v@[i as int]);
        }
        if v[i] != id {
            r.push(v[i]);
        }
        i = i + 1;
    }
    proof {
        assert(v@.take(n as int) =~= v@);
    }
    r
}

impl App {
    /// Assigns the next task id, appends the task, and asks for a save.
    pub fn add_task(&mut self, task: Task) -> (saved: bool)
        requires
            app_wf(old(self)@),
            task_wf(task@),
            old(self)@.next_task_id < u32::MAX,
        ensures
            final(self)@ == spec_app_add_task(old(self)@, task@),
            app_wf(final(self)@),
            saved,
    {
        let ghost tv0 = task@;
        let mut task = task;
        task.id = self.storage.get_next_task_id();
        proof {
            lemma_push_task_props(
                old(self)@.tasks,
                task@,
                old(self)@.next_task_id,
                (old(self)@.next_task_id + 1) as u32,
            );
        }
        let ghost prev = self.tasks.deep_view();
        self.tasks.push(task);
        proof {
            assert(self.tasks.deep_view() =~= prev.push(
                TaskView { id: old(self)@.next_task_id, ..tv0 },
            ));
            assert(final(self)@ =~= spec_app_add_task(old(self)@, tv0));
        }
        true
    }

    /// Replaces the task with the matching id; a no-op when the id is
    /// unknown. Saves exactly when a replacement happened.
    pub fn update_task(&mut self, updated_task: Task) -> (saved: bool)
        requires
            app_wf(old(self)@),
            task_wf(updated_task@),
        ensures
            final(self)@ == spec_app_update_task(old(self)@, updated_task@).0,
            saved == spec_app_update_task(old(self)@, updated_task@).1,
            app_wf(final(self)@),
    {
        proof {
            lemma_find_task(self.tasks.deep_view(), updated_task.id);
        }
        let idx = find_task_index(&self.tasks, updated_task.id);
        match idx {
            Some(i) => {
                let ghost prev = self.tasks.deep_view();
                let ghost tv = updated_task@;
                self.tasks[i] = updated_task;
                proof {
                    assert(self.tasks.deep_view() =~= prev.update(i as int, tv));
                    assert(final(self)@ =~= spec_app_update_task(old(self)@, tv).0);
                    let s2 = prev.update(i as int, tv);
                    assert forall|k: int| 0 <= k < s2.len() implies task_wf(#[trigger] s2[k])
                        && s2[k].id < old(self)@.next_task_id by {
                        if k != i {
                            assert(s2[k] == prev[k]);
                        } else {
                            assert(prev[i as int].id == tv.id);
                        }
                    }
                    assert forall|k: int, j: int|
                        0 <= k < j < s2.len() implies (#[trigger] s2[k]).id != (#[trigger] s2[j]).id by {
                        assert(prev[k].id != prev[j].id);
                        if k != i {
                            assert(s2[k] == prev[k]);
                        }
                        if j != i {
                            assert(s2[j] == prev[j]);
                        }
                    }
                }
                true
            },
            None => false,
        }
    }

    /// Removes the task and purges its id from the My-Day order, then asks
    /// for a save whether or not the id was present.
    pub fn delete_task(&mut self, task_id: u32) -> (saved: bool)
        requires
            app_wf(old(self)@),
        ensures
            final(self)@ == spec_app_delete_task(old(self)@, task_id),
            app_wf(final(self)@),
            saved,
    {
        let new_tasks = filter_tasks_ne_id(&self.tasks, task_id);
        self.tasks = new_tasks;
        let new_order = filter_u32_ne(&self.my_day_task_order, task_id);
        self.my_day_task_order = new_order;
        proof {
            lemma_filter_task_props(
                old(self)@.tasks,
                |t: TaskView| t.id != task_id,
                old(self)@.next_task_id,
            );
            lemma_order_without(old(self)@.my_day_task_order, task_id);
            assert forall|i: int|
                0 <= i < spec_order_without(old(self)@.my_day_task_order, task_id).len() implies (
            #[trigger] spec_order_without(old(self)@.my_day_task_order, task_id)[i])
                < old(self)@.next_task_id by {
                let o2 = spec_order_without(old(self)@.my_day_task_order, task_id);
                assert(o2.contains(o2[i]));
                assert(old(self)@.my_day_task_order.contains(o2[i]));
                let k = choose|k: int|
                    0 <= k < old(self)@.my_day_task_order.len() && old(
                        self,
                    )@.my_day_task_order[k] == o2[i];
            }
            assert(final(self)@ =~= spec_app_delete_task(old(self)@, task_id));
        }
        true
    }

    /// Reassigns the task to another list and stamps it; a no-op when the
    /// id is unknown. Saves exactly when a change happened.
    pub fn move_task_to_list(&mut self, task_id: u32, new_list_id: u32, now: Timestamp) -> (saved:
        bool)
        requires
            app_wf(old(self)@),
            ts_valid(now),
        ensures
            final(self)@ == spec_app_move_task_to_list(old(self)@, task_id, new_list_id, now).0,
            saved == spec_app_move_task_to_list(old(self)@, task_id, new_list_id, now).1,
            app_wf(final(self)@),
    {
        proof {
            lemma_find_task(self.tasks.deep_view(), task_id);
        }
        let idx = find_task_index(&self.tasks, task_id);
        match idx {
            Some(i) => {
                let ghost prev = self.tasks.deep_view();
                let mut t = self.tasks[i].clone();
                t.list_id = new_list_id;
                t.updated_at = now;
                let ghost tv = t@;
                self.tasks[i] = t;
                proof {
                    assert(tv == (TaskView {
                        list_id: new_list_id,
                        updated_at: now,
                        ..prev[i as int]
                    }));
                    assert(self.tasks.deep_view() =~= prev.update(i as int, tv));
                    assert(final(self)@ =~= spec_app_move_task_to_list(
                        old(self)@,
                        task_id,
                        new_list_id,
                        now,
                    ).0);
                    let s2 = prev.update(i as int, tv);
                    assert forall|k: int| 0 <= k < s2.len() implies task_wf(#[trigger] s2[k])
                        && s2[k].id < old(self)@.next_task_id by {
                        if k != i {
                            assert(s2[k] == prev[k]);
                        }
                    }
                    assert forall|k: int, j: int|
                        0 <= k < j < s2.len() implies (#[trigger] s2[k]).id != (#[trigger] s2[j]).id by {
                        assert(prev[k].id != prev[j].id);
                        if k != i {
                            assert(s2[k] == prev[k]);
                        }
                        if j != i {
                            assert(s2[j] == prev[j]);
                        }
                    }
                }
                true
            },
            None => false,
        }
    }

    /// Assigns the next list id, appends the list, and asks for a save.
    pub fn add_list(&mut self, list: List) -> (saved: bool)
        requires
            app_wf(old(self)@),
            list_wf(list@),
            old(self)@.next_list_id < u32::MAX,
        ensures
            final(self)@ == spec_app_add_list(old(self)@, list@),
            app_wf(final(self)@),
            saved,
    {
        let ghost lv0 = list@;
        let mut list = list;
        list.id = self.storage.get_next_list_id();
        let ghost prev = self.lists.deep_view();
        self.lists.push(list);
        proof {
            let lv = ListView { id: old(self)@.next_list_id, ..lv0 };
            assert(self.lists.deep_view() =~= prev.push(lv));
            assert(final(self)@ =~= spec_app_add_list(old(self)@, lv0));
            let s2 = prev.push(lv);
            assert forall|k: int| 0 <= k < s2.len() implies list_wf(#[trigger] s2[k]) && s2[k].id
                < final(self)@.next_list_id by {
                if k < prev.len() {
                    assert(s2[k] == prev[k]);
                }
            }
            assert forall|k: int, j: int|
                0 <= k < j < s2.len() implies (#[trigger] s2[k]).id != (#[trigger] s2[j]).id by {
                if j < prev.len() {
                    assert(s2[k] == prev[k] && s2[j] == prev[j]);
                } else {
                    assert(s2[k] == prev[k]);
                }
            }
        }
        true
    }

    /// Opens a list: the task-list screen with the cursor on the first row.
    pub fn set_current_list(&mut self, list_id: u32)
        requires
            app_wf(old(self)@),
        ensures
            final(self)@ == spec_app_set_current_list(old(self)@, list_id),
            app_wf(final(self)@),
    {
        self.current_list_id = Some(list_id);
        self.selected_task_index = 0;
        self.state = AppState::TaskList;
        proof {
            assert(final(self)@ =~= spec_app_set_current_list(old(self)@, list_id));
        }
    }
}



/// The successor spawned when a recurring task is completed: a fresh task
/// with the same title, list, frequency and notes, and the advanced due
/// date; the due date of the completed task, or `now` when it had none,
/// is the base.
pub open spec fn spec_app_spawn_recurring(
    a: AppView,
    src: TaskView,
    f: crate::task::RecurringFrequency,
    now: Timestamp,
) -> AppView {
    let base = match src.due_date {
        Some(d) => d,
        None => now,
    };
    let due = spec_next_due_date(base, f);
    let new_id = a.next_task_id;
    let nt = TaskView {
        due_date: Some(due),
        recurring_frequency: Some(f),
        notes: src.notes,
        ..spec_new_task(new_id, src.title, src.list_id, now)
    };
    AppView {
        tasks: a.tasks.push(nt),
        next_task_id: (a.next_task_id + 1) as u32,
        my_day_task_order: if spec_same_date(due, now) && !a.my_day_task_order.contains(new_id) {
            a.my_day_task_order.push(new_id)
        } else {
            a.my_day_task_order
        },
        ..a
    }
}

/// The state after `toggle_task_completion`, and whether anything was
/// saved: the task is toggled in place, and completing a recurring task
/// spawns its successor.
pub open spec fn spec_app_toggle_task(a: AppView, id: u32, now: Timestamp) -> (AppView, bool) {
    let i = spec_find_task(a.tasks, id);
    if i == -1 {
        (a, false)
    } else {
        let t = a.tasks[i];
        let a1 = AppView { tasks: a.tasks.update(i, spec_toggle_completion(t, now)), ..a };
        (
            match t.recurring_frequency {
                Some(f) => if !t.is_completed {
                    spec_app_spawn_recurring(a1, t, f, now)
                } else {
                    a1
                },
                None => a1,
            },
            true,
        )
    }
}

/// The state after `add_task_to_my_day`, and whether anything was saved:
/// the flag is set and the id appended to the order unless already there.
pub open spec fn spec_app_add_to_my_day(a: AppView, id: u32, now: Timestamp) -> (AppView, bool) {
    let i = spec_find_task(a.tasks, id);
    if i == -1 {
        (a, false)
    } else {
        (
            AppView {
                tasks: a.tasks.update(i, spec_set_in_my_day(a.tasks[i], true, now)),
                my_day_task_order: if a.my_day_task_order.contains(id) {
                    a.my_day_task_order
                } else {
                    a.my_day_task_order.push(id)
                },
                ..a
            },
            true,
        )
    }
}

/// The state after `remove_task_from_my_day`, and whether anything was
/// saved: the flag is cleared and every occurrence of the id leaves the
/// order.
pub open spec fn spec_app_remove_from_my_day(a: AppView, id: u32, now: Timestamp) -> (
    AppView,
    bool,
) {
    let i = spec_find_task(a.tasks, id);
    if i == -1 {
        (a, false)
    } else {
        (
            AppView {
                tasks: a.tasks.update(i, spec_set_in_my_day(a.tasks[i], false, now)),
                my_day_task_order: spec_order_without(a.my_day_task_order, id),
                ..a
            },
            true,
        )
    }
}

impl App {
    /// Toggles completion of the task; completing a task that carries a
    /// frequency spawns its successor before the save. A no-op when the id
    /// is unknown; saves otherwise.
    pub fn toggle_task_completion(&mut self, task_id: u32, now: Timestamp) -> (saved: bool)
        requires
            app_wf(old(self)@),
            ts_valid(now),
            old(self)@.next_task_id < u32::MAX,
        ensures
            final(self)@ == spec_app_toggle_task(old(self)@, task_id, now).0,
            saved == spec_app_toggle_task(old(self)@, task_id, now).1,
            app_wf(final(self)@),
    {
        proof {
            lemma_find_task(self.tasks.deep_view(), task_id);
        }
        let idx = find_task_index(&self.tasks, task_id);
        let i = match idx {
            Some(i) => i,
            None => {
                return false;
            },
        };
        let src = self.tasks[i].clone();
        let ghost prev = self.tasks.deep_view();
        let ghost told = prev[i as int];
        let mut t = self.tasks[i].clone();
        t.toggle_completion(now);
        self.tasks[i] = t;
        proof {
            assert(self.tasks.deep_view() =~= prev.update(
                i as int,
                spec_toggle_completion(told, now),
            ));
            let s2 = prev.update(i as int, spec_toggle_completion(told, now));
            assert forall|k: int| 0 <= k < s2.len() implies task_wf(#[trigger] s2[k]) && s2[k].id
                < old(self)@.next_task_id by {
                if k != i {
                    assert(s2[k] == prev[k]);
                }
            }
            assert forall|k: int, j: int|
                0 <= k < j < s2.len() implies (#[trigger] s2[k]).id != (#[trigger] s2[j]).id by {
                assert(prev[k].id != prev[j].id);
                if k != i {
                    assert(s2[k] == prev[k]);
                }
                if j != i {
                    assert(s2[j] == prev[j]);
                }
            }
        }
        if !src.is_completed && src.recurring_frequency.is_some() {
            let f = match &src.recurring_frequency {
                Some(f) => *f,
                None => unreached(),
            };
            {
                let new_id = self.storage.get_next_task_id();
                let base = match src.due_date {
                    Some(d) => d,
                    None => now,
                };
                let due = next_due_date(&base, &f);
                let mut nt = Task::new(new_id, crate::task::clone_chars(&src.title), src.list_id, now);
                nt.set_due_date(Some(due), now);
                nt.set_recurring_frequency(Some(f), now);
                nt.set_notes(crate::task::clone_opt_chars(&src.notes), now);
                let ghost ntv = nt@;
                proof {
                    assert(src@ == told);
                    assert(ntv =~= (TaskView {
                        due_date: Some(due),
                        recurring_frequency: Some(f),
                        notes: told.notes,
                        ..spec_new_task(new_id, told.title, told.list_id, now)
                    }));
                }
                let ghost prev2 = self.tasks.deep_view();
                self.tasks.push(nt);
                proof {
                    assert(self.tasks.deep_view() =~= prev2.push(ntv));
                    lemma_push_task_props(
                        prev2,
                        ntv,
                        old(self)@.next_task_id,
                        (old(self)@.next_task_id + 1) as u32,
                    );
                }
                if same_date(&due, &now) {
                    let present = contains_u32(&self.my_day_task_order, new_id);
                    if !present {
                        let ghost o = self.my_day_task_order@;
                        self.my_day_task_order.push(new_id);
                        proof {
                            assert forall|k: int, j: int|
                                0 <= k < j < self.my_day_task_order@.len() implies #[trigger] self.my_day_task_order@[k] != #[trigger] self.my_day_task_order@[j] by {
                                if j < o.len() {
                                    assert(self.my_day_task_order@[k] == o[k]);
                                    assert(self.my_day_task_order@[j] == o[j]);
                                } else {
                                    assert(self.my_day_task_order@[k] == o[k]);
                                    assert(self.my_day_task_order@[j] == new_id);
                                    if o[k] == new_id {
                                        assert(o.contains(new_id));
                                    }
                                }
                            }
                        }
                    }
                }
                proof {
                    let target = spec_app_toggle_task(old(self)@, task_id, now).0;
                    assert(final(self)@.tasks =~= target.tasks);
                    assert(final(self)@.my_day_task_order =~= target.my_day_task_order);
                    assert(final(self)@ =~= target);
                }
                true
            }
        } else {
            proof {
                let target = spec_app_toggle_task(old(self)@, task_id, now).0;
                assert(final(self)@.tasks =~= target.tasks);
                assert(final(self)@ =~= target);
            }
            true
        }
    }

    /// Flags the task for My Day and appends its id to the order unless it
    /// is already there. A no-op when the id is unknown; saves otherwise.
    pub fn add_task_to_my_day(&mut self, task_id: u32, now: Timestamp) -> (saved: bool)
        requires
            app_wf(old(self)@),
            ts_valid(now),
        ensures
            final(self)@ == spec_app_add_to_my_day(old(self)@, task_id, now).0,
            saved == spec_app_add_to_my_day(old(self)@, task_id, now).1,
            app_wf(final(self)@),
    {
        proof {
            lemma_find_task(self.tasks.deep_view(), task_id);
        }
        let idx = find_task_index(&self.tasks, task_id);
        let i = match idx {
            Some(i) => i,
            None => {
                return false;
            },
        };
        let ghost prev = self.tasks.deep_view();
        let ghost told = prev[i as int];
        let mut t = self.tasks[i].clone();
        t.add_to_my_day(now);
        self.tasks[i] = t;
        let present = contains_u32(&self.my_day_task_order, task_id);
        if !present {
            let ghost o = self.my_day_task_order@;
            self.my_day_task_order.push(task_id);
            proof {
                assert forall|k: int, j: int|
                    0 <= k < j < self.my_day_task_order@.len() implies #[trigger] self.my_day_task_order@[k] != #[trigger] self.my_day_task_order@[j] by {
                    if j < o.len() {
                        assert(self.my_day_task_order@[k] == o[k]);
                        assert(self.my_day_task_order@[j] == o[j]);
                    } else {
                        assert(self.my_day_task_order@[k] == o[k]);
                        assert(self.my_day_task_order@[j] == task_id);
                        if o[k] == task_id {
                            assert(o.contains(task_id));
                        }
                    }
                }
            }
        }
        proof {
            assert(self.tasks.deep_view() =~= prev.update(
                i as int,
                spec_set_in_my_day(told, true, now),
            ));
            let s2 = prev.update(i as int, spec_set_in_my_day(told, true, now));
            assert forall|k: int| 0 <= k < s2.len() implies task_wf(#[trigger] s2[k]) && s2[k].id
                < old(self)@.next_task_id by {
                if k != i {
                    assert(s2[k] == prev[k]);
                }
            }
            assert forall|k: int, j: int|
                0 <= k < j < s2.len() implies (#[trigger] s2[k]).id != (#[trigger] s2[j]).id by {
                assert(prev[k].id != prev[j].id);
                if k != i {
                    assert(s2[k] == prev[k]);
                }
                if j != i {
                    assert(s2[j] == prev[j]);
                }
            }
            assert(final(self)@ =~= spec_app_add_to_my_day(old(self)@, task_id, now).0);
        }
        true
    }

    /// Clears the task's My-Day flag and removes its id from the order.
    /// A no-op when the id is unknown; saves otherwise.
    pub fn remove_task_from_my_day(&mut self, task_id: u32, now: Timestamp) -> (saved: bool)
        requires
            app_wf(old(self)@),
            ts_valid(now),
        ensures
            final(self)@ == spec_app_remove_from_my_day(old(self)@, task_id, now).0,
            saved == spec_app_remove_from_my_day(old(self)@, task_id, now).1,
            app_wf(final(self)@),
    {
        proof {
            lemma_find_task(self.tasks.deep_view(), task_id);
        }
        let idx = find_task_index(&self.tasks, task_id);
        let i = match idx {
            Some(i) => i,
            None => {
                return false;
            },
        };
        let ghost prev = self.tasks.deep_view();
        let ghost told = prev[i as int];
        let mut t = self.tasks[i].clone();
        t.remove_from_my_day(now);
        self.tasks[i] = t;
        let new_order = filter_u32_ne(&self.my_day_task_order, task_id);
        self.my_day_task_order = new_order;
        proof {
            lemma_order_without(old(self)@.my_day_task_order, task_id);
            assert forall|i: int|
                0 <= i < spec_order_without(old(self)@.my_day_task_order, task_id).len() implies (
            #[trigger] spec_order_without(old(self)@.my_day_task_order, task_id)[i])
                < old(self)@.next_task_id by {
                let o2 = spec_order_without(old(self)@.my_day_task_order, task_id);
                assert(o2.contains(o2[i]));
                assert(old(self)@.my_day_task_order.contains(o2[i]));
                let k = choose|k: int|
                    0 <= k < old(self)@.my_day_task_order.len() && old(
                        self,
                    )@.my_day_task_order[k] == o2[i];
            }
            assert(self.tasks.deep_view() =~= prev.update(
                i as int,
                spec_set_in_my_day(told, false, now),
            ));
            let s2 = prev.update(i as int, spec_set_in_my_day(told, false, now));
            assert forall|k: int| 0 <= k < s2.len() implies task_wf(#[trigger] s2[k]) && s2[k].id
                < old(self)@.next_task_id by {
                if k != i {
                    assert(s2[k] == prev[k]);
                }
            }
            assert forall|k: int, j: int|
                0 <= k < j < s2.len() implies (#[trigger] s2[k]).id != (#[trigger] s2[j]).id by {
                assert(prev[k].id != prev[j].id);
                if k != i {
                    assert(s2[k] == prev[k]);
                }
                if j != i {
                    assert(s2[j] == prev[j]);
                }
            }
            assert(final(self)@ =~= spec_app_remove_from_my_day(old(self)@, task_id, now).0);
        }
        true
    }
}

/// Removing a task from My Day twice, against the same clock, leaves the
/// very state that one removal leaves.
pub proof fn lemma_remove_from_my_day_idempotent(a: AppView, id: u32, now: Timestamp)
    ensures
        spec_app_remove_from_my_day(spec_app_remove_from_my_day(a, id, now).0, id, now).0
            == spec_app_remove_from_my_day(a, id, now).0,
{
    lemma_find_task(a.tasks, id);
    let i = spec_find_task(a.tasks, id);
    if i == -1 {
    } else {
        let a1 = spec_app_remove_from_my_day(a, id, now).0;
        let t1 = a1.tasks[i];
        assert forall|j: int| 0 <= j < i implies (#[trigger] a1.tasks[j]).id != id by {
            assert(a1.tasks[j] == a.tasks[j]);
        }
        lemma_find_task_is(a1.tasks, id, i);
        lemma_order_without(a.my_day_task_order, id);
        lemma_order_without(a1.my_day_task_order, id);
        assert(spec_set_in_my_day(t1, false, now) =~= t1);
        assert(a1.tasks.update(i, t1) =~= a1.tasks);
        assert(spec_app_remove_from_my_day(a1, id, now).0 =~= a1);
    }
}

/// Completing a recurring task changes the My-Day order in exactly one way:
/// under the invariant no stale entry can hold the fresh id, so the
/// successor's id is appended when its due date falls on today, and the
/// order stays as it was otherwise.
pub proof fn lemma_spawn_order_exact(a: AppView, id: u32, now: Timestamp)
    requires
        app_wf(a),
        spec_find_task(a.tasks, id) != -1,
    ensures
        ({
            let t = a.tasks[spec_find_task(a.tasks, id)];
            match t.recurring_frequency {
                Some(f) => !t.is_completed ==> {
                    let base = match t.due_date {
                        Some(d) => d,
                        None => now,
                    };
                    let due = spec_next_due_date(base, f);
                    spec_app_toggle_task(a, id, now).0.my_day_task_order == if spec_same_date(
                        due,
                        now,
                    ) {
                        a.my_day_task_order.push(a.next_task_id)
                    } else {
                        a.my_day_task_order
                    }
                },
                None => spec_app_toggle_task(a, id, now).0.my_day_task_order
                    == a.my_day_task_order,
            }
        }),
{
    lemma_find_task(a.tasks, id);
    assert(!a.my_day_task_order.contains(a.next_task_id)) by {
        if a.my_day_task_order.contains(a.next_task_id) {
            let k = choose|k: int|
                0 <= k < a.my_day_task_order.len() && a.my_day_task_order[k] == a.next_task_id;
            assert(a.my_day_task_order[k] < a.next_task_id);
        }
    }
}

/// The My-Day order holds no duplicate ids after any reorder, whatever it
/// held before, and adding a task to My Day keeps it duplicate-free; every
/// other mutation only removes entries. So no sequence of reorders and
/// additions can introduce a duplicate.
pub proof fn lemma_my_day_order_no_dup(a: AppView, id: u32, now: Timestamp)
    ensures
        no_dup_ids(spec_app_move_up(a, id).my_day_task_order),
        no_dup_ids(spec_app_move_down(a, id).my_day_task_order),
        no_dup_ids(a.my_day_task_order) ==> no_dup_ids(
            spec_app_add_to_my_day(a, id, now).0.my_day_task_order,
        ),
{
    lemma_dedup(a.my_day_task_order);
    let o = spec_dedup(a.my_day_task_order);
    lemma_find_u32(o, id);
    let p = spec_find_u32(o, id);
    if p >= 1 {
        lemma_swap_no_dup(o, p, p - 1);
    }
    if 0 <= p < o.len() - 1 {
        lemma_swap_no_dup(o, p, p + 1);
    }
    if no_dup_ids(a.my_day_task_order) {
        let i = spec_find_task(a.tasks, id);
        if i != -1 && !a.my_day_task_order.contains(id) {
            let o2 = a.my_day_task_order.push(id);
            assert forall|k: int, j: int| 0 <= k < j < o2.len() implies #[trigger] o2[k]
                != #[trigger] o2[j] by {
                if j < a.my_day_task_order.len() {
                    assert(o2[k] == a.my_day_task_order[k]);
                    assert(o2[j] == a.my_day_task_order[j]);
                } else {
                    assert(o2[k] == a.my_day_task_order[k]);
                    assert(o2[j] == id);
                    if a.my_day_task_order[k] == id {
                        assert(a.my_day_task_order.contains(id));
                    }
                }
            }
        }
    }
}



/// The tasks of `s` that carry `id`, in collection order.
pub open spec fn spec_tasks_with_id(s: Seq<TaskView>, id: u32) -> Seq<TaskView>
    decreases s.len(),
{
    if s.len() == 0 {
        Seq::empty()
    } else {
        let rest = spec_tasks_with_id(s.drop_last(), id);
        if s.last().id == id {
            rest.push(s.last())
        } else {
            rest
        }
    }
}

/// The front of the My Day screen: for each order entry, at its first
/// occurrence, the pool tasks carrying that id.
pub open spec fn spec_ordered_part(pool: Seq<TaskView>, order: Seq<u32>) -> Seq<TaskView>
    decreases order.len(),
{
    if order.len() == 0 {
        Seq::empty()
    } else {
        let rest = spec_ordered_part(pool, order.drop_last());
        if order.drop_last().contains(order.last()) {
            rest
        } else {
            rest + spec_tasks_with_id(pool, order.last())
        }
    }
}

/// The back of the My Day screen: pool tasks whose id the order does not
/// mention, in collection order.
pub open spec fn spec_unordered_part(pool: Seq<TaskView>, order: Seq<u32>) -> Seq<TaskView>
    decreases pool.len(),
{
    if pool.len() == 0 {
        Seq::empty()
    } else {
        let rest = spec_unordered_part(pool.drop_last(), order);
        if order.contains(pool.last().id) {
            rest
        } else {
            rest.push(pool.last())
        }
    }
}

/// What the My Day screen shows: the pool (flagged or due today), with the
/// tasks named by the order first, in order position, and the rest after
/// them in collection order.
pub open spec fn spec_my_day_tasks(tasks: Seq<TaskView>, order: Seq<u32>, now: Timestamp) -> Seq<
    TaskView,
> {
    let pool = spec_my_day_pool(tasks, now);
    spec_ordered_part(pool, order) + spec_unordered_part(pool, order)
}

/// Clones the tasks that are flagged for My Day or due today.
pub fn filter_my_day_pool(tasks: &Vec<Task>, now: &Timestamp) -> (r: Vec<Task>)
    ensures
        r.deep_view() == spec_my_day_pool(tasks.deep_view(), *now),
{
    let s = Ghost(tasks.deep_view());
    let n = tasks.len();
    let mut r: Vec<Task> = Vec::new();
    proof {
        assert(r.deep_view() =~= s@.take(0).filter(
            |t: TaskView| t.is_in_my_day || spec_is_due_today(t, *now),
        ));
    }
    let mut i: usize = 0;
    while i < n
        invariant
            i <= n,
            n == tasks@.len(),
            s@ == tasks.deep_view(),
            r.deep_view() == s@.take(i as int).filter(
                |t: TaskView| t.is_in_my_day || spec_is_due_today(t, *now),
            ),
        decreases n - i,
    {
        proof {
            lemma_filter_take_step(
                s@,
                i as int,
                |t: TaskView| t.is_in_my_day || spec_is_due_today(t, *now),
            );
            assert(s@[i as int] == tasks@[i as int]@);
        }
        let mine = tasks[i].is_in_my_day || tasks[i].is_due_today(now);
        if mine {
            let ghost prev = r.deep_view();
            let t = tasks[i].clone();
            r.push(t);
            proof {
                assert(r.deep_view() =~= prev.push(tasks@[i as int]@));
            }
        }
        i = i + 1;
    }
    proof {
        assert(s@.take(n as int) =~= s@);
    }
    r
}

/// Whether `x` occurs among the first `end` entries of `v`.
pub fn contains_u32_prefix(v: &Vec<u32>, end: usize, x: u32) -> (r: bool)
    requires
        end <= v@.len(),
    ensures
        r == v@.take(end as int).contains(x),
{
    let mut i: usize = 0;
    while i < end
        invariant
            i <= end <= v@.len(),
            forall|j: int| 0 <= j < i ==> #[trigger] v@[j] != x,
        decreases end - i,
    {
        if v[i] == x {
            proof {
                assert(v@.take(end as int)[i as int] == x);
            }
            return true;
        }
        i = i + 1;
    }
    proof {
        if v@.take(end as int).contains(x) {
            let k = choose|k: int| 0 <= k < end && v@.take(end as int)[k] == x;
            assert(v@[k] == x);
        }
    }
    false
}

impl App {
    /// The My Day screen's tasks: those flagged for it or due today, with
    /// the manually ordered ones first; see `spec_my_day_tasks`.
    pub fn get_my_day_tasks(&self, now: &Timestamp) -> (r: Vec<Task>)
        ensures
            r.deep_view() == spec_my_day_tasks(self@.tasks, self@.my_day_task_order, *now),
    {
        let pool = filter_my_day_pool(&self.tasks, now);
        let ghost pv = pool.deep_view();
        let ghost ov = self.my_day_task_order@;
        let mut r: Vec<Task> = Vec::new();
        proof {
            assert(ov.take(0) =~= Seq::<u32>::empty());
            assert(r.deep_view() =~= spec_ordered_part(pv, ov.take(0)));
        }
        let n = self.my_day_task_order.len();
        let mut i: usize = 0;
        while i < n
            invariant
                i <= n,
                n == ov.len(),
                ov == self.my_day_task_order@,
                pv == pool.deep_view(),
                pool@.len() == pv.len(),
                r.deep_view() == spec_ordered_part(pv, ov.take(i as int)),
            decreases n - i,
        {
            proof {
                assert(ov.take(i as int + 1).drop_last() =~= ov.take(i as int));
                assert(ov.take(i as int + 1).last() == ov[i as int]);
            }
            let id = self.my_day_task_order[i];
            let dup = contains_u32_prefix(&self.my_day_task_order, i, id);
            if !dup {
                let ghost base = r.deep_view();
                let m = pool.len();
                let mut j: usize = 0;
                proof {
                    assert(pv.take(0) =~= Seq::<TaskView>::empty());
                    assert(base + spec_tasks_with_id(pv.take(0), id) =~= base);
                }
                while j < m
                    invariant
                        j <= m,
                        m == pv.len(),
                        pv == pool.deep_view(),
                        pool@.len() == pv.len(),
                        r.deep_view() == base + spec_tasks_with_id(pv.take(j as int), id),
                    decreases m - j,
                {
                    proof {
                        assert(pv.take(j as int + 1).drop_last() =~= pv.take(j as int));
                        assert(pv.take(j as int + 1).last() == pv[j as int]);
                        assert(pv[j as int] == pool@[j as int]@);
                    }
                    if pool[j].id == id {
                        let ghost prevr = r.deep_view();
                        let t = pool[j].clone();
                        r.push(t);
                        proof {
                            assert(r.deep_view() =~= prevr.push(pool@[j as int]@));
                            assert(prevr.push(pv[j as int]) =~= base + spec_tasks_with_id(
                                pv.take(j as int + 1),
                                id,
                            ));
                        }
                    }
                    j = j + 1;
                }
                proof {
                    assert(pv.take(m as int) =~= pv);
                }
            }
            i = i + 1;
        }
        proof {
            assert(ov.take(n as int) =~= ov);
        }
        let ghost front = r.deep_view();
        let m = pool.len();
        let mut j: usize = 0;
        proof {
            assert(pv.take(0) =~= Seq::<TaskView>::empty());
            assert(front + spec_unordered_part(pv.take(0), ov) =~= front);
        }
        while j < m
            invariant
                j <= m,
                m == pv.len(),
                pv == pool.deep_view(),
                pool@.len() == pv.len(),
                ov == self.my_day_task_order@,
                r.deep_view() == front + spec_unordered_part(pv.take(j as int), ov),
            decreases m - j,
        {
            proof {
                assert(pv.take(j as int + 1).drop_last() =~= pv.take(j as int));
                assert(pv.take(j as int + 1).last() == pv[j as int]);
                assert(pv[j as int] == pool@[j as int]@);
            }
            let present = contains_u32(&self.my_day_task_order, pool[j].id);
            if !present {
                let ghost prevr = r.deep_view();
                let t = pool[j].clone();
                r.push(t);
                proof {
                    assert(r.deep_view() =~= prevr.push(pool@[j as int]@));
                    assert(prevr.push(pv[j as int]) =~= front + spec_unordered_part(
                        pv.take(j as int + 1),
                        ov,
                    ));
                }
            }
            j = j + 1;
        }
        proof {
            assert(pv.take(m as int) =~= pv);
        }
        r
    }
}

/// Whether some task of `s` carries the id `x`.
pub open spec fn spec_has_task_id(s: Seq<TaskView>, x: u32) -> bool {
    exists|k: int| 0 <= k < s.len() && (#[trigger] s[k]).id == x
}

/// The ids seeding the My-Day order at startup: the tasks flagged for My
/// Day or due today, in collection order.
pub open spec fn spec_seed_order(tasks: Seq<TaskView>, now: Timestamp) -> Seq<u32>
    decreases tasks.len(),
{
    if tasks.len() == 0 {
        Seq::empty()
    } else {
        let rest = spec_seed_order(tasks.drop_last(), now);
        if tasks.last().is_in_my_day || spec_is_due_today(tasks.last(), now) {
            spec_sorted_insert(rest, tasks.last().id)
        } else {
            rest
        }
    }
}

/// The ids ascend throughout the sequence.
pub open spec fn sorted_u32(s: Seq<u32>) -> bool {
    forall|i: int, j: int| 0 <= i < j < s.len() ==> #[trigger] s[i] <= #[trigger] s[j]
}

/// `x` placed behind every entry it is not below, keeping ascending order.
pub open spec fn spec_sorted_insert(s: Seq<u32>, x: u32) -> Seq<u32>
    decreases s.len(),
{
    if s.len() == 0 {
        seq![x]
    } else if x >= s.last() {
        s.push(x)
    } else {
        spec_sorted_insert(s.drop_last(), x).push(s.last())
    }
}

/// Inserting grows the sequence by one, adds exactly `x` to its entries,
/// keeps it sorted, and keeps it duplicate-free when `x` was absent.
pub proof fn lemma_sorted_insert(s: Seq<u32>, x: u32)
    ensures
        spec_sorted_insert(s, x).len() == s.len() + 1,
        forall|m: int|
            0 <= m < spec_sorted_insert(s, x).len() ==> (#[trigger] spec_sorted_insert(s, x)[m]
                == x || s.contains(spec_sorted_insert(s, x)[m])),
        sorted_u32(s) ==> sorted_u32(spec_sorted_insert(s, x)),
        !s.contains(x) && no_dup_ids(s) ==> no_dup_ids(spec_sorted_insert(s, x)),
    decreases s.len(),
{
    let out = spec_sorted_insert(s, x);
    if s.len() == 0 {
    } else if x >= s.last() {
        assert forall|m: int| 0 <= m < out.len() implies (#[trigger] out[m] == x || s.contains(
            out[m],
        )) by {
            if m < s.len() {
                assert(out[m] == s[m]);
            }
        }
        if sorted_u32(s) {
            assert forall|i: int, j: int| 0 <= i < j < out.len() implies #[trigger] out[i]
                <= #[trigger] out[j] by {
                if j < s.len() {
                } else {
                    assert(out[i] == s[i]);
                    assert(s[i] <= s[s.len() - 1]);
                    assert(out[j] == x);
                }
            }
        }
        if !s.contains(x) && no_dup_ids(s) {
            assert forall|i: int, j: int| 0 <= i < j < out.len() implies #[trigger] out[i]
                != #[trigger] out[j] by {
                if j < s.len() {
                } else {
                    assert(out[i] == s[i]);
                    if s[i] == x {
                        assert(s.contains(x));
                    }
                }
            }
        }
    } else {
        let dl = s.drop_last();
        lemma_sorted_insert(dl, x);
        let inner = spec_sorted_insert(dl, x);
        assert forall|m: int| 0 <= m < out.len() implies (#[trigger] out[m] == x || s.contains(
            out[m],
        )) by {
            if m < inner.len() {
                assert(out[m] == inner[m]);
                if inner[m] != x {
                    assert(dl.contains(inner[m]));
                    let k = choose|k: int| 0 <= k < dl.len() && dl[k] == inner[m];
                    assert(s[k] == inner[m]);
                }
            } else {
                assert(out[m] == s.last());
                assert(s[s.len() - 1] == s.last());
            }
        }
        if sorted_u32(s) {
            assert(sorted_u32(dl)) by {
                assert forall|i: int, j: int| 0 <= i < j < dl.len() implies #[trigger] dl[i]
                    <= #[trigger] dl[j] by {
                    assert(s[i] == dl[i] && s[j] == dl[j]);
                }
            }
            assert forall|i: int, j: int| 0 <= i < j < out.len() implies #[trigger] out[i]
                <= #[trigger] out[j] by {
                if j < inner.len() {
                } else {
                    assert(out[i] == inner[i]);
                    assert(out[j] == s.last());
                    if inner[i] == x {
                    } else {
                        assert(dl.contains(inner[i]));
                        let k = choose|k: int| 0 <= k < dl.len() && dl[k] == inner[i];
                        assert(s[k] == inner[i]);
                        assert(s[k] <= s[s.len() - 1]);
                    }
                }
            }
        }
        if !s.contains(x) && no_dup_ids(s) {
            assert(!dl.contains(x)) by {
                if dl.contains(x) {
                    let k = choose|k: int| 0 <= k < dl.len() && dl[k] == x;
                    assert(s[k] == x);
                }
            }
            assert(no_dup_ids(dl)) by {
                assert forall|i: int, j: int| 0 <= i < j < dl.len() implies #[trigger] dl[i]
                    != #[trigger] dl[j] by {
                    assert(s[i] == dl[i] && s[j] == dl[j]);
                }
            }
            assert forall|i: int, j: int| 0 <= i < j < out.len() implies #[trigger] out[i]
                != #[trigger] out[j] by {
                if j < inner.len() {
                } else {
                    assert(out[i] == inner[i]);
                    assert(out[j] == s.last());
                    if inner[i] == x {
                        assert(x < s.last());
                    } else {
                        assert(dl.contains(inner[i]));
                        let k = choose|k: int| 0 <= k < dl.len() && dl[k] == inner[i];
                        assert(s[k] == inner[i]);
                        assert(s[k] != s[s.len() - 1]);
                    }
                }
            }
        }
    }
}

/// Inserts `x` behind every entry it is not below, keeping ascending order.
pub fn sorted_insert_u32(v: &mut Vec<u32>, x: u32)
    ensures
        final(v)@ == spec_sorted_insert(old(v)@, x),
{
    let ghost o = old(v)@;
    let n = v.len();
    proof {
        assert(o.take(n as int) =~= o);
        assert(o.skip(n as int) =~= Seq::<u32>::empty());
        assert(spec_sorted_insert(o.take(n as int), x) + o.skip(n as int) =~= spec_sorted_insert(
            o,
            x,
        ));
    }
    let mut i: usize = n;
    while i > 0 && v[i - 1] > x
        invariant
            i <= n,
            n == v@.len(),
            v@ == o,
            spec_sorted_insert(o, x) == spec_sorted_insert(o.take(i as int), x) + o.skip(i as int),
        decreases i,
    {
        proof {
            assert(o.take(i as int).drop_last() =~= o.take(i as int - 1));
            assert(o.take(i as int).last() == o[i as int - 1]);
            assert(spec_sorted_insert(o.take(i as int - 1), x).push(o[i as int - 1]) + o.skip(
                i as int,
            ) =~= spec_sorted_insert(o.take(i as int - 1), x) + o.skip(i as int - 1));
        }
        i = i - 1;
    }
    proof {
        if i == 0 {
            assert(o.take(0) =~= Seq::<u32>::empty());
            assert(spec_sorted_insert(o.take(0), x) =~= seq![x]);
            assert(seq![x] + o.skip(0) =~= o.insert(0, x));
        } else {
            assert(o.take(i as int).last() == o[i as int - 1]);
            assert(o.take(i as int).push(x) + o.skip(i as int) =~= o.insert(i as int, x));
        }
    }
    v.insert(i, x);
}

/// Every seeded id belongs to a task, the seed ascends, and unique task
/// ids seed a duplicate-free order.
pub proof fn lemma_seed_order(tasks: Seq<TaskView>, now: Timestamp)
    ensures
        forall|m: int|
            0 <= m < spec_seed_order(tasks, now).len() ==> spec_has_task_id(
                tasks,
                #[trigger] spec_seed_order(tasks, now)[m],
            ),
        sorted_u32(spec_seed_order(tasks, now)),
        task_ids_unique(tasks) ==> no_dup_ids(spec_seed_order(tasks, now)),
    decreases tasks.len(),
{
    if tasks.len() > 0 {
        let dl = tasks.drop_last();
        lemma_seed_order(dl, now);
        let rest = spec_seed_order(dl, now);
        let out = spec_seed_order(tasks, now);
        lemma_sorted_insert(rest, tasks.last().id);
        assert forall|m: int|
            0 <= m < out.len() implies spec_has_task_id(tasks, #[trigger] out[m]) by {
            if out[m] == tasks.last().id {
                assert(tasks[tasks.len() - 1].id == out[m]);
            } else {
                assert(rest.contains(out[m]) || out.len() == rest.len());
                if rest.contains(out[m]) {
                    let r = choose|r: int| 0 <= r < rest.len() && rest[r] == out[m];
                    assert(spec_has_task_id(dl, rest[r]));
                    let k = choose|k: int| 0 <= k < dl.len() && (#[trigger] dl[k]).id == out[m];
                    assert(tasks[k].id == out[m]);
                } else {
                    assert(out == rest);
                    assert(spec_has_task_id(dl, rest[m]));
                    let k = choose|k: int| 0 <= k < dl.len() && (#[trigger] dl[k]).id == out[m];
                    assert(tasks[k].id == out[m]);
                }
            }
        }
        if task_ids_unique(tasks) {
            assert(task_ids_unique(dl)) by {
                assert forall|i: int, j: int|
                    0 <= i < j < dl.len() implies (#[trigger] dl[i]).id != (#[trigger] dl[j]).id by {
                    assert(dl[i] == tasks[i] && dl[j] == tasks[j]);
                }
            }
            if tasks.last().is_in_my_day || spec_is_due_today(tasks.last(), now) {
                assert(!rest.contains(tasks.last().id)) by {
                    if rest.contains(tasks.last().id) {
                        let r = choose|r: int|
                            0 <= r < rest.len() && rest[r] == tasks.last().id;
                        assert(spec_has_task_id(dl, rest[r]));
                        let k = choose|k: int|
                            0 <= k < dl.len() && (#[trigger] dl[k]).id == tasks.last().id;
                        assert(tasks[k].id == tasks[tasks.len() - 1].id);
                    }
                }
            }
        }
    }
}

/// Every task id is at most the collection's largest.
pub proof fn lemma_max_task_id_bound(s: Seq<TaskView>)
    ensures
        forall|i: int| 0 <= i < s.len() ==> (#[trigger] s[i]).id <= spec_max_task_id(s),
        spec_max_task_id(s) >= 0,
    decreases s.len(),
{
    if s.len() > 0 {
        lemma_max_task_id_bound(s.drop_last());
        assert forall|i: int|
            0 <= i < s.len() implies (#[trigger] s[i]).id <= spec_max_task_id(s) by {
            if i < s.len() - 1 {
                assert(s.drop_last()[i] == s[i]);
            }
        }
    }
}

/// Every list id is at most the collection's largest.
pub proof fn lemma_max_list_id_bound(s: Seq<ListView>)
    ensures
        forall|i: int| 0 <= i < s.len() ==> (#[trigger] s[i]).id <= spec_max_list_id(s),
        spec_max_list_id(s) >= 0,
    decreases s.len(),
{
    if s.len() > 0 {
        lemma_max_list_id_bound(s.drop_last());
        assert forall|i: int|
            0 <= i < s.len() implies (#[trigger] s[i]).id <= spec_max_list_id(s) by {
            if i < s.len() - 1 {
                assert(s.drop_last()[i] == s[i]);
            }
        }
    }
}

/// The state right after startup: counters one past the largest loaded ids,
/// a default list seeded when none were loaded, the My-Day order seeded
/// from the flagged or due tasks in ascending task-id order, and the list
/// overview open.
pub open spec fn spec_app_new(tasks: Seq<TaskView>, lists: Seq<ListView>, now: Timestamp) -> AppView {
    let seeded = lists.len() == 0;
    AppView {
        state: AppState::ListOverview,
        tasks,
        lists: if seeded {
            seq![spec_new_list(1, seq!['M', 'y', ' ', 'T', 'a', 's', 'k', 's'], now)]
        } else {
            lists
        },
        next_task_id: (spec_max_task_id(tasks) + 1) as u32,
        next_list_id: if seeded {
            2
        } else {
            (spec_max_list_id(lists) + 1) as u32
        },
        current_list_id: None,
        selected_task_index: 0,
        task_editor_mode: TaskEditorMode::Create,
        task_editor_state: TaskEditorState::Title,
        editing_task: None,
        input_buffer: Seq::empty(),
        should_quit: false,
        moving_task: None,
        my_day_task_order: spec_seed_order(tasks, now),
    }
}

impl App {
    /// Builds the startup state from the loaded collections. The second
    /// result says whether a default list was seeded, which the caller must
    /// then persist.
    pub fn new(tasks: Vec<Task>, lists: Vec<List>, now: Timestamp) -> (r: (App, bool))
        requires
            ts_valid(now),
            tasks_wf(tasks.deep_view()),
            task_ids_unique(tasks.deep_view()),
            lists_wf(lists.deep_view()),
            list_ids_unique(lists.deep_view()),
            spec_max_task_id(tasks.deep_view()) < u32::MAX,
            spec_max_list_id(lists.deep_view()) < u32::MAX,
        ensures
            r.0@ == spec_app_new(tasks.deep_view(), lists.deep_view(), now),
            r.1 == (lists.deep_view().len() == 0),
            sorted_u32(r.0@.my_day_task_order),
            app_wf(r.0@),
    {
        let ghost tv = tasks.deep_view();
        let ghost lv = lists.deep_view();
        let mut storage = Storage::new();
        storage.init_counters(&tasks, &lists);
        let mut lists = lists;
        let seeded = lists.len() == 0;
        if seeded {
            let name: Vec<char> = vec!['M', 'y', ' ', 'T', 'a', 's', 'k', 's'];
            let id = storage.get_next_list_id();
            let default_list = List::new(id, name, now);
            let ghost dl = default_list@;
            let ghost prev = lists.deep_view();
            lists.push(default_list);
            proof {
                assert(prev =~= Seq::<ListView>::empty());
                assert(lists.deep_view() =~= seq![dl]);
            }
        }
        let mut order: Vec<u32> = Vec::new();
        proof {
            assert(tv.take(0) =~= Seq::<TaskView>::empty());
            assert(order@ =~= spec_seed_order(tv.take(0), now));
        }
        let n = tasks.len();
        let mut i: usize = 0;
        while i < n
            invariant
                i <= n,
                n == tv.len(),
                tv == tasks.deep_view(),
                order@ == spec_seed_order(tv.take(i as int), now),
            decreases n - i,
        {
            proof {
                assert(tv.take(i as int + 1).drop_last() =~= tv.take(i as int));
                assert(tv.take(i as int + 1).last() == tv[i as int]);
                assert(tv[i as int] == tasks@[i as int]@);
            }
            let mine = tasks[i].is_in_my_day || tasks[i].is_due_today(&now);
            if mine {
                sorted_insert_u32(&mut order, tasks[i].id);
            }
            i = i + 1;
        }
        proof {
            assert(tv.take(n as int) =~= tv);
            lemma_seed_order(tv, now);
            lemma_max_task_id_bound(tv);
            lemma_max_list_id_bound(lv);
        }
        let app = App {
            state: AppState::ListOverview,
            tasks,
            lists,
            storage,
            current_list_id: None,
            selected_task_index: 0,
            task_editor_mode: TaskEditorMode::Create,
            task_editor_state: TaskEditorState::Title,
            editing_task: None,
            input_buffer: Vec::new(),
            should_quit: false,
            moving_task: None,
            my_day_task_order: order,
        };
        proof {
            assert(app@ =~= spec_app_new(tv, lv, now));
        }
        (app, seeded)
    }
}



/// A list's tasks are never more numerous than the collection.
pub proof fn lemma_tasks_for_list_len(s: Seq<TaskView>, list_id: u32)
    ensures
        spec_tasks_for_list(s, list_id).len() <= s.len(),
    decreases s.len(),
{
    reveal_with_fuel(Seq::<_>::filter, 2);
    if s.len() > 0 {
        lemma_tasks_for_list_len(s.drop_last(), list_id);
    }
}

/// The My-Day pool is never more numerous than the collection.
pub proof fn lemma_my_day_pool_len(s: Seq<TaskView>, now: Timestamp)
    ensures
        spec_my_day_pool(s, now).len() <= s.len(),
    decreases s.len(),
{
    reveal_with_fuel(Seq::<_>::filter, 2);
    if s.len() > 0 {
        lemma_my_day_pool_len(s.drop_last(), now);
    }
}

/// An empty order leaves the whole pool in the unordered part.
pub proof fn lemma_unordered_empty(pool: Seq<TaskView>)
    ensures
        spec_unordered_part(pool, Seq::empty()) == pool,
    decreases pool.len(),
{
    if pool.len() > 0 {
        lemma_unordered_empty(pool.drop_last());
        assert(spec_unordered_part(pool, Seq::empty()) =~= pool);
    }
}

/// Orders with the same membership split the pool the same way.
pub proof fn lemma_unordered_same_membership(pool: Seq<TaskView>, o1: Seq<u32>, o2: Seq<u32>)
    requires
        forall|x: u32| o1.contains(x) <==> o2.contains(x),
    ensures
        spec_unordered_part(pool, o1) == spec_unordered_part(pool, o2),
    decreases pool.len(),
{
    if pool.len() > 0 {
        lemma_unordered_same_membership(pool.drop_last(), o1, o2);
    }
}

/// Appending an unseen id to the order moves exactly the tasks carrying it
/// out of the unordered part.
pub proof fn lemma_unordered_push(pool: Seq<TaskView>, order: Seq<u32>, x: u32)
    requires
        !order.contains(x),
    ensures
        spec_unordered_part(pool, order).len() == spec_unordered_part(pool, order.push(x)).len()
            + spec_tasks_with_id(pool, x).len(),
    decreases pool.len(),
{
    if pool.len() > 0 {
        lemma_unordered_push(pool.drop_last(), order, x);
        let t = pool.last();
        let o2 = order.push(x);
        if t.id == x {
            assert(o2.contains(t.id)) by {
                assert(o2[order.len() as int] == x);
            }
            assert(!order.contains(t.id));
        } else {
            assert(o2.contains(t.id) <==> order.contains(t.id)) by {
                if o2.contains(t.id) {
                    let k = choose|k: int| 0 <= k < o2.len() && o2[k] == t.id;
                    assert(k < order.len());
                    assert(order[k] == t.id);
                }
                if order.contains(t.id) {
                    let k = choose|k: int| 0 <= k < order.len() && order[k] == t.id;
                    assert(o2[k] == t.id);
                }
            }
        }
    }
}

/// The ordered and unordered parts split the pool exactly, so the My Day
/// screen shows each pool task exactly once.
pub proof fn lemma_my_day_partition(pool: Seq<TaskView>, order: Seq<u32>)
    ensures
        spec_ordered_part(pool, order).len() + spec_unordered_part(pool, order).len()
            == pool.len(),
    decreases order.len(),
{
    if order.len() == 0 {
        lemma_unordered_empty(pool);
        assert(order =~= Seq::<u32>::empty());
    } else {
        let odl = order.drop_last();
        let x = order.last();
        lemma_my_day_partition(pool, odl);
        assert(order =~= odl.push(x));
        if odl.contains(x) {
            assert forall|y: u32| odl.contains(y) <==> order.contains(y) by {
                if odl.contains(y) {
                    let k = choose|k: int| 0 <= k < odl.len() && odl[k] == y;
                    assert(order[k] == y);
                }
                if order.contains(y) {
                    let k = choose|k: int| 0 <= k < order.len() && order[k] == y;
                    if k < odl.len() {
                        assert(odl[k] == y);
                    } else {
                        assert(y == x);
                    }
                }
            }
            lemma_unordered_same_membership(pool, odl, order);
        } else {
            lemma_unordered_push(pool, odl, x);
        }
    }
}

/// The first display row at or after `i` that shows the task with `id`, or
/// -1 when no row does.
pub open spec fn spec_find_display_index(tasks: Seq<TaskView>, id: u32, i: int) -> int
    decreases spec_displayable_count(tasks) - i,
{
    if i < 0 || i >= spec_displayable_count(tasks) {
        -1
    } else if spec_task_at_display_index(tasks, i) matches Some(t) && t.id == id {
        i
    } else {
        spec_find_display_index(tasks, id, i + 1)
    }
}

/// Finds the first display row showing the task with `id`.
pub fn find_display_index(app: &App, tasks: &Vec<Task>, id: u32) -> (r: Option<usize>)
    requires
        tasks@.len() + 1 <= usize::MAX,
    ensures
        match r {
            Some(i) => spec_find_display_index(tasks.deep_view(), id, 0) == i as int,
            None => spec_find_display_index(tasks.deep_view(), id, 0) == -1,
        },
{
    let dc = app.get_displayable_task_count(tasks);
    let mut i: usize = 0;
    while i < dc
        invariant
            i <= dc,
            dc as int == spec_displayable_count(tasks.deep_view()),
            spec_find_display_index(tasks.deep_view(), id, 0) == spec_find_display_index(
                tasks.deep_view(),
                id,
                i as int,
            ),
        decreases dc - i,
    {
        let at = app.get_task_at_display_index(tasks, i);
        let matched = match &at {
            Some(t) => t.id == id,
            None => false,
        };
        if matched {
            return Some(i);
        }
        i = i + 1;
    }
    None
}



/// Filtering keeps well-formedness of every element.
pub proof fn lemma_filter_wf(s: Seq<TaskView>, pred: spec_fn(TaskView) -> bool)
    requires
        tasks_wf(s),
    ensures
        tasks_wf(s.filter(pred)),
{
    lemma_filter_subset(s, pred);
    assert forall|i: int|
        0 <= i < s.filter(pred).len() implies task_wf(#[trigger] s.filter(pred)[i]) by {
        assert(s.contains(s.filter(pred)[i]));
        let k = choose|k: int| 0 <= k < s.len() && s[k] == s.filter(pred)[i];
        assert(task_wf(s[k]));
    }
}

pub proof fn lemma_tasks_with_id_wf(s: Seq<TaskView>, id: u32)
    requires
        tasks_wf(s),
    ensures
        tasks_wf(spec_tasks_with_id(s, id)),
    decreases s.len(),
{
    if s.len() > 0 {
        let dl = s.drop_last();
        assert(tasks_wf(dl)) by {
            assert forall|i: int| 0 <= i < dl.len() implies task_wf(#[trigger] dl[i]) by {
                assert(dl[i] == s[i]);
            }
        }
        lemma_tasks_with_id_wf(dl, id);
        if s.last().id == id {
            assert forall|i: int|
                0 <= i < spec_tasks_with_id(s, id).len() implies task_wf(
                #[trigger] spec_tasks_with_id(s, id)[i]) by {
                if i < spec_tasks_with_id(dl, id).len() {
                    assert(spec_tasks_with_id(s, id)[i] == spec_tasks_with_id(dl, id)[i]);
                } else {
                    assert(spec_tasks_with_id(s, id)[i] == s.last());
                    assert(s[s.len() - 1] == s.last());
                }
            }
        }
    }
}

pub proof fn lemma_concat_wf(x: Seq<TaskView>, y: Seq<TaskView>)
    requires
        tasks_wf(x),
        tasks_wf(y),
    ensures
        tasks_wf(x + y),
{
    assert forall|i: int| 0 <= i < (x + y).len() implies task_wf(#[trigger] (x + y)[i]) by {
        if i < x.len() {
            assert((x + y)[i] == x[i]);
        } else {
            assert((x + y)[i] == y[i - x.len()]);
        }
    }
}

pub proof fn lemma_ordered_wf(pool: Seq<TaskView>, order: Seq<u32>)
    requires
        tasks_wf(pool),
    ensures
        tasks_wf(spec_ordered_part(pool, order)),
    decreases order.len(),
{
    if order.len() > 0 {
        lemma_ordered_wf(pool, order.drop_last());
        if !order.drop_last().contains(order.last()) {
            lemma_tasks_with_id_wf(pool, order.last());
            lemma_concat_wf(
                spec_ordered_part(pool, order.drop_last()),
                spec_tasks_with_id(pool, order.last()),
            );
        }
    }
}

pub proof fn lemma_unordered_wf(pool: Seq<TaskView>, order: Seq<u32>)
    requires
        tasks_wf(pool),
    ensures
        tasks_wf(spec_unordered_part(pool, order)),
    decreases pool.len(),
{
    if pool.len() > 0 {
        let dl = pool.drop_last();
        assert(tasks_wf(dl)) by {
            assert forall|i: int| 0 <= i < dl.len() implies task_wf(#[trigger] dl[i]) by {
                assert(dl[i] == pool[i]);
            }
        }
        lemma_unordered_wf(dl, order);
        if !order.contains(pool.last().id) {
            assert forall|i: int|
                0 <= i < spec_unordered_part(pool, order).len() implies task_wf(
                #[trigger] spec_unordered_part(pool, order)[i]) by {
                if i < spec_unordered_part(dl, order).len() {
                    assert(spec_unordered_part(pool, order)[i] == spec_unordered_part(
                        dl,
                        order,
                    )[i]);
                } else {
                    assert(spec_unordered_part(pool, order)[i] == pool.last());
                    assert(pool[pool.len() - 1] == pool.last());
                }
            }
        }
    }
}

/// Every task the My Day screen shows is well-formed.
pub proof fn lemma_my_day_tasks_wf(tasks: Seq<TaskView>, order: Seq<u32>, now: Timestamp)
    requires
        tasks_wf(tasks),
    ensures
        tasks_wf(spec_my_day_tasks(tasks, order, now)),
{
    lemma_filter_wf(tasks, |t: TaskView| t.is_in_my_day || spec_is_due_today(t, now));
    let pool = spec_my_day_pool(tasks, now);
    lemma_ordered_wf(pool, order);
    lemma_unordered_wf(pool, order);
    lemma_concat_wf(spec_ordered_part(pool, order), spec_unordered_part(pool, order));
}

/// Every task a display row names is well-formed.
pub proof fn lemma_display_wf(tasks: Seq<TaskView>, i: int)
    requires
        tasks_wf(tasks),
    ensures
        spec_task_at_display_index(tasks, i) matches Some(t) ==> task_wf(t),
{
    lemma_filter_wf(tasks, |t: TaskView| !t.is_completed);
    lemma_filter_wf(tasks, |t: TaskView| t.is_completed);
}



/// Whatever list is open, its tasks fit beside the collection.
pub proof fn lemma_tasks_for_list_len_any(a: AppView)
    ensures
        forall|lid: u32| #[trigger] spec_tasks_for_list(a.tasks, lid).len() <= a.tasks.len(),
{
    assert forall|lid: u32|
        #[trigger] spec_tasks_for_list(a.tasks, lid).len() <= a.tasks.len() by {
        lemma_tasks_for_list_len(a.tasks, lid);
    }
}

/// Well-formedness of the open list's tasks.
pub proof fn lemma_filter_wf_current(a: AppView)
    requires
        tasks_wf(a.tasks),
    ensures
        forall|lid: u32| tasks_wf(#[trigger] spec_tasks_for_list(a.tasks, lid)),
{
    assert forall|lid: u32| tasks_wf(#[trigger] spec_tasks_for_list(a.tasks, lid)) by {
        lemma_filter_wf(a.tasks, |t: TaskView| t.list_id == lid);
    }
}

/// The My Day screen never shows more rows of tasks than the collection
/// holds.
pub proof fn lemma_my_day_len_any(a: AppView, now: Timestamp)
    ensures
        spec_my_day_tasks(a.tasks, a.my_day_task_order, now).len() <= a.tasks.len(),
{
    lemma_my_day_pool_len(a.tasks, now);
    lemma_my_day_partition(spec_my_day_pool(a.tasks, now), a.my_day_task_order);
}



/// Toggling grows the collection by at most the one spawned successor.
pub proof fn lemma_toggle_len(a: AppView, id: u32, now: Timestamp)
    ensures
        spec_app_toggle_task(a, id, now).0.tasks.len() <= a.tasks.len() + 1,
{
    lemma_find_task(a.tasks, id);
    let i = spec_find_task(a.tasks, id);
    if i != -1 {
        assert(a.tasks.update(i, spec_toggle_completion(a.tasks[i], now)).len()
            == a.tasks.len());
    }
}


} // verus!
