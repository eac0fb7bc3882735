use crate::date::{today, Date};
use crate::task::{Task, TaskState};
use vstd::prelude::*;

verus! {

/// The tasks of one day: unfinished ones and finished ones, each list in the
/// order in which tasks entered it. A task's position is its index.
pub struct DayTasks {
    pub undone: Vec<Task>,
    pub done: Vec<Task>,
}

impl DayTasks {
    /// A day with no tasks.
    pub fn new() -> (r: DayTasks)
        ensures
            r.undone@ == Seq::<Task>::empty(),
            r.done@ == Seq::<Task>::empty(),
    {
        DayTasks { undone: Vec::new(), done: Vec::new() }
    }
}

/// Why an operation on the list was refused.
#[derive(Clone, Copy, Debug, PartialEq, Eq, Structural)]
pub enum TodoError {
    /// The index lies outside the addressed list.
    InvalidIndex,
    /// No tasks are kept for the date.
    NoTasksForDate,
    /// The operation cannot be asked this way (removal goes through `delete_task`).
    InvalidOperation,
}

impl TodoError {
    /// The text shown to a user for this error.
    pub open spec fn text(self) -> Seq<char> {
        match self {
            TodoError::InvalidIndex => "Invalid task index"@,
            TodoError::NoTasksForDate => "No tasks for the specified date"@,
            TodoError::InvalidOperation => "Use delete_task to remove a task"@,
        }
    }

    /// Executable form of `text`.
    pub fn message(&self) -> (r: String)
        ensures
            r@ == self.text(),
    {
        match self {
            TodoError::InvalidIndex => String::from_str("Invalid task index"),
            TodoError::NoTasksForDate => String::from_str("No tasks for the specified date"),
            TodoError::InvalidOperation => String::from_str("Use delete_task to remove a task"),
        }
    }
}

/// What one day holds, as seen by contracts: the date, its unfinished tasks,
/// its finished tasks.
pub type DayView = (Date, Seq<Task>, Seq<Task>);

/// Whether some day of `v` has date `d`.
pub open spec fn has_day(v: Seq<DayView>, d: Date) -> bool {
    exists|i: int| 0 <= i < v.len() && v[i].0 == d
}

/// The position of the day with date `d` in `v` (meaningful when `has_day`).
pub open spec fn day_index(v: Seq<DayView>, d: Date) -> int {
    choose|i: int| 0 <= i < v.len() && v[i].0 == d
}

/// The unfinished tasks of date `d`: empty when no day has that date.
pub open spec fn undone_on(v: Seq<DayView>, d: Date) -> Seq<Task> {
    if has_day(v, d) {
        v[day_index(v, d)].1
    } else {
        Seq::empty()
    }
}

/// The finished tasks of date `d`: empty when no day has that date.
pub open spec fn done_on(v: Seq<DayView>, d: Date) -> Seq<Task> {
    if has_day(v, d) {
        v[day_index(v, d)].2
    } else {
        Seq::empty()
    }
}

/// The finished (`is_done`) or unfinished list of date `d`.
pub open spec fn list_on(v: Seq<DayView>, d: Date, is_done: bool) -> Seq<Task> {
    if is_done {
        done_on(v, d)
    } else {
        undone_on(v, d)
    }
}

/// No date occurs twice.
pub open spec fn days_unique(v: Seq<DayView>) -> bool {
    forall|i: int, j: int| 0 <= i < v.len() && 0 <= j < v.len() && v[i].0 == v[j].0 ==> i == j
}

/// Every task of the day carries the day's date, and the state of the list it is in.
pub open spec fn day_valid(e: DayView) -> bool {
    &&& forall|k: int| 0 <= k < e.1.len() ==> (#[trigger] e.1[k]).state == TaskState::NotDone && e.1[k].date == e.0
    &&& forall|k: int| 0 <= k < e.2.len() ==> (#[trigger] e.2[k]).state == TaskState::Done && e.2[k].date == e.0
}

/// A store is valid when its dates are unique and each day is valid: so each
/// task sits in exactly one list of exactly one day.
pub open spec fn store_valid(v: Seq<DayView>) -> bool {
    &&& days_unique(v)
    &&& forall|i: int| 0 <= i < v.len() ==> day_valid(#[trigger] v[i])
}

/// `v` with `ts` appended to the unfinished tasks of date `d`; a day is added
/// at the end when none has that date.
pub open spec fn append_undone(v: Seq<DayView>, d: Date, ts: Seq<Task>) -> Seq<DayView> {
    if has_day(v, d) {
        let i = day_index(v, d);
        v.update(i, (d, v[i].1 + ts, v[i].2))
    } else {
        v.push((d, ts, Seq::empty()))
    }
}

/// `v` after `add_task(description, d)`.
pub open spec fn added(v: Seq<DayView>, description: String, d: Date) -> Seq<DayView> {
    append_undone(v, d, seq![(Task { description: description, state: TaskState::NotDone, date: d })])
}

/// What `change_task_state(date, index, new_state)` may do to a store `v`,
/// leaving `w` and returning `r`: the error or the success, each exactly when
/// its condition holds.
pub open spec fn change_state_outcome(
    v: Seq<DayView>,
    w: Seq<DayView>,
    date: Date,
    index: int,
    new_state: TaskState,
    r: Result<String, TodoError>,
) -> bool {
    let source = list_on(v, date, new_state == TaskState::NotDone);
    match r {
        Err(TodoError::NoTasksForDate) => !has_day(v, date) && w == v,
        Err(TodoError::InvalidOperation) => has_day(v, date) && new_state == TaskState::Deleted && w == v,
        Err(TodoError::InvalidIndex) => has_day(v, date) && new_state != TaskState::Deleted && !(0 <= index
            < source.len()) && w == v,
        Ok(description) => has_day(v, date) && new_state != TaskState::Deleted && 0 <= index < source.len()
            && description == source[index].description && w == marked(v, date, index, new_state),
    }
}

/// What `delete_task(date, index, is_done)` may do to a store `v`, leaving
/// `w` and returning `r`.
pub open spec fn delete_outcome(
    v: Seq<DayView>,
    w: Seq<DayView>,
    date: Date,
    index: int,
    is_done: bool,
    r: Result<String, TodoError>,
) -> bool {
    let source = list_on(v, date, is_done);
    match r {
        Err(TodoError::NoTasksForDate) => !has_day(v, date) && w == v,
        Err(TodoError::InvalidIndex) => has_day(v, date) && !(0 <= index < source.len()) && w == v,
        Err(TodoError::InvalidOperation) => false,
        Ok(description) => has_day(v, date) && 0 <= index < source.len() && description == source[index].description
            && w == deleted(v, date, index, is_done),
    }
}

/// What `edit_task(date, index, is_done, new_description)` may do to a store
/// `v`, leaving `w` and returning `r`.
pub open spec fn edit_outcome(
    v: Seq<DayView>,
    w: Seq<DayView>,
    date: Date,
    index: int,
    is_done: bool,
    new_description: String,
    r: Result<String, TodoError>,
) -> bool {
    let source = list_on(v, date, is_done);
    match r {
        Err(TodoError::NoTasksForDate) => !has_day(v, date) && w == v,
        Err(TodoError::InvalidIndex) => has_day(v, date) && !(0 <= index < source.len()) && w == v,
        Err(TodoError::InvalidOperation) => false,
        Ok(description) => has_day(v, date) && 0 <= index < source.len() && description == source[index].description
            && w == edited(v, date, index, is_done, new_description),
    }
}

/// In a store with unique dates, the day found at `i` is the one `day_index` names.
pub proof fn lemma_day_index(v: Seq<DayView>, d: Date, i: int)
    requires
        days_unique(v),
        0 <= i < v.len(),
        v[i].0 == d,
    ensures
        has_day(v, d),
        day_index(v, d) == i,
{
}

/// Appending tasks of date `d`, unfinished, keeps a store valid.
pub proof fn lemma_append_undone_valid(v: Seq<DayView>, d: Date, ts: Seq<Task>)
    requires
        store_valid(v),
        forall|k: int| 0 <= k < ts.len() ==> (#[trigger] ts[k]).state == TaskState::NotDone && ts[k].date == d,
    ensures
        store_valid(append_undone(v, d, ts)),
{
    let w = append_undone(v, d, ts);
    if has_day(v, d) {
        let i = day_index(v, d);
        assert(day_valid(w[i])) by {
            assert forall|k: int| 0 <= k < w[i].1.len() implies (#[trigger] w[i].1[k]).state == TaskState::NotDone && w[i].1[k].date == w[i].0 by {
                if k < v[i].1.len() {
                    assert(day_valid(v[i]));
                    assert(w[i].1[k] == v[i].1[k]);
                } else {
                    assert(w[i].1[k] == ts[k - v[i].1.len()]);
                }
            }
            assert(day_valid(v[i]));
        }
        assert forall|j: int| 0 <= j < w.len() implies day_valid(#[trigger] w[j]) by {
            if j != i {
                assert(w[j] == v[j]);
            }
        }
    } else {
        assert forall|j: int| 0 <= j < w.len() implies day_valid(#[trigger] w[j]) by {
            if j < v.len() {
                assert(w[j] == v[j]);
            }
        }
        assert forall|a: int, b: int| 0 <= a < w.len() && 0 <= b < w.len() && w[a].0 == w[b].0 implies a == b by {
            if a == v.len() && b < v.len() {
                assert(v[b].0 == d);
            }
            if b == v.len() && a < v.len() {
                assert(v[a].0 == d);
            }
        }
    }
}

/// The day `e` after the task at `index` of one list moved to the end of the
/// other, taking that list's state: to `Done` from the unfinished list, to
/// `NotDone` from the finished one.
pub open spec fn moved_in_day(e: DayView, index: int, new_state: TaskState) -> DayView {
    if new_state == TaskState::Done {
        let t = e.1[index];
        (e.0, e.1.remove(index), e.2.push(Task { description: t.description, state: TaskState::Done, date: t.date }))
    } else {
        let t = e.2[index];
        (e.0, e.1.push(Task { description: t.description, state: TaskState::NotDone, date: t.date }), e.2.remove(index))
    }
}

/// `v` after the task at `index` of date `d` was marked `new_state`.
pub open spec fn marked(v: Seq<DayView>, d: Date, index: int, new_state: TaskState) -> Seq<DayView> {
    let i = day_index(v, d);
    v.update(i, moved_in_day(v[i], index, new_state))
}

/// The day `e` without the task at `index` of the finished (`is_done`) or
/// unfinished list.
pub open spec fn removed_in_day(e: DayView, index: int, is_done: bool) -> DayView {
    if is_done {
        (e.0, e.1, e.2.remove(index))
    } else {
        (e.0, e.1.remove(index), e.2)
    }
}

/// `v` after the task at `index` of date `d` was deleted.
pub open spec fn deleted(v: Seq<DayView>, d: Date, index: int, is_done: bool) -> Seq<DayView> {
    let i = day_index(v, d);
    v.update(i, removed_in_day(v[i], index, is_done))
}

/// The task `t` with its description replaced.
pub open spec fn described(t: Task, description: String) -> Task {
    Task { description: description, state: t.state, date: t.date }
}

/// The day `e` with the description of the task at `index` replaced.
pub open spec fn edited_in_day(e: DayView, index: int, is_done: bool, description: String) -> DayView {
    if is_done {
        (e.0, e.1, e.2.update(index, described(e.2[index], description)))
    } else {
        (e.0, e.1.update(index, described(e.1[index], description)), e.2)
    }
}

/// `v` after the task at `index` of date `d` got a new description.
pub open spec fn edited(v: Seq<DayView>, d: Date, index: int, is_done: bool, description: String) -> Seq<DayView> {
    let i = day_index(v, d);
    v.update(i, edited_in_day(v[i], index, is_done, description))
}

/// Replacing a day by a valid day of the same date keeps a store valid.
pub proof fn lemma_update_day_valid(v: Seq<DayView>, i: int, e: DayView)
    requires
        store_valid(v),
        0 <= i < v.len(),
        e.0 == v[i].0,
        day_valid(e),
    ensures
        store_valid(v.update(i, e)),
{
    let w = v.update(i, e);
    assert forall|j: int| 0 <= j < w.len() implies day_valid(#[trigger] w[j]) by {
        if j != i {
            assert(w[j] == v[j]);
        }
    }
    assert forall|a: int, b: int| 0 <= a < w.len() && 0 <= b < w.len() && w[a].0 == w[b].0 implies a == b by {
        assert(w[a].0 == v[a].0 && w[b].0 == v[b].0);
    }
}

/// Each of the three changes keeps a valid day valid.
pub proof fn lemma_day_changes_valid(e: DayView, index: int, is_done: bool, new_state: TaskState, description: String)
    requires
        day_valid(e),
        0 <= index < (if is_done { e.2.len() } else { e.1.len() }),
        new_state != TaskState::Deleted,
        (new_state == TaskState::Done) == !is_done,
    ensures
        day_valid(moved_in_day(e, index, new_state)),
        day_valid(removed_in_day(e, index, is_done)),
        day_valid(edited_in_day(e, index, is_done, description)),
{
    let m = moved_in_day(e, index, new_state);
    let r = removed_in_day(e, index, is_done);
    let x = edited_in_day(e, index, is_done, description);
    assert forall|k: int| 0 <= k < m.1.len() implies (#[trigger] m.1[k]).state == TaskState::NotDone && m.1[k].date == m.0 by {
        if is_done && k == e.1.len() {
        } else if !is_done && k >= index {
            assert(m.1[k] == e.1[k + 1]);
        } else {
            assert(m.1[k] == e.1[k]);
        }
    }
    assert forall|k: int| 0 <= k < m.2.len() implies (#[trigger] m.2[k]).state == TaskState::Done && m.2[k].date == m.0 by {
        if !is_done && k == e.2.len() {
        } else if is_done && k >= index {
            assert(m.2[k] == e.2[k + 1]);
        } else {
            assert(m.2[k] == e.2[k]);
        }
    }
    assert forall|k: int| 0 <= k < r.1.len() implies (#[trigger] r.1[k]).state == TaskState::NotDone && r.1[k].date == r.0 by {
        if !is_done && k >= index {
            assert(r.1[k] == e.1[k + 1]);
        } else {
            assert(r.1[k] == e.1[k]);
        }
    }
    assert forall|k: int| 0 <= k < r.2.len() implies (#[trigger] r.2[k]).state == TaskState::Done && r.2[k].date == r.0 by {
        if is_done && k >= index {
            assert(r.2[k] == e.2[k + 1]);
        } else {
            assert(r.2[k] == e.2[k]);
        }
    }
    assert forall|k: int| 0 <= k < x.1.len() implies (#[trigger] x.1[k]).state == TaskState::NotDone && x.1[k].date == x.0 by {
        assert(x.1[k].state == e.1[k].state && x.1[k].date == e.1[k].date);
    }
    assert forall|k: int| 0 <= k < x.2.len() implies (#[trigger] x.2[k]).state == TaskState::Done && x.2[k].date == x.0 by {
        assert(x.2[k].state == e.2[k].state && x.2[k].date == e.2[k].date);
    }
}

/// The tasks `ts` moved to day `d`.
pub open spec fn retagged(ts: Seq<Task>, d: Date) -> Seq<Task> {
    ts.map_values(|t: Task| Task { description: t.description, state: t.state, date: d })
}

/// The unfinished tasks of the days of `v` before `today`, day after day in
/// the order of `v`, each moved to `today`.
pub open spec fn carried(v: Seq<DayView>, today: Date) -> Seq<Task>
    decreases v.len(),
{
    if v.len() == 0 {
        Seq::empty()
    } else {
        let e = v.last();
        carried(v.drop_last(), today) + if e.0.before(today) {
            retagged(e.1, today)
        } else {
            Seq::empty()
        }
    }
}

/// `v` with the unfinished lists of the days before `today` emptied.
pub open spec fn cleared(v: Seq<DayView>, today: Date) -> Seq<DayView> {
    v.map_values(|e: DayView| if e.0.before(today) { (e.0, Seq::empty(), e.2) } else { e })
}

/// `v` after `carry_over_tasks` on day `today`: every unfinished task of an
/// earlier day moves to the end of today's unfinished list.
pub open spec fn carried_over(v: Seq<DayView>, today: Date) -> Seq<DayView> {
    let c = carried(v, today);
    if c.len() == 0 {
        cleared(v, today)
    } else {
        append_undone(cleared(v, today), today, c)
    }
}

/// The tasks of the days of `v` that lie outside the archive window of
/// `today`: for each such day in the order of `v`, its unfinished tasks, then
/// its finished ones.
pub open spec fn archived(v: Seq<DayView>, today: Date) -> Seq<Task>
    decreases v.len(),
{
    if v.len() == 0 {
        Seq::empty()
    } else {
        let e = v.last();
        archived(v.drop_last(), today) + if e.0.expired(today) {
            e.1 + e.2
        } else {
            Seq::empty()
        }
    }
}

/// The days of `v` within the archive window of `today`, in their order.
pub open spec fn kept(v: Seq<DayView>, today: Date) -> Seq<DayView>
    decreases v.len(),
{
    if v.len() == 0 {
        Seq::empty()
    } else {
        let e = v.last();
        if e.0.expired(today) {
            kept(v.drop_last(), today)
        } else {
            kept(v.drop_last(), today).push(e)
        }
    }
}

/// Every carried task is unfinished and dated `today`.
pub proof fn lemma_carried_tasks(v: Seq<DayView>, today: Date)
    requires
        forall|i: int| 0 <= i < v.len() ==> day_valid(#[trigger] v[i]),
    ensures
        forall|k: int| 0 <= k < carried(v, today).len() ==> (#[trigger] carried(v, today)[k]).state == TaskState::NotDone
            && carried(v, today)[k].date == today,
    decreases v.len(),
{
    if v.len() > 0 {
        let w = v.drop_last();
        assert forall|i: int| 0 <= i < w.len() implies day_valid(#[trigger] w[i]) by {
            assert(w[i] == v[i]);
        }
        lemma_carried_tasks(w, today);
        assert(day_valid(v[v.len() - 1]));
    }
}

/// Carrying tasks over keeps a store valid.
pub proof fn lemma_carried_valid(v: Seq<DayView>, today: Date)
    requires
        store_valid(v),
    ensures
        store_valid(carried_over(v, today)),
{
    let w = cleared(v, today);
    assert forall|i: int| 0 <= i < w.len() implies day_valid(#[trigger] w[i]) by {
        assert(day_valid(v[i]));
    }
    assert forall|a: int, b: int| 0 <= a < w.len() && 0 <= b < w.len() && w[a].0 == w[b].0 implies a == b by {
        assert(w[a].0 == v[a].0 && w[b].0 == v[b].0);
    }
    lemma_carried_tasks(v, today);
    if carried(v, today).len() > 0 {
        lemma_append_undone_valid(w, today, carried(v, today));
    }
}

/// The days kept by archiving are days of `v`, and they form a valid store.
pub proof fn lemma_kept_valid(v: Seq<DayView>, today: Date)
    requires
        store_valid(v),
    ensures
        store_valid(kept(v, today)),
        forall|k: int| 0 <= k < kept(v, today).len() ==> v.contains(#[trigger] kept(v, today)[k]),
    decreases v.len(),
{
    if v.len() > 0 {
        let w = v.drop_last();
        let e = v.last();
        assert forall|i: int| 0 <= i < w.len() implies day_valid(#[trigger] w[i]) by {
            assert(w[i] == v[i]);
        }
        lemma_kept_valid(w, today);
        let kw = kept(w, today);
        assert forall|k: int| 0 <= k < kw.len() implies v.contains(#[trigger] kw[k]) by {
            let j = choose|j: int| 0 <= j < w.len() && w[j] == kw[k];
            assert(v[j] == kw[k]);
        }
        if !e.0.expired(today) {
            let kv = kept(v, today);
            assert(kv == kw.push(e));
            assert(day_valid(v[v.len() - 1]));
            assert forall|k: int| 0 <= k < kv.len() implies v.contains(#[trigger] kv[k]) by {
                if k == kw.len() {
                    assert(v[v.len() - 1] == kv[k]);
                } else {
                    assert(kv[k] == kw[k]);
                }
            }
            assert forall|i: int| 0 <= i < kv.len() implies day_valid(#[trigger] kv[i]) by {
                if i < kw.len() {
                    assert(kv[i] == kw[i]);
                }
            }
            assert forall|a: int, b: int| 0 <= a < kv.len() && 0 <= b < kv.len() && kv[a].0 == kv[b].0 implies a == b by {
                if a < kw.len() && b == kw.len() {
                    assert(kv[a] == kw[a]);
                    assert(v.contains(kw[a]));
                    let j = choose|j: int| 0 <= j < w.len() && w[j] == kw[a];
                    assert(v[j] == w[j]);
                }
                if b < kw.len() && a == kw.len() {
                    assert(kv[b] == kw[b]);
                    assert(v.contains(kw[b]));
                    let j = choose|j: int| 0 <= j < w.len() && w[j] == kw[b];
                    assert(v[j] == w[j]);
                }
                if a < kw.len() && b < kw.len() {
                    assert(kv[a] == kw[a] && kv[b] == kw[b]);
                }
            }
        }
    }
}

/// A to-do list: a collection of days, each with its own unfinished and
/// finished tasks.
pub struct TodoList {
    days: Vec<(Date, DayTasks)>,
}

impl View for TodoList {
    type V = Seq<DayView>;

    closed spec fn view(&self) -> Seq<DayView> {
        self.days@.map_values(|e: (Date, DayTasks)| (e.0, e.1.undone@, e.1.done@))
    }
}

impl TodoList {
    /// The list keeps its invariant.
    pub open spec fn wf(&self) -> bool {
        store_valid(self@)
    }

    /// An empty list.
    pub fn new() -> (r: TodoList)
        ensures
            r.wf(),
            r@ == Seq::<DayView>::empty(),
    {
        let r = TodoList { days: Vec::new() };
        assert(r@ =~= Seq::<DayView>::empty());
        r
    }

    /// The position of the day with date `date`, if there is one.
    fn find_day(&self, date: Date) -> (r: Option<usize>)
        requires
            self.wf(),
        ensures
            r.is_none() ==> !has_day(self@, date),
            r.is_some() ==> r.unwrap() < self@.len() && has_day(self@, date) && day_index(self@, date) == r.unwrap(),
    {
        let mut i: usize = 0;
        while i < self.days.len()
            invariant
                i <= self.days@.len(),
                self@.len() == self.days@.len(),
                self.wf(),
                forall|k: int| 0 <= k < i ==> self@[k].0 != date,
            decreases self.days@.len() - i,
        {
            if self.days[i].0 == date {
                proof {
                    lemma_day_index(self@, date, i as int);
                }
                return Some(i);
            }
            i = i + 1;
        }
        None
    }

    /// Appends a new unfinished task for `date`: it gets the next index of
    /// that date's unfinished list.
    pub fn add_task(&mut self, description: String, date: Date)
        requires
            old(self).wf(),
        ensures
            final(self).wf(),
            final(self)@ == added(old(self)@, description, date),
    {
        let ghost v = self@;
        let task = Task::new(description, date);
        let ghost ts = seq![task];
        match self.find_day(date) {
            Some(i) => {
                self.days[i].1.undone.push(task);
                assert(v[i as int].1.push(task) =~= v[i as int].1 + ts);
                assert(self@ =~= v.update(i as int, (date, v[i as int].1 + ts, v[i as int].2)));
            },
            None => {
                let mut day = DayTasks::new();
                day.undone.push(task);
                self.days.push((date, day));
                assert(self@ =~= v.push((date, ts, Seq::empty())));
            },
        }
        proof {
            lemma_append_undone_valid(v, date, ts);
        }
    }

    /// The unfinished and the finished tasks of `date`, both empty when the
    /// list holds nothing for that date.
    pub fn get_tasks_for_date(&self, date: Date) -> (r: (&[Task], &[Task]))
        requires
            self.wf(),
        ensures
            r.0@ == undone_on(self@, date),
            r.1@ == done_on(self@, date),
    {
        match self.find_day(date) {
            Some(i) => (self.days[i].1.undone.as_slice(), self.days[i].1.done.as_slice()),
            None => (&[], &[]),
        }
    }

    /// Moves the task at `index` of `date` to the other list and gives it
    /// `new_state`: to `Done` from the unfinished list, to `NotDone` from the
    /// finished one. It is appended at the end of its new list, and the tasks
    /// after it in its old list move down by one. Returns its description.
    pub fn change_task_state(&mut self, date: Date, index: usize, new_state: TaskState) -> (r: Result<String, TodoError>)
        requires
            old(self).wf(),
        ensures
            final(self).wf(),
            change_state_outcome(old(self)@, final(self)@, date, index as int, new_state, r),
    {
        let ghost v = self@;
        let i = match self.find_day(date) {
            Some(i) => i,
            None => return Err(TodoError::NoTasksForDate),
        };
        let from_done = match new_state {
            TaskState::Done => false,
            TaskState::NotDone => true,
            TaskState::Deleted => return Err(TodoError::InvalidOperation),
        };
        let len = if from_done { self.days[i].1.done.len() } else { self.days[i].1.undone.len() };
        if index >= len {
            return Err(TodoError::InvalidIndex);
        }
        let day = &mut self.days[i].1;
        let description = if from_done {
            let mut task = day.done.remove(index);
            let description = task.description.clone();
            task.change_state(new_state);
            day.undone.push(task);
            description
        } else {
            let mut task = day.undone.remove(index);
            let description = task.description.clone();
            task.change_state(new_state);
            day.done.push(task);
            description
        };
        proof {
            let e = moved_in_day(v[i as int], index as int, new_state);
            assert(self@ =~= v.update(i as int, e));
            lemma_day_changes_valid(v[i as int], index as int, from_done, new_state, description);
            lemma_update_day_valid(v, i as int, e);
        }
        Ok(description)
    }

    /// Removes the task at `index` of the finished (`is_done`) or unfinished
    /// list of `date`; the tasks after it move down by one. Returns its
    /// description.
    pub fn delete_task(&mut self, date: Date, index: usize, is_done: bool) -> (r: Result<String, TodoError>)
        requires
            old(self).wf(),
        ensures
            final(self).wf(),
            delete_outcome(old(self)@, final(self)@, date, index as int, is_done, r),
    {
        let ghost v = self@;
        let i = match self.find_day(date) {
            Some(i) => i,
            None => return Err(TodoError::NoTasksForDate),
        };
        let len = if is_done { self.days[i].1.done.len() } else { self.days[i].1.undone.len() };
        if index >= len {
            return Err(TodoError::InvalidIndex);
        }
        let day = &mut self.days[i].1;
        let task = if is_done { day.done.remove(index) } else { day.undone.remove(index) };
        proof {
            let e = removed_in_day(v[i as int], index as int, is_done);
            assert(self@ =~= v.update(i as int, e));
            let st = if is_done { TaskState::NotDone } else { TaskState::Done };
            lemma_day_changes_valid(v[i as int], index as int, is_done, st, task.description);
            lemma_update_day_valid(v, i as int, e);
        }
        Ok(task.description)
    }

    /// Replaces the description of the task at `index` of the finished
    /// (`is_done`) or unfinished list of `date`, in place. Returns the old
    /// description.
    pub fn edit_task(&mut self, date: Date, index: usize, is_done: bool, new_description: String) -> (r: Result<String, TodoError>)
        requires
            old(self).wf(),
        ensures
            final(self).wf(),
            edit_outcome(old(self)@, final(self)@, date, index as int, is_done, new_description, r),
    {
        let ghost v = self@;
        let ghost nd = new_description;
        let i = match self.find_day(date) {
            Some(i) => i,
            None => return Err(TodoError::NoTasksForDate),
        };
        let len = if is_done { self.days[i].1.done.len() } else { self.days[i].1.undone.len() };
        if index >= len {
            return Err(TodoError::InvalidIndex);
        }
        let day = &mut self.days[i].1;
        let list = if is_done { &mut day.done } else { &mut day.undone };
        let mut description = new_description;
        std::mem::swap(&mut list[index].description, &mut description);
        proof {
            let e = edited_in_day(v[i as int], index as int, is_done, nd);
            assert(self@ =~= v.update(i as int, e));
            let st = if is_done { TaskState::NotDone } else { TaskState::Done };
            lemma_day_changes_valid(v[i as int], index as int, is_done, st, nd);
            lemma_update_day_valid(v, i as int, e);
        }
        Ok(description)
    }

    /// Moves every unfinished task of a day before `today` to the end of
    /// today's unfinished list, with `today` as its date, day after day in the
    /// order the list keeps its days. Finished tasks stay where they are.
    pub fn carry_over_tasks_to(&mut self, today: Date)
        requires
            old(self).wf(),
        ensures
            final(self).wf(),
            final(self)@ == carried_over(old(self)@, today),
    {
        let ghost v = self@;
        let mut moved: Vec<Task> = Vec::new();
        let mut i: usize = 0;
        while i < self.days.len()
            invariant
                i <= self.days@.len(),
                self.days@.len() == v.len(),
                store_valid(v),
                forall|k: int| 0 <= k < i ==> #[trigger] self@[k] == cleared(v, today)[k],
                forall|k: int| i <= k < v.len() ==> #[trigger] self@[k] == v[k],
                moved@ == carried(v.take(i as int), today),
            decreases self.days@.len() - i,
        {
            let ghost s0 = self@;
            proof {
                assert(v.take(i + 1).drop_last() =~= v.take(i as int));
                assert(s0[i as int] == v[i as int]);
            }
            if self.days[i].0.is_before(&today) {
                let mut taken: Vec<Task> = Vec::new();
                std::mem::swap(&mut self.days[i].1.undone, &mut taken);
                assert(self@ =~= s0.update(i as int, cleared(v, today)[i as int]));
                let ghost taken0 = taken@;
                let mut j: usize = 0;
                while j < taken.len()
                    invariant
                        j <= taken@.len(),
                        taken@.len() == taken0.len(),
                        forall|k: int| 0 <= k < j ==> #[trigger] taken@[k] == retagged(taken0, today)[k],
                        forall|k: int| j <= k < taken@.len() ==> #[trigger] taken@[k] == taken0[k],
                    decreases taken@.len() - j,
                {
                    taken[j].date = today;
                    j = j + 1;
                }
                assert(taken@ =~= retagged(taken0, today));
                moved.append(&mut taken);
            } else {
                assert(cleared(v, today)[i as int] == v[i as int]);
            }
            i = i + 1;
        }
        assert(v.take(v.len() as int) =~= v);
        let ghost w = self@;
        assert(w =~= cleared(v, today));
        proof {
            lemma_carried_tasks(v, today);
        }
        if moved.len() > 0 {
            self.append_to_undone(today, moved);
        }
        proof {
            lemma_carried_valid(v, today);
        }
    }

    /// Appends `ts` to the unfinished tasks of `date`, adding the day at the
    /// end when it is missing.
    fn append_to_undone(&mut self, date: Date, ts: Vec<Task>)
        requires
            old(self).wf(),
            forall|k: int| 0 <= k < ts@.len() ==> (#[trigger] ts@[k]).state == TaskState::NotDone && ts@[k].date == date,
        ensures
            final(self).wf(),
            final(self)@ == append_undone(old(self)@, date, ts@),
    {
        let ghost v = self@;
        let mut ts = ts;
        let ghost ts0 = ts@;
        match self.find_day(date) {
            Some(i) => {
                self.days[i].1.undone.append(&mut ts);
                assert(self@ =~= v.update(i as int, (date, v[i as int].1 + ts0, v[i as int].2)));
            },
            None => {
                self.days.push((date, DayTasks { undone: ts, done: Vec::new() }));
                assert(self@ =~= v.push((date, ts0, Seq::empty())));
            },
        }
        proof {
            lemma_append_undone_valid(v, date, ts0);
        }
    }

    /// Removes every day that lies strictly more than the archive window
    /// before `today`, and returns its tasks: for each such day in the order
    /// the list keeps its days, its unfinished tasks, then its finished ones.
    pub fn archive_old_tasks_at(&mut self, today: Date) -> (r: Vec<Task>)
        requires
            old(self).wf(),
        ensures
            final(self).wf(),
            final(self)@ == kept(old(self)@, today),
            r@ == archived(old(self)@, today),
    {
        let ghost v = self@;
        let mut old_days: Vec<(Date, DayTasks)> = Vec::new();
        std::mem::swap(&mut self.days, &mut old_days);
        let ghost od = old_days@;
        let mut out: Vec<Task> = Vec::new();
        let mut i: usize = 0;
        while i < old_days.len()
            invariant
                i <= old_days@.len(),
                old_days@.len() == od.len(),
                v == od.map_values(|e: (Date, DayTasks)| (e.0, e.1.undone@, e.1.done@)),
                forall|k: int| i <= k < od.len() ==> #[trigger] old_days@[k] == od[k],
                self@ == kept(v.take(i as int), today),
                out@ == archived(v.take(i as int), today),
            decreases old_days@.len() - i,
        {
            proof {
                assert(v.take(i + 1).drop_last() =~= v.take(i as int));
            }
            let mut day: (Date, DayTasks) = (today, DayTasks::new());
            std::mem::swap(&mut old_days[i], &mut day);
            let (date, mut tasks) = day;
            if date.is_expired(&today) {
                let ghost u = tasks.undone@;
                let ghost d0 = tasks.done@;
                let ghost o0 = out@;
                out.append(&mut tasks.undone);
                out.append(&mut tasks.done);
                proof {
                    assert(v[i as int] == (date, u, d0));
                    assert(v.take(i + 1).last() == v[i as int]);
                    assert(out@ =~= o0 + (u + d0));
                }
            } else {
                let ghost s0 = self@;
                assert(v.take(i + 1).last() == v[i as int]);
                self.days.push((date, tasks));
                assert(self@ =~= s0.push(v[i as int]));
            }
            i = i + 1;
        }
        assert(v.take(v.len() as int) =~= v);
        proof {
            lemma_kept_valid(v, today);
        }
        out
    }

    /// `carry_over_tasks_to` on the local calendar day at the time of the call.
    pub fn carry_over_tasks(&mut self)
        requires
            old(self).wf(),
        ensures
            final(self).wf(),
            exists|t: Date| final(self)@ == carried_over(old(self)@, t),
    {
        let t = today();
        self.carry_over_tasks_to(t);
    }

    /// `archive_old_tasks_at` on the local calendar day at the time of the call.
    pub fn archive_old_tasks(&mut self) -> (r: Vec<Task>)
        requires
            old(self).wf(),
        ensures
            final(self).wf(),
            exists|t: Date| final(self)@ == kept(old(self)@, t) && r@ == archived(old(self)@, t),
    {
        let t = today();
        self.archive_old_tasks_at(t)
    }

    /// The dates the list keeps days for, in its order.
    pub fn dates(&self) -> (r: Vec<Date>)
        ensures
            r@ == self@.map_values(|e: DayView| e.0),
    {
        let mut r: Vec<Date> = Vec::new();
        let mut i: usize = 0;
        while i < self.days.len()
            invariant
                i <= self.days@.len(),
                self@.len() == self.days@.len(),
                r@ == self@.take(i as int).map_values(|e: DayView| e.0),
            decreases self.days@.len() - i,
        {
            r.push(self.days[i].0);
            i = i + 1;
            assert(r@ =~= self@.take(i as int).map_values(|e: DayView| e.0));
        }
        assert(self@.take(i as int) =~= self@);
        r
    }
}

} // verus!
