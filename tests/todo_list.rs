use chrono::{Datelike, Local, NaiveDate};
use todo_list::{Date, Task, TaskState, TodoError, TodoList};

fn day(y: i32, m: u32, d: u32) -> Date {
    Date::from_days(NaiveDate::from_ymd_opt(y, m, d).unwrap().num_days_from_ce())
}

fn descriptions(ts: &[Task]) -> Vec<String> {
    ts.iter().map(|t| t.description.clone()).collect()
}

fn local_today() -> Date {
    Date::from_days(Local::now().date_naive().num_days_from_ce())
}

#[test]
fn new_list_is_empty() {
    let list = TodoList::new();
    let (undone, done) = list.get_tasks_for_date(day(2024, 1, 1));
    assert!(undone.is_empty());
    assert!(done.is_empty());
    assert!(list.dates().is_empty());
}

#[test]
fn add_appends_at_previous_length() {
    let mut list = TodoList::new();
    let d = day(2024, 3, 5);
    list.add_task("a".to_string(), d);
    list.add_task("b".to_string(), d);
    let before = list.get_tasks_for_date(d).0.len();
    list.add_task("c".to_string(), d);
    let (undone, done) = list.get_tasks_for_date(d);
    assert_eq!(undone.len(), before + 1);
    assert_eq!(undone[before].description, "c");
    assert_eq!(undone[before].state, TaskState::NotDone);
    assert_eq!(undone[before].date, d);
    assert!(done.is_empty());
    assert!(list.get_tasks_for_date(day(2024, 3, 6)).0.is_empty());
}

#[test]
fn mark_done_scenario() {
    let mut list = TodoList::new();
    let d = day(2024, 1, 1);
    list.add_task("buy milk".to_string(), d);
    list.add_task("call bob".to_string(), d);
    assert_eq!(list.change_task_state(d, 0, TaskState::Done), Ok("buy milk".to_string()));
    let (undone, done) = list.get_tasks_for_date(d);
    assert_eq!(descriptions(undone), vec!["call bob".to_string()]);
    assert_eq!(descriptions(done), vec!["buy milk".to_string()]);
    assert_eq!(done[0].state, TaskState::Done);
}

#[test]
fn done_then_undone_round_trip() {
    let mut list = TodoList::new();
    let d = day(2024, 2, 10);
    list.add_task("x".to_string(), d);
    list.add_task("y".to_string(), d);
    list.add_task("z".to_string(), d);
    assert_eq!(list.change_task_state(d, 1, TaskState::Done), Ok("y".to_string()));
    let j = list.get_tasks_for_date(d).1.len() - 1;
    assert_eq!(list.change_task_state(d, j, TaskState::NotDone), Ok("y".to_string()));
    let (undone, done) = list.get_tasks_for_date(d);
    assert_eq!(descriptions(undone), vec!["x".to_string(), "z".to_string(), "y".to_string()]);
    assert_eq!(undone[2].state, TaskState::NotDone);
    assert!(done.is_empty());
}

#[test]
fn change_state_errors() {
    let mut list = TodoList::new();
    let d = day(2024, 1, 1);
    assert_eq!(list.change_task_state(d, 0, TaskState::Done), Err(TodoError::NoTasksForDate));
    list.add_task("a".to_string(), d);
    assert_eq!(list.change_task_state(d, 0, TaskState::Deleted), Err(TodoError::InvalidOperation));
    assert_eq!(list.change_task_state(d, 1, TaskState::Done), Err(TodoError::InvalidIndex));
    assert_eq!(list.change_task_state(d, 0, TaskState::NotDone), Err(TodoError::InvalidIndex));
    assert_eq!(descriptions(list.get_tasks_for_date(d).0), vec!["a".to_string()]);
}

#[test]
fn delete_without_day_fails() {
    let mut list = TodoList::new();
    assert_eq!(list.delete_task(day(2024, 1, 1), 0, false), Err(TodoError::NoTasksForDate));
}

#[test]
fn delete_twice_removes_two_tasks() {
    let mut list = TodoList::new();
    let d = day(2024, 1, 2);
    list.add_task("first".to_string(), d);
    list.add_task("second".to_string(), d);
    assert_eq!(list.delete_task(d, 0, false), Ok("first".to_string()));
    assert_eq!(list.delete_task(d, 0, false), Ok("second".to_string()));
    assert_eq!(list.delete_task(d, 0, false), Err(TodoError::InvalidIndex));
}

#[test]
fn delete_twice_last_index_fails() {
    let mut list = TodoList::new();
    let d = day(2024, 1, 2);
    list.add_task("only".to_string(), d);
    list.add_task("last".to_string(), d);
    assert_eq!(list.delete_task(d, 1, false), Ok("last".to_string()));
    assert_eq!(list.delete_task(d, 1, false), Err(TodoError::InvalidIndex));
    assert_eq!(descriptions(list.get_tasks_for_date(d).0), vec!["only".to_string()]);
}

#[test]
fn delete_from_done_list() {
    let mut list = TodoList::new();
    let d = day(2024, 1, 2);
    list.add_task("a".to_string(), d);
    list.add_task("b".to_string(), d);
    list.change_task_state(d, 0, TaskState::Done).unwrap();
    assert_eq!(list.delete_task(d, 1, true), Err(TodoError::InvalidIndex));
    assert_eq!(list.delete_task(d, 0, true), Ok("a".to_string()));
    let (undone, done) = list.get_tasks_for_date(d);
    assert_eq!(descriptions(undone), vec!["b".to_string()]);
    assert!(done.is_empty());
}

#[test]
fn edit_out_of_range_fails() {
    let mut list = TodoList::new();
    let d = day(2024, 4, 1);
    list.add_task("a".to_string(), d);
    list.add_task("b".to_string(), d);
    assert_eq!(list.edit_task(d, 5, false, "new text".to_string()), Err(TodoError::InvalidIndex));
    assert_eq!(descriptions(list.get_tasks_for_date(d).0), vec!["a".to_string(), "b".to_string()]);
}

#[test]
fn edit_replaces_in_place() {
    let mut list = TodoList::new();
    let d = day(2024, 4, 1);
    list.add_task("a".to_string(), d);
    list.add_task("b".to_string(), d);
    list.change_task_state(d, 1, TaskState::Done).unwrap();
    assert_eq!(list.edit_task(d, 0, false, "A".to_string()), Ok("a".to_string()));
    assert_eq!(list.edit_task(d, 0, true, "B".to_string()), Ok("b".to_string()));
    let (undone, done) = list.get_tasks_for_date(d);
    assert_eq!(descriptions(undone), vec!["A".to_string()]);
    assert_eq!(descriptions(done), vec!["B".to_string()]);
    assert_eq!(done[0].state, TaskState::Done);
    assert_eq!(list.edit_task(day(2024, 4, 2), 0, false, "c".to_string()), Err(TodoError::NoTasksForDate));
}

#[test]
fn carry_over_moves_all_past_undone() {
    let mut list = TodoList::new();
    let today = day(2024, 5, 10);
    list.add_task("old".to_string(), day(2024, 5, 1));
    list.add_task("finished".to_string(), day(2024, 5, 1));
    list.change_task_state(day(2024, 5, 1), 1, TaskState::Done).unwrap();
    list.add_task("yesterday".to_string(), day(2024, 5, 9));
    list.add_task("today".to_string(), today);
    list.add_task("future".to_string(), day(2024, 5, 11));
    list.carry_over_tasks_to(today);
    let (undone, done) = list.get_tasks_for_date(today);
    assert_eq!(
        descriptions(undone),
        vec!["today".to_string(), "old".to_string(), "yesterday".to_string()]
    );
    assert!(undone.iter().all(|t| t.date == today && t.state == TaskState::NotDone));
    assert!(done.is_empty());
    assert!(list.get_tasks_for_date(day(2024, 5, 1)).0.is_empty());
    assert_eq!(descriptions(list.get_tasks_for_date(day(2024, 5, 1)).1), vec!["finished".to_string()]);
    assert!(list.get_tasks_for_date(day(2024, 5, 9)).0.is_empty());
    assert_eq!(descriptions(list.get_tasks_for_date(day(2024, 5, 11)).0), vec!["future".to_string()]);
}

#[test]
fn carry_over_creates_today() {
    let mut list = TodoList::new();
    let today = day(2024, 5, 10);
    list.add_task("late".to_string(), day(2023, 12, 31));
    list.carry_over_tasks_to(today);
    assert_eq!(descriptions(list.get_tasks_for_date(today).0), vec!["late".to_string()]);
    assert_eq!(list.get_tasks_for_date(today).0[0].date, today);
}

#[test]
fn carry_over_with_clock() {
    let mut list = TodoList::new();
    list.add_task("ancient".to_string(), day(2000, 1, 1));
    list.carry_over_tasks();
    assert!(list.get_tasks_for_date(day(2000, 1, 1)).0.is_empty());
    let t = local_today();
    let (undone, _) = list.get_tasks_for_date(t);
    assert_eq!(descriptions(undone), vec!["ancient".to_string()]);
}

#[test]
fn archive_window_is_exclusive() {
    let mut list = TodoList::new();
    let today = day(2024, 6, 20);
    list.add_task("finished".to_string(), day(2024, 6, 12));
    list.add_task("stale".to_string(), day(2024, 6, 12));
    list.change_task_state(day(2024, 6, 12), 0, TaskState::Done).unwrap();
    list.add_task("seven days".to_string(), day(2024, 6, 13));
    list.add_task("long ago".to_string(), day(2024, 1, 1));
    let archived = list.archive_old_tasks_at(today);
    assert_eq!(
        descriptions(&archived),
        vec!["stale".to_string(), "finished".to_string(), "long ago".to_string()]
    );
    assert_eq!(archived[1].state, TaskState::Done);
    assert_eq!(list.dates(), vec![day(2024, 6, 13)]);
    assert_eq!(descriptions(list.get_tasks_for_date(day(2024, 6, 13)).0), vec!["seven days".to_string()]);
    assert_eq!(list.delete_task(day(2024, 6, 12), 0, false), Err(TodoError::NoTasksForDate));
}

#[test]
fn archive_count_matches_removed_days() {
    let mut list = TodoList::new();
    let today = day(2024, 6, 20);
    for i in 0..3 {
        list.add_task(format!("a{}", i), day(2024, 5, 1));
    }
    list.change_task_state(day(2024, 5, 1), 2, TaskState::Done).unwrap();
    list.add_task("b".to_string(), day(2024, 5, 2));
    list.add_task("recent".to_string(), day(2024, 6, 19));
    let archived = list.archive_old_tasks_at(today);
    assert_eq!(archived.len(), 4);
    assert_eq!(list.dates(), vec![day(2024, 6, 19)]);
}

#[test]
fn archive_nothing_old() {
    let mut list = TodoList::new();
    let today = day(2024, 6, 20);
    list.add_task("now".to_string(), today);
    assert!(list.archive_old_tasks_at(today).is_empty());
    assert_eq!(list.dates(), vec![today]);
}

#[test]
fn archive_with_clock() {
    let mut list = TodoList::new();
    list.add_task("ancient".to_string(), day(2000, 1, 1));
    list.add_task("now".to_string(), local_today());
    let archived = list.archive_old_tasks();
    assert_eq!(descriptions(&archived), vec!["ancient".to_string()]);
    assert_eq!(list.dates(), vec![local_today()]);
}

#[test]
fn dates_in_order_of_first_use() {
    let mut list = TodoList::new();
    list.add_task("a".to_string(), day(2024, 1, 3));
    list.add_task("b".to_string(), day(2024, 1, 1));
    list.add_task("c".to_string(), day(2024, 1, 3));
    assert_eq!(list.dates(), vec![day(2024, 1, 3), day(2024, 1, 1)]);
}

#[test]
fn error_messages() {
    assert_eq!(TodoError::InvalidIndex.message(), "Invalid task index");
    assert_eq!(TodoError::NoTasksForDate.message(), "No tasks for the specified date");
    assert_eq!(TodoError::InvalidOperation.message(), "Use delete_task to remove a task");
}

#[test]
fn date_comparisons() {
    let a = Date::from_days(100);
    let b = Date::from_days(108);
    assert!(a.is_before(&b));
    assert!(!b.is_before(&a));
    assert!(a.is_expired(&b));
    assert!(!Date::from_days(101).is_expired(&b));
    assert!(!Date::from_days(i32::MIN).is_before(&Date::from_days(i32::MIN)));
    assert!(Date::from_days(i32::MIN).is_expired(&Date::from_days(i32::MIN + 8)));
    assert!(!Date::from_days(i32::MAX).is_expired(&Date::from_days(i32::MIN)));
}

#[test]
fn task_new_and_change_state() {
    let mut t = Task::new("t".to_string(), day(2024, 1, 1));
    assert_eq!(t.state, TaskState::NotDone);
    t.change_state(TaskState::Done);
    assert_eq!(t.state, TaskState::Done);
    assert_eq!(t.description, "t");
    assert_eq!(t.date, day(2024, 1, 1));
}
