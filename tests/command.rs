use todo_list::command::{
    handle_delete_command, handle_edit_command, handle_mark_command, join_words, parse_index, section_of, Reply,
};
use todo_list::{Date, TaskState, TodoError, TodoList};

fn words(line: &str) -> Vec<String> {
    line.split_whitespace().map(|s| s.to_string()).collect()
}

fn list_with(date: Date, descriptions: &[&str]) -> TodoList {
    let mut list = TodoList::new();
    for d in descriptions {
        list.add_task(d.to_string(), date);
    }
    list
}

#[test]
fn parse_index_accepts_digits() {
    assert_eq!(parse_index(&"0".to_string()), Some(0));
    assert_eq!(parse_index(&"42".to_string()), Some(42));
    assert_eq!(parse_index(&"+7".to_string()), Some(7));
    assert_eq!(parse_index(&"007".to_string()), Some(7));
    assert_eq!(parse_index(&usize::MAX.to_string()), Some(usize::MAX));
}

#[test]
fn parse_index_refuses_other_words() {
    for w in ["", "+", "-1", "1a", "a", "++1", " 1", "18446744073709551616", "99999999999999999999999"] {
        assert_eq!(parse_index(&w.to_string()), w.parse::<usize>().ok(), "{}", w);
        assert_eq!(parse_index(&w.to_string()), None, "{}", w);
    }
}

#[test]
fn section_words() {
    assert_eq!(section_of(&"done".to_string()), Some(true));
    assert_eq!(section_of(&"undone".to_string()), Some(false));
    assert_eq!(section_of(&"Done".to_string()), None);
    assert_eq!(section_of(&"".to_string()), None);
}

#[test]
fn join_words_from_position() {
    let w = words("edit undone 0 new text here");
    assert_eq!(join_words(&w, 3), "new text here");
    assert_eq!(join_words(&w, 5), "here");
    assert_eq!(join_words(&w, 6), "");
}

#[test]
fn mark_command_outcomes() {
    let d = Date::from_days(738886);
    let mut list = list_with(d, &["buy milk", "call bob"]);
    assert_eq!(handle_mark_command(&mut list, &words("mark done"), d), Reply::MarkUsage);
    assert_eq!(handle_mark_command(&mut list, &words("mark later x"), d), Reply::InvalidIndexWord);
    assert_eq!(handle_mark_command(&mut list, &words("mark later 0"), d), Reply::InvalidAction);
    assert_eq!(
        handle_mark_command(&mut list, &words("mark done 0"), d),
        Reply::Marked { index: 0, description: "buy milk".to_string(), new_state: TaskState::Done }
    );
    assert_eq!(
        handle_mark_command(&mut list, &words("mark undone 3"), d),
        Reply::Failed(TodoError::InvalidIndex)
    );
    assert_eq!(
        handle_mark_command(&mut list, &words("mark undone 0"), Date::from_days(1)),
        Reply::Failed(TodoError::NoTasksForDate)
    );
    let (undone, done) = list.get_tasks_for_date(d);
    assert_eq!(undone.len(), 1);
    assert_eq!(done[0].description, "buy milk");
}

#[test]
fn delete_command_outcomes() {
    let d = Date::from_days(738886);
    let mut list = list_with(d, &["a", "b"]);
    assert_eq!(handle_delete_command(&mut list, &words("delete 0"), d), Reply::DeleteUsage);
    assert_eq!(handle_delete_command(&mut list, &words("delete both 0"), d), Reply::InvalidSection);
    assert_eq!(handle_delete_command(&mut list, &words("delete undone x"), d), Reply::InvalidIndexWord);
    assert_eq!(
        handle_delete_command(&mut list, &words("delete undone 1"), d),
        Reply::Deleted { index: 1, description: "b".to_string() }
    );
    assert_eq!(handle_delete_command(&mut list, &words("delete done 0"), d), Reply::Failed(TodoError::InvalidIndex));
    assert_eq!(list.get_tasks_for_date(d).0.len(), 1);
}

#[test]
fn edit_command_outcomes() {
    let d = Date::from_days(738886);
    let mut list = list_with(d, &["a", "b"]);
    assert_eq!(handle_edit_command(&mut list, &words("edit undone 0"), d), Reply::EditUsage);
    assert_eq!(handle_edit_command(&mut list, &words("edit any 0 x"), d), Reply::InvalidSection);
    assert_eq!(handle_edit_command(&mut list, &words("edit undone -1 x"), d), Reply::InvalidIndexWord);
    assert_eq!(
        handle_edit_command(&mut list, &words("edit undone 5 new text"), d),
        Reply::Failed(TodoError::InvalidIndex)
    );
    assert_eq!(
        handle_edit_command(&mut list, &words("edit undone 1 new   text"), d),
        Reply::Edited { index: 1, old_description: "b".to_string(), new_description: "new text".to_string() }
    );
    assert_eq!(list.get_tasks_for_date(d).0[1].description, "new text");
}
