use todo::{TodoError, TodoItem, TodoList, TodoPriority, TodoStatus};
use todo::engine::{execute, Command};

fn item(title: &str, priority: TodoPriority, status: TodoStatus) -> TodoItem {
    TodoItem { title: String::from(title), priority, status }
}

fn setup() -> TodoList {
    let list: Vec<TodoItem> = vec![
        item("task1", TodoPriority::High, TodoStatus::Pending),
        item("task2", TodoPriority::Low, TodoStatus::Done),
        item("task3", TodoPriority::Low, TodoStatus::Pending),
        item("task4", TodoPriority::Medium, TodoStatus::Pending),
        item("task5", TodoPriority::Medium, TodoStatus::Done),
    ];

    TodoList { list }
}

#[test]
fn add_item() {
    let mut todo_list = setup();

    let before_len = todo_list.list.len();

    assert_eq!(
        todo_list
            .add_item(String::from("test task"), String::from("medi"))
            .unwrap_err(),
        TodoError::InvalidPriority
    );

    todo_list
        .add_item(String::from("test task"), String::from("med"))
        .unwrap();

    let after_len = todo_list.list.len();
    assert_eq!(after_len, before_len + 1);
    assert_eq!(todo_list.list[after_len - 1].status, TodoStatus::Pending);
}

#[test]
fn mark_item_as_done() {
    let mut todo_list = setup();

    let before_len: i32 = todo_list.list.len() as i32;

    assert_eq!(
        todo_list.mark_as_done(before_len + 1).unwrap_err(),
        TodoError::NotFoundError
    );

    todo_list.mark_as_done(1).unwrap();

    assert_eq!(todo_list.list[0].status, TodoStatus::Done);

    assert_eq!(
        todo_list.mark_as_done(1).unwrap_err(),
        TodoError::AlreadyDoneError
    );
}

#[test]
fn all_valid_priority_spellings() {
    let cases = [
        ("high", TodoPriority::High),
        ("High", TodoPriority::High),
        ("HIGH", TodoPriority::High),
        ("med", TodoPriority::Medium),
        ("medium", TodoPriority::Medium),
        ("Medium", TodoPriority::Medium),
        ("low", TodoPriority::Low),
        ("Low", TodoPriority::Low),
    ];
    for (spelling, expected) in cases {
        let mut todo_list = TodoList { list: vec![] };
        todo_list
            .add_item(String::from("a task"), String::from(spelling))
            .unwrap();
        assert_eq!(todo_list.list.len(), 1);
        assert_eq!(todo_list.list[0].priority, expected);
        assert_eq!(todo_list.list[0].status, TodoStatus::Pending);
    }
}

#[test]
fn unrecognized_priority_leaves_list_unchanged() {
    let mut todo_list = setup();
    let before = setup();
    let r = todo_list.add_item(String::from("nope"), String::from("urgent"));
    assert_eq!(r.unwrap_err(), TodoError::InvalidPriority);
    assert_eq!(todo_list, before);
}

#[test]
fn mark_as_done_bad_ids() {
    let mut todo_list = setup();
    let before = setup();
    assert_eq!(todo_list.mark_as_done(0).unwrap_err(), TodoError::NotFoundError);
    assert_eq!(todo_list.mark_as_done(-3).unwrap_err(), TodoError::NotFoundError);
    assert_eq!(todo_list.mark_as_done(6).unwrap_err(), TodoError::NotFoundError);
    assert_eq!(todo_list, before);
    // a redundant mark-done is reported and changes nothing
    assert_eq!(todo_list.mark_as_done(2).unwrap_err(), TodoError::AlreadyDoneError);
    assert_eq!(todo_list, before);
}

#[test]
fn remove_renumbers_later_tasks() {
    let mut todo_list = TodoList {
        list: vec![
            item("first", TodoPriority::High, TodoStatus::Pending),
            item("second", TodoPriority::Medium, TodoStatus::Pending),
            item("third", TodoPriority::Low, TodoStatus::Pending),
        ],
    };
    todo_list.remove_item(2).unwrap();
    assert_eq!(todo_list.list.len(), 2);
    // the former task 3 is now addressable as id 2
    assert_eq!(todo_list.list[1].title, "third");
    todo_list.mark_as_done(2).unwrap();
    assert_eq!(todo_list.list[1].status, TodoStatus::Done);
}

#[test]
fn remove_bad_ids() {
    let mut todo_list = setup();
    let before = setup();
    assert_eq!(todo_list.remove_item(0).unwrap_err(), TodoError::NotFoundError);
    assert_eq!(todo_list.remove_item(99).unwrap_err(), TodoError::NotFoundError);
    assert_eq!(todo_list, before);
}

#[test]
fn clear_done_keeps_pending_in_order() {
    let mut todo_list = TodoList {
        list: vec![
            item("A", TodoPriority::High, TodoStatus::Pending),
            item("B", TodoPriority::High, TodoStatus::Done),
            item("C", TodoPriority::Low, TodoStatus::Pending),
            item("D", TodoPriority::Low, TodoStatus::Done),
        ],
    };
    todo_list.clear_done_items();
    let expected = TodoList {
        list: vec![
            item("A", TodoPriority::High, TodoStatus::Pending),
            item("C", TodoPriority::Low, TodoStatus::Pending),
        ],
    };
    assert_eq!(todo_list, expected);
}

#[test]
fn clear_done_on_empty_and_all_pending() {
    let mut empty = TodoList { list: vec![] };
    empty.clear_done_items();
    assert_eq!(empty.list.len(), 0);

    let mut pending = TodoList {
        list: vec![
            item("A", TodoPriority::High, TodoStatus::Pending),
            item("B", TodoPriority::Low, TodoStatus::Pending),
        ],
    };
    let before = TodoList {
        list: vec![
            item("A", TodoPriority::High, TodoStatus::Pending),
            item("B", TodoPriority::Low, TodoStatus::Pending),
        ],
    };
    pending.clear_done_items();
    assert_eq!(pending, before);
}

#[test]
fn sort_by_priority_is_stable() {
    let mut todo_list = TodoList {
        list: vec![
            item("A", TodoPriority::Low, TodoStatus::Pending),
            item("B", TodoPriority::High, TodoStatus::Pending),
            item("C", TodoPriority::Low, TodoStatus::Pending),
            item("D", TodoPriority::Medium, TodoStatus::Pending),
        ],
    };
    todo_list.sort(String::from("priority")).unwrap();
    let titles: Vec<&str> = todo_list.list.iter().map(|t| t.title.as_str()).collect();
    assert_eq!(titles, vec!["B", "D", "A", "C"]);
}

#[test]
fn sort_by_status_is_stable() {
    let mut todo_list = TodoList {
        list: vec![
            item("A", TodoPriority::Low, TodoStatus::Done),
            item("B", TodoPriority::Low, TodoStatus::Pending),
            item("C", TodoPriority::Low, TodoStatus::Done),
            item("D", TodoPriority::Low, TodoStatus::Pending),
        ],
    };
    todo_list.sort(String::from("status")).unwrap();
    let titles: Vec<&str> = todo_list.list.iter().map(|t| t.title.as_str()).collect();
    assert_eq!(titles, vec!["B", "D", "A", "C"]);
    let statuses: Vec<TodoStatus> = todo_list.list.iter().map(|t| t.status).collect();
    assert_eq!(
        statuses,
        vec![TodoStatus::Pending, TodoStatus::Pending, TodoStatus::Done, TodoStatus::Done]
    );
}

#[test]
fn sort_keys_are_case_insensitive() {
    let mut todo_list = setup();
    todo_list.sort(String::from("STATUS")).unwrap();
    assert_eq!(todo_list.list[0].status, TodoStatus::Pending);
    todo_list.sort(String::from("Priority")).unwrap();
    assert_eq!(todo_list.list[0].priority, TodoPriority::High);
}

#[test]
fn sort_bogus_key_leaves_order_unchanged() {
    let mut todo_list = setup();
    let before = setup();
    assert_eq!(
        todo_list.sort(String::from("bogus")).unwrap_err(),
        TodoError::InvalidKeyError
    );
    assert_eq!(todo_list, before);
}

#[test]
fn list_items_enumerates_in_order() {
    let todo_list = setup();
    let items = todo_list.list_items();
    assert_eq!(items.len(), 5);
    for (index, it) in items.iter().enumerate() {
        let expected = format!("task{}", index + 1);
        assert_eq!(it.title, expected);
    }
}

#[test]
fn execute_dispatches_commands() {
    let mut todo_list = TodoList { list: vec![] };
    execute(
        Command::Add { title: String::from("one"), priority: String::from("low") },
        &mut todo_list,
    )
    .unwrap();
    execute(
        Command::Add { title: String::from("two"), priority: String::from("high") },
        &mut todo_list,
    )
    .unwrap();
    execute(Command::Ls, &mut todo_list).unwrap();
    assert_eq!(todo_list.list.len(), 2);
    execute(Command::Done { item_id: 1 }, &mut todo_list).unwrap();
    assert_eq!(todo_list.list[0].status, TodoStatus::Done);
    execute(Command::Sort { sort_by: String::from("priority") }, &mut todo_list).unwrap();
    assert_eq!(todo_list.list[0].title, "two");
    execute(Command::Clear, &mut todo_list).unwrap();
    assert_eq!(todo_list.list.len(), 1);
    assert_eq!(todo_list.list[0].title, "two");
    execute(Command::Rm { item_id: 1 }, &mut todo_list).unwrap();
    assert_eq!(todo_list.list.len(), 0);
    assert_eq!(
        execute(Command::Rm { item_id: 1 }, &mut todo_list).unwrap_err(),
        TodoError::NotFoundError
    );
}
