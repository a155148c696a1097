use todo::codec::{decode_list, encode_list};
use todo::{TodoError, TodoItem, TodoList, TodoPriority, TodoStatus};

fn item(title: &str, priority: TodoPriority, status: TodoStatus) -> TodoItem {
    TodoItem { title: String::from(title), priority, status }
}

#[test]
fn encode_exact_text() {
    let todo_list = TodoList {
        list: vec![
            item("task1", TodoPriority::High, TodoStatus::Pending),
            item("task2", TodoPriority::Low, TodoStatus::Done),
        ],
    };
    let text = encode_list(&todo_list);
    assert_eq!(
        text,
        "title,priority,status\n\"task1\",High,Pending\n\"task2\",Low,Done\n"
    );
}

#[test]
fn encode_empty_list_is_empty_text() {
    let todo_list = TodoList { list: vec![] };
    assert_eq!(encode_list(&todo_list), "");
}

#[test]
fn round_trip_empty_list() {
    let todo_list = TodoList { list: vec![] };
    let loaded = decode_list(encode_list(&todo_list).as_str()).unwrap();
    assert_eq!(loaded, todo_list);
}

#[test]
fn round_trip_all_fields() {
    let todo_list = TodoList {
        list: vec![
            item("task1", TodoPriority::High, TodoStatus::Pending),
            item("task2", TodoPriority::Medium, TodoStatus::Done),
            item("task3", TodoPriority::Low, TodoStatus::Done),
            item("task4", TodoPriority::Low, TodoStatus::Pending),
        ],
    };
    let loaded = decode_list(encode_list(&todo_list).as_str()).unwrap();
    assert_eq!(loaded, todo_list);
}

#[test]
fn round_trip_awkward_titles() {
    let todo_list = TodoList {
        list: vec![
            item("", TodoPriority::Low, TodoStatus::Pending),
            item("a, b, and c", TodoPriority::High, TodoStatus::Pending),
            item("she said \"now\"", TodoPriority::Medium, TodoStatus::Done),
            item("line\nbreak", TodoPriority::Low, TodoStatus::Done),
            item("\"\"\"", TodoPriority::High, TodoStatus::Pending),
            item("tabs\tand spaces", TodoPriority::Medium, TodoStatus::Pending),
        ],
    };
    let loaded = decode_list(encode_list(&todo_list).as_str()).unwrap();
    assert_eq!(loaded, todo_list);
}

#[test]
fn saving_shorter_list_leaves_no_residue() {
    let longer = TodoList {
        list: vec![
            item("one", TodoPriority::High, TodoStatus::Pending),
            item("two", TodoPriority::Medium, TodoStatus::Done),
            item("three", TodoPriority::Low, TodoStatus::Pending),
        ],
    };
    let shorter = TodoList {
        list: vec![item("only", TodoPriority::Low, TodoStatus::Done)],
    };
    // the stored text is a function of the saved list alone: encoding the
    // shorter list after the longer one yields exactly the shorter list
    let _first_save = encode_list(&longer);
    let second_save = encode_list(&shorter);
    let loaded = decode_list(second_save.as_str()).unwrap();
    assert_eq!(loaded, shorter);
    assert_eq!(loaded.list.len(), 1);
}

#[test]
fn decode_unquoted_titles() {
    let text = "title,priority,status\ntask1,High,Pending\ntask2,Low,Done\n";
    let loaded = decode_list(text).unwrap();
    let expected = TodoList {
        list: vec![
            item("task1", TodoPriority::High, TodoStatus::Pending),
            item("task2", TodoPriority::Low, TodoStatus::Done),
        ],
    };
    assert_eq!(loaded, expected);
}

#[test]
fn decode_header_only_is_empty_list() {
    let loaded = decode_list("title,priority,status\n").unwrap();
    assert_eq!(loaded.list.len(), 0);
}

#[test]
fn decode_missing_fields_is_corruption() {
    // a title-only row has too few fields
    let text = "title,priority,status\ntask2\n";
    let err = decode_list(text).unwrap_err();
    assert_eq!(err, TodoError::CorruptionError);
    assert_ne!(err, TodoError::IOError);
}

#[test]
fn decode_extra_field_is_corruption() {
    let text = "title,priority,status\ntask1,High,Pending,extra\n";
    assert_eq!(decode_list(text).unwrap_err(), TodoError::CorruptionError);
}

#[test]
fn decode_unknown_priority_is_corruption() {
    let text = "title,priority,status\ntask1,Nan,Pending\n";
    assert_eq!(decode_list(text).unwrap_err(), TodoError::CorruptionError);
}

#[test]
fn decode_unknown_status_is_corruption() {
    let text = "title,priority,status\ntask1,High,Paused\n";
    assert_eq!(decode_list(text).unwrap_err(), TodoError::CorruptionError);
}

#[test]
fn decode_bad_header_is_corruption() {
    assert_eq!(
        decode_list("totally unrelated text").unwrap_err(),
        TodoError::CorruptionError
    );
    assert_eq!(
        decode_list("title,urgency,status\ntask1,High,Pending\n").unwrap_err(),
        TodoError::CorruptionError
    );
}

#[test]
fn decode_unterminated_row_is_corruption() {
    // rows must end in a newline
    let text = "title,priority,status\ntask1,High,Pending";
    assert_eq!(decode_list(text).unwrap_err(), TodoError::CorruptionError);
    // an unterminated quoted title
    let text2 = "title,priority,status\n\"task1,High,Pending\n";
    assert_eq!(decode_list(text2).unwrap_err(), TodoError::CorruptionError);
}

#[test]
fn decode_canonicalizes_case_sensitively() {
    // stored spellings are the canonical ones, exactly
    let text = "title,priority,status\ntask1,high,Pending\n";
    assert_eq!(decode_list(text).unwrap_err(), TodoError::CorruptionError);
    let text2 = "title,priority,status\ntask1,High,pending\n";
    assert_eq!(decode_list(text2).unwrap_err(), TodoError::CorruptionError);
}
