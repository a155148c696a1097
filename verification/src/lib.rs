//! A small task-list library: an in-memory ordered list of tasks with
//! mutation and query operations, and a row-based textual storage format
//! with a proven lossless round trip.
//!
//! Tasks are addressed by their 1-based position in the list; positions are
//! never stored and are implicitly renumbered by every structural change.
//! This makes concurrent or batched multi-operation use unsafe by design:
//! the library is meant for a single-user, one-operation-per-run tool.

pub mod codec;
pub mod engine;

use vstd::prelude::*;

verus! {

/// Priority of a task.
#[derive(Clone, Copy, Debug, PartialEq, Eq, Structural)]
pub enum TodoPriority {
    High,
    Medium,
    Low,
}

/// Status of a task. New tasks always start as `Pending`.
#[derive(Clone, Copy, Debug, PartialEq, Eq, Structural)]
pub enum TodoStatus {
    Pending,
    Done,
}

/// The closed set of errors surfaced by the library and its callers.
///
/// `IOError` and `EnvironmentError` are never produced by the verified
/// operations themselves; they are the variants a caller uses for
/// file-system and storage-directory failures around `encode_list` and
/// `decode_list`.
#[derive(Clone, Copy, Debug, PartialEq, Eq, Structural)]
pub enum TodoError {
    /// Unrecognized priority spelling on add.
    InvalidPriority,
    /// Position out of the current bounds on mark-done or remove.
    NotFoundError,
    /// Mark-done of a task that is already done.
    AlreadyDoneError,
    /// Unrecognized sort key.
    InvalidKeyError,
    /// Persisted rows that fail to parse back into tasks.
    CorruptionError,
    /// File-system level failure, kept distinct from corruption.
    IOError,
    /// No storage directory could be resolved or created.
    EnvironmentError,
}

/// One to-do entry.
#[derive(Debug)]
pub struct TodoItem {
    pub title: String,
    pub priority: TodoPriority,
    pub status: TodoStatus,
}

/// The mathematical value of a `TodoItem`: its title as a character
/// sequence together with the two tags.
pub struct TaskModel {
    pub title: Seq<char>,
    pub priority: TodoPriority,
    pub status: TodoStatus,
}

impl View for TodoItem {
    type V = TaskModel;

    open spec fn view(&self) -> TaskModel {
        TaskModel { title: self.title@, priority: self.priority, status: self.status }
    }
}

/// The ordered task list. Order is significant: it is both the display
/// order and the source of the 1-based positional identifiers.
#[derive(Debug)]
pub struct TodoList {
    pub list: Vec<TodoItem>,
}

impl View for TodoList {
    type V = Seq<TaskModel>;

    open spec fn view(&self) -> Seq<TaskModel> {
        task_models(self.list@)
    }
}

/// The task models of a sequence of items.
pub open spec fn task_models(s: Seq<TodoItem>) -> Seq<TaskModel> {
    s.map_values(|t: TodoItem| t@)
}

impl PartialEq for TodoItem {
    fn eq(&self, other: &TodoItem) -> bool {
        self.title == other.title && self.priority == other.priority && self.status
            == other.status
    }
}

impl vstd::std_specs::cmp::PartialEqSpecImpl for TodoItem {
    open spec fn obeys_eq_spec() -> bool {
        true
    }

    open spec fn eq_spec(&self, other: &TodoItem) -> bool {
        self@ == other@
    }
}

impl PartialEq for TodoList {
    fn eq(&self, other: &TodoList) -> bool {
        self.list == other.list
    }
}

impl vstd::std_specs::cmp::PartialEqSpecImpl for TodoList {
    open spec fn obeys_eq_spec() -> bool {
        true
    }

    open spec fn eq_spec(&self, other: &TodoList) -> bool {
        self.list.len() == other.list.len() && (forall|i: int|
            #![auto]
            0 <= i < self.list.len() ==> self.list[i]@ == other.list[i]@)
    }
}

} // verus!
