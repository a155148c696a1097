//! The task-list engine: validation, identifier resolution, mutation and
//! query operations, and the sort policies.
//!
//! Every operation is a pure transformation of the ordered collection; the
//! contracts below pin the resulting sequence exactly. Identifiers are the
//! 1-based positions at call time, so structural mutations implicitly
//! renumber all surviving tasks.

use vstd::prelude::*;
use vstd::string::StrSliceExecFns;

use crate::{TodoError, TodoItem, TodoList, TodoPriority, TodoStatus};

verus! {

/// ASCII lowercasing of a single character; characters outside `A..=Z`
/// are unchanged.
pub open spec fn lower_char(c: char) -> char {
    if 'A' <= c && c <= 'Z' {
        (((c as u8) + 32) as char)
    } else {
        c
    }
}

/// ASCII lowercasing of a character sequence.
pub open spec fn lower_of(s: Seq<char>) -> Seq<char> {
    s.map_values(|c: char| lower_char(c))
}

/// The accepted priority spellings, case-insensitively: `high`, `med`,
/// `medium` and `low`. Anything else is rejected.
pub open spec fn spec_parse_priority(s: Seq<char>) -> Option<TodoPriority> {
    if lower_of(s) == "high"@ {
        Some(TodoPriority::High)
    } else if lower_of(s) == "med"@ || lower_of(s) == "medium"@ {
        Some(TodoPriority::Medium)
    } else if lower_of(s) == "low"@ {
        Some(TodoPriority::Low)
    } else {
        None
    }
}

/// The `status` sort key, case-insensitively.
pub open spec fn is_status_key(s: Seq<char>) -> bool {
    lower_of(s) == "status"@
}

/// The `priority` sort key, case-insensitively.
pub open spec fn is_priority_key(s: Seq<char>) -> bool {
    lower_of(s) == "priority"@
}

fn to_lower_char(c: char) -> (r: char)
    ensures
        r == lower_char(c),
{
    if 'A' <= c && c <= 'Z' {
        ((c as u8) + 32) as char
    } else {
        c
    }
}

/// Whether `s` equals `w` after ASCII-lowercasing `s`.
fn lower_matches(s: &str, w: &str) -> (r: bool)
    ensures
        r == (lower_of(s@) == w@),
{
    let n = s.unicode_len();
    let m = w.unicode_len();
    if n != m {
        proof {
            assert(lower_of(s@).len() == s@.len());
        }
        return false;
    }
    let mut i: usize = 0;
    while i < n
        invariant
            0 <= i <= n,
            n == s@.len(),
            n == w@.len(),
            forall|k: int| 0 <= k < i ==> lower_char(s@[k]) == w@[k],
        decreases n - i,
    {
        let cs = s.get_char(i);
        let cw = w.get_char(i);
        if to_lower_char(cs) != cw {
            proof {
                assert(lower_of(s@).len() == s@.len());
                assert(lower_of(s@)[i as int] == lower_char(s@[i as int]));
            }
            return false;
        }
        i += 1;
    }
    proof {
        assert forall|k: int| 0 <= k < s@.len() implies lower_of(s@)[k] == w@[k] by {
            assert(lower_of(s@)[k] == lower_char(s@[k]));
        }
        assert(lower_of(s@) =~= w@);
    }
    true
}

/// Parse a priority spelling, case-insensitively.
pub fn parse_priority(s: &str) -> (r: Option<TodoPriority>)
    ensures
        r == spec_parse_priority(s@),
{
    if lower_matches(s, "high") {
        Some(TodoPriority::High)
    } else if lower_matches(s, "med") {
        Some(TodoPriority::Medium)
    } else if lower_matches(s, "medium") {
        Some(TodoPriority::Medium)
    } else if lower_matches(s, "low") {
        Some(TodoPriority::Low)
    } else {
        None
    }
}

/// Whether `item_id` is the 1-based position of a task in `pre`.
pub open spec fn valid_id(pre: Seq<TodoItem>, item_id: i32) -> bool {
    1 <= item_id && item_id <= pre.len()
}

/// What `add_item` does: on a recognized priority spelling the task is
/// appended, pending, with the parsed priority; otherwise the list is
/// unchanged and `InvalidPriority` comes back.
pub open spec fn add_outcome(
    pre: Seq<TodoItem>,
    post: Seq<TodoItem>,
    title: String,
    priority: String,
    r: Result<(), TodoError>,
) -> bool {
    match spec_parse_priority(priority@) {
        Some(p) => r == Ok::<(), TodoError>(()) && post == pre.push(
            (TodoItem { title, priority: p, status: TodoStatus::Pending }),
        ),
        None => r == Err::<(), TodoError>(TodoError::InvalidPriority) && post == pre,
    }
}

/// What `mark_as_done` does: out-of-bounds ids are `NotFoundError`, a task
/// already done is `AlreadyDoneError`, otherwise only that task's status
/// flips to `Done`, in place.
pub open spec fn mark_done_outcome(
    pre: Seq<TodoItem>,
    post: Seq<TodoItem>,
    item_id: i32,
    r: Result<(), TodoError>,
) -> bool {
    if !valid_id(pre, item_id) {
        r == Err::<(), TodoError>(TodoError::NotFoundError) && post == pre
    } else if pre[item_id - 1].status == TodoStatus::Done {
        r == Err::<(), TodoError>(TodoError::AlreadyDoneError) && post == pre
    } else {
        r == Ok::<(), TodoError>(()) && post == pre.update(
            item_id - 1,
            (TodoItem {
                title: pre[item_id - 1].title,
                priority: pre[item_id - 1].priority,
                status: TodoStatus::Done,
            }),
        )
    }
}

/// What `remove_item` does: out-of-bounds ids are `NotFoundError`,
/// otherwise the task at that position is deleted and every later task
/// shifts down by one position.
pub open spec fn remove_outcome(
    pre: Seq<TodoItem>,
    post: Seq<TodoItem>,
    item_id: i32,
    r: Result<(), TodoError>,
) -> bool {
    if !valid_id(pre, item_id) {
        r == Err::<(), TodoError>(TodoError::NotFoundError) && post == pre
    } else {
        r == Ok::<(), TodoError>(()) && post == pre.remove(item_id - 1)
    }
}

/// The predicate holding of tasks that are not yet done.
pub open spec fn not_done_pred() -> spec_fn(TodoItem) -> bool {
    |t: TodoItem| t.status != TodoStatus::Done
}

/// The predicate holding of tasks with the given status.
pub open spec fn status_is(st: TodoStatus) -> spec_fn(TodoItem) -> bool {
    |t: TodoItem| t.status == st
}

/// The predicate holding of tasks with the given priority.
pub open spec fn priority_is(p: TodoPriority) -> spec_fn(TodoItem) -> bool {
    |t: TodoItem| t.priority == p
}

/// The tasks of `pre` that are still pending, in their original order.
pub open spec fn not_done(pre: Seq<TodoItem>) -> Seq<TodoItem> {
    pre.filter(not_done_pred())
}

/// The tasks of `pre` with the given status, in their original order.
pub open spec fn with_status(pre: Seq<TodoItem>, st: TodoStatus) -> Seq<TodoItem> {
    pre.filter(status_is(st))
}

/// The tasks of `pre` with the given priority, in their original order.
pub open spec fn with_priority(pre: Seq<TodoItem>, p: TodoPriority) -> Seq<TodoItem> {
    pre.filter(priority_is(p))
}

/// The stable status order: all pending tasks first, then all done ones,
/// relative order preserved within each group.
pub open spec fn sorted_by_status(pre: Seq<TodoItem>) -> Seq<TodoItem> {
    with_status(pre, TodoStatus::Pending) + with_status(pre, TodoStatus::Done)
}

/// The stable priority order: high before medium before low, relative
/// order preserved among equal priorities.
pub open spec fn sorted_by_priority(pre: Seq<TodoItem>) -> Seq<TodoItem> {
    with_priority(pre, TodoPriority::High) + with_priority(pre, TodoPriority::Medium)
        + with_priority(pre, TodoPriority::Low)
}

/// What `sort` does for each key, and that an unrecognized key leaves the
/// order unchanged and comes back as `InvalidKeyError`.
pub open spec fn sort_outcome(
    pre: Seq<TodoItem>,
    post: Seq<TodoItem>,
    sort_by: String,
    r: Result<(), TodoError>,
) -> bool {
    if is_status_key(sort_by@) {
        r == Ok::<(), TodoError>(()) && post == sorted_by_status(pre)
    } else if is_priority_key(sort_by@) {
        r == Ok::<(), TodoError>(()) && post == sorted_by_priority(pre)
    } else {
        r == Err::<(), TodoError>(TodoError::InvalidKeyError) && post == pre
    }
}

/// Appending one element extends a filtered sequence by that element
/// exactly when the element satisfies the predicate.
proof fn lemma_filter_push<A>(s: Seq<A>, pred: spec_fn(A) -> bool, x: A)
    ensures
        s.push(x).filter(pred) == s.filter(pred) + (if pred(x) {
            seq![x]
        } else {
            Seq::<A>::empty()
        }),
{
    reveal(Seq::filter);
    assert(s.push(x).drop_last() =~= s);
    assert(s.push(x).last() == x);
    if pred(x) {
        assert(s.push(x).filter(pred) == s.filter(pred).push(x));
        assert(s.filter(pred).push(x) =~= s.filter(pred) + seq![x]);
    } else {
        assert(s.filter(pred) + Seq::<A>::empty() =~= s.filter(pred));
    }
}

impl TodoList {
    /// Append a new pending task with the given title, if the priority
    /// spelling is recognized.
    pub fn add_item(&mut self, title: String, priority: String) -> (r: Result<(), TodoError>)
        ensures
            add_outcome(old(self).list@, final(self).list@, title, priority, r),
    {
        let p = match parse_priority(priority.as_str()) {
            Some(p) => p,
            None => {
                return Err(TodoError::InvalidPriority);
            },
        };
        self.list.push(TodoItem { title, priority: p, status: TodoStatus::Pending });
        Ok(())
    }

    /// The tasks in their current stored order; the 1-based positional
    /// identifier of a task is its index here plus one. Never fails.
    pub fn list_items(&self) -> (r: &Vec<TodoItem>)
        ensures
            r@ == self.list@,
    {
        &self.list
    }

    /// Flip the status of the task at the given 1-based position to done.
    pub fn mark_as_done(&mut self, item_id: i32) -> (r: Result<(), TodoError>)
        ensures
            mark_done_outcome(old(self).list@, final(self).list@, item_id, r),
    {
        if item_id <= 0 {
            return Err(TodoError::NotFoundError);
        }
        let idx = (item_id - 1) as usize;
        if idx >= self.list.len() {
            return Err(TodoError::NotFoundError);
        }
        if self.list[idx].status == TodoStatus::Done {
            return Err(TodoError::AlreadyDoneError);
        }
        let item = self.list.remove(idx);
        self.list.insert(
            idx,
            TodoItem { title: item.title, priority: item.priority, status: TodoStatus::Done },
        );
        proof {
            assert(self.list@ =~= old(self).list@.update(
                item_id - 1,
                (TodoItem {
                    title: old(self).list@[item_id - 1].title,
                    priority: old(self).list@[item_id - 1].priority,
                    status: TodoStatus::Done,
                }),
            ));
        }
        Ok(())
    }

    /// Delete the task at the given 1-based position; later tasks shift
    /// down by one position.
    pub fn remove_item(&mut self, item_id: i32) -> (r: Result<(), TodoError>)
        ensures
            remove_outcome(old(self).list@, final(self).list@, item_id, r),
    {
        if item_id <= 0 {
            return Err(TodoError::NotFoundError);
        }
        let idx = (item_id - 1) as usize;
        if idx >= self.list.len() {
            return Err(TodoError::NotFoundError);
        }
        self.list.remove(idx);
        Ok(())
    }

    /// Remove every task that is done, keeping the pending tasks in their
    /// relative order. Never fails, also on an empty or all-pending list.
    pub fn clear_done_items(&mut self)
        ensures
            final(self).list@ == not_done(old(self).list@),
    {
        let ghost orig = self.list@;
        let mut kept: Vec<TodoItem> = Vec::new();
        proof {
            assert(orig.subrange(0, orig.len() as int) =~= orig);
            assert(orig.subrange(0, 0) =~= Seq::<TodoItem>::empty());
            assert(Seq::<TodoItem>::empty().filter(not_done_pred()) =~= Seq::<
                TodoItem,
            >::empty()) by {
                reveal(Seq::filter);
            }
        }
        while self.list.len() > 0
            invariant
                self.list@.len() <= orig.len(),
                self.list@ == orig.subrange(orig.len() - self.list@.len(), orig.len() as int),
                kept@ == orig.subrange(0, orig.len() - self.list@.len()).filter(not_done_pred()),
            decreases self.list@.len(),
        {
            let ghost k = orig.len() - self.list@.len();
            let item = self.list.remove(0);
            proof {
                assert(item == orig[k]);
                assert(self.list@ =~= orig.subrange(k + 1, orig.len() as int));
                assert(orig.subrange(0, k + 1) =~= orig.subrange(0, k).push(orig[k]));
                lemma_filter_push(orig.subrange(0, k), not_done_pred(), orig[k]);
            }
            let ghost kept_before = kept@;
            let keep = match item.status {
                TodoStatus::Done => false,
                TodoStatus::Pending => true,
            };
            if keep {
                kept.push(item);
            }
            proof {
                if not_done_pred()(orig[k]) {
                    assert(kept@ =~= kept_before + seq![orig[k]]);
                } else {
                    assert(kept@ == kept_before);
                    assert(kept_before + Seq::<TodoItem>::empty() =~= kept_before);
                }
                assert(kept@ =~= orig.subrange(0, k + 1).filter(not_done_pred()));
            }
        }
        proof {
            assert(orig.subrange(0, orig.len() as int) =~= orig);
        }
        self.list = kept;
    }

    /// Stable sort by the given key, `status` or `priority`,
    /// case-insensitively; any other key fails and leaves the order
    /// unchanged.
    pub fn sort(&mut self, sort_by: String) -> (r: Result<(), TodoError>)
        ensures
            sort_outcome(old(self).list@, final(self).list@, sort_by, r),
    {
        if lower_matches(sort_by.as_str(), "status") {
            self.sort_by_status();
            Ok(())
        } else if lower_matches(sort_by.as_str(), "priority") {
            self.sort_by_priority();
            Ok(())
        } else {
            Err(TodoError::InvalidKeyError)
        }
    }

    /// Stable partition: pending tasks first, done tasks after, relative
    /// order preserved within each group.
    fn sort_by_status(&mut self)
        ensures
            final(self).list@ == sorted_by_status(old(self).list@),
    {
        let ghost orig = self.list@;
        let mut pending: Vec<TodoItem> = Vec::new();
        let mut finished: Vec<TodoItem> = Vec::new();
        proof {
            assert(orig.subrange(0, orig.len() as int) =~= orig);
            assert(orig.subrange(0, 0) =~= Seq::<TodoItem>::empty());
            assert(Seq::<TodoItem>::empty().filter(status_is(TodoStatus::Pending)) =~= Seq::<
                TodoItem,
            >::empty()) by {
                reveal(Seq::filter);
            }
            assert(Seq::<TodoItem>::empty().filter(status_is(TodoStatus::Done)) =~= Seq::<
                TodoItem,
            >::empty()) by {
                reveal(Seq::filter);
            }
        }
        while self.list.len() > 0
            invariant
                self.list@.len() <= orig.len(),
                self.list@ == orig.subrange(orig.len() - self.list@.len(), orig.len() as int),
                pending@ == orig.subrange(0, orig.len() - self.list@.len()).filter(
                    status_is(TodoStatus::Pending),
                ),
                finished@ == orig.subrange(0, orig.len() - self.list@.len()).filter(
                    status_is(TodoStatus::Done),
                ),
            decreases self.list@.len(),
        {
            let ghost k = orig.len() - self.list@.len();
            let item = self.list.remove(0);
            proof {
                assert(item == orig[k]);
                assert(self.list@ =~= orig.subrange(k + 1, orig.len() as int));
                assert(orig.subrange(0, k + 1) =~= orig.subrange(0, k).push(orig[k]));
                lemma_filter_push(orig.subrange(0, k), status_is(TodoStatus::Pending), orig[k]);
                lemma_filter_push(orig.subrange(0, k), status_is(TodoStatus::Done), orig[k]);
            }
            let ghost pending_before = pending@;
            let ghost finished_before = finished@;
            match item.status {
                TodoStatus::Pending => pending.push(item),
                TodoStatus::Done => finished.push(item),
            }
            proof {
                if status_is(TodoStatus::Pending)(orig[k]) {
                    assert(pending@ =~= pending_before + seq![orig[k]]);
                    assert(finished@ == finished_before);
                    assert(finished_before + Seq::<TodoItem>::empty() =~= finished_before);
                } else {
                    assert(finished@ =~= finished_before + seq![orig[k]]);
                    assert(pending@ == pending_before);
                    assert(pending_before + Seq::<TodoItem>::empty() =~= pending_before);
                }
                assert(pending@ =~= orig.subrange(0, k + 1).filter(status_is(TodoStatus::Pending)));
                assert(finished@ =~= orig.subrange(0, k + 1).filter(status_is(TodoStatus::Done)));
            }
        }
        proof {
            assert(orig.subrange(0, orig.len() as int) =~= orig);
        }
        pending.append(&mut finished);
        self.list = pending;
    }

    /// Stable partition into the three priorities: high, then medium,
    /// then low, relative order preserved among equal priorities.
    fn sort_by_priority(&mut self)
        ensures
            final(self).list@ == sorted_by_priority(old(self).list@),
    {
        let ghost orig = self.list@;
        let mut high: Vec<TodoItem> = Vec::new();
        let mut medium: Vec<TodoItem> = Vec::new();
        let mut low: Vec<TodoItem> = Vec::new();
        proof {
            assert(orig.subrange(0, orig.len() as int) =~= orig);
            assert(orig.subrange(0, 0) =~= Seq::<TodoItem>::empty());
            assert(Seq::<TodoItem>::empty().filter(priority_is(TodoPriority::High)) =~= Seq::<
                TodoItem,
            >::empty()) by {
                reveal(Seq::filter);
            }
            assert(Seq::<TodoItem>::empty().filter(priority_is(TodoPriority::Medium)) =~= Seq::<
                TodoItem,
            >::empty()) by {
                reveal(Seq::filter);
            }
            assert(Seq::<TodoItem>::empty().filter(priority_is(TodoPriority::Low)) =~= Seq::<
                TodoItem,
            >::empty()) by {
                reveal(Seq::filter);
            }
        }
        while self.list.len() > 0
            invariant
                self.list@.len() <= orig.len(),
                self.list@ == orig.subrange(orig.len() - self.list@.len(), orig.len() as int),
                high@ == orig.subrange(0, orig.len() - self.list@.len()).filter(
                    priority_is(TodoPriority::High),
                ),
                medium@ == orig.subrange(0, orig.len() - self.list@.len()).filter(
                    priority_is(TodoPriority::Medium),
                ),
                low@ == orig.subrange(0, orig.len() - self.list@.len()).filter(
                    priority_is(TodoPriority::Low),
                ),
            decreases self.list@.len(),
        {
            let ghost k = orig.len() - self.list@.len();
            let item = self.list.remove(0);
            proof {
                assert(item == orig[k]);
                assert(self.list@ =~= orig.subrange(k + 1, orig.len() as int));
                assert(orig.subrange(0, k + 1) =~= orig.subrange(0, k).push(orig[k]));
                lemma_filter_push(orig.subrange(0, k), priority_is(TodoPriority::High), orig[k]);
                lemma_filter_push(orig.subrange(0, k), priority_is(TodoPriority::Medium), orig[k]);
                lemma_filter_push(orig.subrange(0, k), priority_is(TodoPriority::Low), orig[k]);
            }
            let ghost high_before = high@;
            let ghost medium_before = medium@;
            let ghost low_before = low@;
            match item.priority {
                TodoPriority::High => high.push(item),
                TodoPriority::Medium => medium.push(item),
                TodoPriority::Low => low.push(item),
            }
            proof {
                assert(high_before + Seq::<TodoItem>::empty() =~= high_before);
                assert(medium_before + Seq::<TodoItem>::empty() =~= medium_before);
                assert(low_before + Seq::<TodoItem>::empty() =~= low_before);
                if priority_is(TodoPriority::High)(orig[k]) {
                    assert(high@ =~= high_before + seq![orig[k]]);
                } else if priority_is(TodoPriority::Medium)(orig[k]) {
                    assert(medium@ =~= medium_before + seq![orig[k]]);
                } else {
                    assert(low@ =~= low_before + seq![orig[k]]);
                }
                assert(high@ =~= orig.subrange(0, k + 1).filter(priority_is(TodoPriority::High)));
                assert(medium@ =~= orig.subrange(0, k + 1).filter(
                    priority_is(TodoPriority::Medium),
                ));
                assert(low@ =~= orig.subrange(0, k + 1).filter(priority_is(TodoPriority::Low)));
            }
        }
        proof {
            assert(orig.subrange(0, orig.len() as int) =~= orig);
        }
        high.append(&mut medium);
        high.append(&mut low);
        self.list = high;
    }
}

/// One user-requested operation, the decision side of the command
/// surface: the caller parses arguments into a `Command`, applies it with
/// `execute`, and displays or persists the result.
pub enum Command {
    Add { title: String, priority: String },
    Ls,
    Done { item_id: i32 },
    Rm { item_id: i32 },
    Clear,
    Sort { sort_by: String },
}

/// Apply one command to the list. `Ls` changes nothing: the caller reads
/// the list through `list_items` to display it.
pub fn execute(cmd: Command, todo_list: &mut TodoList) -> (r: Result<(), TodoError>)
    ensures
        match cmd {
            Command::Add { title, priority } => add_outcome(
                old(todo_list).list@,
                final(todo_list).list@,
                title,
                priority,
                r,
            ),
            Command::Ls => r == Ok::<(), TodoError>(()) && final(todo_list).list@ == old(
                todo_list,
            ).list@,
            Command::Done { item_id } => mark_done_outcome(
                old(todo_list).list@,
                final(todo_list).list@,
                item_id,
                r,
            ),
            Command::Rm { item_id } => remove_outcome(
                old(todo_list).list@,
                final(todo_list).list@,
                item_id,
                r,
            ),
            Command::Clear => r == Ok::<(), TodoError>(()) && final(todo_list).list@ == not_done(
                old(todo_list).list@,
            ),
            Command::Sort { sort_by } => sort_outcome(
                old(todo_list).list@,
                final(todo_list).list@,
                sort_by,
                r,
            ),
        },
{
    match cmd {
        Command::Add { title, priority } => todo_list.add_item(title, priority),
        Command::Ls => Ok(()),
        Command::Done { item_id } => todo_list.mark_as_done(item_id),
        Command::Rm { item_id } => todo_list.remove_item(item_id),
        Command::Clear => {
            todo_list.clear_done_items();
            Ok(())
        },
        Command::Sort { sort_by } => todo_list.sort(sort_by),
    }
}

} // verus!
