//! The persistence codec: the row-based textual storage format.
//!
//! An encoded list is a header row naming the three fields, then one row
//! per task in list order, each row ending in a newline. The title field
//! is quoted, with quote characters doubled, so any title — commas,
//! quotes and newlines included — survives the trip; priorities and
//! statuses are stored under their canonical spellings. The decoder also
//! accepts unquoted title fields without commas or newlines. An empty
//! list is stored as an empty file.
//!
//! Encoding and decoding are both specified as functions on character
//! sequences, and decoding an encoded list is proven to give back exactly
//! that list (`lemma_save_load_round_trip`).

use vstd::prelude::*;
use vstd::string::StrSliceExecFns;
use vstd::string::StringExecFns;

use crate::{TaskModel, TodoError, TodoItem, TodoList, TodoPriority, TodoStatus, task_models};

verus! {

/// The canonical stored spelling of a priority.
pub open spec fn priority_text(p: TodoPriority) -> Seq<char> {
    match p {
        TodoPriority::High => "High"@,
        TodoPriority::Medium => "Medium"@,
        TodoPriority::Low => "Low"@,
    }
}

/// The canonical stored spelling of a status.
pub open spec fn status_text(st: TodoStatus) -> Seq<char> {
    match st {
        TodoStatus::Pending => "Pending"@,
        TodoStatus::Done => "Done"@,
    }
}

/// The header row, newline included.
pub open spec fn header_text() -> Seq<char> {
    "title,priority,status\n"@
}

/// A title with each quote character doubled, ready to stand between
/// quotes.
pub open spec fn esc(t: Seq<char>) -> Seq<char>
    decreases t.len(),
{
    if t.len() == 0 {
        Seq::<char>::empty()
    } else {
        (if t[0] == '"' {
            seq!['"', '"']
        } else {
            seq![t[0]]
        }) + esc(t.skip(1))
    }
}

/// The stored form of a title: quoted, with inner quotes doubled.
pub open spec fn quoted_title(t: Seq<char>) -> Seq<char> {
    seq!['"'] + esc(t) + seq!['"']
}

/// One stored row: quoted title, priority and status, comma-separated,
/// newline-terminated.
pub open spec fn row_text(tv: TaskModel) -> Seq<char> {
    quoted_title(tv.title) + seq![','] + priority_text(tv.priority) + seq![','] + status_text(
        tv.status,
    ) + seq!['\n']
}

/// The stored rows of a list, in list order.
pub open spec fn rows_text(l: Seq<TaskModel>) -> Seq<char>
    decreases l.len(),
{
    if l.len() == 0 {
        Seq::<char>::empty()
    } else {
        row_text(l[0]) + rows_text(l.skip(1))
    }
}

/// The full stored form of a list: empty for the empty list, otherwise
/// the header followed by the rows.
pub open spec fn spec_encode(l: Seq<TaskModel>) -> Seq<char> {
    if l.len() == 0 {
        Seq::<char>::empty()
    } else {
        header_text() + rows_text(l)
    }
}

/// Appending one element to a title extends its escaped form by that
/// element's expansion.
proof fn lemma_esc_snoc(t: Seq<char>, c: char)
    ensures
        esc(t.push(c)) == esc(t) + (if c == '"' {
            seq!['"', '"']
        } else {
            seq![c]
        }),
    decreases t.len(),
{
    let exp = if c == '"' {
        seq!['"', '"']
    } else {
        seq![c]
    };
    if t.len() == 0 {
        assert(t.push(c)[0] == c);
        assert(t.push(c).skip(1) =~= Seq::<char>::empty());
        assert(esc(Seq::<char>::empty()) == Seq::<char>::empty());
        assert(esc(t.push(c)) =~= exp);
        assert(esc(t) + exp =~= exp);
    } else {
        assert(t.push(c)[0] == t[0]);
        assert(t.push(c).skip(1) =~= t.skip(1).push(c));
        lemma_esc_snoc(t.skip(1), c);
        let exp0 = if t[0] == '"' {
            seq!['"', '"']
        } else {
            seq![t[0]]
        };
        assert(esc(t.push(c)) == exp0 + (esc(t.skip(1)) + exp));
        assert(exp0 + (esc(t.skip(1)) + exp) =~= (exp0 + esc(t.skip(1))) + exp);
    }
}

/// Appending one task to a list extends its stored rows by that task's
/// row.
proof fn lemma_rows_snoc(l: Seq<TaskModel>, tv: TaskModel)
    ensures
        rows_text(l.push(tv)) == rows_text(l) + row_text(tv),
    decreases l.len(),
{
    if l.len() == 0 {
        assert(l.push(tv)[0] == tv);
        assert(l.push(tv).skip(1) =~= Seq::<TaskModel>::empty());
        assert(rows_text(Seq::<TaskModel>::empty()) == Seq::<char>::empty());
        assert(rows_text(l.push(tv)) =~= row_text(tv) + Seq::<char>::empty());
        assert(row_text(tv) + Seq::<char>::empty() =~= row_text(tv));
        assert(rows_text(l) + row_text(tv) =~= row_text(tv));
    } else {
        assert(l.push(tv)[0] == l[0]);
        assert(l.push(tv).skip(1) =~= l.skip(1).push(tv));
        lemma_rows_snoc(l.skip(1), tv);
        assert(rows_text(l.push(tv)) == row_text(l[0]) + (rows_text(l.skip(1)) + row_text(tv)));
        assert(row_text(l[0]) + (rows_text(l.skip(1)) + row_text(tv)) =~= (row_text(l[0])
            + rows_text(l.skip(1))) + row_text(tv));
    }
}

/// Append the stored form of a title: quoted, inner quotes doubled.
fn append_quoted(out: &mut String, t: &str)
    ensures
        final(out)@ == old(out)@ + quoted_title(t@),
{
    let ghost start = out@;
    out.append("\"");
    proof {
        reveal_strlit("\"");
        assert(out@ =~= start + seq!['"']);
        assert(t@.subrange(0, 0) =~= Seq::<char>::empty());
    }
    let n = t.unicode_len();
    let mut i: usize = 0;
    while i < n
        invariant
            i <= n,
            n == t@.len(),
            out@ == start + seq!['"'] + esc(t@.subrange(0, i as int)),
        decreases n - i,
    {
        let c = t.get_char(i);
        if c == '"' {
            out.append("\"\"");
            proof {
                reveal_strlit("\"\"");
                assert("\"\""@ =~= seq!['"', '"']);
            }
        } else {
            let piece = t.substring_char(i, i + 1);
            proof {
                assert(piece@ =~= seq![t@[i as int]]);
            }
            out.append(piece);
        }
        proof {
            lemma_esc_snoc(t@.subrange(0, i as int), t@[i as int]);
            assert(t@.subrange(0, i + 1) =~= t@.subrange(0, i as int).push(t@[i as int]));
            assert(out@ =~= start + seq!['"'] + esc(t@.subrange(0, i + 1)));
        }
        i += 1;
    }
    out.append("\"");
    proof {
        reveal_strlit("\"");
        assert(t@.subrange(0, t@.len() as int) =~= t@);
        assert(out@ =~= start + quoted_title(t@));
    }
}

/// Append one task's stored row.
fn append_row(out: &mut String, item: &TodoItem)
    ensures
        final(out)@ == old(out)@ + row_text(item@),
{
    let ghost start = out@;
    append_quoted(out, item.title.as_str());
    out.append(",");
    match item.priority {
        TodoPriority::High => out.append("High"),
        TodoPriority::Medium => out.append("Medium"),
        TodoPriority::Low => out.append("Low"),
    }
    out.append(",");
    match item.status {
        TodoStatus::Pending => out.append("Pending"),
        TodoStatus::Done => out.append("Done"),
    }
    out.append("\n");
    proof {
        reveal_strlit(",");
        reveal_strlit("\n");
        assert(","@ =~= seq![',']);
        assert("\n"@ =~= seq!['\n']);
        assert(out@ =~= start + row_text(item@));
    }
}

/// Serialize the whole list, in current order, to its stored text. The
/// result for the empty list is the empty text.
pub fn encode_list(todo_list: &TodoList) -> (r: String)
    ensures
        r@ == spec_encode(todo_list@),
{
    let mut out = String::new();
    let len = todo_list.list.len();
    if len == 0 {
        proof {
            assert(task_models(todo_list.list@).len() == 0);
        }
        return out;
    }
    out.append("title,priority,status\n");
    proof {
        assert(task_models(todo_list.list@).subrange(0, 0) =~= Seq::<TaskModel>::empty());
        assert(out@ =~= header_text() + rows_text(task_models(todo_list.list@).subrange(0, 0)));
    }
    let mut idx: usize = 0;
    while idx < len
        invariant
            idx <= len,
            len == todo_list.list@.len(),
            out@ == header_text() + rows_text(task_models(todo_list.list@).subrange(0, idx as int)),
        decreases len - idx,
    {
        let ghost l = task_models(todo_list.list@);
        append_row(&mut out, &todo_list.list[idx]);
        proof {
            assert(l[idx as int] == todo_list.list@[idx as int]@);
            lemma_rows_snoc(l.subrange(0, idx as int), l[idx as int]);
            assert(l.subrange(0, idx + 1) =~= l.subrange(0, idx as int).push(l[idx as int]));
            assert(out@ =~= header_text() + rows_text(l.subrange(0, idx + 1)));
        }
        idx += 1;
    }
    proof {
        let l = task_models(todo_list.list@);
        assert(l.subrange(0, l.len() as int) =~= l);
        assert(l.len() > 0);
    }
    out
}

/// The content of a quoted field, read from position `i` (just after the
/// opening quote) with the already-read content in `acc`: a doubled quote
/// stands for one quote character, a single quote closes the field, and
/// the end of the text before a closing quote is an error. On success the
/// returned position stands just after the closing quote.
pub open spec fn sp_quoted(s: Seq<char>, i: int, acc: Seq<char>) -> Option<(Seq<char>, int)>
    decreases s.len() - i,
{
    if i < 0 || i >= s.len() {
        None
    } else if s[i] == '"' {
        if i + 1 < s.len() && s[i + 1] == '"' {
            sp_quoted(s, i + 2, acc.push('"'))
        } else {
            Some((acc, i + 1))
        }
    } else {
        sp_quoted(s, i + 1, acc.push(s[i]))
    }
}

/// The content of an unquoted field, read from position `i`: everything
/// up to the next comma or newline, which is not consumed. A field that
/// runs into the end of the text is an error, since every row must end
/// in a newline.
pub open spec fn sp_unquoted(s: Seq<char>, i: int, acc: Seq<char>) -> Option<(Seq<char>, int)>
    decreases s.len() - i,
{
    if i < 0 || i >= s.len() {
        None
    } else if s[i] == ',' || s[i] == '\n' {
        Some((acc, i))
    } else {
        sp_unquoted(s, i + 1, acc.push(s[i]))
    }
}

/// A stored priority field: exactly one of the canonical spellings.
pub open spec fn spec_priority_of_text(f: Seq<char>) -> Option<TodoPriority> {
    if f == "High"@ {
        Some(TodoPriority::High)
    } else if f == "Medium"@ {
        Some(TodoPriority::Medium)
    } else if f == "Low"@ {
        Some(TodoPriority::Low)
    } else {
        None
    }
}

/// A stored status field: exactly one of the canonical spellings.
pub open spec fn spec_status_of_text(f: Seq<char>) -> Option<TodoStatus> {
    if f == "Pending"@ {
        Some(TodoStatus::Pending)
    } else if f == "Done"@ {
        Some(TodoStatus::Done)
    } else {
        None
    }
}

/// One row read from position `i`: a quoted or unquoted title, a
/// priority and a status, comma-separated and newline-terminated, with
/// exactly three fields. Anything else — a missing field, a fourth
/// field, an unrecognized spelling — is an error. On success the
/// returned position stands just after the row's newline.
pub open spec fn sp_row(s: Seq<char>, i: int) -> Option<(TaskModel, int)> {
    let tres = if 0 <= i < s.len() && s[i] == '"' {
        sp_quoted(s, i + 1, Seq::<char>::empty())
    } else {
        sp_unquoted(s, i, Seq::<char>::empty())
    };
    match tres {
        None => None,
        Some((title, j)) => if !(0 <= j < s.len() && s[j] == ',') {
            None
        } else {
            match sp_unquoted(s, j + 1, Seq::<char>::empty()) {
                None => None,
                Some((ptext, k)) => if !(k < s.len() && s[k] == ',') {
                    None
                } else {
                    match spec_priority_of_text(ptext) {
                        None => None,
                        Some(p) => match sp_unquoted(s, k + 1, Seq::<char>::empty()) {
                            None => None,
                            Some((stext, m)) => if !(m < s.len() && s[m] == '\n') {
                                None
                            } else {
                                match spec_status_of_text(stext) {
                                    None => None,
                                    Some(st) => Some(
                                        ((TaskModel { title, priority: p, status: st }), m + 1),
                                    ),
                                }
                            },
                        },
                    }
                },
            }
        },
    }
}

/// All rows from position `i` to the end of the text.
pub open spec fn sp_rows(s: Seq<char>, i: int) -> Option<Seq<TaskModel>>
    decreases s.len() - i,
{
    if i == s.len() {
        Some(Seq::<TaskModel>::empty())
    } else if i < 0 || i > s.len() {
        None
    } else {
        match sp_row(s, i) {
            None => None,
            Some((tv, j)) => if i < j <= s.len() {
                match sp_rows(s, j) {
                    None => None,
                    Some(rest) => Some(seq![tv] + rest),
                }
            } else {
                None
            },
        }
    }
}

/// What stored texts decode to: the empty text is the empty list; any
/// other text must carry the exact header row and then well-formed rows.
pub open spec fn spec_decode(s: Seq<char>) -> Option<Seq<TaskModel>> {
    if s.len() == 0 {
        Some(Seq::<TaskModel>::empty())
    } else if s.len() >= header_text().len() && s.subrange(0, header_text().len() as int)
        == header_text() {
        sp_rows(s, header_text().len() as int)
    } else {
        None
    }
}

/// Whether two strings hold the same characters.
fn str_eq(a: &str, b: &str) -> (r: bool)
    ensures
        r == (a@ == b@),
{
    let n = a.unicode_len();
    let m = b.unicode_len();
    if n != m {
        return false;
    }
    let mut i: usize = 0;
    while i < n
        invariant
            0 <= i <= n,
            n == a@.len(),
            n == b@.len(),
            forall|k: int| 0 <= k < i ==> a@[k] == b@[k],
        decreases n - i,
    {
        if a.get_char(i) != b.get_char(i) {
            return false;
        }
        i += 1;
    }
    proof {
        assert(a@ =~= b@);
    }
    true
}

fn priority_of_text(f: &str) -> (r: Option<TodoPriority>)
    ensures
        r == spec_priority_of_text(f@),
{
    if str_eq(f, "High") {
        Some(TodoPriority::High)
    } else if str_eq(f, "Medium") {
        Some(TodoPriority::Medium)
    } else if str_eq(f, "Low") {
        Some(TodoPriority::Low)
    } else {
        None
    }
}

fn status_of_text(f: &str) -> (r: Option<TodoStatus>)
    ensures
        r == spec_status_of_text(f@),
{
    if str_eq(f, "Pending") {
        Some(TodoStatus::Pending)
    } else if str_eq(f, "Done") {
        Some(TodoStatus::Done)
    } else {
        None
    }
}

/// Read a quoted field, following `sp_quoted` exactly.
fn parse_quoted(s: &str, i: usize, acc: String) -> (r: Option<(String, usize)>)
    requires
        i <= s@.len(),
    ensures
        match r {
            Some(vj) => sp_quoted(s@, i as int, acc@) == Some((vj.0@, vj.1 as int)) && i < vj.1
                <= s@.len(),
            None => sp_quoted(s@, i as int, acc@) is None,
        },
    decreases s@.len() - i,
{
    let n = s.unicode_len();
    if i >= n {
        return None;
    }
    let c = s.get_char(i);
    if c == '"' {
        if i + 1 < n && s.get_char(i + 1) == '"' {
            let acc2 = acc.concat("\"");
            proof {
                reveal_strlit("\"");
                assert(acc2@ =~= acc@.push('"'));
            }
            parse_quoted(s, i + 2, acc2)
        } else {
            Some((acc, i + 1))
        }
    } else {
        let piece = s.substring_char(i, i + 1);
        let acc2 = acc.concat(piece);
        proof {
            assert(piece@ =~= seq![s@[i as int]]);
            assert(acc2@ =~= acc@.push(s@[i as int]));
        }
        parse_quoted(s, i + 1, acc2)
    }
}

/// Read an unquoted field, following `sp_unquoted` exactly.
fn parse_unquoted(s: &str, i: usize, acc: String) -> (r: Option<(String, usize)>)
    requires
        i <= s@.len(),
    ensures
        match r {
            Some(vj) => sp_unquoted(s@, i as int, acc@) == Some((vj.0@, vj.1 as int)) && i <= vj.1
                <= s@.len(),
            None => sp_unquoted(s@, i as int, acc@) is None,
        },
    decreases s@.len() - i,
{
    let n = s.unicode_len();
    if i >= n {
        return None;
    }
    let c = s.get_char(i);
    if c == ',' || c == '\n' {
        return Some((acc, i));
    }
    let piece = s.substring_char(i, i + 1);
    let acc2 = acc.concat(piece);
    proof {
        assert(piece@ =~= seq![s@[i as int]]);
        assert(acc2@ =~= acc@.push(s@[i as int]));
    }
    parse_unquoted(s, i + 1, acc2)
}

/// Read one row, following `sp_row` exactly.
fn parse_row(s: &str, i: usize) -> (r: Option<(TodoItem, usize)>)
    requires
        i <= s@.len(),
    ensures
        match r {
            Some(ij) => sp_row(s@, i as int) == Some((ij.0@, ij.1 as int)) && i < ij.1 <= s@.len(),
            None => sp_row(s@, i as int) is None,
        },
{
    let n = s.unicode_len();
    let tres = if i < n && s.get_char(i) == '"' {
        parse_quoted(s, i + 1, String::new())
    } else {
        parse_unquoted(s, i, String::new())
    };
    let (title, j) = match tres {
        None => {
            return None;
        },
        Some(x) => x,
    };
    if !(j < n && s.get_char(j) == ',') {
        return None;
    }
    let (ptext, k) = match parse_unquoted(s, j + 1, String::new()) {
        None => {
            return None;
        },
        Some(x) => x,
    };
    if !(k < n && s.get_char(k) == ',') {
        return None;
    }
    let p = match priority_of_text(ptext.as_str()) {
        None => {
            return None;
        },
        Some(p) => p,
    };
    let (stext, m) = match parse_unquoted(s, k + 1, String::new()) {
        None => {
            return None;
        },
        Some(x) => x,
    };
    if !(m < n && s.get_char(m) == '\n') {
        return None;
    }
    let st = match status_of_text(stext.as_str()) {
        None => {
            return None;
        },
        Some(st) => st,
    };
    Some((TodoItem { title, priority: p, status: st }, m + 1))
}

/// Read all rows from position `i`, following `sp_rows` exactly.
fn parse_rows(s: &str, i: usize) -> (r: Option<Vec<TodoItem>>)
    requires
        i <= s@.len(),
    ensures
        match r {
            Some(v) => sp_rows(s@, i as int) == Some(task_models(v@)),
            None => sp_rows(s@, i as int) is None,
        },
    decreases s@.len() - i,
{
    let n = s.unicode_len();
    if i == n {
        let v: Vec<TodoItem> = Vec::new();
        proof {
            assert(task_models(v@) =~= Seq::<TaskModel>::empty());
        }
        return Some(v);
    }
    let (item, j) = match parse_row(s, i) {
        None => {
            return None;
        },
        Some(x) => x,
    };
    match parse_rows(s, j) {
        None => None,
        Some(v) => {
            let ghost rest = v@;
            let mut v = v;
            v.insert(0, item);
            proof {
                assert(v@ == rest.insert(0, item));
                assert(task_models(v@) =~= seq![item@] + task_models(rest));
            }
            Some(v)
        },
    }
}

/// Deserialize a stored text back into a list. Any text that is not a
/// well-formed stored list comes back as `CorruptionError`, never as a
/// partial list.
pub fn decode_list(s: &str) -> (r: Result<TodoList, TodoError>)
    ensures
        match spec_decode(s@) {
            Some(l) => r matches Ok(tl) && task_models(tl.list@) == l,
            None => r == Err::<TodoList, TodoError>(TodoError::CorruptionError),
        },
{
    let n = s.unicode_len();
    if n == 0 {
        let v: Vec<TodoItem> = Vec::new();
        proof {
            assert(task_models(v@) =~= Seq::<TaskModel>::empty());
        }
        return Ok(TodoList { list: v });
    }
    proof {
        reveal_strlit("title,priority,status\n");
    }
    if n < 22 {
        return Err(TodoError::CorruptionError);
    }
    let prefix = s.substring_char(0, 22);
    if !str_eq(prefix, "title,priority,status\n") {
        return Err(TodoError::CorruptionError);
    }
    match parse_rows(s, 22) {
        Some(v) => Ok(TodoList { list: v }),
        None => Err(TodoError::CorruptionError),
    }
}

/// A position inside an equal subrange holds the subrange's character.
proof fn lemma_subrange_index(s: Seq<char>, i: int, e: Seq<char>, x: int)
    requires
        0 <= i,
        i + e.len() <= s.len(),
        s.subrange(i, i + e.len() as int) == e,
        0 <= x < e.len(),
    ensures
        s[i + x] == e[x],
{
    assert(s.subrange(i, i + e.len() as int)[x] == s[i + x]);
}

/// Reading a quoted field from a text that carries an escaped title,
/// a closing quote, and then anything but a quote, yields exactly that
/// title and stops just after the closing quote.
proof fn lemma_sp_quoted_rt(s: Seq<char>, i: int, t: Seq<char>, acc: Seq<char>)
    requires
        0 <= i,
        i + esc(t).len() + 1 <= s.len(),
        s.subrange(i, i + esc(t).len() as int) == esc(t),
        s[i + esc(t).len()] == '"',
        i + esc(t).len() + 1 == s.len() || s[i + esc(t).len() + 1] != '"',
    ensures
        sp_quoted(s, i, acc) == Some((acc + t, i + esc(t).len() + 1)),
    decreases t.len(),
{
    let e = esc(t);
    if t.len() == 0 {
        assert(e.len() == 0);
        assert(s[i] == '"');
        assert(acc + t =~= acc);
    } else {
        let t1 = t.skip(1);
        let e1 = esc(t1);
        if t[0] == '"' {
            assert(e == seq!['"', '"'] + e1);
            assert(e.len() == 2 + e1.len());
            assert(e[0] == '"');
            assert(e[1] == '"');
            lemma_subrange_index(s, i, e, 0);
            lemma_subrange_index(s, i, e, 1);
            assert(s[i] == '"');
            assert(s[i + 1] == '"');
            assert forall|x: int| 0 <= x < e1.len() implies s[i + 2 + x] == e1[x] by {
                lemma_subrange_index(s, i, e, 2 + x);
                assert(e[2 + x] == e1[x]);
            }
            assert(s.subrange(i + 2, i + 2 + e1.len() as int) =~= e1);
            lemma_sp_quoted_rt(s, i + 2, t1, acc.push('"'));
            assert(acc.push('"') + t1 =~= acc + t);
        } else {
            assert(e == seq![t[0]] + e1);
            assert(e.len() == 1 + e1.len());
            assert(e[0] == t[0]);
            lemma_subrange_index(s, i, e, 0);
            assert(s[i] == t[0]);
            assert forall|x: int| 0 <= x < e1.len() implies s[i + 1 + x] == e1[x] by {
                lemma_subrange_index(s, i, e, 1 + x);
                assert(e[1 + x] == e1[x]);
            }
            assert(s.subrange(i + 1, i + 1 + e1.len() as int) =~= e1);
            lemma_sp_quoted_rt(s, i + 1, t1, acc.push(t[0]));
            assert(acc.push(t[0]) + t1 =~= acc + t);
        }
    }
}

/// Reading an unquoted field from a text that carries a comma- and
/// newline-free value followed by a terminator yields exactly that value
/// and stops on the terminator.
proof fn lemma_sp_unquoted_rt(s: Seq<char>, i: int, t: Seq<char>, acc: Seq<char>)
    requires
        0 <= i,
        i + t.len() < s.len(),
        s.subrange(i, i + t.len() as int) == t,
        forall|x: int| 0 <= x < t.len() ==> t[x] != ',' && t[x] != '\n',
        s[i + t.len()] == ',' || s[i + t.len()] == '\n',
    ensures
        sp_unquoted(s, i, acc) == Some((acc + t, i + t.len())),
    decreases t.len(),
{
    if t.len() == 0 {
        assert(acc + t =~= acc);
    } else {
        lemma_subrange_index(s, i, t, 0);
        assert(s[i] == t[0]);
        let t1 = t.skip(1);
        assert forall|x: int| 0 <= x < t1.len() implies s[i + 1 + x] == t1[x] by {
            lemma_subrange_index(s, i, t, 1 + x);
        }
        assert(s.subrange(i + 1, i + 1 + t1.len() as int) =~= t1);
        lemma_sp_unquoted_rt(s, i + 1, t1, acc.push(t[0]));
        assert(acc.push(t[0]) + t1 =~= acc + t);
    }
}

/// The canonical priority spellings parse back to their priority and
/// hold no comma, newline or quote.
proof fn lemma_priority_field(p: TodoPriority)
    ensures
        spec_priority_of_text(priority_text(p)) == Some(p),
        forall|x: int| 0 <= x < priority_text(p).len() ==> priority_text(p)[x] != ','
            && priority_text(p)[x] != '\n',
        priority_text(p).len() > 0,
        priority_text(p)[0] != '"',
{
    reveal_strlit("High");
    reveal_strlit("Medium");
    reveal_strlit("Low");
    assert("High"@.len() == 4);
    assert("Medium"@.len() == 6);
    assert("Low"@.len() == 3);
    match p {
        TodoPriority::High => {
            assert(spec_priority_of_text("High"@) == Some(TodoPriority::High));
        },
        TodoPriority::Medium => {
            assert("Medium"@ != "High"@);
            assert(spec_priority_of_text("Medium"@) == Some(TodoPriority::Medium));
        },
        TodoPriority::Low => {
            assert("Low"@ != "High"@);
            assert("Low"@ != "Medium"@);
            assert(spec_priority_of_text("Low"@) == Some(TodoPriority::Low));
        },
    }
}

/// The canonical status spellings parse back to their status and hold
/// no comma, newline or quote.
proof fn lemma_status_field(st: TodoStatus)
    ensures
        spec_status_of_text(status_text(st)) == Some(st),
        forall|x: int| 0 <= x < status_text(st).len() ==> status_text(st)[x] != ','
            && status_text(st)[x] != '\n',
        status_text(st).len() > 0,
        status_text(st)[0] != '"',
{
    reveal_strlit("Pending");
    reveal_strlit("Done");
    assert("Pending"@.len() == 7);
    assert("Done"@.len() == 4);
    match st {
        TodoStatus::Pending => {
            assert(spec_status_of_text("Pending"@) == Some(TodoStatus::Pending));
        },
        TodoStatus::Done => {
            assert("Done"@ != "Pending"@);
            assert(spec_status_of_text("Done"@) == Some(TodoStatus::Done));
        },
    }
}

/// Reading one row from a text that carries a task's stored row yields
/// exactly that task and stops just after the row's newline.
proof fn lemma_sp_row_rt(s: Seq<char>, i: int, tv: TaskModel)
    requires
        0 <= i,
        i + row_text(tv).len() <= s.len(),
        s.subrange(i, i + row_text(tv).len() as int) == row_text(tv),
    ensures
        sp_row(s, i) == Some((tv, i + row_text(tv).len())),
{
    let q = quoted_title(tv.title);
    let e = esc(tv.title);
    let pt = priority_text(tv.priority);
    let stx = status_text(tv.status);
    let rt = row_text(tv);
    lemma_priority_field(tv.priority);
    lemma_status_field(tv.status);
    assert(q.len() == e.len() + 2);
    assert(rt.len() == q.len() + 1 + pt.len() + 1 + stx.len() + 1);
    assert forall|x: int| 0 <= x < rt.len() implies s[i + x] == rt[x] by {
        lemma_subrange_index(s, i, rt, x);
    }
    // the title: a quote, the escaped title, a quote
    assert(rt[0] == q[0]);
    assert(q[0] == '"');
    assert(s[i] == '"');
    assert forall|x: int| 0 <= x < e.len() implies s[i + 1 + x] == e[x] by {
        assert(rt[1 + x] == q[1 + x]);
        assert(q[1 + x] == e[x]);
    }
    assert(s.subrange(i + 1, i + 1 + e.len() as int) =~= e);
    assert(rt[1 + e.len() as int] == q[1 + e.len() as int]);
    assert(q[1 + e.len() as int] == '"');
    assert(s[i + 1 + e.len()] == '"');
    assert(rt[q.len() as int] == ',');
    assert(s[i + q.len()] == ',');
    lemma_sp_quoted_rt(s, i + 1, tv.title, Seq::<char>::empty());
    assert(Seq::<char>::empty() + tv.title =~= tv.title);
    let jq = i + q.len();
    assert(sp_quoted(s, i + 1, Seq::<char>::empty()) == Some((tv.title, jq)));
    // the priority field and its comma
    assert forall|x: int| 0 <= x < pt.len() implies s[jq + 1 + x] == pt[x] by {
        assert(rt[q.len() + 1 + x] == pt[x]);
    }
    assert(s.subrange(jq + 1, jq + 1 + pt.len() as int) =~= pt);
    assert(rt[q.len() + 1 + pt.len() as int] == ',');
    assert(s[jq + 1 + pt.len()] == ',');
    lemma_sp_unquoted_rt(s, jq + 1, pt, Seq::<char>::empty());
    assert(Seq::<char>::empty() + pt =~= pt);
    let k = jq + 1 + pt.len();
    assert(sp_unquoted(s, jq + 1, Seq::<char>::empty()) == Some((pt, k)));
    // the status field and the closing newline
    assert forall|x: int| 0 <= x < stx.len() implies s[k + 1 + x] == stx[x] by {
        assert(rt[q.len() + 1 + pt.len() + 1 + x] == stx[x]);
    }
    assert(s.subrange(k + 1, k + 1 + stx.len() as int) =~= stx);
    assert(rt[q.len() + 1 + pt.len() + 1 + stx.len() as int] == '\n');
    assert(s[k + 1 + stx.len()] == '\n');
    lemma_sp_unquoted_rt(s, k + 1, stx, Seq::<char>::empty());
    assert(Seq::<char>::empty() + stx =~= stx);
    let m = k + 1 + stx.len();
    assert(sp_unquoted(s, k + 1, Seq::<char>::empty()) == Some((stx, m)));
    assert(tv == (TaskModel { title: tv.title, priority: tv.priority, status: tv.status }));
    assert(m + 1 == i + rt.len());
}

/// Reading rows from a text that carries a list's stored rows, and
/// nothing after them, yields exactly that list.
proof fn lemma_sp_rows_rt(s: Seq<char>, i: int, l: Seq<TaskModel>)
    requires
        0 <= i <= s.len(),
        s.len() == i + rows_text(l).len(),
        s.subrange(i, s.len() as int) == rows_text(l),
    ensures
        sp_rows(s, i) == Some(l),
    decreases l.len(),
{
    if l.len() == 0 {
        assert(rows_text(l).len() == 0);
        assert(l =~= Seq::<TaskModel>::empty());
    } else {
        let r0 = row_text(l[0]);
        let rest = rows_text(l.skip(1));
        assert(rows_text(l) == r0 + rest);
        assert forall|x: int| 0 <= x < rows_text(l).len() implies s[i + x] == rows_text(l)[x] by {
            lemma_subrange_index(s, i, rows_text(l), x);
        }
        assert forall|x: int| 0 <= x < r0.len() implies s[i + x] == r0[x] by {
            assert(rows_text(l)[x] == r0[x]);
        }
        assert(s.subrange(i, i + r0.len() as int) =~= r0);
        lemma_sp_row_rt(s, i, l[0]);
        let j = i + r0.len();
        assert(r0.len() > 0);
        assert forall|x: int| 0 <= x < rest.len() implies s[j + x] == rest[x] by {
            assert(rows_text(l)[r0.len() + x] == rest[x]);
        }
        assert(s.subrange(j, s.len() as int) =~= rest);
        lemma_sp_rows_rt(s, j, l.skip(1));
        assert(seq![l[0]] + l.skip(1) =~= l);
    }
}

/// The round-trip law: decoding an encoded list gives back exactly that
/// list — order, titles, priorities and statuses all preserved —
/// including the empty list.
pub proof fn lemma_save_load_round_trip(l: Seq<TaskModel>)
    ensures
        spec_decode(spec_encode(l)) == Some(l),
{
    if l.len() == 0 {
        assert(spec_encode(l).len() == 0);
        assert(l =~= Seq::<TaskModel>::empty());
    } else {
        let s = spec_encode(l);
        let h = header_text();
        reveal_strlit("title,priority,status\n");
        assert(h.len() == 22);
        assert(s == h + rows_text(l));
        assert(s.len() >= h.len());
        assert(s.len() > 0);
        assert(s.subrange(0, h.len() as int) =~= h);
        assert forall|x: int| 0 <= x < rows_text(l).len() implies s[h.len() + x] == rows_text(
            l,
        )[x] by {
            assert((h + rows_text(l))[h.len() + x] == rows_text(l)[x]);
        }
        assert(s.subrange(h.len() as int, s.len() as int) =~= rows_text(l));
        lemma_sp_rows_rt(s, h.len() as int, l);
    }
}

/// Saving a list over a file that held a longer one leaves no residual
/// rows: the stored text is a function of the saved list alone, so
/// decoding it yields exactly the shorter list.
pub proof fn lemma_save_shorter_no_residue(prev: Seq<TaskModel>, l: Seq<TaskModel>)
    requires
        l.len() < prev.len(),
    ensures
        spec_decode(spec_encode(l)) == Some(l),
{
    lemma_save_load_round_trip(l);
}

} // verus!
