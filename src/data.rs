use crate::terror::{ErrorKind, TError};
use crate::text::{contains, is_text_less, text_contains, text_less};
use vstd::prelude::*;

verus! {

/// One tracked task, as stored.
#[derive(Debug)]
pub struct TaskDto {
    /// Canonical UTC timestamp; equal to `start_time` while the task runs.
    pub end_time: String,
    pub description: String,
    pub project_name: String,
    pub running: bool,
    /// Canonical UTC timestamp; the key of the task in its table.
    pub start_time: String,
    pub unique_id: String,
}

/// The content of a task.
pub struct TaskView {
    pub end_time: Seq<char>,
    pub description: Seq<char>,
    pub project_name: Seq<char>,
    pub running: bool,
    pub start_time: Seq<char>,
    pub unique_id: Seq<char>,
}

impl View for TaskDto {
    type V = TaskView;

    open spec fn view(&self) -> TaskView {
        TaskView {
            end_time: self.end_time@,
            description: self.description@,
            project_name: self.project_name@,
            running: self.running,
            start_time: self.start_time@,
            unique_id: self.unique_id@,
        }
    }
}

/// `t` ended at `end`.
pub open spec fn ended(t: TaskView, end: Seq<char>) -> TaskView {
    TaskView { end_time: end, running: false, ..t }
}

impl TaskDto {
    /// A task that starts running at `start_time`.
    pub fn new_running(description: String, project_name: String, start_time: String, unique_id: String) -> (r: TaskDto)
        ensures
            r@ == (TaskView {
                end_time: start_time@,
                description: description@,
                project_name: project_name@,
                running: true,
                start_time: start_time@,
                unique_id: unique_id@,
            }),
    {
        TaskDto { end_time: start_time.clone(), description, project_name, running: true, start_time, unique_id }
    }

    /// A copy of the task.
    pub fn duplicate(&self) -> (r: TaskDto)
        ensures
            r@ == self@,
    {
        TaskDto {
            end_time: self.end_time.clone(),
            description: self.description.clone(),
            project_name: self.project_name.clone(),
            running: self.running,
            start_time: self.start_time.clone(),
            unique_id: self.unique_id.clone(),
        }
    }

    /// Marks the task ended at `end_time`.
    pub fn end_task(&mut self, end_time: String)
        ensures
            final(self)@ == ended(old(self)@, end_time@),
    {
        self.running = false;
        self.end_time = end_time;
    }
}

// ---------------------------------------------------------------- the table
/// No two rows share a start time.
pub open spec fn unique_starts(rows: Seq<TaskView>) -> bool {
    forall|i: int, j: int|
        0 <= i < rows.len() && 0 <= j < rows.len() && i != j ==> rows[i].start_time
            != rows[j].start_time
}

/// No two rows share an identifier.
pub open spec fn unique_ids(rows: Seq<TaskView>) -> bool {
    forall|i: int, j: int|
        0 <= i < rows.len() && 0 <= j < rows.len() && i != j ==> rows[i].unique_id
            != rows[j].unique_id
}

/// Storing `t` would give its identifier to a second row: a row with another start
/// time already has it.
pub open spec fn id_clash(rows: Seq<TaskView>, t: TaskView) -> bool {
    exists|i: int|
        0 <= i < rows.len() && rows[i].unique_id == t.unique_id && rows[i].start_time
            != t.start_time
}

pub open spec fn has_start(rows: Seq<TaskView>, st: Seq<char>) -> bool {
    exists|i: int| 0 <= i < rows.len() && rows[i].start_time == st
}

/// The row whose start time is `st`, where there is one.
pub open spec fn start_position(rows: Seq<TaskView>, st: Seq<char>) -> int {
    choose|i: int| 0 <= i < rows.len() && rows[i].start_time == st
}

/// Insert or overwrite keyed on the start time: a row with the start time of `t` is
/// replaced in place, else `t` goes last.
pub open spec fn upserted(rows: Seq<TaskView>, t: TaskView) -> Seq<TaskView> {
    if has_start(rows, t.start_time) {
        rows.update(start_position(rows, t.start_time), t)
    } else {
        rows.push(t)
    }
}

pub open spec fn has_running(rows: Seq<TaskView>) -> bool {
    exists|i: int| 0 <= i < rows.len() && rows[i].running
}

/// Row `i` runs and no later row does.
pub open spec fn is_last_running(rows: Seq<TaskView>, i: int) -> bool {
    &&& 0 <= i < rows.len()
    &&& rows[i].running
    &&& forall|j: int| i < j < rows.len() ==> !rows[j].running
}

/// The most recently inserted row that runs, where one does.
pub open spec fn last_running(rows: Seq<TaskView>) -> int {
    choose|i: int| is_last_running(rows, i)
}

/// The rows that `keep` accepts, in their order.
pub open spec fn select(rows: Seq<TaskView>, keep: spec_fn(TaskView) -> bool) -> Seq<TaskView>
    decreases rows.len(),
{
    if rows.len() == 0 {
        seq![]
    } else {
        let rest = select(rows.drop_last(), keep);
        if keep(rows.last()) {
            rest.push(rows.last())
        } else {
            rest
        }
    }
}

/// The rows whose end time is not before `cutoff`, as texts.
pub open spec fn ended_since(rows: Seq<TaskView>, cutoff: Seq<char>) -> Seq<TaskView> {
    select(rows, |t: TaskView| !text_less(t.end_time, cutoff))
}

/// The rows whose identifier holds `fragment`; none for an empty fragment.
pub open spec fn with_id_fragment(rows: Seq<TaskView>, fragment: Seq<char>) -> Seq<TaskView> {
    select(rows, |t: TaskView| fragment.len() > 0 && text_contains(t.unique_id, fragment))
}

pub proof fn lemma_last_running_unique(rows: Seq<TaskView>, i: int)
    requires
        is_last_running(rows, i),
    ensures
        last_running(rows) == i,
{
    let k = last_running(rows);
    assert(is_last_running(rows, k));
    if k < i {
        assert(!rows[i].running);
    } else if i < k {
        assert(!rows[k].running);
    }
}

pub proof fn lemma_start_position_unique(rows: Seq<TaskView>, i: int)
    requires
        unique_starts(rows),
        0 <= i < rows.len(),
    ensures
        has_start(rows, rows[i].start_time),
        start_position(rows, rows[i].start_time) == i,
{
    assert(0 <= i < rows.len() && rows[i].start_time == rows[i].start_time);
    let k = start_position(rows, rows[i].start_time);
}

/// The stored tasks, in insertion order.
pub struct TaskTable {
    rows: Vec<TaskDto>,
}

impl View for TaskTable {
    type V = Seq<TaskView>;

    closed spec fn view(&self) -> Seq<TaskView> {
        self.rows@.map_values(|t: TaskDto| t@)
    }
}

impl TaskTable {
    /// The table holds no two rows with one start time, nor two with one identifier.
    pub open spec fn wf(&self) -> bool {
        unique_starts(self@) && unique_ids(self@)
    }

    pub fn new() -> (r: TaskTable)
        ensures
            r@ == Seq::<TaskView>::empty(),
            r.wf(),
    {
        let r = TaskTable { rows: Vec::new() };
        assert(r@ =~= Seq::<TaskView>::empty());
        r
    }

    pub fn len(&self) -> (r: usize)
        ensures
            r == self@.len(),
    {
        self.rows.len()
    }

    /// The row at `i`.
    pub fn row(&self, i: usize) -> (r: &TaskDto)
        requires
            i < self@.len(),
        ensures
            r@ == self@[i as int],
    {
        &self.rows[i]
    }

    /// The position of the row that starts at `st`.
    pub fn find_start(&self, st: &String) -> (r: Option<usize>)
        ensures
            r is None <==> !has_start(self@, st@),
            r matches Some(i) ==> i < self@.len() && self@[i as int].start_time == st@,
    {
        let mut i: usize = 0;
        while i < self.rows.len()
            invariant
                i <= self@.len(),
                self@.len() == self.rows@.len(),
                forall|k: int| 0 <= k < i ==> self@[k].start_time != st@,
            decreases self.rows@.len() - i,
        {
            if self.rows[i].start_time == *st {
                assert(self@[i as int] == self.rows@[i as int]@);
                return Some(i);
            }
            i = i + 1;
        }
        None
    }

    /// The position of the most recently inserted running row.
    pub fn most_recent_running(&self) -> (r: Option<usize>)
        ensures
            r is None <==> !has_running(self@),
            r matches Some(i) ==> is_last_running(self@, i as int) && last_running(self@) == i,
    {
        let mut i: usize = self.rows.len();
        while i > 0
            invariant
                i <= self@.len(),
                self@.len() == self.rows@.len(),
                forall|k: int| i <= k < self@.len() ==> !self@[k].running,
            decreases i,
        {
            if self.rows[i - 1].running {
                proof {
                    lemma_last_running_unique(self@, i - 1);
                }
                return Some(i - 1);
            }
            i = i - 1;
        }
        None
    }

    /// Whether storing `task` would give its identifier to a second row.
    pub fn id_clashes(&self, task: &TaskDto) -> (r: bool)
        ensures
            r == id_clash(self@, task@),
    {
        let mut i: usize = 0;
        while i < self.rows.len()
            invariant
                i <= self@.len(),
                self@.len() == self.rows@.len(),
                forall|k: int|
                    0 <= k < i ==> !(self@[k].unique_id == task@.unique_id && self@[k].start_time
                        != task@.start_time),
            decreases self.rows@.len() - i,
        {
            assert(self@[i as int] == self.rows@[i as int]@);
            if self.rows[i].unique_id == task.unique_id && !(self.rows[i].start_time
                == task.start_time) {
                return true;
            }
            i = i + 1;
        }
        false
    }

    /// Stores `task`, overwriting the row with its start time where there is one. Where
    /// another row already has its identifier, nothing is stored and the result is an
    /// error of kind `Sql`.
    pub fn upsert(&mut self, task: TaskDto) -> (r: Result<(), TError>)
        requires
            old(self).wf(),
        ensures
            final(self).wf(),
            r is Err <==> id_clash(old(self)@, task@),
            r matches Err(e) ==> e.kind == ErrorKind::Sql && final(self)@ == old(self)@,
            r is Ok ==> final(self)@ == upserted(old(self)@, task@),
    {
        if self.id_clashes(&task) {
            return Err(
                TError::new(
                    ErrorKind::Sql,
                    String::from_str("another task already has this identifier"),
                ),
            );
        }
        let ghost before = self@;
        match self.find_start(&task.start_time) {
            Some(i) => {
                proof {
                    lemma_start_position_unique(before, i as int);
                }
                self.rows.set(i, task);
                assert(self@ =~= before.update(i as int, task@));
                assert forall|a: int, b: int|
                    0 <= a < self@.len() && 0 <= b < self@.len() && a != b implies self@[a].unique_id
                    != self@[b].unique_id by {
                    if a == i {
                        assert(before[b].unique_id != task@.unique_id || before[b].start_time
                            == task@.start_time);
                    } else if b == i {
                        assert(before[a].unique_id != task@.unique_id || before[a].start_time
                            == task@.start_time);
                    }
                }
            },
            None => {
                self.rows.push(task);
                assert(self@ =~= before.push(task@));
                assert forall|a: int, b: int|
                    0 <= a < self@.len() && 0 <= b < self@.len() && a != b implies self@[a].unique_id
                    != self@[b].unique_id by {
                    if a == before.len() {
                        assert(before[b].start_time != task@.start_time);
                    } else if b == before.len() {
                        assert(before[a].start_time != task@.start_time);
                    }
                }
            },
        }
        Ok(())
    }

    /// Removes the row at `i`.
    pub fn remove_row(&mut self, i: usize) -> (r: TaskDto)
        requires
            old(self).wf(),
            i < old(self)@.len(),
        ensures
            r@ == old(self)@[i as int],
            final(self)@ == old(self)@.remove(i as int),
            final(self).wf(),
    {
        let ghost before = self@;
        let r = self.rows.remove(i);
        assert(self@ =~= before.remove(i as int));
        assert forall|a: int, b: int|
            0 <= a < self@.len() && 0 <= b < self@.len() && a != b implies self@[a].unique_id
            != self@[b].unique_id && self@[a].start_time != self@[b].start_time by {
            let a0 = if a < i { a } else { a + 1 };
            let b0 = if b < i { b } else { b + 1 };
            assert(self@[a] == before[a0]);
            assert(self@[b] == before[b0]);
        }
        r
    }

    /// The position of the first row whose identifier is exactly `unique_id`.
    pub fn find_id(&self, unique_id: &str) -> (r: Option<usize>)
        ensures
            r is None <==> !(exists|k: int| 0 <= k < self@.len() && self@[k].unique_id == unique_id@),
            r matches Some(i) ==> i < self@.len() && self@[i as int].unique_id == unique_id@
                && forall|k: int| 0 <= k < i ==> self@[k].unique_id != unique_id@,
    {
        let target = String::from_str(unique_id);
        let mut i: usize = 0;
        while i < self.rows.len()
            invariant
                i <= self@.len(),
                self@.len() == self.rows@.len(),
                target@ == unique_id@,
                forall|k: int| 0 <= k < i ==> self@[k].unique_id != unique_id@,
            decreases self.rows@.len() - i,
        {
            if self.rows[i].unique_id == target {
                assert(self@[i as int] == self.rows@[i as int]@);
                return Some(i);
            }
            i = i + 1;
        }
        None
    }
}

} // verus!

verus! {

/// The contents of a list of tasks.
pub open spec fn views(v: Seq<TaskDto>) -> Seq<TaskView> {
    v.map_values(|t: TaskDto| t@)
}

impl TaskDto {
    /// Stores the task in `table`, overwriting the row with its start time where
    /// there is one; an error of kind `Sql`, the table unchanged, where another row
    /// already has its identifier.
    pub fn save_to_db(&self, table: &mut TaskTable) -> (r: Result<(), TError>)
        requires
            old(table).wf(),
        ensures
            final(table).wf(),
            r is Err <==> id_clash(old(table)@, self@),
            r matches Err(e) ==> e.kind == ErrorKind::Sql && final(table)@ == old(table)@,
            r is Ok ==> final(table)@ == upserted(old(table)@, self@),
    {
        table.upsert(self.duplicate())
    }
}

/// The most recently inserted running task; `NotFound` where none runs.
pub fn get_most_recent_task(table: &TaskTable) -> (r: Result<TaskDto, TError>)
    ensures
        r is Err <==> !has_running(table@),
        r matches Err(e) ==> e.kind == ErrorKind::NotFound,
        r matches Ok(t) ==> t@ == table@[last_running(table@)],
{
    match table.most_recent_running() {
        Some(i) => Ok(table.row(i).duplicate()),
        None => Err(TError::new(ErrorKind::NotFound, String::from_str("no task is running"))),
    }
}

/// The tasks whose end time, as text, is not before `cutoff`, in insertion order.
pub fn get_todays_tasks(table: &TaskTable, cutoff: &str) -> (r: Vec<TaskDto>)
    ensures
        views(r@) == ended_since(table@, cutoff@),
{
    let mut out: Vec<TaskDto> = Vec::new();
    let mut i: usize = 0;
    while i < table.len()
        invariant
            i <= table@.len(),
            views(out@) == ended_since(table@.subrange(0, i as int), cutoff@),
        decreases table@.len() - i,
    {
        let row = table.row(i);
        let ghost before = out@;
        assert(table@.subrange(0, i + 1).drop_last() =~= table@.subrange(0, i as int));
        if !is_text_less(row.end_time.as_str(), cutoff) {
            out.push(row.duplicate());
            assert(views(out@) =~= views(before).push(row@));
        }
        i = i + 1;
    }
    assert(table@.subrange(0, table@.len() as int) =~= table@);
    out
}

/// The tasks whose identifier holds `fragment`, in insertion order; none where the
/// fragment is empty.
pub fn get_tasks_start_with(table: &TaskTable, fragment: &str) -> (r: Vec<TaskDto>)
    ensures
        views(r@) == with_id_fragment(table@, fragment@),
{
    let mut out: Vec<TaskDto> = Vec::new();
    let empty = fragment.unicode_len() == 0;
    let mut i: usize = 0;
    while i < table.len()
        invariant
            i <= table@.len(),
            empty == (fragment@.len() == 0),
            views(out@) == with_id_fragment(table@.subrange(0, i as int), fragment@),
        decreases table@.len() - i,
    {
        let row = table.row(i);
        let ghost before = out@;
        assert(table@.subrange(0, i + 1).drop_last() =~= table@.subrange(0, i as int));
        if !empty && contains(row.unique_id.as_str(), fragment) {
            out.push(row.duplicate());
            assert(views(out@) =~= views(before).push(row@));
        }
        i = i + 1;
    }
    assert(table@.subrange(0, table@.len() as int) =~= table@);
    out
}

} // verus!
