use crate::data::{
    ended, ended_since, get_most_recent_task, get_tasks_start_with, get_todays_tasks,
    has_running, has_start, id_clash, is_last_running, lemma_last_running_unique,
    lemma_start_position_unique, last_running, start_position, unique_ids, unique_starts,
    upserted, views, with_id_fragment, TaskDto, TaskTable, TaskView,
};
use crate::stamp::{stamp_text, Stamp};
use crate::terror::{ErrorKind, TError};
use crate::time::{get_day_ago_utc_string, previous_date};
use vstd::prelude::*;

verus! {

/// No two rows run at once.
pub open spec fn at_most_one_running(rows: Seq<TaskView>) -> bool {
    forall|i: int, j: int|
        0 <= i < rows.len() && 0 <= j < rows.len() && rows[i].running && rows[j].running ==> i
            == j
}

/// The task that a start creates.
pub open spec fn started(description: Seq<char>, project_name: Seq<char>, start_time: Seq<char>, unique_id: Seq<char>) -> TaskView {
    TaskView {
        end_time: start_time,
        description,
        project_name,
        running: true,
        start_time,
        unique_id,
    }
}

/// The table after starting `new`: a running task first ends at the start of `new`.
pub open spec fn after_start(rows: Seq<TaskView>, new: TaskView) -> Seq<TaskView> {
    if has_running(rows) {
        upserted(upserted(rows, ended(rows[last_running(rows)], new.start_time)), new)
    } else {
        upserted(rows, new)
    }
}

/// Row `i` is the first with identifier `id`.
pub open spec fn is_first_id(rows: Seq<TaskView>, id: Seq<char>, i: int) -> bool {
    &&& 0 <= i < rows.len()
    &&& rows[i].unique_id == id
    &&& forall|k: int| 0 <= k < i ==> rows[k].unique_id != id
}

pub open spec fn has_id(rows: Seq<TaskView>, id: Seq<char>) -> bool {
    exists|k: int| 0 <= k < rows.len() && rows[k].unique_id == id
}

/// The table with row `k` ended at `end` is the table with that row replaced.
proof fn lemma_end_in_place(rows: Seq<TaskView>, k: int, end: Seq<char>)
    requires
        unique_starts(rows),
        unique_ids(rows),
        0 <= k < rows.len(),
    ensures
        !id_clash(rows, ended(rows[k], end)),
        upserted(rows, ended(rows[k], end)) == rows.update(k, ended(rows[k], end)),
{
    lemma_start_position_unique(rows, k);
}

/// Starts a task at `start_time`. A task that runs is ended first, at that same instant,
/// and is returned, ended; every other row stays as it was, and the new task goes last.
/// Where another task already has `unique_id`, or a task already starts at
/// `start_time`, nothing changes and the result is an error of kind `Sql`.
pub fn start_task(
    table: &mut TaskTable,
    description: String,
    project_name: String,
    start_time: String,
    unique_id: String,
) -> (r: Result<Option<TaskDto>, TError>)
    requires
        old(table).wf(),
    ensures
        final(table).wf(),
        r is Err <==> id_clash(
            old(table)@,
            started(description@, project_name@, start_time@, unique_id@),
        ) || has_start(old(table)@, start_time@),
        r matches Err(e) ==> e.kind == ErrorKind::Sql && final(table)@ == old(table)@,
        r is Ok ==> final(table)@ == after_start(
            old(table)@,
            started(description@, project_name@, start_time@, unique_id@),
        ),
        r is Ok ==> final(table)@.len() == old(table)@.len() + 1 && final(table)@.last()
            == started(description@, project_name@, start_time@, unique_id@),
        r is Ok ==> forall|k: int|
            0 <= k < old(table)@.len() && !old(table)@[k].running ==> final(table)@[k] == old(
                table,
            )@[k],
        r matches Ok(p) ==> (p is Some <==> has_running(old(table)@)),
        r matches Ok(Some(p)) ==> p@ == ended(
            old(table)@[last_running(old(table)@)],
            start_time@,
        ),
{
    let new_task = TaskDto::new_running(description, project_name, start_time, unique_id);
    if table.id_clashes(&new_task) {
        return Err(
            TError::new(ErrorKind::Sql, String::from_str("another task already has this identifier")),
        );
    }
    if table.find_start(&new_task.start_time).is_some() {
        return Err(
            TError::new(ErrorKind::Sql, String::from_str("a task already starts at this time")),
        );
    }
    match table.most_recent_running() {
        Some(i) => {
            let ghost before = table@;
            let mut previous = table.row(i).duplicate();
            previous.end_task(new_task.start_time.clone());
            proof {
                lemma_end_in_place(before, i as int, new_task.start_time@);
            }
            match previous.save_to_db(table) {
                Ok(()) => {},
                Err(e) => {
                    return Err(e);
                },
            }
            proof {
                let mid = table@;
                assert forall|k: int| 0 <= k < mid.len() implies mid[k].unique_id
                    == before[k].unique_id && mid[k].start_time == before[k].start_time by {}
                if id_clash(mid, new_task@) {
                    let k = choose|k: int|
                        0 <= k < mid.len() && mid[k].unique_id == new_task@.unique_id
                            && mid[k].start_time != new_task@.start_time;
                    assert(id_clash(before, new_task@));
                }
                if has_start(mid, new_task@.start_time) {
                    let k = choose|k: int|
                        0 <= k < mid.len() && mid[k].start_time == new_task@.start_time;
                    assert(has_start(before, new_task@.start_time));
                }
            }
            match new_task.save_to_db(table) {
                Ok(()) => {},
                Err(e) => {
                    return Err(e);
                },
            }
            Ok(Some(previous))
        },
        None => {
            match new_task.save_to_db(table) {
                Ok(()) => {},
                Err(e) => {
                    return Err(e);
                },
            }
            Ok(None)
        },
    }
}

/// Ends the running task at `end_time`; `NoTaskRunning` where none runs, the table
/// then unchanged.
pub fn end_running_task(table: &mut TaskTable, end_time: String) -> (r: Result<TaskDto, TError>)
    requires
        old(table).wf(),
    ensures
        final(table).wf(),
        r is Err <==> !has_running(old(table)@),
        r matches Err(e) ==> e.kind == ErrorKind::NoTaskRunning && final(table)@ == old(table)@,
        r matches Ok(t) ==> t@ == ended(old(table)@[last_running(old(table)@)], end_time@)
            && final(table)@ == old(table)@.update(last_running(old(table)@), t@),
{
    match table.most_recent_running() {
        Some(i) => {
            let mut task = table.row(i).duplicate();
            task.end_task(end_time);
            proof {
                lemma_end_in_place(table@, i as int, task@.end_time);
            }
            match task.save_to_db(table) {
                Ok(()) => Ok(task),
                Err(e) => Err(e),
            }
        },
        None => Err(
            TError::new(ErrorKind::NoTaskRunning, String::from_str("you currently have no task running")),
        ),
    }
}

/// The running task; `NoTaskRunning` where none runs.
pub fn running_task_info(table: &TaskTable) -> (r: Result<TaskDto, TError>)
    ensures
        r is Err <==> !has_running(table@),
        r matches Err(e) ==> e.kind == ErrorKind::NoTaskRunning,
        r matches Ok(t) ==> t@ == table@[last_running(table@)],
{
    match get_most_recent_task(table) {
        Ok(t) => Ok(t),
        Err(_) => Err(
            TError::new(ErrorKind::NoTaskRunning, String::from_str("you currently have no task running")),
        ),
    }
}

/// The tasks whose identifier holds `id_fragment`; an empty list, not an error, where
/// none does or the fragment is empty.
pub fn find_tasks(table: &TaskTable, id_fragment: &str) -> (r: Vec<TaskDto>)
    ensures
        views(r@) == with_id_fragment(table@, id_fragment@),
{
    get_tasks_start_with(table, id_fragment)
}

/// Deletes the first task with identifier `unique_id` and returns it. `NotFound` where
/// there is none, `TaskRunning` where it runs; the table is then unchanged.
pub fn delete_task(table: &mut TaskTable, unique_id: &str) -> (r: Result<TaskDto, TError>)
    requires
        old(table).wf(),
    ensures
        final(table).wf(),
        r matches Err(e) ==> final(table)@ == old(table)@,
        r is Ok <==> exists|i: int|
            is_first_id(old(table)@, unique_id@, i) && !old(table)@[i].running,
        (r matches Err(e) && e.kind == ErrorKind::NotFound) <==> !has_id(old(table)@, unique_id@),
        (r matches Err(e) && e.kind == ErrorKind::TaskRunning) <==> exists|i: int|
            is_first_id(old(table)@, unique_id@, i) && old(table)@[i].running,
        r matches Ok(t) ==> exists|i: int|
            is_first_id(old(table)@, unique_id@, i) && !old(table)@[i].running && t@ == old(
                table,
            )@[i] && final(table)@ == old(table)@.remove(i),
{
    match table.find_id(unique_id) {
        None => Err(
            TError::new(
                ErrorKind::NotFound,
                String::from_str("there was no tasks found with your id. check your id and try again"),
            ),
        ),
        Some(i) => {
            assert(is_first_id(table@, unique_id@, i as int));
            if table.row(i).running {
                Err(
                    TError::new(
                        ErrorKind::TaskRunning,
                        String::from_str(
                            "a running entry cannot be deleted; end it first",
                        ),
                    ),
                )
            } else {
                proof {
                    assert forall|j: int| is_first_id(table@, unique_id@, j) implies j == i by {
                        if j < i {
                        } else if i < j {
                        }
                    }
                }
                Ok(table.remove_row(i))
            }
        },
    }
}

} // verus!

verus! {

proof fn lemma_upserted(rows: Seq<TaskView>, t: TaskView)
    requires
        unique_starts(rows),
    ensures
        unique_starts(upserted(rows, t)),
        has_start(rows, t.start_time) ==> upserted(rows, t).len() == rows.len(),
        !has_start(rows, t.start_time) ==> upserted(rows, t).len() == rows.len() + 1,
        exists|p: int|
            0 <= p < upserted(rows, t).len() && upserted(rows, t)[p] == t && (p < rows.len()
                ==> rows[p].start_time == t.start_time) && forall|i: int|
                0 <= i < upserted(rows, t).len() && i != p ==> upserted(rows, t)[i] == rows[i]
                    && rows[i].start_time != t.start_time,
{
    let u = upserted(rows, t);
    if has_start(rows, t.start_time) {
        let p = start_position(rows, t.start_time);
        assert(0 <= p < rows.len() && rows[p].start_time == t.start_time);
        assert forall|i: int| 0 <= i < u.len() && i != p implies u[i] == rows[i]
            && rows[i].start_time != t.start_time by {}
        assert(u[p] == t);
    } else {
        let p = rows.len() as int;
        assert forall|i: int| 0 <= i < u.len() && i != p implies u[i] == rows[i]
            && rows[i].start_time != t.start_time by {
            if rows[i].start_time == t.start_time {
                assert(has_start(rows, t.start_time));
            }
        }
        assert(u[p] == t);
    }
}

/// Once a row that ran has ended, no row runs.
proof fn lemma_end_stops_all(rows: Seq<TaskView>, end: Seq<char>)
    requires
        unique_starts(rows),
        at_most_one_running(rows),
        has_running(rows),
    ensures
        is_last_running(rows, last_running(rows)),
        unique_starts(upserted(rows, ended(rows[last_running(rows)], end))),
        !has_running(upserted(rows, ended(rows[last_running(rows)], end))),
        upserted(rows, ended(rows[last_running(rows)], end)) == rows.update(
            last_running(rows),
            ended(rows[last_running(rows)], end),
        ),
{
    let k0 = choose|i: int| 0 <= i < rows.len() && rows[i].running;
    assert(is_last_running(rows, k0)) by {
        assert forall|j: int| k0 < j < rows.len() implies !rows[j].running by {}
    }
    lemma_last_running_unique(rows, k0);
    let k = last_running(rows);
    lemma_start_position_unique(rows, k);
    let e = ended(rows[k], end);
    let u = upserted(rows, e);
    lemma_upserted(rows, e);
    assert(u == rows.update(k, e));
    assert forall|i: int| 0 <= i < u.len() implies !u[i].running by {
        if i != k {
            assert(rows[i].running ==> i == k);
        }
    }
}

/// Starting a task while another runs ends the running one at the new start time and
/// leaves the new task as the only one that runs, each start time still on one row.
pub proof fn lemma_start_ends_running_task(rows: Seq<TaskView>, new: TaskView)
    requires
        unique_starts(rows),
        at_most_one_running(rows),
        has_running(rows),
        new.running,
        rows[last_running(rows)].start_time != new.start_time,
    ensures
        unique_starts(after_start(rows, new)),
        exists|i: int|
            0 <= i < after_start(rows, new).len() && after_start(rows, new)[i] == ended(
                rows[last_running(rows)],
                new.start_time,
            ),
        exists|i: int| 0 <= i < after_start(rows, new).len() && after_start(rows, new)[i] == new,
        forall|i: int|
            0 <= i < after_start(rows, new).len() ==> (after_start(rows, new)[i].running
                <==> after_start(rows, new)[i].start_time == new.start_time),
{
    let k = last_running(rows);
    let e = ended(rows[k], new.start_time);
    lemma_end_stops_all(rows, new.start_time);
    let mid = upserted(rows, e);
    lemma_upserted(mid, new);
    let r = upserted(mid, new);
    let p = choose|p: int|
        0 <= p < r.len() && r[p] == new && (p < mid.len() ==> mid[p].start_time == new.start_time)
            && forall|i: int|
            0 <= i < r.len() && i != p ==> r[i] == mid[i] && mid[i].start_time != new.start_time;
    assert(r == after_start(rows, new));
    assert(mid[k] == e);
    assert(r[k] == e);
    assert(0 <= k < r.len());
    assert(r[p] == new);
    assert forall|i: int| 0 <= i < r.len() implies (r[i].running <==> r[i].start_time
        == new.start_time) by {
        if i != p {
            assert(!mid[i].running);
        }
    }
}

/// Starting a task keeps at most one task running.
pub proof fn lemma_start_keeps_one_running(rows: Seq<TaskView>, new: TaskView)
    requires
        unique_starts(rows),
        at_most_one_running(rows),
        new.running,
    ensures
        at_most_one_running(after_start(rows, new)),
{
    let mid = if has_running(rows) {
        lemma_end_stops_all(rows, new.start_time);
        upserted(rows, ended(rows[last_running(rows)], new.start_time))
    } else {
        rows
    };
    assert(!has_running(mid));
    assert(unique_starts(mid));
    lemma_upserted(mid, new);
    let r = upserted(mid, new);
    assert(r == after_start(rows, new));
    let p = choose|p: int|
        0 <= p < r.len() && r[p] == new && (p < mid.len() ==> mid[p].start_time == new.start_time)
            && forall|i: int|
            0 <= i < r.len() && i != p ==> r[i] == mid[i] && mid[i].start_time != new.start_time;
    assert forall|i: int, j: int|
        0 <= i < r.len() && 0 <= j < r.len() && r[i].running && r[j].running implies i == j by {
        if i != p {
            assert(mid[i].running);
        }
        if j != p {
            assert(mid[j].running);
        }
    }
}

/// Ending the running task leaves no task running.
pub proof fn lemma_end_stops_running(rows: Seq<TaskView>, end_time: Seq<char>)
    requires
        unique_starts(rows),
        at_most_one_running(rows),
        has_running(rows),
    ensures
        !has_running(
            rows.update(last_running(rows), ended(rows[last_running(rows)], end_time)),
        ),
{
    lemma_end_stops_all(rows, end_time);
}

/// Deleting a task keeps at most one task running.
pub proof fn lemma_delete_keeps_one_running(rows: Seq<TaskView>, i: int)
    requires
        at_most_one_running(rows),
        0 <= i < rows.len(),
    ensures
        at_most_one_running(rows.remove(i)),
{
    let r = rows.remove(i);
    assert forall|a: int, b: int|
        0 <= a < r.len() && 0 <= b < r.len() && r[a].running && r[b].running implies a == b by {
        let a0 = if a < i { a } else { a + 1 };
        let b0 = if b < i { b } else { b + 1 };
        assert(r[a] == rows[a0]);
        assert(r[b] == rows[b0]);
    }
}

/// An empty identifier fragment finds no task.
pub proof fn lemma_find_empty_fragment(rows: Seq<TaskView>)
    ensures
        with_id_fragment(rows, Seq::<char>::empty()) == Seq::<TaskView>::empty(),
    decreases rows.len(),
{
    if rows.len() > 0 {
        lemma_find_empty_fragment(rows.drop_last());
    }
}

} // verus!

verus! {

/// The tasks that ended within the last day, in insertion order.
pub fn list_recent_tasks(table: &TaskTable) -> (r: Result<Vec<TaskDto>, TError>)
    ensures
        r matches Ok(v) ==> exists|now: Stamp|
            now.wf() && views(v@) == ended_since(table@, stamp_text(previous_date(now))),
        r matches Err(e) ==> e.kind == ErrorKind::Misc,
{
    let cutoff = get_day_ago_utc_string()?;
    Ok(get_todays_tasks(table, cutoff.as_str()))
}

} // verus!
