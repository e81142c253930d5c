use crate::data::{views, TaskDto, TaskView};
use crate::stamp::{
    date_text, digit_char, digit_str, is_stamp_text, lemma_instant_bounds, lemma_near_stamps_years,
    stamp_of_text, stamp_text, Stamp,
};
use crate::terror::{ErrorKind, TError};
use crate::time::{
    checked_date_text, checked_display, convert_to_local_timestamp, display_text, local_now,
    local_stamp_of, seconds_between, within_a_day,
};
use vstd::prelude::*;

verus! {

/// Decimal digits of a natural number, without leading zeros.
pub open spec fn nat_text(n: nat) -> Seq<char>
    decreases n,
{
    if n < 10 {
        seq![digit_char(n as int)]
    } else {
        nat_text(n / 10).push(digit_char((n % 10) as int))
    }
}

/// Decimal text of an integer, with a leading `-` where it is negative.
pub open spec fn decimal_text(n: int) -> Seq<char> {
    if n < 0 {
        seq!['-'] + nat_text((-n) as nat)
    } else {
        nat_text(n as nat)
    }
}

/// `a / b` rounded toward zero.
pub open spec fn trunc_div(a: int, b: int) -> int {
    if a >= 0 {
        a / b
    } else {
        -((-a) / b)
    }
}

/// `v` where it is below `m`, else its remainder by `m`.
pub open spec fn below_or_mod(v: int, m: int) -> int {
    if v < m {
        v
    } else {
        v % m
    }
}

/// `D days, H hours, M minutes and S seconds` of a span of `s` seconds: whole days,
/// then the hours, minutes and seconds left over.
pub open spec fn duration_text(s: int) -> Seq<char> {
    decimal_text(trunc_div(s, 86400)) + " days, "@ + decimal_text(below_or_mod(trunc_div(s, 3600), 24))
        + " hours, "@ + decimal_text(below_or_mod(trunc_div(s, 60), 60)) + " minutes and "@
        + decimal_text(below_or_mod(s, 60)) + " seconds"@
}

/// Appends the decimal digits of `n`.
pub fn push_nat(out: &mut String, n: u64)
    ensures
        final(out)@ == old(out)@ + nat_text(n as nat),
    decreases n,
{
    if n >= 10 {
        push_nat(out, n / 10);
    }
    out.append(digit_str((n % 10) as u32));
    assert(final(out)@ =~= old(out)@ + nat_text(n as nat));
}

/// Appends the decimal text of the integer of sign `negative` and size `magnitude`.
fn push_signed(out: &mut String, negative: bool, magnitude: u64)
    ensures
        final(out)@ == old(out)@ + decimal_text(
            if negative {
                -(magnitude as int)
            } else {
                magnitude as int
            },
        ),
{
    proof {
        reveal_strlit("-");
    }
    let ghost start = out@;
    if negative && magnitude > 0 {
        out.append("-");
    }
    push_nat(out, magnitude);
    assert(out@ =~= start + decimal_text(
        if negative {
            -(magnitude as int)
        } else {
            magnitude as int
        },
    ));
}

/// `D days, H hours, M minutes and S seconds` of a span of `seconds` seconds.
pub fn create_duration_str(seconds: i64) -> (r: String)
    ensures
        r@ == duration_text(seconds as int),
{
    let negative = seconds < 0;
    let magnitude: u64 = if negative {
        (-(seconds + 1)) as u64 + 1
    } else {
        seconds as u64
    };
    let (days, hours, minutes, secs) = if negative {
        (magnitude / 86400, magnitude / 3600, magnitude / 60, magnitude)
    } else {
        (magnitude / 86400, magnitude / 3600 % 24, magnitude / 60 % 60, magnitude % 60)
    };
    let mut out = String::new();
    push_signed(&mut out, negative, days);
    out.append(" days, ");
    push_signed(&mut out, negative, hours);
    out.append(" hours, ");
    push_signed(&mut out, negative, minutes);
    out.append(" minutes and ");
    push_signed(&mut out, negative, secs);
    out.append(" seconds");
    assert(out@ =~= duration_text(seconds as int));
    out
}

} // verus!

verus! {

/// `taskmao: <message>` as a line.
pub open spec fn message_line(message: Seq<char>) -> Seq<char> {
    "taskmao: "@ + message + "\n"@
}

pub open spec fn started_line(desc: Seq<char>, time: Seq<char>) -> Seq<char> {
    "taskmao: started running task '"@ + desc + "' at "@ + time + "\n"@
}

pub open spec fn stopped_line(desc: Seq<char>, time: Seq<char>) -> Seq<char> {
    "taskmao: stopped running '"@ + desc + "' at "@ + time + "\n"@
}

pub open spec fn file_path_line(path: Seq<char>) -> Seq<char> {
    "taskmao: current task file path located at '"@ + path + "'\n"@
}

pub open spec fn info_text(desc: Seq<char>, start: Seq<char>, seconds: int) -> Seq<char> {
    "taskmao: currently running '"@ + desc + "' that started at '"@ + start + "'\n    Duration: "@
        + duration_text(seconds) + "\n"@
}

/// A line of the tracker for the user.
pub fn custom_message(message_to_display: &str) -> (r: String)
    ensures
        r@ == message_line(message_to_display@),
{
    let mut out = String::from_str("taskmao: ");
    out.append(message_to_display);
    out.append("\n");
    out
}

/// Where the task file lies.
pub fn task_file_path(file_path: &str) -> (r: String)
    ensures
        r@ == file_path_line(file_path@),
{
    let mut out = String::from_str("taskmao: current task file path located at '");
    out.append(file_path);
    out.append("'\n");
    out
}

/// The line for a task started at the local time of day `time`.
pub fn started_message(task_desc: &str, time: &str) -> (r: String)
    ensures
        r@ == started_line(task_desc@, time@),
{
    let mut out = String::from_str("taskmao: started running task '");
    out.append(task_desc);
    out.append("' at ");
    out.append(time);
    out.append("\n");
    out
}

/// The line for a task stopped at the local time of day `time`.
pub fn stopped_message(task_desc: &str, time: &str) -> (r: String)
    ensures
        r@ == stopped_line(task_desc@, time@),
{
    let mut out = String::from_str("taskmao: stopped running '");
    out.append(task_desc);
    out.append("' at ");
    out.append(time);
    out.append("\n");
    out
}

/// The text about a running task started at the local `start`, `seconds` ago.
pub fn info_message(task_desc: &str, start: &str, seconds: i64) -> (r: String)
    ensures
        r@ == info_text(task_desc@, start@, seconds as int),
{
    let mut out = String::from_str("taskmao: currently running '");
    out.append(task_desc);
    out.append("' that started at '");
    out.append(start);
    out.append("'\n    Duration: ");
    let d = create_duration_str(seconds);
    out.append(d.as_str());
    out.append("\n");
    out
}

/// The line for a task started at the canonical UTC `task_start_timestamp`, shown in
/// local time; `Parse` where that is no canonical timestamp.
pub fn task_start(task_start_timestamp: &str, task_desc: &str) -> (r: Result<String, TError>)
    ensures
        (r matches Err(e) && e.kind == ErrorKind::Parse) <==> !is_stamp_text(task_start_timestamp@),
        is_stamp_text(task_start_timestamp@) ==> r is Ok,
        r matches Ok(s) ==> exists|l: Stamp|
            l.wf() && within_a_day(l, stamp_of_text(task_start_timestamp@)) && s@
                == started_line(task_desc@, display_text(l, false)),
{
    let time = convert_to_local_timestamp(task_start_timestamp, false)?;
    Ok(started_message(task_desc, time.as_str()))
}

/// The line for a task stopped at the canonical UTC `task_end_timestamp`, shown in
/// local time; `Parse` where that is no canonical timestamp.
pub fn task_end(task_end_timestamp: &str, task_desc: &str) -> (r: Result<String, TError>)
    ensures
        (r matches Err(e) && e.kind == ErrorKind::Parse) <==> !is_stamp_text(task_end_timestamp@),
        is_stamp_text(task_end_timestamp@) ==> r is Ok,
        r matches Ok(s) ==> exists|l: Stamp|
            l.wf() && within_a_day(l, stamp_of_text(task_end_timestamp@)) && s@
                == stopped_line(task_desc@, display_text(l, false)),
{
    let time = convert_to_local_timestamp(task_end_timestamp, false)?;
    Ok(stopped_message(task_desc, time.as_str()))
}

/// A canonical timestamp whose local time has a four-digit year whatever the zone.
pub open spec fn reportable(s: Seq<char>) -> bool {
    is_stamp_text(s) && 1 <= stamp_of_text(s).year <= 9998
}

/// The local stamp of the canonical UTC text `utc`, with its text and a proof that the
/// year stays in range.
fn local_shown(utc: &str) -> (r: Result<(Stamp, String), TError>)
    ensures
        (r matches Err(e) && e.kind == ErrorKind::Parse) <==> !is_stamp_text(utc@),
        reportable(utc@) ==> r is Ok,
        r matches Ok((l, s)) ==> l.canonical() && within_a_day(l, stamp_of_text(utc@)) && s@
            == stamp_text(l),
{
    let l = local_stamp_of(utc)?;
    proof {
        lemma_near_stamps_years(stamp_of_text(utc@), l);
    }
    let s = checked_display(&l, true)?;
    Ok((l, s))
}

/// The text about the running `task`, the local time now being `now`: its start in local
/// time and the seconds from then to `now`.
pub fn info_report(task: &TaskDto, now: &Stamp) -> (r: Result<String, TError>)
    requires
        now.wf(),
    ensures
        (r matches Err(e) && e.kind == ErrorKind::Parse) <==> !is_stamp_text(task.start_time@),
        reportable(task.start_time@) && 0 <= now.year <= 9999 ==> r is Ok,
        r matches Ok(s) ==> exists|l: Stamp|
            l.canonical() && within_a_day(l, stamp_of_text(task.start_time@)) && s@ == info_text(
                task.description@,
                stamp_text(l),
                now.instant() - l.instant(),
            ),
{
    let (l, start) = local_shown(task.start_time.as_str())?;
    if now.year < 0 || now.year > 9999 {
        return Err(TError::new(ErrorKind::Misc, String::from_str("the date is out of range")));
    }
    proof {
        lemma_instant_bounds(l);
        lemma_instant_bounds(*now);
    }
    let seconds = match seconds_between(&l, now) {
        Some(d) => d,
        None => {
            return Err(TError::new(ErrorKind::Misc, String::from_str("the date is out of range")));
        },
    };
    let s = info_message(task.description.as_str(), start.as_str(), seconds);
    assert(l.canonical() && within_a_day(l, stamp_of_text(task.start_time@)) && s@ == info_text(
        task.description@,
        stamp_text(l),
        now.instant() - l.instant(),
    ));
    Ok(s)
}

/// The text about the running `task`: its start in local time and how long it has run.
pub fn task_info(task: &TaskDto) -> (r: Result<String, TError>)
    ensures
        (r matches Err(e) && e.kind == ErrorKind::Parse) <==> !is_stamp_text(task.start_time@),
        r matches Ok(s) ==> exists|l: Stamp, now: Stamp|
            l.canonical() && now.wf() && within_a_day(l, stamp_of_text(task.start_time@)) && s@
                == info_text(task.description@, stamp_text(l), now.instant() - l.instant()),
{
    let now = local_now();
    info_report(task, &now)
}

} // verus!

verus! {

pub open spec fn list_header(n: int, today: Seq<char>) -> Seq<char> {
    "\nYou have completed "@ + decimal_text(n) + (if n == 1 {
        " task"@
    } else {
        " tasks"@
    }) + " on the previous day, "@ + today + "\n"@
}

/// The lines for one task, its start and end shown as `start` and `end`, having lasted
/// `seconds`; a running task shows neither end nor duration.
#[verifier::opaque]
pub open spec fn entry_text(t: TaskView, start: Seq<char>, end: Seq<char>, seconds: int) -> Seq<
    char,
> {
    if t.running {
        "Current Task: "@ + t.description + "\n    Project: "@ + t.project_name
            + "\n    Start Time: "@ + start + "\n    Task Id: "@ + t.unique_id + "\n\n"@
    } else {
        "Task: "@ + t.description + "\n    Project: "@ + t.project_name + "\n    Start Time: "@
            + start + "\n    End Time: "@ + end + "\n    Duration: "@ + duration_text(seconds)
            + "\n    Task Id: "@ + t.unique_id + "\n\n"@
    }
}

pub open spec fn found_header(n: int, fragment: Seq<char>) -> Seq<char> {
    "\n"@ + decimal_text(n) + (if n == 1 {
        " task"@
    } else {
        " tasks"@
    }) + " found for the id '"@ + fragment + "'\n"@
}

/// The lines of a task shown with local stamps `a` for its start and `b` for its end.
pub open spec fn shown_entry(t: TaskView, a: Stamp, b: Stamp) -> Seq<char> {
    entry_text(t, stamp_text(a), stamp_text(b), b.instant() - a.instant())
}

/// The lines of all `tasks`, the i-th shown with local stamps `starts[i]` and `ends[i]`.
pub open spec fn entries_text(tasks: Seq<TaskView>, starts: Seq<Stamp>, ends: Seq<Stamp>) -> Seq<
    char,
>
    decreases tasks.len(),
{
    if tasks.len() == 0 {
        Seq::empty()
    } else {
        entries_text(tasks.drop_last(), starts.drop_last(), ends.drop_last()) + shown_entry(
            tasks.last(),
            starts.last(),
            ends.last(),
        )
    }
}

/// `starts[i]` and `ends[i]` are the local stamps of the start and end of `tasks[i]`.
pub open spec fn shown_locally(tasks: Seq<TaskView>, starts: Seq<Stamp>, ends: Seq<Stamp>) -> bool {
    &&& starts.len() == tasks.len() && ends.len() == tasks.len()
    &&& forall|i: int|
        0 <= i < tasks.len() ==> starts[i].canonical() && ends[i].canonical() && within_a_day(
            #[trigger] starts[i],
            stamp_of_text(tasks[i].start_time),
        ) && within_a_day(ends[i], stamp_of_text(tasks[i].end_time))
}

/// Each task's start and end are reportable.
pub open spec fn all_reportable(tasks: Seq<TaskView>) -> bool {
    forall|i: int|
        0 <= i < tasks.len() ==> reportable(#[trigger] tasks[i].start_time) && reportable(
            tasks[i].end_time,
        )
}

/// Some task's start or end is no canonical timestamp.
pub open spec fn some_malformed(tasks: Seq<TaskView>) -> bool {
    exists|i: int|
        0 <= i < tasks.len() && !(is_stamp_text(#[trigger] tasks[i].start_time) && is_stamp_text(
            tasks[i].end_time,
        ))
}

proof fn lemma_entries_push(tasks: Seq<TaskView>, starts: Seq<Stamp>, ends: Seq<Stamp>, t: TaskView, a: Stamp, b: Stamp)
    ensures
        entries_text(tasks.push(t), starts.push(a), ends.push(b)) == entries_text(tasks, starts, ends)
            + shown_entry(t, a, b),
{
    assert(tasks.push(t).drop_last() =~= tasks);
    assert(starts.push(a).drop_last() =~= starts);
    assert(ends.push(b).drop_last() =~= ends);
}

/// The lines for `task`, shown with the local texts `start` and `end`, having lasted
/// `seconds`.
pub fn task_entry(task: &TaskDto, start: &str, end: &str, seconds: i64) -> (r: String)
    ensures
        r@ == entry_text(task@, start@, end@, seconds as int),
{
    reveal(entry_text);
    let mut out;
    if task.running {
        out = String::from_str("Current Task: ");
        out.append(task.description.as_str());
        out.append("\n    Project: ");
        out.append(task.project_name.as_str());
        out.append("\n    Start Time: ");
        out.append(start);
    } else {
        out = String::from_str("Task: ");
        out.append(task.description.as_str());
        out.append("\n    Project: ");
        out.append(task.project_name.as_str());
        out.append("\n    Start Time: ");
        out.append(start);
        out.append("\n    End Time: ");
        out.append(end);
        out.append("\n    Duration: ");
        let d = create_duration_str(seconds);
        out.append(d.as_str());
    }
    out.append("\n    Task Id: ");
    out.append(task.unique_id.as_str());
    out.append("\n\n");
    out
}

/// The lines for `task` in a report, with the local stamps of its start and end.
fn list_entry(task: &TaskDto) -> (r: Result<(Stamp, Stamp, String), TError>)
    ensures
        r matches Ok((a, b, entry)) ==> a.canonical() && b.canonical() && within_a_day(
            a,
            stamp_of_text(task.start_time@),
        ) && within_a_day(b, stamp_of_text(task.end_time@)) && entry@ == shown_entry(task@, a, b),
        reportable(task.start_time@) && reportable(task.end_time@) ==> r is Ok,
        (r matches Err(e) && e.kind == ErrorKind::Parse) ==> !(is_stamp_text(task.start_time@)
            && is_stamp_text(task.end_time@)),
        !(is_stamp_text(task.start_time@) && is_stamp_text(task.end_time@)) ==> r is Err,
{
    let (a, start) = local_shown(task.start_time.as_str())?;
    let (b, end) = local_shown(task.end_time.as_str())?;
    proof {
        lemma_instant_bounds(a);
        lemma_instant_bounds(b);
    }
    let seconds = match seconds_between(&a, &b) {
        Some(d) => d,
        None => {
            return Err(TError::new(ErrorKind::Misc, String::from_str("the date is out of range")));
        },
    };
    let entry = task_entry(task, start.as_str(), end.as_str(), seconds);
    Ok((a, b, entry))
}

/// The lines of all `tasks`, each with its start and end in local time and how long it
/// lasted.
pub fn task_entries(tasks: &Vec<TaskDto>) -> (r: Result<String, TError>)
    ensures
        r matches Ok(s) ==> exists|starts: Seq<Stamp>, ends: Seq<Stamp>|
            shown_locally(views(tasks@), starts, ends) && s@ == entries_text(
                views(tasks@),
                starts,
                ends,
            ),
        all_reportable(views(tasks@)) ==> r is Ok,
        (r matches Err(e) && e.kind == ErrorKind::Parse) ==> some_malformed(views(tasks@)),
        some_malformed(views(tasks@)) ==> r is Err,
{
    let n = tasks.len();
    let mut out = String::new();
    let ghost mut starts: Seq<Stamp> = Seq::empty();
    let ghost mut ends: Seq<Stamp> = Seq::empty();
    let ghost vs = views(tasks@);
    let mut i: usize = 0;
    while i < n
        invariant
            n == tasks@.len(),
            vs == views(tasks@),
            i <= n,
            shown_locally(vs.subrange(0, i as int), starts, ends),
            out@ == entries_text(vs.subrange(0, i as int), starts, ends),
            forall|k: int| 0 <= k < i ==> is_stamp_text(vs[k].start_time) && is_stamp_text(vs[k].end_time),
        decreases n - i,
    {
        let task = &tasks[i];
        assert(vs[i as int] == task@);
        let (a, b, entry) = match list_entry(task) {
            Ok(x) => x,
            Err(e) => {
                assert(all_reportable(vs) ==> reportable(vs[i as int].start_time));
                assert(e.kind == ErrorKind::Parse ==> !(is_stamp_text(vs[i as int].start_time)
                    && is_stamp_text(vs[i as int].end_time)));
                assert(e.kind == ErrorKind::Parse ==> some_malformed(vs)) by {
                    if e.kind == ErrorKind::Parse {
                        assert(0 <= i < vs.len());
                        assert(!(is_stamp_text(vs[i as int].start_time) && is_stamp_text(
                            vs[i as int].end_time,
                        )));
                    }
                }
                return Err(e);
            },
        };
        out.append(entry.as_str());
        proof {
            assert(vs.subrange(0, i + 1) =~= vs.subrange(0, i as int).push(task@));
            lemma_entries_push(vs.subrange(0, i as int), starts, ends, task@, a, b);
            let old_starts = starts;
            let old_ends = ends;
            let done = vs.subrange(0, i as int);
            let next = vs.subrange(0, i + 1);
            starts = starts.push(a);
            ends = ends.push(b);
            assert forall|k: int| 0 <= k < i + 1 implies starts[k].canonical() && ends[k].canonical()
                && within_a_day(#[trigger] starts[k], stamp_of_text(next[k].start_time))
                && within_a_day(ends[k], stamp_of_text(next[k].end_time)) by {
                if k < i {
                    assert(next[k] == done[k]);
                    assert(starts[k] == old_starts[k]);
                    assert(ends[k] == old_ends[k]);
                } else {
                    assert(next[k] == task@);
                    assert(starts[k] == a);
                    assert(ends[k] == b);
                }
            }
            assert(shown_locally(next, starts, ends));
        }
        i = i + 1;
    }
    proof {
        assert(vs.subrange(0, n as int) =~= vs);
    }
    Ok(out)
}

/// The report of `tasks`, today's local date being that of `today`: how many there are,
/// then each with its start and end in local time and how long it lasted.
pub fn list_report(tasks: &Vec<TaskDto>, today: &Stamp) -> (r: Result<String, TError>)
    requires
        today.wf(),
    ensures
        r matches Ok(s) ==> exists|starts: Seq<Stamp>, ends: Seq<Stamp>|
            shown_locally(views(tasks@), starts, ends) && s@ == list_header(
                tasks@.len() as int,
                date_text(*today),
            ) + entries_text(views(tasks@), starts, ends),
        all_reportable(views(tasks@)) && 0 <= today.year <= 9999 ==> r is Ok,
        (r matches Err(e) && e.kind == ErrorKind::Parse) ==> some_malformed(views(tasks@)),
        some_malformed(views(tasks@)) ==> r is Err,
{
    let date = checked_date_text(today)?;
    let n = tasks.len();
    let mut out = String::from_str("\nYou have completed ");
    push_nat(&mut out, n as u64);
    if n == 1 {
        out.append(" task");
    } else {
        out.append(" tasks");
    }
    out.append(" on the previous day, ");
    out.append(date.as_str());
    out.append("\n");
    assert(out@ =~= list_header(n as int, date_text(*today)));
    let entries = task_entries(tasks)?;
    let ghost header = out@;
    out.append(entries.as_str());
    assert(out@ == header + entries@);
    Ok(out)
}

/// The report of the tasks found for the identifier fragment `fragment`.
pub fn find_report(tasks: &Vec<TaskDto>, fragment: &str) -> (r: Result<String, TError>)
    ensures
        r matches Ok(s) ==> exists|starts: Seq<Stamp>, ends: Seq<Stamp>|
            shown_locally(views(tasks@), starts, ends) && s@ == found_header(
                tasks@.len() as int,
                fragment@,
            ) + entries_text(views(tasks@), starts, ends),
        all_reportable(views(tasks@)) ==> r is Ok,
        (r matches Err(e) && e.kind == ErrorKind::Parse) ==> some_malformed(views(tasks@)),
        some_malformed(views(tasks@)) ==> r is Err,
{
    let n = tasks.len();
    let mut out = String::from_str("\n");
    push_nat(&mut out, n as u64);
    if n == 1 {
        out.append(" task");
    } else {
        out.append(" tasks");
    }
    out.append(" found for the id '");
    out.append(fragment);
    out.append("'\n");
    assert(out@ =~= found_header(n as int, fragment@));
    let entries = task_entries(tasks)?;
    let ghost header = out@;
    out.append(entries.as_str());
    assert(out@ == header + entries@);
    Ok(out)
}

/// The report of `tasks` for today's local date.
pub fn task_list(tasks: &Vec<TaskDto>) -> (r: Result<String, TError>)
    ensures
        r matches Ok(s) ==> exists|today: Stamp, starts: Seq<Stamp>, ends: Seq<Stamp>|
            today.wf() && shown_locally(views(tasks@), starts, ends) && s@ == list_header(
                tasks@.len() as int,
                date_text(today),
            ) + entries_text(views(tasks@), starts, ends),
        (r matches Err(e) && e.kind == ErrorKind::Parse) ==> some_malformed(views(tasks@)),
        some_malformed(views(tasks@)) ==> r is Err,
{
    let now = local_now();
    list_report(tasks, &now)
}

} // verus!
