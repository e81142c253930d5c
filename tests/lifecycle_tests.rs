use taskmao::config::Config;
use taskmao::data::{get_most_recent_task, get_todays_tasks, TaskDto, TaskTable};
use taskmao::lifecycle::{delete_task, end_running_task, find_tasks, running_task_info, start_task};
use taskmao::terror::{ErrorKind, TError};
use taskmao::text::{contains, is_text_less};

fn s(x: &str) -> String {
    x.to_string()
}

fn start(table: &mut TaskTable, desc: &str, at: &str, id: &str) -> Option<TaskDto> {
    start_task(table, s(desc), s("core"), s(at), s(id)).unwrap()
}

#[test]
fn start_while_running_ends_previous_at_new_start() {
    let mut table = TaskTable::new();
    assert!(start(&mut table, "old task", "2021-03-18 09:00:00", "id-0").is_none());
    let ended = start(&mut table, "write spec", "2021-03-18 10:00:00", "id-1").unwrap();
    assert_eq!(ended.start_time, "2021-03-18 09:00:00");
    assert_eq!(ended.end_time, "2021-03-18 10:00:00");
    assert!(!ended.running);
    assert_eq!(table.len(), 2);
    let old = table.row(0);
    assert_eq!((old.running, old.end_time.as_str(), old.start_time.as_str()), (false, "2021-03-18 10:00:00", "2021-03-18 09:00:00"));
    let new = table.row(1);
    assert_eq!((new.running, new.start_time.as_str(), new.end_time.as_str()), (true, "2021-03-18 10:00:00", "2021-03-18 10:00:00"));
    assert_eq!(new.description, "write spec");
    let running: Vec<usize> = (0..table.len()).filter(|&i| table.row(i).running).collect();
    assert_eq!(running, vec![1]);
}

#[test]
fn end_without_running_task_is_no_task_running() {
    let mut table = TaskTable::new();
    assert_eq!(end_running_task(&mut table, s("2021-03-18 10:00:00")).unwrap_err().kind, ErrorKind::NoTaskRunning);
    start(&mut table, "a", "2021-03-18 09:00:00", "id-0");
    let t = end_running_task(&mut table, s("2021-03-18 10:00:00")).unwrap();
    assert_eq!(t.end_time, "2021-03-18 10:00:00");
    assert!(!table.row(0).running);
    assert_eq!(end_running_task(&mut table, s("2021-03-18 11:00:00")).unwrap_err().kind, ErrorKind::NoTaskRunning);
    assert_eq!(table.row(0).end_time, "2021-03-18 10:00:00");
}

#[test]
fn info_reports_running_task_or_none() {
    let mut table = TaskTable::new();
    assert_eq!(running_task_info(&table).unwrap_err().kind, ErrorKind::NoTaskRunning);
    assert_eq!(get_most_recent_task(&table).unwrap_err().kind, ErrorKind::NotFound);
    start(&mut table, "a", "2021-03-18 09:00:00", "id-0");
    assert_eq!(running_task_info(&table).unwrap().unique_id, "id-0");
}

#[test]
fn delete_of_running_task_is_refused_and_keeps_row() {
    let mut table = TaskTable::new();
    start(&mut table, "a", "2021-03-18 09:00:00", "id-0");
    assert_eq!(delete_task(&mut table, "id-0").unwrap_err().kind, ErrorKind::TaskRunning);
    assert_eq!(table.len(), 1);
    assert!(table.row(0).running);
    assert_eq!(table.row(0).unique_id, "id-0");
}

#[test]
fn delete_of_ended_or_missing_task() {
    let mut table = TaskTable::new();
    start(&mut table, "a", "2021-03-18 09:00:00", "id-0");
    start(&mut table, "b", "2021-03-18 10:00:00", "id-1");
    assert_eq!(delete_task(&mut table, "id-9").unwrap_err().kind, ErrorKind::NotFound);
    assert_eq!(delete_task(&mut table, "id").unwrap_err().kind, ErrorKind::NotFound);
    let gone = delete_task(&mut table, "id-0").unwrap();
    assert_eq!(gone.description, "a");
    assert_eq!(table.len(), 1);
    assert_eq!(table.row(0).unique_id, "id-1");
}

#[test]
fn find_matches_substrings_and_empty_fragment_finds_nothing() {
    let mut table = TaskTable::new();
    start(&mut table, "a", "2021-03-18 09:00:00", "4f2a-11");
    start(&mut table, "b", "2021-03-18 10:00:00", "9b2a-22");
    start(&mut table, "c", "2021-03-18 11:00:00", "77cc-33");
    assert!(find_tasks(&table, "").is_empty());
    assert!(find_tasks(&table, "zzz").is_empty());
    let found: Vec<String> = find_tasks(&table, "2a").into_iter().map(|t| t.unique_id).collect();
    assert_eq!(found, vec![s("4f2a-11"), s("9b2a-22")]);
    assert_eq!(find_tasks(&table, "77cc-33").len(), 1);
    assert!(find_tasks(&TaskTable::new(), "").is_empty());
}

#[test]
fn upsert_overwrites_row_with_same_start() {
    let mut table = TaskTable::new();
    let a = TaskDto::new_running(s("a"), s("p"), s("2021-03-18 09:00:00"), s("id-0"));
    a.save_to_db(&mut table).unwrap();
    let mut b = a.duplicate();
    b.end_task(s("2021-03-18 09:30:00"));
    b.save_to_db(&mut table).unwrap();
    assert_eq!(table.len(), 1);
    assert_eq!(table.row(0).end_time, "2021-03-18 09:30:00");
    assert!(!table.row(0).running);
    let c = TaskDto::new_running(s("c"), s("p"), s("2021-03-18 10:00:00"), s("id-1"));
    table.upsert(c).unwrap();
    assert_eq!(table.len(), 2);
    assert_eq!(table.find_start(&s("2021-03-18 10:00:00")), Some(1));
    assert_eq!(table.find_start(&s("2021-03-18 11:00:00")), None);
}

#[test]
fn tasks_ended_since_cutoff() {
    let mut table = TaskTable::new();
    start(&mut table, "a", "2021-03-17 09:00:00", "id-0");
    start(&mut table, "b", "2021-03-18 09:00:00", "id-1");
    start(&mut table, "c", "2021-03-18 12:00:00", "id-2");
    let all: Vec<String> = get_todays_tasks(&table, "2021-03-18 00:00:00").into_iter().map(|t| t.description).collect();
    assert_eq!(all, vec![s("a"), s("b"), s("c")]);
    let recent: Vec<String> = get_todays_tasks(&table, "2021-03-18 10:00:00").into_iter().map(|t| t.description).collect();
    assert_eq!(recent, vec![s("b"), s("c")]);
    assert!(get_todays_tasks(&table, "2021-03-18 12:00:01").is_empty());
    assert!(get_todays_tasks(&table, "2022-01-01 00:00:00").is_empty());
}

#[test]
fn text_helpers() {
    assert!(contains("abc-123", "c-1"));
    assert!(contains("abc", ""));
    assert!(!contains("abc", "abcd"));
    assert!(!contains("abc", "ac"));
    assert!(is_text_less("2021-03-18", "2021-03-19"));
    assert!(is_text_less("2021", "2021-03"));
    assert!(!is_text_less("2021-03-19", "2021-03-18"));
    assert!(!is_text_less("same", "same"));
}

#[test]
fn config_and_errors() {
    let c = Config::default();
    assert_eq!(c.get_tasks_file(), ".taskmao/tasks.db3");
    assert_eq!(Config::new(s("/x/y.db3")).get_tasks_file(), "/x/y.db3");
    let e = TError::new(ErrorKind::Sql, s("boom"));
    assert_eq!(e.description(), "sql error");
    assert_eq!(e.to_message(), "boom");
    assert_eq!(TError::new(ErrorKind::TaskRunning, s("")).description(), "task running");
}

#[test]
fn recent_tasks_are_those_ended_within_a_day() {
    let mut table = TaskTable::new();
    start(&mut table, "ancient", "2000-01-01 09:00:00", "id-0");
    start(&mut table, "older", "2000-01-01 10:00:00", "id-1");
    let now = taskmao::time::get_current_utc_string().unwrap();
    start(&mut table, "current", &now, "id-2");
    let recent: Vec<String> = taskmao::lifecycle::list_recent_tasks(&table)
        .unwrap()
        .into_iter()
        .map(|t| t.description)
        .collect();
    assert_eq!(recent, vec![s("older"), s("current")]);
}

#[test]
fn storing_a_second_row_with_a_used_id_fails_and_changes_nothing() {
    let mut table = TaskTable::new();
    TaskDto::new_running(s("a"), s("p"), s("2021-03-18 09:00:00"), s("id-0")).save_to_db(&mut table).unwrap();
    let clash = TaskDto::new_running(s("b"), s("p"), s("2021-03-18 10:00:00"), s("id-0"));
    assert_eq!(clash.save_to_db(&mut table).unwrap_err().kind, ErrorKind::Sql);
    assert_eq!(table.len(), 1);
    assert_eq!(table.row(0).description, "a");
    assert!(table.row(0).running);
    let same_start_same_id = TaskDto::new_running(s("a2"), s("p"), s("2021-03-18 09:00:00"), s("id-0"));
    same_start_same_id.save_to_db(&mut table).unwrap();
    assert_eq!(table.row(0).description, "a2");
}

#[test]
fn start_with_a_used_id_fails_and_keeps_running_task() {
    let mut table = TaskTable::new();
    start(&mut table, "a", "2021-03-18 09:00:00", "id-0");
    let e = start_task(&mut table, s("b"), s("core"), s("2021-03-18 10:00:00"), s("id-0")).unwrap_err();
    assert_eq!(e.kind, ErrorKind::Sql);
    assert_eq!(table.len(), 1);
    assert!(table.row(0).running);
    assert_eq!(table.row(0).end_time, "2021-03-18 09:00:00");
}

#[test]
fn start_at_a_used_start_time_is_refused_and_changes_nothing() {
    let mut table = TaskTable::new();
    start(&mut table, "a", "2021-03-18 09:00:00", "id-0");
    start(&mut table, "b", "2021-03-18 10:00:00", "id-1");
    let e = start_task(&mut table, s("c"), s("core"), s("2021-03-18 09:00:00"), s("id-2")).unwrap_err();
    assert_eq!(e.kind, ErrorKind::Sql);
    let e = start_task(&mut table, s("c"), s("core"), s("2021-03-18 10:00:00"), s("id-2")).unwrap_err();
    assert_eq!(e.kind, ErrorKind::Sql);
    assert_eq!(table.len(), 2);
    let ended = table.row(0);
    assert_eq!((ended.description.as_str(), ended.running, ended.end_time.as_str(), ended.unique_id.as_str()), ("a", false, "2021-03-18 10:00:00", "id-0"));
    let running = table.row(1);
    assert_eq!((running.description.as_str(), running.running, running.unique_id.as_str()), ("b", true, "id-1"));
}

#[test]
fn start_leaves_ended_rows_alone_and_appends() {
    let mut table = TaskTable::new();
    start(&mut table, "a", "2021-03-18 09:00:00", "id-0");
    start(&mut table, "b", "2021-03-18 10:00:00", "id-1");
    end_running_task(&mut table, s("2021-03-18 11:00:00")).unwrap();
    assert!(start(&mut table, "c", "2021-03-18 12:00:00", "id-2").is_none());
    assert_eq!(table.len(), 3);
    assert_eq!(table.row(0).end_time, "2021-03-18 10:00:00");
    assert_eq!(table.row(1).end_time, "2021-03-18 11:00:00");
    assert!(!table.row(0).running && !table.row(1).running && table.row(2).running);
}
