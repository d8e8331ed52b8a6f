use todolist::database::Database;
use todolist::models::{
    CreateTaskGroupRequest, CreateTaskRequest, EndSessionRequest, StartSessionRequest,
    StatisticsGroupBy, StatisticsRequest, StoreError, Task, TaskGroup, TaskSession,
};
use todolist::statistics::completion_rate_bp;

const MINUTE: i64 = 60_000;

fn s(v: &str) -> String {
    v.to_string()
}

fn group(id: &str, name: &str) -> TaskGroup {
    TaskGroup { id: s(id), name: s(name), description: None, created_at: 0, updated_at: 0 }
}

fn task(id: &str, gid: &str, name: &str) -> Task {
    Task {
        id: s(id),
        task_group_id: s(gid),
        name: s(name),
        description: None,
        duration_minutes: None,
        created_at: 0,
        updated_at: 0,
    }
}

fn session(id: &str, tid: &str, start: i64, minutes: Option<i32>, completed: bool) -> TaskSession {
    TaskSession {
        id: s(id),
        task_id: s(tid),
        start_time: start,
        end_time: if completed { Some(start + MINUTE) } else { None },
        duration_minutes: minutes,
        completed,
        is_paused: false,
        paused_at: None,
        total_paused_duration_ms: 0,
        created_at: start,
    }
}

fn sample() -> Database {
    Database::from_rows(
        vec![group("g1", "Work"), group("g2", "Home"), group("g3", "Empty")],
        vec![task("t1", "g1", "Write report"), task("t2", "g1", "Email"), task("t3", "g2", "Dishes")],
        vec![
            session("s1", "t1", 1_000, Some(30), true),
            session("s2", "t1", 2_000, Some(20), true),
            session("s3", "t1", 3_000, None, false),
            session("s4", "t3", 1_500, Some(70), true),
            session("s5", "t2", 9_000, Some(500), true),
        ],
    )
    .unwrap()
}

#[test]
fn three_sessions_two_completed() {
    let db = sample();
    let r = db.statistics_between(0, 5_000);
    let t1 = r.task_statistics.iter().find(|x| x.task_id == "t1").unwrap();
    assert_eq!(t1.total_sessions, 3);
    assert_eq!(t1.completed_sessions, 2);
    assert_eq!(t1.total_duration_minutes, 50);
    assert_eq!(t1.completion_rate_bp, 6666);
    assert_eq!(t1.task_name, "Write report");
    assert_eq!(t1.task_group_name, "Work");
    let rate = t1.completed_sessions as f64 / t1.total_sessions as f64;
    assert!((rate - 0.667).abs() < 0.001);
}

#[test]
fn tasks_without_sessions_have_zero_rate() {
    let db = sample();
    let r = db.statistics_between(0, 5_000);
    let t2 = r.task_statistics.iter().find(|x| x.task_id == "t2").unwrap();
    assert_eq!(t2.total_sessions, 0);
    assert_eq!(t2.completed_sessions, 0);
    assert_eq!(t2.total_duration_minutes, 0);
    assert_eq!(t2.completion_rate_bp, 0);
    let g3 = r.task_group_statistics.iter().find(|x| x.task_group_id == "g3").unwrap();
    assert_eq!(g3.total_tasks, 0);
    assert_eq!(g3.total_sessions, 0);
    assert_eq!(g3.completion_rate_bp, 0);
    assert_eq!(completion_rate_bp(0, 0), 0);
}

#[test]
fn statistics_are_ordered_by_minutes() {
    let db = sample();
    let r = db.statistics_between(0, 5_000);
    let tasks: Vec<&str> = r.task_statistics.iter().map(|x| x.task_id.as_str()).collect();
    assert_eq!(tasks, vec!["t3", "t1", "t2"]);
    let groups: Vec<&str> = r.task_group_statistics.iter().map(|x| x.task_group_id.as_str()).collect();
    assert_eq!(groups, vec!["g2", "g1", "g3"]);
}

#[test]
fn group_statistics_sum_their_tasks() {
    let db = sample();
    let r = db.statistics_between(0, 10_000);
    let g1 = r.task_group_statistics.iter().find(|x| x.task_group_id == "g1").unwrap();
    assert_eq!(g1.task_group_name, "Work");
    assert_eq!(g1.total_tasks, 2);
    assert_eq!(g1.total_sessions, 4);
    assert_eq!(g1.completed_sessions, 3);
    assert_eq!(g1.total_duration_minutes, 550);
    assert_eq!(g1.completion_rate_bp, 7500);
    assert_eq!(r.task_group_statistics[0].task_group_id, "g1");
}

#[test]
fn range_bounds_are_inclusive() {
    let db = sample();
    let r = db.statistics_between(1_000, 2_000);
    let t1 = r.task_statistics.iter().find(|x| x.task_id == "t1").unwrap();
    assert_eq!(t1.total_sessions, 2);
    let t3 = r.task_statistics.iter().find(|x| x.task_id == "t3").unwrap();
    assert_eq!(t3.total_sessions, 1);
}

#[test]
fn statistics_from_rfc3339_range() {
    let db = sample();
    let req = StatisticsRequest {
        start_date: s("1970-01-01T00:00:01Z"),
        end_date: s("1970-01-01T00:00:01.800+00:00"),
        group_by: StatisticsGroupBy::Task,
    };
    let r = db.get_statistics(req).unwrap();
    let t1 = r.task_statistics.iter().find(|x| x.task_id == "t1").unwrap();
    assert_eq!(t1.total_sessions, 1);
    let t3 = r.task_statistics.iter().find(|x| x.task_id == "t3").unwrap();
    assert_eq!(t3.total_sessions, 1);
}

#[test]
fn unreadable_range_is_validation_error() {
    let db = sample();
    let req = StatisticsRequest { start_date: s("yesterday"), end_date: s("1970-01-01T00:00:01Z"), group_by: StatisticsGroupBy::TaskGroup };
    assert_eq!(db.get_statistics(req).unwrap_err(), StoreError::Validation);
}

#[test]
fn statistics_scenario_through_lifecycle() {
    let mut db = Database::new();
    db.create_task_group_at(CreateTaskGroupRequest { name: s("Work"), description: None }, s("g"), 0).unwrap();
    db.create_task_at(
        CreateTaskRequest { task_group_id: s("g"), name: s("Write report"), description: None, duration_minutes: None },
        s("t"),
        0,
    )
    .unwrap();
    for (k, start) in [(1, 100 * MINUTE), (2, 200 * MINUTE)] {
        let id = format!("s{}", k);
        db.start_session_at(StartSessionRequest { task_id: s("t") }, id.clone(), start).unwrap();
        db.end_session_at(EndSessionRequest { session_id: id, duration_minutes: None }, start + 10 * MINUTE).unwrap();
    }
    db.start_session_at(StartSessionRequest { task_id: s("t") }, s("s3"), 300 * MINUTE).unwrap();
    let r = db.statistics_between(0, 400 * MINUTE);
    let t = &r.task_statistics[0];
    assert_eq!(t.total_sessions, 3);
    assert_eq!(t.completed_sessions, 2);
    assert_eq!(t.total_duration_minutes, 20);
    assert_eq!(t.completion_rate_bp, 6666);
}

#[test]
fn rows_with_two_open_sessions_are_refused() {
    let r = Database::from_rows(
        vec![group("g1", "Work")],
        vec![task("t1", "g1", "A")],
        vec![session("s1", "t1", 0, None, false), session("s2", "t1", 1, None, false)],
    );
    assert_eq!(r.unwrap_err(), StoreError::Storage);
}

#[test]
fn rows_with_dangling_or_duplicate_records_are_refused() {
    let r = Database::from_rows(vec![group("g1", "Work")], vec![task("t1", "g9", "A")], vec![]);
    assert_eq!(r.unwrap_err(), StoreError::Storage);
    let r = Database::from_rows(vec![group("g1", "Work"), group("g1", "Again")], vec![], vec![]);
    assert_eq!(r.unwrap_err(), StoreError::Storage);
    let r = Database::from_rows(vec![group("g1", "Work")], vec![task("t1", "g1", "A")], vec![session("s1", "t9", 0, None, true)]);
    assert_eq!(r.unwrap_err(), StoreError::Storage);
    let mut bad = session("s1", "t1", 0, None, false);
    bad.is_paused = true;
    let r = Database::from_rows(vec![group("g1", "Work")], vec![task("t1", "g1", "A")], vec![bad]);
    assert_eq!(r.unwrap_err(), StoreError::Storage);
}

#[test]
fn rows_that_hold_together_load() {
    let db = sample();
    assert_eq!(db.groups().len(), 3);
    assert_eq!(db.tasks().len(), 3);
    assert_eq!(db.sessions().len(), 5);
    let a = db.get_active_session().unwrap();
    assert_eq!(a.session.id, "s3");
    assert_eq!(a.task_group.id, "g1");
}
