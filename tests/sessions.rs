use todolist::database::Database;
use todolist::models::{
    CreateTaskGroupRequest, CreateTaskRequest, EndSessionRequest, PauseSessionRequest,
    ResumeSessionRequest, StartSessionRequest, StoreError, UpdateTaskGroupRequest,
    UpdateTaskRequest,
};

const MINUTE: i64 = 60_000;

fn s(v: &str) -> String {
    v.to_string()
}

fn store_with_task(group: &str, task: &str, duration: Option<i32>) -> Database {
    let mut db = Database::new();
    db.create_task_group_at(
        CreateTaskGroupRequest { name: s("Work"), description: None },
        s(group),
        1_000,
    )
    .unwrap();
    db.create_task_at(
        CreateTaskRequest {
            task_group_id: s(group),
            name: s("Write report"),
            description: None,
            duration_minutes: duration,
        },
        s(task),
        2_000,
    )
    .unwrap();
    db
}

fn open_sessions(db: &Database) -> usize {
    db.sessions().iter().filter(|x| x.end_time.is_none()).count()
}

#[test]
fn stopwatch_session_records_elapsed_minutes() {
    let mut db = store_with_task("g1", "t1", None);
    let t0: i64 = 1_700_000_000_000;
    let started = db
        .start_session_at(StartSessionRequest { task_id: s("t1") }, s("s1"), t0)
        .unwrap();
    assert_eq!(started.start_time, t0);
    assert!(started.end_time.is_none());
    assert!(!started.completed);
    let stopped = db
        .end_session_at(EndSessionRequest { session_id: s("s1"), duration_minutes: None }, t0 + 25 * MINUTE + 30_000)
        .unwrap();
    assert!(stopped.completed);
    assert_eq!(stopped.end_time, Some(t0 + 25 * MINUTE + 30_000));
    assert_eq!(stopped.duration_minutes, Some(25));
    assert_eq!(db.sessions()[0].duration_minutes, Some(25));
}

#[test]
fn fixed_duration_session_keeps_given_minutes() {
    let mut db = store_with_task("g1", "t1", Some(30));
    db.start_session_at(StartSessionRequest { task_id: s("t1") }, s("s1"), 0).unwrap();
    let stopped = db
        .end_session_at(EndSessionRequest { session_id: s("s1"), duration_minutes: Some(30) }, 2 * MINUTE)
        .unwrap();
    assert_eq!(stopped.duration_minutes, Some(30));
    assert!(stopped.completed);
}

#[test]
fn second_start_is_a_conflict() {
    let mut db = store_with_task("g1", "a", None);
    db.create_task_at(
        CreateTaskRequest { task_group_id: s("g1"), name: s("B"), description: None, duration_minutes: None },
        s("b"),
        3_000,
    )
    .unwrap();
    db.start_session_at(StartSessionRequest { task_id: s("a") }, s("s1"), 10_000).unwrap();
    let r = db.start_session_at(StartSessionRequest { task_id: s("b") }, s("s2"), 11_000);
    assert_eq!(r.unwrap_err(), StoreError::Conflict);
    assert_eq!(db.sessions().len(), 1);
    assert_eq!(open_sessions(&db), 1);
}

#[test]
fn start_after_stop_is_allowed() {
    let mut db = store_with_task("g1", "t1", None);
    db.start_session_at(StartSessionRequest { task_id: s("t1") }, s("s1"), 0).unwrap();
    db.end_session_at(EndSessionRequest { session_id: s("s1"), duration_minutes: None }, MINUTE).unwrap();
    db.start_session_at(StartSessionRequest { task_id: s("t1") }, s("s2"), 2 * MINUTE).unwrap();
    assert_eq!(db.sessions().len(), 2);
    assert_eq!(open_sessions(&db), 1);
}

#[test]
fn start_on_missing_task_is_not_found() {
    let mut db = store_with_task("g1", "t1", None);
    let r = db.start_session_at(StartSessionRequest { task_id: s("nope") }, s("s1"), 0);
    assert_eq!(r.unwrap_err(), StoreError::NotFound);
    assert!(db.sessions().is_empty());
}

#[test]
fn start_with_taken_id_is_storage_error() {
    let mut db = store_with_task("g1", "t1", None);
    db.start_session_at(StartSessionRequest { task_id: s("t1") }, s("s1"), 0).unwrap();
    db.end_session_at(EndSessionRequest { session_id: s("s1"), duration_minutes: None }, 1).unwrap();
    let r = db.start_session_at(StartSessionRequest { task_id: s("t1") }, s("s1"), 2);
    assert_eq!(r.unwrap_err(), StoreError::Storage);
}

#[test]
fn pause_twice_is_rejected() {
    let mut db = store_with_task("g1", "t1", None);
    db.start_session_at(StartSessionRequest { task_id: s("t1") }, s("s1"), 0).unwrap();
    let p = db.pause_session_at(PauseSessionRequest { session_id: s("s1") }, 1_000).unwrap();
    assert!(p.is_paused);
    assert_eq!(p.paused_at, Some(1_000));
    let again = db.pause_session_at(PauseSessionRequest { session_id: s("s1") }, 2_000);
    assert_eq!(again.unwrap_err(), StoreError::Conflict);
    assert_eq!(db.sessions()[0].paused_at, Some(1_000));
}

#[test]
fn round_trip_accounts_for_pause() {
    let mut db = store_with_task("g1", "t1", None);
    let t0: i64 = 1_000_000;
    db.start_session_at(StartSessionRequest { task_id: s("t1") }, s("s1"), t0).unwrap();
    db.pause_session_at(PauseSessionRequest { session_id: s("s1") }, t0 + 10 * MINUTE).unwrap();
    let r = db.resume_session_at(ResumeSessionRequest { session_id: s("s1") }, t0 + 14 * MINUTE).unwrap();
    assert!(!r.is_paused);
    assert_eq!(r.paused_at, None);
    assert_eq!(r.total_paused_duration_ms, 4 * MINUTE);
    let done = db
        .end_session_at(EndSessionRequest { session_id: s("s1"), duration_minutes: None }, t0 + 30 * MINUTE)
        .unwrap();
    assert!(done.completed);
    assert_eq!(done.total_paused_duration_ms, 4 * MINUTE);
    assert_eq!(done.duration_minutes, Some(26));
}

#[test]
fn stop_while_paused_closes_the_pause() {
    let mut db = store_with_task("g1", "t1", None);
    db.start_session_at(StartSessionRequest { task_id: s("t1") }, s("s1"), 0).unwrap();
    db.pause_session_at(PauseSessionRequest { session_id: s("s1") }, 5 * MINUTE).unwrap();
    let done = db
        .end_session_at(EndSessionRequest { session_id: s("s1"), duration_minutes: None }, 8 * MINUTE)
        .unwrap();
    assert!(!done.is_paused);
    assert_eq!(done.paused_at, None);
    assert_eq!(done.total_paused_duration_ms, 3 * MINUTE);
    assert_eq!(done.duration_minutes, Some(5));
}

#[test]
fn stopped_session_is_immutable() {
    let mut db = store_with_task("g1", "t1", None);
    db.start_session_at(StartSessionRequest { task_id: s("t1") }, s("s1"), 0).unwrap();
    db.end_session_at(EndSessionRequest { session_id: s("s1"), duration_minutes: None }, MINUTE).unwrap();
    let r1 = db.pause_session_at(PauseSessionRequest { session_id: s("s1") }, 2 * MINUTE);
    assert_eq!(r1.unwrap_err(), StoreError::Conflict);
    let r2 = db.resume_session_at(ResumeSessionRequest { session_id: s("s1") }, 2 * MINUTE);
    assert_eq!(r2.unwrap_err(), StoreError::Conflict);
    let r3 = db.end_session_at(EndSessionRequest { session_id: s("s1"), duration_minutes: Some(9) }, 2 * MINUTE);
    assert_eq!(r3.unwrap_err(), StoreError::Conflict);
    assert_eq!(db.sessions()[0].duration_minutes, Some(1));
}

#[test]
fn resume_of_running_session_is_conflict() {
    let mut db = store_with_task("g1", "t1", None);
    db.start_session_at(StartSessionRequest { task_id: s("t1") }, s("s1"), 0).unwrap();
    let r = db.resume_session_at(ResumeSessionRequest { session_id: s("s1") }, 1);
    assert_eq!(r.unwrap_err(), StoreError::Conflict);
}

#[test]
fn unknown_session_is_not_found() {
    let mut db = store_with_task("g1", "t1", None);
    assert_eq!(db.pause_session_at(PauseSessionRequest { session_id: s("x") }, 0).unwrap_err(), StoreError::NotFound);
    assert_eq!(db.resume_session_at(ResumeSessionRequest { session_id: s("x") }, 0).unwrap_err(), StoreError::NotFound);
    assert_eq!(
        db.end_session_at(EndSessionRequest { session_id: s("x"), duration_minutes: None }, 0).unwrap_err(),
        StoreError::NotFound
    );
}

#[test]
fn clock_going_back_counts_as_no_time() {
    let mut db = store_with_task("g1", "t1", None);
    db.start_session_at(StartSessionRequest { task_id: s("t1") }, s("s1"), 10 * MINUTE).unwrap();
    db.pause_session_at(PauseSessionRequest { session_id: s("s1") }, 12 * MINUTE).unwrap();
    let r = db.resume_session_at(ResumeSessionRequest { session_id: s("s1") }, 11 * MINUTE).unwrap();
    assert_eq!(r.total_paused_duration_ms, 0);
    let done = db
        .end_session_at(EndSessionRequest { session_id: s("s1"), duration_minutes: None }, 5 * MINUTE)
        .unwrap();
    assert_eq!(done.duration_minutes, Some(0));
}

#[test]
fn active_session_joins_task_and_group() {
    let mut db = store_with_task("g1", "t1", None);
    assert!(db.get_active_session().is_none());
    db.start_session_at(StartSessionRequest { task_id: s("t1") }, s("s1"), 0).unwrap();
    let a = db.get_active_session().unwrap();
    assert_eq!(a.session.id, "s1");
    assert_eq!(a.task.id, "t1");
    assert_eq!(a.task.name, "Write report");
    assert_eq!(a.task_group.id, "g1");
    assert_eq!(a.task_group.name, "Work");
    db.end_session_at(EndSessionRequest { session_id: s("s1"), duration_minutes: None }, 1).unwrap();
    assert!(db.get_active_session().is_none());
}

#[test]
fn live_clock_session_lifecycle() {
    let mut db = Database::new();
    let g = db.create_task_group(CreateTaskGroupRequest { name: s("Work"), description: None }).unwrap();
    assert!(!g.id.is_empty());
    let t = db
        .create_task(CreateTaskRequest { task_group_id: g.id.clone(), name: s("Write report"), description: None, duration_minutes: None })
        .unwrap();
    assert_ne!(t.id, g.id);
    let started = db.start_session(StartSessionRequest { task_id: t.id.clone() }).unwrap();
    assert!(started.start_time > 1_600_000_000_000);
    let other = db.start_session(StartSessionRequest { task_id: t.id.clone() });
    assert_eq!(other.unwrap_err(), StoreError::Conflict);
    db.pause_session(PauseSessionRequest { session_id: started.id.clone() }).unwrap();
    db.resume_session(ResumeSessionRequest { session_id: started.id.clone() }).unwrap();
    let done = db.end_session(EndSessionRequest { session_id: started.id.clone(), duration_minutes: None }).unwrap();
    assert!(done.completed);
    assert!(done.end_time.unwrap() >= started.start_time);
    assert_eq!(done.duration_minutes, Some(0));
}

#[test]
fn empty_names_are_validation_errors() {
    let mut db = store_with_task("g1", "t1", None);
    let r = db.create_task_group_at(CreateTaskGroupRequest { name: s(""), description: None }, s("g2"), 0);
    assert_eq!(r.unwrap_err(), StoreError::Validation);
    let r = db.create_task_at(
        CreateTaskRequest { task_group_id: s("g1"), name: s(""), description: None, duration_minutes: None },
        s("t2"),
        0,
    );
    assert_eq!(r.unwrap_err(), StoreError::Validation);
    let r = db.update_task_group_at(&s("g1"), UpdateTaskGroupRequest { name: Some(s("")), description: None }, 0);
    assert_eq!(r.unwrap_err(), StoreError::Validation);
    let r = db.update_task_at(&s("t1"), UpdateTaskRequest { name: Some(s("")), description: None, duration_minutes: None }, 0);
    assert_eq!(r.unwrap_err(), StoreError::Validation);
}

#[test]
fn task_in_missing_group_is_not_found() {
    let mut db = Database::new();
    let r = db.create_task_at(
        CreateTaskRequest { task_group_id: s("g9"), name: s("X"), description: None, duration_minutes: None },
        s("t1"),
        0,
    );
    assert_eq!(r.unwrap_err(), StoreError::NotFound);
    assert_eq!(db.delete_task_group(&s("g9")).unwrap_err(), StoreError::NotFound);
    assert_eq!(db.delete_task(&s("t9")).unwrap_err(), StoreError::NotFound);
}

#[test]
fn updates_keep_fields_not_given() {
    let mut db = store_with_task("g1", "t1", Some(20));
    let g = db
        .update_task_group_at(&s("g1"), UpdateTaskGroupRequest { name: None, description: Some(s("daily")) }, 5_000)
        .unwrap();
    assert_eq!(g.name, "Work");
    assert_eq!(g.description, Some(s("daily")));
    assert_eq!(g.created_at, 1_000);
    assert_eq!(g.updated_at, 5_000);
    let t = db
        .update_task_at(&s("t1"), UpdateTaskRequest { name: Some(s("Review")), description: None, duration_minutes: None }, 6_000)
        .unwrap();
    assert_eq!(t.name, "Review");
    assert_eq!(t.duration_minutes, None);
    assert_eq!(t.updated_at, 6_000);
    assert_eq!(db.tasks()[0].name, "Review");
}

#[test]
fn groups_and_tasks_are_listed_newest_first() {
    let mut db = Database::new();
    for (id, at) in [("a", 10), ("b", 30), ("c", 20)] {
        db.create_task_group_at(CreateTaskGroupRequest { name: s(id), description: None }, s(id), at).unwrap();
    }
    let ids: Vec<String> = db.get_task_groups().into_iter().map(|g| g.id).collect();
    assert_eq!(ids, vec![s("b"), s("c"), s("a")]);
    for (id, group, at) in [("t1", "a", 5), ("t2", "b", 6), ("t3", "a", 7)] {
        db.create_task_at(
            CreateTaskRequest { task_group_id: s(group), name: s(id), description: None, duration_minutes: None },
            s(id),
            at,
        )
        .unwrap();
    }
    let ids: Vec<String> = db.get_tasks_by_group(&s("a")).into_iter().map(|t| t.id).collect();
    assert_eq!(ids, vec![s("t3"), s("t1")]);
}

#[test]
fn deleting_a_group_cascades_to_tasks_and_sessions() {
    let mut db = store_with_task("g1", "t1", None);
    db.create_task_group_at(CreateTaskGroupRequest { name: s("Home"), description: None }, s("g2"), 0).unwrap();
    db.create_task_at(
        CreateTaskRequest { task_group_id: s("g2"), name: s("Dishes"), description: None, duration_minutes: None },
        s("t2"),
        0,
    )
    .unwrap();
    db.start_session_at(StartSessionRequest { task_id: s("t1") }, s("s1"), 0).unwrap();
    db.end_session_at(EndSessionRequest { session_id: s("s1"), duration_minutes: None }, MINUTE).unwrap();
    db.start_session_at(StartSessionRequest { task_id: s("t2") }, s("s2"), 2 * MINUTE).unwrap();
    db.delete_task_group(&s("g1")).unwrap();
    assert_eq!(db.groups().len(), 1);
    assert_eq!(db.groups()[0].id, "g2");
    assert_eq!(db.tasks().len(), 1);
    assert_eq!(db.tasks()[0].id, "t2");
    assert_eq!(db.sessions().len(), 1);
    assert_eq!(db.sessions()[0].id, "s2");
}

#[test]
fn deleting_a_task_cascades_to_sessions() {
    let mut db = store_with_task("g1", "t1", None);
    db.start_session_at(StartSessionRequest { task_id: s("t1") }, s("s1"), 0).unwrap();
    db.delete_task(&s("t1")).unwrap();
    assert!(db.tasks().is_empty());
    assert!(db.sessions().is_empty());
    assert_eq!(db.groups().len(), 1);
    assert!(db.get_active_session().is_none());
}

#[test]
fn at_most_one_open_session_after_any_sequence() {
    let mut db = store_with_task("g1", "t1", None);
    for k in 0..5i64 {
        let id = format!("s{}", k);
        let _ = db.start_session_at(StartSessionRequest { task_id: s("t1") }, id.clone(), k * 10);
        assert!(open_sessions(&db) <= 1);
        if k % 2 == 0 {
            let _ = db.end_session_at(EndSessionRequest { session_id: id, duration_minutes: None }, k * 10 + 5);
        }
        assert!(open_sessions(&db) <= 1);
    }
    for x in db.sessions() {
        if x.is_paused {
            assert!(x.paused_at.is_some() && x.end_time.is_none());
        }
        assert_eq!(x.completed, x.end_time.is_some());
    }
}

#[test]
fn error_messages_are_readable() {
    assert_eq!(StoreError::NotFound.message(), "not found");
    assert!(!StoreError::Conflict.message().is_empty());
}
