//! Properties of the store and of the session lifecycle that hold across operations.
use vstd::prelude::*;
use crate::database::{
    Database, StoreState, is_open, new_session, paused, resumed, single_open, stopped,
    stopwatch_minutes, MS_PER_MINUTE,
};
use crate::models::TaskSession;
use crate::statistics::{statistics_exact, total};

verus! {

/// 1 for each open session.
pub open spec fn open_one(s: TaskSession) -> int {
    if is_open(s) { 1 } else { 0 }
}

/// The number of open sessions.
pub open spec fn open_count(ss: Seq<TaskSession>) -> int {
    total(ss, |s: TaskSession| open_one(s))
}

proof fn lemma_none_open_counts_zero(ss: Seq<TaskSession>)
    requires
        forall|k: int| 0 <= k < ss.len() ==> !is_open(#[trigger] ss[k]),
    ensures
        open_count(ss) == 0,
    decreases ss.len(),
{
    if ss.len() > 0 {
        let d = ss.drop_last();
        assert forall|k: int| 0 <= k < d.len() implies !is_open(#[trigger] d[k]) by {
            assert(d[k] == ss[k]);
        }
        lemma_none_open_counts_zero(d);
    }
}

proof fn lemma_single_open_counts(ss: Seq<TaskSession>)
    requires
        single_open(ss),
    ensures
        0 <= open_count(ss) <= 1,
    decreases ss.len(),
{
    if ss.len() > 0 {
        let d = ss.drop_last();
        assert(single_open(d)) by {
            assert forall|a: int, b: int| 0 <= a < d.len() && 0 <= b < d.len()
                && is_open(#[trigger] d[a]) && is_open(#[trigger] d[b]) implies a == b by {
                assert(d[a] == ss[a] && d[b] == ss[b]);
            }
        }
        lemma_single_open_counts(d);
        if is_open(ss.last()) {
            assert forall|k: int| 0 <= k < d.len() implies !is_open(#[trigger] d[k]) by {
                assert(d[k] == ss[k]);
                if is_open(d[k]) {
                    assert(is_open(ss[ss.len() - 1]));
                }
            }
            lemma_none_open_counts_zero(d);
        }
    }
}

/// In every store that the operations can reach, the number of open
/// sessions is 0 or 1.
pub proof fn lemma_at_most_one_open(db: &Database)
    requires
        db.wf(),
    ensures
        open_count(db@.sessions) == 0 || open_count(db@.sessions) == 1,
{
    lemma_single_open_counts(db@.sessions);
}

/// In every store that the operations can reach, a paused session has a
/// pause instant and has not ended.
pub proof fn lemma_paused_is_open(db: &Database)
    requires
        db.wf(),
    ensures
        forall|i: int| 0 <= i < db@.sessions.len() && (#[trigger] db@.sessions[i]).is_paused
            ==> db@.sessions[i].paused_at is Some && db@.sessions[i].end_time is None,
{
}

/// The stopwatch minutes are the unpaused time rounded down to whole
/// minutes: within one minute of it, and never above it.
pub proof fn lemma_stopwatch_minutes_close(start: i64, paused_ms: i64, now: i64)
    requires
        now - start - paused_ms >= 0,
        (now - start - paused_ms) / (MS_PER_MINUTE as int) <= i32::MAX,
    ensures ({
        let m = stopwatch_minutes(start, paused_ms, now) as int;
        let active = now - start - paused_ms;
        &&& m * 60000 <= active
        &&& active < m * 60000 + 60000
    }),
{
    let active = now - start - paused_ms;
    let m = stopwatch_minutes(start, paused_ms, now) as int;
    assert(m == active / 60000);
    assert(m * 60000 <= active && active < m * 60000 + 60000) by (nonlinear_arith)
        requires m == active / 60000, active >= 0;
}

/// A stopwatch session started at `t0` and stopped at `t1 >= t0` without a
/// given duration is completed, has ended at `t1`, and records the elapsed
/// time in whole minutes, within one minute below it.
pub proof fn lemma_stop_records_elapsed(id: String, task_id: String, t0: i64, t1: i64)
    requires
        t0 <= t1,
        (t1 - t0) / (MS_PER_MINUTE as int) <= i32::MAX,
    ensures ({
        let s = stopped(new_session(id, task_id, t0), None, t1);
        &&& s.completed
        &&& s.end_time == Some(t1)
        &&& s.duration_minutes is Some
        &&& s.duration_minutes.unwrap() * 60000 <= t1 - t0
        &&& t1 - t0 < s.duration_minutes.unwrap() * 60000 + 60000
    }),
{
    lemma_stopwatch_minutes_close(t0, 0, t1);
}

/// Starting at `t0`, pausing at `t1`, resuming at `t2` and stopping at `t3`
/// without a given duration yields a completed session whose paused time is
/// the length of the pause, and whose duration is the whole minutes of the
/// time from start to stop less the pause.
pub proof fn lemma_round_trip(id: String, task_id: String, t0: i64, t1: i64, t2: i64, t3: i64)
    requires
        t0 <= t1 <= t2 <= t3,
        t2 - t1 <= i64::MAX,
    ensures ({
        let s = stopped(resumed(paused(new_session(id, task_id, t0), t1), t2), None, t3);
        &&& s.completed
        &&& s.end_time == Some(t3)
        &&& !s.is_paused && s.paused_at is None
        &&& s.total_paused_duration_ms == t2 - t1
        &&& s.duration_minutes == Some(stopwatch_minutes(t0, (t2 - t1) as i64, t3))
        &&& (t3 - t0 - (t2 - t1)) / (MS_PER_MINUTE as int) <= i32::MAX
            ==> s.duration_minutes == Some(((t3 - t0 - (t2 - t1)) / (MS_PER_MINUTE as int)) as i32)
                && s.duration_minutes.unwrap() * 60000 <= t3 - t0 - (t2 - t1)
                && t3 - t0 - (t2 - t1) < s.duration_minutes.unwrap() * 60000 + 60000
    }),
{
    if (t3 - t0 - (t2 - t1)) / (MS_PER_MINUTE as int) <= i32::MAX {
        lemma_stopwatch_minutes_close(t0, (t2 - t1) as i64, t3);
    }
}

/// A task or group without sessions in the range has completion rate 0.
pub proof fn lemma_rate_without_sessions(v: StoreState, r: crate::models::StatisticsResponse, lo: i64, hi: i64)
    requires
        statistics_exact(v, r, lo, hi),
    ensures
        forall|k: int| 0 <= k < r.task_statistics@.len() && (#[trigger] r.task_statistics@[k]).total_sessions == 0
            ==> r.task_statistics@[k].completion_rate_bp == 0,
        forall|k: int| 0 <= k < r.task_group_statistics@.len() && (#[trigger] r.task_group_statistics@[k]).total_sessions == 0
            ==> r.task_group_statistics@[k].completion_rate_bp == 0,
{
    let p = choose|p: Seq<usize>| {
        &&& crate::order::is_permutation(p, v.tasks.len())
        &&& r.task_statistics@.len() == v.tasks.len()
        &&& forall|k: int| 0 <= k < v.tasks.len()
            ==> crate::statistics::task_stat_matches(v, v.tasks[#[trigger] p[k] as int], r.task_statistics@[k], lo, hi)
    };
    assert forall|k: int| 0 <= k < r.task_statistics@.len() && (#[trigger] r.task_statistics@[k]).total_sessions == 0
        implies r.task_statistics@[k].completion_rate_bp == 0 by {
        assert(crate::statistics::task_stat_matches(v, v.tasks[p[k] as int], r.task_statistics@[k], lo, hi));
    }
    let q = choose|p: Seq<usize>| {
        &&& crate::order::is_permutation(p, v.groups.len())
        &&& r.task_group_statistics@.len() == v.groups.len()
        &&& forall|k: int| 0 <= k < v.groups.len()
            ==> crate::statistics::group_stat_matches(v, v.groups[#[trigger] p[k] as int], r.task_group_statistics@[k], lo, hi)
    };
    assert forall|k: int| 0 <= k < r.task_group_statistics@.len() && (#[trigger] r.task_group_statistics@[k]).total_sessions == 0
        implies r.task_group_statistics@[k].completion_rate_bp == 0 by {
        assert(crate::statistics::group_stat_matches(v, v.groups[q[k] as int], r.task_group_statistics@[k], lo, hi));
    }
}

} // verus!
