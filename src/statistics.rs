//! Per-task and per-group aggregates of the sessions that start in a time range.
use vstd::prelude::*;
use crate::clock::{parse_rfc3339_millis, rfc3339_millis};
use crate::database::{Database, StoreState, task_ids_unique};
use crate::models::{
    StatisticsRequest, StatisticsResponse, StoreError, Task, TaskGroup, TaskGroupStatistics,
    TaskSession, TaskStatistics,
};
use crate::order::{is_permutation, order_desc, sorted_desc_by};

verus! {

/// The sum of `f` over `s`.
pub open spec fn total<A>(s: Seq<A>, f: spec_fn(A) -> int) -> int
    decreases s.len(),
{
    if s.len() == 0 { 0 } else { total(s.drop_last(), f) + f(s.last()) }
}

/// A session starts in the range `lo..=hi`.
pub open spec fn in_range(s: TaskSession, lo: i64, hi: i64) -> bool {
    lo <= s.start_time <= hi
}

pub open spec fn minutes_of(s: TaskSession) -> int {
    match s.duration_minutes {
        Some(d) => d as int,
        None => 0,
    }
}

/// 1 for each session of task `tid` in range.
pub open spec fn task_count(tid: Seq<char>, lo: i64, hi: i64) -> spec_fn(TaskSession) -> int {
    |s: TaskSession| if s.task_id@ == tid && in_range(s, lo, hi) { 1int } else { 0int }
}

/// 1 for each completed session of task `tid` in range.
pub open spec fn task_completed(tid: Seq<char>, lo: i64, hi: i64) -> spec_fn(TaskSession) -> int {
    |s: TaskSession| if s.task_id@ == tid && in_range(s, lo, hi) && s.completed { 1int } else { 0int }
}

/// The recorded minutes of each session of task `tid` in range.
pub open spec fn task_minutes(tid: Seq<char>, lo: i64, hi: i64) -> spec_fn(TaskSession) -> int {
    |s: TaskSession| if s.task_id@ == tid && in_range(s, lo, hi) { minutes_of(s) } else { 0int }
}

/// The session's task belongs to group `gid`.
pub open spec fn in_group(ts: Seq<Task>, s: TaskSession, gid: Seq<char>) -> bool {
    exists|j: int| 0 <= j < ts.len() && (#[trigger] ts[j]).id@ == s.task_id@ && ts[j].task_group_id@ == gid
}

/// 1 for each task of group `gid`.
pub open spec fn group_task_count(gid: Seq<char>) -> spec_fn(Task) -> int {
    |t: Task| if t.task_group_id@ == gid { 1int } else { 0int }
}

/// 1 for each session in range on a task of group `gid`.
pub open spec fn group_count(ts: Seq<Task>, gid: Seq<char>, lo: i64, hi: i64) -> spec_fn(TaskSession) -> int {
    |s: TaskSession| if in_group(ts, s, gid) && in_range(s, lo, hi) { 1int } else { 0int }
}

/// 1 for each completed session in range on a task of group `gid`.
pub open spec fn group_completed(ts: Seq<Task>, gid: Seq<char>, lo: i64, hi: i64) -> spec_fn(TaskSession) -> int {
    |s: TaskSession| if in_group(ts, s, gid) && in_range(s, lo, hi) && s.completed { 1int } else { 0int }
}

/// The recorded minutes of each session in range on a task of group `gid`.
pub open spec fn group_minutes(ts: Seq<Task>, gid: Seq<char>, lo: i64, hi: i64) -> spec_fn(TaskSession) -> int {
    |s: TaskSession| if in_group(ts, s, gid) && in_range(s, lo, hi) { minutes_of(s) } else { 0int }
}

/// Completed sessions per ten thousand sessions, rounded down; 0 without sessions.
pub open spec fn rate_bp(completed: int, sessions: int) -> int {
    if sessions == 0 { 0 } else { completed * 10000 / sessions }
}

/// `st` aggregates task `t` of store `v` over `lo..=hi`.
pub open spec fn task_stat_matches(v: StoreState, t: Task, st: TaskStatistics, lo: i64, hi: i64) -> bool {
    &&& st.task_id == t.id
    &&& st.task_name == t.name
    &&& exists|j: int| 0 <= j < v.groups.len() && (#[trigger] v.groups[j]).id@ == t.task_group_id@
        && st.task_group_name == v.groups[j].name
    &&& st.total_sessions == total(v.sessions, task_count(t.id@, lo, hi))
    &&& st.completed_sessions == total(v.sessions, task_completed(t.id@, lo, hi))
    &&& st.total_duration_minutes == total(v.sessions, task_minutes(t.id@, lo, hi))
    &&& st.completion_rate_bp == rate_bp(st.completed_sessions as int, st.total_sessions as int)
}

/// `st` aggregates group `g` of store `v` over `lo..=hi`.
pub open spec fn group_stat_matches(v: StoreState, g: TaskGroup, st: TaskGroupStatistics, lo: i64, hi: i64) -> bool {
    &&& st.task_group_id == g.id
    &&& st.task_group_name == g.name
    &&& st.total_tasks == total(v.tasks, group_task_count(g.id@))
    &&& st.total_sessions == total(v.sessions, group_count(v.tasks, g.id@, lo, hi))
    &&& st.completed_sessions == total(v.sessions, group_completed(v.tasks, g.id@, lo, hi))
    &&& st.total_duration_minutes == total(v.sessions, group_minutes(v.tasks, g.id@, lo, hi))
    &&& st.completion_rate_bp == rate_bp(st.completed_sessions as int, st.total_sessions as int)
}

/// The response holds one entry per task and one per group, each the
/// aggregate of its own task or group, each list by total minutes, most first.
pub open spec fn statistics_exact(v: StoreState, r: StatisticsResponse, lo: i64, hi: i64) -> bool {
    &&& exists|p: Seq<usize>| {
        &&& is_permutation(p, v.tasks.len())
        &&& r.task_statistics@.len() == v.tasks.len()
        &&& forall|k: int| 0 <= k < v.tasks.len()
            ==> task_stat_matches(v, v.tasks[#[trigger] p[k] as int], r.task_statistics@[k], lo, hi)
    }
    &&& forall|a: int, b: int| 0 <= a < b < r.task_statistics@.len()
        ==> r.task_statistics@[a].total_duration_minutes >= r.task_statistics@[b].total_duration_minutes
    &&& exists|p: Seq<usize>| {
        &&& is_permutation(p, v.groups.len())
        &&& r.task_group_statistics@.len() == v.groups.len()
        &&& forall|k: int| 0 <= k < v.groups.len()
            ==> group_stat_matches(v, v.groups[#[trigger] p[k] as int], r.task_group_statistics@[k], lo, hi)
    }
    &&& forall|a: int, b: int| 0 <= a < b < r.task_group_statistics@.len()
        ==> r.task_group_statistics@[a].total_duration_minutes >= r.task_group_statistics@[b].total_duration_minutes
}

pub proof fn lemma_total_step<A>(s: Seq<A>, f: spec_fn(A) -> int, i: int)
    requires
        0 <= i < s.len(),
    ensures
        total(s.take(i + 1), f) == total(s.take(i), f) + f(s[i]),
{
    assert(s.take(i + 1).drop_last() =~= s.take(i));
}

proof fn lemma_rate_bounded(c: int, n: int)
    requires
        0 <= c <= n,
        n > 0,
    ensures
        0 <= c * 10000 / n <= 10000,
{
    assert(c * 10000 <= n * 10000) by (nonlinear_arith)
        requires c <= n;
    assert(c * 10000 / n <= n * 10000 / n) by (nonlinear_arith)
        requires c * 10000 <= n * 10000, n > 0, c >= 0;
    assert(n * 10000 / n == 10000) by (nonlinear_arith)
        requires n > 0;
    assert(0 <= c * 10000 / n) by (nonlinear_arith)
        requires c >= 0, n > 0;
}

/// The completion rate, in basis points, of `completed` out of `sessions`.
pub fn completion_rate_bp(completed: u64, sessions: u64) -> (r: u64)
    requires
        completed <= sessions,
    ensures
        r == rate_bp(completed as int, sessions as int),
        r <= 10000,
{
    if sessions == 0 {
        0
    } else {
        proof { lemma_rate_bounded(completed as int, sessions as int); }
        ((completed as u128 * 10000) / sessions as u128) as u64
    }
}

/// The aggregate of task `ti` over `lo..=hi`.
fn task_stats(db: &Database, ti: usize, lo: i64, hi: i64) -> (r: TaskStatistics)
    requires
        db.wf(),
        ti < db@.tasks.len(),
    ensures
        task_stat_matches(db@, db@.tasks[ti as int], r, lo, hi),
{
    let ss = db.sessions();
    let t = &db.tasks()[ti];
    let ghost fc = task_count(t.id@, lo, hi);
    let ghost fd = task_completed(t.id@, lo, hi);
    let ghost fm = task_minutes(t.id@, lo, hi);
    let mut n: u64 = 0;
    let mut c: u64 = 0;
    let mut m: i128 = 0;
    let mut i: usize = 0;
    while i < ss.len()
        invariant
            i <= ss@.len(),
            fc == task_count(t.id@, lo, hi),
            fd == task_completed(t.id@, lo, hi),
            fm == task_minutes(t.id@, lo, hi),
            n == total(ss@.take(i as int), fc),
            c == total(ss@.take(i as int), fd),
            m == total(ss@.take(i as int), fm),
            c <= n <= i,
            -(i as int) * 2147483648 <= m <= (i as int) * 2147483648,
        decreases ss@.len() - i,
    {
        proof {
            lemma_total_step(ss@, fc, i as int);
            lemma_total_step(ss@, fd, i as int);
            lemma_total_step(ss@, fm, i as int);
        }
        let s = &ss[i];
        if s.task_id == t.id && lo <= s.start_time && s.start_time <= hi {
            n = n + 1;
            if s.completed {
                c = c + 1;
            }
            match s.duration_minutes {
                Some(d) => { m = m + d as i128; },
                None => {},
            }
        }
        i = i + 1;
    }
    assert(ss@.take(ss@.len() as int) =~= ss@);
    assert(has_group_of(db@, db@.tasks[ti as int]));
    let gi = db.find_group(&t.task_group_id).unwrap();
    TaskStatistics {
        task_id: t.id.clone(),
        task_name: t.name.clone(),
        task_group_name: db.groups()[gi].name.clone(),
        total_sessions: n,
        total_duration_minutes: m,
        completed_sessions: c,
        completion_rate_bp: completion_rate_bp(c, n),
    }
}

pub open spec fn has_group_of(v: StoreState, t: Task) -> bool {
    exists|j: int| 0 <= j < v.groups.len() && (#[trigger] v.groups[j]).id@ == t.task_group_id@
}

/// Whether the task of a session belongs to group `gid`.
fn session_in_group(db: &Database, s: &TaskSession, gid: &String) -> (r: bool)
    requires
        db.wf(),
        db@.sessions.contains(*s),
    ensures
        r == in_group(db@.tasks, *s, gid@),
{
    let j = db.find_task(&s.task_id);
    match j {
        Some(j) => {
            let r = db.tasks()[j].task_group_id == *gid;
            assert(task_ids_unique(db@.tasks));
            r
        },
        None => {
            proof {
                let k = choose|k: int| 0 <= k < db@.sessions.len() && db@.sessions[k] == *s;
                assert(crate::database::has_task(db@.tasks, db@.sessions[k].task_id@));
            }
            false
        },
    }
}

/// The aggregate of group `gi` over `lo..=hi`.
fn group_stats(db: &Database, gi: usize, lo: i64, hi: i64) -> (r: TaskGroupStatistics)
    requires
        db.wf(),
        gi < db@.groups.len(),
    ensures
        group_stat_matches(db@, db@.groups[gi as int], r, lo, hi),
{
    let ts = db.tasks();
    let ss = db.sessions();
    let g = &db.groups()[gi];
    let ghost ft = group_task_count(g.id@);
    let mut nt: u64 = 0;
    let mut i: usize = 0;
    while i < ts.len()
        invariant
            i <= ts@.len(),
            ft == group_task_count(g.id@),
            nt == total(ts@.take(i as int), ft),
            nt <= i,
        decreases ts@.len() - i,
    {
        proof { lemma_total_step(ts@, ft, i as int); }
        if ts[i].task_group_id == g.id {
            nt = nt + 1;
        }
        i = i + 1;
    }
    assert(ts@.take(ts@.len() as int) =~= ts@);
    let ghost fc = group_count(ts@, g.id@, lo, hi);
    let ghost fd = group_completed(ts@, g.id@, lo, hi);
    let ghost fm = group_minutes(ts@, g.id@, lo, hi);
    let mut n: u64 = 0;
    let mut c: u64 = 0;
    let mut m: i128 = 0;
    let mut i: usize = 0;
    while i < ss.len()
        invariant
            db.wf(),
            ts@ == db@.tasks,
            ss@ == db@.sessions,
            i <= ss@.len(),
            fc == group_count(ts@, g.id@, lo, hi),
            fd == group_completed(ts@, g.id@, lo, hi),
            fm == group_minutes(ts@, g.id@, lo, hi),
            n == total(ss@.take(i as int), fc),
            c == total(ss@.take(i as int), fd),
            m == total(ss@.take(i as int), fm),
            c <= n <= i,
            -(i as int) * 2147483648 <= m <= (i as int) * 2147483648,
        decreases ss@.len() - i,
    {
        proof {
            lemma_total_step(ss@, fc, i as int);
            lemma_total_step(ss@, fd, i as int);
            lemma_total_step(ss@, fm, i as int);
        }
        let s = &ss[i];
        if lo <= s.start_time && s.start_time <= hi && session_in_group(db, s, &g.id) {
            n = n + 1;
            if s.completed {
                c = c + 1;
            }
            match s.duration_minutes {
                Some(d) => { m = m + d as i128; },
                None => {},
            }
        }
        i = i + 1;
    }
    assert(ss@.take(ss@.len() as int) =~= ss@);
    TaskGroupStatistics {
        task_group_id: g.id.clone(),
        task_group_name: g.name.clone(),
        total_tasks: nt,
        total_sessions: n,
        total_duration_minutes: m,
        completed_sessions: c,
        completion_rate_bp: completion_rate_bp(c, n),
    }
}

impl Database {
    /// The aggregates of every task and every group over the sessions that
    /// start in `lo..=hi` (instants in milliseconds), each list by total
    /// minutes, most first. Tasks and groups without sessions in range are
    /// listed with zero counts.
    pub fn statistics_between(&self, lo: i64, hi: i64) -> (r: StatisticsResponse)
        requires
            self.wf(),
        ensures
            statistics_exact(self@, r, lo, hi),
    {
        let ts = self.tasks();
        let mut base: Vec<TaskStatistics> = Vec::new();
        let mut keys: Vec<i128> = Vec::new();
        let mut i: usize = 0;
        while i < ts.len()
            invariant
                self.wf(),
                ts@ == self@.tasks,
                i <= ts@.len(),
                base@.len() == i,
                keys@.len() == i,
                forall|k: int| 0 <= k < i ==> task_stat_matches(self@, ts@[k], #[trigger] base@[k], lo, hi),
                forall|k: int| 0 <= k < i ==> #[trigger] keys@[k] == base@[k].total_duration_minutes,
            decreases ts@.len() - i,
        {
            let st = task_stats(self, i, lo, hi);
            keys.push(st.total_duration_minutes);
            base.push(st);
            i = i + 1;
        }
        let p = order_desc(&keys);
        let mut task_statistics: Vec<TaskStatistics> = Vec::new();
        let mut k: usize = 0;
        while k < p.len()
            invariant
                k <= p@.len(),
                is_permutation(p@, ts@.len()),
                sorted_desc_by(p@, keys@),
                keys@.len() == ts@.len(),
                base@.len() == ts@.len(),
                task_statistics@.len() == k,
                forall|m: int| 0 <= m < k ==> task_statistics@[m] == base@[#[trigger] p@[m] as int],
            decreases p@.len() - k,
        {
            task_statistics.push(base[p[k]].copy());
            k = k + 1;
        }
        let gs = self.groups();
        let mut gbase: Vec<TaskGroupStatistics> = Vec::new();
        let mut gkeys: Vec<i128> = Vec::new();
        let mut i: usize = 0;
        while i < gs.len()
            invariant
                self.wf(),
                gs@ == self@.groups,
                i <= gs@.len(),
                gbase@.len() == i,
                gkeys@.len() == i,
                forall|k: int| 0 <= k < i ==> group_stat_matches(self@, gs@[k], #[trigger] gbase@[k], lo, hi),
                forall|k: int| 0 <= k < i ==> #[trigger] gkeys@[k] == gbase@[k].total_duration_minutes,
            decreases gs@.len() - i,
        {
            let st = group_stats(self, i, lo, hi);
            gkeys.push(st.total_duration_minutes);
            gbase.push(st);
            i = i + 1;
        }
        let q = order_desc(&gkeys);
        let mut task_group_statistics: Vec<TaskGroupStatistics> = Vec::new();
        let mut k: usize = 0;
        while k < q.len()
            invariant
                k <= q@.len(),
                is_permutation(q@, gs@.len()),
                sorted_desc_by(q@, gkeys@),
                gkeys@.len() == gs@.len(),
                gbase@.len() == gs@.len(),
                task_group_statistics@.len() == k,
                forall|m: int| 0 <= m < k ==> task_group_statistics@[m] == gbase@[#[trigger] q@[m] as int],
            decreases q@.len() - k,
        {
            task_group_statistics.push(gbase[q[k]].copy());
            k = k + 1;
        }
        let r = StatisticsResponse { task_statistics, task_group_statistics };
        assert forall|k: int| 0 <= k < ts@.len()
            implies task_stat_matches(self@, ts@[#[trigger] p@[k] as int], r.task_statistics@[k], lo, hi) by {
            assert(r.task_statistics@[k] == base@[p@[k] as int]);
        }
        assert forall|a: int, b: int| 0 <= a < b < r.task_statistics@.len()
            implies r.task_statistics@[a].total_duration_minutes >= r.task_statistics@[b].total_duration_minutes by {
            assert(r.task_statistics@[a] == base@[p@[a] as int]);
            assert(r.task_statistics@[b] == base@[p@[b] as int]);
            assert(keys@[p@[a] as int] == base@[p@[a] as int].total_duration_minutes);
            assert(keys@[p@[b] as int] == base@[p@[b] as int].total_duration_minutes);
        }
        assert forall|k: int| 0 <= k < gs@.len()
            implies group_stat_matches(self@, gs@[#[trigger] q@[k] as int], r.task_group_statistics@[k], lo, hi) by {
            assert(r.task_group_statistics@[k] == gbase@[q@[k] as int]);
        }
        assert forall|a: int, b: int| 0 <= a < b < r.task_group_statistics@.len()
            implies r.task_group_statistics@[a].total_duration_minutes >= r.task_group_statistics@[b].total_duration_minutes by {
            assert(r.task_group_statistics@[a] == gbase@[q@[a] as int]);
            assert(r.task_group_statistics@[b] == gbase@[q@[b] as int]);
            assert(gkeys@[q@[a] as int] == gbase@[q@[a] as int].total_duration_minutes);
            assert(gkeys@[q@[b] as int] == gbase@[q@[b] as int].total_duration_minutes);
        }
        r
    }

    /// The aggregates over the range that `req` gives as RFC 3339 texts,
    /// both ends included; see `statistics_between`. The bounds are compared
    /// with the sessions' start instants, so texts in any offset denote the
    /// same range as their UTC form. Refused with
    /// `Validation` where either end is not RFC 3339.
    pub fn get_statistics(&self, req: StatisticsRequest) -> (r: Result<StatisticsResponse, StoreError>)
        requires
            self.wf(),
        ensures
            r is Err <==> rfc3339_millis(req.start_date@) is None || rfc3339_millis(req.end_date@) is None,
            r is Err ==> r == Err::<StatisticsResponse, StoreError>(StoreError::Validation),
            r matches Ok(resp) ==> statistics_exact(
                self@,
                resp,
                rfc3339_millis(req.start_date@).unwrap(),
                rfc3339_millis(req.end_date@).unwrap(),
            ),
    {
        let lo = match parse_rfc3339_millis(req.start_date.as_str()) {
            Some(v) => v,
            None => return Err(StoreError::Validation),
        };
        let hi = match parse_rfc3339_millis(req.end_date.as_str()) {
            Some(v) => v,
            None => return Err(StoreError::Validation),
        };
        Ok(self.statistics_between(lo, hi))
    }
}

} // verus!
