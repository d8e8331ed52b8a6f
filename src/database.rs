//! The store of groups, tasks and sessions, its invariants, and the session
//! lifecycle: start, pause, resume and stop, with at most one open session.
use vstd::prelude::*;
use crate::clock::{fresh_id, now_millis};
use crate::models::{
    ActiveSession, CreateTaskGroupRequest, CreateTaskRequest, EndSessionRequest, PauseSessionRequest,
    ResumeSessionRequest, StartSessionRequest, StoreError, Task, TaskGroup, TaskSession,
    UpdateTaskGroupRequest, UpdateTaskRequest,
};
use crate::order::{is_permutation, order_desc, sorted_desc_by};

verus! {

/// What the store holds, as sequences of records.
pub struct StoreState {
    pub groups: Seq<TaskGroup>,
    pub tasks: Seq<Task>,
    pub sessions: Seq<TaskSession>,
}

pub open spec fn has_group(gs: Seq<TaskGroup>, id: Seq<char>) -> bool {
    exists|j: int| 0 <= j < gs.len() && (#[trigger] gs[j]).id@ == id
}

pub open spec fn has_task(ts: Seq<Task>, id: Seq<char>) -> bool {
    exists|j: int| 0 <= j < ts.len() && (#[trigger] ts[j]).id@ == id
}

pub open spec fn has_session(ss: Seq<TaskSession>, id: Seq<char>) -> bool {
    exists|j: int| 0 <= j < ss.len() && (#[trigger] ss[j]).id@ == id
}

pub open spec fn is_open(s: TaskSession) -> bool {
    s.end_time is None
}

pub open spec fn has_open(ss: Seq<TaskSession>) -> bool {
    exists|j: int| 0 <= j < ss.len() && is_open(#[trigger] ss[j])
}

pub open spec fn group_ids_unique(gs: Seq<TaskGroup>) -> bool {
    forall|i: int, j: int|
        0 <= i < gs.len() && 0 <= j < gs.len() && i != j ==> (#[trigger] gs[i]).id@ != (#[trigger] gs[j]).id@
}

pub open spec fn task_ids_unique(ts: Seq<Task>) -> bool {
    forall|i: int, j: int|
        0 <= i < ts.len() && 0 <= j < ts.len() && i != j ==> (#[trigger] ts[i]).id@ != (#[trigger] ts[j]).id@
}

pub open spec fn session_ids_unique(ss: Seq<TaskSession>) -> bool {
    forall|i: int, j: int|
        0 <= i < ss.len() && 0 <= j < ss.len() && i != j ==> (#[trigger] ss[i]).id@ != (#[trigger] ss[j]).id@
}

/// At most one session is open.
pub open spec fn single_open(ss: Seq<TaskSession>) -> bool {
    forall|i: int, j: int|
        0 <= i < ss.len() && 0 <= j < ss.len() && is_open(#[trigger] ss[i]) && is_open(#[trigger] ss[j])
            ==> i == j
}

/// The states a session can be in: a paused session is open and knows when
/// it was paused, a session is completed exactly when it has ended, and the
/// paused time is never negative.
pub open spec fn session_consistent(s: TaskSession) -> bool {
    &&& s.is_paused ==> s.paused_at is Some && s.end_time is None
    &&& s.paused_at is Some ==> s.is_paused
    &&& s.completed <==> s.end_time is Some
    &&& s.total_paused_duration_ms >= 0
}

impl StoreState {
    /// The store's invariant: unique identifiers, every task in an existing
    /// group, every session on an existing task, consistent sessions, and
    /// at most one open session.
    pub open spec fn wf(self) -> bool {
        &&& group_ids_unique(self.groups)
        &&& task_ids_unique(self.tasks)
        &&& session_ids_unique(self.sessions)
        &&& forall|i: int| 0 <= i < self.tasks.len()
            ==> has_group(self.groups, (#[trigger] self.tasks[i]).task_group_id@)
        &&& forall|i: int| 0 <= i < self.sessions.len()
            ==> has_task(self.tasks, (#[trigger] self.sessions[i]).task_id@)
        &&& forall|i: int| 0 <= i < self.sessions.len()
            ==> session_consistent(#[trigger] self.sessions[i])
        &&& single_open(self.sessions)
    }
}

/// Milliseconds in a minute.
pub const MS_PER_MINUTE: i64 = 60000;

/// The time between a pause and `now`; a clock that went back counts as no time.
pub open spec fn pause_gap(paused_at: i64, now: i64) -> int {
    if now > paused_at { now - paused_at } else { 0 }
}

/// `total + gap`, held at `i64::MAX`.
pub open spec fn capped_add(total: i64, gap: int) -> i64 {
    if total + gap > i64::MAX { i64::MAX } else { (total + gap) as i64 }
}

/// Whole minutes of unpaused time from `start` to `now`: 0 where that time is
/// not positive, held at `i32::MAX`.
pub open spec fn stopwatch_minutes(start: i64, paused_ms: i64, now: i64) -> i32 {
    let active = now - start - paused_ms;
    if active <= 0 {
        0
    } else if active / (MS_PER_MINUTE as int) > i32::MAX {
        i32::MAX
    } else {
        (active / (MS_PER_MINUTE as int)) as i32
    }
}

pub open spec fn new_session(id: String, task_id: String, now: i64) -> TaskSession {
    TaskSession {
        id: id,
        task_id: task_id,
        start_time: now,
        end_time: None,
        duration_minutes: None,
        completed: false,
        is_paused: false,
        paused_at: None,
        total_paused_duration_ms: 0,
        created_at: now,
    }
}

pub open spec fn paused(s: TaskSession, now: i64) -> TaskSession {
    TaskSession { is_paused: true, paused_at: Some(now), ..s }
}

pub open spec fn resumed(s: TaskSession, now: i64) -> TaskSession {
    TaskSession {
        is_paused: false,
        paused_at: None,
        total_paused_duration_ms: capped_add(
            s.total_paused_duration_ms,
            pause_gap(s.paused_at.unwrap(), now),
        ),
        ..s
    }
}

/// A session stopped at `now`: a pause still running ends first; the
/// duration is the given one where there is one, else the unpaused minutes.
pub open spec fn stopped(s: TaskSession, duration: Option<i32>, now: i64) -> TaskSession {
    let r = if s.is_paused { resumed(s, now) } else { s };
    TaskSession {
        end_time: Some(now),
        completed: true,
        duration_minutes: Some(
            match duration {
                Some(d) => d,
                None => stopwatch_minutes(r.start_time, r.total_paused_duration_ms, now),
            },
        ),
        ..r
    }
}

pub open spec fn new_group(req: CreateTaskGroupRequest, id: String, now: i64) -> TaskGroup {
    TaskGroup { id: id, name: req.name, description: req.description, created_at: now, updated_at: now }
}

pub open spec fn updated_group(g: TaskGroup, req: UpdateTaskGroupRequest, now: i64) -> TaskGroup {
    TaskGroup {
        name: match req.name { Some(n) => n, None => g.name },
        description: match req.description { Some(d) => Some(d), None => g.description },
        updated_at: now,
        ..g
    }
}

pub open spec fn new_task(req: CreateTaskRequest, id: String, now: i64) -> Task {
    Task {
        id: id,
        task_group_id: req.task_group_id,
        name: req.name,
        description: req.description,
        duration_minutes: req.duration_minutes,
        created_at: now,
        updated_at: now,
    }
}

/// Name and description change only where the request gives them; the
/// duration is set to what the request gives, so `None` makes a stopwatch task.
pub open spec fn updated_task(t: Task, req: UpdateTaskRequest, now: i64) -> Task {
    Task {
        name: match req.name { Some(n) => n, None => t.name },
        description: match req.description { Some(d) => Some(d), None => t.description },
        duration_minutes: req.duration_minutes,
        updated_at: now,
        ..t
    }
}

pub open spec fn name_is_empty(n: Option<String>) -> bool {
    match n {
        Some(s) => s@.len() == 0,
        None => false,
    }
}

/// The sessions kept when only the tasks `ts` remain.
pub open spec fn sessions_of(ts: Seq<Task>) -> spec_fn(TaskSession) -> bool {
    |s: TaskSession| has_task(ts, s.task_id@)
}

/// The tasks kept when the group `gid` goes.
pub open spec fn tasks_outside(gid: Seq<char>) -> spec_fn(Task) -> bool {
    |t: Task| t.task_group_id@ != gid
}

/// The in-memory store. Its records are read through `view`.
#[derive(Debug)]
pub struct Database {
    groups: Vec<TaskGroup>,
    tasks: Vec<Task>,
    sessions: Vec<TaskSession>,
}

impl View for Database {
    type V = StoreState;

    closed spec fn view(&self) -> StoreState {
        StoreState { groups: self.groups@, tasks: self.tasks@, sessions: self.sessions@ }
    }
}

impl Database {
    pub open spec fn wf(&self) -> bool {
        self@.wf()
    }

    /// An empty store.
    pub fn new() -> (r: Database)
        ensures
            r.wf(),
            r@.groups.len() == 0,
            r@.tasks.len() == 0,
            r@.sessions.len() == 0,
    {
        Database { groups: Vec::new(), tasks: Vec::new(), sessions: Vec::new() }
    }

    pub fn groups(&self) -> (r: &Vec<TaskGroup>)
        ensures
            r@ == self@.groups,
    {
        &self.groups
    }

    pub fn tasks(&self) -> (r: &Vec<Task>)
        ensures
            r@ == self@.tasks,
    {
        &self.tasks
    }

    pub fn sessions(&self) -> (r: &Vec<TaskSession>)
        ensures
            r@ == self@.sessions,
    {
        &self.sessions
    }

    pub(crate) fn find_group(&self, id: &String) -> (r: Option<usize>)
        ensures
            match r {
                Some(i) => i < self@.groups.len() && self@.groups[i as int].id@ == id@,
                None => !has_group(self@.groups, id@),
            },
    {
        let mut i: usize = 0;
        while i < self.groups.len()
            invariant
                i <= self.groups@.len(),
                forall|k: int| 0 <= k < i ==> (#[trigger] self.groups@[k]).id@ != id@,
            decreases self.groups@.len() - i,
        {
            if self.groups[i].id == *id {
                return Some(i);
            }
            i = i + 1;
        }
        None
    }

    pub(crate) fn find_task(&self, id: &String) -> (r: Option<usize>)
        ensures
            match r {
                Some(i) => i < self@.tasks.len() && self@.tasks[i as int].id@ == id@,
                None => !has_task(self@.tasks, id@),
            },
    {
        let mut i: usize = 0;
        while i < self.tasks.len()
            invariant
                i <= self.tasks@.len(),
                forall|k: int| 0 <= k < i ==> (#[trigger] self.tasks@[k]).id@ != id@,
            decreases self.tasks@.len() - i,
        {
            if self.tasks[i].id == *id {
                return Some(i);
            }
            i = i + 1;
        }
        None
    }

    pub(crate) fn find_session(&self, id: &String) -> (r: Option<usize>)
        ensures
            match r {
                Some(i) => i < self@.sessions.len() && self@.sessions[i as int].id@ == id@,
                None => !has_session(self@.sessions, id@),
            },
    {
        let mut i: usize = 0;
        while i < self.sessions.len()
            invariant
                i <= self.sessions@.len(),
                forall|k: int| 0 <= k < i ==> (#[trigger] self.sessions@[k]).id@ != id@,
            decreases self.sessions@.len() - i,
        {
            if self.sessions[i].id == *id {
                return Some(i);
            }
            i = i + 1;
        }
        None
    }

    pub(crate) fn find_open(&self) -> (r: Option<usize>)
        ensures
            match r {
                Some(i) => i < self@.sessions.len() && is_open(self@.sessions[i as int]),
                None => !has_open(self@.sessions),
            },
    {
        let mut i: usize = 0;
        while i < self.sessions.len()
            invariant
                i <= self.sessions@.len(),
                forall|k: int| 0 <= k < i ==> !is_open(#[trigger] self.sessions@[k]),
            decreases self.sessions@.len() - i,
        {
            if self.sessions[i].end_time.is_none() {
                return Some(i);
            }
            i = i + 1;
        }
        None
    }
}

impl Database {
    /// Opens a session on task `req.task_id` at `now`, named `id`.
    /// Refused with `NotFound` where the task does not exist, with `Conflict`
    /// where a session is already open, and with `Storage` where `id` is taken.
    pub fn start_session_at(&mut self, req: StartSessionRequest, id: String, now: i64) -> (r: Result<TaskSession, StoreError>)
        requires
            old(self).wf(),
        ensures
            final(self).wf(),
            final(self)@.groups == old(self)@.groups,
            final(self)@.tasks == old(self)@.tasks,
            (r == Err::<TaskSession, StoreError>(StoreError::NotFound)) <==> !has_task(old(self)@.tasks, req.task_id@),
            (r == Err::<TaskSession, StoreError>(StoreError::Conflict)) <==> has_task(old(self)@.tasks, req.task_id@)
                && has_open(old(self)@.sessions),
            (r == Err::<TaskSession, StoreError>(StoreError::Storage)) <==> has_task(old(self)@.tasks, req.task_id@)
                && !has_open(old(self)@.sessions) && has_session(old(self)@.sessions, id@),
            r is Ok <==> has_task(old(self)@.tasks, req.task_id@) && !has_open(old(self)@.sessions)
                && !has_session(old(self)@.sessions, id@),
            r is Err ==> final(self)@ == old(self)@,
            r is Ok ==> r == Ok::<TaskSession, StoreError>(new_session(id, req.task_id, now))
                && final(self)@.sessions == old(self)@.sessions.push(new_session(id, req.task_id, now)),
    {
        if self.find_task(&req.task_id).is_none() {
            return Err(StoreError::NotFound);
        }
        if self.find_open().is_some() {
            return Err(StoreError::Conflict);
        }
        if self.find_session(&id).is_some() {
            return Err(StoreError::Storage);
        }
        let s = TaskSession {
            id: id,
            task_id: req.task_id,
            start_time: now,
            end_time: None,
            duration_minutes: None,
            completed: false,
            is_paused: false,
            paused_at: None,
            total_paused_duration_ms: 0,
            created_at: now,
        };
        let out = s.copy();
        self.sessions.push(s);
        let ghost ss = self.sessions@;
        assert forall|k: int| 0 <= k < ss.len() implies has_task(self.tasks@, (#[trigger] ss[k]).task_id@) by {
            if k < ss.len() - 1 {
                assert(ss[k] == old(self).sessions@[k]);
            }
        }
        assert(session_ids_unique(ss)) by {
            assert forall|a: int, b: int| 0 <= a < ss.len() && 0 <= b < ss.len() && a != b
                implies (#[trigger] ss[a]).id@ != (#[trigger] ss[b]).id@ by {
                if a < ss.len() - 1 && b < ss.len() - 1 {
                    assert(ss[a] == old(self).sessions@[a] && ss[b] == old(self).sessions@[b]);
                } else if a < ss.len() - 1 {
                    assert(ss[a] == old(self).sessions@[a]);
                } else {
                    assert(ss[b] == old(self).sessions@[b]);
                }
            }
        }
        assert(single_open(ss)) by {
            assert forall|a: int, b: int| 0 <= a < ss.len() && 0 <= b < ss.len()
                && is_open(#[trigger] ss[a]) && is_open(#[trigger] ss[b]) implies a == b by {
                if a < ss.len() - 1 {
                    assert(ss[a] == old(self).sessions@[a]);
                }
                if b < ss.len() - 1 {
                    assert(ss[b] == old(self).sessions@[b]);
                }
            }
        }
        Ok(out)
    }

    /// Opens a session on task `req.task_id` now, under a fresh random identifier.
    /// Refused with `NotFound` where the task does not exist and with
    /// `Conflict` where a session is already open.
    pub fn start_session(&mut self, req: StartSessionRequest) -> (r: Result<TaskSession, StoreError>)
        requires
            old(self).wf(),
        ensures
            final(self).wf(),
            final(self)@.groups == old(self)@.groups,
            final(self)@.tasks == old(self)@.tasks,
            (r == Err::<TaskSession, StoreError>(StoreError::NotFound)) <==> !has_task(old(self)@.tasks, req.task_id@),
            (r == Err::<TaskSession, StoreError>(StoreError::Conflict)) <==> has_task(old(self)@.tasks, req.task_id@)
                && has_open(old(self)@.sessions),
            r is Err ==> r == Err::<TaskSession, StoreError>(StoreError::NotFound)
                || r == Err::<TaskSession, StoreError>(StoreError::Conflict)
                || r == Err::<TaskSession, StoreError>(StoreError::Storage),
            r is Err ==> final(self)@ == old(self)@,
            r == Err::<TaskSession, StoreError>(StoreError::Storage) ==> old(self)@.sessions.len() > 0,
            r matches Ok(s) ==> s == new_session(s.id, req.task_id, s.start_time)
                && !has_session(old(self)@.sessions, s.id@)
                && final(self)@.sessions == old(self)@.sessions.push(s),
    {
        let id = fresh_id();
        let now = now_millis();
        self.start_session_at(req, id, now)
    }

    /// Pauses the session `req.session_id` at `now`. Refused with `NotFound`
    /// where it does not exist, and with `Conflict` where it has ended or is
    /// already paused.
    pub fn pause_session_at(&mut self, req: PauseSessionRequest, now: i64) -> (r: Result<TaskSession, StoreError>)
        requires
            old(self).wf(),
        ensures
            final(self).wf(),
            final(self)@.groups == old(self)@.groups,
            final(self)@.tasks == old(self)@.tasks,
            (r == Err::<TaskSession, StoreError>(StoreError::NotFound)) <==> !has_session(old(self)@.sessions, req.session_id@),
            r is Err ==> r == Err::<TaskSession, StoreError>(StoreError::NotFound)
                || r == Err::<TaskSession, StoreError>(StoreError::Conflict),
            r is Err ==> final(self)@ == old(self)@,
            forall|i: int| 0 <= i < old(self)@.sessions.len() && (#[trigger] old(self)@.sessions[i]).id@ == req.session_id@ ==> {
                let s = old(self)@.sessions[i];
                &&& (r == Err::<TaskSession, StoreError>(StoreError::Conflict)) <==> (!is_open(s) || s.is_paused)
                &&& r is Ok <==> (is_open(s) && !s.is_paused)
                &&& r is Ok ==> r == Ok::<TaskSession, StoreError>(paused(s, now))
                    && final(self)@.sessions == old(self)@.sessions.update(i, paused(s, now))
            },
    {
        let i = match self.find_session(&req.session_id) {
            Some(i) => i,
            None => return Err(StoreError::NotFound),
        };
        if self.sessions[i].end_time.is_some() || self.sessions[i].is_paused {
            return Err(StoreError::Conflict);
        }
        let mut s = self.sessions[i].copy();
        s.is_paused = true;
        s.paused_at = Some(now);
        let out = s.copy();
        self.sessions.set(i, s);
        proof { self.lemma_update_keeps_wf(old(self)@, i as int); }
        Ok(out)
    }

    /// Resumes the paused session `req.session_id` at `now`, adding the time
    /// since the pause to its paused time. Refused with `NotFound` where it
    /// does not exist, and with `Conflict` where it is not paused.
    pub fn resume_session_at(&mut self, req: ResumeSessionRequest, now: i64) -> (r: Result<TaskSession, StoreError>)
        requires
            old(self).wf(),
        ensures
            final(self).wf(),
            final(self)@.groups == old(self)@.groups,
            final(self)@.tasks == old(self)@.tasks,
            (r == Err::<TaskSession, StoreError>(StoreError::NotFound)) <==> !has_session(old(self)@.sessions, req.session_id@),
            r is Err ==> r == Err::<TaskSession, StoreError>(StoreError::NotFound)
                || r == Err::<TaskSession, StoreError>(StoreError::Conflict),
            r is Err ==> final(self)@ == old(self)@,
            forall|i: int| 0 <= i < old(self)@.sessions.len() && (#[trigger] old(self)@.sessions[i]).id@ == req.session_id@ ==> {
                let s = old(self)@.sessions[i];
                &&& (r == Err::<TaskSession, StoreError>(StoreError::Conflict)) <==> !s.is_paused
                &&& r is Ok <==> s.is_paused
                &&& r is Ok ==> r == Ok::<TaskSession, StoreError>(resumed(s, now))
                    && final(self)@.sessions == old(self)@.sessions.update(i, resumed(s, now))
            },
    {
        let i = match self.find_session(&req.session_id) {
            Some(i) => i,
            None => return Err(StoreError::NotFound),
        };
        if !self.sessions[i].is_paused {
            return Err(StoreError::Conflict);
        }
        let mut s = self.sessions[i].copy();
        s.total_paused_duration_ms = add_pause(s.total_paused_duration_ms, s.paused_at.unwrap(), now);
        s.is_paused = false;
        s.paused_at = None;
        let out = s.copy();
        self.sessions.set(i, s);
        proof { self.lemma_update_keeps_wf(old(self)@, i as int); }
        Ok(out)
    }

    /// Stops the open session `req.session_id` at `now`; see `stopped` for
    /// the duration it records. Refused with `NotFound` where it does not
    /// exist, and with `Conflict` where it has already ended.
    pub fn end_session_at(&mut self, req: EndSessionRequest, now: i64) -> (r: Result<TaskSession, StoreError>)
        requires
            old(self).wf(),
        ensures
            final(self).wf(),
            final(self)@.groups == old(self)@.groups,
            final(self)@.tasks == old(self)@.tasks,
            (r == Err::<TaskSession, StoreError>(StoreError::NotFound)) <==> !has_session(old(self)@.sessions, req.session_id@),
            r is Err ==> r == Err::<TaskSession, StoreError>(StoreError::NotFound)
                || r == Err::<TaskSession, StoreError>(StoreError::Conflict),
            r is Err ==> final(self)@ == old(self)@,
            forall|i: int| 0 <= i < old(self)@.sessions.len() && (#[trigger] old(self)@.sessions[i]).id@ == req.session_id@ ==> {
                let s = old(self)@.sessions[i];
                &&& (r == Err::<TaskSession, StoreError>(StoreError::Conflict)) <==> !is_open(s)
                &&& r is Ok <==> is_open(s)
                &&& r is Ok ==> r == Ok::<TaskSession, StoreError>(stopped(s, req.duration_minutes, now))
                    && final(self)@.sessions == old(self)@.sessions.update(i, stopped(s, req.duration_minutes, now))
            },
    {
        let i = match self.find_session(&req.session_id) {
            Some(i) => i,
            None => return Err(StoreError::NotFound),
        };
        if self.sessions[i].end_time.is_some() {
            return Err(StoreError::Conflict);
        }
        let mut s = self.sessions[i].copy();
        if s.is_paused {
            s.total_paused_duration_ms = add_pause(s.total_paused_duration_ms, s.paused_at.unwrap(), now);
            s.is_paused = false;
            s.paused_at = None;
        }
        let minutes = match req.duration_minutes {
            Some(d) => d,
            None => elapsed_minutes(s.start_time, s.total_paused_duration_ms, now),
        };
        s.end_time = Some(now);
        s.completed = true;
        s.duration_minutes = Some(minutes);
        let out = s.copy();
        self.sessions.set(i, s);
        proof { self.lemma_update_keeps_wf(old(self)@, i as int); }
        Ok(out)
    }

    /// Pauses the session `req.session_id` now; see `pause_session_at`.
    pub fn pause_session(&mut self, req: PauseSessionRequest) -> (r: Result<TaskSession, StoreError>)
        requires
            old(self).wf(),
        ensures
            final(self).wf(),
            final(self)@.groups == old(self)@.groups,
            final(self)@.tasks == old(self)@.tasks,
            (r == Err::<TaskSession, StoreError>(StoreError::NotFound)) <==> !has_session(old(self)@.sessions, req.session_id@),
            r is Err ==> r == Err::<TaskSession, StoreError>(StoreError::NotFound)
                || r == Err::<TaskSession, StoreError>(StoreError::Conflict),
            r is Err ==> final(self)@ == old(self)@,
            forall|i: int| 0 <= i < old(self)@.sessions.len() && (#[trigger] old(self)@.sessions[i]).id@ == req.session_id@ ==> {
                let s = old(self)@.sessions[i];
                &&& (r == Err::<TaskSession, StoreError>(StoreError::Conflict)) <==> (!is_open(s) || s.is_paused)
                &&& r is Ok <==> (is_open(s) && !s.is_paused)
                &&& r matches Ok(p) ==> exists|now: i64| p == paused(s, now)
                    && final(self)@.sessions == old(self)@.sessions.update(i, p)
            },
    {
        let now = now_millis();
        self.pause_session_at(req, now)
    }

    /// Resumes the session `req.session_id` now; see `resume_session_at`.
    pub fn resume_session(&mut self, req: ResumeSessionRequest) -> (r: Result<TaskSession, StoreError>)
        requires
            old(self).wf(),
        ensures
            final(self).wf(),
            final(self)@.groups == old(self)@.groups,
            final(self)@.tasks == old(self)@.tasks,
            (r == Err::<TaskSession, StoreError>(StoreError::NotFound)) <==> !has_session(old(self)@.sessions, req.session_id@),
            r is Err ==> r == Err::<TaskSession, StoreError>(StoreError::NotFound)
                || r == Err::<TaskSession, StoreError>(StoreError::Conflict),
            r is Err ==> final(self)@ == old(self)@,
            forall|i: int| 0 <= i < old(self)@.sessions.len() && (#[trigger] old(self)@.sessions[i]).id@ == req.session_id@ ==> {
                let s = old(self)@.sessions[i];
                &&& (r == Err::<TaskSession, StoreError>(StoreError::Conflict)) <==> !s.is_paused
                &&& r is Ok <==> s.is_paused
                &&& r matches Ok(p) ==> exists|now: i64| p == resumed(s, now)
                    && final(self)@.sessions == old(self)@.sessions.update(i, p)
            },
    {
        let now = now_millis();
        self.resume_session_at(req, now)
    }

    /// Stops the session `req.session_id` now; see `end_session_at`.
    pub fn end_session(&mut self, req: EndSessionRequest) -> (r: Result<TaskSession, StoreError>)
        requires
            old(self).wf(),
        ensures
            final(self).wf(),
            final(self)@.groups == old(self)@.groups,
            final(self)@.tasks == old(self)@.tasks,
            (r == Err::<TaskSession, StoreError>(StoreError::NotFound)) <==> !has_session(old(self)@.sessions, req.session_id@),
            r is Err ==> r == Err::<TaskSession, StoreError>(StoreError::NotFound)
                || r == Err::<TaskSession, StoreError>(StoreError::Conflict),
            r is Err ==> final(self)@ == old(self)@,
            forall|i: int| 0 <= i < old(self)@.sessions.len() && (#[trigger] old(self)@.sessions[i]).id@ == req.session_id@ ==> {
                let s = old(self)@.sessions[i];
                &&& (r == Err::<TaskSession, StoreError>(StoreError::Conflict)) <==> !is_open(s)
                &&& r is Ok <==> is_open(s)
                &&& r matches Ok(p) ==> exists|now: i64| p == stopped(s, req.duration_minutes, now)
                    && final(self)@.sessions == old(self)@.sessions.update(i, p)
            },
    {
        let now = now_millis();
        self.end_session_at(req, now)
    }

    /// A session update that keeps identifier, task and consistency, and
    /// opens no second session, keeps the invariant.
    proof fn lemma_update_keeps_wf(&self, prev: StoreState, i: int)
        requires
            prev.wf(),
            0 <= i < prev.sessions.len(),
            self@.groups == prev.groups,
            self@.tasks == prev.tasks,
            self@.sessions.len() == prev.sessions.len(),
            forall|k: int| 0 <= k < prev.sessions.len() && k != i ==> self@.sessions[k] == prev.sessions[k],
            self@.sessions[i].id == prev.sessions[i].id,
            self@.sessions[i].task_id == prev.sessions[i].task_id,
            session_consistent(self@.sessions[i]),
            is_open(self@.sessions[i]) ==> is_open(prev.sessions[i]),
        ensures
            self.wf(),
    {
        let ss = self@.sessions;
        assert forall|k: int| 0 <= k < ss.len() implies has_task(self@.tasks, (#[trigger] ss[k]).task_id@) by {
            assert(has_task(prev.tasks, prev.sessions[k].task_id@));
        }
        assert forall|k: int| 0 <= k < ss.len() implies session_consistent(#[trigger] ss[k]) by {
            if k != i {
                assert(session_consistent(prev.sessions[k]));
            }
        }
        assert(session_ids_unique(ss)) by {
            assert forall|a: int, b: int| 0 <= a < ss.len() && 0 <= b < ss.len() && a != b
                implies (#[trigger] ss[a]).id@ != (#[trigger] ss[b]).id@ by {
                assert(prev.sessions[a].id@ != prev.sessions[b].id@);
            }
        }
        assert(single_open(ss)) by {
            assert forall|a: int, b: int| 0 <= a < ss.len() && 0 <= b < ss.len()
                && is_open(#[trigger] ss[a]) && is_open(#[trigger] ss[b]) implies a == b by {
                assert(is_open(prev.sessions[a]) && is_open(prev.sessions[b]));
            }
        }
    }
}

/// `total` plus the time from `paused_at` to `now`, as `capped_add` and `pause_gap` say.
fn add_pause(total: i64, paused_at: i64, now: i64) -> (r: i64)
    requires
        total >= 0,
    ensures
        r == capped_add(total, pause_gap(paused_at, now)),
        r >= total,
{
    let gap: i128 = if now > paused_at { now as i128 - paused_at as i128 } else { 0 };
    let sum: i128 = total as i128 + gap;
    if sum > i64::MAX as i128 { i64::MAX } else { sum as i64 }
}

/// The minutes that `stopwatch_minutes` gives.
fn elapsed_minutes(start: i64, paused_ms: i64, now: i64) -> (r: i32)
    ensures
        r == stopwatch_minutes(start, paused_ms, now),
{
    let active: i128 = now as i128 - start as i128 - paused_ms as i128;
    if active <= 0 {
        0
    } else {
        let m: i128 = active / (MS_PER_MINUTE as i128);
        if m > i32::MAX as i128 { i32::MAX } else { m as i32 }
    }
}

/// `r` is a permutation of `items` that puts newer creation instants first.
pub open spec fn newest_first_groups(items: Seq<TaskGroup>, r: Seq<TaskGroup>) -> bool {
    exists|p: Seq<usize>| {
        &&& is_permutation(p, items.len())
        &&& sorted_desc_by(p, items.map_values(|g: TaskGroup| g.created_at as i128))
        &&& forall|k: int| 0 <= k < r.len() ==> r[k] == items[#[trigger] p[k] as int]
    }
}

/// `r` is a permutation of `items` that puts newer creation instants first.
pub open spec fn newest_first_tasks(items: Seq<Task>, r: Seq<Task>) -> bool {
    exists|p: Seq<usize>| {
        &&& is_permutation(p, items.len())
        &&& sorted_desc_by(p, items.map_values(|t: Task| t.created_at as i128))
        &&& forall|k: int| 0 <= k < r.len() ==> r[k] == items[#[trigger] p[k] as int]
    }
}

impl Database {
    /// The open session with its task and that task's group, if a session is open.
    pub fn get_active_session(&self) -> (r: Option<ActiveSession>)
        requires
            self.wf(),
        ensures
            r is None <==> !has_open(self@.sessions),
            r matches Some(a) ==> {
                &&& exists|i: int| 0 <= i < self@.sessions.len() && #[trigger] self@.sessions[i] == a.session
                &&& is_open(a.session)
                &&& self@.tasks.contains(a.task) && a.task.id@ == a.session.task_id@
                &&& self@.groups.contains(a.task_group) && a.task_group.id@ == a.task.task_group_id@
            },
    {
        let i = match self.find_open() {
            Some(i) => i,
            None => return None,
        };
        let s = &self.sessions[i];
        assert(has_task(self@.tasks, self@.sessions[i as int].task_id@));
        let j = self.find_task(&s.task_id).unwrap();
        let t = &self.tasks[j];
        assert(has_group(self@.groups, self@.tasks[j as int].task_group_id@));
        let k = self.find_group(&t.task_group_id).unwrap();
        let a = ActiveSession { session: s.copy(), task: t.copy(), task_group: self.groups[k].copy() };
        assert(self@.tasks[j as int] == a.task);
        assert(self@.groups[k as int] == a.task_group);
        Some(a)
    }

    /// Adds the group `req` under `id` at `now`. Refused with `Validation`
    /// where the name is empty, and with `Storage` where `id` is taken.
    pub fn create_task_group_at(&mut self, req: CreateTaskGroupRequest, id: String, now: i64) -> (r: Result<TaskGroup, StoreError>)
        requires
            old(self).wf(),
        ensures
            final(self).wf(),
            (r == Err::<TaskGroup, StoreError>(StoreError::Validation)) <==> req.name@.len() == 0,
            (r == Err::<TaskGroup, StoreError>(StoreError::Storage)) <==> req.name@.len() > 0
                && has_group(old(self)@.groups, id@),
            r is Ok <==> req.name@.len() > 0 && !has_group(old(self)@.groups, id@),
            r is Err ==> final(self)@ == old(self)@,
            r is Ok ==> r == Ok::<TaskGroup, StoreError>(new_group(req, id, now))
                && final(self)@ == (StoreState { groups: old(self)@.groups.push(new_group(req, id, now)), ..old(self)@ }),
    {
        if req.name.as_str().unicode_len() == 0 {
            return Err(StoreError::Validation);
        }
        if self.find_group(&id).is_some() {
            return Err(StoreError::Storage);
        }
        let g = TaskGroup { id: id, name: req.name, description: req.description, created_at: now, updated_at: now };
        let out = g.copy();
        self.groups.push(g);
        let ghost gs = self.groups@;
        assert forall|k: int| 0 <= k < self.tasks@.len() implies has_group(gs, (#[trigger] self.tasks@[k]).task_group_id@) by {
            let w = choose|j: int| 0 <= j < old(self).groups@.len() && (#[trigger] old(self).groups@[j]).id@ == self.tasks@[k].task_group_id@;
            assert(gs[w] == old(self).groups@[w]);
        }
        assert(group_ids_unique(gs)) by {
            assert forall|a: int, b: int| 0 <= a < gs.len() && 0 <= b < gs.len() && a != b
                implies (#[trigger] gs[a]).id@ != (#[trigger] gs[b]).id@ by {
                if a < gs.len() - 1 && b < gs.len() - 1 {
                    assert(gs[a] == old(self).groups@[a] && gs[b] == old(self).groups@[b]);
                } else if a < gs.len() - 1 {
                    assert(gs[a] == old(self).groups@[a]);
                } else {
                    assert(gs[b] == old(self).groups@[b]);
                }
            }
        }
        Ok(out)
    }

    /// Adds the group `req` now, under a fresh random identifier. Refused with
    /// `Validation` where the name is empty.
    pub fn create_task_group(&mut self, req: CreateTaskGroupRequest) -> (r: Result<TaskGroup, StoreError>)
        requires
            old(self).wf(),
        ensures
            final(self).wf(),
            (r == Err::<TaskGroup, StoreError>(StoreError::Validation)) <==> req.name@.len() == 0,
            r is Err ==> r == Err::<TaskGroup, StoreError>(StoreError::Validation)
                || r == Err::<TaskGroup, StoreError>(StoreError::Storage),
            r is Err ==> final(self)@ == old(self)@,
            r == Err::<TaskGroup, StoreError>(StoreError::Storage) ==> old(self)@.groups.len() > 0,
            r matches Ok(g) ==> g == new_group(req, g.id, g.created_at)
                && !has_group(old(self)@.groups, g.id@)
                && final(self)@ == (StoreState { groups: old(self)@.groups.push(g), ..old(self)@ }),
    {
        let id = fresh_id();
        let now = now_millis();
        self.create_task_group_at(req, id, now)
    }

    /// The groups, newest first.
    pub fn get_task_groups(&self) -> (r: Vec<TaskGroup>)
        ensures
            newest_first_groups(self@.groups, r@),
            r@.len() == self@.groups.len(),
    {
        let mut keys: Vec<i128> = Vec::new();
        let mut i: usize = 0;
        while i < self.groups.len()
            invariant
                i <= self.groups@.len(),
                keys@ == self.groups@.take(i as int).map_values(|g: TaskGroup| g.created_at as i128),
            decreases self.groups@.len() - i,
        {
            keys.push(self.groups[i].created_at as i128);
            i = i + 1;
            assert(keys@ =~= self.groups@.take(i as int).map_values(|g: TaskGroup| g.created_at as i128));
        }
        assert(self.groups@.take(self.groups@.len() as int) =~= self.groups@);
        let p = order_desc(&keys);
        let mut r: Vec<TaskGroup> = Vec::new();
        let mut k: usize = 0;
        while k < p.len()
            invariant
                k <= p@.len(),
                is_permutation(p@, self.groups@.len()),
                r@.len() == k,
                forall|m: int| 0 <= m < k ==> r@[m] == self.groups@[#[trigger] p@[m] as int],
            decreases p@.len() - k,
        {
            r.push(self.groups[p[k]].copy());
            k = k + 1;
        }
        assert(newest_first_groups(self@.groups, r@)) by {
            assert(forall|m: int| 0 <= m < r@.len() ==> r@[m] == self@.groups[#[trigger] p@[m] as int]);
        }
        r
    }
}

fn contains_task(ts: &Vec<Task>, id: &String) -> (r: bool)
    ensures
        r == has_task(ts@, id@),
{
    let mut i: usize = 0;
    while i < ts.len()
        invariant
            i <= ts@.len(),
            forall|k: int| 0 <= k < i ==> (#[trigger] ts@[k]).id@ != id@,
        decreases ts@.len() - i,
    {
        if ts[i].id == *id {
            return true;
        }
        i = i + 1;
    }
    false
}

/// The tasks that are not in group `gid`, in their order.
fn retain_tasks_outside(ts: &Vec<Task>, gid: &String) -> (r: Vec<Task>)
    requires
        task_ids_unique(ts@),
    ensures
        r@ == ts@.filter(tasks_outside(gid@)),
        task_ids_unique(r@),
        forall|k: int| 0 <= k < r@.len() ==> ts@.contains(#[trigger] r@[k]),
{
    let mut r: Vec<Task> = Vec::new();
    let mut i: usize = 0;
    while i < ts.len()
        invariant
            i <= ts@.len(),
            task_ids_unique(ts@),
            r@ == ts@.take(i as int).filter(tasks_outside(gid@)),
            task_ids_unique(r@),
            forall|k: int| 0 <= k < r@.len() ==> ts@.take(i as int).contains(#[trigger] r@[k]),
        decreases ts@.len() - i,
    {
        let ghost before = r@;
        assert(ts@.take(i + 1).drop_last() =~= ts@.take(i as int));
        reveal(Seq::filter);
        if ts[i].task_group_id != *gid {
            r.push(ts[i].copy());
            assert forall|a: int, b: int| 0 <= a < r@.len() && 0 <= b < r@.len() && a != b
                implies (#[trigger] r@[a]).id@ != (#[trigger] r@[b]).id@ by {
                if a < before.len() && b < before.len() {
                    assert(r@[a] == before[a] && r@[b] == before[b]);
                } else if a < before.len() {
                    assert(ts@.take(i as int).contains(before[a]));
                    let j = choose|j: int| 0 <= j < i && ts@.take(i as int)[j] == before[a];
                    assert(r@[a] == ts@[j]);
                } else {
                    assert(ts@.take(i as int).contains(before[b]));
                    let j = choose|j: int| 0 <= j < i && ts@.take(i as int)[j] == before[b];
                    assert(r@[b] == ts@[j]);
                }
            }
            assert forall|k: int| 0 <= k < r@.len() implies ts@.take(i + 1).contains(#[trigger] r@[k]) by {
                if k < before.len() {
                    assert(ts@.take(i as int).contains(before[k]));
                    let j = choose|j: int| 0 <= j < i && ts@.take(i as int)[j] == before[k];
                    assert(ts@.take(i + 1)[j] == r@[k]);
                } else {
                    assert(ts@.take(i + 1)[i as int] == r@[k]);
                }
            }
        }
        i = i + 1;
    }
    assert(ts@.take(ts@.len() as int) =~= ts@);
    r
}

/// The sessions whose task is among `ts`, in their order.
fn retain_sessions_of(ss: &Vec<TaskSession>, ts: &Vec<Task>) -> (r: Vec<TaskSession>)
    requires
        session_ids_unique(ss@),
        single_open(ss@),
    ensures
        r@ == ss@.filter(sessions_of(ts@)),
        session_ids_unique(r@),
        single_open(r@),
        forall|k: int| 0 <= k < r@.len() ==> ss@.contains(#[trigger] r@[k]),
{
    let mut r: Vec<TaskSession> = Vec::new();
    let mut i: usize = 0;
    while i < ss.len()
        invariant
            i <= ss@.len(),
            session_ids_unique(ss@),
            single_open(ss@),
            r@ == ss@.take(i as int).filter(sessions_of(ts@)),
            session_ids_unique(r@),
            single_open(r@),
            forall|k: int| 0 <= k < r@.len() ==> ss@.take(i as int).contains(#[trigger] r@[k]),
        decreases ss@.len() - i,
    {
        let ghost before = r@;
        assert(ss@.take(i + 1).drop_last() =~= ss@.take(i as int));
        reveal(Seq::filter);
        if contains_task(ts, &ss[i].task_id) {
            r.push(ss[i].copy());
            assert forall|a: int, b: int| 0 <= a < r@.len() && 0 <= b < r@.len() && a != b
                implies (#[trigger] r@[a]).id@ != (#[trigger] r@[b]).id@ by {
                if a < before.len() && b < before.len() {
                    assert(r@[a] == before[a] && r@[b] == before[b]);
                } else if a < before.len() {
                    assert(ss@.take(i as int).contains(before[a]));
                    let j = choose|j: int| 0 <= j < i && ss@.take(i as int)[j] == before[a];
                    assert(r@[a] == ss@[j]);
                } else {
                    assert(ss@.take(i as int).contains(before[b]));
                    let j = choose|j: int| 0 <= j < i && ss@.take(i as int)[j] == before[b];
                    assert(r@[b] == ss@[j]);
                }
            }
            assert forall|a: int, b: int| 0 <= a < r@.len() && 0 <= b < r@.len()
                && is_open(#[trigger] r@[a]) && is_open(#[trigger] r@[b]) implies a == b by {
                if a < before.len() && b < before.len() {
                    assert(r@[a] == before[a] && r@[b] == before[b]);
                } else if a < before.len() {
                    assert(ss@.take(i as int).contains(before[a]));
                    let j = choose|j: int| 0 <= j < i && ss@.take(i as int)[j] == before[a];
                    assert(r@[a] == ss@[j]);
                } else if b < before.len() {
                    assert(ss@.take(i as int).contains(before[b]));
                    let j = choose|j: int| 0 <= j < i && ss@.take(i as int)[j] == before[b];
                    assert(r@[b] == ss@[j]);
                }
            }
            assert forall|k: int| 0 <= k < r@.len() implies ss@.take(i + 1).contains(#[trigger] r@[k]) by {
                if k < before.len() {
                    assert(ss@.take(i as int).contains(before[k]));
                    let j = choose|j: int| 0 <= j < i && ss@.take(i as int)[j] == before[k];
                    assert(ss@.take(i + 1)[j] == r@[k]);
                } else {
                    assert(ss@.take(i + 1)[i as int] == r@[k]);
                }
            }
        }
        i = i + 1;
    }
    assert(ss@.take(ss@.len() as int) =~= ss@);
    r
}

impl Database {
    /// Removes the group `id`, its tasks and their sessions. Refused with
    /// `NotFound` where the group does not exist.
    pub fn delete_task_group(&mut self, id: &String) -> (r: Result<(), StoreError>)
        requires
            old(self).wf(),
        ensures
            final(self).wf(),
            (r == Err::<(), StoreError>(StoreError::NotFound)) <==> !has_group(old(self)@.groups, id@),
            r is Ok <==> has_group(old(self)@.groups, id@),
            r is Err ==> final(self)@ == old(self)@,
            r is Ok ==> {
                &&& forall|i: int| 0 <= i < old(self)@.groups.len() && (#[trigger] old(self)@.groups[i]).id@ == id@
                    ==> final(self)@.groups == old(self)@.groups.remove(i)
                &&& final(self)@.tasks == old(self)@.tasks.filter(tasks_outside(id@))
                &&& final(self)@.sessions == old(self)@.sessions.filter(sessions_of(final(self)@.tasks))
            },
    {
        let i = match self.find_group(id) {
            Some(i) => i,
            None => return Err(StoreError::NotFound),
        };
        let ghost prev = self@;
        let tasks = retain_tasks_outside(&self.tasks, id);
        let sessions = retain_sessions_of(&self.sessions, &tasks);
        self.groups.remove(i);
        self.tasks = tasks;
        self.sessions = sessions;
        let ghost gs = self@.groups;
        assert(group_ids_unique(gs)) by {
            assert forall|a: int, b: int| 0 <= a < gs.len() && 0 <= b < gs.len() && a != b
                implies (#[trigger] gs[a]).id@ != (#[trigger] gs[b]).id@ by {
                let oa = if a < i { a } else { a + 1 };
                let ob = if b < i { b } else { b + 1 };
                assert(gs[a] == prev.groups[oa] && gs[b] == prev.groups[ob]);
            }
        }
        assert forall|k: int| 0 <= k < self@.tasks.len() implies has_group(gs, (#[trigger] self@.tasks[k]).task_group_id@) by {
            let t = self@.tasks[k];
            prev.tasks.lemma_filter_pred(tasks_outside(id@), k);
            let j = choose|j: int| 0 <= j < prev.tasks.len() && prev.tasks[j] == t;
            assert(has_group(prev.groups, prev.tasks[j].task_group_id@));
            let w = choose|w: int| 0 <= w < prev.groups.len() && (#[trigger] prev.groups[w]).id@ == t.task_group_id@;
            assert(w != i);
            let nw = if w < i { w } else { w - 1 };
            assert(gs[nw] == prev.groups[w]);
        }
        assert forall|k: int| 0 <= k < self@.sessions.len() implies has_task(self@.tasks, (#[trigger] self@.sessions[k]).task_id@) by {
            prev.sessions.lemma_filter_pred(sessions_of(self@.tasks), k);
        }
        assert forall|k: int| 0 <= k < self@.sessions.len() implies session_consistent(#[trigger] self@.sessions[k]) by {
            let j = choose|j: int| 0 <= j < prev.sessions.len() && prev.sessions[j] == self@.sessions[k];
            assert(session_consistent(prev.sessions[j]));
        }
        Ok(())
    }

    /// Removes the task `id` and its sessions. Refused with `NotFound` where
    /// the task does not exist.
    pub fn delete_task(&mut self, id: &String) -> (r: Result<(), StoreError>)
        requires
            old(self).wf(),
        ensures
            final(self).wf(),
            final(self)@.groups == old(self)@.groups,
            (r == Err::<(), StoreError>(StoreError::NotFound)) <==> !has_task(old(self)@.tasks, id@),
            r is Ok <==> has_task(old(self)@.tasks, id@),
            r is Err ==> final(self)@ == old(self)@,
            r is Ok ==> {
                &&& forall|i: int| 0 <= i < old(self)@.tasks.len() && (#[trigger] old(self)@.tasks[i]).id@ == id@
                    ==> final(self)@.tasks == old(self)@.tasks.remove(i)
                &&& final(self)@.sessions == old(self)@.sessions.filter(sessions_of(final(self)@.tasks))
            },
    {
        let i = match self.find_task(id) {
            Some(i) => i,
            None => return Err(StoreError::NotFound),
        };
        let ghost prev = self@;
        self.tasks.remove(i);
        let sessions = retain_sessions_of(&self.sessions, &self.tasks);
        self.sessions = sessions;
        let ghost ts = self@.tasks;
        assert(task_ids_unique(ts)) by {
            assert forall|a: int, b: int| 0 <= a < ts.len() && 0 <= b < ts.len() && a != b
                implies (#[trigger] ts[a]).id@ != (#[trigger] ts[b]).id@ by {
                let oa = if a < i { a } else { a + 1 };
                let ob = if b < i { b } else { b + 1 };
                assert(ts[a] == prev.tasks[oa] && ts[b] == prev.tasks[ob]);
            }
        }
        assert forall|k: int| 0 <= k < ts.len() implies has_group(self@.groups, (#[trigger] ts[k]).task_group_id@) by {
            let ok = if k < i { k } else { k + 1 };
            assert(ts[k] == prev.tasks[ok]);
        }
        assert forall|k: int| 0 <= k < self@.sessions.len() implies has_task(ts, (#[trigger] self@.sessions[k]).task_id@) by {
            prev.sessions.lemma_filter_pred(sessions_of(ts), k);
        }
        assert forall|k: int| 0 <= k < self@.sessions.len() implies session_consistent(#[trigger] self@.sessions[k]) by {
            let j = choose|j: int| 0 <= j < prev.sessions.len() && prev.sessions[j] == self@.sessions[k];
            assert(session_consistent(prev.sessions[j]));
        }
        Ok(())
    }
}

/// The tasks of group `gid`.
pub open spec fn tasks_inside(gid: Seq<char>) -> spec_fn(Task) -> bool {
    |t: Task| t.task_group_id@ == gid
}

impl Database {
    /// Changes the group `id` as `updated_group` says, at `now`. Refused with
    /// `NotFound` where the group does not exist, and with `Validation` where
    /// the request gives an empty name.
    pub fn update_task_group_at(&mut self, id: &String, req: UpdateTaskGroupRequest, now: i64) -> (r: Result<TaskGroup, StoreError>)
        requires
            old(self).wf(),
        ensures
            final(self).wf(),
            final(self)@.tasks == old(self)@.tasks,
            final(self)@.sessions == old(self)@.sessions,
            (r == Err::<TaskGroup, StoreError>(StoreError::NotFound)) <==> !has_group(old(self)@.groups, id@),
            (r == Err::<TaskGroup, StoreError>(StoreError::Validation)) <==> has_group(old(self)@.groups, id@)
                && name_is_empty(req.name),
            r is Err ==> r == Err::<TaskGroup, StoreError>(StoreError::NotFound)
                || r == Err::<TaskGroup, StoreError>(StoreError::Validation),
            r is Err ==> final(self)@ == old(self)@,
            forall|i: int| 0 <= i < old(self)@.groups.len() && (#[trigger] old(self)@.groups[i]).id@ == id@ ==> {
                let g = updated_group(old(self)@.groups[i], req, now);
                r is Ok ==> r == Ok::<TaskGroup, StoreError>(g) && final(self)@.groups == old(self)@.groups.update(i, g)
            },
    {
        let i = match self.find_group(id) {
            Some(i) => i,
            None => return Err(StoreError::NotFound),
        };
        if let Some(n) = &req.name {
            if n.as_str().unicode_len() == 0 {
                return Err(StoreError::Validation);
            }
        }
        let mut g = self.groups[i].copy();
        if let Some(n) = req.name {
            g.name = n;
        }
        if let Some(d) = req.description {
            g.description = Some(d);
        }
        g.updated_at = now;
        let out = g.copy();
        let ghost prev = self@;
        self.groups.set(i, g);
        let ghost gs = self@.groups;
        assert(group_ids_unique(gs)) by {
            assert forall|a: int, b: int| 0 <= a < gs.len() && 0 <= b < gs.len() && a != b
                implies (#[trigger] gs[a]).id@ != (#[trigger] gs[b]).id@ by {
                assert(prev.groups[a].id@ != prev.groups[b].id@);
            }
        }
        assert forall|k: int| 0 <= k < self@.tasks.len() implies has_group(gs, (#[trigger] self@.tasks[k]).task_group_id@) by {
            assert(has_group(prev.groups, self@.tasks[k].task_group_id@));
            let w = choose|w: int| 0 <= w < prev.groups.len() && (#[trigger] prev.groups[w]).id@ == self@.tasks[k].task_group_id@;
            assert(gs[w].id == prev.groups[w].id);
        }
        Ok(out)
    }

    /// Changes the group `id` now; see `update_task_group_at`.
    pub fn update_task_group(&mut self, id: &String, req: UpdateTaskGroupRequest) -> (r: Result<TaskGroup, StoreError>)
        requires
            old(self).wf(),
        ensures
            final(self).wf(),
            final(self)@.tasks == old(self)@.tasks,
            final(self)@.sessions == old(self)@.sessions,
            (r == Err::<TaskGroup, StoreError>(StoreError::NotFound)) <==> !has_group(old(self)@.groups, id@),
            (r == Err::<TaskGroup, StoreError>(StoreError::Validation)) <==> has_group(old(self)@.groups, id@)
                && name_is_empty(req.name),
            r is Err ==> r == Err::<TaskGroup, StoreError>(StoreError::NotFound)
                || r == Err::<TaskGroup, StoreError>(StoreError::Validation),
            r is Err ==> final(self)@ == old(self)@,
            forall|i: int| 0 <= i < old(self)@.groups.len() && (#[trigger] old(self)@.groups[i]).id@ == id@ ==> (
                r matches Ok(g) ==> exists|now: i64| g == updated_group(old(self)@.groups[i], req, now)
                    && final(self)@.groups == old(self)@.groups.update(i, g)),
    {
        let now = now_millis();
        self.update_task_group_at(id, req, now)
    }

    /// Adds the task `req` under `id` at `now`. Refused with `Validation`
    /// where the name is empty, with `NotFound` where its group does not
    /// exist, and with `Storage` where `id` is taken.
    pub fn create_task_at(&mut self, req: CreateTaskRequest, id: String, now: i64) -> (r: Result<Task, StoreError>)
        requires
            old(self).wf(),
        ensures
            final(self).wf(),
            (r == Err::<Task, StoreError>(StoreError::Validation)) <==> req.name@.len() == 0,
            (r == Err::<Task, StoreError>(StoreError::NotFound)) <==> req.name@.len() > 0
                && !has_group(old(self)@.groups, req.task_group_id@),
            (r == Err::<Task, StoreError>(StoreError::Storage)) <==> req.name@.len() > 0
                && has_group(old(self)@.groups, req.task_group_id@) && has_task(old(self)@.tasks, id@),
            r is Ok <==> req.name@.len() > 0 && has_group(old(self)@.groups, req.task_group_id@)
                && !has_task(old(self)@.tasks, id@),
            r is Err ==> final(self)@ == old(self)@,
            r is Ok ==> r == Ok::<Task, StoreError>(new_task(req, id, now))
                && final(self)@ == (StoreState { tasks: old(self)@.tasks.push(new_task(req, id, now)), ..old(self)@ }),
    {
        if req.name.as_str().unicode_len() == 0 {
            return Err(StoreError::Validation);
        }
        if self.find_group(&req.task_group_id).is_none() {
            return Err(StoreError::NotFound);
        }
        if self.find_task(&id).is_some() {
            return Err(StoreError::Storage);
        }
        let t = Task {
            id: id,
            task_group_id: req.task_group_id,
            name: req.name,
            description: req.description,
            duration_minutes: req.duration_minutes,
            created_at: now,
            updated_at: now,
        };
        let out = t.copy();
        let ghost prev = self@;
        self.tasks.push(t);
        let ghost ts = self@.tasks;
        assert(task_ids_unique(ts)) by {
            assert forall|a: int, b: int| 0 <= a < ts.len() && 0 <= b < ts.len() && a != b
                implies (#[trigger] ts[a]).id@ != (#[trigger] ts[b]).id@ by {
                if a < ts.len() - 1 && b < ts.len() - 1 {
                    assert(ts[a] == prev.tasks[a] && ts[b] == prev.tasks[b]);
                } else if a < ts.len() - 1 {
                    assert(ts[a] == prev.tasks[a]);
                } else {
                    assert(ts[b] == prev.tasks[b]);
                }
            }
        }
        assert forall|k: int| 0 <= k < ts.len() implies has_group(self@.groups, (#[trigger] ts[k]).task_group_id@) by {
            if k < ts.len() - 1 {
                assert(ts[k] == prev.tasks[k]);
            }
        }
        assert forall|k: int| 0 <= k < self@.sessions.len() implies has_task(ts, (#[trigger] self@.sessions[k]).task_id@) by {
            assert(has_task(prev.tasks, self@.sessions[k].task_id@));
            let w = choose|w: int| 0 <= w < prev.tasks.len() && (#[trigger] prev.tasks[w]).id@ == self@.sessions[k].task_id@;
            assert(ts[w] == prev.tasks[w]);
        }
        Ok(out)
    }

    /// Adds the task `req` now, under a fresh random identifier. Refused with
    /// `Validation` where the name is empty, and with `NotFound` where its
    /// group does not exist.
    pub fn create_task(&mut self, req: CreateTaskRequest) -> (r: Result<Task, StoreError>)
        requires
            old(self).wf(),
        ensures
            final(self).wf(),
            (r == Err::<Task, StoreError>(StoreError::Validation)) <==> req.name@.len() == 0,
            (r == Err::<Task, StoreError>(StoreError::NotFound)) <==> req.name@.len() > 0
                && !has_group(old(self)@.groups, req.task_group_id@),
            r is Err ==> r == Err::<Task, StoreError>(StoreError::Validation)
                || r == Err::<Task, StoreError>(StoreError::NotFound)
                || r == Err::<Task, StoreError>(StoreError::Storage),
            r is Err ==> final(self)@ == old(self)@,
            r == Err::<Task, StoreError>(StoreError::Storage) ==> old(self)@.tasks.len() > 0,
            r matches Ok(t) ==> t == new_task(req, t.id, t.created_at)
                && !has_task(old(self)@.tasks, t.id@)
                && final(self)@ == (StoreState { tasks: old(self)@.tasks.push(t), ..old(self)@ }),
    {
        let id = fresh_id();
        let now = now_millis();
        self.create_task_at(req, id, now)
    }

    /// Changes the task `id` as `updated_task` says, at `now`. Refused with
    /// `NotFound` where the task does not exist, and with `Validation` where
    /// the request gives an empty name.
    pub fn update_task_at(&mut self, id: &String, req: UpdateTaskRequest, now: i64) -> (r: Result<Task, StoreError>)
        requires
            old(self).wf(),
        ensures
            final(self).wf(),
            final(self)@.groups == old(self)@.groups,
            final(self)@.sessions == old(self)@.sessions,
            (r == Err::<Task, StoreError>(StoreError::NotFound)) <==> !has_task(old(self)@.tasks, id@),
            (r == Err::<Task, StoreError>(StoreError::Validation)) <==> has_task(old(self)@.tasks, id@)
                && name_is_empty(req.name),
            r is Err ==> r == Err::<Task, StoreError>(StoreError::NotFound)
                || r == Err::<Task, StoreError>(StoreError::Validation),
            r is Err ==> final(self)@ == old(self)@,
            forall|i: int| 0 <= i < old(self)@.tasks.len() && (#[trigger] old(self)@.tasks[i]).id@ == id@ ==> {
                let t = updated_task(old(self)@.tasks[i], req, now);
                r is Ok ==> r == Ok::<Task, StoreError>(t) && final(self)@.tasks == old(self)@.tasks.update(i, t)
            },
    {
        let i = match self.find_task(id) {
            Some(i) => i,
            None => return Err(StoreError::NotFound),
        };
        if let Some(n) = &req.name {
            if n.as_str().unicode_len() == 0 {
                return Err(StoreError::Validation);
            }
        }
        let mut t = self.tasks[i].copy();
        if let Some(n) = req.name {
            t.name = n;
        }
        if let Some(d) = req.description {
            t.description = Some(d);
        }
        t.duration_minutes = req.duration_minutes;
        t.updated_at = now;
        let out = t.copy();
        let ghost prev = self@;
        self.tasks.set(i, t);
        let ghost ts = self@.tasks;
        assert(task_ids_unique(ts)) by {
            assert forall|a: int, b: int| 0 <= a < ts.len() && 0 <= b < ts.len() && a != b
                implies (#[trigger] ts[a]).id@ != (#[trigger] ts[b]).id@ by {
                assert(prev.tasks[a].id@ != prev.tasks[b].id@);
            }
        }
        assert forall|k: int| 0 <= k < ts.len() implies has_group(self@.groups, (#[trigger] ts[k]).task_group_id@) by {
            assert(has_group(prev.groups, prev.tasks[k].task_group_id@));
        }
        assert forall|k: int| 0 <= k < self@.sessions.len() implies has_task(ts, (#[trigger] self@.sessions[k]).task_id@) by {
            assert(has_task(prev.tasks, self@.sessions[k].task_id@));
            let w = choose|w: int| 0 <= w < prev.tasks.len() && (#[trigger] prev.tasks[w]).id@ == self@.sessions[k].task_id@;
            assert(ts[w].id == prev.tasks[w].id);
        }
        Ok(out)
    }

    /// Changes the task `id` now; see `update_task_at`.
    pub fn update_task(&mut self, id: &String, req: UpdateTaskRequest) -> (r: Result<Task, StoreError>)
        requires
            old(self).wf(),
        ensures
            final(self).wf(),
            final(self)@.groups == old(self)@.groups,
            final(self)@.sessions == old(self)@.sessions,
            (r == Err::<Task, StoreError>(StoreError::NotFound)) <==> !has_task(old(self)@.tasks, id@),
            (r == Err::<Task, StoreError>(StoreError::Validation)) <==> has_task(old(self)@.tasks, id@)
                && name_is_empty(req.name),
            r is Err ==> r == Err::<Task, StoreError>(StoreError::NotFound)
                || r == Err::<Task, StoreError>(StoreError::Validation),
            r is Err ==> final(self)@ == old(self)@,
            forall|i: int| 0 <= i < old(self)@.tasks.len() && (#[trigger] old(self)@.tasks[i]).id@ == id@ ==> (
                r matches Ok(t) ==> exists|now: i64| t == updated_task(old(self)@.tasks[i], req, now)
                    && final(self)@.tasks == old(self)@.tasks.update(i, t)),
    {
        let now = now_millis();
        self.update_task_at(id, req, now)
    }

    /// The tasks of group `task_group_id`, newest first.
    pub fn get_tasks_by_group(&self, task_group_id: &String) -> (r: Vec<Task>)
        ensures
            newest_first_tasks(self@.tasks.filter(tasks_inside(task_group_id@)), r@),
            r@.len() == self@.tasks.filter(tasks_inside(task_group_id@)).len(),
    {
        let ghost pred = tasks_inside(task_group_id@);
        let mut inside: Vec<Task> = Vec::new();
        let mut keys: Vec<i128> = Vec::new();
        let mut i: usize = 0;
        while i < self.tasks.len()
            invariant
                i <= self.tasks@.len(),
                pred == tasks_inside(task_group_id@),
                inside@ == self.tasks@.take(i as int).filter(pred),
                keys@ == inside@.map_values(|t: Task| t.created_at as i128),
            decreases self.tasks@.len() - i,
        {
            assert(self.tasks@.take(i + 1).drop_last() =~= self.tasks@.take(i as int));
            reveal(Seq::filter);
            if self.tasks[i].task_group_id == *task_group_id {
                inside.push(self.tasks[i].copy());
                keys.push(self.tasks[i].created_at as i128);
            }
            i = i + 1;
            assert(keys@ =~= inside@.map_values(|t: Task| t.created_at as i128));
        }
        assert(self.tasks@.take(self.tasks@.len() as int) =~= self.tasks@);
        let p = order_desc(&keys);
        let mut r: Vec<Task> = Vec::new();
        let mut k: usize = 0;
        while k < p.len()
            invariant
                k <= p@.len(),
                is_permutation(p@, inside@.len()),
                r@.len() == k,
                forall|m: int| 0 <= m < k ==> r@[m] == inside@[#[trigger] p@[m] as int],
            decreases p@.len() - k,
        {
            r.push(inside[p[k]].copy());
            k = k + 1;
        }
        assert(newest_first_tasks(inside@, r@));
        r
    }
}

pub open spec fn texts_distinct(ids: Seq<String>) -> bool {
    forall|i: int, j: int| 0 <= i < ids.len() && 0 <= j < ids.len() && i != j ==> (#[trigger] ids[i])@ != (#[trigger] ids[j])@
}

/// Whether no two of `ids` are equal.
fn all_distinct(ids: &Vec<String>) -> (r: bool)
    ensures
        r == texts_distinct(ids@),
{
    let mut i: usize = 0;
    while i < ids.len()
        invariant
            i <= ids@.len(),
            forall|a: int, b: int| 0 <= a < i && 0 <= b < ids@.len() && a != b ==> (#[trigger] ids@[a])@ != (#[trigger] ids@[b])@,
        decreases ids@.len() - i,
    {
        let mut j: usize = 0;
        while j < ids.len()
            invariant
                i < ids@.len(),
                j <= ids@.len(),
                forall|a: int, b: int| 0 <= a < i && 0 <= b < ids@.len() && a != b ==> (#[trigger] ids@[a])@ != (#[trigger] ids@[b])@,
                forall|b: int| 0 <= b < j && b != i ==> ids@[i as int]@ != (#[trigger] ids@[b])@,
            decreases ids@.len() - j,
        {
            if j != i && ids[i] == ids[j] {
                return false;
            }
            j = j + 1;
        }
        i = i + 1;
    }
    true
}

fn session_is_consistent(s: &TaskSession) -> (r: bool)
    ensures
        r == session_consistent(*s),
{
    (!s.is_paused || (s.paused_at.is_some() && s.end_time.is_none()))
        && (s.paused_at.is_none() || s.is_paused)
        && (s.completed == s.end_time.is_some())
        && s.total_paused_duration_ms >= 0
}

impl Database {
    /// A store that holds the given records, where they meet the store's
    /// invariant; refused with `Storage` where they do not (a duplicate
    /// identifier, a dangling reference, an inconsistent session, or more
    /// than one open session).
    pub fn from_rows(groups: Vec<TaskGroup>, tasks: Vec<Task>, sessions: Vec<TaskSession>) -> (r: Result<Database, StoreError>)
        ensures
            r is Ok <==> (StoreState { groups: groups@, tasks: tasks@, sessions: sessions@ }).wf(),
            r is Err ==> r == Err::<Database, StoreError>(StoreError::Storage),
            r matches Ok(db) ==> db.wf() && db@ == (StoreState { groups: groups@, tasks: tasks@, sessions: sessions@ }),
    {
        let db = Database { groups, tasks, sessions };
        let mut gids: Vec<String> = Vec::new();
        let mut i: usize = 0;
        while i < db.groups.len()
            invariant
                i <= db.groups@.len(),
                gids@.len() == i,
                forall|k: int| 0 <= k < i ==> #[trigger] gids@[k] == db.groups@[k].id,
            decreases db.groups@.len() - i,
        {
            gids.push(db.groups[i].id.clone());
            i = i + 1;
        }
        if !all_distinct(&gids) {
            assert(!group_ids_unique(db.groups@)) by {
                let (a, b) = choose|a: int, b: int| 0 <= a < gids@.len() && 0 <= b < gids@.len() && a != b
                    && (#[trigger] gids@[a])@ == (#[trigger] gids@[b])@;
                assert(db.groups@[a].id@ == db.groups@[b].id@);
            }
            return Err(StoreError::Storage);
        }
        let mut tids: Vec<String> = Vec::new();
        let mut i: usize = 0;
        while i < db.tasks.len()
            invariant
                i <= db.tasks@.len(),
                tids@.len() == i,
                forall|k: int| 0 <= k < i ==> #[trigger] tids@[k] == db.tasks@[k].id,
            decreases db.tasks@.len() - i,
        {
            tids.push(db.tasks[i].id.clone());
            i = i + 1;
        }
        if !all_distinct(&tids) {
            assert(!task_ids_unique(db.tasks@)) by {
                let (a, b) = choose|a: int, b: int| 0 <= a < tids@.len() && 0 <= b < tids@.len() && a != b
                    && (#[trigger] tids@[a])@ == (#[trigger] tids@[b])@;
                assert(db.tasks@[a].id@ == db.tasks@[b].id@);
            }
            return Err(StoreError::Storage);
        }
        let mut sids: Vec<String> = Vec::new();
        let mut i: usize = 0;
        while i < db.sessions.len()
            invariant
                i <= db.sessions@.len(),
                sids@.len() == i,
                forall|k: int| 0 <= k < i ==> #[trigger] sids@[k] == db.sessions@[k].id,
            decreases db.sessions@.len() - i,
        {
            sids.push(db.sessions[i].id.clone());
            i = i + 1;
        }
        if !all_distinct(&sids) {
            assert(!session_ids_unique(db.sessions@)) by {
                let (a, b) = choose|a: int, b: int| 0 <= a < sids@.len() && 0 <= b < sids@.len() && a != b
                    && (#[trigger] sids@[a])@ == (#[trigger] sids@[b])@;
                assert(db.sessions@[a].id@ == db.sessions@[b].id@);
            }
            return Err(StoreError::Storage);
        }
        assert(group_ids_unique(db.groups@)) by {
            assert forall|a: int, b: int| 0 <= a < db.groups@.len() && 0 <= b < db.groups@.len() && a != b
                implies (#[trigger] db.groups@[a]).id@ != (#[trigger] db.groups@[b]).id@ by {
                assert(gids@[a]@ != gids@[b]@);
            }
        }
        assert(task_ids_unique(db.tasks@)) by {
            assert forall|a: int, b: int| 0 <= a < db.tasks@.len() && 0 <= b < db.tasks@.len() && a != b
                implies (#[trigger] db.tasks@[a]).id@ != (#[trigger] db.tasks@[b]).id@ by {
                assert(tids@[a]@ != tids@[b]@);
            }
        }
        assert(session_ids_unique(db.sessions@)) by {
            assert forall|a: int, b: int| 0 <= a < db.sessions@.len() && 0 <= b < db.sessions@.len() && a != b
                implies (#[trigger] db.sessions@[a]).id@ != (#[trigger] db.sessions@[b]).id@ by {
                assert(sids@[a]@ != sids@[b]@);
            }
        }
        let mut i: usize = 0;
        while i < db.tasks.len()
            invariant
                i <= db.tasks@.len(),
                forall|k: int| 0 <= k < i ==> has_group(db.groups@, (#[trigger] db.tasks@[k]).task_group_id@),
                db@ == (StoreState { groups: groups@, tasks: tasks@, sessions: sessions@ }),
                group_ids_unique(db.groups@),
                task_ids_unique(db.tasks@),
                session_ids_unique(db.sessions@),
            decreases db.tasks@.len() - i,
        {
            if db.find_group(&db.tasks[i].task_group_id).is_none() {
                assert(!has_group(db.groups@, db.tasks@[i as int].task_group_id@));
                assert(!db@.wf());
                return Err(StoreError::Storage);
            }
            i = i + 1;
        }
        let mut open: Option<usize> = None;
        let mut i: usize = 0;
        while i < db.sessions.len()
            invariant
                i <= db.sessions@.len(),
                forall|k: int| 0 <= k < i ==> has_task(db.tasks@, (#[trigger] db.sessions@[k]).task_id@),
                forall|k: int| 0 <= k < db.tasks@.len() ==> has_group(db.groups@, (#[trigger] db.tasks@[k]).task_group_id@),
                db@ == (StoreState { groups: groups@, tasks: tasks@, sessions: sessions@ }),
                group_ids_unique(db.groups@),
                task_ids_unique(db.tasks@),
                session_ids_unique(db.sessions@),
                forall|k: int| 0 <= k < i ==> session_consistent(#[trigger] db.sessions@[k]),
                match open {
                    Some(o) => o < i && is_open(db.sessions@[o as int])
                        && forall|k: int| 0 <= k < i && is_open(#[trigger] db.sessions@[k]) ==> k == o,
                    None => forall|k: int| 0 <= k < i ==> !is_open(#[trigger] db.sessions@[k]),
                },
            decreases db.sessions@.len() - i,
        {
            if !contains_task(&db.tasks, &db.sessions[i].task_id) {
                assert(!has_task(db.tasks@, db.sessions@[i as int].task_id@));
                assert(!db@.wf());
                return Err(StoreError::Storage);
            }
            if !session_is_consistent(&db.sessions[i]) {
                assert(!session_consistent(db.sessions@[i as int]));
                assert(!db@.wf());
                return Err(StoreError::Storage);
            }
            if db.sessions[i].end_time.is_none() {
                if open.is_some() {
                    let o = open.unwrap();
                    assert(is_open(db.sessions@[o as int]) && is_open(db.sessions@[i as int]));
                    assert(!single_open(db.sessions@));
                    assert(!db@.wf());
                    return Err(StoreError::Storage);
                }
                open = Some(i);
            }
            i = i + 1;
        }
        Ok(db)
    }
}

} // verus!
