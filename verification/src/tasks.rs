//! The task state machine and queue: the ordered collection of download
//! tasks, their states, progress estimates and cancellation signals.
//!
//! A task moves from `Queued` to `Running` when a worker is spawned for
//! it, and to `Stopped` when the worker exits for any reason; normal
//! completion and cancellation both end in `Stopped`. Restarting a
//! stopped task is a fresh transition to `Running` under the same
//! identity, and its progress record survives.
//!
//! The queue hands out integer identifiers, unique for the lifetime of
//! the queue; a task is addressed only by its identifier, never by its
//! position.

use vstd::prelude::*;

verus! {

use crate::DownError;
use crate::downloader::DownloadInfo;
use crate::text::min_nat;
use crate::watch::FRACTION_ONE;

/// The state of one task.
#[derive(Clone, Copy, Debug, PartialEq, Eq, Structural)]
pub enum TaskStatus {
    Queued,
    Running,
    Stopped,
}

impl TaskStatus {
    /// The state's display label.
    pub fn to_string(&self) -> (r: String)
        ensures
            r@ == self.spec_label(),
    {
        match self {
            TaskStatus::Queued => "Queued".to_owned(),
            TaskStatus::Running => "Running".to_owned(),
            TaskStatus::Stopped => "Stopped".to_owned(),
        }
    }

    /// What `to_string` returns for each state.
    pub open spec fn spec_label(self) -> Seq<char> {
        match self {
            TaskStatus::Queued => "Queued"@,
            TaskStatus::Running => "Running"@,
            TaskStatus::Stopped => "Stopped"@,
        }
    }
}

/// The progress record of one task: the fraction done in millionths of
/// one whole, the smoothed rate in millionths per second, and the
/// estimated seconds remaining.
#[derive(Clone, Copy, Debug, PartialEq, Eq, Structural)]
pub struct TaskInfo {
    pub progress: u64,
    pub speed: u64,
    pub eta: usize,
}

/// What one progress sample does to a progress record: a sample that
/// does not increase the fraction or arrives with no elapsed time is
/// ignored; every increasing sample updates the record. The rate is the
/// fraction gained per second (it may round to zero, which displays as
/// idle), and the estimate is the time the missing fraction takes at the
/// sample's exact pace: missing times elapsed over gained.
pub open spec fn spec_info_update(t: TaskInfo, progress: u64, dur_ms: u64) -> TaskInfo {
    if progress <= t.progress || dur_ms == 0 {
        t
    } else {
        let gained = (progress - t.progress) as nat;
        let sp = min_nat(gained * 1000 / dur_ms as nat, u64::MAX as nat);
        if progress >= FRACTION_ONE {
            TaskInfo { progress, speed: sp as u64, eta: 0 }
        } else {
            TaskInfo {
                progress,
                speed: sp as u64,
                eta: min_nat(
                    (FRACTION_ONE - progress) as nat * dur_ms as nat / (gained * 1000),
                    usize::MAX as nat,
                ) as usize,
            }
        }
    }
}

impl Default for TaskInfo {
    /// A fresh progress record: nothing done, no rate, and a day as the
    /// estimate placeholder.
    fn default() -> (r: Self)
        ensures
            r == (TaskInfo { progress: 0, speed: 0, eta: 86400 }),
    {
        TaskInfo { progress: 0, speed: 0, eta: 86400 }
    }
}

impl TaskInfo {
    /// Fold one progress sample into the record: `progress` is the
    /// fraction done in millionths, `dur_ms` the milliseconds since the
    /// previous sample.
    pub fn update(&mut self, progress: u64, dur_ms: u64)
        ensures
            *final(self) == spec_info_update(*old(self), progress, dur_ms),
    {
        if progress <= self.progress || dur_ms == 0 {
            return;
        }
        let delta = progress - self.progress;
        let wide: u128 = (delta as u128) * 1000 / (dur_ms as u128);
        let sp: u64 = if wide > u64::MAX as u128 {
            u64::MAX
        } else {
            wide as u64
        };
        proof {
            assert(sp as nat == min_nat(delta as nat * 1000 / dur_ms as nat, u64::MAX as nat));
        }
        if progress >= FRACTION_ONE {
            self.progress = progress;
            self.speed = sp;
            self.eta = 0;
        } else {
            let remaining = FRACTION_ONE - progress;
            proof {
                vstd::arithmetic::mul::lemma_mul_upper_bound(
                    remaining as int,
                    u64::MAX as int,
                    dur_ms as int,
                    u64::MAX as int,
                );
                vstd::arithmetic::mul::lemma_mul_upper_bound(
                    delta as int,
                    u64::MAX as int,
                    1000,
                    1000,
                );
                vstd::arithmetic::mul::lemma_mul_strict_inequality(0, delta as int, 1000);
            }
            let eta_wide: u128 = (remaining as u128) * (dur_ms as u128) / ((delta as u128)
                * 1000);
            let eta: usize = if eta_wide > usize::MAX as u128 {
                usize::MAX
            } else {
                eta_wide as usize
            };
            self.progress = progress;
            self.speed = sp;
            self.eta = eta;
        }
    }
}

/// One queued download: its identifier, its stream record, its state,
/// its cancellation signal and its progress record. The signal is armed
/// while a worker runs for the task; requesting it is the one-shot
/// notification the worker polls for.
#[derive(Debug)]
pub struct Task {
    pub id: u64,
    pub info: DownloadInfo,
    pub status: TaskStatus,
    pub cancel_armed: bool,
    pub cancel_requested: bool,
    pub task_info: TaskInfo,
}

/// A fresh task as `add_task` creates it.
pub open spec fn spec_new_task(id: u64, info: DownloadInfo) -> Task {
    Task {
        id,
        info,
        status: TaskStatus::Queued,
        cancel_armed: false,
        cancel_requested: false,
        task_info: TaskInfo { progress: 0, speed: 0, eta: 86400 },
    }
}

/// The ordered task queue. Insertion order is the only order; the
/// mapping from identifier to task and the order sequence are one
/// structure, so they cannot disagree.
pub struct TaskQueue {
    pub tasks: Vec<Task>,
    pub next_id: u64,
}

/// Whether some task in the sequence carries the identifier.
pub open spec fn contains_id(s: Seq<Task>, id: u64) -> bool {
    exists|i: int| 0 <= i < s.len() && s[i].id == id
}

/// The position of the task with the identifier (meaningful only when
/// the identifier is present; identifiers are unique in a well-formed
/// queue).
pub open spec fn task_ix(s: Seq<Task>, id: u64) -> int
    decreases s.len(),
{
    if s.len() == 0 {
        0
    } else if s[0].id == id {
        0
    } else {
        1 + task_ix(s.drop_first(), id)
    }
}

/// `task_ix` is in range and points at the identifier exactly when the
/// identifier is present, and nothing before it carries it.
pub proof fn lemma_task_ix(s: Seq<Task>, id: u64)
    ensures
        0 <= task_ix(s, id) <= s.len(),
        contains_id(s, id) <==> task_ix(s, id) < s.len(),
        task_ix(s, id) < s.len() ==> s[task_ix(s, id)].id == id,
        forall|k: int| 0 <= k < task_ix(s, id) ==> s[k].id != id,
    decreases s.len(),
{
    if s.len() > 0 && s[0].id != id {
        let rest = s.drop_first();
        lemma_task_ix(rest, id);
        let f = task_ix(s, id);
        assert(f == 1 + task_ix(rest, id));
        if f < s.len() {
            assert(s[f] == rest[f - 1]);
        }
        assert(forall|k: int| 1 <= k < f ==> s[k] == rest[k - 1]);
        if contains_id(s, id) {
            let w = choose|i: int| 0 <= i < s.len() && s[i].id == id;
            assert(rest[w - 1].id == id);
            assert(contains_id(rest, id));
        }
        if contains_id(rest, id) {
            let w = choose|i: int| 0 <= i < rest.len() && rest[i].id == id;
            assert(s[w + 1].id == id);
        }
    }
}

impl TaskQueue {
    /// The queue is well formed: identifiers are unique, below the next
    /// identifier to hand out, and a task's cancellation signal is armed
    /// only while the task is running.
    pub open spec fn wf(self) -> bool {
        &&& forall|i: int, j: int|
            0 <= i < j < self.tasks@.len() ==> self.tasks@[i].id != self.tasks@[j].id
        &&& forall|i: int| 0 <= i < self.tasks@.len() ==> #[trigger] self.tasks@[i].id < self.next_id
        &&& forall|i: int|
            0 <= i < self.tasks@.len() ==> (#[trigger] self.tasks@[i].cancel_armed
                ==> self.tasks@[i].status == TaskStatus::Running)
    }

    /// Find the position of an identifier.
    fn find(&self, id: u64) -> (r: Option<usize>)
        ensures
            match r {
                Some(i) => i < self.tasks@.len() && self.tasks@[i as int].id == id && i as int
                    == task_ix(self.tasks@, id),
                None => !contains_id(self.tasks@, id),
            },
    {
        proof {
            lemma_task_ix(self.tasks@, id);
        }
        let mut i: usize = 0;
        while i < self.tasks.len()
            invariant
                0 <= i <= self.tasks@.len(),
                forall|k: int| 0 <= k < i ==> self.tasks@[k].id != id,
            decreases self.tasks@.len() - i,
        {
            if self.tasks[i].id == id {
                proof {
                    crate::tasks::lemma_task_ix_found(self.tasks@, id, i as int);
                }
                return Some(i);
            }
            i = i + 1;
        }
        None
    }
}

/// `task_ix` equals any index with the identifier at it and nothing
/// carrying it before.
pub proof fn lemma_task_ix_found(s: Seq<Task>, id: u64, i: int)
    requires
        0 <= i < s.len(),
        s[i].id == id,
        forall|k: int| 0 <= k < i ==> s[k].id != id,
    ensures
        task_ix(s, id) == i,
{
    lemma_task_ix(s, id);
    let f = task_ix(s, id);
    assert(contains_id(s, id));
    if f < i {
        assert(s[f].id != id);
    }
}

/// What the one-shot cancellation signal does to the sequence: when the
/// identifier is present and its signal is armed, the signal is consumed
/// and marked requested, and that counts as acted upon; otherwise
/// nothing changes.
pub open spec fn spec_kill(s: Seq<Task>, id: u64) -> (Seq<Task>, bool) {
    let ix = task_ix(s, id);
    if ix < s.len() && s[ix].cancel_armed {
        (
            s.update(
                ix,
                Task {
                    cancel_armed: false,
                    cancel_requested: true,
                    ..s[ix]
                },
            ),
            true,
        )
    } else {
        (s, false)
    }
}

/// A task that is not running has no armed signal, so stopping it acts
/// on nothing and alters nothing.
pub proof fn lemma_stop_non_running(s: Seq<Task>, id: u64)
    requires
        forall|i: int|
            0 <= i < s.len() ==> (#[trigger] s[i].cancel_armed ==> s[i].status
                == TaskStatus::Running),
        contains_id(s, id) ==> s[task_ix(s, id)].status != TaskStatus::Running,
    ensures
        spec_kill(s, id) == (s, false),
{
    lemma_task_ix(s, id);
}

impl Default for TaskQueue {
    /// An empty queue.
    fn default() -> (r: Self)
        ensures
            r.wf(),
            r.tasks@.len() == 0,
            r.next_id == 0,
    {
        TaskQueue { tasks: Vec::new(), next_id: 0 }
    }
}

impl TaskQueue {
    /// Append one task in state `Queued` with a fresh identifier, which
    /// is returned.
    pub fn add_task(&mut self, info: DownloadInfo) -> (id: u64)
        requires
            old(self).wf(),
            old(self).next_id < u64::MAX,
        ensures
            final(self).wf(),
            final(self).tasks@ == old(self).tasks@.push(spec_new_task(old(self).next_id, info)),
            id == old(self).next_id,
            final(self).next_id == old(self).next_id + 1,
    {
        let id = self.next_id;
        let task = Task {
            id,
            info,
            status: TaskStatus::Queued,
            cancel_armed: false,
            cancel_requested: false,
            task_info: TaskInfo { progress: 0, speed: 0, eta: 86400 },
        };
        self.tasks.push(task);
        self.next_id = self.next_id + 1;
        id
    }

    /// Append one task per record, in the records' order, and return how
    /// many were added. Adding always succeeds per item.
    pub fn add_tasks(&mut self, infos: &Vec<DownloadInfo>) -> (count: usize)
        requires
            old(self).wf(),
            old(self).next_id + infos@.len() <= u64::MAX,
        ensures
            final(self).wf(),
            count == infos@.len(),
            final(self).next_id == old(self).next_id + infos@.len(),
            final(self).tasks@.len() == old(self).tasks@.len() + infos@.len(),
            forall|i: int|
                0 <= i < old(self).tasks@.len() ==> final(self).tasks@[i] == old(self).tasks@[i],
            forall|k: int|
                0 <= k < infos@.len() ==> final(self).tasks@[old(self).tasks@.len() + k]
                    == spec_new_task((old(self).next_id + k) as u64, #[trigger] infos@[k]),
    {
        let ghost base = self.next_id;
        let ghost orig = self.tasks@;
        let mut i: usize = 0;
        proof {
            assert(self.tasks@ =~= orig + Seq::new(
                0nat,
                |k: int| spec_new_task((base + k) as u64, infos@[k]),
            ));
        }
        while i < infos.len()
            invariant
                0 <= i <= infos@.len(),
                self.wf(),
                base + infos@.len() <= u64::MAX,
                self.next_id == base + i,
                self.tasks@ == orig + Seq::new(
                    i as nat,
                    |k: int| spec_new_task((base + k) as u64, infos@[k]),
                ),
            decreases infos@.len() - i,
        {
            let info = infos[i].clone();
            self.add_task(info);
            i = i + 1;
            proof {
                assert(self.tasks@ =~= orig + Seq::new(
                    i as nat,
                    |k: int| spec_new_task((base + k) as u64, infos@[k]),
                ));
            }
        }
        i
    }

    /// Start the task with the identifier: when it is present and not
    /// already running, it becomes `Running` with a freshly armed
    /// cancellation signal, and its stream record is returned so that
    /// exactly one worker is spawned for it. A task already running is
    /// left untouched and no record is returned, so no second worker is
    /// spawned. An absent identifier is the no-such-task error.
    pub fn start_task(&mut self, id: u64) -> (r: Result<Option<DownloadInfo>, DownError>)
        requires
            old(self).wf(),
        ensures
            final(self).wf(),
            final(self).next_id == old(self).next_id,
            !contains_id(old(self).tasks@, id) ==> r == Err::<
                Option<DownloadInfo>,
                DownError,
            >(DownError::NoSuchTask) && final(self).tasks@ == old(self).tasks@,
            contains_id(old(self).tasks@, id) ==> {
                let ix = task_ix(old(self).tasks@, id);
                if old(self).tasks@[ix].status == TaskStatus::Running {
                    &&& r == Ok::<Option<DownloadInfo>, DownError>(None)
                    &&& final(self).tasks@ == old(self).tasks@
                } else {
                    &&& r matches Ok(Some(info)) && info == old(self).tasks@[ix].info
                    &&& final(self).tasks@ == old(self).tasks@.update(
                        ix,
                        Task {
                            status: TaskStatus::Running,
                            cancel_armed: true,
                            cancel_requested: false,
                            ..old(self).tasks@[ix]
                        },
                    )
                }
            },
    {
        let found = self.find(id);
        match found {
            None => Err(DownError::NoSuchTask),
            Some(i) => {
                if matches!(self.tasks[i].status, TaskStatus::Running) {
                    Ok(None)
                } else {
                    let cur = &self.tasks[i];
                    let started = Task {
                        id: cur.id,
                        info: cur.info.clone(),
                        status: TaskStatus::Running,
                        cancel_armed: true,
                        cancel_requested: false,
                        task_info: cur.task_info,
                    };
                    let info = started.info.clone();
                    self.tasks.set(i, started);
                    proof {
                        assert(final(self).tasks@ =~= old(self).tasks@.update(
                            i as int,
                            Task {
                                status: TaskStatus::Running,
                                cancel_armed: true,
                                cancel_requested: false,
                                ..old(self).tasks@[i as int]
                            },
                        ));
                    }
                    Ok(Some(info))
                }
            },
        }
    }

    /// Send the one-shot cancellation signal to the task with the
    /// identifier: acted upon (true) exactly when a signal was armed and
    /// pending to send. A second stop, or a stop on a task that is not
    /// running, is a no-op. An absent identifier is the no-such-task
    /// error.
    pub fn kill_task(&mut self, id: u64) -> (r: Result<bool, DownError>)
        requires
            old(self).wf(),
        ensures
            final(self).wf(),
            final(self).next_id == old(self).next_id,
            final(self).tasks@ == spec_kill(old(self).tasks@, id).0,
            contains_id(old(self).tasks@, id) ==> r == Ok::<bool, DownError>(
                spec_kill(old(self).tasks@, id).1,
            ),
            !contains_id(old(self).tasks@, id) ==> r == Err::<bool, DownError>(
                DownError::NoSuchTask,
            ),
    {
        proof {
            lemma_task_ix(old(self).tasks@, id);
        }
        let found = self.find(id);
        match found {
            None => Err(DownError::NoSuchTask),
            Some(i) => {
                if self.tasks[i].cancel_armed {
                    let cur = &self.tasks[i];
                    let killed = Task {
                        id: cur.id,
                        info: cur.info.clone(),
                        status: cur.status,
                        cancel_armed: false,
                        cancel_requested: true,
                        task_info: cur.task_info,
                    };
                    self.tasks.set(i, killed);
                    proof {
                        assert(final(self).tasks@ =~= spec_kill(old(self).tasks@, id).0);
                    }
                    Ok(true)
                } else {
                    Ok(false)
                }
            },
        }
    }
}

/// What stopping a set of identifiers does, in order: each identifier is
/// signalled as `spec_kill` says, and the acted-upon signals are counted.
pub open spec fn spec_stop_all(s: Seq<Task>, ids: Seq<u64>) -> (Seq<Task>, nat)
    decreases ids.len(),
{
    if ids.len() == 0 {
        (s, 0)
    } else {
        let first = spec_kill(s, ids[0]);
        let rest = spec_stop_all(first.0, ids.drop_first());
        (rest.0, (if first.1 { 1nat } else { 0nat }) + rest.1)
    }
}

/// What removing a set of identifiers does, in order: each present
/// identifier is deleted; the first absent one stops the walk and the
/// operation reports failure, with the earlier removals kept.
pub open spec fn spec_remove_all(s: Seq<Task>, ids: Seq<u64>) -> (Seq<Task>, bool)
    decreases ids.len(),
{
    if ids.len() == 0 {
        (s, true)
    } else if !contains_id(s, ids[0]) {
        (s, false)
    } else {
        spec_remove_all(s.remove(task_ix(s, ids[0])), ids.drop_first())
    }
}

/// The bytes per second that a progress rate in millionths per second
/// amounts to for a stream of the given size, saturating at the machine
/// word.
pub open spec fn spec_speed_bytes(speed: u64, size: usize) -> usize {
    min_nat(speed as nat * size as nat / 1000000, usize::MAX as nat) as usize
}

/// Whether a snapshot row renders the given task: same identifier,
/// title, extension, size, progress fraction, estimate, rate in bytes
/// per second, and state.
pub open spec fn row_matches(row: TaskRow, t: Task) -> bool {
    &&& row.id == t.id
    &&& row.title@ == t.info.title@
    &&& row.ext@ == t.info.ext@
    &&& row.size == t.info.stream_size
    &&& row.progress == t.task_info.progress
    &&& row.eta == t.task_info.eta
    &&& row.speed == spec_speed_bytes(t.task_info.speed, t.info.stream_size)
    &&& row.status == t.status
}

/// One row of a point-in-time snapshot of the queue.
#[derive(Debug)]
pub struct TaskRow {
    pub id: u64,
    pub title: String,
    pub ext: String,
    pub size: usize,
    pub progress: u64,
    pub eta: usize,
    pub speed: usize,
    pub status: TaskStatus,
}

impl TaskQueue {
    /// Send the cancellation signal to each listed task that has one
    /// armed, and return how many were acted upon. Identifiers that are
    /// absent, not running, or already signalled are no-ops, not errors.
    pub fn stop_tasks(&mut self, ids: &Vec<u64>) -> (count: usize)
        requires
            old(self).wf(),
        ensures
            final(self).wf(),
            final(self).next_id == old(self).next_id,
            final(self).tasks@ == spec_stop_all(old(self).tasks@, ids@).0,
            count as nat == spec_stop_all(old(self).tasks@, ids@).1,
    {
        let ghost orig = self.tasks@;
        let mut count: usize = 0;
        let mut i: usize = 0;
        proof {
            assert(ids@.skip(0) =~= ids@);
        }
        while i < ids.len()
            invariant
                0 <= i <= ids@.len(),
                self.wf(),
                count <= i,
                self.next_id == old(self).next_id,
                spec_stop_all(self.tasks@, ids@.skip(i as int)).0 == spec_stop_all(orig, ids@).0,
                count as nat + spec_stop_all(self.tasks@, ids@.skip(i as int)).1 == spec_stop_all(
                    orig,
                    ids@,
                ).1,
            decreases ids@.len() - i,
        {
            let ghost pre = self.tasks@;
            proof {
                lemma_task_ix(pre, ids@[i as int]);
                assert(ids@.skip(i as int)[0] == ids@[i as int]);
                assert(ids@.skip(i as int).drop_first() =~= ids@.skip(i + 1));
            }
            let r = self.kill_task(ids[i]);
            proof {
                let first = spec_kill(pre, ids@[i as int]);
                assert(spec_stop_all(pre, ids@.skip(i as int)).0 == spec_stop_all(
                    first.0,
                    ids@.skip(i + 1),
                ).0);
                assert(spec_stop_all(pre, ids@.skip(i as int)).1 == (if first.1 {
                    1nat
                } else {
                    0nat
                }) + spec_stop_all(first.0, ids@.skip(i + 1)).1);
            }
            match r {
                Ok(true) => {
                    count = count + 1;
                },
                _ => {},
            }
            i = i + 1;
        }
        proof {
            assert(ids@.skip(ids@.len() as int) =~= Seq::<u64>::empty());
        }
        count
    }

    /// Remove the task with the identifier from the queue; the worker,
    /// if one runs, learns of it at its next cancellation poll. After
    /// the call the identifier is absent. An absent identifier is the
    /// no-such-task error.
    pub fn remove_task(&mut self, id: u64) -> (r: Result<(), DownError>)
        requires
            old(self).wf(),
        ensures
            final(self).wf(),
            final(self).next_id == old(self).next_id,
            contains_id(old(self).tasks@, id) ==> r == Ok::<(), DownError>(())
                && final(self).tasks@ == old(self).tasks@.remove(task_ix(old(self).tasks@, id)),
            !contains_id(old(self).tasks@, id) ==> r == Err::<(), DownError>(DownError::NoSuchTask)
                && final(self).tasks@ == old(self).tasks@,
            !contains_id(final(self).tasks@, id),
    {
        proof {
            lemma_task_ix(old(self).tasks@, id);
        }
        let found = self.find(id);
        match found {
            None => Err(DownError::NoSuchTask),
            Some(i) => {
                self.tasks.remove(i);
                proof {
                    let s = old(self).tasks@;
                    let ix = i as int;
                    assert(self.tasks@ =~= s.remove(ix));
                    assert forall|k: int| 0 <= k < self.tasks@.len() implies #[trigger] self
                        .tasks@[k].id != id by {
                        if k < ix {
                            assert(self.tasks@[k] == s[k]);
                        } else {
                            assert(self.tasks@[k] == s[k + 1]);
                        }
                    }
                }
                Ok(())
            },
        }
    }

    /// Remove each listed task in order, stopping at the first absent
    /// identifier with the no-such-task error; earlier removals hold.
    pub fn remove_tasks(&mut self, ids: &Vec<u64>) -> (r: Result<(), DownError>)
        requires
            old(self).wf(),
        ensures
            final(self).wf(),
            final(self).next_id == old(self).next_id,
            final(self).tasks@ == spec_remove_all(old(self).tasks@, ids@).0,
            r == Ok::<(), DownError>(()) <==> spec_remove_all(old(self).tasks@, ids@).1,
            r is Err ==> r == Err::<(), DownError>(DownError::NoSuchTask),
    {
        let ghost orig = self.tasks@;
        let mut i: usize = 0;
        proof {
            assert(ids@.skip(0) =~= ids@);
        }
        while i < ids.len()
            invariant
                0 <= i <= ids@.len(),
                self.wf(),
                orig == old(self).tasks@,
                self.next_id == old(self).next_id,
                spec_remove_all(self.tasks@, ids@.skip(i as int)) == spec_remove_all(orig, ids@),
            decreases ids@.len() - i,
        {
            let ghost pre = self.tasks@;
            proof {
                lemma_task_ix(pre, ids@[i as int]);
                assert(ids@.skip(i as int)[0] == ids@[i as int]);
                assert(ids@.skip(i as int).drop_first() =~= ids@.skip(i + 1));
            }
            let r = self.remove_task(ids[i]);
            proof {
                if contains_id(pre, ids@[i as int]) {
                    let cut = pre.remove(task_ix(pre, ids@[i as int]));
                    assert(spec_remove_all(pre, ids@.skip(i as int)) == spec_remove_all(
                        cut,
                        ids@.skip(i + 1),
                    ));
                } else {
                    assert(spec_remove_all(pre, ids@.skip(i as int)) == (pre, false));
                }
            }
            match r {
                Err(_) => {
                    return Err(DownError::NoSuchTask);
                },
                Ok(_) => {},
            }
            i = i + 1;
        }
        proof {
            assert(ids@.skip(ids@.len() as int) =~= Seq::<u64>::empty());
        }
        Ok(())
    }

    /// The worker's cancellation poll: true when the task was removed
    /// from under the worker, or when the one-shot signal was requested,
    /// which consumes it; false otherwise.
    pub fn poll_cancel(&mut self, id: u64) -> (r: bool)
        requires
            old(self).wf(),
        ensures
            final(self).wf(),
            final(self).next_id == old(self).next_id,
            !contains_id(old(self).tasks@, id) ==> r == true && final(self).tasks@ == old(self).tasks@,
            contains_id(old(self).tasks@, id) ==> {
                let ix = task_ix(old(self).tasks@, id);
                if old(self).tasks@[ix].cancel_requested {
                    &&& r == true
                    &&& final(self).tasks@ == old(self).tasks@.update(
                        ix,
                        Task { cancel_requested: false, ..old(self).tasks@[ix] },
                    )
                } else {
                    &&& r == false
                    &&& final(self).tasks@ == old(self).tasks@
                }
            },
    {
        let found = self.find(id);
        match found {
            None => true,
            Some(i) => {
                if self.tasks[i].cancel_requested {
                    let cur = &self.tasks[i];
                    let polled = Task {
                        id: cur.id,
                        info: cur.info.clone(),
                        status: cur.status,
                        cancel_armed: cur.cancel_armed,
                        cancel_requested: false,
                        task_info: cur.task_info,
                    };
                    self.tasks.set(i, polled);
                    proof {
                        assert(final(self).tasks@ =~= old(self).tasks@.update(
                            i as int,
                            Task { cancel_requested: false, ..old(self).tasks@[i as int] },
                        ));
                    }
                    true
                } else {
                    false
                }
            },
        }
    }

    /// Fold one progress sample into the task with the identifier, as
    /// the worker reads samples from the progress channel; samples for a
    /// removed task fall on the floor.
    pub fn apply_progress(&mut self, id: u64, progress: u64, dur_ms: u64)
        requires
            old(self).wf(),
        ensures
            final(self).wf(),
            final(self).next_id == old(self).next_id,
            !contains_id(old(self).tasks@, id) ==> final(self).tasks@ == old(self).tasks@,
            contains_id(old(self).tasks@, id) ==> {
                let ix = task_ix(old(self).tasks@, id);
                final(self).tasks@ == old(self).tasks@.update(
                    ix,
                    Task {
                        task_info: spec_info_update(old(self).tasks@[ix].task_info, progress, dur_ms),
                        ..old(self).tasks@[ix]
                    },
                )
            },
    {
        let found = self.find(id);
        match found {
            None => {},
            Some(i) => {
                let cur = &self.tasks[i];
                let mut ti = cur.task_info;
                ti.update(progress, dur_ms);
                let updated = Task {
                    id: cur.id,
                    info: cur.info.clone(),
                    status: cur.status,
                    cancel_armed: cur.cancel_armed,
                    cancel_requested: cur.cancel_requested,
                    task_info: ti,
                };
                self.tasks.set(i, updated);
                proof {
                    assert(final(self).tasks@ =~= old(self).tasks@.update(
                        i as int,
                        Task {
                            task_info: spec_info_update(
                                old(self).tasks@[i as int].task_info,
                                progress,
                                dur_ms,
                            ),
                            ..old(self).tasks@[i as int]
                        },
                    ));
                }
            },
        }
    }

    /// Return the task with the identifier to `Queued` and disarm its
    /// signal, as the worker does when the engine process could not be
    /// spawned: the task must not vanish into `Stopped` without ever
    /// having run, so a later start can retry it. A removed task is a
    /// no-op.
    pub fn fail_start(&mut self, id: u64)
        requires
            old(self).wf(),
        ensures
            final(self).wf(),
            final(self).next_id == old(self).next_id,
            !contains_id(old(self).tasks@, id) ==> final(self).tasks@ == old(self).tasks@,
            contains_id(old(self).tasks@, id) ==> {
                let ix = task_ix(old(self).tasks@, id);
                final(self).tasks@ == old(self).tasks@.update(
                    ix,
                    Task {
                        status: TaskStatus::Queued,
                        cancel_armed: false,
                        cancel_requested: false,
                        ..old(self).tasks@[ix]
                    },
                )
            },
    {
        let found = self.find(id);
        match found {
            None => {},
            Some(i) => {
                let cur = &self.tasks[i];
                let queued = Task {
                    id: cur.id,
                    info: cur.info.clone(),
                    status: TaskStatus::Queued,
                    cancel_armed: false,
                    cancel_requested: false,
                    task_info: cur.task_info,
                };
                self.tasks.set(i, queued);
                proof {
                    assert(final(self).tasks@ =~= old(self).tasks@.update(
                        i as int,
                        Task {
                            status: TaskStatus::Queued,
                            cancel_armed: false,
                            cancel_requested: false,
                            ..old(self).tasks@[i as int]
                        },
                    ));
                }
            },
        }
    }

    /// Mark the task with the identifier `Stopped` and disarm its
    /// signal, as the worker does on every exit path; a removed task is
    /// a no-op.
    pub fn finish_task(&mut self, id: u64)
        requires
            old(self).wf(),
        ensures
            final(self).wf(),
            final(self).next_id == old(self).next_id,
            !contains_id(old(self).tasks@, id) ==> final(self).tasks@ == old(self).tasks@,
            contains_id(old(self).tasks@, id) ==> {
                let ix = task_ix(old(self).tasks@, id);
                final(self).tasks@ == old(self).tasks@.update(
                    ix,
                    Task {
                        status: TaskStatus::Stopped,
                        cancel_armed: false,
                        cancel_requested: false,
                        ..old(self).tasks@[ix]
                    },
                )
            },
    {
        let found = self.find(id);
        match found {
            None => {},
            Some(i) => {
                let cur = &self.tasks[i];
                let stopped = Task {
                    id: cur.id,
                    info: cur.info.clone(),
                    status: TaskStatus::Stopped,
                    cancel_armed: false,
                    cancel_requested: false,
                    task_info: cur.task_info,
                };
                self.tasks.set(i, stopped);
                proof {
                    assert(final(self).tasks@ =~= old(self).tasks@.update(
                        i as int,
                        Task {
                            status: TaskStatus::Stopped,
                            cancel_armed: false,
                            cancel_requested: false,
                            ..old(self).tasks@[i as int]
                        },
                    ));
                }
            },
        }
    }

    /// A copy of the stream record of the task with the identifier, or
    /// the no-such-task error.
    pub fn get_task(&self, id: u64) -> (r: Result<DownloadInfo, DownError>)
        ensures
            contains_id(self.tasks@, id) ==> (r matches Ok(info) && info == self.tasks@[task_ix(
                self.tasks@,
                id,
            )].info),
            !contains_id(self.tasks@, id) ==> r == Err::<DownloadInfo, DownError>(
                DownError::NoSuchTask,
            ),
    {
        let found = self.find(id);
        match found {
            None => Err(DownError::NoSuchTask),
            Some(i) => Ok(self.tasks[i].info.clone()),
        }
    }

    /// A point-in-time snapshot for rendering: one row per task, in
    /// insertion order, copying identifier, title, extension, size, the
    /// progress fraction in millionths, the estimated seconds remaining,
    /// the rate in bytes per second, and the state.
    pub fn snapshot(&self) -> (r: Vec<TaskRow>)
        ensures
            r@.len() == self.tasks@.len(),
            forall|i: int| #![trigger r@[i]] 0 <= i < r@.len() ==> row_matches(r@[i], self.tasks@[i]),
    {
        let mut r: Vec<TaskRow> = Vec::new();
        let mut i: usize = 0;
        while i < self.tasks.len()
            invariant
                0 <= i <= self.tasks@.len(),
                r@.len() == i,
                forall|k: int| #![trigger r@[k]] 0 <= k < i ==> row_matches(r@[k], self.tasks@[k]),
            decreases self.tasks@.len() - i,
        {
            let t = &self.tasks[i];
            let row = TaskRow {
                id: t.id,
                title: t.info.title.clone(),
                ext: t.info.ext.clone(),
                size: t.info.stream_size,
                progress: t.task_info.progress,
                eta: t.task_info.eta,
                speed: speed_bytes(t.task_info.speed, t.info.stream_size),
                status: t.status,
            };
            r.push(row);
            i = i + 1;
        }
        r
    }

    /// How many tasks the queue holds.
    pub fn len(&self) -> (r: usize)
        ensures
            r == self.tasks@.len(),
    {
        self.tasks.len()
    }
}

/// The bytes per second that a rate in millionths per second amounts to
/// for a stream of the given size, saturating at the machine word.
pub fn speed_bytes(speed: u64, size: usize) -> (r: usize)
    ensures
        r == spec_speed_bytes(speed, size),
{
    proof {
        assert(size as int <= u64::MAX as int);
        vstd::arithmetic::mul::lemma_mul_upper_bound(
            speed as int,
            u64::MAX as int,
            size as int,
            u64::MAX as int,
        );
    }
    let wide: u128 = (speed as u128) * (size as u128) / 1000000;
    if wide > usize::MAX as u128 {
        usize::MAX
    } else {
        wide as usize
    }
}

/// Adding records and then immediately taking a snapshot shows exactly
/// the earlier rows followed by one row per added record, in insertion
/// order, each in state `Queued` with a fresh progress record and the
/// record's title, extension and size. `added` is the task sequence that
/// `add_tasks` leaves behind, and `rows` any snapshot of it.
pub proof fn lemma_add_then_snapshot(
    q0: TaskQueue,
    q1: TaskQueue,
    infos: Seq<DownloadInfo>,
    rows: Seq<TaskRow>,
)
    requires
        q0.wf(),
        q0.next_id + infos.len() <= u64::MAX,
        q1.tasks@.len() == q0.tasks@.len() + infos.len(),
        forall|i: int| 0 <= i < q0.tasks@.len() ==> q1.tasks@[i] == q0.tasks@[i],
        forall|k: int|
            0 <= k < infos.len() ==> q1.tasks@[q0.tasks@.len() + k] == spec_new_task(
                (q0.next_id + k) as u64,
                #[trigger] infos[k],
            ),
        rows.len() == q1.tasks@.len(),
        forall|i: int| #![trigger rows[i]] 0 <= i < rows.len() ==> row_matches(rows[i], q1.tasks@[i]),
    ensures
        rows.len() == q0.tasks@.len() + infos.len(),
        forall|i: int| 0 <= i < q0.tasks@.len() ==> row_matches(#[trigger] rows[i], q0.tasks@[i]),
        forall|k: int|
            0 <= k < infos.len() ==> {
                let row = #[trigger] rows[q0.tasks@.len() + k];
                &&& row.status == TaskStatus::Queued
                &&& row.title@ == infos[k].title@
                &&& row.ext@ == infos[k].ext@
                &&& row.size == infos[k].stream_size
                &&& row.progress == 0
                &&& row.eta == 86400
                &&& row.id == q0.next_id + k
            },
{
    assert forall|k: int| 0 <= k < infos.len() implies {
        let row = #[trigger] rows[q0.tasks@.len() + k];
        &&& row.status == TaskStatus::Queued
        &&& row.title@ == infos[k].title@
        &&& row.ext@ == infos[k].ext@
        &&& row.size == infos[k].stream_size
        &&& row.progress == 0
        &&& row.eta == 86400
        &&& row.id == q0.next_id + k
    } by {
        let i = q0.tasks@.len() as int + k;
        assert(q1.tasks@[i] == spec_new_task((q0.next_id + k) as u64, infos[k]));
        assert(row_matches(rows[i], q1.tasks@[i]));
    }
}

} // verus!
