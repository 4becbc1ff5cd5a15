//! The head's decisions: which tasks exist, which worker runs what, what a
//! poll or an answer changes, when a task is retried, resent or given up.
//!
//! The head's loop, with its requests, file copies and sleeps, runs outside
//! the library; it asks these functions what to do and reports back what
//! happened.

use super::client::{client_base, url_parses, ClientError, SendOutcome, WorkerClient};
use super::queue::{
    first_id, is_first_id, pop_for_spec, remove_spec, same_task, Queues, Task, MAX_ATTEMPTS,
};
use crate::config::{args_fixed_quality, fixes_quality, Config};
use crate::cmd::worker::jobs::{crf_search_report, CommandOutcome};
use crate::crf::{lemma_first_line_crf_in_range, output_crf, MAX_CRF};
use crate::paths::{check_output_collisions, collision_keys, distinct_prefix, PathError};
use crate::text::{chars_of, concat_str, decimal, lines, parse_u32, parse_u32_spec, u32_text, utf8_lossy};
use crate::types::{
    copy_strings, keys_of, uuid_text, uuid_text_spec, FinishedResponse, FinishedWork, RunningResponse,
    RunningWork, TaskId, WorkRequest, WorkStatus, WorkType, NO_CRF_METADATA,
};
use std::collections::HashMap;
use vstd::prelude::*;
use vstd::string::StringExecFns;

verus! {

broadcast use vstd::string::group_string_axioms;

/// Milliseconds between two polls of the workers.
pub const POLL_INTERVAL_MS: u64 = 1000;

/// How long an accepted task may be missing from a worker's running and
/// finished lists before it is resent to that worker under the same
/// identifier.
pub const MISSING_TIMEOUT_MS: u64 = 5000;

/// How many times a result download is tried.
pub const DOWNLOAD_ATTEMPTS: u32 = 3;

/// A task a worker has accepted.
pub struct ActiveTask {
    pub task: Task,
    pub worker: usize,
    /// When (in milliseconds of the head's clock) the task was first seen
    /// missing from its worker's lists, since it was last seen there.
    pub missing_since: Option<u64>,
}

/// What one worker answered in a poll: its running tasks and its results.
pub type Snapshot = (RunningResponse, FinishedResponse);

pub struct Orchestrator {
    pub config: Config,
    pub clients: Vec<WorkerClient>,
    pub queues: Queues,
    pub active: HashMap<TaskId, ActiveTask>,
    /// Files given up on, with the last error.
    pub failures: Vec<(String, String)>,
}

/// Why the head could not start.
#[derive(Debug)]
pub enum OrchestratorError {
    /// Two inputs would be published under the same name.
    Paths(PathError),
    /// A worker address is unusable.
    Client(ClientError),
}

// ---------------------------------------------------------------------
// The active tasks, keyed by identifier
// ---------------------------------------------------------------------

/// Each active task is held under its own identifier.
pub open spec fn keyed(active: Map<TaskId, ActiveTask>) -> bool {
    forall|k: TaskId| #[trigger] active.contains_key(k) ==> active[k].task.id == k
}

// ---------------------------------------------------------------------
// Specifications of the decisions
// ---------------------------------------------------------------------

/// The state the decisions work on.
impl Orchestrator {
    pub open spec fn wf(&self) -> bool {
        keyed(self.active@)
    }
}

/// `t` is a fresh task for `file`, of `kind`, with `args`.
pub open spec fn fresh_task(t: Task, file: Seq<char>, kind: WorkType, args: Seq<String>) -> bool {
    &&& t.filename@ == file
    &&& t.work_type == kind
    &&& t.arguments@ == args
    &&& t.attempts == 0
    &&& t.affinity is None
}

/// The first kind of work a video needs: a straight encode when the ffmpeg
/// arguments fix quality, else a CRF search.
pub open spec fn initial_kind(ffmpeg_args: Seq<String>) -> WorkType {
    if exists|i: int| 0 <= i < ffmpeg_args.len() && fixes_quality(#[trigger] ffmpeg_args[i]@) {
        WorkType::Encode
    } else {
        WorkType::CrfSearch
    }
}

/// The arguments of an encode after a CRF search found `crf`.
pub open spec fn encode_args_spec(ffmpeg_args: Seq<String>, crf: u32) -> Seq<Seq<char>> {
    ffmpeg_args.map_values(|a: String| a@) + seq![seq!['-', 'c', 'r', 'f'], decimal(crf as nat)]
}

/// What a successful result asks the head to do.
#[derive(Debug)]
pub enum SuccessPlan {
    /// ab-av1 found no suitable CRF: copy the input video to the output unchanged.
    CopySource,
    /// Queue an encode with this CRF, on the worker holding the upload.
    QueueEncode(u32),
    /// Download the encoded result and publish it.
    Publish,
    /// The CRF sent back is not a whole number.
    CrfNotInteger,
    /// The CRF sent back is above 63.
    CrfOutOfRange(u32),
}

/// What `success_plan` decides.
pub open spec fn success_plan_spec(task: Task, f: FinishedWork) -> SuccessPlan {
    match task.work_type {
        WorkType::CrfSearch => if f.metadata@ == NO_CRF_METADATA@ {
            SuccessPlan::CopySource
        } else {
            match parse_u32_spec(f.metadata@) {
                None => SuccessPlan::CrfNotInteger,
                Some(c) => if c > MAX_CRF {
                    SuccessPlan::CrfOutOfRange(c)
                } else {
                    SuccessPlan::QueueEncode(c)
                },
            }
        },
        WorkType::Encode => SuccessPlan::Publish,
    }
}

/// What `after_send` does with a popped task, given the worker's answer:
/// the task either becomes active on that worker, goes back to the front
/// of its queue, or is retried / given up.
pub open spec fn retried(
    task: Task,
    old_q: (Seq<Task>, Seq<Task>),
    new_q: (Seq<Task>, Seq<Task>),
    old_failures: Seq<(String, String)>,
    new_failures: Seq<(String, String)>,
    error: Seq<char>,
) -> bool {
    let attempts = task.attempts + 1;
    if attempts >= MAX_ATTEMPTS {
        &&& new_q == old_q
        &&& new_failures.len() == old_failures.len() + 1
        &&& new_failures.drop_last() == old_failures
        &&& new_failures.last().0@ == task.filename@
        &&& new_failures.last().1@ == error
    } else {
        &&& new_failures == old_failures
        &&& (match task.work_type {
            WorkType::Encode => new_q.1 == old_q.1 && new_q.0.len() == old_q.0.len() + 1
                && new_q.0.drop_first() == old_q.0 && same_task(
                new_q.0[0],
                Task { attempts: attempts as u32, ..task },
            ),
            WorkType::CrfSearch => new_q.0 == old_q.0 && new_q.1.len() == old_q.1.len() + 1
                && new_q.1.drop_first() == old_q.1 && same_task(
                new_q.1[0],
                Task { attempts: attempts as u32, ..task },
            ),
        })
    }
}

// ---------------------------------------------------------------------
// Executable decisions
// ---------------------------------------------------------------------

/// The name a result is downloaded under before it is published:
/// `.download-{nonce}.part`, `nonce` being a fresh UUID.
pub fn download_temp_name(nonce: u128) -> (r: String)
    ensures
        r@ == ".download-"@ + uuid_text_spec(nonce) + ".part"@,
{
    let id = uuid_text(nonce);
    concat_str(concat_str(".download-", id.as_str()).as_str(), ".part")
}

/// Whether a downloaded result may be published: it must not be empty.
pub fn download_usable(size: u64) -> (r: bool)
    ensures
        r == (size > 0),
{
    size > 0
}

/// How many more tasks a worker can take: its capacity less what it runs.
pub fn free_slots(running: &RunningResponse) -> (r: usize)
    ensures
        r == if running.max_works >= running.works@.len() {
            running.max_works - running.works@.len()
        } else {
            0
        },
{
    running.max_works.saturating_sub(running.works.len())
}

impl Orchestrator {
    /// The head's starting state for the videos found in the input folder:
    /// one task per video (a straight encode when the ffmpeg arguments fix
    /// quality, else a CRF search), and a client per worker. Two videos that
    /// would be published under the same name stop it.
    pub fn new(config: Config, videos: Vec<String>) -> (r: Result<Orchestrator, OrchestratorError>)
        ensures
            !distinct_prefix(collision_keys(videos@, config.container@), videos@.len() as int)
                ==> (r matches Err(e) && e is Paths),
            r is Ok ==> distinct_prefix(
                collision_keys(videos@, config.container@),
                videos@.len() as int,
            ),
            r matches Err(e) ==> e is Paths || e is Client,
            r matches Err(e) && e is Paths ==> !distinct_prefix(
                collision_keys(videos@, config.container@),
                videos@.len() as int,
            ),
            r matches Err(OrchestratorError::Client(c)) ==> distinct_prefix(
                collision_keys(videos@, config.container@),
                videos@.len() as int,
            ) && config.workers@.len() > 0 && c is InvalidUrl,
            r matches Err(OrchestratorError::Client(ClientError::InvalidUrl)) ==> exists|i: int|
                0 <= i < config.workers@.len() && !url_parses(#[trigger] config.workers@[i]@)
                    && forall|j: int| 0 <= j < i ==> url_parses(#[trigger] config.workers@[j]@),
            distinct_prefix(collision_keys(videos@, config.container@), videos@.len() as int)
                && (forall|i: int|
                0 <= i < config.workers@.len() ==> url_parses(#[trigger] config.workers@[i]@))
                ==> r is Ok,
            distinct_prefix(collision_keys(videos@, config.container@), videos@.len() as int) && (
            exists|i: int|
                0 <= i < config.workers@.len() && !url_parses(#[trigger] config.workers@[i]@))
                ==> (r matches Err(e) && e is Client),
            r matches Ok(o) ==> {
                let kind = initial_kind(config.ffmpeg_args@);
                let args = if kind == WorkType::Encode {
                    config.ffmpeg_args@
                } else {
                    config.ab_av1_args@
                };
                let q = if kind == WorkType::Encode {
                    o.queues.encode@
                } else {
                    o.queues.crf@
                };
                let other = if kind == WorkType::Encode {
                    o.queues.crf@
                } else {
                    o.queues.encode@
                };
                &&& o.wf()
                &&& q.len() == videos@.len()
                &&& forall|i: int|
                    0 <= i < videos@.len() ==> fresh_task(#[trigger] q[i], videos@[i]@, kind, args)
                &&& other.len() == 0
                &&& o.active@ == Map::<TaskId, ActiveTask>::empty()
                &&& o.failures@.len() == 0
                &&& o.clients@.len() == config.workers@.len()
                &&& forall|i: int|
                    0 <= i < config.workers@.len() ==> client_base(#[trigger] config.workers@[i]@)
                        == Some(o.clients@[i].base@)
                &&& o.config.workers@ == config.workers@
                &&& o.config.ffmpeg_args@ == config.ffmpeg_args@
                &&& o.config.ab_av1_args@ == config.ab_av1_args@
                &&& o.config.container == config.container
                &&& o.config.input_folder == config.input_folder
                &&& o.config.output_folder == config.output_folder
            },
    {
        match check_output_collisions(videos.as_slice(), config.container.as_str()) {
            Ok(()) => {},
            Err(e) => {
                return Err(OrchestratorError::Paths(e));
            },
        }
        let fixed = args_fixed_quality(config.ffmpeg_args.as_slice());
        let kind = if fixed {
            WorkType::Encode
        } else {
            WorkType::CrfSearch
        };
        let mut tasks: std::collections::VecDeque<Task> = std::collections::VecDeque::new();
        let mut i: usize = 0;
        while i < videos.len()
            invariant
                i <= videos@.len(),
                tasks@.len() == i,
                kind == initial_kind(config.ffmpeg_args@),
                fixed == (kind == WorkType::Encode),
                distinct_prefix(collision_keys(videos@, config.container@), videos@.len() as int),
                forall|k: int|
                    0 <= k < i ==> fresh_task(
                        #[trigger] tasks@[k],
                        videos@[k]@,
                        kind,
                        if kind == WorkType::Encode {
                            config.ffmpeg_args@
                        } else {
                            config.ab_av1_args@
                        },
                    ),
            decreases videos@.len() - i,
        {
            let args = if fixed {
                copy_strings(&config.ffmpeg_args)
            } else {
                copy_strings(&config.ab_av1_args)
            };
            let t = Task::new(videos[i].clone(), kind, args);
            let ghost before = tasks@;
            tasks.push_back(t);
            proof {
                assert(fresh_task(t, videos@[i as int]@, kind, if kind == WorkType::Encode {
                    config.ffmpeg_args@
                } else {
                    config.ab_av1_args@
                }));
                assert forall|k: int| 0 <= k < i + 1 implies fresh_task(
                    #[trigger] tasks@[k],
                    videos@[k]@,
                    kind,
                    if kind == WorkType::Encode {
                        config.ffmpeg_args@
                    } else {
                        config.ab_av1_args@
                    },
                ) by {
                    if k < i {
                        assert(tasks@[k] == before[k]);
                    }
                }
            }
            i += 1;
        }
        let mut clients: Vec<WorkerClient> = Vec::new();
        let mut w: usize = 0;
        while w < config.workers.len()
            invariant
                w <= config.workers@.len(),
                forall|j: int| 0 <= j < w ==> url_parses(#[trigger] config.workers@[j]@),
                distinct_prefix(collision_keys(videos@, config.container@), videos@.len() as int),
                clients@.len() == w,
                forall|j: int|
                    0 <= j < w ==> client_base(#[trigger] config.workers@[j]@) == Some(
                        clients@[j].base@,
                    ),
            decreases config.workers@.len() - w,
        {
            match WorkerClient::new(config.workers[w].as_str()) {
                Ok(c) => {
                    clients.push(c);
                },
                Err(e) => {
                    proof {
                        if e is InvalidUrl {
                            assert(!url_parses(config.workers@[w as int]@));
                        }
                    }
                    return Err(OrchestratorError::Client(e));
                },
            }
            w += 1;
        }
        let queues = if fixed {
            Queues { crf: std::collections::VecDeque::new(), encode: tasks }
        } else {
            Queues { crf: tasks, encode: std::collections::VecDeque::new() }
        };
        let active: HashMap<TaskId, ActiveTask> = HashMap::new();
        Ok(Orchestrator { config, clients, queues, active, failures: Vec::new() })
    }

    /// Whether every task is done: nothing queued and nothing active.
    pub fn is_done(&self) -> (r: bool)
        ensures
            r == (self.queues.crf@.len() == 0 && self.queues.encode@.len() == 0
                && self.active@.is_empty()),
    {
        self.queues.is_empty() && self.active.is_empty()
    }

    /// The request that sends `task` to a worker.
    pub fn work_request(&self, task: &Task) -> (r: WorkRequest)
        ensures
            r.task_id == task.id,
            r.filename == task.filename,
            r.arguments@ == task.arguments@,
            r.container == self.config.container,
    {
        WorkRequest {
            task_id: task.id,
            filename: task.filename.clone(),
            arguments: copy_strings(&task.arguments),
            container: self.config.container.clone(),
        }
    }

    /// Counts a failed attempt of `task`: below `MAX_ATTEMPTS` it goes back
    /// to the front of its queue, else its file is recorded as failed with
    /// `error`.
    pub fn retry_or_fail(&mut self, task: Task, error: &str)
        requires
            task.attempts < u32::MAX,
        ensures
            retried(
                task,
                (old(self).queues.encode@, old(self).queues.crf@),
                (final(self).queues.encode@, final(self).queues.crf@),
                old(self).failures@,
                final(self).failures@,
                error@,
            ),
            final(self).active@ == old(self).active@,
            final(self).config == old(self).config,
            final(self).clients@ == old(self).clients@,
    {
        let ghost given = task;
        let mut task = task;
        task.attempts = task.attempts + 1;
        assert(task == Task { attempts: (given.attempts + 1) as u32, ..given });
        if task.attempts >= MAX_ATTEMPTS {
            let name = task.filename.clone();
            let why = String::from_str(error);
            let ghost before = self.failures@;
            self.failures.push((name, why));
            assert(self.failures@.drop_last() =~= before);
            assert(self.failures@.last().0@ == given.filename@);
            assert(self.failures@.last().1@ == error@);
            assert(self.queues.encode@ == old(self).queues.encode@);
        } else {
            self.queues.requeue_front(task);
            assert(same_task(task, Task { attempts: (given.attempts + 1) as u32, ..given }));
            assert(given.work_type == WorkType::Encode ==> self.queues.encode@[0] == task);
            assert(given.work_type == WorkType::Encode ==> self.queues.encode@.drop_first() =~= old(self).queues.encode@);
            assert(given.work_type == WorkType::CrfSearch ==> self.queues.crf@.drop_first() =~= old(self).queues.crf@);
        }
    }

    /// Deals with a worker's answer to a dispatched task (`Err` holds the
    /// description of a failed or ambiguous exchange). Returns whether the
    /// head should go on filling this worker's slots.
    pub fn after_send(&mut self, worker: usize, task: Task, outcome: Result<SendOutcome, String>) -> (r:
        bool)
        requires
            old(self).wf(),
            task.attempts < u32::MAX,
        ensures
            final(self).wf(),
            final(self).config == old(self).config,
            final(self).clients@ == old(self).clients@,
            r == keeps_going(outcome),
            sent(*old(self), *final(self), worker, task, outcome),
    {
        match outcome {
            Ok(SendOutcome::Accepted) => {
                let id = task.id;
                let _ = self.active.insert(id, ActiveTask { task, worker, missing_since: None });
                true
            },
            Ok(SendOutcome::Busy) => {
                let mut task = task;
                task.affinity = None;
                self.queues.requeue_front(task);
                false
            },
            Ok(SendOutcome::Conflict(e)) => {
                let why = concat_str("worker conflict: ", e.as_str());
                self.retry_or_fail(task, why.as_str());
                true
            },
            Err(_) => {
                let mut task = task;
                task.affinity = Some(worker);
                self.queues.requeue_front(task);
                true
            },
        }
    }

    /// What to do with result `f` reported by `worker`.
    pub fn result_action(&self, worker: usize, f: &FinishedWork) -> (r: ResultAction)
        requires
            self.wf(),
        ensures
            if self.active@.contains_key(f.task_id) && self.active@[f.task_id].worker == worker
                && self.active@[f.task_id].task.work_type == f.work_type {
                match f.status {
                    WorkStatus::Succeeded => r matches ResultAction::Succeeded(t) && same_task(
                        t,
                        self.active@[f.task_id].task,
                    ),
                    WorkStatus::Failed => r matches ResultAction::Failed(t) && same_task(
                        t,
                        self.active@[f.task_id].task,
                    ),
                }
            } else {
                r is Ignore
            },
    {
        match self.finished_match(worker, f) {
            None => ResultAction::Ignore,
            Some(t) => match f.status {
                WorkStatus::Succeeded => ResultAction::Succeeded(t),
                WorkStatus::Failed => ResultAction::Failed(t),
            },
        }
    }

    /// Where the input video goes when ab-av1 found no suitable CRF: from
    /// the input folder to the output folder, under its own name (not an
    /// output name).
    pub fn source_copy(&self, task: &Task) -> (r: FileCopy)
        ensures
            r.from_folder == self.config.input_folder,
            r.to_folder == self.config.output_folder,
            r.name == task.filename,
    {
        FileCopy {
            from_folder: self.config.input_folder.clone(),
            to_folder: self.config.output_folder.clone(),
            name: task.filename.clone(),
        }
    }

    /// The next task to dispatch to the worker of `slots`: none once its
    /// slots are used up; else the task `pop_for` hands out, which takes a
    /// slot; when none is left for it, its slots close for this round.
    pub fn next_dispatch(&mut self, slots: &mut Slots) -> (r: Option<Task>)
        ensures
            final(slots).worker == old(slots).worker,
            old(slots).left == 0 ==> r is None && final(slots).left == 0 && final(self).queues
                == old(self).queues,
            old(slots).left > 0 ==> (r, final(self).queues.encode@, final(self).queues.crf@)
                == pop_for_spec(old(self).queues.encode@, old(self).queues.crf@, old(slots).worker),
            old(slots).left > 0 && r is Some ==> final(slots).left == old(slots).left - 1,
            r is None ==> final(slots).left == 0,
            final(self).active@ == old(self).active@,
            final(self).failures@ == old(self).failures@,
            final(self).config == old(self).config,
            final(self).clients@ == old(self).clients@,
    {
        if slots.left == 0 {
            return None;
        }
        match self.queues.pop_for(slots.worker) {
            Some(t) => {
                slots.left = slots.left - 1;
                Some(t)
            },
            None => {
                slots.left = 0;
                None
            },
        }
    }

    /// Deals with the answer to a task `next_dispatch` handed out (see
    /// `after_send`); a busy worker gets nothing more this round.
    pub fn settle(
        &mut self,
        slots: &mut Slots,
        task: Task,
        outcome: Result<SendOutcome, String>,
    )
        requires
            old(self).wf(),
            task.attempts < u32::MAX,
        ensures
            final(self).wf(),
            final(self).config == old(self).config,
            final(self).clients@ == old(self).clients@,
            sent(*old(self), *final(self), old(slots).worker, task, outcome),
            final(slots).worker == old(slots).worker,
            final(slots).left == if keeps_going(outcome) {
                old(slots).left
            } else {
                0
            },
    {
        let worker = slots.worker;
        if !self.after_send(worker, task, outcome) {
            slots.left = 0;
        }
    }

    /// The active task a result belongs to: it must be active on the
    /// worker that reports it, and of the same kind; anything else is
    /// ignored.
    pub fn finished_match(&self, worker: usize, f: &FinishedWork) -> (r: Option<Task>)
        requires
            self.wf(),
        ensures
            if self.active@.contains_key(f.task_id) && self.active@[f.task_id].worker == worker
                && self.active@[f.task_id].task.work_type == f.work_type {
                r matches Some(t) && same_task(t, self.active@[f.task_id].task)
            } else {
                r is None
            },
    {
        match self.active.get(&f.task_id) {
            Some(a) => {
                if a.worker == worker && a.task.work_type == f.work_type {
                    Some(a.task.clone())
                } else {
                    None
                }
            },
            None => None,
        }
    }

    /// What a successful result of `task` asks for.
    pub fn success_plan(&self, task: &Task, f: &FinishedWork) -> (r: SuccessPlan)
        ensures
            r == success_plan_spec(*task, *f),
    {
        match task.work_type {
            WorkType::CrfSearch => {
                let m = chars_of(f.metadata.as_str());
                let marker = chars_of(NO_CRF_METADATA);
                if crate::paths::same_chars(&m, &marker) {
                    return SuccessPlan::CopySource;
                }
                match parse_u32(&m) {
                    None => SuccessPlan::CrfNotInteger,
                    Some(c) => if c > MAX_CRF {
                        SuccessPlan::CrfOutOfRange(c)
                    } else {
                        SuccessPlan::QueueEncode(c)
                    },
                }
            },
            WorkType::Encode => SuccessPlan::Publish,
        }
    }

    /// Queues the encode that follows a CRF search of `task` which found
    /// `crf`: the ffmpeg arguments plus `-crf {crf}`, pinned to `worker`,
    /// which already holds the upload.
    pub fn queue_encode(&mut self, task: &Task, crf: u32, worker: usize)
        ensures
            final(self).queues.crf@ == old(self).queues.crf@,
            final(self).queues.encode@.len() == old(self).queues.encode@.len() + 1,
            final(self).queues.encode@.drop_last() == old(self).queues.encode@,
            ({
                let t = final(self).queues.encode@.last();
                &&& t.filename == task.filename
                &&& t.work_type == WorkType::Encode
                &&& t.arguments@.map_values(|a: String| a@) == encode_args_spec(
                    old(self).config.ffmpeg_args@,
                    crf,
                )
                &&& t.attempts == 0
                &&& t.affinity == Some(worker)
            }),
            final(self).active@ == old(self).active@,
            final(self).failures@ == old(self).failures@,
            final(self).config == old(self).config,
            final(self).clients@ == old(self).clients@,
    {
        let mut args = copy_strings(&self.config.ffmpeg_args);
        let ghost base = args@;
        args.push(String::from_str("-crf"));
        args.push(u32_text(crf));
        proof {
            reveal_strlit("-crf");
            assert("-crf"@ =~= seq!['-', 'c', 'r', 'f']);
            assert(args@.map_values(|a: String| a@) =~= base.map_values(|a: String| a@) + seq![
                seq!['-', 'c', 'r', 'f'],
                decimal(crf as nat),
            ]);
        }
        let mut encode = Task::new(task.filename.clone(), WorkType::Encode, args);
        encode.affinity = Some(worker);
        self.queues.encode.push_back(encode);
    }

    /// Forgets an active task once its result has been dealt with.
    pub fn complete(&mut self, id: TaskId)
        requires
            old(self).wf(),
        ensures
            final(self).wf(),
            final(self).active@ == old(self).active@.remove(id),
            final(self).queues == old(self).queues,
            final(self).failures@ == old(self).failures@,
            final(self).config == old(self).config,
            final(self).clients@ == old(self).clients@,
    {
        let _ = self.active.remove(&id);
    }

    /// A worker reported `task` as failed: it is no longer active, and it
    /// is retried or given up (see `retry_or_fail`).
    pub fn fail_active(&mut self, task: Task, error: &str)
        requires
            old(self).wf(),
            task.attempts < u32::MAX,
        ensures
            final(self).wf(),
            final(self).active@ == old(self).active@.remove(task.id),
            retried(
                task,
                (old(self).queues.encode@, old(self).queues.crf@),
                (final(self).queues.encode@, final(self).queues.crf@),
                old(self).failures@,
                final(self).failures@,
                error@,
            ),
            final(self).config == old(self).config,
            final(self).clients@ == old(self).clients@,
    {
        let _ = self.active.remove(&task.id);
        self.retry_or_fail(task, error);
    }
}

/// The dispatches still allowed to one worker in a round of scheduling.
pub struct Slots {
    pub worker: usize,
    pub left: usize,
}

/// The slots of a worker that answered a poll: its free capacity.
pub fn open_slots(worker: usize, running: &RunningResponse) -> (r: Slots)
    ensures
        r.worker == worker,
        r.left == if running.max_works >= running.works@.len() {
            running.max_works - running.works@.len()
        } else {
            0
        },
{
    Slots { worker, left: free_slots(running) }
}

/// What to do after a download attempt.
#[derive(Debug, Clone, Copy, PartialEq, Eq, Structural)]
pub enum DownloadNext {
    /// The result is here: check it and publish it.
    Publish,
    /// Wait a poll interval and try again.
    Retry,
    /// The attempts are used up: drop the partial file and fail.
    GiveUp,
}

/// After download attempt number `attempt` (counted from 1), which
/// succeeded or not: publish on success, else retry while fewer than
/// `DOWNLOAD_ATTEMPTS` attempts were made, else give up. So a result is
/// fetched at most `DOWNLOAD_ATTEMPTS` times, and the first success ends it.
pub fn after_download(attempt: u32, ok: bool) -> (r: DownloadNext)
    ensures
        r == if ok {
            DownloadNext::Publish
        } else if attempt < DOWNLOAD_ATTEMPTS {
            DownloadNext::Retry
        } else {
            DownloadNext::GiveUp
        },
{
    if ok {
        DownloadNext::Publish
    } else if attempt < DOWNLOAD_ATTEMPTS {
        DownloadNext::Retry
    } else {
        DownloadNext::GiveUp
    }
}

/// What the head does with a result a worker reports.
#[derive(Debug)]
pub enum ResultAction {
    /// Not a result of a task active on that worker, or of another kind.
    Ignore,
    /// The task succeeded: deal with its result (see `success_plan`), then
    /// forget it.
    Succeeded(Task),
    /// The task failed: forget it, clear it on the worker, and count the
    /// attempt (see `fail_active`).
    Failed(Task),
}

/// A copy of a file from one folder to another, under the same name.
#[derive(Debug)]
pub struct FileCopy {
    pub from_folder: String,
    pub to_folder: String,
    pub name: String,
}

/// Whether the head goes on filling a worker's slots after its answer: not
/// after a 429.
pub open spec fn keeps_going(outcome: Result<SendOutcome, String>) -> bool {
    !(outcome matches Ok(SendOutcome::Busy))
}

/// What a worker's answer to a dispatched `task` does to the head's state
/// (`Err` holds the description of a failed or ambiguous exchange): an
/// accepted task becomes active on `worker`; a busy worker gives it back
/// to the front of its queue, unpinned; a conflict counts as a failed
/// attempt; an ambiguous exchange puts it back pinned to `worker`.
pub open spec fn sent(
    o: Orchestrator,
    n: Orchestrator,
    worker: usize,
    task: Task,
    outcome: Result<SendOutcome, String>,
) -> bool {
    match outcome {
        Ok(SendOutcome::Accepted) => n.active@ == o.active@.insert(
            task.id,
            ActiveTask { task, worker, missing_since: None },
        ) && n.queues.encode@ == o.queues.encode@ && n.queues.crf@ == o.queues.crf@
            && n.failures@ == o.failures@,
        Ok(SendOutcome::Busy) => n.active@ == o.active@ && n.failures@ == o.failures@ && requeued(
            Task { affinity: None, ..task },
            o.queues,
            n.queues,
        ),
        Ok(SendOutcome::Conflict(e)) => n.active@ == o.active@ && retried(
            task,
            (o.queues.encode@, o.queues.crf@),
            (n.queues.encode@, n.queues.crf@),
            o.failures@,
            n.failures@,
            "worker conflict: "@ + e@,
        ),
        Err(_) => n.active@ == o.active@ && n.failures@ == o.failures@ && requeued(
            Task { affinity: Some(worker), ..task },
            o.queues,
            n.queues,
        ),
    }
}

/// `task` was put back at the front of the queue of its kind.
pub open spec fn requeued(task: Task, before: Queues, after: Queues) -> bool {
    match task.work_type {
        WorkType::Encode => after.encode@ == seq![task] + before.encode@ && after.crf@
            == before.crf@,
        WorkType::CrfSearch => after.crf@ == seq![task] + before.crf@ && after.encode@
            == before.encode@,
    }
}

// ---------------------------------------------------------------------
// Polls: adopting running tasks, noticing missing ones
// ---------------------------------------------------------------------

/// The queues and active tasks, which a poll may change.
pub type Book = (Seq<Task>, Seq<Task>, Map<TaskId, ActiveTask>);

pub open spec fn in_running(works: Seq<RunningWork>, id: TaskId) -> bool {
    exists|k: int| 0 <= k < works.len() && (#[trigger] works[k]).id == id
}

pub open spec fn in_finished(finished: Seq<FinishedWork>, id: TaskId) -> bool {
    exists|k: int| 0 <= k < finished.len() && (#[trigger] finished[k]).task_id == id
}

/// A worker's poll shows task `id`, running or finished.
pub open spec fn observed(snap: Snapshot, id: TaskId) -> bool {
    in_running(snap.0.works@, id) || in_finished(snap.1.finished@, id)
}

/// A worker runs task `id` that the head still has queued: the head takes
/// it out of the queue and records it as active on that worker.
pub open spec fn adopt_one(b: Book, worker: usize, id: TaskId) -> Book {
    let (t, e, c) = remove_spec(b.0, b.1, id);
    match t {
        Some(task) => (e, c, b.2.insert(id, ActiveTask { task, worker, missing_since: None })),
        None => b,
    }
}

pub open spec fn adopt_all(b: Book, worker: usize, works: Seq<RunningWork>) -> Book
    decreases works.len(),
{
    if works.len() == 0 {
        b
    } else {
        adopt_one(adopt_all(b, worker, works.drop_last()), worker, works.last().id)
    }
}

/// The tasks active on `worker` that its poll shows are marked present.
pub open spec fn track(active: Map<TaskId, ActiveTask>, worker: usize, snap: Snapshot) -> Map<
    TaskId,
    ActiveTask,
> {
    active.map_values(
        |a: ActiveTask|
            if a.worker == worker && observed(snap, a.task.id) {
                ActiveTask { missing_since: None, ..a }
            } else {
                a
            },
    )
}

pub open spec fn poll_step(b: Book, worker: usize, snap: Snapshot) -> Book {
    let b1 = adopt_all(b, worker, snap.0.works@);
    (b1.0, b1.1, track(b1.2, worker, snap))
}

/// The effect of one round of polls, worker by worker (`None` for a
/// worker that did not answer).
pub open spec fn poll_all(b: Book, snapshots: Seq<Option<Snapshot>>) -> Book
    decreases snapshots.len(),
{
    if snapshots.len() == 0 {
        b
    } else {
        let p = poll_all(b, snapshots.drop_last());
        match snapshots.last() {
            Some(s) => poll_step(p, (snapshots.len() - 1) as usize, s),
            None => p,
        }
    }
}

/// Milliseconds from `since` to `now` (0 if the clock went back).
pub open spec fn elapsed(since: u64, now: u64) -> int {
    if now >= since {
        now - since
    } else {
        0
    }
}

/// Worker `w` answered this round of polls.
pub open spec fn answered(snapshots: Seq<Option<Snapshot>>, w: usize) -> bool {
    w < snapshots.len() && snapshots[w as int] is Some
}

/// A task whose worker answered is stamped missing from `now` unless it
/// was already.
pub open spec fn stamp(a: ActiveTask, snapshots: Seq<Option<Snapshot>>, now: u64) -> ActiveTask {
    if answered(snapshots, a.worker) {
        ActiveTask {
            missing_since: Some(
                match a.missing_since {
                    Some(s) => s,
                    None => now,
                },
            ),
            ..a
        }
    } else {
        a
    }
}

/// A stamped task is due for resending when its worker answered and it
/// has been missing for `MISSING_TIMEOUT_MS` or more.
pub open spec fn due(a: ActiveTask, snapshots: Seq<Option<Snapshot>>, now: u64) -> bool {
    &&& answered(snapshots, a.worker)
    &&& a.missing_since matches Some(s) && elapsed(s, now) >= MISSING_TIMEOUT_MS
}

fn contains_running(works: &Vec<RunningWork>, id: TaskId) -> (r: bool)
    ensures
        r == in_running(works@, id),
{
    let mut k: usize = 0;
    while k < works.len()
        invariant
            k <= works@.len(),
            forall|j: int| 0 <= j < k ==> (#[trigger] works@[j]).id != id,
        decreases works@.len() - k,
    {
        if works[k].id == id {
            return true;
        }
        k += 1;
    }
    false
}

fn contains_finished(finished: &Vec<FinishedWork>, id: TaskId) -> (r: bool)
    ensures
        r == in_finished(finished@, id),
{
    let mut k: usize = 0;
    while k < finished.len()
        invariant
            k <= finished@.len(),
            forall|j: int| 0 <= j < k ==> (#[trigger] finished@[j]).task_id != id,
        decreases finished@.len() - k,
    {
        if finished[k].task_id == id {
            return true;
        }
        k += 1;
    }
    false
}

/// `cur` is `orig` with the entries of `done` replaced by those of
/// `target`.
pub open spec fn partly_updated(
    cur: Map<TaskId, ActiveTask>,
    orig: Map<TaskId, ActiveTask>,
    target: Map<TaskId, ActiveTask>,
    done: Seq<TaskId>,
) -> bool {
    &&& cur.dom() == orig.dom()
    &&& forall|k: TaskId| #[trigger]
        orig.contains_key(k) ==> cur[k] == if done.contains(k) {
            target[k]
        } else {
            orig[k]
        }
}

/// Replacing the entry of the next key keeps `partly_updated` one key
/// further; that entry was still the original one.
proof fn lemma_update_next(
    ids: Seq<TaskId>,
    a: int,
    orig: Map<TaskId, ActiveTask>,
    target: Map<TaskId, ActiveTask>,
    mid: Map<TaskId, ActiveTask>,
)
    requires
        0 <= a < ids.len(),
        ids.no_duplicates(),
        forall|k: TaskId| ids.contains(k) <==> orig.contains_key(k),
        partly_updated(mid, orig, target, ids.take(a)),
    ensures
        orig.contains_key(ids[a]),
        mid.contains_key(ids[a]),
        mid[ids[a]] == orig[ids[a]],
        partly_updated(
            mid.remove(ids[a]).insert(ids[a], target[ids[a]]),
            orig,
            target,
            ids.take(a + 1),
        ),
{
    let id = ids[a];
    assert(ids.contains(id));
    assert(ids.take(a + 1) =~= ids.take(a).push(id));
    assert(!ids.take(a).contains(id)) by {
        if ids.take(a).contains(id) {
            let j = choose|j: int| 0 <= j < a && ids.take(a)[j] == id;
            assert(ids[j] == ids[a]);
        }
    }
    let now = mid.remove(id).insert(id, target[id]);
    assert(now.dom() =~= orig.dom());
    assert(ids.take(a + 1)[a] == id);
    assert forall|k: TaskId| #[trigger] orig.contains_key(k) implies now[k] == if ids.take(
        a + 1,
    ).contains(k) {
        target[k]
    } else {
        orig[k]
    } by {
        if k != id {
            assert(ids.take(a + 1).contains(k) == ids.take(a).contains(k));
        } else {
            assert(ids.take(a + 1).contains(k));
        }
    }
}

/// Once every key is replaced, the map is the target.
proof fn lemma_update_done(
    ids: Seq<TaskId>,
    orig: Map<TaskId, ActiveTask>,
    target: Map<TaskId, ActiveTask>,
    cur: Map<TaskId, ActiveTask>,
)
    requires
        forall|k: TaskId| ids.contains(k) <==> orig.contains_key(k),
        target.dom() == orig.dom(),
        partly_updated(cur, orig, target, ids),
    ensures
        cur == target,
{
    assert(cur =~= target);
}

/// Adding key `ids[a]` to a list of the keys so far that meet `p`, exactly
/// when it meets `p`, keeps it that list one key further.
proof fn lemma_list_grows(
    ids: Seq<TaskId>,
    a: int,
    before: Seq<TaskId>,
    after: Seq<TaskId>,
    p: spec_fn(TaskId) -> bool,
)
    requires
        0 <= a < ids.len(),
        ids.no_duplicates(),
        before.no_duplicates(),
        forall|k: TaskId| before.contains(k) <==> ids.take(a).contains(k) && p(k),
        after == if p(ids[a]) {
            before.push(ids[a])
        } else {
            before
        },
    ensures
        after.no_duplicates(),
        forall|k: TaskId| after.contains(k) <==> ids.take(a + 1).contains(k) && p(k),
{
    let id = ids[a];
    assert(ids.take(a + 1) =~= ids.take(a).push(id));
    assert(ids.take(a + 1)[a] == id);
    assert(!ids.take(a).contains(id)) by {
        if ids.take(a).contains(id) {
            let j = choose|j: int| 0 <= j < a && ids.take(a)[j] == id;
            assert(ids[j] == ids[a]);
        }
    }
    assert(!before.contains(id));
    assert forall|k: TaskId| after.contains(k) <==> ids.take(a + 1).contains(k) && p(k) by {
        if k != id {
            assert(ids.take(a + 1).contains(k) == ids.take(a).contains(k));
            if after.contains(k) {
                let j = choose|j: int| 0 <= j < after.len() && after[j] == k;
                if j < before.len() {
                    assert(after[j] == before[j]);
                }
            }
            if before.contains(k) {
                let j = choose|j: int| 0 <= j < before.len() && before[j] == k;
                assert(after[j] == before[j]);
            }
        } else {
            assert(ids.take(a + 1).contains(k));
            if p(id) {
                assert(after[after.len() - 1] == id);
            }
        }
    }
}

impl Orchestrator {
    /// Marks present the tasks active on `worker` that its poll `snap`
    /// shows.
    fn track_worker(&mut self, worker: usize, snap: &Snapshot)
        requires
            old(self).wf(),
        ensures
            final(self).wf(),
            final(self).active@ == track(old(self).active@, worker, *snap),
            final(self).queues == old(self).queues,
            final(self).failures@ == old(self).failures@,
            final(self).config == old(self).config,
            final(self).clients@ == old(self).clients@,
    {
        let ghost orig = self.active@;
        let ghost target = track(orig, worker, *snap);
        let ids = keys_of(&self.active);
        let mut a: usize = 0;
        proof {
            assert(ids@.take(0) =~= Seq::<TaskId>::empty());
        }
        while a < ids.len()
            invariant
                a <= ids@.len(),
                ids@.no_duplicates(),
                forall|k: TaskId| ids@.contains(k) <==> orig.contains_key(k),
                keyed(orig),
                target == track(orig, worker, *snap),
                partly_updated(self.active@, orig, target, ids@.take(a as int)),
                self.queues == old(self).queues,
                self.failures@ == old(self).failures@,
                self.config == old(self).config,
                self.clients@ == old(self).clients@,
            decreases ids@.len() - a,
        {
            let id = ids[a];
            let ghost mid = self.active@;
            proof {
                lemma_update_next(ids@, a as int, orig, target, mid);
            }
            match self.active.remove(&id) {
                Some(t) => {
                    let mut t = t;
                    if t.worker == worker && (contains_running(&snap.0.works, id)
                        || contains_finished(&snap.1.finished, id)) {
                        t.missing_since = None;
                    }
                    assert(t == target[id]);
                    let _ = self.active.insert(id, t);
                },
                None => {
                    assert(false);
                },
            }
            a += 1;
        }
        proof {
            assert(ids@.take(a as int) =~= ids@);
            assert(target.dom() =~= orig.dom());
            lemma_update_done(ids@, orig, target, self.active@);
        }
    }

    /// Takes in a round of polls: tasks a worker runs while the head still
    /// had them queued are adopted as active on that worker, and active
    /// tasks a worker shows (running or finished) are marked present.
    pub fn adopt_and_track(&mut self, snapshots: &Vec<Option<Snapshot>>)
        requires
            old(self).wf(),
        ensures
            final(self).wf(),
            (final(self).queues.encode@, final(self).queues.crf@, final(self).active@) == poll_all(
                (old(self).queues.encode@, old(self).queues.crf@, old(self).active@),
                snapshots@,
            ),
            final(self).failures@ == old(self).failures@,
            final(self).config == old(self).config,
            final(self).clients@ == old(self).clients@,
    {
        let ghost start: Book = (self.queues.encode@, self.queues.crf@, self.active@);
        let mut i: usize = 0;
        assert(snapshots@.take(0) =~= Seq::<Option<Snapshot>>::empty());
        while i < snapshots.len()
            invariant
                i <= snapshots@.len(),
                self.wf(),
                (self.queues.encode@, self.queues.crf@, self.active@) == poll_all(
                    start,
                    snapshots@.take(i as int),
                ),
                self.failures@ == old(self).failures@,
                self.config == old(self).config,
                self.clients@ == old(self).clients@,
            decreases snapshots@.len() - i,
        {
            let ghost before: Book = (self.queues.encode@, self.queues.crf@, self.active@);
            proof {
                assert(snapshots@.take(i + 1).drop_last() =~= snapshots@.take(i as int));
                assert(snapshots@.take(i + 1).last() == snapshots@[i as int]);
            }
            match &snapshots[i] {
                None => {},
                Some(snap) => {
                    let works = &snap.0.works;
                    let mut k: usize = 0;
                    assert(works@.take(0) =~= Seq::<RunningWork>::empty());
                    while k < works.len()
                        invariant
                            k <= works@.len(),
                            self.wf(),
                            (self.queues.encode@, self.queues.crf@, self.active@) == adopt_all(
                                before,
                                i,
                                works@.take(k as int),
                            ),
                            self.failures@ == old(self).failures@,
                            self.config == old(self).config,
                            self.clients@ == old(self).clients@,
                        decreases works@.len() - k,
                    {
                        proof {
                            assert(works@.take(k + 1).drop_last() =~= works@.take(k as int));
                            assert(works@.take(k + 1).last() == works@[k as int]);
                        }
                        let id = works[k].id;
                        let ghost qe = self.queues.encode@;
                        let ghost qc = self.queues.crf@;
                        match self.queues.remove(&id) {
                            Some(task) => {
                                proof {
                                    match first_id(qe, id) {
                                        Some(j) => {
                                            assert(is_first_id(qe, id, j));
                                        },
                                        None => {
                                            let j = first_id(qc, id)->0;
                                            assert(is_first_id(qc, id, j));
                                        },
                                    }
                                    assert(task.id == id);
                                }
                                let _ = self.active.insert(
                                    id,
                                    ActiveTask { task, worker: i, missing_since: None },
                                );
                            },
                            None => {},
                        }
                        k += 1;
                    }
                    assert(works@.take(k as int) =~= works@);
                    self.track_worker(i, snap);
                },
            }
            i += 1;
        }
        assert(snapshots@.take(i as int) =~= snapshots@);
    }

    /// Stamps the tasks whose worker answered as missing from `now` (unless
    /// already stamped; `adopt_and_track` clears the stamp of those it
    /// saw), and returns those missing for `MISSING_TIMEOUT_MS` or more:
    /// they are to be resent to the same worker under the same identifier.
    pub fn due_for_resend(&mut self, snapshots: &Vec<Option<Snapshot>>, now: u64) -> (r: Vec<TaskId>)
        requires
            old(self).wf(),
        ensures
            final(self).wf(),
            final(self).active@ == old(self).active@.map_values(
                |a: ActiveTask| stamp(a, snapshots@, now),
            ),
            r@.no_duplicates(),
            forall|k: TaskId|
                r@.contains(k) <==> final(self).active@.contains_key(k) && due(
                    final(self).active@[k],
                    snapshots@,
                    now,
                ),
            final(self).queues == old(self).queues,
            final(self).failures@ == old(self).failures@,
            final(self).config == old(self).config,
            final(self).clients@ == old(self).clients@,
    {
        let ghost orig = self.active@;
        let ghost target = orig.map_values(|x: ActiveTask| stamp(x, snapshots@, now));
        let ids = keys_of(&self.active);
        let mut due_list: Vec<TaskId> = Vec::new();
        let mut a: usize = 0;
        proof {
            assert(ids@.take(0) =~= Seq::<TaskId>::empty());
        }
        while a < ids.len()
            invariant
                a <= ids@.len(),
                ids@.no_duplicates(),
                forall|k: TaskId| ids@.contains(k) <==> orig.contains_key(k),
                keyed(orig),
                target == orig.map_values(|x: ActiveTask| stamp(x, snapshots@, now)),
                partly_updated(self.active@, orig, target, ids@.take(a as int)),
                due_list@.no_duplicates(),
                forall|k: TaskId|
                    due_list@.contains(k) <==> ids@.take(a as int).contains(k) && due(
                        target[k],
                        snapshots@,
                        now,
                    ),
                self.queues == old(self).queues,
                self.failures@ == old(self).failures@,
                self.config == old(self).config,
                self.clients@ == old(self).clients@,
            decreases ids@.len() - a,
        {
            let id = ids[a];
            let ghost mid = self.active@;
            let ghost mid_due = due_list@;
            proof {
                lemma_update_next(ids@, a as int, orig, target, mid);
            }
            match self.active.remove(&id) {
                Some(t) => {
                    let mut t = t;
                    let answered_now = t.worker < snapshots.len() && snapshots[t.worker].is_some();
                    if answered_now {
                        let since = match t.missing_since {
                            Some(s) => s,
                            None => now,
                        };
                        t.missing_since = Some(since);
                        let gone = if now >= since {
                            now - since
                        } else {
                            0
                        };
                        if gone >= MISSING_TIMEOUT_MS {
                            due_list.push(id);
                        }
                    }
                    assert(t == target[id]);
                    assert(due_list@ == if due(target[id], snapshots@, now) {
                        mid_due.push(id)
                    } else {
                        mid_due
                    });
                    let _ = self.active.insert(id, t);
                    proof {
                        lemma_list_grows(ids@, a as int, mid_due, due_list@, |k: TaskId| due(target[k], snapshots@, now));
                    }
                },
                None => {
                    assert(false);
                },
            }
            a += 1;
        }
        proof {
            assert(ids@.take(a as int) =~= ids@);
            assert(target.dom() =~= orig.dom());
            lemma_update_done(ids@, orig, target, self.active@);
        }
        due_list
    }

    /// The active task `id` and its worker, if it is active.
    pub fn active_task(&self, id: TaskId) -> (r: Option<(Task, usize)>)
        ensures
            if self.active@.contains_key(id) {
                r matches Some((t, w)) && same_task(t, self.active@[id].task) && w
                    == self.active@[id].worker
            } else {
                r is None
            },
    {
        match self.active.get(&id) {
            Some(a) => Some((a.task.clone(), a.worker)),
            None => None,
        }
    }

    /// A resent task was accepted again: it is no longer counted missing.
    pub fn mark_present(&mut self, id: TaskId)
        requires
            old(self).wf(),
        ensures
            final(self).wf(),
            final(self).active@ == if old(self).active@.contains_key(id) {
                old(self).active@.insert(
                    id,
                    ActiveTask { missing_since: None, ..old(self).active@[id] },
                )
            } else {
                old(self).active@
            },
            final(self).queues == old(self).queues,
            final(self).failures@ == old(self).failures@,
            final(self).config == old(self).config,
            final(self).clients@ == old(self).clients@,
    {
        match self.active.remove(&id) {
            Some(t) => {
                let mut t = t;
                t.missing_since = None;
                let _ = self.active.insert(id, t);
                proof {
                    assert(self.active@ =~= old(self).active@.insert(
                        id,
                        ActiveTask { missing_since: None, ..old(self).active@[id] },
                    ));
                }
            },
            None => {},
        }
    }
}

// ---------------------------------------------------------------------
// Laws
// ---------------------------------------------------------------------

/// A task its worker's latest poll showed is not resent in that round:
/// only a task missing for the whole timeout is.
pub proof fn law_observed_task_not_resent(
    b: Book,
    worker: usize,
    snap: Snapshot,
    snapshots: Seq<Option<Snapshot>>,
    now: u64,
    id: TaskId,
)
    requires
        poll_step(b, worker, snap).2.contains_key(id),
        poll_step(b, worker, snap).2[id].worker == worker,
        observed(snap, poll_step(b, worker, snap).2[id].task.id),
    ensures
        !due(stamp(poll_step(b, worker, snap).2[id], snapshots, now), snapshots, now),
{
    let adopted = adopt_all(b, worker, snap.0.works@).2;
    assert(poll_step(b, worker, snap).2[id] == ActiveTask { missing_since: None, ..adopted[id] });
}

/// A task the head gives up on has failed `MAX_ATTEMPTS` times; below that
/// it is always put back in front of its queue, with the attempt counted.
pub proof fn law_retry_bound(
    task: Task,
    old_q: (Seq<Task>, Seq<Task>),
    new_q: (Seq<Task>, Seq<Task>),
    old_failures: Seq<(String, String)>,
    new_failures: Seq<(String, String)>,
    error: Seq<char>,
)
    requires
        retried(task, old_q, new_q, old_failures, new_failures, error),
    ensures
        new_failures.len() > old_failures.len() <==> task.attempts + 1 >= MAX_ATTEMPTS,
        task.attempts + 1 < MAX_ATTEMPTS ==> new_q.0.len() + new_q.1.len() == old_q.0.len()
            + old_q.1.len() + 1,
{
}

/// The CRF a worker reports is the CRF the head reads back: a CRF search
/// whose result carries the decimal text of `crf` (as `crf_search_result`
/// writes it) leads to an encode with exactly that CRF.
pub proof fn law_reported_crf_read_back(task: Task, f: FinishedWork, crf: u32)
    requires
        task.work_type == WorkType::CrfSearch,
        f.metadata@ == decimal(crf as nat),
        crf <= MAX_CRF,
    ensures
        success_plan_spec(task, f) == SuccessPlan::QueueEncode(crf),
{
    crate::text::lemma_decimal_round_trip(crf as nat);
    reveal_strlit("no-suitable-crf");
    assert(crate::text::is_ascii_digit(decimal(crf as nat)[0]));
    assert(NO_CRF_METADATA@[0] == 'n');
    assert(decimal(crf as nat) != NO_CRF_METADATA@);
    assert(decimal(crf as nat)[0] != '+');
}

/// The head understands every successful CRF search a worker reports:
/// either ab-av1 found no suitable CRF and the input video is copied, or
/// an encode is queued with exactly the CRF ab-av1 announced (never a
/// malformed or out-of-range CRF).
pub proof fn law_crf_search_result_understood(
    task: Task,
    f: FinishedWork,
    req: WorkRequest,
    outcome: CommandOutcome,
)
    requires
        task.work_type == WorkType::CrfSearch,
        crf_search_report(f, req, outcome),
        f.status == WorkStatus::Succeeded,
    ensures
        success_plan_spec(task, f) == SuccessPlan::CopySource || (outcome matches
            CommandOutcome::Exited { success, stdout, stderr } && output_crf(
            utf8_lossy(stdout@) + seq!['\n'] + utf8_lossy(stderr@),
        ) matches Some(c) && success_plan_spec(task, f) == SuccessPlan::QueueEncode(c)),
{
    match outcome {
        CommandOutcome::SpawnFailed(_) => {},
        CommandOutcome::Exited { success, stdout, stderr } => {
            let combined = utf8_lossy(stdout@) + seq!['\n'] + utf8_lossy(stderr@);
            if success {
                match output_crf(combined) {
                    Some(v) => {
                        lemma_first_line_crf_in_range(lines(combined));
                        law_reported_crf_read_back(task, f, v);
                    },
                    None => {},
                }
            }
        },
    }
}

/// A dispatched task is never lost: after the worker's answer it is
/// active under its identifier, back at the front of the queue of its
/// kind, or recorded as failed under its file name.
pub proof fn law_dispatched_task_kept(
    o: Orchestrator,
    n: Orchestrator,
    worker: usize,
    task: Task,
    outcome: Result<SendOutcome, String>,
)
    requires
        sent(o, n, worker, task, outcome),
    ensures
        ({
            ||| n.active@.contains_key(task.id) && n.active@[task.id].task == task
            ||| (task.work_type == WorkType::Encode && n.queues.encode@.len() > 0
                && n.queues.encode@[0].id == task.id)
            ||| (task.work_type == WorkType::CrfSearch && n.queues.crf@.len() > 0
                && n.queues.crf@[0].id == task.id)
            ||| (n.failures@.len() == o.failures@.len() + 1 && n.failures@.last().0@
                == task.filename@)
        }),
{
    match outcome {
        Ok(SendOutcome::Accepted) => {},
        Ok(SendOutcome::Busy) => {
            let t = Task { affinity: None, ..task };
            if task.work_type == WorkType::Encode {
                assert(n.queues.encode@[0] == t);
            } else {
                assert(n.queues.crf@[0] == t);
            }
        },
        Ok(SendOutcome::Conflict(_)) => {},
        Err(_) => {
            let t = Task { affinity: Some(worker), ..task };
            if task.work_type == WorkType::Encode {
                assert(n.queues.encode@[0] == t);
            } else {
                assert(n.queues.crf@[0] == t);
            }
        },
    }
}

/// Adopting a task a worker already runs moves it from the queues to the
/// active tasks: it is taken out of the queues once, every other queued
/// task stays, and it becomes active on that worker under its identifier.
pub proof fn law_adopted_task_moved(b: Book, worker: usize, id: TaskId)
    ensures
        ({
            let (t, e, c) = remove_spec(b.0, b.1, id);
            let after = adopt_one(b, worker, id);
            match t {
                Some(task) => {
                    &&& (after.0 + after.1).to_multiset().insert(task) == (b.0 + b.1).to_multiset()
                    &&& after.2.contains_key(id)
                    &&& after.2[id].task == task
                    &&& after.2[id].worker == worker
                    &&& task.id == id
                },
                None => after == b,
            }
        }),
{
    broadcast use vstd::seq_lib::group_to_multiset_ensures;

    vstd::seq_lib::lemma_multiset_commutative(b.0, b.1);
    match first_id(b.0, id) {
        Some(i) => {
            assert(is_first_id(b.0, id, i));
            vstd::seq_lib::lemma_multiset_commutative(b.0.remove(i), b.1);
            b.0.to_multiset_ensures();
        },
        None => match first_id(b.1, id) {
            Some(i) => {
                assert(is_first_id(b.1, id, i));
                vstd::seq_lib::lemma_multiset_commutative(b.0, b.1.remove(i));
                b.1.to_multiset_ensures();
            },
            None => {},
        },
    }
}

} // verus!
