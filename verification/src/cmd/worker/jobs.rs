//! Capacity reservation, result publication, and what a finished ab-av1
//! or ffmpeg run yields.

use super::{
    encode_tmp_path, joined, loaded_path, RunningEntry, Works, FINISHED_DIR, LOADED_DIR,
};
use crate::crf::{is_no_suitable_crf, output_crf, parse_crf, says_no_suitable_crf};
use crate::paths::{
    is_last_index, last_index, normalize_container, normalized_container, output_name,
    output_name_spec, valid_filename,
    validate_filename,
};
use crate::text::{concat_str, decimal, lossy_text, tail, tail_spec, u32_text, utf8_lossy, views_of};
use crate::types::{
    now_unix, uuid_text_spec, FinishedWork, RunningWork, TaskId, WorkRequest, WorkStatus,
    WorkType, NO_CRF_METADATA,
};
use vstd::prelude::*;
use vstd::string::StringExecFns;

verus! {

broadcast use vstd::string::group_string_axioms;

/// Why a worker refused a work request.
#[derive(Debug, Clone, Copy, PartialEq, Eq, Structural)]
pub enum ReserveError {
    /// The file name is not a simple name (HTTP 400).
    InvalidFilename,
    /// The container is not ASCII letters and digits (HTTP 400).
    InvalidContainer,
    /// The identifier is already held by a different task (HTTP 409).
    Conflict,
    /// Every slot is taken (HTTP 429).
    NoCapacity,
}

impl ReserveError {
    /// The HTTP status the refusal is answered with.
    pub fn status_code(&self) -> (r: u16)
        ensures
            r == match *self {
                ReserveError::InvalidFilename => 400u16,
                ReserveError::InvalidContainer => 400u16,
                ReserveError::Conflict => 409u16,
                ReserveError::NoCapacity => 429u16,
            },
    {
        match self {
            ReserveError::InvalidFilename => 400,
            ReserveError::InvalidContainer => 400,
            ReserveError::Conflict => 409,
            ReserveError::NoCapacity => 429,
        }
    }
}

/// How a worker answers a work request.
pub enum Admission {
    Refused(ReserveError),
    /// The same task is already held: accepted again, nothing launched.
    Duplicate,
    /// A new task takes a free slot.
    Admit,
}

/// The kind and file name already held under `id`: a running task first,
/// then a finished one.
pub open spec fn held(w: Works, id: TaskId) -> Option<(WorkType, Seq<char>)> {
    if w.running@.contains_key(id) {
        Some((w.running@[id].work.work_type, w.running@[id].work.filename@))
    } else if w.finished@.contains_key(id) {
        Some((w.finished@[id].work_type, w.finished@[id].filename@))
    } else {
        None
    }
}

/// Whether a held name is the request's file: for an encode the held name
/// may be the published output name.
pub open spec fn same_file(ty: WorkType, req: WorkRequest, held_name: Seq<char>) -> bool {
    match ty {
        WorkType::Encode => output_name_spec(req.filename@, req.container@) == held_name
            || req.filename@ == held_name,
        WorkType::CrfSearch => req.filename@ == held_name,
    }
}

/// The answer to a request for `work_type`, given what the worker holds
/// and its capacity.
pub open spec fn admission(w: Works, max_works: usize, work_type: WorkType, req: WorkRequest) -> Admission {
    if !valid_filename(req.filename@) {
        Admission::Refused(ReserveError::InvalidFilename)
    } else if normalized_container(req.container@) is None {
        Admission::Refused(ReserveError::InvalidContainer)
    } else {
        match held(w, req.task_id) {
            Some((ty, name)) => if ty == work_type && same_file(ty, req, name) {
                Admission::Duplicate
            } else {
                Admission::Refused(ReserveError::Conflict)
            },
            None => if w.running@.len() >= max_works {
                Admission::Refused(ReserveError::NoCapacity)
            } else {
                Admission::Admit
            },
        }
    }
}

/// `e` records the start of `req` as a `work_type` task.
pub open spec fn entry_for(e: RunningEntry, work_type: WorkType, req: WorkRequest) -> bool {
    &&& e.work.id == req.task_id
    &&& e.work.work_type == work_type
    &&& e.work.filename@ == req.filename@
}

impl Works {
    /// Reserves a slot for a task, atomically with respect to the other
    /// requests: a request already held (same identifier, kind and file)
    /// is accepted again without a new slot; a clash on the identifier, a
    /// bad name or container, or a full worker is refused.
    pub fn reserve(&mut self, max_works: usize, work_type: WorkType, req: &WorkRequest) -> (r:
        Result<(), ReserveError>)
        requires
            old(self).wf(),
        ensures
            final(self).wf(),
            match admission(*old(self), max_works, work_type, *req) {
                Admission::Refused(e) => r == Err::<(), ReserveError>(e) && final(self).running@
                    == old(self).running@ && final(self).finished@ == old(self).finished@,
                Admission::Duplicate => r is Ok && final(self).running@ == old(self).running@
                    && final(self).finished@ == old(self).finished@,
                Admission::Admit => r is Ok && final(self).running@ == old(self).running@.insert(
                    req.task_id,
                    final(self).running@[req.task_id],
                ) && entry_for(final(self).running@[req.task_id], work_type, *req)
                    && final(self).finished@ == old(self).finished@,
            },
            old(self).running@.len() <= max_works ==> final(self).running@.len() <= max_works,
            valid_filename(req.filename@) && normalized_container(req.container@) is Some
                && !old(self).running@.contains_key(req.task_id)
                && !old(self).finished@.contains_key(req.task_id) && old(self).running@.len()
                < max_works ==> r is Ok && final(self).running@.contains_key(req.task_id)
                && final(self).finished@ == old(self).finished@,
            r == Err::<(), ReserveError>(ReserveError::NoCapacity) ==> old(self).running@.len()
                >= max_works,
    {
        proof {
            law_free_slot_admits(*old(self), max_works, work_type, *req);
        }
        if validate_filename(req.filename.as_str()).is_err() {
            return Err(ReserveError::InvalidFilename);
        }
        if normalize_container(req.container.as_str()).is_err() {
            return Err(ReserveError::InvalidContainer);
        }
        let existing: Option<(WorkType, String)> = match self.running.get(&req.task_id) {
            Some(e) => Some((e.work.work_type, e.work.filename.clone())),
            None => match self.finished.get(&req.task_id) {
                Some(f) => Some((f.work_type, f.filename.clone())),
                None => None,
            },
        };
        match existing {
            Some((ty, fname)) => {
                let same = match ty {
                    WorkType::Encode => {
                        let out = output_name(req.filename.as_str(), req.container.as_str());
                        out == fname || req.filename == fname
                    },
                    WorkType::CrfSearch => req.filename == fname,
                };
                if ty == work_type && same {
                    return Ok(());
                }
                return Err(ReserveError::Conflict);
            },
            None => {},
        }
        if self.running.len() >= max_works {
            return Err(ReserveError::NoCapacity);
        }
        let entry = RunningEntry {
            work: RunningWork {
                id: req.task_id,
                work_type,
                filename: req.filename.clone(),
                start_time: now_unix(),
            },
        };
        let _ = self.running.insert(req.task_id, entry);
        Ok(())
    }

    /// Moves a task's result from running to finished (replacing an older
    /// result under the same identifier).
    pub fn publish(&mut self, result: FinishedWork)
        requires
            old(self).wf(),
        ensures
            final(self).wf(),
            final(self).running@ == old(self).running@.remove(result.task_id),
            final(self).finished@ == old(self).finished@.insert(result.task_id, result),
    {
        let id = result.task_id;
        let _ = self.running.remove(&id);
        let _ = self.finished.insert(id, result);
    }

    /// Forgets a task's result, once the head has dealt with it. Whether
    /// there was one is returned; clearing twice is harmless.
    pub fn clear(&mut self, task_id: TaskId) -> (existed: bool)
        requires
            old(self).wf(),
        ensures
            final(self).wf(),
            existed == old(self).finished@.contains_key(task_id),
            final(self).finished@ == old(self).finished@.remove(task_id),
            final(self).running@ == old(self).running@,
    {
        self.finished.remove(&task_id).is_some()
    }
}

// ---------------------------------------------------------------------
// Results of a run
// ---------------------------------------------------------------------

/// `f` reports a failed run of `req` as `work_type`, under `filename`,
/// with `error`.
pub open spec fn is_failure(
    f: FinishedWork,
    req: WorkRequest,
    work_type: WorkType,
    filename: Seq<char>,
    error: Seq<char>,
) -> bool {
    &&& f.task_id == req.task_id
    &&& f.work_type == work_type
    &&& f.filename@ == filename
    &&& f.metadata@ == Seq::<char>::empty()
    &&& f.status == WorkStatus::Failed
    &&& f.error@ == error
}

/// `f` reports a successful run of `req` as `work_type`.
pub open spec fn is_success(
    f: FinishedWork,
    req: WorkRequest,
    work_type: WorkType,
    filename: Seq<char>,
    metadata: Seq<char>,
) -> bool {
    &&& f.task_id == req.task_id
    &&& f.work_type == work_type
    &&& f.filename@ == filename
    &&& f.metadata@ == metadata
    &&& f.status == WorkStatus::Succeeded
    &&& f.error@ == Seq::<char>::empty()
}

/// A failed result for `req`.
pub fn failed(req: &WorkRequest, work_type: WorkType, filename: String, error: String) -> (r:
    FinishedWork)
    ensures
        is_failure(r, *req, work_type, filename@, error@),
{
    FinishedWork {
        task_id: req.task_id,
        work_type,
        filename,
        metadata: String::new(),
        status: WorkStatus::Failed,
        error,
    }
}

fn succeeded(req: &WorkRequest, work_type: WorkType, filename: String, metadata: String) -> (r:
    FinishedWork)
    ensures
        is_success(r, *req, work_type, filename@, metadata@),
{
    FinishedWork {
        task_id: req.task_id,
        work_type,
        filename,
        metadata,
        status: WorkStatus::Succeeded,
        error: String::new(),
    }
}

/// `v` with each of `extra` appended, in order.
fn append_strings(v: &mut Vec<String>, extra: &Vec<String>)
    ensures
        final(v)@ == old(v)@ + extra@,
{
    let mut i: usize = 0;
    let ghost start = v@;
    while i < extra.len()
        invariant
            i <= extra@.len(),
            v@ == start + extra@.take(i as int),
        decreases extra@.len() - i,
    {
        v.push(extra[i].clone());
        i += 1;
        assert(v@ =~= start + extra@.take(i as int));
    }
    assert(extra@.take(i as int) =~= extra@);
}

/// The program a CRF search runs.
pub const CRF_SEARCH_PROGRAM: &'static str = "ab-av1";

/// The program an encode runs.
pub const ENCODE_PROGRAM: &'static str = "ffmpeg";

/// The arguments ab-av1 gets for `req`: `crf-search --input` and the
/// task's upload, then the request's own arguments.
pub open spec fn crf_search_args(req: WorkRequest) -> Seq<Seq<char>> {
    seq!["crf-search"@, "--input"@, joined(LOADED_DIR@, uuid_text_spec(req.task_id))] + views_of(
        req.arguments@,
    )
}

/// The arguments ffmpeg gets for `req`: `-i` and the task's upload, the
/// request's own arguments, then `-y` and the temporary output, whose
/// extension is the container (ffmpeg picks the format from it).
pub open spec fn encode_args(req: WorkRequest) -> Seq<Seq<char>> {
    seq!["-i"@, joined(LOADED_DIR@, uuid_text_spec(req.task_id))] + views_of(req.arguments@)
        + seq![
        "-y"@,
        joined(FINISHED_DIR@, ".encode-"@ + uuid_text_spec(req.task_id) + ".tmp."@ + req.container@),
    ]
}

/// The argument list of the ab-av1 run for `req`.
pub fn crf_search_command(req: &WorkRequest) -> (r: Vec<String>)
    ensures
        views_of(r@) == crf_search_args(*req),
{
    let mut args: Vec<String> = Vec::new();
    args.push(String::from_str("crf-search"));
    args.push(String::from_str("--input"));
    args.push(loaded_path(&req.task_id));
    append_strings(&mut args, &req.arguments);
    assert(views_of(args@) =~= crf_search_args(*req));
    args
}

/// The argument list of the ffmpeg run for `req`.
pub fn encode_command(req: &WorkRequest) -> (r: Vec<String>)
    ensures
        views_of(r@) == encode_args(*req),
{
    let mut args: Vec<String> = Vec::new();
    args.push(String::from_str("-i"));
    args.push(loaded_path(&req.task_id));
    append_strings(&mut args, &req.arguments);
    args.push(String::from_str("-y"));
    args.push(encode_tmp_path(&req.task_id, req.container.as_str()));
    assert(views_of(args@) =~= encode_args(*req));
    args
}

/// How a run of ab-av1 ended.
pub enum CommandOutcome {
    /// The program could not be started; the text describes why.
    SpawnFailed(String),
    /// It ran and exited, successfully or not, with these outputs.
    Exited { success: bool, stdout: Vec<u8>, stderr: Vec<u8> },
}

/// What a CRF search reports, given how ab-av1 ran.
pub open spec fn crf_search_report(f: FinishedWork, req: WorkRequest, outcome: CommandOutcome) -> bool {
    match outcome {
        CommandOutcome::SpawnFailed(e) => is_failure(
            f,
            req,
            WorkType::CrfSearch,
            req.filename@,
            "could not run ab-av1: "@ + e@,
        ),
        CommandOutcome::Exited { success, stdout, stderr } => {
            let combined = utf8_lossy(stdout@) + seq!['\n'] + utf8_lossy(stderr@);
            if !success {
                if says_no_suitable_crf(combined) {
                    is_success(f, req, WorkType::CrfSearch, req.filename@, NO_CRF_METADATA@)
                } else {
                    is_failure(
                        f,
                        req,
                        WorkType::CrfSearch,
                        req.filename@,
                        "ab-av1 exited unsuccessfully: "@ + tail_spec(utf8_lossy(stderr@)),
                    )
                }
            } else {
                match output_crf(combined) {
                    Some(v) => is_success(
                        f,
                        req,
                        WorkType::CrfSearch,
                        req.filename@,
                        decimal(v as nat),
                    ),
                    None => if says_no_suitable_crf(combined) {
                        is_success(f, req, WorkType::CrfSearch, req.filename@, NO_CRF_METADATA@)
                    } else {
                        is_failure(
                            f,
                            req,
                            WorkType::CrfSearch,
                            req.filename@,
                            "could not extract a valid CRF from ab-av1 output"@,
                        )
                    },
                }
            }
        },
    }
}

/// The result of a CRF search: the CRF found, the "no suitable CRF"
/// marker (the input video is then copied unchanged), or a failure.
pub fn crf_search_result(req: &WorkRequest, outcome: CommandOutcome) -> (r: FinishedWork)
    ensures
        crf_search_report(r, *req, outcome),
        outcome matches CommandOutcome::Exited { success, stdout, stderr } && !success
            && !says_no_suitable_crf(utf8_lossy(stdout@) + seq!['\n'] + utf8_lossy(stderr@))
            ==> r.status == WorkStatus::Failed && r.metadata@.len() == 0,
{
    match outcome {
        CommandOutcome::SpawnFailed(e) => failed(
            req,
            WorkType::CrfSearch,
            req.filename.clone(),
            concat_str("could not run ab-av1: ", e.as_str()),
        ),
        CommandOutcome::Exited { success, stdout, stderr } => {
            let out = lossy_text(stdout.as_slice());
            let err = lossy_text(stderr.as_slice());
            let combined = concat_str(concat_str(out.as_str(), "\n").as_str(), err.as_str());
            proof {
                reveal_strlit("\n");
                assert(combined@ =~= utf8_lossy(stdout@) + seq!['\n'] + utf8_lossy(stderr@));
            }
            if !success {
                if is_no_suitable_crf(combined.as_str()) {
                    return succeeded(
                        req,
                        WorkType::CrfSearch,
                        req.filename.clone(),
                        String::from_str(NO_CRF_METADATA),
                    );
                }
                let t = tail(err.as_str());
                return failed(
                    req,
                    WorkType::CrfSearch,
                    req.filename.clone(),
                    concat_str("ab-av1 exited unsuccessfully: ", t.as_str()),
                );
            }
            match parse_crf(combined.as_str()) {
                Some(v) => succeeded(req, WorkType::CrfSearch, req.filename.clone(), u32_text(v)),
                None => {
                    if is_no_suitable_crf(combined.as_str()) {
                        succeeded(
                            req,
                            WorkType::CrfSearch,
                            req.filename.clone(),
                            String::from_str(NO_CRF_METADATA),
                        )
                    } else {
                        failed(
                            req,
                            WorkType::CrfSearch,
                            req.filename.clone(),
                            String::from_str("could not extract a valid CRF from ab-av1 output"),
                        )
                    }
                },
            }
        },
    }
}

/// How an encode ended.
pub enum EncodeOutcome {
    /// ffmpeg could not be started; the text describes why.
    SpawnFailed(String),
    /// ffmpeg exited unsuccessfully, with this standard error.
    ExitFailed(Vec<u8>),
    /// ffmpeg left no output, or an empty one.
    EmptyOutput,
    /// The output could not be moved into place; the text describes why.
    PublishFailed(String),
    /// The output is in place.
    Published,
}

/// What an encode reports, given how it ended.
pub open spec fn encode_report(f: FinishedWork, req: WorkRequest, outcome: EncodeOutcome) -> bool {
    match outcome {
        EncodeOutcome::SpawnFailed(e) => is_failure(
            f,
            req,
            WorkType::Encode,
            req.filename@,
            "could not run ffmpeg: "@ + e@,
        ),
        EncodeOutcome::ExitFailed(stderr) => is_failure(
            f,
            req,
            WorkType::Encode,
            req.filename@,
            "ffmpeg exited unsuccessfully: "@ + tail_spec(utf8_lossy(stderr@)),
        ),
        EncodeOutcome::EmptyOutput => is_failure(
            f,
            req,
            WorkType::Encode,
            req.filename@,
            "ffmpeg produced an empty file"@,
        ),
        EncodeOutcome::PublishFailed(e) => is_failure(
            f,
            req,
            WorkType::Encode,
            req.filename@,
            "could not publish the result: "@ + e@,
        ),
        EncodeOutcome::Published => is_success(
            f,
            req,
            WorkType::Encode,
            output_name_spec(req.filename@, req.container@),
            Seq::<char>::empty(),
        ),
    }
}

/// Whether ffmpeg's output, of the size read from disk (if it could be
/// read), may be published: it must exist and be non-empty.
pub fn encode_output_ok(size: Option<u64>) -> (r: bool)
    ensures
        r == (size matches Some(n) && n > 0),
{
    match size {
        Some(n) => n > 0,
        None => false,
    }
}

/// The result of an encode: published under the output name, or a failure
/// under the input name.
pub fn encode_result(req: &WorkRequest, outcome: EncodeOutcome) -> (r: FinishedWork)
    ensures
        encode_report(r, *req, outcome),
        outcome is Published ==> r.status == WorkStatus::Succeeded && exists|k: int|
            #[trigger] cut_at_last_dot(req.filename@, k) && r.filename@ == req.filename@.take(k)
                + seq!['.'] + req.container@,
{
    match outcome {
        EncodeOutcome::SpawnFailed(e) => failed(
            req,
            WorkType::Encode,
            req.filename.clone(),
            concat_str("could not run ffmpeg: ", e.as_str()),
        ),
        EncodeOutcome::ExitFailed(stderr) => {
            let err = lossy_text(stderr.as_slice());
            let t = tail(err.as_str());
            failed(
                req,
                WorkType::Encode,
                req.filename.clone(),
                concat_str("ffmpeg exited unsuccessfully: ", t.as_str()),
            )
        },
        EncodeOutcome::EmptyOutput => failed(
            req,
            WorkType::Encode,
            req.filename.clone(),
            String::from_str("ffmpeg produced an empty file"),
        ),
        EncodeOutcome::PublishFailed(e) => failed(
            req,
            WorkType::Encode,
            req.filename.clone(),
            concat_str("could not publish the result: ", e.as_str()),
        ),
        EncodeOutcome::Published => {
            let r = succeeded(
                req,
                WorkType::Encode,
                output_name(req.filename.as_str(), req.container.as_str()),
                String::new(),
            );
            proof {
                law_published_name_kept(r, *req);
            }
            r
        },
    }
}

// ---------------------------------------------------------------------
// Laws
// ---------------------------------------------------------------------

/// A request that was admitted is, when sent again, accepted as a
/// duplicate: the same task is never started twice.
pub proof fn law_admitted_request_is_duplicate(
    before: Works,
    after: Works,
    max_works: usize,
    work_type: WorkType,
    req: WorkRequest,
)
    requires
        admission(before, max_works, work_type, req) == Admission::Admit,
        after.running@ == before.running@.insert(req.task_id, after.running@[req.task_id]),
        entry_for(after.running@[req.task_id], work_type, req),
    ensures
        admission(after, max_works, work_type, req) == Admission::Duplicate,
{
}

/// Once a task has finished (its result names the request's file, or for
/// an encode its output name), resending the same request is accepted as
/// a duplicate, so a result is never encoded twice.
pub proof fn law_finished_request_is_duplicate(
    w: Works,
    max_works: usize,
    work_type: WorkType,
    req: WorkRequest,
)
    requires
        valid_filename(req.filename@),
        normalized_container(req.container@) is Some,
        !w.running@.contains_key(req.task_id),
        w.finished@.contains_key(req.task_id),
        w.finished@[req.task_id].work_type == work_type,
        w.finished@[req.task_id].filename@ == req.filename@ || (work_type == WorkType::Encode
            && w.finished@[req.task_id].filename@ == output_name_spec(
            req.filename@,
            req.container@,
        )),
    ensures
        admission(w, max_works, work_type, req) == Admission::Duplicate,
{
}

/// Clearing is idempotent: once a result is cleared it is gone, and
/// clearing it again finds nothing and changes nothing.
pub proof fn law_clear_idempotent(finished: Map<TaskId, FinishedWork>, id: TaskId)
    ensures
        !finished.remove(id).contains_key(id),
        finished.remove(id).remove(id) == finished.remove(id),
{
    assert(finished.remove(id).remove(id) =~= finished.remove(id));
}

/// Capacity counts running tasks only: a valid request under an
/// identifier not held is admitted whenever fewer than `max_works` tasks
/// run, however many finished results wait to be downloaded; and a request
/// is refused for capacity only when `max_works` or more tasks run.
pub proof fn law_free_slot_admits(w: Works, max_works: usize, work_type: WorkType, req: WorkRequest)
    ensures
        valid_filename(req.filename@) && normalized_container(req.container@) is Some
            && !w.running@.contains_key(req.task_id) && !w.finished@.contains_key(req.task_id)
            && w.running@.len() < max_works ==> admission(w, max_works, work_type, req)
            == Admission::Admit,
        admission(w, max_works, work_type, req) == Admission::Refused(ReserveError::NoCapacity)
            ==> w.running@.len() >= max_works,
{
}

/// A run of ab-av1 that exits unsuccessfully is reported as a failure,
/// with no CRF, unless its output says no suitable CRF exists; a CRF in
/// its output is never taken from a failed run.
pub proof fn law_failed_search_is_failure(
    f: FinishedWork,
    req: WorkRequest,
    stdout: Vec<u8>,
    stderr: Vec<u8>,
)
    requires
        crf_search_report(f, req, CommandOutcome::Exited { success: false, stdout, stderr }),
        !says_no_suitable_crf(utf8_lossy(stdout@) + seq!['\n'] + utf8_lossy(stderr@)),
    ensures
        f.status == WorkStatus::Failed,
        f.metadata@.len() == 0,
        f.task_id == req.task_id,
        f.work_type == WorkType::CrfSearch,
{
}

/// `k` is where a name's last `.` stands, or its length when it has none.
pub open spec fn cut_at_last_dot(name: Seq<char>, k: int) -> bool {
    &&& 0 <= k <= name.len()
    &&& k == name.len() || name[k] == '.'
    &&& forall|j: int| k < j < name.len() ==> name[j] != '.'
    &&& k == name.len() ==> forall|j: int| 0 <= j < name.len() ==> name[j] != '.'
}

proof fn lemma_some_last_index(s: Seq<char>, c: char, j: int)
    requires
        0 <= j < s.len(),
        s[j] == c,
    ensures
        last_index(s, c) is Some,
    decreases s.len() - j,
{
    if exists|m: int| j < m < s.len() && s[m] == c {
        let m = choose|m: int| j < m < s.len() && s[m] == c;
        lemma_some_last_index(s, c, m);
    } else {
        assert(is_last_index(s, c, j));
    }
}

/// A published encode is reported under the input's name up to its last
/// `.` (the whole name when it has none), characters and case unchanged,
/// followed by `.` and the container as requested.
pub proof fn law_published_name_kept(f: FinishedWork, req: WorkRequest)
    requires
        encode_report(f, req, EncodeOutcome::Published),
    ensures
        f.status == WorkStatus::Succeeded,
        exists|k: int|
            #[trigger] cut_at_last_dot(req.filename@, k) && f.filename@ == req.filename@.take(k)
                + seq!['.'] + req.container@,
{
    let input = req.filename@;
    match last_index(input, '.') {
        Some(k) => {
            assert(is_last_index(input, '.', k));
            assert(f.filename@ == input.take(k) + seq!['.'] + req.container@);
            assert(cut_at_last_dot(input, k));
        },
        None => {
            let k = input.len() as int;
            assert forall|j: int| 0 <= j < input.len() implies input[j] != '.' by {
                if input[j] == '.' {
                    lemma_some_last_index(input, '.', j);
                }
            }
            assert(input.take(k) =~= input);
            assert(f.filename@ == input.take(k) + seq!['.'] + req.container@);
            assert(cut_at_last_dot(input, k));
        },
    }
}

/// The worker never runs more tasks than its capacity: no request takes a
/// slot beyond `max_works`.
pub proof fn law_capacity_respected(w: Works, max_works: usize, work_type: WorkType, req: WorkRequest)
    ensures
        admission(w, max_works, work_type, req) == Admission::Admit ==> w.running@.len() + 1
            <= max_works,
{
}

} // verus!
