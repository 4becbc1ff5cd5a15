//! The worker: job bookkeeping and the files it keeps per task.
//!
//! Files are stored under the task's identifier, not under the uploaded
//! name, so that two uploads with the same name never collide. The final
//! name only travels to the head (metadata and Content-Disposition).

pub mod files;
pub mod jobs;
pub mod status;

use crate::types::{
    lemma_uuid_text_injective, lemma_uuid_text_shape, uuid_text, uuid_text_spec, FinishedWork,
    RunningWork, TaskId,
};
use crate::text::concat_str;
use std::collections::HashMap;
use vstd::prelude::*;
use vstd::string::StringExecFns;

verus! {

broadcast use vstd::string::group_string_axioms;

pub const LOADED_DIR: &'static str = "./loaded";

pub const FINISHED_DIR: &'static str = "./finished";

pub struct RunningEntry {
    pub work: RunningWork,
}

/// The tasks a worker holds, keyed by identifier: those running and those
/// finished.
pub struct Works {
    pub running: HashMap<TaskId, RunningEntry>,
    pub finished: HashMap<TaskId, FinishedWork>,
}

impl Works {
    /// Each task is held under its own identifier.
    pub open spec fn wf(&self) -> bool {
        &&& forall|k: TaskId| #[trigger] self.running@.contains_key(k) ==> self.running@[k].work.id
            == k
        &&& forall|k: TaskId| #[trigger] self.finished@.contains_key(k)
            ==> self.finished@[k].task_id == k
    }

    /// No task held.
    pub fn new() -> (w: Works)
        ensures
            w.wf(),
            w.running@ == Map::<TaskId, RunningEntry>::empty(),
            w.finished@ == Map::<TaskId, FinishedWork>::empty(),
    {
        Works { running: HashMap::new(), finished: HashMap::new() }
    }
}

impl Default for Works {
    fn default() -> (w: Self)
        ensures
            w.wf(),
            w.running@ == Map::<TaskId, RunningEntry>::empty(),
            w.finished@ == Map::<TaskId, FinishedWork>::empty(),
    {
        Works::new()
    }
}

// ---------------------------------------------------------------------
// Where a task's files live
// ---------------------------------------------------------------------

/// `dir/name`, as `Path::new(dir).join(name)` renders it.
pub open spec fn joined(dir: Seq<char>, name: Seq<char>) -> Seq<char> {
    dir + "/"@ + name
}

/// The uploaded input of a task: `./loaded/{task_id}`.
pub fn loaded_path(task_id: &TaskId) -> (r: String)
    ensures
        r@ == joined(LOADED_DIR@, uuid_text_spec(*task_id)),
{
    let id = uuid_text(*task_id);
    concat_str(concat_str(LOADED_DIR, "/").as_str(), id.as_str())
}

/// The published result of a task: `./finished/{task_id}`.
pub fn finished_path(task_id: &TaskId) -> (r: String)
    ensures
        r@ == joined(FINISHED_DIR@, uuid_text_spec(*task_id)),
{
    let id = uuid_text(*task_id);
    concat_str(concat_str(FINISHED_DIR, "/").as_str(), id.as_str())
}

/// Where ffmpeg writes before the result is published:
/// `./finished/.encode-{task_id}.tmp.{container}`.
pub fn encode_tmp_path(task_id: &TaskId, container: &str) -> (r: String)
    ensures
        r@ == joined(
            FINISHED_DIR@,
            ".encode-"@ + uuid_text_spec(*task_id) + ".tmp."@ + container@,
        ),
{
    let id = uuid_text(*task_id);
    let name = concat_str(concat_str(concat_str(".encode-", id.as_str()).as_str(), ".tmp.").as_str(), container);
    concat_str(concat_str(FINISHED_DIR, "/").as_str(), name.as_str())
}

/// Where an upload is written before it is renamed into place:
/// `./loaded/.upload-{task_id}.part`.
pub fn upload_tmp_path(task_id: &TaskId) -> (r: String)
    ensures
        r@ == joined(LOADED_DIR@, ".upload-"@ + uuid_text_spec(*task_id) + ".part"@),
{
    let id = uuid_text(*task_id);
    let name = concat_str(concat_str(".upload-", id.as_str()).as_str(), ".part");
    concat_str(concat_str(LOADED_DIR, "/").as_str(), name.as_str())
}

/// Files are kept per task: distinct tasks never share an upload, a
/// result or an encode's temporary file, and an encode's temporary file is
/// never a task's published result.
pub proof fn law_task_files_distinct(a: TaskId, b: TaskId, ca: Seq<char>, cb: Seq<char>)
    ensures
        a != b ==> joined(LOADED_DIR@, uuid_text_spec(a)) != joined(LOADED_DIR@, uuid_text_spec(b)),
        a != b ==> joined(FINISHED_DIR@, uuid_text_spec(a)) != joined(
            FINISHED_DIR@,
            uuid_text_spec(b),
        ),
        a != b ==> joined(FINISHED_DIR@, ".encode-"@ + uuid_text_spec(a) + ".tmp."@ + ca)
            != joined(FINISHED_DIR@, ".encode-"@ + uuid_text_spec(b) + ".tmp."@ + cb),
        joined(FINISHED_DIR@, ".encode-"@ + uuid_text_spec(a) + ".tmp."@ + ca) != joined(
            FINISHED_DIR@,
            uuid_text_spec(b),
        ),
{
    reveal_strlit("./loaded");
    reveal_strlit("./finished");
    reveal_strlit("/");
    reveal_strlit(".encode-");
    reveal_strlit(".tmp.");
    lemma_uuid_text_shape(a);
    lemma_uuid_text_shape(b);
    let ua = uuid_text_spec(a);
    let ub = uuid_text_spec(b);
    let la = joined(LOADED_DIR@, ua);
    let lb = joined(LOADED_DIR@, ub);
    if la == lb {
        assert(la.subrange(9, 45) =~= ua);
        assert(lb.subrange(9, 45) =~= ub);
        lemma_uuid_text_injective(a, b);
    }
    let fa = joined(FINISHED_DIR@, ua);
    let fb = joined(FINISHED_DIR@, ub);
    if fa == fb {
        assert(fa.subrange(11, 47) =~= ua);
        assert(fb.subrange(11, 47) =~= ub);
        lemma_uuid_text_injective(a, b);
    }
    let ta = joined(FINISHED_DIR@, ".encode-"@ + ua + ".tmp."@ + ca);
    let tb = joined(FINISHED_DIR@, ".encode-"@ + ub + ".tmp."@ + cb);
    if ta == tb {
        assert(ta.subrange(19, 55) =~= ua);
        assert(tb.subrange(19, 55) =~= ub);
        lemma_uuid_text_injective(a, b);
    }
    assert(ta[11] == '.');
    assert(fb[11] == ub[0]);
}

} // verus!
