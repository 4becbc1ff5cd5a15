//! What the worker lists, lets download and clears among its files.

use super::Works;
use crate::text::{
    chars_of, sort_strings, sorted_texts, starts_with, string_of, views_of,
};
use crate::types::{parse_uuid, uuid_parse_spec, FinishedWork, TaskId, WorkStatus, WorkType};
use vstd::prelude::*;
use vstd::string::StringExecFns;

verus! {

broadcast use vstd::string::group_string_axioms;

/// A listed upload: not a hidden (in-progress) file.
pub open spec fn is_listed(name: Seq<char>) -> bool {
    !starts_with(name, seq!['.'])
}

/// The uploads to list, out of the names in the upload folder: hidden
/// names (uploads in progress) left out, the rest sorted.
pub fn loaded_listing(names: Vec<String>) -> (r: Vec<String>)
    ensures
        sorted_texts(views_of(r@)),
        r@.to_multiset() == names@.filter(|n: String| is_listed(n@)).to_multiset(),
{
    let ghost pred = |n: String| is_listed(n@);
    let mut kept: Vec<String> = Vec::new();
    let mut k: usize = 0;
    while k < names.len()
        invariant
            k <= names.len(),
            pred == (|n: String| is_listed(n@)),
            kept@ == names@.take(k as int).filter(pred),
        decreases names.len() - k,
    {
        proof {
            names@.take(k as int).lemma_filter_push(names@[k as int], pred);
            assert(names@.take(k + 1) =~= names@.take(k as int).push(names@[k as int]));
        }
        let v = chars_of(names[k].as_str());
        let hidden = v.len() > 0 && v[0] == '.';
        proof {
            if hidden {
                assert(v@.subrange(0, 1) =~= seq!['.']);
            } else if v@.len() > 0 {
                assert(v@.subrange(0, 1)[0] != '.');
            }
        }
        if !hidden {
            kept.push(names[k].clone());
        }
        k += 1;
    }
    assert(names@.take(k as int) =~= names@);
    sort_strings(kept)
}

/// Why a download is refused.
#[derive(Debug, Clone, Copy, PartialEq, Eq, Structural)]
pub enum DownloadError {
    /// The path does not hold a task identifier (HTTP 400).
    BadTaskId,
    /// No successful encode is held under it (HTTP 404).
    NotAvailable,
}

impl DownloadError {
    /// The HTTP status the refusal is answered with.
    pub fn status_code(&self) -> (r: u16)
        ensures
            r == match *self {
                DownloadError::BadTaskId => 400u16,
                DownloadError::NotAvailable => 404u16,
            },
    {
        match self {
            DownloadError::BadTaskId => 400,
            DownloadError::NotAvailable => 404,
        }
    }
}

/// What may be downloaded under a path segment: only the result of an
/// encode that finished successfully, under its final name.
pub open spec fn download_target(w: Works, text: Seq<char>) -> Result<(TaskId, Seq<char>), DownloadError> {
    download_target_in(w.finished@, text)
}

impl Works {
    /// The task and final name of a downloadable result; arbitrary paths
    /// under the result folder are never exposed.
    pub fn download_name(&self, task_id: &str) -> (r: Result<(TaskId, String), DownloadError>)
        ensures
            match download_target(*self, task_id@) {
                Ok((id, name)) => r matches Ok((rid, rname)) && rid == id && rname@ == name,
                Err(e) => r == Err::<(TaskId, String), DownloadError>(e),
            },
    {
        let id = match parse_uuid(task_id) {
            Some(id) => id,
            None => {
                return Err(DownloadError::BadTaskId);
            },
        };
        match self.finished.get(&id) {
            Some(f) => {
                if f.work_type == WorkType::Encode && f.status == WorkStatus::Succeeded {
                    Ok((id, f.filename.clone()))
                } else {
                    Err(DownloadError::NotAvailable)
                }
            },
            None => Err(DownloadError::NotAvailable),
        }
    }
}

/// What may be downloaded under a path segment, given the finished
/// results (`download_target` over a map).
pub open spec fn download_target_in(finished: Map<TaskId, FinishedWork>, text: Seq<char>) -> Result<
    (TaskId, Seq<char>),
    DownloadError,
> {
    match uuid_parse_spec(text) {
        None => Err(DownloadError::BadTaskId),
        Some(id) => if finished.contains_key(id) && finished[id].work_type == WorkType::Encode
            && finished[id].status == WorkStatus::Succeeded {
            Ok((id, finished[id].filename@))
        } else {
            Err(DownloadError::NotAvailable)
        },
    }
}

/// A successful encode, once published, can be downloaded under its final
/// name; once cleared it no longer can.
pub proof fn law_published_result_downloadable(
    finished: Map<TaskId, FinishedWork>,
    result: FinishedWork,
    text: Seq<char>,
)
    requires
        uuid_parse_spec(text) == Some(result.task_id),
        result.work_type == WorkType::Encode,
        result.status == WorkStatus::Succeeded,
    ensures
        download_target_in(finished.insert(result.task_id, result), text) == Ok::<
            (TaskId, Seq<char>),
            DownloadError,
        >((result.task_id, result.filename@)),
        download_target_in(finished.insert(result.task_id, result).remove(result.task_id), text)
            == Err::<(TaskId, Seq<char>), DownloadError>(DownloadError::NotAvailable),
{
}

/// The `Content-Disposition` text for a result: its final name with each
/// `"` replaced by `_`, quoted.
pub open spec fn disposition_text(name: Seq<char>) -> Seq<char> {
    "attachment; filename=\""@ + name.map_values(|c: char| if c == '"' { '_' } else { c }) + "\""@
}

/// The `Content-Disposition` header value announcing `final_name`.
pub fn content_disposition(final_name: &str) -> (r: String)
    ensures
        r@ == disposition_text(final_name@),
{
    let v = chars_of(final_name);
    let mut safe: Vec<char> = Vec::new();
    let mut i: usize = 0;
    while i < v.len()
        invariant
            i <= v.len(),
            safe@ == v@.take(i as int).map_values(|c: char| if c == '"' { '_' } else { c }),
        decreases v.len() - i,
    {
        let c = v[i];
        safe.push(if c == '"' { '_' } else { c });
        i += 1;
        assert(safe@ =~= v@.take(i as int).map_values(|c: char| if c == '"' { '_' } else { c }));
    }
    assert(v@.take(i as int) =~= v@);
    let mut r = String::from_str("attachment; filename=\"");
    let middle = string_of(safe.as_slice());
    r.append(middle.as_str());
    r.append("\"");
    r
}

} // verus!
