//! What the worker reports of its tasks.

use super::{RunningEntry, Works};
use crate::types::{
    keys_of, FinishedResponse, FinishedWork, RunningResponse, RunningWork, TaskId,
};
use vstd::prelude::*;

verus! {

/// `works` lists each running task once, as recorded, in some order.
pub open spec fn lists_running(works: Seq<RunningWork>, running: Map<TaskId, RunningEntry>) -> bool {
    &&& works.len() == running.len()
    &&& forall|i: int|
        0 <= i < works.len() ==> running.contains_key((#[trigger] works[i]).id)
            && running[works[i].id].work == works[i]
    &&& forall|k: TaskId| #[trigger] running.contains_key(k) ==> exists|i: int|
        0 <= i < works.len() && (#[trigger] works[i]).id == k
    &&& forall|i: int, j: int|
        0 <= i < j < works.len() ==> (#[trigger] works[i]).id != (#[trigger] works[j]).id
}

/// `list` holds each finished result once, as recorded, in some order.
pub open spec fn lists_finished(list: Seq<FinishedWork>, finished: Map<TaskId, FinishedWork>) -> bool {
    &&& list.len() == finished.len()
    &&& forall|i: int|
        0 <= i < list.len() ==> finished.contains_key((#[trigger] list[i]).task_id)
            && finished[list[i].task_id] == list[i]
    &&& forall|k: TaskId| #[trigger] finished.contains_key(k) ==> exists|i: int|
        0 <= i < list.len() && (#[trigger] list[i]).task_id == k
    &&& forall|i: int, j: int|
        0 <= i < j < list.len() ==> (#[trigger] list[i]).task_id != (#[trigger] list[j]).task_id
}

impl Works {
    /// The running tasks, and the capacity.
    pub fn running_response(&self, max_works: usize) -> (r: RunningResponse)
        requires
            self.wf(),
        ensures
            r.max_works == max_works,
            lists_running(r.works@, self.running@),
    {
        let ids = keys_of(&self.running);
        let mut works: Vec<RunningWork> = Vec::new();
        let mut i: usize = 0;
        while i < ids.len()
            invariant
                self.wf(),
                i <= ids@.len(),
                ids@.no_duplicates(),
                forall|k: TaskId| ids@.contains(k) <==> self.running@.contains_key(k),
                ids@.len() == self.running@.len(),
                works@.len() == i,
                forall|j: int|
                    0 <= j < i ==> (#[trigger] works@[j]).id == ids@[j]
                        && self.running@.contains_key(ids@[j]) && self.running@[ids@[j]].work
                        == works@[j],
            decreases ids@.len() - i,
        {
            let id = ids[i];
            assert(ids@.contains(id));
            match self.running.get(&id) {
                Some(e) => {
                    works.push(e.work.clone());
                },
                None => {
                    assert(false);
                },
            }
            i += 1;
        }
        proof {
            assert forall|k: TaskId| #[trigger] self.running@.contains_key(k) implies exists|j: int|
                0 <= j < works@.len() && (#[trigger] works@[j]).id == k by {
                assert(ids@.contains(k));
                let j = choose|j: int| 0 <= j < ids@.len() && ids@[j] == k;
                assert(works@[j].id == k);
            }
            assert forall|a: int, b: int| 0 <= a < b < works@.len() implies (#[trigger] works@[a]).id
                != (#[trigger] works@[b]).id by {
                assert(works@[a].id == ids@[a] && works@[b].id == ids@[b]);
            }
        }
        RunningResponse { works, max_works }
    }

    /// The finished results.
    pub fn finished_response(&self) -> (r: FinishedResponse)
        requires
            self.wf(),
        ensures
            lists_finished(r.finished@, self.finished@),
    {
        let ids = keys_of(&self.finished);
        let mut list: Vec<FinishedWork> = Vec::new();
        let mut i: usize = 0;
        while i < ids.len()
            invariant
                self.wf(),
                i <= ids@.len(),
                ids@.no_duplicates(),
                forall|k: TaskId| ids@.contains(k) <==> self.finished@.contains_key(k),
                ids@.len() == self.finished@.len(),
                list@.len() == i,
                forall|j: int|
                    0 <= j < i ==> (#[trigger] list@[j]).task_id == ids@[j]
                        && self.finished@.contains_key(ids@[j]) && self.finished@[ids@[j]]
                        == list@[j],
            decreases ids@.len() - i,
        {
            let id = ids[i];
            assert(ids@.contains(id));
            match self.finished.get(&id) {
                Some(f) => {
                    list.push(f.clone());
                },
                None => {
                    assert(false);
                },
            }
            i += 1;
        }
        proof {
            assert forall|k: TaskId| #[trigger] self.finished@.contains_key(k) implies exists|j: int|
                0 <= j < list@.len() && (#[trigger] list@[j]).task_id == k by {
                assert(ids@.contains(k));
                let j = choose|j: int| 0 <= j < ids@.len() && ids@[j] == k;
                assert(list@[j].task_id == k);
            }
            assert forall|a: int, b: int| 0 <= a < b < list@.len() implies (#[trigger] list@[a]).task_id
                != (#[trigger] list@[b]).task_id by {
                assert(list@[a].task_id == ids@[a] && list@[b].task_id == ids@[b]);
            }
        }
        FinishedResponse { finished: list }
    }
}

} // verus!
