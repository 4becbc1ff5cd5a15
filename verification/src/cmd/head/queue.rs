//! FIFO queues, encode priority and worker affinity.

use crate::types::{copy_strings, TaskId, WorkType};
use std::collections::VecDeque;
use vstd::prelude::*;

verus! {

/// How many failed attempts a task may consume before it is given up.
pub const MAX_ATTEMPTS: u32 = 3;

#[derive(Debug)]
pub struct Task {
    /// Stable identifier chosen by the head; kept across retries.
    pub id: TaskId,
    pub filename: String,
    pub work_type: WorkType,
    pub arguments: Vec<String>,
    /// Attempts consumed (process failures or refusals).
    pub attempts: u32,
    /// Index of the preferred worker (e.g. after an ambiguous answer, or
    /// after a CRF search whose upload already sits on that worker).
    pub affinity: Option<usize>,
}

/// Two tasks that agree in every field (the argument lists by content).
pub open spec fn same_task(a: Task, b: Task) -> bool {
    &&& a.id == b.id
    &&& a.filename == b.filename
    &&& a.work_type == b.work_type
    &&& a.arguments@ == b.arguments@
    &&& a.attempts == b.attempts
    &&& a.affinity == b.affinity
}

impl Clone for Task {
    fn clone(&self) -> (r: Self)
        ensures
            same_task(r, *self),
    {
        Task {
            id: self.id,
            filename: self.filename.clone(),
            work_type: self.work_type,
            arguments: copy_strings(&self.arguments),
            attempts: self.attempts,
            affinity: self.affinity,
        }
    }
}

/// `Uuid::new_v4().as_u128()`: a fresh random identifier. Nothing is
/// claimed of the value.
#[verifier::external_body]
fn new_task_id() -> TaskId {
    uuid::Uuid::new_v4().as_u128()
}

impl Task {
    /// A fresh task with a random identifier, no attempts and no affinity.
    pub fn new(filename: String, work_type: WorkType, arguments: Vec<String>) -> (t: Task)
        ensures
            t.filename == filename,
            t.work_type == work_type,
            t.arguments == arguments,
            t.attempts == 0,
            t.affinity is None,
    {
        Task { id: new_task_id(), filename, work_type, arguments, attempts: 0, affinity: None }
    }
}

/// Queue A: CRF searches. Queue B: encodes, which go first.
pub struct Queues {
    pub crf: VecDeque<Task>,
    pub encode: VecDeque<Task>,
}

impl Default for Queues {
    fn default() -> (q: Self)
        ensures
            q.crf@ == Seq::<Task>::empty(),
            q.encode@ == Seq::<Task>::empty(),
    {
        Queues { crf: VecDeque::new(), encode: VecDeque::new() }
    }
}

// ---------------------------------------------------------------------
// Specifications
// ---------------------------------------------------------------------

/// `i` is the first position of `q` whose task has affinity `a`.
pub open spec fn is_first_with(q: Seq<Task>, a: Option<usize>, i: int) -> bool {
    &&& 0 <= i < q.len()
    &&& q[i].affinity == a
    &&& forall|j: int| 0 <= j < i ==> (#[trigger] q[j]).affinity != a
}

pub open spec fn first_with(q: Seq<Task>, a: Option<usize>) -> Option<int> {
    if exists|i: int| is_first_with(q, a, i) {
        Some(choose|i: int| is_first_with(q, a, i))
    } else {
        None
    }
}

/// The position a worker takes from a queue: the first task pinned to it,
/// else the first task pinned to nobody.
pub open spec fn pick(q: Seq<Task>, worker: usize) -> Option<int> {
    match first_with(q, Some(worker)) {
        Some(i) => Some(i),
        None => first_with(q, None),
    }
}

/// `i` is the first position of `q` holding task `id`.
pub open spec fn is_first_id(q: Seq<Task>, id: TaskId, i: int) -> bool {
    &&& 0 <= i < q.len()
    &&& q[i].id == id
    &&& forall|j: int| 0 <= j < i ==> (#[trigger] q[j]).id != id
}

pub open spec fn first_id(q: Seq<Task>, id: TaskId) -> Option<int> {
    if exists|i: int| is_first_id(q, id, i) {
        Some(choose|i: int| is_first_id(q, id, i))
    } else {
        None
    }
}

/// What `pop_for` does to a pair of queues: the task it hands out, if
/// any, and the queues after.
pub open spec fn pop_for_spec(encode: Seq<Task>, crf: Seq<Task>, worker: usize) -> (
    Option<Task>,
    Seq<Task>,
    Seq<Task>,
) {
    match pick(encode, worker) {
        Some(i) => (Some(encode[i]), encode.remove(i), crf),
        None => match pick(crf, worker) {
            Some(i) => (Some(crf[i]), encode, crf.remove(i)),
            None => (None, encode, crf),
        },
    }
}

/// What `remove` does to a pair of queues: the first task `id` among the
/// encodes, else among the CRF searches, taken out.
pub open spec fn remove_spec(encode: Seq<Task>, crf: Seq<Task>, id: TaskId) -> (
    Option<Task>,
    Seq<Task>,
    Seq<Task>,
) {
    match first_id(encode, id) {
        Some(i) => (Some(encode[i]), encode.remove(i), crf),
        None => match first_id(crf, id) {
            Some(i) => (Some(crf[i]), encode, crf.remove(i)),
            None => (None, encode, crf),
        },
    }
}

// ---------------------------------------------------------------------
// Lemmas
// ---------------------------------------------------------------------

proof fn lemma_first_with_unique(q: Seq<Task>, a: Option<usize>, i: int)
    requires
        is_first_with(q, a, i),
    ensures
        first_with(q, a) == Some(i),
{
    let k = choose|k: int| is_first_with(q, a, k);
    assert(is_first_with(q, a, k));
    if k < i {
        assert(q[k].affinity == a);
    } else if i < k {
        assert(q[i].affinity == a);
    }
}

proof fn lemma_first_id_unique(q: Seq<Task>, id: TaskId, i: int)
    requires
        is_first_id(q, id, i),
    ensures
        first_id(q, id) == Some(i),
{
    let k = choose|k: int| is_first_id(q, id, k);
    assert(is_first_id(q, id, k));
    if k < i {
        assert(q[k].id == id);
    } else if i < k {
        assert(q[i].id == id);
    }
}

/// What a worker takes from a queue is pinned to it or to nobody.
pub proof fn lemma_pick_respects_affinity(q: Seq<Task>, worker: usize)
    ensures
        pick(q, worker) matches Some(i) ==> 0 <= i < q.len() && (q[i].affinity == Some(worker)
            || q[i].affinity is None),
{
    match first_with(q, Some(worker)) {
        Some(i) => {
            let k = choose|k: int| is_first_with(q, Some(worker), k);
            assert(is_first_with(q, Some(worker), k));
        },
        None => {
            if first_with(q, None) is Some {
                let k = choose|k: int| is_first_with(q, None, k);
                assert(is_first_with(q, None, k));
            }
        },
    }
}

/// A worker finds nothing in a queue exactly when every task of it is
/// pinned to some other worker.
pub proof fn lemma_pick_none(q: Seq<Task>, worker: usize)
    ensures
        pick(q, worker) is None <==> forall|i: int|
            0 <= i < q.len() ==> (#[trigger] q[i]).affinity is Some && q[i].affinity != Some(
                worker,
            ),
{
    if pick(q, worker) is None {
        assert forall|i: int| 0 <= i < q.len() implies (#[trigger] q[i]).affinity is Some
            && q[i].affinity != Some(worker) by {
            if q[i].affinity == Some(worker) {
                lemma_exists_first_with(q, Some(worker), i);
            }
            if q[i].affinity is None {
                lemma_exists_first_with(q, None, i);
            }
        }
    } else {
        lemma_pick_respects_affinity(q, worker);
    }
}

/// Where some task has affinity `a`, a first one exists.
proof fn lemma_exists_first_with(q: Seq<Task>, a: Option<usize>, i: int)
    requires
        0 <= i < q.len(),
        q[i].affinity == a,
    ensures
        first_with(q, a) is Some,
    decreases i,
{
    if exists|j: int| 0 <= j < i && (#[trigger] q[j]).affinity == a {
        let j = choose|j: int| 0 <= j < i && (#[trigger] q[j]).affinity == a;
        lemma_exists_first_with(q, a, j);
    } else {
        assert(is_first_with(q, a, i));
    }
}

// ---------------------------------------------------------------------
// Executable functions
// ---------------------------------------------------------------------

fn position_with(q: &VecDeque<Task>, a: Option<usize>) -> (r: Option<usize>)
    ensures
        r matches Some(i) ==> first_with(q@, a) == Some(i as int),
        r is None ==> first_with(q@, a) is None,
{
    let mut i: usize = 0;
    while i < q.len()
        invariant
            i <= q@.len(),
            forall|j: int| 0 <= j < i ==> (#[trigger] q@[j]).affinity != a,
        decreases q@.len() - i,
    {
        let same = match (q[i].affinity, a) {
            (Some(x), Some(y)) => x == y,
            (None, None) => true,
            _ => false,
        };
        if same {
            proof {
                lemma_first_with_unique(q@, a, i as int);
            }
            return Some(i);
        }
        i += 1;
    }
    proof {
        if exists|k: int| is_first_with(q@, a, k) {
            let k = choose|k: int| is_first_with(q@, a, k);
            assert(q@[k].affinity == a);
        }
    }
    None
}

/// Takes from `q` the task `worker` should run next: the first pinned to
/// it, else the first pinned to nobody.
fn pop_from(q: &mut VecDeque<Task>, worker: usize) -> (r: Option<Task>)
    ensures
        match pick(old(q)@, worker) {
            Some(i) => r == Some(old(q)@[i]) && final(q)@ == old(q)@.remove(i),
            None => r is None && final(q)@ == old(q)@,
        },
        (exists|i: int| 0 <= i < old(q)@.len() && (#[trigger] old(q)@[i]).affinity == Some(worker))
            ==> (r matches Some(t) && t.affinity == Some(worker)),
{
    proof {
        if exists|i: int| 0 <= i < q@.len() && (#[trigger] q@[i]).affinity == Some(worker) {
            let i = choose|i: int| 0 <= i < q@.len() && (#[trigger] q@[i]).affinity == Some(worker);
            law_pinned_task_first(q@, worker, i);
        }
    }
    let pos = match position_with(q, Some(worker)) {
        Some(p) => p,
        None => match position_with(q, None) {
            Some(p) => p,
            None => {
                return None;
            },
        },
    };
    q.remove(pos)
}

impl Queues {
    /// The next task `worker` can run: encodes before CRF searches; within
    /// a queue, the first task pinned to this worker, else the first pinned
    /// to nobody.
    pub fn pop_for(&mut self, worker: usize) -> (r: Option<Task>)
        ensures
            (r, final(self).encode@, final(self).crf@) == pop_for_spec(
                old(self).encode@,
                old(self).crf@,
                worker,
            ),
            r matches Some(t) ==> t.affinity is None || t.affinity == Some(worker),
            (exists|i: int|
                0 <= i < old(self).encode@.len() && (#[trigger] old(self).encode@[i]).affinity
                    == Some(worker)) ==> (r matches Some(t) && t.affinity == Some(worker)),
            r matches Some(t) && t.affinity is None ==> forall|i: int|
                0 <= i < old(self).encode@.len() ==> (#[trigger] old(self).encode@[i]).affinity
                    != Some(worker),
    {
        proof {
            lemma_pick_respects_affinity(self.encode@, worker);
            lemma_pick_respects_affinity(self.crf@, worker);
            lemma_pick_none(self.encode@, worker);
            law_unpinned_only_when_none_pinned(self.encode@, worker);
            if exists|i: int|
                0 <= i < self.encode@.len() && (#[trigger] self.encode@[i]).affinity == Some(worker) {
                let i = choose|i: int|
                    0 <= i < self.encode@.len() && (#[trigger] self.encode@[i]).affinity == Some(worker);
                law_pinned_task_first(self.encode@, worker, i);
            }
        }
        match pop_from(&mut self.encode, worker) {
            Some(t) => Some(t),
            None => pop_from(&mut self.crf, worker),
        }
    }

    /// Puts a task back at the front of the queue of its kind.
    pub fn requeue_front(&mut self, task: Task)
        ensures
            task.work_type == WorkType::Encode ==> final(self).encode@ == seq![task] + old(self).encode@ && final(self).crf@ == old(self).crf@,
            task.work_type == WorkType::CrfSearch ==> final(self).crf@ == seq![task] + old(self).crf@ && final(self).encode@ == old(self).encode@,
    {
        match task.work_type {
            WorkType::Encode => self.encode.push_front(task),
            WorkType::CrfSearch => self.crf.push_front(task),
        }
    }

    /// Takes task `id` out of the queues (encodes searched first).
    pub fn remove(&mut self, id: &TaskId) -> (r: Option<Task>)
        ensures
            (r, final(self).encode@, final(self).crf@) == remove_spec(
                old(self).encode@,
                old(self).crf@,
                *id,
            ),
    {
        match position_of_id(&self.encode, *id) {
            Some(p) => self.encode.remove(p),
            None => match position_of_id(&self.crf, *id) {
                Some(p) => self.crf.remove(p),
                None => None,
            },
        }
    }

    /// Whether no task is waiting.
    pub fn is_empty(&self) -> (r: bool)
        ensures
            r == (self.crf@.len() == 0 && self.encode@.len() == 0),
    {
        self.crf.len() == 0 && self.encode.len() == 0
    }
}

fn position_of_id(q: &VecDeque<Task>, id: TaskId) -> (r: Option<usize>)
    ensures
        r matches Some(i) ==> first_id(q@, id) == Some(i as int),
        r is None ==> first_id(q@, id) is None,
{
    let mut i: usize = 0;
    while i < q.len()
        invariant
            i <= q@.len(),
            forall|j: int| 0 <= j < i ==> (#[trigger] q@[j]).id != id,
        decreases q@.len() - i,
    {
        if q[i].id == id {
            proof {
                lemma_first_id_unique(q@, id, i as int);
            }
            return Some(i);
        }
        i += 1;
    }
    proof {
        if exists|k: int| is_first_id(q@, id, k) {
            let k = choose|k: int| is_first_id(q@, id, k);
            assert(q@[k].id == id);
        }
    }
    None
}

// ---------------------------------------------------------------------
// Laws
// ---------------------------------------------------------------------

/// Encodes go first: a CRF search is handed to a worker only when no
/// encode in the queue can go to that worker.
pub proof fn law_encode_priority(encode: Seq<Task>, crf: Seq<Task>, worker: usize)
    ensures
        pop_for_spec(encode, crf, worker).2 != crf ==> forall|i: int|
            0 <= i < encode.len() ==> (#[trigger] encode[i]).affinity is Some
                && encode[i].affinity != Some(worker),
{
    lemma_pick_none(encode, worker);
}

/// A task is never handed to a worker other than the one it is pinned to.
pub proof fn law_affinity_respected(encode: Seq<Task>, crf: Seq<Task>, worker: usize)
    ensures
        pop_for_spec(encode, crf, worker).0 matches Some(t) ==> t.affinity is None || t.affinity
            == Some(worker),
{
    lemma_pick_respects_affinity(encode, worker);
    lemma_pick_respects_affinity(crf, worker);
}

/// A task put back at the front, pinned to a worker, is the next task that
/// worker takes from that queue.
pub proof fn law_requeued_task_comes_back(q: Seq<Task>, task: Task, worker: usize)
    requires
        task.affinity == Some(worker),
    ensures
        pick(seq![task] + q, worker) == Some(0int),
{
    lemma_first_with_unique(seq![task] + q, Some(worker), 0);
}

/// Taking a task keeps every other one: the queues after, with the task
/// taken, hold what they held before.
pub proof fn law_pop_keeps_tasks(encode: Seq<Task>, crf: Seq<Task>, worker: usize)
    ensures
        ({
            let (t, e, c) = pop_for_spec(encode, crf, worker);
            match t {
                Some(task) => (e + c).to_multiset().insert(task) == (encode + crf).to_multiset(),
                None => e == encode && c == crf,
            }
        }),
{
    broadcast use vstd::seq_lib::group_to_multiset_ensures;

    lemma_pick_respects_affinity(encode, worker);
    lemma_pick_respects_affinity(crf, worker);
    vstd::seq_lib::lemma_multiset_commutative(encode, crf);
    match pick(encode, worker) {
        Some(i) => {
            vstd::seq_lib::lemma_multiset_commutative(encode.remove(i), crf);
            encode.to_multiset_ensures();
        },
        None => match pick(crf, worker) {
            Some(i) => {
                vstd::seq_lib::lemma_multiset_commutative(encode, crf.remove(i));
                crf.to_multiset_ensures();
            },
            None => {},
        },
    }
}

/// A worker takes from a queue the first task pinned to it whenever the
/// queue holds one (here the one at `i`): what it takes is pinned to it,
/// comes no later than `i`, and no task before it is pinned to it.
pub proof fn law_pinned_task_first(q: Seq<Task>, worker: usize, i: int)
    requires
        0 <= i < q.len(),
        q[i].affinity == Some(worker),
    ensures
        pick(q, worker) is Some,
        ({
            let j = pick(q, worker)->0;
            &&& 0 <= j <= i
            &&& q[j].affinity == Some(worker)
            &&& forall|k: int| 0 <= k < j ==> (#[trigger] q[k]).affinity != Some(worker)
        }),
{
    lemma_exists_first_with(q, Some(worker), i);
    let j = choose|j: int| is_first_with(q, Some(worker), j);
    assert(is_first_with(q, Some(worker), j));
}

/// A task pinned to nobody is taken only when no task of the queue is
/// pinned to the worker, and then it is the first unpinned task.
pub proof fn law_unpinned_only_when_none_pinned(q: Seq<Task>, worker: usize)
    ensures
        match pick(q, worker) {
            Some(j) => q[j].affinity is None ==> (forall|i: int|
                0 <= i < q.len() ==> (#[trigger] q[i]).affinity != Some(worker)) && (forall|k: int|
                0 <= k < j ==> (#[trigger] q[k]).affinity is Some),
            None => true,
        },
{
    match first_with(q, Some(worker)) {
        Some(m) => {
            let c = choose|c: int| is_first_with(q, Some(worker), c);
            assert(is_first_with(q, Some(worker), c));
        },
        None => {
            if first_with(q, None) is Some {
                let c = choose|c: int| is_first_with(q, None, c);
                assert(is_first_with(q, None, c));
            }
            assert forall|i: int| 0 <= i < q.len() implies (#[trigger] q[i]).affinity != Some(
                worker,
            ) by {
                if q[i].affinity == Some(worker) {
                    lemma_exists_first_with(q, Some(worker), i);
                }
            }
        },
    }
}

/// `pop_for` hands a worker the first encode pinned to it whenever the
/// encode queue holds one (here the one at `i`).
pub proof fn law_pop_for_takes_pinned_encode(encode: Seq<Task>, crf: Seq<Task>, worker: usize, i: int)
    requires
        0 <= i < encode.len(),
        encode[i].affinity == Some(worker),
    ensures
        pop_for_spec(encode, crf, worker).0 is Some,
        ({
            let t = pop_for_spec(encode, crf, worker).0->0;
            &&& t.affinity == Some(worker)
            &&& exists|j: int|
                0 <= j <= i && t == encode[j] && forall|k: int|
                    0 <= k < j ==> (#[trigger] encode[k]).affinity != Some(worker)
        }),
{
    law_pinned_task_first(encode, worker, i);
    let j = pick(encode, worker)->0;
    assert(pop_for_spec(encode, crf, worker).0->0 == encode[j]);
}

} // verus!
