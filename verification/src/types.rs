//! Messages exchanged between head and worker, and the clock.
//!
//! Task identifiers are UUIDs, held here as their 128-bit value.

use std::collections::HashMap;
use vstd::prelude::*;

verus! {

/// A task's identifier: the 128-bit value of its UUID.
pub type TaskId = u128;

/// Metadata of a CRF search meaning that ab-av1 found no suitable CRF;
/// the head then copies the input video to the output unchanged.
pub const NO_CRF_METADATA: &'static str = "no-suitable-crf";

#[derive(Debug, Clone, Copy, PartialEq, Eq, Structural)]
pub enum WorkType {
    CrfSearch,
    Encode,
}

#[derive(Debug, Clone, Copy, PartialEq, Eq, Structural)]
pub enum WorkStatus {
    Succeeded,
    Failed,
}

/// Work request sent by the head to a worker.
#[derive(Debug)]
pub struct WorkRequest {
    pub task_id: TaskId,
    pub filename: String,
    pub arguments: Vec<String>,
    pub container: String,
}

#[derive(Debug)]
pub struct RunningWork {
    pub id: TaskId,
    pub work_type: WorkType,
    pub filename: String,
    pub start_time: u64,
}

#[derive(Debug)]
pub struct RunningResponse {
    pub works: Vec<RunningWork>,
    pub max_works: usize,
}

#[derive(Debug)]
pub struct FinishedWork {
    pub task_id: TaskId,
    pub work_type: WorkType,
    /// Final name the result must have on the head (e.g. "pelicula.mp4").
    pub filename: String,
    /// For a CRF search: the CRF found (or `NO_CRF_METADATA`). For an
    /// encode: empty.
    pub metadata: String,
    pub status: WorkStatus,
    pub error: String,
}

#[derive(Debug)]
pub struct FinishedResponse {
    pub finished: Vec<FinishedWork>,
}

#[derive(Debug)]
pub struct LoadedResponse {
    pub files: Vec<String>,
}

#[derive(Debug, Clone, Copy)]
pub struct ClearRequest {
    pub task_id: TaskId,
}

#[derive(Debug)]
pub struct ErrorResponse {
    pub error: String,
}

/// The keys of a map keyed by task identifier, each once, in the map's
/// order; as many as the map holds.
pub fn keys_of<V>(m: &HashMap<TaskId, V>) -> (r: Vec<TaskId>)
    ensures
        r@.no_duplicates(),
        forall|k: TaskId| r@.contains(k) <==> m@.contains_key(k),
        r@.len() == m@.len(),
{
    let mut ids: Vec<TaskId> = Vec::new();
    for k in it: m.keys()
        invariant
            ids@.len() == it.index(),
            it.seq().len() == m@.len(),
            it.seq().no_duplicates(),
            it.seq().unref().to_set() == m@.dom(),
            forall|i: int| 0 <= i < ids@.len() ==> (#[trigger] ids@[i]) == *it.seq()[i],
            forall|i: int| 0 <= i < ids@.len() ==> m@.contains_key(#[trigger] ids@[i]),
            ids@.no_duplicates(),
            forall|kk: TaskId| #[trigger]
                m@.contains_key(kk) ==> ids@.contains(kk) || (exists|j: int|
                    it.index() <= j < it.seq().len() && it.seq().unref()[j] == kk),
    {
        let ghost n = it.index();
        proof {
            assert(it.seq().unref()[n] == *it.seq()[n]);
            assert(it.seq().unref().to_set().contains(*k));
        }
        let ghost before = ids@;
        ids.push(*k);
        proof {
            assert forall|i: int, j: int| 0 <= i < j < ids@.len() implies ids@[i] != ids@[j] by {
                if j == n {
                    assert(ids@[i] == before[i]);
                    assert(it.seq()[i] != it.seq()[n]);
                } else {
                    assert(ids@[i] == before[i]);
                    assert(ids@[j] == before[j]);
                }
            }
            assert forall|kk: TaskId| #[trigger] m@.contains_key(kk) implies ids@.contains(kk)
                || (exists|j: int| n + 1 <= j < it.seq().len() && it.seq().unref()[j] == kk) by {
                if before.contains(kk) {
                    let i = choose|i: int| 0 <= i < before.len() && before[i] == kk;
                    assert(ids@[i] == kk);
                } else {
                    let j = choose|j: int| n <= j < it.seq().len() && it.seq().unref()[j] == kk;
                    if j == n {
                        assert(ids@[n] == kk);
                    }
                }
            }
        }
    }
    proof {
        assert(ids@.to_set() =~= m@.dom());
        ids@.unique_seq_to_set();
    }
    ids
}

/// A copy of a list of strings.
pub fn copy_strings(v: &Vec<String>) -> (r: Vec<String>)
    ensures
        r@ == v@,
{
    let mut r: Vec<String> = Vec::new();
    let mut i: usize = 0;
    while i < v.len()
        invariant
            i <= v.len(),
            r@ == v@.take(i as int),
        decreases v.len() - i,
    {
        r.push(v[i].clone());
        i += 1;
        assert(r@ =~= v@.take(i as int));
    }
    assert(v@.take(i as int) =~= v@);
    r
}

impl Clone for RunningWork {
    fn clone(&self) -> (r: Self)
        ensures
            r == *self,
    {
        RunningWork {
            id: self.id,
            work_type: self.work_type,
            filename: self.filename.clone(),
            start_time: self.start_time,
        }
    }
}

impl Clone for FinishedWork {
    fn clone(&self) -> (r: Self)
        ensures
            r == *self,
    {
        FinishedWork {
            task_id: self.task_id,
            work_type: self.work_type,
            filename: self.filename.clone(),
            metadata: self.metadata.clone(),
            status: self.status,
            error: self.error.clone(),
        }
    }
}

impl Clone for WorkRequest {
    fn clone(&self) -> (r: Self)
        ensures
            r.task_id == self.task_id,
            r.filename == self.filename,
            r.arguments@ == self.arguments@,
            r.container == self.container,
    {
        WorkRequest {
            task_id: self.task_id,
            filename: self.filename.clone(),
            arguments: copy_strings(&self.arguments),
            container: self.container.clone(),
        }
    }
}

/// The lowercase hexadecimal digit for a value below 16.
pub open spec fn hex_char(n: nat) -> char {
    seq!['0', '1', '2', '3', '4', '5', '6', '7', '8', '9', 'a', 'b', 'c', 'd', 'e', 'f'][n as int]
}

/// The last `len` hexadecimal digits of `n`, most significant first.
pub open spec fn hex_digits(n: nat, len: nat) -> Seq<char>
    decreases len,
{
    if len == 0 {
        Seq::empty()
    } else {
        hex_digits(n / 16, (len - 1) as nat).push(hex_char(n % 16))
    }
}

/// 16 to the power `len`.
pub open spec fn pow16(len: nat) -> nat
    decreases len,
{
    if len == 0 {
        1
    } else {
        16 * pow16((len - 1) as nat)
    }
}

/// The text `Uuid` gives an identifier (`Uuid::from_u128`, then its
/// `Display`, the hyphenated lowercase form): its 32 hexadecimal digits,
/// most significant first, grouped 8-4-4-4-12 by hyphens.
pub open spec fn uuid_text_spec(id: u128) -> Seq<char> {
    let h = hex_digits(id as nat, 32);
    h.subrange(0, 8) + seq!['-'] + h.subrange(8, 12) + seq!['-'] + h.subrange(12, 16) + seq!['-']
        + h.subrange(16, 20) + seq!['-'] + h.subrange(20, 32)
}

proof fn lemma_hex_digits_len(n: nat, len: nat)
    ensures
        hex_digits(n, len).len() == len,
        forall|i: int| 0 <= i < len ==> #[trigger] hex_digits(n, len)[i] != '-' && hex_digits(
            n,
            len,
        )[i] != '.',
    decreases len,
{
    if len > 0 {
        lemma_hex_digits_len(n / 16, (len - 1) as nat);
        let t = seq!['0', '1', '2', '3', '4', '5', '6', '7', '8', '9', 'a', 'b', 'c', 'd', 'e', 'f'];
        assert(hex_char(n % 16) == t[(n % 16) as int]);
    }
}

proof fn lemma_hex_char_injective(a: nat, b: nat)
    requires
        a < 16,
        b < 16,
        hex_char(a) == hex_char(b),
    ensures
        a == b,
{
}

proof fn lemma_hex_digits_injective(a: nat, b: nat, len: nat)
    requires
        a < pow16(len),
        b < pow16(len),
        hex_digits(a, len) == hex_digits(b, len),
    ensures
        a == b,
    decreases len,
{
    if len > 0 {
        let ha = hex_digits(a, len);
        let hb = hex_digits(b, len);
        assert(ha.last() == hb.last());
        lemma_hex_char_injective(a % 16, b % 16);
        assert(ha.drop_last() =~= hex_digits(a / 16, (len - 1) as nat));
        assert(hb.drop_last() =~= hex_digits(b / 16, (len - 1) as nat));
        let p = pow16((len - 1) as nat);
        assert(a / 16 < p && b / 16 < p) by (nonlinear_arith)
            requires
                a < 16 * p,
                b < 16 * p,
        ;
        lemma_hex_digits_injective(a / 16, b / 16, (len - 1) as nat);
        assert(a == 16 * (a / 16) + a % 16 && b == 16 * (b / 16) + b % 16) by (nonlinear_arith);
    }
}

/// Two identifiers have the same text only if they are the same: the text
/// `Uuid` gives is one-to-one.
pub proof fn lemma_uuid_text_injective(a: u128, b: u128)
    requires
        uuid_text_spec(a) == uuid_text_spec(b),
    ensures
        a == b,
{
    let ha = hex_digits(a as nat, 32);
    let hb = hex_digits(b as nat, 32);
    lemma_hex_digits_len(a as nat, 32);
    lemma_hex_digits_len(b as nat, 32);
    let ta = uuid_text_spec(a);
    let tb = uuid_text_spec(b);
    assert(ha =~= ta.subrange(0, 8) + ta.subrange(9, 13) + ta.subrange(14, 18) + ta.subrange(19, 23)
        + ta.subrange(24, 36));
    assert(hb =~= tb.subrange(0, 8) + tb.subrange(9, 13) + tb.subrange(14, 18) + tb.subrange(19, 23)
        + tb.subrange(24, 36));
    assert(pow16(32) == 0x1_0000_0000_0000_0000_0000_0000_0000_0000) by {
        reveal_with_fuel(pow16, 33);
    }
    lemma_hex_digits_injective(a as nat, b as nat, 32);
}

/// The text of an identifier has 36 characters, and only its hyphens at
/// 8, 13, 18 and 23 are `-`; none is `.`.
pub proof fn lemma_uuid_text_shape(id: u128)
    ensures
        uuid_text_spec(id).len() == 36,
        forall|i: int| 0 <= i < 36 ==> #[trigger] uuid_text_spec(id)[i] != '.',
        uuid_text_spec(id)[0] != '-',
{
    lemma_hex_digits_len(id as nat, 32);
    let h = hex_digits(id as nat, 32);
    let t = uuid_text_spec(id);
    assert forall|i: int| 0 <= i < 36 implies #[trigger] t[i] != '.' by {
        if i < 8 {
            assert(t[i] == h[i]);
        } else if i == 8 || i == 13 || i == 18 || i == 23 {
        } else if i < 13 {
            assert(t[i] == h[i - 1]);
        } else if i < 18 {
            assert(t[i] == h[i - 2]);
        } else if i < 23 {
            assert(t[i] == h[i - 3]);
        } else {
            assert(t[i] == h[i - 4]);
        }
    }
    assert(t[0] == h[0]);
}

/// `Uuid::from_u128(id).to_string()`: the hyphenated lowercase text above.
#[verifier::external_body]
pub(crate) fn uuid_text(id: TaskId) -> (s: String)
    ensures
        s@ == uuid_text_spec(id),
{
    uuid::Uuid::from_u128(id).to_string()
}

/// The identifier `Uuid::parse_str` reads from a text, if it reads one
/// (hyphenated, simple, URN or braced forms).
pub uninterp spec fn uuid_parse_spec(text: Seq<char>) -> Option<u128>;

/// `Uuid::parse_str(text)`, its value as `u128`: the result is the name
/// above applied to `text`; the hyphenated text of an identifier reads back
/// as that identifier.
#[verifier::external_body]
pub(crate) fn parse_uuid(text: &str) -> (r: Option<TaskId>)
    ensures
        r == uuid_parse_spec(text@),
        forall|id: u128| text@ == uuid_text_spec(id) ==> r == Some(id),
{
    match uuid::Uuid::parse_str(text) {
        Ok(u) => Some(u.as_u128()),
        Err(_) => None,
    }
}

/// `std::time::SystemTime`, carried through opaque.
#[verifier::external_type_specification]
#[verifier::external_body]
pub struct ExSystemTime(std::time::SystemTime);

/// `SystemTime::now`: the current wall-clock time. Nothing is claimed of
/// the value.
#[verifier::external_body]
fn system_now() -> std::time::SystemTime {
    std::time::SystemTime::now()
}

/// `SystemTime::duration_since(UNIX_EPOCH)`, in whole seconds; `None` for a
/// time before the epoch. Nothing is claimed of the value.
#[verifier::external_body]
fn whole_secs_since_epoch(t: std::time::SystemTime) -> Option<u64> {
    t.duration_since(std::time::UNIX_EPOCH).ok().map(|d| d.as_secs())
}

/// The seconds since the epoch, when the clock reads a time after it;
/// else 0.
pub fn secs_or_zero(secs: Option<u64>) -> (r: u64)
    ensures
        r == match secs {
            Some(s) => s,
            None => 0,
        },
{
    match secs {
        Some(s) => s,
        None => 0,
    }
}

/// Seconds since the Unix epoch, or 0 when the clock is set before it. The
/// clock's reading itself is not stated; what is done with it is
/// `secs_or_zero`.
pub fn now_unix() -> u64 {
    secs_or_zero(whole_secs_since_epoch(system_now()))
}

} // verus!
