use crate::message::{attributes_view, copies_of, copy_of, Message};
use std::collections::{HashMap, VecDeque};
use vstd::prelude::*;

verus! {

broadcast use vstd::std_specs::hash::group_hash_axioms;

/// How far the failures recorded for one message id have gone.
#[derive(Clone, Copy, Debug, PartialEq, Eq)]
pub enum RetryState {
    /// The id has failed this many times, never more than the retry limit.
    Failing(usize),
    /// The id failed more often than the limit allows and sits in the dead letters.
    DeadLettered,
}

/// Retry state per message id, and the dead letters in insertion order.
pub type DeadLetterModel<T> = (Map<u64, RetryState>, Seq<Message<T>>);

/// Failures recorded for an id before the next one.
pub open spec fn failures_before(st: Option<RetryState>) -> nat {
    match st {
        Some(RetryState::Failing(n)) => n as nat,
        _ => 0,
    }
}

/// The next failure of an id in state `st` moves its message to the dead letters:
/// the count after it exceeds `max`, and the id was not dead-lettered before.
pub open spec fn dead_letters_now(st: Option<RetryState>, max: nat) -> bool {
    st != Some(RetryState::DeadLettered) && failures_before(st) + 1 > max
}

/// The state of an id after one more failure.
pub open spec fn next_retry_state(st: Option<RetryState>, max: nat) -> RetryState {
    if st == Some(RetryState::DeadLettered) || dead_letters_now(st, max) {
        RetryState::DeadLettered
    } else {
        RetryState::Failing((failures_before(st) + 1) as usize)
    }
}

/// The retry state recorded for `id`, if any.
pub open spec fn retry_state_of(retries: Map<u64, RetryState>, id: u64) -> Option<RetryState> {
    if retries.contains_key(id) {
        Some(retries[id])
    } else {
        None
    }
}

/// The model after one failure of `m` under the retry limit `max`.
pub open spec fn after_failure<T>(s: DeadLetterModel<T>, max: nat, m: Message<T>) -> DeadLetterModel<T> {
    let st = retry_state_of(s.0, m.id);
    (
        s.0.insert(m.id, next_retry_state(st, max)),
        if dead_letters_now(st, max) {
            s.1.push(m)
        } else {
            s.1
        },
    )
}

/// The model after `k` failures of the same message `m`.
pub open spec fn after_failures<T>(s: DeadLetterModel<T>, max: nat, m: Message<T>, k: nat) -> DeadLetterModel<T>
    decreases k,
{
    if k == 0 {
        s
    } else {
        after_failure(after_failures(s, max, m, (k - 1) as nat), max, m)
    }
}

/// Every dead letter's id is recorded as dead-lettered, and no id is in the
/// dead letters twice.
pub open spec fn dead_letters_wf<T>(s: DeadLetterModel<T>) -> bool {
    &&& forall|i: int|
        0 <= i < s.1.len() ==> retry_state_of(s.0, #[trigger] s.1[i].id) == Some(
            RetryState::DeadLettered,
        )
    &&& forall|i: int, j: int| 0 <= i < j < s.1.len() ==> #[trigger] s.1[i].id != #[trigger] s.1[j].id
}

/// The model of a newly built queue: no failures, no dead letters.
pub open spec fn fresh_model<T>() -> DeadLetterModel<T> {
    (Map::empty(), Seq::empty())
}

/// Counts failures per message id and holds the messages that failed more
/// often than the retry limit allows.
pub struct DeadLetterQueue<T: Clone> {
    dlq: VecDeque<Message<T>>,
    max_retries: usize,
    retries: HashMap<u64, RetryState>,
}

impl<T: Clone> View for DeadLetterQueue<T> {
    type V = DeadLetterModel<T>;

    closed spec fn view(&self) -> DeadLetterModel<T> {
        (self.retries@, self.dlq@)
    }
}

impl<T: Clone> DeadLetterQueue<T> {
    /// The retry limit, fixed at construction.
    pub closed spec fn spec_max_retries(&self) -> nat {
        self.max_retries as nat
    }

    pub fn new(max_retries: usize) -> (r: Self)
        ensures
            r@ == fresh_model::<T>(),
            dead_letters_wf(r@),
            r.spec_max_retries() == max_retries,
    {
        DeadLetterQueue { dlq: VecDeque::new(), max_retries, retries: HashMap::new() }
    }

    /// The retry limit, fixed at construction.
    pub fn max_retries(&self) -> (r: usize)
        ensures
            r == self.spec_max_retries(),
    {
        self.max_retries
    }

    /// Records one failure of `message`. The failure that takes the count for its
    /// id past the limit appends the message to the dead letters; later failures
    /// of that id change nothing, so an id is dead-lettered at most once.
    pub fn handle_failure(&mut self, message: Message<T>)
        requires
            dead_letters_wf(old(self)@),
        ensures
            final(self).spec_max_retries() == old(self).spec_max_retries(),
            final(self)@ == after_failure(old(self)@, old(self).spec_max_retries(), message),
            dead_letters_wf(final(self)@),
    {
        proof {
            lemma_failure_keeps_dead_letters_wf(self@, self.max_retries as nat, message);
        }
        let ghost st = retry_state_of(self.retries@, message.id);
        let (next, dead) = match self.retries.get(&message.id) {
            Some(RetryState::DeadLettered) => (RetryState::DeadLettered, false),
            Some(RetryState::Failing(n)) => {
                if *n >= self.max_retries {
                    (RetryState::DeadLettered, true)
                } else {
                    (RetryState::Failing(*n + 1), false)
                }
            },
            None => {
                if self.max_retries == 0 {
                    (RetryState::DeadLettered, true)
                } else {
                    (RetryState::Failing(1), false)
                }
            },
        };
        assert(next == next_retry_state(st, self.max_retries as nat));
        assert(dead == dead_letters_now(st, self.max_retries as nat));
        self.retries.insert(message.id, next);
        if dead {
            self.dlq.push_back(message);
        }
    }

    /// Whether messages with id `message_id` have been moved to the dead letters.
    pub fn is_dead_lettered(&self, message_id: u64) -> (r: bool)
        ensures
            r == (retry_state_of(self@.0, message_id) == Some(RetryState::DeadLettered)),
    {
        match self.retries.get(&message_id) {
            Some(RetryState::DeadLettered) => true,
            _ => false,
        }
    }

    /// A snapshot of the dead letters in insertion order: copies, so that the
    /// caller cannot change what the queue holds.
    pub fn get_dead_letters(&self) -> (r: Vec<Message<T>>)
        ensures
            copies_of(self@.1, r@),
    {
        let mut r: Vec<Message<T>> = Vec::new();
        let n = self.dlq.len();
        let mut i: usize = 0;
        while i < n
            invariant
                n == self.dlq@.len(),
                i <= n,
                copies_of(self.dlq@.take(i as int), r@),
            decreases n - i,
        {
            r.push(self.dlq[i].clone());
            i += 1;
        }
        assert(self.dlq@.take(n as int) =~= self.dlq@);
        r
    }
}

/// Under the retry limit `max`, the first `max` failures of a message leave the
/// dead letters empty, and every failure from the one after that on leaves
/// exactly one entry there: the message itself.
pub proof fn lemma_dead_lettered_once_past_limit<T>(max: usize, m: Message<T>, k: nat)
    ensures
        k <= max ==> after_failures(fresh_model::<T>(), max as nat, m, k).1 == Seq::<Message<T>>::empty(),
        k > max ==> after_failures(fresh_model::<T>(), max as nat, m, k).1 == seq![m],
    decreases k,
{
    lemma_retry_state_after_failures(max, m, k);
}

proof fn lemma_retry_state_after_failures<T>(max: usize, m: Message<T>, k: nat)
    ensures
        k == 0 ==> !after_failures(fresh_model::<T>(), max as nat, m, k).0.contains_key(m.id),
        0 < k <= max ==> after_failures(fresh_model::<T>(), max as nat, m, k).0[m.id] == RetryState::Failing(k as usize),
        k > max ==> after_failures(fresh_model::<T>(), max as nat, m, k).0[m.id] == RetryState::DeadLettered,
        0 < k ==> after_failures(fresh_model::<T>(), max as nat, m, k).0.contains_key(m.id),
        k <= max ==> after_failures(fresh_model::<T>(), max as nat, m, k).1 == Seq::<Message<T>>::empty(),
        k > max ==> after_failures(fresh_model::<T>(), max as nat, m, k).1 == seq![m],
    decreases k,
{
    if k > 0 {
        lemma_retry_state_after_failures(max, m, (k - 1) as nat);
        if k == max + 1 {
            assert(Seq::<Message<T>>::empty().push(m) == seq![m]);
        }
    }
}

/// Two snapshots of the same dead letters agree: same length, and the same ids
/// and attributes in the same order, each body a copy of the same stored body.
pub proof fn lemma_dead_letter_snapshots_agree<T: Clone>(
    letters: Seq<Message<T>>,
    r1: Seq<Message<T>>,
    r2: Seq<Message<T>>,
)
    requires
        copies_of(letters, r1),
        copies_of(letters, r2),
    ensures
        r1.len() == r2.len(),
        forall|i: int|
            0 <= i < r1.len() ==> {
                &&& #[trigger] r1[i].id == r2[i].id
                &&& attributes_view(r1[i].attributes) == attributes_view(r2[i].attributes)
                &&& cloned(letters[i].body, r1[i].body)
                &&& cloned(letters[i].body, r2[i].body)
            },
{
    assert forall|i: int| 0 <= i < r1.len() implies {
        &&& #[trigger] r1[i].id == r2[i].id
        &&& attributes_view(r1[i].attributes) == attributes_view(r2[i].attributes)
        &&& cloned(letters[i].body, r1[i].body)
        &&& cloned(letters[i].body, r2[i].body)
    } by {
        assert(copy_of(letters[i], r1[i]));
        assert(copy_of(letters[i], r2[i]));
    }
}

/// A failure keeps the dead letters well formed: in particular a message id is
/// dead-lettered at most once, however often it fails.
pub proof fn lemma_failure_keeps_dead_letters_wf<T>(s: DeadLetterModel<T>, max: nat, m: Message<T>)
    requires
        dead_letters_wf(s),
    ensures
        dead_letters_wf(after_failure(s, max, m)),
{
    let st = retry_state_of(s.0, m.id);
    let t = after_failure(s, max, m);
    assert forall|i: int| 0 <= i < t.1.len() implies retry_state_of(t.0, #[trigger] t.1[i].id) == Some(
        RetryState::DeadLettered,
    ) by {
        if i < s.1.len() {
            assert(t.1[i] == s.1[i]);
            if s.1[i].id == m.id {
                assert(st == Some(RetryState::DeadLettered));
            }
        }
    }
    assert forall|i: int, j: int| 0 <= i < j < t.1.len() implies #[trigger] t.1[i].id
        != #[trigger] t.1[j].id by {
        if j >= s.1.len() {
            assert(t.1[i] == s.1[i]);
            assert(retry_state_of(s.0, s.1[i].id) == Some(RetryState::DeadLettered));
        } else {
            assert(t.1[i] == s.1[i] && t.1[j] == s.1[j]);
        }
    }
}

} // verus!
