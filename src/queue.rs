use crate::dead_letter_queue::{
    after_failure, dead_letters_wf, retry_state_of, DeadLetterQueue, RetryState,
};
use crate::message::{attributes_view, copies_of, copy_of, has_attribute, Message};
use crate::visibility::{duration_nanos, lease_expiry, visible_at, VisibilityControl};
use std::collections::{HashMap, VecDeque};
use std::time::Duration;
use vstd::prelude::*;

verus! {

broadcast use vstd::std_specs::vecdeque::group_vec_dequeue_axioms;

/// What one receive does to a backlog: the head, if any, and the backlog after it.
pub open spec fn received<T>(q: Seq<Message<T>>) -> (Option<Message<T>>, Seq<Message<T>>) {
    if q.len() == 0 {
        (None, q)
    } else {
        (Some(q[0]), q.drop_first())
    }
}

/// The results of `k` receives in a row on backlog `q`, and the backlog after them.
pub open spec fn received_n<T>(q: Seq<Message<T>>, k: nat) -> (Seq<Option<Message<T>>>, Seq<Message<T>>)
    decreases k,
{
    if k == 0 {
        (Seq::empty(), q)
    } else {
        let (firsts, rest) = received_n(q, (k - 1) as nat);
        let (one, after) = received(rest);
        (firsts.push(one), after)
    }
}

/// The backlog after sending the messages of `ms` in order.
pub open spec fn sent_all<T>(q: Seq<Message<T>>, ms: Seq<Message<T>>) -> Seq<Message<T>>
    decreases ms.len(),
{
    if ms.len() == 0 {
        q
    } else {
        sent_all(q, ms.drop_last()).push(ms.last())
    }
}

/// The backlog without the messages whose id is `id`.
pub open spec fn without_id<T>(q: Seq<Message<T>>, id: u64) -> Seq<Message<T>> {
    q.filter(|m: Message<T>| m.id != id)
}

/// The backlog messages that carry attribute `key` with value `value`, in order.
pub open spec fn with_attribute<T>(q: Seq<Message<T>>, key: Seq<char>, value: Seq<char>) -> Seq<
    Message<T>,
> {
    q.filter(|m: Message<T>| has_attribute(m, key, value))
}

/// Position `j` holds the earliest backlog message that is visible at `now`.
pub open spec fn first_visible<T>(q: Seq<Message<T>>, leases: Map<u64, u128>, now: u128, j: int) -> bool {
    &&& 0 <= j < q.len()
    &&& visible_at(leases, q[j].id, now)
    &&& forall|i: int| 0 <= i < j ==> !visible_at(leases, #[trigger] q[i].id, now)
}

/// No backlog message is visible at `now`.
pub open spec fn none_visible<T>(q: Seq<Message<T>>, leases: Map<u64, u128>, now: u128) -> bool {
    forall|j: int| 0 <= j < q.len() ==> !visible_at(leases, #[trigger] q[j].id, now)
}

/// Relies on HashMap::get: the value stored under the key whose characters are
/// those of `key`, or None where the map holds no such key.
#[verifier::external_body]
fn attribute_value<'a>(attrs: &'a HashMap<String, String>, key: &str) -> (r: Option<&'a String>)
    ensures
        match r {
            Some(v) => {
                &&& exists|k: String| k@ == key@ && #[trigger] attrs@.contains_key(k) && attrs@[k] == *v
                &&& forall|k: String|
                    k@ == key@ && #[trigger] attrs@.contains_key(k) ==> attrs@[k] == *v
            },
            None => forall|k: String| k@ == key@ ==> !#[trigger] attrs@.contains_key(k),
        },
{
    attrs.get(key)
}

/// The backlog of messages waiting for delivery, in the order they were sent.
pub struct MessageQueue<T: Clone> {
    queue: VecDeque<Message<T>>,
}

impl<T: Clone> View for MessageQueue<T> {
    type V = Seq<Message<T>>;

    closed spec fn view(&self) -> Seq<Message<T>> {
        self.queue@
    }
}

impl<T: Clone> Default for MessageQueue<T> {
    fn default() -> (r: Self)
        ensures
            r@ == Seq::<Message<T>>::empty(),
    {
        Self::new()
    }
}

impl<T: Clone> MessageQueue<T> {
    pub fn new() -> (r: Self)
        ensures
            r@ == Seq::<Message<T>>::empty(),
    {
        MessageQueue { queue: VecDeque::new() }
    }

    /// Appends `message` to the tail of the backlog; ids are not deduplicated.
    pub fn send_message(&mut self, message: Message<T>)
        ensures
            final(self)@ == old(self)@.push(message),
    {
        self.queue.push_back(message);
    }

    /// Removes and returns the head of the backlog, or None when it is empty.
    pub fn receive_message(&mut self) -> (r: Option<Message<T>>)
        ensures
            (r, final(self)@) == received(old(self)@),
    {
        self.queue.pop_front()
    }

    /// Delivers the earliest-sent message that is visible at `now` and hides it
    /// for `lease` nanoseconds from then. The message stays in the backlog, so
    /// that it is delivered again once the lease expires unless it is deleted.
    /// Returns None, with no lease set, when no message is visible.
    pub fn receive_visible_at(&self, visibility: &mut VisibilityControl, lease: u128, now: u128) -> (r:
        Option<Message<T>>)
        ensures
            match r {
                Some(m) => exists|j: int|
                    {
                        &&& first_visible(self@, old(visibility)@, now, j)
                        &&& copy_of(self@[j], m)
                        &&& final(visibility)@ == old(visibility)@.insert(
                            self@[j].id,
                            lease_expiry(now, lease),
                        )
                    },
                None => {
                    &&& none_visible(self@, old(visibility)@, now)
                    &&& final(visibility)@ == old(visibility)@
                },
            },
    {
        let n = self.queue.len();
        let mut i: usize = 0;
        while i < n
            invariant
                n == self.queue@.len(),
                i <= n,
                *visibility == *old(visibility),
                forall|k: int| 0 <= k < i ==> !visible_at(visibility@, #[trigger] self.queue@[k].id, now),
            decreases n - i,
        {
            let m = &self.queue[i];
            if visibility.is_visible_at(m.id, now) {
                let copy = m.clone();
                visibility.set_visibility_timeout_at(m.id, lease, now);
                assert(first_visible(self@, old(visibility)@, now, i as int));
                return Some(copy);
            }
            i += 1;
        }
        None
    }

    /// Delivers the earliest-sent message that is visible now and hides it for
    /// `lease`; see `receive_visible_at`.
    pub fn receive_visible(&self, visibility: &mut VisibilityControl, lease: Duration) -> (r: Option<Message<T>>)
        ensures
            match r {
                Some(m) => exists|j: int, now: u128|
                    {
                        &&& first_visible(self@, old(visibility)@, now, j)
                        &&& copy_of(self@[j], m)
                        &&& final(visibility)@ == old(visibility)@.insert(
                            self@[j].id,
                            lease_expiry(now, duration_nanos(lease)),
                        )
                    },
                None => {
                    &&& exists|now: u128| none_visible(self@, old(visibility)@, now)
                    &&& final(visibility)@ == old(visibility)@
                },
            },
    {
        let now = visibility.now();
        self.receive_visible_at(visibility, lease.as_nanos(), now)
    }

    /// Removes every backlog entry whose id is `message_id`, keeping the order of
    /// the rest; an absent id leaves the backlog as it was.
    pub fn delete_message(&mut self, message_id: u64)
        ensures
            final(self)@ == without_id(old(self)@, message_id),
    {
        let ghost orig = self.queue@;
        let ghost pred = |m: Message<T>| m.id != message_id;
        let mut kept: VecDeque<Message<T>> = VecDeque::new();
        let mut done: usize = 0;
        assert(orig.len() == self.queue.len());
        while self.queue.len() > 0
            invariant
                done <= orig.len() <= usize::MAX,
                pred == (|m: Message<T>| m.id != message_id),
                self.queue@ == orig.skip(done as int),
                self.queue@.len() == orig.len() - done,
                kept@ == orig.take(done as int).filter(pred),
            decreases self.queue@.len(),
        {
            let m = self.queue.pop_front().unwrap();
            assert(m == orig[done as int]);
            proof {
                assert(orig.take(done + 1) =~= orig.take(done as int).push(m));
                orig.take(done as int).lemma_filter_push(m, pred);
            }
            if m.id != message_id {
                kept.push_back(m);
            }
            done += 1;
            assert(self.queue@ =~= orig.skip(done as int));
        }
        assert(orig.take(done as int) =~= orig);
        self.queue = kept;
    }

    /// Records a failed delivery of `message` with `dead_letters`; when that
    /// moves its id to the dead letters, every backlog entry with that id is
    /// removed, so that a dead-lettered id is no longer delivered.
    pub fn fail_message(&mut self, dead_letters: &mut DeadLetterQueue<T>, message: Message<T>)
        requires
            dead_letters_wf(old(dead_letters)@),
        ensures
            dead_letters_wf(final(dead_letters)@),
            final(dead_letters).spec_max_retries() == old(dead_letters).spec_max_retries(),
            final(dead_letters)@ == after_failure(
                old(dead_letters)@,
                old(dead_letters).spec_max_retries(),
                message,
            ),
            final(self)@ == if retry_state_of(final(dead_letters)@.0, message.id) == Some(
                RetryState::DeadLettered,
            ) {
                without_id(old(self)@, message.id)
            } else {
                old(self)@
            },
    {
        let id = message.id;
        dead_letters.handle_failure(message);
        if dead_letters.is_dead_lettered(id) {
            self.delete_message(id);
        }
    }

    /// Copies of the backlog messages whose attributes map `key` to exactly
    /// `value`, in backlog order; messages without attributes never match.
    pub fn filter_by_attribute(&self, key: &str, value: &str) -> (r: Vec<Message<T>>)
        ensures
            copies_of(with_attribute(self@, key@, value@), r@),
    {
        let ghost pred = |m: Message<T>| has_attribute(m, key@, value@);
        let wanted = value.to_owned();
        let mut r: Vec<Message<T>> = Vec::new();
        let n = self.queue.len();
        let mut i: usize = 0;
        while i < n
            invariant
                n == self.queue@.len(),
                i <= n,
                wanted@ == value@,
                pred == (|m: Message<T>| has_attribute(m, key@, value@)),
                copies_of(self.queue@.take(i as int).filter(pred), r@),
            decreases n - i,
        {
            let m = &self.queue[i];
            let matches = match &m.attributes {
                Some(attrs) => match attribute_value(attrs, key) {
                    Some(v) => {
                        *v == wanted
                    },
                    None => false,
                },
                None => false,
            };
            assert(matches == pred(*m));
            proof {
                assert(self.queue@.take(i + 1) =~= self.queue@.take(i as int).push(*m));
                self.queue@.take(i as int).lemma_filter_push(*m, pred);
            }
            if matches {
                r.push(m.clone());
            }
            i += 1;
        }
        assert(self.queue@.take(n as int) =~= self.queue@);
        r
    }
}

/// Receiving `k` times from backlog `q` returns its messages from the head on,
/// in order, and nothing once it is exhausted; what is left is the backlog past
/// the received messages.
pub proof fn lemma_received_in_order<T>(q: Seq<Message<T>>, k: nat)
    ensures
        received_n(q, k).0 == Seq::new(
            k,
            |i: int|
                if i < q.len() {
                    Some(q[i])
                } else {
                    None
                },
        ),
        received_n(q, k).1 == q.skip(if k < q.len() { k as int } else { q.len() as int }),
    decreases k,
{
    if k > 0 {
        lemma_received_in_order(q, (k - 1) as nat);
        assert(received_n(q, k).0 =~= Seq::new(
            k,
            |i: int|
                if i < q.len() {
                    Some(q[i])
                } else {
                    None
                },
        ));
        assert(received_n(q, k).1 =~= q.skip(if k < q.len() { k as int } else { q.len() as int }));
    }
}

/// Sending the messages of `ms` one after another appends them to the backlog.
pub proof fn lemma_sent_all_appends<T>(q: Seq<Message<T>>, ms: Seq<Message<T>>)
    ensures
        sent_all(q, ms) == q + ms,
    decreases ms.len(),
{
    if ms.len() > 0 {
        lemma_sent_all_appends(q, ms.drop_last());
        assert(q + ms =~= (q + ms.drop_last()).push(ms.last()));
    }
}

/// Messages sent to an empty backlog and then received come out in the order
/// they were sent; receives past the last message return nothing.
pub proof fn lemma_fifo_order<T>(ms: Seq<Message<T>>, k: nat)
    ensures
        received_n(sent_all(Seq::empty(), ms), k).0 == Seq::new(
            k,
            |i: int|
                if i < ms.len() {
                    Some(ms[i])
                } else {
                    None
                },
        ),
{
    lemma_sent_all_appends(Seq::empty(), ms);
    assert(Seq::<Message<T>>::empty() + ms =~= ms);
    lemma_received_in_order(ms, k);
}

/// After the messages with id `id` are deleted, no number of receives returns a
/// message with that id.
pub proof fn lemma_deleted_never_received<T>(q: Seq<Message<T>>, id: u64, k: nat)
    ensures
        forall|i: int|
            0 <= i < k && (#[trigger] received_n(without_id(q, id), k).0[i]) is Some
                ==> received_n(without_id(q, id), k).0[i]->Some_0.id != id,
{
    let d = without_id(q, id);
    lemma_received_in_order(d, k);
    assert forall|i: int|
        0 <= i < k && (#[trigger] received_n(d, k).0[i]) is Some implies received_n(
        d,
        k,
    ).0[i]->Some_0.id != id by {
        q.lemma_filter_pred(|m: Message<T>| m.id != id, i);
    }
}

/// The messages that filtering by an attribute returns all carry that attribute
/// with that value, and every backlog message that carries it is among them.
pub proof fn lemma_filter_by_attribute_exact<T: Clone>(
    q: Seq<Message<T>>,
    key: Seq<char>,
    value: Seq<char>,
    r: Seq<Message<T>>,
)
    requires
        copies_of(with_attribute(q, key, value), r),
    ensures
        forall|i: int| 0 <= i < r.len() ==> has_attribute(#[trigger] r[i], key, value),
        forall|j: int|
            0 <= j < q.len() && has_attribute(#[trigger] q[j], key, value) ==> exists|i: int|
                0 <= i < r.len() && copy_of(q[j], #[trigger] r[i]),
{
    let pred = |m: Message<T>| has_attribute(m, key, value);
    let f = q.filter(pred);
    assert forall|i: int| 0 <= i < r.len() implies has_attribute(#[trigger] r[i], key, value) by {
        q.lemma_filter_pred(pred, i);
        assert(copy_of(f[i], r[i]));
        assert(attributes_view(f[i].attributes) == attributes_view(r[i].attributes));
    }
    assert forall|j: int|
        0 <= j < q.len() && has_attribute(#[trigger] q[j], key, value) implies exists|i: int|
        0 <= i < r.len() && copy_of(q[j], #[trigger] r[i]) by {
        q.lemma_filter_contains(pred, j);
        let i = choose|i: int| 0 <= i < f.len() && f[i] == q[j];
        assert(copy_of(f[i], r[i]));
    }
}

} // verus!
