use std::collections::HashMap;
use std::time::{Duration, Instant};
use vstd::prelude::*;

verus! {

broadcast use vstd::std_specs::hash::group_hash_axioms;

/// A reading of std's monotonic clock, carried through without looking inside.
#[verifier::external_type_specification]
#[verifier::external_body]
pub struct ExInstant(Instant);

/// Relies on Instant::now: a reading of the monotonic clock; nothing is known of its value.
pub assume_specification[ Instant::now ]() -> Instant;

/// Relies on Instant::elapsed: the time since a clock reading; nothing is known of its value.
pub assume_specification[ Instant::elapsed ](this: &Instant) -> Duration;

/// The length of a duration in whole nanoseconds.
pub uninterp spec fn duration_nanos(d: Duration) -> u128;

/// Relies on Duration::as_nanos: the length of a duration in nanoseconds,
/// which depends on the duration alone.
pub assume_specification[ Duration::as_nanos ](this: &Duration) -> (r: u128)
    ensures
        r == duration_nanos(*this),
;

/// The expiry of a lease of `timeout` nanoseconds taken at `now`: their sum,
/// held at the largest instant that can be represented.
pub open spec fn lease_expiry(now: u128, timeout: u128) -> u128 {
    if now + timeout > u128::MAX {
        u128::MAX
    } else {
        (now + timeout) as u128
    }
}

/// An id is visible at `now` when it has no lease, or its lease has expired.
pub open spec fn visible_at(leases: Map<u64, u128>, id: u64, now: u128) -> bool {
    !leases.contains_key(id) || now >= leases[id]
}

/// The leases after setting, in order, each `(id, timeout, now)` of `sets`.
pub open spec fn after_leases(leases: Map<u64, u128>, sets: Seq<(u64, u128, u128)>) -> Map<u64, u128>
    decreases sets.len(),
{
    if sets.len() == 0 {
        leases
    } else {
        let (id, timeout, now) = sets.last();
        after_leases(leases, sets.drop_last()).insert(id, lease_expiry(now, timeout))
    }
}

/// Per-message leases: an id with a lease is hidden until the lease expires.
/// Instants are nanoseconds since the control was built.
pub struct VisibilityControl {
    visibility_map: HashMap<u64, u128>,
    origin: Instant,
}

impl View for VisibilityControl {
    type V = Map<u64, u128>;

    closed spec fn view(&self) -> Map<u64, u128> {
        self.visibility_map@
    }
}

impl Default for VisibilityControl {
    fn default() -> (r: Self)
        ensures
            r@ == Map::<u64, u128>::empty(),
    {
        Self::new()
    }
}

impl VisibilityControl {
    pub fn new() -> (r: Self)
        ensures
            r@ == Map::<u64, u128>::empty(),
    {
        VisibilityControl { visibility_map: HashMap::new(), origin: Instant::now() }
    }

    /// The current instant: nanoseconds since this control was built.
    pub fn now(&self) -> u128 {
        self.origin.elapsed().as_nanos()
    }

    /// Whether `message_id` may be delivered at instant `now`: it has no lease,
    /// or `now` is at or past the lease's expiry.
    pub fn is_visible_at(&self, message_id: u64, now: u128) -> (r: bool)
        ensures
            r == visible_at(self@, message_id, now),
    {
        match self.visibility_map.get(&message_id) {
            Some(expiry) => now >= *expiry,
            None => true,
        }
    }

    /// Whether `message_id` may be delivered now. An id without a lease is
    /// always visible.
    pub fn is_visible(&self, message_id: u64) -> (r: bool)
        ensures
            !self@.contains_key(message_id) ==> r,
            exists|now: u128| r == visible_at(self@, message_id, now),
    {
        let now = self.now();
        self.is_visible_at(message_id, now)
    }

    /// Hides `message_id` from `now` for `timeout` nanoseconds, replacing any
    /// lease it had.
    pub fn set_visibility_timeout_at(&mut self, message_id: u64, timeout: u128, now: u128)
        ensures
            final(self)@ == old(self)@.insert(message_id, lease_expiry(now, timeout)),
    {
        let expiry = if timeout > u128::MAX - now {
            u128::MAX
        } else {
            now + timeout
        };
        self.visibility_map.insert(message_id, expiry);
    }

    /// Hides `message_id` from now for `timeout`, replacing any lease it had.
    pub fn set_visibility_timeout(&mut self, message_id: u64, timeout: Duration)
        ensures
            exists|now: u128|
                final(self)@ == old(self)@.insert(
                    message_id,
                    lease_expiry(now, duration_nanos(timeout)),
                ),
    {
        let now = self.now();
        self.set_visibility_timeout_at(message_id, timeout.as_nanos(), now);
    }

    /// Drops the lease of `message_id`, if any, so that it is visible again.
    pub fn clear(&mut self, message_id: u64)
        ensures
            final(self)@ == old(self)@.remove(message_id),
    {
        self.visibility_map.remove(&message_id);
    }
}

/// A lease of positive length hides its id at the instant it is taken (unless
/// that is the last instant there is), and the id is visible again at every
/// instant at least that length later.
pub proof fn lemma_lease_hides_then_expires(
    leases: Map<u64, u128>,
    id: u64,
    timeout: u128,
    now: u128,
    later: u128,
)
    ensures
        timeout > 0 && now < u128::MAX ==> !visible_at(leases.insert(id, lease_expiry(now, timeout)), id, now),
        later >= now + timeout ==> visible_at(
            leases.insert(id, lease_expiry(now, timeout)),
            id,
            later,
        ),
{
}

/// An id that no lease was set for is visible at every instant.
pub proof fn lemma_unleased_always_visible(sets: Seq<(u64, u128, u128)>, id: u64, now: u128)
    requires
        forall|i: int| 0 <= i < sets.len() ==> (#[trigger] sets[i]).0 != id,
    ensures
        visible_at(after_leases(Map::empty(), sets), id, now),
    decreases sets.len(),
{
    if sets.len() > 0 {
        let rest = sets.drop_last();
        assert forall|i: int| 0 <= i < rest.len() implies (#[trigger] rest[i]).0 != id by {
            assert(rest[i] == sets[i]);
        }
        lemma_unleased_always_visible(rest, id, now);
        assert(sets.last() == sets[sets.len() - 1]);
    }
}

} // verus!
