//! Bookkeeping of probes in flight, timed out and answered.
use std::collections::hash_map::Entry;
use std::collections::{HashMap, HashSet, TryReserveError, VecDeque};
use vstd::prelude::*;

use crate::error::ClientError;
use crate::timing::{ClientTimestamp, Instant, SystemTime};

verus! {

broadcast use vstd::std_specs::hash::group_hash_axioms;

/// A probe that was sent and has not been answered.
#[derive(Debug, Clone, Copy, PartialEq, Eq, Structural)]
pub struct PendingProbe {
    pub wire_seq: u32,
    pub sent_at: ClientTimestamp,
    pub timeout_at: Instant,
    /// Wall-clock time at which the kernel reported this probe's send, once a
    /// matching transmit record was read. No measurement reads it: `sent_at`
    /// stays authoritative for round-trip time and timeout.
    pub kernel_tx_timestamp: Option<SystemTime>,
}

#[derive(Debug, Clone, Copy)]
struct PendingEntry {
    probe: PendingProbe,
    previous: Option<u32>,
    next: Option<u32>,
}

/// Probes taken out by one bounded expiration.
#[derive(Debug)]
pub struct ExpiredBatch {
    pub probes: Vec<PendingProbe>,
    /// Whether further probes were already due and stayed behind.
    pub more_due: bool,
}

/// Number of leading probes whose deadline is not after `now`.
pub open spec fn due_count(probes: Seq<PendingProbe>, now: Instant) -> nat
    decreases probes.len(),
{
    if probes.len() > 0 && probes[0].timeout_at.nanos <= now.nanos {
        1 + due_count(probes.drop_first(), now)
    } else {
        0
    }
}

/// Deadlines do not decrease along `probes`.
pub open spec fn deadlines_sorted(probes: Seq<PendingProbe>) -> bool {
    forall|i: int, j: int|
        0 <= i <= j < probes.len() ==> (#[trigger] probes[i]).timeout_at.nanos <= (
        #[trigger] probes[j]).timeout_at.nanos
}

/// No two probes share a sequence number.
pub open spec fn sequences_distinct(probes: Seq<PendingProbe>) -> bool {
    forall|i: int, j: int|
        0 <= i < probes.len() && 0 <= j < probes.len() && i != j ==> (
        #[trigger] probes[i]).wire_seq != (#[trigger] probes[j]).wire_seq
}

pub open spec fn holds_sequence(probes: Seq<PendingProbe>, wire_seq: u32) -> bool {
    exists|i: int| 0 <= i < probes.len() && (#[trigger] probes[i]).wire_seq == wire_seq
}

/// Position of the probe with sequence number `wire_seq`.
pub open spec fn position_of(probes: Seq<PendingProbe>, wire_seq: u32) -> int {
    choose|i: int| 0 <= i < probes.len() && (#[trigger] probes[i]).wire_seq == wire_seq
}

/// Probes in flight, in the order in which they were sent. A hash map finds a
/// probe by sequence number, and links between its entries keep the order.
pub struct PendingMap {
    map: HashMap<u32, PendingEntry>,
    first: Option<u32>,
    last: Option<u32>,
    max_capacity: usize,
    order: Ghost<Seq<u32>>,
}

/// The number of elements the map holds without reallocating, as
/// `std::collections::HashMap::capacity` documents it: never fewer than it
/// holds now. How many more is left unsaid.
#[verifier::external_body]
fn map_capacity(map: &HashMap<u32, PendingEntry>) -> (capacity: usize)
    ensures
        capacity >= map@.len(),
{
    map.capacity()
}

/// Asks `std::collections::HashMap::try_reserve` for room for `additional`
/// more elements. The contents stay as they are. Whether the request succeeds
/// depends on the allocator and is left unsaid.
#[verifier::external_body]
fn map_try_reserve(map: &mut HashMap<u32, PendingEntry>, additional: usize) -> (result: Result<
    (),
    TryReserveError,
>)
    ensures
        final(map)@ == old(map)@,
{
    map.try_reserve(additional)
}

/// The error reported when storage for pending probes cannot be had.
pub fn pending_allocation_failed(source: TryReserveError) -> (result: ClientError)
    ensures
        result == (ClientError::AllocationFailed { operation: "pending probe storage", source }),
{
    ClientError::AllocationFailed { operation: "pending probe storage", source }
}

/// How much room a preflight asks the allocator for: that of one probe where
/// the map is full, none where it has room left.
pub fn reservation_wanted(len: usize, capacity: usize) -> (additional: Option<usize>)
    ensures
        additional == (if len == capacity {
            Some(1usize)
        } else {
            None
        }),
{
    if len == capacity {
        Some(1)
    } else {
        None
    }
}

/// What a preflight reports once the allocator has answered.
pub fn reservation_result(reserved: Result<(), TryReserveError>) -> (result: Result<
    (),
    ClientError,
>)
    ensures
        reserved is Ok ==> result is Ok,
        reserved matches Err(source) ==> result == Err::<(), ClientError>(
            ClientError::AllocationFailed { operation: "pending probe storage", source },
        ),
{
    match reserved {
        Ok(()) => Ok(()),
        Err(source) => Err(pending_allocation_failed(source)),
    }
}

proof fn lemma_to_set_len<A>(s: Seq<A>, m: Set<A>)
    requires
        s.no_duplicates(),
        forall|a: A| m.contains(a) <==> s.contains(a),
    ensures
        m.len() == s.len(),
{
    s.unique_seq_to_set();
    assert(m =~= s.to_set());
}

/// `order` lists the keys of `map`, each once, and each entry is filed under
/// its own sequence number.
#[verifier::opaque]
spec fn keyed(map: Map<u32, PendingEntry>, order: Seq<u32>) -> bool {
    &&& order.no_duplicates()
    &&& forall|key: u32| #[trigger] map.contains_key(key) <==> order.contains(key)
    &&& forall|i: int|
        0 <= i < order.len() ==> map[#[trigger] order[i]].probe.wire_seq == order[i]
}

/// Each entry points at its neighbours in `order`.
#[verifier::opaque]
spec fn linked(map: Map<u32, PendingEntry>, order: Seq<u32>) -> bool {
    forall|i: int|
        0 <= i < order.len() ==> {
            &&& map[#[trigger] order[i]].previous == (if i == 0 {
                None
            } else {
                Some(order[i - 1])
            })
            &&& map[order[i]].next == (if i == order.len() - 1 {
                None
            } else {
                Some(order[i + 1])
            })
        }
}

/// The probes of `map` in the order of `order`.
spec fn listed(map: Map<u32, PendingEntry>, order: Seq<u32>) -> Seq<PendingProbe> {
    Seq::new(order.len(), |i: int| map[order[i]].probe)
}

/// `map` with the probe of the entry under `key` exchanged.
spec fn exchanged(map: Map<u32, PendingEntry>, key: u32, probe: PendingProbe) -> Map<
    u32,
    PendingEntry,
> {
    map.insert(key, PendingEntry { probe, ..map[key] })
}

proof fn lemma_exchanged(
    map: Map<u32, PendingEntry>,
    order: Seq<u32>,
    at: int,
    probe: PendingProbe,
)
    requires
        keyed(map, order),
        linked(map, order),
        0 <= at < order.len(),
    ensures
        linked(exchanged(map, order[at], probe), order),
        listed(exchanged(map, order[at], probe), order) == listed(map, order).update(at, probe),
        probe.wire_seq == order[at] ==> keyed(exchanged(map, order[at], probe), order),
{
    reveal(keyed);
    reveal(linked);
    let new = exchanged(map, order[at], probe);
    assert forall|i: int| 0 <= i < order.len() implies {
        &&& new[#[trigger] order[i]].previous == map[order[i]].previous
        &&& new[order[i]].next == map[order[i]].next
        &&& i != at ==> new[order[i]] == map[order[i]]
    } by {
        assert(i != at ==> order[i] != order[at]);
    }
    assert(listed(new, order) =~= listed(map, order).update(at, probe));
    assert(order.contains(order[at]));
    assert forall|key: u32| #[trigger] new.contains_key(key) <==> order.contains(key) by {
        assert(map.contains_key(key) <==> order.contains(key));
    }
}

/// `map` without the entry at position `at`, its neighbours joined.
spec fn unlinked(map: Map<u32, PendingEntry>, order: Seq<u32>, at: int) -> Map<u32, PendingEntry> {
    let entry = map[order[at]];
    let rest = map.remove(order[at]);
    let rest = match entry.previous {
        Some(before) => rest.insert(before, PendingEntry { next: entry.next, ..rest[before] }),
        None => rest,
    };
    match entry.next {
        Some(after) => rest.insert(after, PendingEntry { previous: entry.previous, ..rest[after] }),
        None => rest,
    }
}

proof fn lemma_neighbours(map: Map<u32, PendingEntry>, order: Seq<u32>, at: int)
    requires
        keyed(map, order),
        linked(map, order),
        0 <= at < order.len(),
    ensures
        map[order[at]].previous == (if at == 0 { None } else { Some(order[at - 1]) }),
        map[order[at]].next == (if at == order.len() - 1 { None } else { Some(order[at + 1]) }),
        at > 0 ==> map.contains_key(order[at - 1]) && order[at - 1] != order[at],
        at < order.len() - 1 ==> map.contains_key(order[at + 1]) && order[at + 1] != order[at],
{
    reveal(keyed);
    reveal(linked);
    if at > 0 {
        assert(order.contains(order[at - 1]));
    }
    if at < order.len() - 1 {
        assert(order.contains(order[at + 1]));
    }
}

proof fn lemma_unlinked(map: Map<u32, PendingEntry>, order: Seq<u32>, at: int)
    requires
        keyed(map, order),
        linked(map, order),
        0 <= at < order.len(),
    ensures
        keyed(unlinked(map, order, at), order.remove(at)),
        linked(unlinked(map, order, at), order.remove(at)),
        forall|i: int|
            0 <= i < order.len() - 1 ==> unlinked(map, order, at)[#[trigger] order.remove(
                at,
            )[i]].probe == map[order[if i < at { i } else { i + 1 }]].probe,
{
    reveal(keyed);
    reveal(linked);
    let after = order.remove(at);
    let new = unlinked(map, order, at);
    let gone = order[at];
    assert forall|i: int| 0 <= i < after.len() implies #[trigger] after[i] == order[if i < at {
        i
    } else {
        i + 1
    }] by {}
    if at > 0 {
        assert(order.contains(order[at - 1]));
    }
    if at < order.len() - 1 {
        assert(order.contains(order[at + 1]));
    }
    assert forall|key: u32| #[trigger] new.contains_key(key) <==> after.contains(key) by {
        assert(new.contains_key(key) <==> map.contains_key(key) && key != gone);
        if order.contains(key) && key != gone {
            let i = choose|i: int| 0 <= i < order.len() && order[i] == key;
            assert(after[if i < at { i } else { i - 1 }] == key);
        }
        if after.contains(key) {
            let i = choose|i: int| 0 <= i < after.len() && after[i] == key;
            let from = if i < at { i } else { i + 1 };
            assert(order[from] == key);
            assert(order.contains(key));
        }
    }
    assert forall|i: int| 0 <= i < after.len() implies {
        &&& new[#[trigger] after[i]].probe == map[order[if i < at { i } else { i + 1 }]].probe
        &&& new[after[i]].probe.wire_seq == after[i]
        &&& new[after[i]].previous == (if i == 0 { None } else { Some(after[i - 1]) })
        &&& new[after[i]].next == (if i == after.len() - 1 { None } else { Some(after[i + 1]) })
    } by {
        let from = if i < at { i } else { i + 1 };
        let key = order[from];
        assert(after[i] == key && key != gone);
        if i > 0 {
            assert(after[i - 1] == order[if i - 1 < at { i - 1 } else { i }]);
        }
        if i < after.len() - 1 {
            assert(after[i + 1] == order[if i + 1 < at { i + 1 } else { i + 2 }]);
        }
        assert(map[key].probe.wire_seq == key);
        if from == at - 1 {
            assert(map[gone].previous == Some(key));
        } else if from == at + 1 {
            assert(map[gone].next == Some(key));
        } else {
            assert(at > 0 ==> order[at - 1] != key);
            assert(at < order.len() - 1 ==> order[at + 1] != key);
            assert(new[key] == map[key]);
        }
    }
    assert(after.no_duplicates());
}

impl PendingMap {
    /// The probes in flight, in send order.
    pub closed spec fn view(&self) -> Seq<PendingProbe> {
        listed(self.map@, self.order@)
    }

    pub closed spec fn limit(&self) -> usize {
        self.max_capacity
    }

    closed spec fn keys_match(&self) -> bool {
        keyed(self.map@, self.order@)
    }

    closed spec fn links_match(&self) -> bool {
        let order = self.order@;
        &&& self.first == (if order.len() == 0 { None } else { Some(order[0]) })
        &&& self.last == (if order.len() == 0 { None } else { Some(order.last()) })
        &&& linked(self.map@, order)
    }

    /// The links run through every entry once, in both directions, the
    /// deadlines along them do not decrease, and there are no more entries than
    /// the limit allows.
    pub closed spec fn wf(&self) -> bool {
        &&& self.keys_match()
        &&& self.links_match()
        &&& deadlines_sorted(self.view())
        &&& self.view().len() <= self.limit()
    }

    /// A well-formed map holds no sequence number twice, keeps deadlines in
    /// order and never holds more probes than its limit.
    pub proof fn lemma_wf(&self)
        requires
            self.wf(),
        ensures
            sequences_distinct(self.view()),
            deadlines_sorted(self.view()),
            self.view().len() <= self.limit(),
    {
        reveal(keyed);
    }

    proof fn lemma_contains(&self, key: u32)
        requires
            self.keys_match(),
        ensures
            self.map@.contains_key(key) <==> holds_sequence(self.view(), key),
            self.map@.contains_key(key) ==> {
                let i = position_of(self.view(), key);
                &&& 0 <= i < self.order@.len()
                &&& self.order@[i] == key
                &&& self.view()[i] == self.map@[key].probe
            },
    {
        reveal(keyed);
        let order = self.order@;
        if self.map@.contains_key(key) {
            let i = choose|i: int| 0 <= i < order.len() && order[i] == key;
            assert(self.view()[i].wire_seq == key);
        }
        if holds_sequence(self.view(), key) {
            let i = position_of(self.view(), key);
            assert(self.view()[i].wire_seq == key);
            assert(order[i] == key);
        }
    }

    proof fn lemma_len(&self)
        requires
            self.keys_match(),
        ensures
            self.map@.len() == self.view().len(),
    {
        reveal(keyed);
        assert forall|key: u32| self.map@.dom().contains(key) <==> self.order@.contains(key) by {
            assert(self.map@.contains_key(key) <==> self.order@.contains(key));
        }
        lemma_to_set_len(self.order@, self.map@.dom());
    }

    pub fn new(max_capacity: usize) -> (result: PendingMap)
        ensures
            result.wf(),
            result.view() == Seq::<PendingProbe>::empty(),
            result.limit() == max_capacity,
    {
        let result = PendingMap {
            map: HashMap::new(),
            first: None,
            last: None,
            max_capacity,
            order: Ghost(Seq::empty()),
        };
        proof {
            reveal(keyed);
            reveal(linked);
            assert(result.view() =~= Seq::<PendingProbe>::empty());
        }
        result
    }

    /// Checks that a probe numbered `wire_seq` can be inserted, and makes room
    /// for it. A refused number is reported before a full map. What is asked of
    /// the allocator is `reservation_wanted`, and what is made of its answer is
    /// `reservation_result`. Whether there is room already, and whether the
    /// allocator grants more, is left unsaid.
    pub fn preflight_insert(&mut self, wire_seq: u32) -> (result: Result<(), ClientError>)
        requires
            old(self).wf(),
        ensures
            final(self).wf(),
            final(self).view() == old(self).view(),
            final(self).limit() == old(self).limit(),
            holds_sequence(old(self).view(), wire_seq) <==> result == Err::<(), ClientError>(
                ClientError::PendingSequenceCollision { seq: wire_seq },
            ),
            !holds_sequence(old(self).view(), wire_seq) && old(self).view().len() >= old(
                self,
            ).limit() <==> result == Err::<(), ClientError>(
                ClientError::PendingLimitExceeded { limit: old(self).limit() },
            ),
            !holds_sequence(old(self).view(), wire_seq) && old(self).view().len() < old(
                self,
            ).limit() ==> (result is Ok || (result matches Err(
                ClientError::AllocationFailed { operation, .. },
            ) && operation@ == "pending probe storage"@)),
    {
        proof {
            self.lemma_contains(wire_seq);
            self.lemma_len();
        }
        if self.map.contains_key(&wire_seq) {
            return Err(ClientError::PendingSequenceCollision { seq: wire_seq });
        }
        if self.map.len() >= self.max_capacity {
            return Err(ClientError::PendingLimitExceeded { limit: self.max_capacity });
        }
        match reservation_wanted(self.map.len(), map_capacity(&self.map)) {
            Some(additional) => {
                let reserved = map_try_reserve(&mut self.map, additional);
                assert(self.view() =~= old(self).view());
                reservation_result(reserved)
            },
            None => Ok(()),
        }
    }

    /// Appends a probe that a preflight admitted. Its deadline is not before
    /// that of the probe sent last: the probe timeout is fixed for a session
    /// and sends carry nondecreasing times.
    pub fn commit_insert(&mut self, probe: PendingProbe)
        requires
            old(self).wf(),
            !holds_sequence(old(self).view(), probe.wire_seq),
            old(self).view().len() < old(self).limit(),
            old(self).view().len() > 0 ==> old(self).view().last().timeout_at.nanos
                <= probe.timeout_at.nanos,
        ensures
            final(self).wf(),
            final(self).view() == old(self).view().push(probe),
            final(self).limit() == old(self).limit(),
    {
        let wire_seq: u32 = probe.wire_seq;
        let previous: Option<u32> = self.last;
        let ghost order = self.order@;
        proof {
            self.lemma_contains(wire_seq);
            reveal(keyed);
            reveal(linked);
        }
        if let Some(tail) = previous {
            assert(self.map@.contains_key(tail)) by {
                assert(order.contains(order.last()));
            }
            if let Entry::Occupied(entry) = self.map.entry(tail) {
                entry.into_mut().next = Some(wire_seq);
            }
        } else {
            self.first = Some(wire_seq);
        }
        self.map.insert(wire_seq, PendingEntry { probe, previous, next: None });
        self.last = Some(wire_seq);
        self.order = Ghost(order.push(wire_seq));
        proof {
            let new_order = self.order@;
            assert forall|key: u32| #[trigger]
                self.map@.contains_key(key) <==> new_order.contains(key) by {
                if order.contains(key) {
                    let i = choose|i: int| 0 <= i < order.len() && order[i] == key;
                    assert(new_order[i] == key);
                }
                if new_order.contains(key) && key != wire_seq {
                    let i = choose|i: int| 0 <= i < new_order.len() && new_order[i] == key;
                    assert(order[i] == key);
                }
                assert(new_order[order.len() as int] == wire_seq);
            }
            assert(self.view() =~= old(self).view().push(probe)) by {
                assert forall|i: int| 0 <= i < order.len() implies self.view()[i] == old(
                    self,
                ).view()[i] by {
                    assert(order.contains(order[i]));
                }
            }
        }
    }

    /// Takes the probe numbered `wire_seq` out and joins its neighbours.
    pub fn remove(&mut self, wire_seq: u32) -> (result: Option<PendingProbe>)
        requires
            old(self).wf(),
        ensures
            final(self).wf(),
            final(self).limit() == old(self).limit(),
            match result {
                Some(probe) => {
                    let i = position_of(old(self).view(), wire_seq);
                    &&& holds_sequence(old(self).view(), wire_seq)
                    &&& probe == old(self).view()[i]
                    &&& final(self).view() == old(self).view().remove(i)
                },
                None => {
                    &&& !holds_sequence(old(self).view(), wire_seq)
                    &&& final(self).view() == old(self).view()
                },
            },
    {
        let ghost order = self.order@;
        let ghost at = position_of(self.view(), wire_seq);
        proof {
            self.lemma_contains(wire_seq);
            if self.map@.contains_key(wire_seq) {
                lemma_neighbours(self.map@, order, at);
                lemma_unlinked(self.map@, order, at);
            }
        }
        let entry = match self.map.remove(&wire_seq) {
            Some(entry) => entry,
            None => {
                assert(self.map@ =~= old(self).map@);
                return None;
            },
        };
        let probe = entry.probe;
        let previous: Option<u32> = entry.previous;
        let next: Option<u32> = entry.next;
        if let Some(before) = previous {
            if let Entry::Occupied(entry) = self.map.entry(before) {
                entry.into_mut().next = next;
            }
        } else {
            self.first = next;
        }
        if let Some(after) = next {
            if let Entry::Occupied(entry) = self.map.entry(after) {
                entry.into_mut().previous = previous;
            }
        } else {
            self.last = previous;
        }
        self.order = Ghost(order.remove(at));
        proof {
            assert(self.map@ =~= unlinked(old(self).map@, order, at));
            assert(self.view() =~= old(self).view().remove(at));
        }
        Some(probe)
    }

    /// Sequence number of the oldest probe, if it is due.
    fn first_due(&self, now: Instant) -> (result: Option<u32>)
        requires
            self.wf(),
        ensures
            match result {
                Some(wire_seq) => {
                    &&& self.view().len() > 0
                    &&& self.view()[0].wire_seq == wire_seq
                    &&& self.view()[0].timeout_at.nanos <= now.nanos
                },
                None => due_count(self.view(), now) == 0,
            },
    {
        match self.first {
            Some(wire_seq) => {
                proof {
                    reveal(keyed);
                    assert(self.order@.contains(self.order@[0]));
                    assert(self.view()[0].wire_seq == wire_seq);
                }
                match self.map.get(&wire_seq) {
                    Some(entry) if entry.probe.timeout_at.nanos <= now.nanos => Some(wire_seq),
                    _ => None,
                }
            },
            None => None,
        }
    }

    /// Takes out the oldest probe, if it is due.
    fn pop_due(&mut self, now: Instant) -> (result: Option<PendingProbe>)
        requires
            old(self).wf(),
        ensures
            final(self).wf(),
            final(self).limit() == old(self).limit(),
            match result {
                Some(probe) => {
                    &&& old(self).view().len() > 0
                    &&& probe == old(self).view()[0]
                    &&& probe.timeout_at.nanos <= now.nanos
                    &&& final(self).view() == old(self).view().drop_first()
                },
                None => {
                    &&& due_count(old(self).view(), now) == 0
                    &&& final(self).view() == old(self).view()
                },
            },
    {
        match self.first_due(now) {
            Some(wire_seq) => {
                proof {
                    self.lemma_wf();
                    assert(holds_sequence(self.view(), wire_seq));
                    assert(position_of(self.view(), wire_seq) == 0);
                    assert(self.view().remove(0) =~= self.view().drop_first());
                }
                self.remove(wire_seq)
            },
            None => None,
        }
    }

    /// Takes out the probes that are due, oldest first, but at most `limit`.
    pub fn drain_expired_bounded(&mut self, now: Instant, limit: usize) -> (batch: ExpiredBatch)
        requires
            old(self).wf(),
        ensures
            final(self).wf(),
            final(self).limit() == old(self).limit(),
            ({
                let due = due_count(old(self).view(), now);
                let taken = if limit <= due { limit as int } else { due as int };
                &&& batch.probes@ == old(self).view().take(taken)
                &&& final(self).view() == old(self).view().skip(taken)
                &&& batch.more_due == (limit < due)
            }),
    {
        let ghost before = self.view();
        let ghost due = due_count(before, now);
        proof {
            lemma_due_count(before, now);
            assert(before.skip(0) =~= before);
        }
        let mut probes: Vec<PendingProbe> = Vec::new();
        while probes.len() < limit
            invariant
                self.wf(),
                self.limit() == old(self).limit(),
                probes@.len() <= limit,
                probes@.len() <= due,
                due == due_count(before, now),
                due <= before.len(),
                probes@ == before.take(probes@.len() as int),
                self.view() == before.skip(probes@.len() as int),
                due == probes@.len() + due_count(self.view(), now),
            ensures
                probes@.len() == limit || due_count(self.view(), now) == 0,
            decreases limit - probes.len(),
        {
            let ghost here = self.view();
            match self.pop_due(now) {
                Some(probe) => {
                    proof {
                        assert(probe == before[probes@.len() as int]);
                        assert(before.take(probes@.len() as int).push(probe) =~= before.take(
                            probes@.len() as int + 1,
                        ));
                        assert(here.drop_first() =~= before.skip(probes@.len() as int + 1));
                    }
                    probes.push(probe);
                },
                None => {
                    break;
                },
            }
        }
        let more_due: bool = self.first_due(now).is_some();
        ExpiredBatch { probes, more_due }
    }

    pub fn len(&self) -> (result: usize)
        requires
            self.wf(),
        ensures
            result == self.view().len(),
    {
        proof {
            self.lemma_len();
        }
        self.map.len()
    }

    /// Access to a probe in flight that leaves its place in the order alone.
    /// It serves to attach an observed kernel transmit timestamp.
    pub fn get_mut(&mut self, wire_seq: u32) -> (result: Option<&mut PendingProbe>)
        requires
            old(self).wf(),
        ensures
            match result {
                Some(probe) => {
                    let i = position_of(old(self).view(), wire_seq);
                    &&& holds_sequence(old(self).view(), wire_seq)
                    &&& *probe == old(self).view()[i]
                    &&& final(self).view() == old(self).view().update(i, *final(probe))
                    &&& final(self).limit() == old(self).limit()
                    &&& final(probe).wire_seq == wire_seq && final(probe).timeout_at
                        == probe.timeout_at ==> final(self).wf()
                },
                None => {
                    &&& !holds_sequence(old(self).view(), wire_seq)
                    &&& final(self).wf()
                    &&& final(self).view() == old(self).view()
                    &&& final(self).limit() == old(self).limit()
                },
            },
    {
        proof {
            self.lemma_contains(wire_seq);
            if self.map@.contains_key(wire_seq) {
                let at = position_of(self.view(), wire_seq);
                assert forall|probe: PendingProbe| {
                    let new = #[trigger] exchanged(self.map@, wire_seq, probe);
                    &&& linked(new, self.order@)
                    &&& listed(new, self.order@) == self.view().update(at, probe)
                    &&& probe.wire_seq == wire_seq ==> keyed(new, self.order@)
                    &&& probe.timeout_at == self.view()[at].timeout_at ==> deadlines_sorted(
                        listed(new, self.order@),
                    )
                } by {
                    lemma_exchanged(self.map@, self.order@, at, probe);
                }
            }
        }
        match self.map.entry(wire_seq) {
            Entry::Occupied(entry) => {
                let entry = entry.into_mut();
                let ghost last = *final(entry);
                let probe = &mut entry.probe;
                assert(last == PendingEntry { probe: *final(probe), ..old(self).map@[wire_seq] });
                assert(exchanged(old(self).map@, wire_seq, *final(probe)) == old(self).map@.insert(
                    wire_seq,
                    last,
                ));
                Some(probe)
            },
            Entry::Vacant(_) => {
                assert(old(self).map@.remove(wire_seq) =~= old(self).map@);
                None
            },
        }
    }

    /// Deadline of the probe that expires first.
    pub fn next_timeout_deadline(&self) -> (result: Option<Instant>)
        requires
            self.wf(),
        ensures
            result == (if self.view().len() == 0 {
                None
            } else {
                Some(self.view()[0].timeout_at)
            }),
    {
        match self.first {
            Some(wire_seq) => {
                proof {
                    reveal(keyed);
                    assert(self.order@.contains(self.order@[0]));
                }
                match self.map.get(&wire_seq) {
                    Some(entry) => Some(entry.probe.timeout_at),
                    None => None,
                }
            },
            None => None,
        }
    }

    /// Deadline of the probe that expires last.
    pub fn latest_timeout_deadline(&self) -> (result: Option<Instant>)
        requires
            self.wf(),
        ensures
            result == (if self.view().len() == 0 {
                None
            } else {
                Some(self.view().last().timeout_at)
            }),
    {
        match self.last {
            Some(wire_seq) => {
                proof {
                    reveal(keyed);
                    assert(self.order@.contains(self.order@.last()));
                }
                match self.map.get(&wire_seq) {
                    Some(entry) => Some(entry.probe.timeout_at),
                    None => None,
                }
            },
            None => None,
        }
    }

    pub fn contains(&self, wire_seq: u32) -> (result: bool)
        requires
            self.wf(),
        ensures
            result == holds_sequence(self.view(), wire_seq),
    {
        proof {
            self.lemma_contains(wire_seq);
        }
        self.map.contains_key(&wire_seq)
    }

    /// How many probes fit before the storage grows.
    pub fn capacity(&self) -> (result: usize)
        requires
            self.wf(),
        ensures
            result >= self.view().len(),
    {
        proof {
            self.lemma_len();
        }
        map_capacity(&self.map)
    }

    /// Sequence numbers at both ends of the order.
    pub fn linkage(&self) -> (result: (Option<u32>, Option<u32>))
        requires
            self.wf(),
        ensures
            self.view().len() == 0 ==> result == (None::<u32>, None::<u32>),
            self.view().len() > 0 ==> result == (
                Some(self.view()[0].wire_seq),
                Some(self.view().last().wire_seq),
            ),
    {
        proof {
            reveal(keyed);
        }
        (self.first, self.last)
    }

    /// Sequence numbers of the neighbours of the probe numbered `wire_seq`.
    pub fn entry_links(&self, wire_seq: u32) -> (result: Option<(Option<u32>, Option<u32>)>)
        requires
            self.wf(),
        ensures
            match result {
                Some((previous, next)) => {
                    let i = position_of(self.view(), wire_seq);
                    &&& holds_sequence(self.view(), wire_seq)
                    &&& previous == (if i == 0 {
                        None
                    } else {
                        Some(self.view()[i - 1].wire_seq)
                    })
                    &&& next == (if i == self.view().len() - 1 {
                        None
                    } else {
                        Some(self.view()[i + 1].wire_seq)
                    })
                },
                None => !holds_sequence(self.view(), wire_seq),
            },
    {
        proof {
            self.lemma_contains(wire_seq);
            reveal(keyed);
            reveal(linked);
        }
        match self.map.get(&wire_seq) {
            Some(entry) => Some((entry.previous, entry.next)),
            None => None,
        }
    }
}

proof fn lemma_due_count(probes: Seq<PendingProbe>, now: Instant)
    ensures
        due_count(probes, now) <= probes.len(),
    decreases probes.len(),
{
    if probes.len() > 0 && probes[0].timeout_at.nanos <= now.nanos {
        lemma_due_count(probes.drop_first(), now);
    }
}

/// Where deadlines are sorted, the due probes are exactly the leading
/// `due_count` ones: an unbounded expiration takes every due probe and no other.
pub proof fn law_due_probes_lead(probes: Seq<PendingProbe>, now: Instant)
    requires
        deadlines_sorted(probes),
    ensures
        due_count(probes, now) <= probes.len(),
        forall|i: int|
            0 <= i < probes.len() ==> ((#[trigger] probes[i]).timeout_at.nanos <= now.nanos <==> i
                < due_count(probes, now)),
    decreases probes.len(),
{
    if probes.len() > 0 && probes[0].timeout_at.nanos <= now.nanos {
        let rest = probes.drop_first();
        assert(deadlines_sorted(rest)) by {
            assert forall|i: int, j: int| 0 <= i <= j < rest.len() implies (
            #[trigger] rest[i]).timeout_at.nanos <= (#[trigger] rest[j]).timeout_at.nanos by {
                assert(rest[i] == probes[i + 1]);
                assert(rest[j] == probes[j + 1]);
            }
        }
        law_due_probes_lead(rest, now);
        assert forall|i: int| 0 <= i < probes.len() implies ((
        #[trigger] probes[i]).timeout_at.nanos <= now.nanos <==> i < due_count(probes, now)) by {
            if i > 0 {
                assert(rest[i - 1] == probes[i]);
            }
        }
    } else if probes.len() > 0 {
        assert forall|i: int| 0 <= i < probes.len() implies (
        #[trigger] probes[i]).timeout_at.nanos > now.nanos by {
            assert(probes[0].timeout_at.nanos <= probes[i].timeout_at.nanos);
        }
    }
}

/// Expiring in two bounded steps takes the same probes, in the same order, as
/// expiring at once: after `taken` due probes left, what is due is what is
/// still missing.
pub proof fn law_batches_concatenate(probes: Seq<PendingProbe>, now: Instant, taken: nat)
    requires
        taken <= due_count(probes, now),
    ensures
        taken <= probes.len(),
        due_count(probes.skip(taken as int), now) == due_count(probes, now) - taken,
        probes.take(taken as int) + probes.skip(taken as int).take(
            due_count(probes.skip(taken as int), now) as int,
        ) == probes.take(due_count(probes, now) as int),
        probes.skip(taken as int).skip(due_count(probes.skip(taken as int), now) as int)
            == probes.skip(due_count(probes, now) as int),
    decreases taken,
{
    lemma_due_count(probes, now);
    let rest = probes.skip(taken as int);
    if taken == 0 {
        assert(rest =~= probes);
    } else {
        law_batches_concatenate(probes.drop_first(), now, (taken - 1) as nat);
        assert(probes.drop_first().skip(taken - 1) =~= rest);
    }
    let due = due_count(probes, now) as int;
    assert(probes.take(taken as int) + rest.take(due - taken) =~= probes.take(due));
    assert(rest.skip(due - taken) =~= probes.skip(due));
}

/// Removing a probe right after its insertion restores what was there.
pub proof fn law_insert_then_remove(probes: Seq<PendingProbe>, probe: PendingProbe)
    requires
        sequences_distinct(probes),
        !holds_sequence(probes, probe.wire_seq),
    ensures
        holds_sequence(probes.push(probe), probe.wire_seq),
        position_of(probes.push(probe), probe.wire_seq) == probes.len(),
        probes.push(probe).remove(probes.len() as int) == probes,
{
    let grown = probes.push(probe);
    assert(grown[probes.len() as int].wire_seq == probe.wire_seq);
    let at = position_of(grown, probe.wire_seq);
    assert(grown[at].wire_seq == probe.wire_seq);
    if at < probes.len() {
        assert(probes[at].wire_seq == probe.wire_seq);
    }
    assert(grown.remove(probes.len() as int) =~= probes);
}

/// Position of `seq` in `order`, counted from the front.
fn find_sequence(order: &VecDeque<u32>, seq: u32) -> (result: Option<usize>)
    ensures
        match result {
            Some(i) => i < order@.len() && order@[i as int] == seq,
            None => !order@.contains(seq),
        },
{
    let mut i: usize = 0;
    while i < order.len()
        invariant
            i <= order@.len(),
            forall|j: int| 0 <= j < i ==> order@[j] != seq,
        decreases order@.len() - i,
    {
        if order[i] == seq {
            return Some(i);
        }
        i += 1;
    }
    None
}

/// Probes that timed out, oldest first, kept so that a late reply can still be
/// recognised. When full, the oldest one makes room.
#[derive(Debug)]
pub struct TimedOutMap {
    map: HashMap<u32, PendingProbe>,
    insertion_order: VecDeque<u32>,
    max_capacity: usize,
}

impl TimedOutMap {
    /// The retained probes in insertion order.
    pub closed spec fn view(&self) -> Seq<PendingProbe> {
        Seq::new(self.insertion_order@.len(), |i: int| self.map@[self.insertion_order@[i]])
    }

    pub closed spec fn limit(&self) -> usize {
        self.max_capacity
    }

    /// Every retained probe is listed once under its own number, and there are
    /// no more of them than the limit.
    pub closed spec fn wf(&self) -> bool {
        &&& self.insertion_order@.no_duplicates()
        &&& self.insertion_order@.len() <= self.max_capacity
        &&& forall|key: u32| #[trigger]
            self.map@.contains_key(key) <==> self.insertion_order@.contains(key)
        &&& forall|i: int|
            0 <= i < self.insertion_order@.len()
                ==> self.map@[#[trigger] self.insertion_order@[i]].wire_seq
                == self.insertion_order@[i]
    }

    /// A well-formed map holds no sequence number twice and stays within its limit.
    pub proof fn lemma_wf(&self)
        requires
            self.wf(),
        ensures
            sequences_distinct(self.view()),
            self.view().len() <= self.limit(),
    {
    }

    proof fn lemma_contains(&self, key: u32)
        requires
            self.wf(),
        ensures
            self.map@.contains_key(key) <==> holds_sequence(self.view(), key),
            self.map@.contains_key(key) ==> {
                let i = position_of(self.view(), key);
                &&& 0 <= i < self.insertion_order@.len()
                &&& self.insertion_order@[i] == key
                &&& self.view()[i] == self.map@[key]
            },
    {
        let order = self.insertion_order@;
        if self.map@.contains_key(key) {
            let i = choose|i: int| 0 <= i < order.len() && order[i] == key;
            assert(self.view()[i].wire_seq == key);
        }
        if holds_sequence(self.view(), key) {
            let i = position_of(self.view(), key);
            assert(self.view()[i].wire_seq == key);
            assert(order[i] == key);
        }
    }

    proof fn lemma_len(&self)
        requires
            self.wf(),
        ensures
            self.map@.len() == self.view().len(),
    {
        assert forall|key: u32| self.map@.dom().contains(key)
            <==> self.insertion_order@.contains(key) by {
            assert(self.map@.contains_key(key) <==> self.insertion_order@.contains(key));
        }
        lemma_to_set_len(self.insertion_order@, self.map@.dom());
    }

    pub fn new(max_capacity: usize) -> (result: TimedOutMap)
        ensures
            result.wf(),
            result.view() == Seq::<PendingProbe>::empty(),
            result.limit() == max_capacity,
    {
        let result = TimedOutMap {
            map: HashMap::new(),
            insertion_order: VecDeque::new(),
            max_capacity,
        };
        assert(result.view() =~= Seq::<PendingProbe>::empty());
        result
    }

    /// Retains `probe`. One with the same number is replaced in place. When
    /// the limit is reached the oldest probe goes; a limit of zero retains none.
    pub fn insert(&mut self, probe: PendingProbe)
        requires
            old(self).wf(),
        ensures
            final(self).wf(),
            final(self).limit() == old(self).limit(),
            final(self).view() == retained(old(self).view(), old(self).limit(), probe),
    {
        proof {
            self.lemma_contains(probe.wire_seq);
            self.lemma_len();
        }
        if self.max_capacity == 0 {
            return;
        }
        if self.map.contains_key(&probe.wire_seq) {
            let ghost at = position_of(self.view(), probe.wire_seq);
            self.map.insert(probe.wire_seq, probe);
            assert(self.view() =~= old(self).view().update(at, probe));
            return;
        }
        if self.map.len() >= self.max_capacity {
            self.evict_oldest();
        }
        let ghost kept = self.view();
        let ghost order = self.insertion_order@;
        proof {
            self.lemma_contains(probe.wire_seq);
            if holds_sequence(kept, probe.wire_seq) {
                let i = position_of(kept, probe.wire_seq);
                assert(old(self).view()[i].wire_seq == probe.wire_seq || old(self).view()[i
                    + 1].wire_seq == probe.wire_seq);
            }
        }
        self.insertion_order.push_back(probe.wire_seq);
        self.map.insert(probe.wire_seq, probe);
        proof {
            let grown = self.insertion_order@;
            assert forall|key: u32| #[trigger]
                self.map@.contains_key(key) <==> grown.contains(key) by {
                if order.contains(key) {
                    let i = choose|i: int| 0 <= i < order.len() && order[i] == key;
                    assert(grown[i] == key);
                }
                if grown.contains(key) && key != probe.wire_seq {
                    let i = choose|i: int| 0 <= i < grown.len() && grown[i] == key;
                    assert(order[i] == key);
                }
                assert(grown[order.len() as int] == probe.wire_seq);
            }
            assert forall|i: int| 0 <= i < order.len() implies self.view()[i] == kept[i] by {
                assert(order.contains(order[i]));
            }
            assert(self.view() =~= kept.push(probe));
        }
    }

    pub fn remove(&mut self, wire_seq: u32) -> (result: Option<PendingProbe>)
        requires
            old(self).wf(),
        ensures
            final(self).wf(),
            final(self).limit() == old(self).limit(),
            match result {
                Some(probe) => {
                    let i = position_of(old(self).view(), wire_seq);
                    &&& holds_sequence(old(self).view(), wire_seq)
                    &&& probe == old(self).view()[i]
                    &&& final(self).view() == old(self).view().remove(i)
                },
                None => {
                    &&& !holds_sequence(old(self).view(), wire_seq)
                    &&& final(self).view() == old(self).view()
                },
            },
    {
        proof {
            self.lemma_contains(wire_seq);
        }
        let removed = self.map.remove(&wire_seq);
        if removed.is_some() {
            let ghost at = position_of(old(self).view(), wire_seq);
            let ghost order = self.insertion_order@;
            assert(order.contains(wire_seq));
            if let Some(i) = find_sequence(&self.insertion_order, wire_seq) {
                assert(i == at);
                self.insertion_order.remove(i);
            }
            proof {
                lemma_timed_out_removed(*old(self), *self, at);
            }
        } else {
            assert(self.map@ =~= old(self).map@);
        }
        removed
    }

    /// Access to a retained probe that leaves the eviction order alone. It
    /// serves to attach a kernel transmit timestamp that arrives late.
    pub fn get_mut(&mut self, wire_seq: u32) -> (result: Option<&mut PendingProbe>)
        requires
            old(self).wf(),
        ensures
            match result {
                Some(probe) => {
                    let i = position_of(old(self).view(), wire_seq);
                    &&& holds_sequence(old(self).view(), wire_seq)
                    &&& *probe == old(self).view()[i]
                    &&& final(self).view() == old(self).view().update(i, *final(probe))
                    &&& final(self).limit() == old(self).limit()
                    &&& final(probe).wire_seq == wire_seq ==> final(self).wf()
                },
                None => {
                    &&& !holds_sequence(old(self).view(), wire_seq)
                    &&& final(self).wf()
                    &&& final(self).view() == old(self).view()
                    &&& final(self).limit() == old(self).limit()
                },
            },
    {
        proof {
            self.lemma_contains(wire_seq);
            if self.map@.contains_key(wire_seq) {
                let at = position_of(self.view(), wire_seq);
                let order = self.insertion_order@;
                assert forall|probe: PendingProbe| {
                    let new = #[trigger] self.map@.insert(wire_seq, probe);
                    Seq::new(order.len(), |i: int| new[order[i]]) == self.view().update(at, probe)
                } by {
                    let new = self.map@.insert(wire_seq, probe);
                    assert(Seq::new(order.len(), |i: int| new[order[i]]) =~= self.view().update(
                        at,
                        probe,
                    ));
                }
            }
        }
        match self.map.entry(wire_seq) {
            Entry::Occupied(entry) => Some(entry.into_mut()),
            Entry::Vacant(_) => {
                assert(old(self).map@.remove(wire_seq) =~= old(self).map@);
                None
            },
        }
    }

    pub fn clear(&mut self)
        requires
            old(self).wf(),
        ensures
            final(self).wf(),
            final(self).view() == Seq::<PendingProbe>::empty(),
            final(self).limit() == old(self).limit(),
    {
        self.map.clear();
        self.insertion_order.clear();
        assert(self.view() =~= Seq::<PendingProbe>::empty());
    }

    pub fn len(&self) -> (result: usize)
        requires
            self.wf(),
        ensures
            result == self.view().len(),
    {
        proof {
            self.lemma_len();
        }
        self.map.len()
    }

    /// The latest deadline among the retained probes.
    pub fn latest_timeout_deadline(&self) -> (result: Option<Instant>)
        requires
            self.wf(),
        ensures
            match result {
                Some(latest) => {
                    &&& exists|i: int|
                        0 <= i < self.view().len() && (#[trigger] self.view()[i]).timeout_at
                            == latest
                    &&& forall|i: int|
                        0 <= i < self.view().len() ==> (
                        #[trigger] self.view()[i]).timeout_at.nanos <= latest.nanos
                },
                None => self.view().len() == 0,
            },
    {
        let mut latest: Option<Instant> = None;
        let mut i: usize = 0;
        while i < self.insertion_order.len()
            invariant
                self.wf(),
                i <= self.insertion_order@.len(),
                i > 0 <==> latest is Some,
                match latest {
                    Some(latest) => {
                        &&& exists|j: int|
                            0 <= j < i && (#[trigger] self.view()[j]).timeout_at == latest
                        &&& forall|j: int|
                            0 <= j < i ==> (#[trigger] self.view()[j]).timeout_at.nanos
                                <= latest.nanos
                    },
                    None => true,
                },
            decreases self.insertion_order@.len() - i,
        {
            let key: u32 = self.insertion_order[i];
            assert(self.insertion_order@.contains(key));
            assert(self.view()[i as int] == self.map@[key]);
            if let Some(probe) = self.map.get(&key) {
                let later: bool = match latest {
                    Some(latest) => latest.nanos < probe.timeout_at.nanos,
                    None => true,
                };
                if later {
                    latest = Some(probe.timeout_at);
                }
            }
            i += 1;
        }
        latest
    }

    pub fn contains(&self, wire_seq: u32) -> (result: bool)
        requires
            self.wf(),
        ensures
            result == holds_sequence(self.view(), wire_seq),
    {
        proof {
            self.lemma_contains(wire_seq);
        }
        self.map.contains_key(&wire_seq)
    }

    /// Length of the eviction order, which always lists the retained probes.
    pub fn insertion_order_len(&self) -> (result: usize)
        requires
            self.wf(),
        ensures
            result == self.view().len(),
    {
        self.insertion_order.len()
    }

    fn evict_oldest(&mut self)
        requires
            old(self).wf(),
            old(self).view().len() > 0,
        ensures
            final(self).wf(),
            final(self).limit() == old(self).limit(),
            final(self).view() == old(self).view().drop_first(),
    {
        assert(self.insertion_order@.contains(self.insertion_order@[0]));
        if let Some(oldest) = self.insertion_order.pop_front() {
            self.map.remove(&oldest);
            proof {
                assert(old(self).insertion_order@.drop_first() =~= old(self).insertion_order@.remove(
                    0,
                ));
                lemma_timed_out_removed(*old(self), *self, 0);
                assert(old(self).view().remove(0) =~= old(self).view().drop_first());
            }
        }
    }
}

proof fn lemma_timed_out_removed(before: TimedOutMap, after: TimedOutMap, at: int)
    requires
        before.wf(),
        0 <= at < before.insertion_order@.len(),
        after.insertion_order@ == before.insertion_order@.remove(at),
        after.map@ == before.map@.remove(before.insertion_order@[at]),
        after.max_capacity == before.max_capacity,
    ensures
        after.wf(),
        after.view() == before.view().remove(at),
{
    let order = before.insertion_order@;
    let rest = after.insertion_order@;
    assert forall|i: int| 0 <= i < rest.len() implies #[trigger] rest[i] == order[if i < at {
        i
    } else {
        i + 1
    }] by {}
    assert forall|key: u32| #[trigger] after.map@.contains_key(key) <==> rest.contains(key) by {
        if order.contains(key) && key != order[at] {
            let i = choose|i: int| 0 <= i < order.len() && order[i] == key;
            assert(rest[if i < at { i } else { i - 1 }] == key);
        }
        if rest.contains(key) {
            let i = choose|i: int| 0 <= i < rest.len() && rest[i] == key;
            assert(order[if i < at { i } else { i + 1 }] == key);
            assert(order.contains(key));
        }
        assert(before.map@.contains_key(key) <==> order.contains(key));
    }
    assert(after.view() =~= before.view().remove(at));
}

/// Sequence numbers that were answered, oldest first, so that duplicates can
/// be told apart. When full, the oldest one makes room.
#[derive(Debug)]
pub struct CompletedSet {
    set: HashSet<u32>,
    insertion_order: VecDeque<u32>,
    max_capacity: usize,
}

impl CompletedSet {
    /// The remembered sequence numbers in insertion order.
    pub closed spec fn view(&self) -> Seq<u32> {
        self.insertion_order@
    }

    pub closed spec fn limit(&self) -> usize {
        self.max_capacity
    }

    /// Every remembered number is listed once. At least one number is
    /// remembered even under a limit of zero.
    pub closed spec fn wf(&self) -> bool {
        &&& self.insertion_order@.no_duplicates()
        &&& self.insertion_order@.len() <= self.max_capacity || self.insertion_order@.len() <= 1
        &&& forall|seq: u32| #[trigger]
            self.set@.contains(seq) <==> self.insertion_order@.contains(seq)
    }

    /// A well-formed set lists no number twice and stays within its limit, or
    /// within one entry where the limit is zero.
    pub proof fn lemma_wf(&self)
        requires
            self.wf(),
        ensures
            self.view().no_duplicates(),
            self.view().len() <= self.limit() || self.view().len() <= 1,
    {
    }

    pub fn new(max_capacity: usize) -> (result: CompletedSet)
        ensures
            result.wf(),
            result.view() == Seq::<u32>::empty(),
            result.limit() == max_capacity,
    {
        CompletedSet { set: HashSet::new(), insertion_order: VecDeque::new(), max_capacity }
    }

    /// Remembers `seq`. A number that is known already keeps its age.
    pub fn insert(&mut self, seq: u32)
        requires
            old(self).wf(),
        ensures
            final(self).wf(),
            final(self).limit() == old(self).limit(),
            final(self).view() == remembered(old(self).view(), old(self).limit(), seq),
    {
        if self.set.contains(&seq) {
            return;
        }
        proof {
            lemma_to_set_len(self.insertion_order@, self.set@);
        }
        if self.set.len() >= self.max_capacity {
            self.evict_oldest();
        }
        let ghost order = self.insertion_order@;
        self.insertion_order.push_back(seq);
        self.set.insert(seq);
        proof {
            let grown = self.insertion_order@;
            assert(!order.contains(seq));
            assert forall|key: u32| #[trigger] self.set@.contains(key) <==> grown.contains(key) by {
                if order.contains(key) {
                    let i = choose|i: int| 0 <= i < order.len() && order[i] == key;
                    assert(grown[i] == key);
                }
                if grown.contains(key) && key != seq {
                    let i = choose|i: int| 0 <= i < grown.len() && grown[i] == key;
                    assert(order[i] == key);
                }
                assert(grown[order.len() as int] == seq);
            }
        }
    }

    pub fn contains(&self, seq: u32) -> (result: bool)
        requires
            self.wf(),
        ensures
            result == self.view().contains(seq),
    {
        self.set.contains(&seq)
    }

    pub fn len(&self) -> (result: usize)
        requires
            self.wf(),
        ensures
            result == self.view().len(),
    {
        self.insertion_order.len()
    }

    /// Forgets `seq`, and tells whether it was known.
    pub fn remove(&mut self, seq: u32) -> (result: bool)
        requires
            old(self).wf(),
        ensures
            final(self).wf(),
            final(self).limit() == old(self).limit(),
            result == old(self).view().contains(seq),
            final(self).view() == (if result {
                old(self).view().remove(old(self).view().index_of(seq))
            } else {
                old(self).view()
            }),
    {
        let ghost order = self.insertion_order@;
        let removed: bool = self.set.remove(&seq);
        if removed {
            if let Some(i) = find_sequence(&self.insertion_order, seq) {
                assert(order.index_of(seq) == i) by {
                    assert(order[order.index_of(seq)] == seq);
                }
                self.insertion_order.remove(i);
                proof {
                    lemma_completed_removed(*old(self), *self, i as int);
                }
            }
        }
        removed
    }

    fn evict_oldest(&mut self)
        requires
            old(self).wf(),
        ensures
            final(self).wf(),
            final(self).limit() == old(self).limit(),
            final(self).view() == (if old(self).view().len() > 0 {
                old(self).view().drop_first()
            } else {
                old(self).view()
            }),
    {
        if let Some(oldest) = self.insertion_order.pop_front() {
            self.set.remove(&oldest);
            proof {
                assert(old(self).insertion_order@.drop_first() =~= old(self).insertion_order@.remove(
                    0,
                ));
                lemma_completed_removed(*old(self), *self, 0);
            }
        }
    }
}

proof fn lemma_completed_removed(before: CompletedSet, after: CompletedSet, at: int)
    requires
        before.wf(),
        0 <= at < before.insertion_order@.len(),
        after.insertion_order@ == before.insertion_order@.remove(at),
        after.set@ == before.set@.remove(before.insertion_order@[at]),
        after.max_capacity == before.max_capacity,
    ensures
        after.wf(),
{
    let order = before.insertion_order@;
    let rest = after.insertion_order@;
    assert forall|key: u32| #[trigger] after.set@.contains(key) <==> rest.contains(key) by {
        if order.contains(key) && key != order[at] {
            let i = choose|i: int| 0 <= i < order.len() && order[i] == key;
            assert(rest[if i < at { i } else { i - 1 }] == key);
        }
        if rest.contains(key) {
            let i = choose|i: int| 0 <= i < rest.len() && rest[i] == key;
            assert(order[if i < at { i } else { i + 1 }] == key);
            assert(order.contains(key));
        }
        assert(before.set@.contains(key) <==> order.contains(key));
    }
}

/// `probes` once `probe` is retained too. One with the same number is replaced
/// in place. When the limit is reached the oldest goes; a limit of zero retains
/// none.
pub open spec fn retained(probes: Seq<PendingProbe>, limit: usize, probe: PendingProbe) -> Seq<
    PendingProbe,
> {
    if limit == 0 {
        probes
    } else if holds_sequence(probes, probe.wire_seq) {
        probes.update(position_of(probes, probe.wire_seq), probe)
    } else if probes.len() >= limit {
        probes.drop_first().push(probe)
    } else {
        probes.push(probe)
    }
}

/// What is retained of `probes`, inserted in order.
pub open spec fn retained_all(limit: usize, probes: Seq<PendingProbe>) -> Seq<PendingProbe>
    decreases probes.len(),
{
    if probes.len() == 0 {
        Seq::empty()
    } else {
        retained(retained_all(limit, probes.drop_last()), limit, probes.last())
    }
}

/// The last of `items`, as many as `limit` allows.
pub open spec fn latest<T>(items: Seq<T>, limit: int) -> Seq<T> {
    if items.len() <= limit {
        items
    } else {
        items.skip(items.len() - limit)
    }
}

/// Of probes with numbers of their own the most recent ones are retained, in
/// the order in which they came, as many as the limit allows.
pub proof fn law_recent_probes_are_retained(limit: usize, probes: Seq<PendingProbe>)
    requires
        sequences_distinct(probes),
    ensures
        retained_all(limit, probes) == latest(probes, limit as int),
    decreases probes.len(),
{
    if probes.len() == 0 {
        assert(latest(probes, limit as int) =~= Seq::<PendingProbe>::empty());
    } else {
        let rest = probes.drop_last();
        assert(sequences_distinct(rest)) by {
            assert forall|i: int, j: int|
                0 <= i < rest.len() && 0 <= j < rest.len() && i != j implies (
            #[trigger] rest[i]).wire_seq != (#[trigger] rest[j]).wire_seq by {
                assert(rest[i] == probes[i] && rest[j] == probes[j]);
            }
        }
        law_recent_probes_are_retained(limit, rest);
        let kept = latest(rest, limit as int);
        if holds_sequence(kept, probes.last().wire_seq) {
            let i = position_of(kept, probes.last().wire_seq);
            let at = i + rest.len() - kept.len();
            assert(kept[i] == rest[at]);
            assert(probes[at].wire_seq != probes[probes.len() - 1].wire_seq);
        }
        assert(retained_all(limit, probes) =~= latest(probes, limit as int));
    }
}

/// A probe whose number is retained already takes the place of the one that
/// was, and none goes for it.
pub proof fn law_known_probe_is_replaced(
    probes: Seq<PendingProbe>,
    limit: usize,
    probe: PendingProbe,
    at: int,
)
    requires
        limit > 0,
        sequences_distinct(probes),
        0 <= at < probes.len(),
        probes[at].wire_seq == probe.wire_seq,
    ensures
        retained(probes, limit, probe).len() == probes.len(),
        retained(probes, limit, probe)[at] == probe,
        forall|i: int|
            0 <= i < probes.len() && i != at ==> (#[trigger] retained(probes, limit, probe)[i])
                == probes[i],
{
    let found = position_of(probes, probe.wire_seq);
    assert(probes[found].wire_seq == probes[at].wire_seq);
}

/// `numbers` once `seq` is remembered too. A number that is known already keeps
/// its age.
pub open spec fn remembered(numbers: Seq<u32>, limit: usize, seq: u32) -> Seq<u32> {
    if numbers.contains(seq) {
        numbers
    } else if numbers.len() >= limit && numbers.len() > 0 {
        numbers.drop_first().push(seq)
    } else {
        numbers.push(seq)
    }
}

/// What is remembered of `numbers`, inserted in order.
pub open spec fn remembered_all(limit: usize, numbers: Seq<u32>) -> Seq<u32>
    decreases numbers.len(),
{
    if numbers.len() == 0 {
        Seq::empty()
    } else {
        remembered(remembered_all(limit, numbers.drop_last()), limit, numbers.last())
    }
}

/// Of different numbers the most recent ones are remembered, in the order in
/// which they came, as many as the limit allows and at least one. A number that
/// is remembered is not remembered twice, and none goes for it.
pub proof fn law_recent_numbers_are_remembered(limit: usize, numbers: Seq<u32>, seq: u32)
    requires
        numbers.no_duplicates(),
    ensures
        remembered_all(limit, numbers) == latest(
            numbers,
            if limit == 0 {
                1
            } else {
                limit as int
            },
        ),
        numbers.contains(seq) ==> remembered(numbers, limit, seq) == numbers,
    decreases numbers.len(),
{
    let most = if limit == 0 {
        1
    } else {
        limit as int
    };
    if numbers.len() == 0 {
        assert(latest(numbers, most) =~= Seq::<u32>::empty());
    } else {
        let rest = numbers.drop_last();
        law_recent_numbers_are_remembered(limit, rest, seq);
        let kept = latest(rest, most);
        if kept.contains(numbers.last()) {
            let i = choose|i: int| 0 <= i < kept.len() && kept[i] == numbers.last();
            let at = i + rest.len() - kept.len();
            assert(kept[i] == rest[at]);
            assert(numbers[at] == numbers[numbers.len() - 1]);
        }
        assert(remembered_all(limit, numbers) =~= latest(numbers, most));
    }
}

} // verus!
