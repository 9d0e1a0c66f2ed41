//! The request correlator: issues unique non-zero request identifiers and
//! keeps the mapping from identifier to the promise awaiting its response.
//!
//! The identifier map is a std `HashMap<u64, u64>` from identifier to
//! promise-slot index. The design shares this map between caller threads
//! and the receive loop; here the transport serializes every access under
//! one lock, so a sequential map holds the same contents. A sharded
//! concurrent map was considered and rejected: chashmap's probe loops abort
//! the process on an absent key once delete tombstones exhaust the table's
//! empty buckets, and this map's workload — insert one identifier per
//! request, remove it on response, with stray response identifiers that
//! must stay harmless — reaches exactly that state on a long-lived
//! connection. The promise slots themselves live in an append-only vector,
//! so a caller's claim stays readable after the identifier is retired.
//!
//! Invariants proved here: pending identifiers are non-zero, below the
//! allocation counter and mapped one-to-one onto unset slots, and a slot is
//! unset exactly while its identifier is pending. The fatal
//! duplicate-registration case of the design is therefore unreachable in
//! `register`, and `drainAll` leaves no promise unresolved.

use std::collections::HashMap;

use vstd::prelude::*;

use crate::errors::ConnError;
use crate::future::Future;

verus! {

broadcast use vstd::std_specs::hash::group_hash_axioms;

/// The caller's claim on one response: which request identifier it was
/// issued, and which promise slot will receive the result.
pub struct PeerResponse {
    rid: u64,
    rslot: usize,
}

impl PeerResponse {
    /// The request identifier this claim was issued under.
    pub closed spec fn id(self) -> u64 {
        self.rid
    }

    /// The index of the promise slot bound to this claim.
    pub closed spec fn slot(self) -> int {
        self.rslot as int
    }

    /// The request identifier, for callers outside verified code.
    #[allow(non_snake_case)]
    pub fn reqId(&self) -> (x: u64)
        ensures
            x == self.id(),
    {
        self.rid
    }

    /// The slot index, for callers outside verified code.
    #[allow(non_snake_case)]
    pub fn slotIndex(&self) -> (x: usize)
        ensures
            x as int == self.slot(),
    {
        self.rslot
    }
}

/// The producer half of one pending request: the unset promise slot the
/// correlator keeps until the response arrives or the connection dies, and
/// when the request was issued.
pub struct PendingPeerResponse {
    fut: Future<Vec<u8>, ConnError>,
    issued_at_ms: u64,
}

impl PendingPeerResponse {
    /// The promise slot's content.
    pub closed spec fn value(self) -> Option<Result<Vec<u8>, ConnError>> {
        self.fut.value()
    }

    /// Whether the promise has settled.
    pub open spec fn done(self) -> bool {
        self.value() is Some
    }

    /// When the request was issued, in the connection's clock.
    pub closed spec fn issued_at(self) -> u64 {
        self.issued_at_ms
    }
}

/// Builds the two halves of one pending request: the caller's claim and the
/// unset promise the correlator will keep under the same identifier.
#[allow(non_snake_case)]
pub fn responsePair(id: u64, slot: usize, nowMs: u64) -> (r: (PeerResponse, PendingPeerResponse))
    ensures
        r.0.id() == id,
        r.0.slot() == slot,
        !r.1.done(),
        r.1.issued_at() == nowMs,
{
    let resp = PeerResponse { rid: id, rslot: slot };
    let pend = PendingPeerResponse { fut: Future::new(), issued_at_ms: nowMs };
    (resp, pend)
}

/// Outstanding request identifiers are unique among themselves — the map
/// holds each at most once — and never zero, and the identifier the next
/// request will be issued is not outstanding. Holds in every well-formed
/// correlator state.
pub proof fn lemma_ids_nonzero_and_fresh(c: Correlator)
    requires
        c.wf(),
    ensures
        forall|k: u64| #[trigger] c.ids().contains_key(k) ==> k != 0,
        c.next_id() != 0,
        !c.ids().contains_key(c.next_id()),
{
    if c.ids().contains_key(c.next_id()) {
        assert(c.next_id() < c.next_id());
    }
}

/// Two distinct outstanding requests never share a promise slot, so a
/// response routed under one identifier can only fulfil that identifier's
/// own promise, never another caller's — whatever order responses arrive
/// in. Holds in every well-formed correlator state.
pub proof fn lemma_distinct_claims_distinct_slots(c: Correlator, id1: u64, id2: u64)
    requires
        c.wf(),
        c.ids().contains_key(id1),
        c.ids().contains_key(id2),
        id1 != id2,
    ensures
        c.ids()[id1] != c.ids()[id2],
{
}

/// A response routed under one outstanding identifier fulfils exactly that
/// identifier's promise with its payload and leaves every other caller's
/// promise untouched, whatever order responses arrive in. `post` is any
/// state `resolve` may produce from `pre` for `id` and `payload` — the
/// premises below are `resolve`'s own contract for a pending identifier —
/// and `other` is any other outstanding identifier: its promise is exactly
/// as it was, still awaiting its own response.
pub proof fn lemma_resolution_routes_by_id(
    pre: Correlator,
    post: Correlator,
    other: u64,
    id: u64,
    payload: Vec<u8>,
)
    requires
        pre.wf(),
        pre.ids().contains_key(other),
        pre.ids().contains_key(id),
        other != id,
        post.ids() == pre.ids().remove(id),
        post.slot_seq().len() == pre.slot_seq().len(),
        post.slot_seq()[pre.ids()[id] as int].value() == Some(Ok::<Vec<u8>, ConnError>(payload)),
        forall|i: int|
            0 <= i < pre.slot_seq().len() && i != pre.ids()[id] as int ==> post.slot_seq()[i]
                == pre.slot_seq()[i],
    ensures
        post.slot_seq()[pre.ids()[id] as int].value() == Some(Ok::<Vec<u8>, ConnError>(payload)),
        post.slot_seq()[pre.ids()[other] as int] == pre.slot_seq()[pre.ids()[other] as int],
        !pre.slot_seq()[pre.ids()[other] as int].done(),
        post.ids().contains_key(other),
{
    lemma_distinct_claims_distinct_slots(pre, other, id);
}

/// The request correlator.
pub struct Correlator {
    reqno: u64,
    pending: HashMap<u64, u64>,
    slots: Vec<PendingPeerResponse>,
}

impl Correlator {
    /// The pending identifiers, each mapped to its promise-slot index.
    pub closed spec fn ids(self) -> Map<u64, u64> {
        self.pending@
    }

    /// All promise slots ever created, in issue order.
    pub closed spec fn slot_seq(self) -> Seq<PendingPeerResponse> {
        self.slots@
    }

    /// The identifier the next request will be issued.
    pub closed spec fn next_id(self) -> u64 {
        self.reqno
    }

    /// Whether some pending identifier is bound to slot `i`.
    pub open spec fn slot_claimed(self, i: int) -> bool {
        exists|k: u64| #[trigger] self.ids().contains_key(k) && self.ids()[k] == i
    }

    /// The correlator's invariant: pending identifiers are non-zero, below
    /// the allocation counter, and bound one-to-one to unset slots; a slot
    /// is unset exactly while an identifier is bound to it.
    pub open spec fn wf(self) -> bool {
        &&& self.ids().dom().finite()
        &&& self.next_id() >= 1
        &&& forall|k: u64| #[trigger]
            self.ids().contains_key(k) ==> 0 < k < self.next_id()
        &&& forall|k: u64| #[trigger]
            self.ids().contains_key(k) ==> (self.ids()[k] as int) < self.slot_seq().len()
        &&& forall|k1: u64, k2: u64|
            #![trigger self.ids()[k1], self.ids()[k2]]
            self.ids().contains_key(k1) && self.ids().contains_key(k2) && k1 != k2
                ==> self.ids()[k1] != self.ids()[k2]
        &&& forall|k: u64| #[trigger]
            self.ids().contains_key(k) ==> !self.slot_seq()[self.ids()[k] as int].done()
        &&& forall|i: int|
            0 <= i < self.slot_seq().len() && !(#[trigger] self.slot_seq()[i]).done()
                ==> self.slot_claimed(i)
    }

    /// A fresh correlator: no pending requests, counter at 1.
    pub fn new() -> (c: Correlator)
        ensures
            c.wf(),
            c.ids() == Map::<u64, u64>::empty(),
            c.slot_seq().len() == 0,
            c.next_id() == 1,
    {
        Correlator { reqno: 1, pending: HashMap::new(), slots: Vec::new() }
    }

    /// Issues the next request identifier; never 0, never one that is still
    /// pending.
    pub fn allocate(&mut self) -> (id: u64)
        requires
            old(self).wf(),
            old(self).next_id() < u64::MAX,
        ensures
            final(self).wf(),
            id == old(self).next_id(),
            id != 0,
            !old(self).ids().contains_key(id),
            final(self).next_id() == id + 1,
            final(self).ids() == old(self).ids(),
            final(self).slot_seq() == old(self).slot_seq(),
    {
        let id = self.reqno;
        self.reqno = self.reqno + 1;
        proof {
            let pre = *old(self);
            let post = *self;
            assert forall|i: int|
                0 <= i < post.slot_seq().len() && !(#[trigger] post.slot_seq()[i]).done() implies
                post.slot_claimed(i) by {
                assert(!pre.slot_seq()[i].done());
                assert(pre.slot_claimed(i));
                let k = choose|k: u64| #[trigger] pre.ids().contains_key(k) && pre.ids()[k] == i;
                assert(post.ids().contains_key(k) && post.ids()[k] == i);
            }
        }
        id
    }

    /// Binds a fresh identifier to a new unset promise slot. The identifier
    /// uniqueness invariant makes the fatal duplicate-registration case
    /// unreachable here, and that is proved rather than checked at run time.
    #[allow(non_snake_case)]
    pub fn register(&mut self, id: u64, nowMs: u64) -> (r: PeerResponse)
        requires
            old(self).wf(),
            id != 0,
            id < old(self).next_id(),
            !old(self).ids().contains_key(id),
        ensures
            final(self).wf(),
            r.id() == id,
            r.slot() == old(self).slot_seq().len(),
            final(self).ids() == old(self).ids().insert(id, old(self).slot_seq().len() as u64),
            final(self).slot_seq().len() == old(self).slot_seq().len() + 1,
            forall|i: int|
                0 <= i < old(self).slot_seq().len() ==> final(self).slot_seq()[i] == old(self).slot_seq()[i],
            !final(self).slot_seq()[old(self).slot_seq().len() as int].done(),
            final(self).slot_seq()[old(self).slot_seq().len() as int].issued_at() == nowMs,
            final(self).next_id() == old(self).next_id(),
    {
        let slot = self.slots.len();
        let (resp, pend) = responsePair(id, slot, nowMs);
        self.slots.push(pend);
        let _prev = self.pending.insert(id, slot as u64);
        proof {
            let pre = *old(self);
            let post = *self;
            assert forall|i: int|
                0 <= i < post.slot_seq().len() && !(#[trigger] post.slot_seq()[i]).done() implies
                post.slot_claimed(i) by {
                if i < pre.slot_seq().len() {
                    assert(pre.slot_seq()[i] == post.slot_seq()[i]);
                    assert(pre.slot_claimed(i));
                    let k = choose|k: u64| #[trigger]
                        pre.ids().contains_key(k) && pre.ids()[k] == i;
                    assert(post.ids().contains_key(k) && post.ids()[k] == i);
                } else {
                    assert(post.ids().contains_key(id) && post.ids()[id] == slot as u64);
                }
            }
        }
        resp
    }

    /// Removes the identifier's entry and fulfils its promise with the
    /// response payload. An identifier with no pending entry — a response to
    /// an unknown or already-resolved request — is dropped, not fatal.
    pub fn resolve(&mut self, id: u64, payload: Vec<u8>) -> (hit: bool)
        requires
            old(self).wf(),
        ensures
            final(self).wf(),
            hit == old(self).ids().contains_key(id),
            final(self).next_id() == old(self).next_id(),
            !hit ==> final(self).ids() == old(self).ids() && final(self).slot_seq() == old(self).slot_seq(),
            hit ==> final(self).ids() == old(self).ids().remove(id),
            hit ==> final(self).slot_seq().len() == old(self).slot_seq().len(),
            hit ==> final(self).slot_seq()[old(self).ids()[id] as int].value() == Some(
                Ok::<Vec<u8>, ConnError>(payload),
            ),
            hit ==> forall|i: int|
                0 <= i < old(self).slot_seq().len() && i != old(self).ids()[id] as int
                    ==> final(self).slot_seq()[i] == old(self).slot_seq()[i],
    {
        let _n = self.slots.len();
        let prev = self.pending.remove(&id);
        match prev {
            None => {
                proof {
                    let pre = *old(self);
                    let post = *self;
                    assert(post.ids() =~= pre.ids());
                    assert forall|i: int|
                        0 <= i < post.slot_seq().len() && !(#[trigger] post.slot_seq()[i]).done()
                        implies post.slot_claimed(i) by {
                        assert(!pre.slot_seq()[i].done());
                        assert(pre.slot_claimed(i));
                        let k = choose|k: u64| #[trigger]
                            pre.ids().contains_key(k) && pre.ids()[k] == i;
                        assert(post.ids().contains_key(k) && post.ids()[k] == i);
                    }
                }
                false
            },
            Some(slot64) => {
                proof {
                    let pre = *old(self);
                    assert(pre.ids().contains_key(id) && pre.ids()[id] == slot64);
                    assert((slot64 as int) < pre.slot_seq().len());
                    assert(!pre.slot_seq()[slot64 as int].done());
                }
                let slot = slot64 as usize;
                self.slots[slot].fut.set(Ok(payload));
                proof {
                    let pre = *old(self);
                    let post = *self;
                    assert(post.slot_seq()[slot64 as int].done());
                    assert forall|k: u64| #[trigger]
                        post.ids().contains_key(k) implies !post.slot_seq()[post.ids()[
                        k
                    ] as int].done() by {
                        assert(pre.ids().contains_key(k));
                        assert(k != id);
                        assert(pre.ids()[k] == post.ids()[k]);
                        assert(pre.ids()[k] != pre.ids()[id] || k == id);
                        assert(post.ids()[k] as int != slot64 as int);
                        assert(!pre.slot_seq()[pre.ids()[k] as int].done());
                    }
                    assert forall|i: int|
                        0 <= i < post.slot_seq().len() && !(#[trigger] post.slot_seq()[i]).done()
                        implies post.slot_claimed(i) by {
                        assert(i != slot64 as int);
                        assert(pre.slot_seq()[i] == post.slot_seq()[i]);
                        assert(pre.slot_claimed(i));
                        let k = choose|k: u64| #[trigger]
                            pre.ids().contains_key(k) && pre.ids()[k] == i;
                        // injectivity: k maps to a slot other than id's
                        assert(pre.ids()[k] != pre.ids()[id] || k == id);
                        assert(k != id);
                        assert(post.ids().contains_key(k) && post.ids()[k] == i);
                    }
                }
                true
            },
        }
    }

    /// Fulfils every still-pending promise with the terminal error and
    /// empties the identifier map: the drain step of connection teardown.
    /// No promise is left unresolved.
    #[allow(non_snake_case)]
    pub fn drainAll(&mut self, e: ConnError)
        requires
            old(self).wf(),
        ensures
            final(self).wf(),
            final(self).ids() == Map::<u64, u64>::empty(),
            final(self).next_id() == old(self).next_id(),
            final(self).slot_seq().len() == old(self).slot_seq().len(),
            forall|i: int|
                0 <= i < old(self).slot_seq().len() && old(self).slot_seq()[i].done() ==> final(self).slot_seq()[i] == old(self).slot_seq()[i],
            forall|i: int|
                0 <= i < old(self).slot_seq().len() && !old(self).slot_seq()[i].done() ==> final(self).slot_seq()[i].value() == Some(Err::<Vec<u8>, ConnError>(e)),
            forall|i: int| 0 <= i < final(self).slot_seq().len() ==> (#[trigger] final(self).slot_seq()[i]).done(),
    {
        let n = self.slots.len();
        let mut i: usize = 0;
        while i < n
            invariant
                i <= n,
                n == self.slots@.len(),
                self.reqno == old(self).reqno,
                self.pending == old(self).pending,
                forall|j: int|
                    0 <= j < i ==> (#[trigger] self.slots@[j]).done(),
                forall|j: int|
                    0 <= j < i && old(self).slots@[j].done() ==> self.slots@[j] == old(self).slots@[j],
                forall|j: int|
                    0 <= j < i && !old(self).slots@[j].done() ==> self.slots@[j].value() == Some(
                        Err::<Vec<u8>, ConnError>(e),
                    ),
                forall|j: int| i <= j < n ==> self.slots@[j] == old(self).slots@[j],
            decreases n - i,
        {
            if !self.slots[i].fut.isDone() {
                self.slots[i].fut.set(Err(e));
            }
            i += 1;
        }
        self.pending.clear();
    }

    /// Whether the caller's promise has settled.
    pub fn ready(&self, r: &PeerResponse) -> (b: bool)
        requires
            0 <= r.slot() < self.slot_seq().len(),
        ensures
            b == self.slot_seq()[r.slot()].done(),
    {
        self.slots[r.slotIndex()].fut.isDone()
    }

    /// The settled result under the caller's claim. Every reader of the same
    /// claim sees the same result.
    pub fn result(&self, r: &PeerResponse) -> (res: &Result<Vec<u8>, ConnError>)
        requires
            0 <= r.slot() < self.slot_seq().len(),
            self.slot_seq()[r.slot()].done(),
        ensures
            self.slot_seq()[r.slot()].value() == Some(*res),
    {
        self.slots[r.slotIndex()].fut.get()
    }

    /// The identifier the next request will be issued, for callers outside
    /// verified code.
    #[allow(non_snake_case)]
    pub fn nextIdValue(&self) -> (n: u64)
        ensures
            n == self.next_id(),
    {
        self.reqno
    }

    /// How many promise slots exist.
    #[allow(non_snake_case)]
    pub fn slotCount(&self) -> (n: usize)
        ensures
            n == self.slot_seq().len(),
    {
        self.slots.len()
    }

    /// Whether some request has been pending longer than the timeout.
    pub open spec fn some_stale(self, timeoutMs: u64, nowMs: u64) -> bool {
        exists|i: int|
            0 <= i < self.slot_seq().len() && !(#[trigger] self.slot_seq()[i]).done()
                && self.slot_seq()[i].issued_at() + timeoutMs < nowMs
    }

    /// Checks every pending request's age against the timeout.
    #[allow(non_snake_case)]
    pub fn hasStale(&self, timeoutMs: u64, nowMs: u64) -> (b: bool)
        ensures
            b == self.some_stale(timeoutMs, nowMs),
    {
        let n = self.slots.len();
        let mut i: usize = 0;
        while i < n
            invariant
                i <= n,
                n == self.slots@.len(),
                forall|j: int|
                    0 <= j < i ==> !(!(#[trigger] self.slots@[j]).done() && self.slots@[j].issued_at()
                        + timeoutMs < nowMs),
            decreases n - i,
        {
            let stale = !self.slots[i].fut.isDone() && nowMs > timeoutMs
                && self.slots[i].issued_at_ms < nowMs - timeoutMs;
            if stale {
                proof {
                    assert(!(self.slot_seq()[i as int]).done() && self.slot_seq()[
                        i as int
                    ].issued_at() + timeoutMs < nowMs);
                }
                return true;
            }
            i += 1;
        }
        false
    }
}

} // verus!
