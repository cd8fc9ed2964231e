//! The peer registry: per-peer sync state for every connected peer. An
//! entry exists exactly while the peer is connected. The registry's
//! well-formedness carries the global invariant that a block hash is in
//! flight on at most one peer at a time.

use vstd::prelude::*;

use crate::types::Hash256;
use crate::types::Header;
use crate::types::PeerId;
use crate::types::BLOCK_DOWNLOAD_TIMEOUT_MS;
use crate::types::MAX_BLOCKS_IN_FLIGHT_PER_PEER;
use crate::types::MISBEHAVIOR_DISCONNECT_THRESHOLD;

verus! {

/// One in-flight block request: the requested hash and the time of the
/// request in milliseconds, used for expiry.
#[derive(PartialEq, Eq, Structural, Clone, Copy, Debug)]
pub struct InFlightEntry {
    pub hash: Hash256,
    pub requested_at: u64,
}

/// Sync state kept for one connected peer.
#[derive(Clone, Debug)]
pub struct PeerState {
    /// Best header advertised by or inferred for the peer.
    pub best_known_header: Option<Header>,
    /// Deepest ancestor known to be shared with the peer.
    pub last_common_header: Option<Header>,
    /// Block hashes requested from this peer and not yet received.
    pub in_flight_blocks: Vec<InFlightEntry>,
    /// Accumulated protocol-violation score.
    pub misbehavior_score: u64,
    /// Whether we are currently headers-syncing from this peer.
    pub sync_active: bool,
}

/// A peer's state holds each in-flight hash at most once, and never more
/// than the per-peer cap.
pub open spec fn state_inflight_unique(s: PeerState) -> bool {
    &&& forall|k1: int, k2: int|
        0 <= k1 < s.in_flight_blocks@.len() && 0 <= k2 < s.in_flight_blocks@.len() && k1 != k2
            ==> (#[trigger] s.in_flight_blocks@[k1]).hash
                != (#[trigger] s.in_flight_blocks@[k2]).hash
    &&& s.in_flight_blocks@.len() <= MAX_BLOCKS_IN_FLIGHT_PER_PEER
}

/// Whether an in-flight reservation is still within the download timeout
/// at time `now`.
pub open spec fn inflight_fresh(e: InFlightEntry, now: u64) -> bool {
    e.requested_at >= now || now - e.requested_at < BLOCK_DOWNLOAD_TIMEOUT_MS
}

/// Whether the state holds hash `h` in flight.
pub open spec fn state_has_inflight(s: PeerState, h: Hash256) -> bool {
    exists|k: int|
        0 <= k < s.in_flight_blocks@.len() && (#[trigger] s.in_flight_blocks@[k]).hash == h
}

impl PeerState {
    /// Fresh state for a newly connected peer: nothing known, nothing in
    /// flight, no misbehavior.
    pub fn fresh() -> (r: PeerState)
        ensures
            r.best_known_header is None,
            r.last_common_header is None,
            r.in_flight_blocks@.len() == 0,
            r.misbehavior_score == 0,
            r.sync_active == false,
            state_inflight_unique(r),
    {
        PeerState {
            best_known_header: None,
            last_common_header: None,
            in_flight_blocks: Vec::new(),
            misbehavior_score: 0,
            sync_active: false,
        }
    }
}

/// One registry row: a peer and its state.
#[derive(Clone, Debug)]
pub struct PeerEntry {
    pub id: PeerId,
    pub state: PeerState,
}

/// The registry of connected peers.
#[derive(Debug)]
pub struct PeerRegistry {
    pub peers: Vec<PeerEntry>,
}

impl PeerRegistry {
    /// Whether peer `id` is registered (connected).
    pub open spec fn has_peer(self, id: PeerId) -> bool {
        exists|i: int| 0 <= i < self.peers@.len() && (#[trigger] self.peers@[i]).id == id
    }

    /// No two rows carry the same peer id.
    pub open spec fn ids_unique(self) -> bool {
        forall|i: int, j: int|
            0 <= i < self.peers@.len() && 0 <= j < self.peers@.len() && i != j
                ==> (#[trigger] self.peers@[i]).id != (#[trigger] self.peers@[j]).id
    }

    /// No block hash is in flight on two distinct peers.
    pub open spec fn inflight_disjoint(self) -> bool {
        forall|i: int, j: int, k1: int, k2: int|
            0 <= i < self.peers@.len() && 0 <= j < self.peers@.len() && i != j
                && 0 <= k1 < self.peers@[i].state.in_flight_blocks@.len()
                && 0 <= k2 < self.peers@[j].state.in_flight_blocks@.len()
                ==> (#[trigger] self.peers@[i].state.in_flight_blocks@[k1]).hash
                    != (#[trigger] self.peers@[j].state.in_flight_blocks@[k2]).hash
    }

    /// Registry well-formedness: unique peer ids, globally disjoint
    /// in-flight sets, and each peer's in-flight set duplicate-free and
    /// within the per-peer cap.
    pub open spec fn wf(self) -> bool {
        &&& self.ids_unique()
        &&& self.inflight_disjoint()
        &&& forall|i: int|
            0 <= i < self.peers@.len() ==> state_inflight_unique(
                (#[trigger] self.peers@[i]).state,
            )
    }

    /// Whether hash `h` is in flight on some peer.
    pub open spec fn inflight_anywhere(self, h: Hash256) -> bool {
        exists|i: int|
            0 <= i < self.peers@.len() && state_has_inflight(
                (#[trigger] self.peers@[i]).state,
                h,
            )
    }

    /// An empty registry.
    pub fn new() -> (r: PeerRegistry)
        ensures
            r.wf(),
            r.peers@.len() == 0,
    {
        PeerRegistry { peers: Vec::new() }
    }

    /// Number of connected peers.
    pub fn len(&self) -> (r: usize)
        ensures
            r == self.peers@.len(),
    {
        self.peers.len()
    }

    /// Find the row index of peer `id`, if it is registered.
    pub fn find_peer(&self, id: PeerId) -> (r: Option<usize>)
        ensures
            r is Some ==> 0 <= r->0 < self.peers@.len() && self.peers@[r->0 as int].id == id,
            r is None ==> forall|i: int|
                0 <= i < self.peers@.len() ==> (#[trigger] self.peers@[i]).id != id,
            r is Some <==> self.has_peer(id),
    {
        let mut i: usize = 0;
        while i < self.peers.len()
            invariant
                0 <= i <= self.peers@.len(),
                forall|j: int| 0 <= j < i ==> (#[trigger] self.peers@[j]).id != id,
            decreases self.peers@.len() - i,
        {
            if self.peers[i].id == id {
                return Some(i);
            }
            i = i + 1;
        }
        None
    }

    /// The peer id stored at row `idx`.
    pub fn peer_id_at(&self, idx: usize) -> (r: PeerId)
        requires
            idx < self.peers@.len(),
        ensures
            r == self.peers@[idx as int].id,
    {
        self.peers[idx].id
    }

    /// Register a newly connected peer with fresh state. Idempotent: a
    /// registered peer's row is left untouched.
    pub fn connected(&mut self, id: PeerId)
        requires
            old(self).wf(),
        ensures
            final(self).wf(),
            final(self).has_peer(id),
            old(self).has_peer(id) ==> final(self).peers@ == old(self).peers@,
            !old(self).has_peer(id) ==> final(self).peers@.len() == old(self).peers@.len() + 1
                && final(self).peers@.subrange(0, old(self).peers@.len() as int)
                    == old(self).peers@
                && final(self).peers@.last().id == id
                && final(self).peers@.last().state.in_flight_blocks@.len() == 0
                && final(self).peers@.last().state.misbehavior_score == 0
                && final(self).peers@.last().state.best_known_header is None
                && final(self).peers@.last().state.sync_active == false,
            forall|p: PeerId| #[trigger] final(self).has_peer(p)
                <==> (old(self).has_peer(p) || p == id),
    {
        match self.find_peer(id) {
            Some(_) => {
                assert(final(self).peers@ == old(self).peers@);
            },
            None => {
                self.peers.push(PeerEntry { id, state: PeerState::fresh() });
                proof {
                    let n = old(self).peers@.len() as int;
                    assert(self.peers@[n].id == id);
                    assert(self.peers@.subrange(0, n) =~= old(self).peers@);
                    assert forall|p: PeerId| #[trigger] self.has_peer(p)
                        implies (old(self).has_peer(p) || p == id) by {
                        let i = choose|i: int|
                            0 <= i < self.peers@.len() && (#[trigger] self.peers@[i]).id == p;
                        if i < n {
                            assert(old(self).peers@[i].id == p);
                        }
                    }
                    assert forall|p: PeerId| old(self).has_peer(p) || p == id
                        implies #[trigger] self.has_peer(p) by {
                        if old(self).has_peer(p) {
                            let i = choose|i: int|
                                0 <= i < old(self).peers@.len()
                                    && (#[trigger] old(self).peers@[i]).id == p;
                            assert(self.peers@[i].id == p);
                        } else {
                            assert(self.peers@[n].id == p);
                        }
                    }
                }
            },
        }
    }

    /// Unregister a disconnected peer, releasing its in-flight block
    /// reservations. After the call the peer is absent from the registry;
    /// the rows of all other peers are untouched.
    pub fn disconnected(&mut self, id: PeerId)
        requires
            old(self).wf(),
        ensures
            final(self).wf(),
            !final(self).has_peer(id),
            forall|p: PeerId| p != id ==> (#[trigger] final(self).has_peer(p)
                <==> old(self).has_peer(p)),
            !old(self).has_peer(id) ==> final(self).peers@ == old(self).peers@,
            old(self).has_peer(id) ==> exists|i: int|
                0 <= i < old(self).peers@.len() && old(self).peers@[i].id == id
                    && final(self).peers@ == old(self).peers@.remove(i),
    {
        match self.find_peer(id) {
            Some(idx) => {
                self.peers.remove(idx);
                proof {
                    let i = idx as int;
                    let oldseq = old(self).peers@;
                    assert(self.peers@ =~= oldseq.remove(i));
                    // every row of the new registry is a row of the old one
                    assert forall|j: int| 0 <= j < self.peers@.len()
                        implies #[trigger] self.peers@[j]
                            == oldseq[if j < i { j } else { j + 1 }] by {}
                    assert(!self.has_peer(id)) by {
                        if self.has_peer(id) {
                            let j = choose|j: int|
                                0 <= j < self.peers@.len()
                                    && (#[trigger] self.peers@[j]).id == id;
                            let oj: int = if j < i { j } else { j + 1 };
                            assert(oldseq[oj].id == id);
                            assert(oldseq[i].id == id);
                            assert(oj != i);
                        }
                    }
                    assert forall|p: PeerId| p != id && #[trigger] final(self).has_peer(p)
                        implies old(self).has_peer(p) by {
                        let j = choose|j: int|
                            0 <= j < self.peers@.len() && (#[trigger] self.peers@[j]).id == p;
                        let oj: int = if j < i { j } else { j + 1 };
                        assert(oldseq[oj].id == p);
                    }
                    assert forall|p: PeerId| p != id && old(self).has_peer(p)
                        implies #[trigger] final(self).has_peer(p) by {
                        let oj = choose|oj: int|
                            0 <= oj < oldseq.len() && (#[trigger] oldseq[oj]).id == p;
                        let j: int = if oj < i { oj } else { oj - 1 };
                        assert(oj != i);
                        assert(self.peers@[j].id == p);
                    }
                }
            },
            None => {},
        }
    }

    /// A stable snapshot of the connected peer ids, in registry order.
    pub fn snapshot_peers(&self) -> (r: Vec<PeerId>)
        ensures
            r@.len() == self.peers@.len(),
            forall|i: int| 0 <= i < r@.len() ==> r@[i] == (#[trigger] self.peers@[i]).id,
    {
        let mut out: Vec<PeerId> = Vec::new();
        let mut i: usize = 0;
        while i < self.peers.len()
            invariant
                0 <= i <= self.peers@.len(),
                out@.len() == i,
                forall|j: int| 0 <= j < i ==> out@[j] == (#[trigger] self.peers@[j]).id,
            decreases self.peers@.len() - i,
        {
            out.push(self.peers[i].id);
            i = i + 1;
        }
        out
    }

    /// Whether hash `h` is currently in flight on any peer.
    pub fn is_inflight_anywhere(&self, h: &Hash256) -> (r: bool)
        ensures
            r == self.inflight_anywhere(*h),
    {
        let mut i: usize = 0;
        while i < self.peers.len()
            invariant
                0 <= i <= self.peers@.len(),
                forall|j: int| 0 <= j < i
                    ==> !state_has_inflight((#[trigger] self.peers@[j]).state, *h),
            decreases self.peers@.len() - i,
        {
            let n = self.peers[i].state.in_flight_blocks.len();
            let mut k: usize = 0;
            while k < n
                invariant
                    i < self.peers@.len(),
                    n == self.peers@[i as int].state.in_flight_blocks@.len(),
                    0 <= k <= n,
                    forall|m: int| 0 <= m < k
                        ==> (#[trigger] self.peers@[i as int].state.in_flight_blocks@[m]).hash
                            != *h,
                decreases n - k,
            {
                if self.peers[i].state.in_flight_blocks[k].hash == *h {
                    return true;
                }
                k = k + 1;
            }
            assert(!state_has_inflight(self.peers@[i as int].state, *h));
            i = i + 1;
        }
        false
    }

    /// Number of blocks in flight on the peer at row `idx`.
    pub fn inflight_len_at(&self, idx: usize) -> (r: usize)
        requires
            idx < self.peers@.len(),
        ensures
            r == self.peers@[idx as int].state.in_flight_blocks@.len(),
    {
        self.peers[idx].state.in_flight_blocks.len()
    }

    /// Reserve hash `h` in flight on the peer at row `idx`. The hash must
    /// not be in flight anywhere, so global uniqueness is preserved.
    pub fn mark_inflight_at(&mut self, idx: usize, h: Hash256, now: u64)
        requires
            old(self).wf(),
            idx < old(self).peers@.len(),
            !old(self).inflight_anywhere(h),
            old(self).peers@[idx as int].state.in_flight_blocks@.len()
                < MAX_BLOCKS_IN_FLIGHT_PER_PEER,
        ensures
            final(self).wf(),
            final(self).peers@.len() == old(self).peers@.len(),
            forall|j: int| 0 <= j < old(self).peers@.len() && j != idx as int
                ==> #[trigger] final(self).peers@[j] == old(self).peers@[j],
            final(self).peers@[idx as int].id == old(self).peers@[idx as int].id,
            final(self).peers@[idx as int].state.in_flight_blocks@
                == old(self).peers@[idx as int].state.in_flight_blocks@.push(
                    InFlightEntry { hash: h, requested_at: now },
                ),
            final(self).peers@[idx as int].state.best_known_header
                == old(self).peers@[idx as int].state.best_known_header,
            final(self).peers@[idx as int].state.last_common_header
                == old(self).peers@[idx as int].state.last_common_header,
            final(self).peers@[idx as int].state.misbehavior_score
                == old(self).peers@[idx as int].state.misbehavior_score,
            final(self).peers@[idx as int].state.sync_active
                == old(self).peers@[idx as int].state.sync_active,
            final(self).inflight_anywhere(h),
    {
        proof {
            assert(!state_has_inflight(old(self).peers@[idx as int].state, h));
        }
        let row = &mut self.peers[idx];
        row.state.in_flight_blocks.push(InFlightEntry { hash: h, requested_at: now });
        proof {
            let i = idx as int;
            let oldblocks = old(self).peers@[i].state.in_flight_blocks@;
            let newblocks = self.peers@[i].state.in_flight_blocks@;
            assert(newblocks.len() == oldblocks.len() + 1);
            assert(newblocks.last().hash == h);
            assert(state_has_inflight(self.peers@[i].state, h));
            assert(state_inflight_unique(self.peers@[i].state)) by {
                assert forall|k1: int, k2: int|
                    0 <= k1 < newblocks.len() && 0 <= k2 < newblocks.len() && k1 != k2
                    implies (#[trigger] newblocks[k1]).hash != (#[trigger] newblocks[k2]).hash by {
                    if k1 < oldblocks.len() && k2 < oldblocks.len() {
                    } else if k1 == oldblocks.len() {
                        assert(oldblocks[k2].hash != h);
                    } else {
                        assert(oldblocks[k1].hash != h);
                    }
                }
            }
            assert(self.inflight_disjoint()) by {
                assert forall|a: int, b: int, k1: int, k2: int|
                    0 <= a < self.peers@.len() && 0 <= b < self.peers@.len() && a != b
                        && 0 <= k1 < self.peers@[a].state.in_flight_blocks@.len()
                        && 0 <= k2 < self.peers@[b].state.in_flight_blocks@.len()
                    implies (#[trigger] self.peers@[a].state.in_flight_blocks@[k1]).hash
                        != (#[trigger] self.peers@[b].state.in_flight_blocks@[k2]).hash by {
                    if a != i && b != i {
                        assert(self.peers@[a] == old(self).peers@[a]);
                        assert(self.peers@[b] == old(self).peers@[b]);
                    } else if a == i {
                        assert(self.peers@[b] == old(self).peers@[b]);
                        if k1 < oldblocks.len() {
                        } else {
                            assert(self.peers@[a].state.in_flight_blocks@[k1].hash == h);
                            assert(!state_has_inflight(old(self).peers@[b].state, h));
                            assert(old(self).peers@[b].state.in_flight_blocks@[k2].hash != h);
                        }
                    } else {
                        assert(self.peers@[a] == old(self).peers@[a]);
                        if k2 < oldblocks.len() {
                        } else {
                            assert(self.peers@[b].state.in_flight_blocks@[k2].hash == h);
                            assert(!state_has_inflight(old(self).peers@[a].state, h));
                            assert(old(self).peers@[a].state.in_flight_blocks@[k1].hash != h);
                        }
                    }
                }
            }
        }
    }
    /// Drop hash `h` from the in-flight set of the peer at row `idx` (a
    /// requested block has arrived, or the request is abandoned). Returns
    /// whether the hash was in flight there. All other rows, and the rest
    /// of this peer's state, are untouched.
    pub fn remove_inflight_at(&mut self, idx: usize, h: &Hash256) -> (r: bool)
        requires
            old(self).wf(),
            idx < old(self).peers@.len(),
        ensures
            final(self).wf(),
            r == state_has_inflight(old(self).peers@[idx as int].state, *h),
            final(self).peers@.len() == old(self).peers@.len(),
            forall|j: int| 0 <= j < old(self).peers@.len() && j != idx as int
                ==> #[trigger] final(self).peers@[j] == old(self).peers@[j],
            final(self).peers@[idx as int].id == old(self).peers@[idx as int].id,
            !state_has_inflight(final(self).peers@[idx as int].state, *h),
            !r ==> final(self).peers@ == old(self).peers@,
            r ==> exists|k: int|
                0 <= k < old(self).peers@[idx as int].state.in_flight_blocks@.len()
                    && old(self).peers@[idx as int].state.in_flight_blocks@[k].hash == *h
                    && final(self).peers@[idx as int].state.in_flight_blocks@
                        == old(self).peers@[idx as int].state.in_flight_blocks@.remove(k),
            final(self).peers@[idx as int].state.best_known_header
                == old(self).peers@[idx as int].state.best_known_header,
            final(self).peers@[idx as int].state.last_common_header
                == old(self).peers@[idx as int].state.last_common_header,
            final(self).peers@[idx as int].state.misbehavior_score
                == old(self).peers@[idx as int].state.misbehavior_score,
            final(self).peers@[idx as int].state.sync_active
                == old(self).peers@[idx as int].state.sync_active,
    {
        let ghost i = idx as int;
        let ghost oldblocks = old(self).peers@[i].state.in_flight_blocks@;
        let n = self.peers[idx].state.in_flight_blocks.len();
        let mut k: usize = 0;
        while k < n
            invariant
                old(self).wf(),
                i == idx as int,
                idx < self.peers@.len(),
                self.peers@ == old(self).peers@,
                oldblocks == old(self).peers@[i].state.in_flight_blocks@,
                self.peers@[i].state.in_flight_blocks@ == oldblocks,
                n == oldblocks.len(),
                0 <= k <= n,
                forall|m: int| 0 <= m < k ==> (#[trigger] oldblocks[m]).hash != *h,
            decreases n - k,
        {
            if self.peers[idx].state.in_flight_blocks[k].hash == *h {
                let row = &mut self.peers[idx];
                row.state.in_flight_blocks.remove(k);
                proof {
                    let kk = k as int;
                    let newblocks = self.peers@[i].state.in_flight_blocks@;
                    assert(newblocks =~= oldblocks.remove(kk));
                    assert forall|m: int| 0 <= m < newblocks.len()
                        implies #[trigger] newblocks[m]
                            == oldblocks[if m < kk { m } else { m + 1 }] by {}
                    assert(state_has_inflight(old(self).peers@[i].state, *h));
                    assert(!state_has_inflight(self.peers@[i].state, *h)) by {
                        if state_has_inflight(self.peers@[i].state, *h) {
                            let m = choose|m: int|
                                0 <= m < newblocks.len()
                                    && (#[trigger] newblocks[m]).hash == *h;
                            let om: int = if m < kk { m } else { m + 1 };
                            assert(oldblocks[om].hash == *h);
                            assert(oldblocks[kk].hash == *h);
                            assert(state_inflight_unique(old(self).peers@[i].state));
                        }
                    }
                    assert(state_inflight_unique(self.peers@[i].state)) by {
                        assert forall|m1: int, m2: int|
                            0 <= m1 < newblocks.len() && 0 <= m2 < newblocks.len() && m1 != m2
                            implies (#[trigger] newblocks[m1]).hash
                                != (#[trigger] newblocks[m2]).hash by {
                            let o1: int = if m1 < kk { m1 } else { m1 + 1 };
                            let o2: int = if m2 < kk { m2 } else { m2 + 1 };
                            assert(newblocks[m1] == oldblocks[o1]);
                            assert(newblocks[m2] == oldblocks[o2]);
                            assert(state_inflight_unique(old(self).peers@[i].state));
                        }
                    }
                    assert(self.inflight_disjoint()) by {
                        assert forall|a: int, b: int, k1: int, k2: int|
                            0 <= a < self.peers@.len() && 0 <= b < self.peers@.len() && a != b
                                && 0 <= k1 < self.peers@[a].state.in_flight_blocks@.len()
                                && 0 <= k2 < self.peers@[b].state.in_flight_blocks@.len()
                            implies (#[trigger] self.peers@[a].state.in_flight_blocks@[k1]).hash
                                != (#[trigger] self.peers@[b].state.in_flight_blocks@[k2]).hash
                        by {
                            if a == i {
                                let o1: int = if k1 < kk { k1 } else { k1 + 1 };
                                assert(self.peers@[a].state.in_flight_blocks@[k1]
                                    == oldblocks[o1]);
                                assert(self.peers@[b] == old(self).peers@[b]);
                            } else if b == i {
                                let o2: int = if k2 < kk { k2 } else { k2 + 1 };
                                assert(self.peers@[b].state.in_flight_blocks@[k2]
                                    == oldblocks[o2]);
                                assert(self.peers@[a] == old(self).peers@[a]);
                            } else {
                                assert(self.peers@[a] == old(self).peers@[a]);
                                assert(self.peers@[b] == old(self).peers@[b]);
                            }
                        }
                    }
                }
                return true;
            }
            k = k + 1;
        }
        proof {
            assert(!state_has_inflight(old(self).peers@[i].state, *h));
        }
        false
    }

    /// Read the best known header of the peer at row `idx`.
    pub fn best_known_at(&self, idx: usize) -> (r: Option<Header>)
        requires
            idx < self.peers@.len(),
        ensures
            r == self.peers@[idx as int].state.best_known_header,
    {
        self.peers[idx].state.best_known_header
    }

    /// Record a new best known header for the peer at row `idx`.
    pub fn set_best_known_at(&mut self, idx: usize, header: Header)
        requires
            old(self).wf(),
            idx < old(self).peers@.len(),
        ensures
            final(self).wf(),
            final(self).peers@.len() == old(self).peers@.len(),
            forall|j: int| 0 <= j < old(self).peers@.len() && j != idx as int
                ==> #[trigger] final(self).peers@[j] == old(self).peers@[j],
            final(self).peers@[idx as int].id == old(self).peers@[idx as int].id,
            final(self).peers@[idx as int].state.best_known_header == Some(header),
            final(self).peers@[idx as int].state.in_flight_blocks@
                == old(self).peers@[idx as int].state.in_flight_blocks@,
            final(self).peers@[idx as int].state.last_common_header
                == old(self).peers@[idx as int].state.last_common_header,
            final(self).peers@[idx as int].state.misbehavior_score
                == old(self).peers@[idx as int].state.misbehavior_score,
            final(self).peers@[idx as int].state.sync_active
                == old(self).peers@[idx as int].state.sync_active,
    {
        let row = &mut self.peers[idx];
        row.state.best_known_header = Some(header);
        proof {
            lemma_one_row_state_change(*old(self), *self, idx as int);
        }
    }

    /// Record the deepest known-in-common header for the peer at row `idx`.
    pub fn set_last_common_at(&mut self, idx: usize, header: Header)
        requires
            old(self).wf(),
            idx < old(self).peers@.len(),
        ensures
            final(self).wf(),
            final(self).peers@.len() == old(self).peers@.len(),
            forall|j: int| 0 <= j < old(self).peers@.len() && j != idx as int
                ==> #[trigger] final(self).peers@[j] == old(self).peers@[j],
            final(self).peers@[idx as int].id == old(self).peers@[idx as int].id,
            final(self).peers@[idx as int].state.last_common_header == Some(header),
            final(self).peers@[idx as int].state.in_flight_blocks@
                == old(self).peers@[idx as int].state.in_flight_blocks@,
            final(self).peers@[idx as int].state.best_known_header
                == old(self).peers@[idx as int].state.best_known_header,
            final(self).peers@[idx as int].state.misbehavior_score
                == old(self).peers@[idx as int].state.misbehavior_score,
            final(self).peers@[idx as int].state.sync_active
                == old(self).peers@[idx as int].state.sync_active,
    {
        let row = &mut self.peers[idx];
        row.state.last_common_header = Some(header);
        proof {
            lemma_one_row_state_change(*old(self), *self, idx as int);
        }
    }

    /// Mark or clear active headers-sync on the peer at row `idx`.
    pub fn set_sync_active_at(&mut self, idx: usize, active: bool)
        requires
            old(self).wf(),
            idx < old(self).peers@.len(),
        ensures
            final(self).wf(),
            final(self).peers@.len() == old(self).peers@.len(),
            forall|j: int| 0 <= j < old(self).peers@.len() && j != idx as int
                ==> #[trigger] final(self).peers@[j] == old(self).peers@[j],
            final(self).peers@[idx as int].id == old(self).peers@[idx as int].id,
            final(self).peers@[idx as int].state.sync_active == active,
            final(self).peers@[idx as int].state.in_flight_blocks@
                == old(self).peers@[idx as int].state.in_flight_blocks@,
            final(self).peers@[idx as int].state.best_known_header
                == old(self).peers@[idx as int].state.best_known_header,
            final(self).peers@[idx as int].state.last_common_header
                == old(self).peers@[idx as int].state.last_common_header,
            final(self).peers@[idx as int].state.misbehavior_score
                == old(self).peers@[idx as int].state.misbehavior_score,
    {
        let row = &mut self.peers[idx];
        row.state.sync_active = active;
        proof {
            lemma_one_row_state_change(*old(self), *self, idx as int);
        }
    }

    /// Add `amount` to the misbehavior score of the peer at row `idx`,
    /// saturating at the maximum.
    pub fn add_misbehavior_at(&mut self, idx: usize, amount: u64)
        requires
            old(self).wf(),
            idx < old(self).peers@.len(),
        ensures
            final(self).wf(),
            final(self).peers@.len() == old(self).peers@.len(),
            forall|j: int| 0 <= j < old(self).peers@.len() && j != idx as int
                ==> #[trigger] final(self).peers@[j] == old(self).peers@[j],
            final(self).peers@[idx as int].id == old(self).peers@[idx as int].id,
            final(self).peers@[idx as int].state.misbehavior_score
                == if old(self).peers@[idx as int].state.misbehavior_score + amount
                    <= u64::MAX {
                    old(self).peers@[idx as int].state.misbehavior_score + amount
                } else {
                    u64::MAX as int
                },
            final(self).peers@[idx as int].state.in_flight_blocks@
                == old(self).peers@[idx as int].state.in_flight_blocks@,
            final(self).peers@[idx as int].state.best_known_header
                == old(self).peers@[idx as int].state.best_known_header,
            final(self).peers@[idx as int].state.last_common_header
                == old(self).peers@[idx as int].state.last_common_header,
            final(self).peers@[idx as int].state.sync_active
                == old(self).peers@[idx as int].state.sync_active,
    {
        let row = &mut self.peers[idx];
        let score = row.state.misbehavior_score;
        if amount <= u64::MAX - score {
            row.state.misbehavior_score = score + amount;
        } else {
            row.state.misbehavior_score = u64::MAX;
        }
        proof {
            lemma_one_row_state_change(*old(self), *self, idx as int);
        }
    }

    /// Drop the in-flight reservations of the peer at row `idx` that are
    /// older than the download timeout, so the hashes return to the
    /// eligible pool, and count one misbehavior per expired request.
    /// Returns how many expired. A request made at or after `now` is kept.
    #[verifier::rlimit(100)]
    pub fn expire_inflight_at(&mut self, idx: usize, now: u64) -> (removed: usize)
        requires
            old(self).wf(),
            idx < old(self).peers@.len(),
        ensures
            final(self).wf(),
            final(self).peers@.len() == old(self).peers@.len(),
            forall|j: int| 0 <= j < old(self).peers@.len() && j != idx as int
                ==> #[trigger] final(self).peers@[j] == old(self).peers@[j],
            final(self).peers@[idx as int].id == old(self).peers@[idx as int].id,
            // every kept reservation is fresh and was there before
            forall|k: int|
                0 <= k < final(self).peers@[idx as int].state.in_flight_blocks@.len()
                    ==> inflight_fresh(
                    #[trigger] final(self).peers@[idx as int].state.in_flight_blocks@[k],
                    now,
                ) && old(self).peers@[idx as int].state.in_flight_blocks@.contains(
                    final(self).peers@[idx as int].state.in_flight_blocks@[k],
                ),
            // every fresh reservation is kept
            forall|k: int|
                0 <= k < old(self).peers@[idx as int].state.in_flight_blocks@.len()
                    && inflight_fresh(
                    #[trigger] old(self).peers@[idx as int].state.in_flight_blocks@[k],
                    now,
                ) ==> final(self).peers@[idx as int].state.in_flight_blocks@.contains(
                    old(self).peers@[idx as int].state.in_flight_blocks@[k],
                ),
            removed == old(self).peers@[idx as int].state.in_flight_blocks@.len()
                - final(self).peers@[idx as int].state.in_flight_blocks@.len(),
            final(self).peers@[idx as int].state.best_known_header
                == old(self).peers@[idx as int].state.best_known_header,
            final(self).peers@[idx as int].state.last_common_header
                == old(self).peers@[idx as int].state.last_common_header,
            final(self).peers@[idx as int].state.sync_active
                == old(self).peers@[idx as int].state.sync_active,
    {
        let ghost i = idx as int;
        let ghost oldblocks = old(self).peers@[i].state.in_flight_blocks@;
        let n = self.peers[idx].state.in_flight_blocks.len();
        let mut kept: Vec<InFlightEntry> = Vec::new();
        let mut k: usize = 0;
        while k < n
            invariant
                old(self).wf(),
                i == idx as int,
                idx < self.peers@.len(),
                self.peers@ == old(self).peers@,
                oldblocks == old(self).peers@[i].state.in_flight_blocks@,
                n == oldblocks.len(),
                0 <= k <= n,
                kept@.len() <= k,
                forall|a: int|
                    0 <= a < kept@.len() ==> inflight_fresh(#[trigger] kept@[a], now)
                        && oldblocks.contains(kept@[a]),
                forall|a: int|
                    0 <= a < kept@.len() ==> exists|f: int|
                        0 <= f < k && oldblocks[f] == #[trigger] kept@[a],
                forall|f: int|
                    0 <= f < k && inflight_fresh(#[trigger] oldblocks[f], now)
                        ==> kept@.contains(oldblocks[f]),
                forall|a: int, b: int|
                    0 <= a < kept@.len() && 0 <= b < kept@.len() && a != b
                        ==> (#[trigger] kept@[a]).hash != (#[trigger] kept@[b]).hash,
            decreases n - k,
        {
            let entry = self.peers[idx].state.in_flight_blocks[k];
            if entry.requested_at >= now || now - entry.requested_at < BLOCK_DOWNLOAD_TIMEOUT_MS {
                let ghost pre = kept@;
                kept.push(entry);
                proof {
                    assert(kept@.last() == entry);
                    assert(oldblocks[k as int] == entry);
                    assert(oldblocks.contains(entry));
                    assert forall|a: int, b: int|
                        0 <= a < kept@.len() && 0 <= b < kept@.len() && a != b
                        implies (#[trigger] kept@[a]).hash != (#[trigger] kept@[b]).hash by {
                        if a < pre.len() && b < pre.len() {
                        } else if a == pre.len() {
                            let f = choose|f: int|
                                0 <= f < k && oldblocks[f] == #[trigger] pre[b];
                            assert(state_inflight_unique(old(self).peers@[i].state));
                            assert(oldblocks[f].hash != oldblocks[k as int].hash);
                        } else {
                            let f = choose|f: int|
                                0 <= f < k && oldblocks[f] == #[trigger] pre[a];
                            assert(state_inflight_unique(old(self).peers@[i].state));
                            assert(oldblocks[f].hash != oldblocks[k as int].hash);
                        }
                    }
                    assert forall|f: int|
                        0 <= f < k + 1 && inflight_fresh(#[trigger] oldblocks[f], now)
                        implies kept@.contains(oldblocks[f]) by {
                        if f < k {
                            let w = choose|w: int|
                                0 <= w < pre.len() && pre[w] == oldblocks[f];
                            assert(kept@[w] == oldblocks[f]);
                        } else {
                            assert(kept@.last() == oldblocks[f]);
                        }
                    }
                }
            }
            k = k + 1;
        }
        let kept_len = kept.len();
        let expired = n - kept_len;
        let ghost keptseq = kept@;
        let row = &mut self.peers[idx];
        row.state.in_flight_blocks = kept;
        if expired > 0 {
            self.add_misbehavior_at(idx, expired as u64);
        }
        proof {
            assert(self.peers@[i].state.in_flight_blocks@ == keptseq);
            assert(state_inflight_unique(self.peers@[i].state));
            assert(self.inflight_disjoint()) by {
                assert forall|a: int, b: int, k1: int, k2: int|
                    0 <= a < self.peers@.len() && 0 <= b < self.peers@.len() && a != b
                        && 0 <= k1 < self.peers@[a].state.in_flight_blocks@.len()
                        && 0 <= k2 < self.peers@[b].state.in_flight_blocks@.len()
                    implies (#[trigger] self.peers@[a].state.in_flight_blocks@[k1]).hash
                        != (#[trigger] self.peers@[b].state.in_flight_blocks@[k2]).hash by {
                    if a == i {
                        assert(oldblocks.contains(keptseq[k1]));
                        let f = choose|f: int|
                            0 <= f < oldblocks.len() && oldblocks[f] == keptseq[k1];
                        assert(self.peers@[b] == old(self).peers@[b]);
                        assert(old(self).peers@[a].state.in_flight_blocks@[f].hash
                            != old(self).peers@[b].state.in_flight_blocks@[k2].hash);
                    } else if b == i {
                        assert(oldblocks.contains(keptseq[k2]));
                        let f = choose|f: int|
                            0 <= f < oldblocks.len() && oldblocks[f] == keptseq[k2];
                        assert(self.peers@[a] == old(self).peers@[a]);
                        assert(old(self).peers@[a].state.in_flight_blocks@[k1].hash
                            != old(self).peers@[b].state.in_flight_blocks@[f].hash);
                    } else {
                        assert(self.peers@[a] == old(self).peers@[a]);
                        assert(self.peers@[b] == old(self).peers@[b]);
                    }
                }
            }
        }
        expired
    }

    /// Read the misbehavior score of the peer at row `idx`.
    pub fn misbehavior_at(&self, idx: usize) -> (r: u64)
        requires
            idx < self.peers@.len(),
        ensures
            r == self.peers@[idx as int].state.misbehavior_score,
    {
        self.peers[idx].state.misbehavior_score
    }

    /// Whether accumulated misbehavior of the peer at row `idx` has
    /// reached the point where the substrate should disconnect it.
    pub fn should_disconnect(&self, idx: usize) -> (r: bool)
        requires
            idx < self.peers@.len(),
        ensures
            r == (self.peers@[idx as int].state.misbehavior_score
                >= MISBEHAVIOR_DISCONNECT_THRESHOLD),
    {
        self.peers[idx].state.misbehavior_score >= MISBEHAVIOR_DISCONNECT_THRESHOLD
    }

    /// Read the active-sync flag of the peer at row `idx`.
    pub fn sync_active_at(&self, idx: usize) -> (r: bool)
        requires
            idx < self.peers@.len(),
        ensures
            r == self.peers@[idx as int].state.sync_active,
    {
        self.peers[idx].state.sync_active
    }
}

/// A change that leaves every row's in-flight sequence as it was preserves
/// registry well-formedness.
proof fn lemma_one_row_state_change(pre: PeerRegistry, post: PeerRegistry, i: int)
    requires
        pre.wf(),
        0 <= i < pre.peers@.len(),
        post.peers@.len() == pre.peers@.len(),
        forall|j: int| 0 <= j < pre.peers@.len() && j != i
            ==> #[trigger] post.peers@[j] == pre.peers@[j],
        post.peers@[i].id == pre.peers@[i].id,
        post.peers@[i].state.in_flight_blocks@ == pre.peers@[i].state.in_flight_blocks@,
    ensures
        post.wf(),
{
    assert forall|a: int| 0 <= a < post.peers@.len()
        implies (#[trigger] post.peers@[a]).id == pre.peers@[a].id by {}
    assert forall|a: int| 0 <= a < post.peers@.len()
        implies (#[trigger] post.peers@[a]).state.in_flight_blocks@
            == pre.peers@[a].state.in_flight_blocks@ by {}
    assert forall|a: int| 0 <= a < post.peers@.len()
        implies state_inflight_unique((#[trigger] post.peers@[a]).state) by {
        assert(state_inflight_unique(pre.peers@[a].state));
    }
}

/// In-flight membership is monotone under growth: when every row's
/// reservation list is only extended, a hash in flight somewhere stays in
/// flight somewhere.
pub proof fn lemma_inflight_anywhere_monotone(pre: PeerRegistry, post: PeerRegistry, h: Hash256)
    requires
        pre.peers@.len() == post.peers@.len(),
        forall|j: int|
            0 <= j < pre.peers@.len()
                ==> (#[trigger] pre.peers@[j]).state.in_flight_blocks@.is_prefix_of(
                post.peers@[j].state.in_flight_blocks@,
            ),
        pre.inflight_anywhere(h),
    ensures
        post.inflight_anywhere(h),
{
    let a = choose|a: int|
        0 <= a < pre.peers@.len() && state_has_inflight((#[trigger] pre.peers@[a]).state, h);
    let k = choose|k: int|
        0 <= k < pre.peers@[a].state.in_flight_blocks@.len()
            && (#[trigger] pre.peers@[a].state.in_flight_blocks@[k]).hash == h;
    assert(post.peers@[a].state.in_flight_blocks@[k]
        == pre.peers@[a].state.in_flight_blocks@[k]);
    assert(state_has_inflight(post.peers@[a].state, h));
}

/// Global uniqueness of in-flight reservations: in a well-formed registry
/// a block hash held in flight by one peer is in flight on no other peer.
pub proof fn lemma_inflight_globally_unique(r: PeerRegistry, i: int, j: int, h: Hash256)
    requires
        r.wf(),
        0 <= i < r.peers@.len(),
        0 <= j < r.peers@.len(),
        i != j,
        state_has_inflight(r.peers@[i].state, h),
    ensures
        !state_has_inflight(r.peers@[j].state, h),
{
    let k1 = choose|k1: int|
        0 <= k1 < r.peers@[i].state.in_flight_blocks@.len()
            && (#[trigger] r.peers@[i].state.in_flight_blocks@[k1]).hash == h;
    if state_has_inflight(r.peers@[j].state, h) {
        let k2 = choose|k2: int|
            0 <= k2 < r.peers@[j].state.in_flight_blocks@.len()
                && (#[trigger] r.peers@[j].state.in_flight_blocks@[k2]).hash == h;
        assert(r.peers@[i].state.in_flight_blocks@[k1].hash
            != r.peers@[j].state.in_flight_blocks@[k2].hash);
    }
}

} // verus!
