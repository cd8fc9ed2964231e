//! The sync engine: locator-based header negotiation, header-batch
//! validation, and window-based block-body fetch scheduling, operating on
//! the shared peer registry and chain view.

use vstd::prelude::*;

use crate::chain::chain_has_hash;
use crate::chain::BlockAcceptance;
use crate::chain::ChainView;
use crate::peers::state_has_inflight;
use crate::peers::PeerRegistry;
use crate::types::Block;
use crate::types::GetDataMessage;
use crate::types::GetHeadersMessage;
use crate::types::Hash256;
use crate::types::Header;
use crate::types::HeadersMessage;
use crate::types::InventoryType;
use crate::types::MAX_BLOCKS_IN_FLIGHT_PER_PEER;
use crate::types::MAX_HEADERS_PER_MSG;

verus! {

/// Whether `out` is the slice of `chain` that starts just above height
/// `start`.
pub open spec fn is_chain_slice_above(chain: Seq<Header>, start: int, out: Seq<Header>) -> bool {
    forall|i: int| 0 <= i < out.len() ==> #[trigger] out[i] == chain[start + 1 + i]
}

/// Whether a batch attaches to the top of `chain` and carries only new,
/// pairwise-distinct hashes: the condition under which the whole batch
/// joins the header index.
pub open spec fn batch_extends(chain: Seq<Header>, batch: Seq<Header>) -> bool {
    &&& batch.len() > 0
    &&& batch[0].number == chain.len()
    &&& batch[0].parent_hash == chain.last().hash
    &&& forall|i: int|
        0 <= i < batch.len() ==> !chain_has_hash(chain, (#[trigger] batch[i]).hash)
    &&& forall|i: int, j: int|
        0 <= i < batch.len() && 0 <= j < batch.len() && i != j
            ==> (#[trigger] batch[i]).hash != (#[trigger] batch[j]).hash
}

/// The height at which `chain` holds a header with hash `h`. Well-formed
/// chains keep hashes pairwise distinct, so the height is unique.
pub open spec fn height_of_hash(chain: Seq<Header>, h: Hash256) -> int {
    choose|i: int| 0 <= i < chain.len() && (#[trigger] chain[i]).hash == h
}

/// The height of the first locator entry present in the chain, walking
/// the locator in order: the deepest common ancestor a locator proves.
pub open spec fn first_locator_match(chain: Seq<Header>, locator: Seq<Hash256>) -> Option<int>
    decreases locator.len(),
{
    if locator.len() == 0 {
        None
    } else if chain_has_hash(chain, locator[0]) {
        Some(height_of_hash(chain, locator[0]))
    } else {
        first_locator_match(chain, locator.drop_first())
    }
}

/// A header batch is contiguous when each header's parent is the previous
/// header's hash and heights ascend one by one.
pub open spec fn headers_contiguous(headers: Seq<Header>) -> bool {
    forall|i: int|
        1 <= i < headers.len() ==> (#[trigger] headers[i]).parent_hash == headers[i - 1].hash
            && headers[i].number == headers[i - 1].number + 1
}

/// A batch a node accepts: nonempty, internally contiguous, and attached
/// to a header the node already knows.
pub open spec fn headers_batch_valid(chain: Seq<Header>, batch: Seq<Header>) -> bool {
    &&& batch.len() > 0
    &&& headers_contiguous(batch)
    &&& chain_has_hash(chain, batch[0].parent_hash)
}

/// The exact `Headers` reply a locator earns: the chain slice just above
/// the first matched locator entry (above genesis when nothing matches),
/// capped at a full response.
pub open spec fn getheaders_reply_exact(
    chain: Seq<Header>,
    locator: Seq<Hash256>,
    reply: Seq<Header>,
) -> bool {
    &&& (first_locator_match(chain, locator) matches Some(s) ==> reply.len() == (if chain.len()
        - 1 - s <= MAX_HEADERS_PER_MSG {
        chain.len() - 1 - s
    } else {
        MAX_HEADERS_PER_MSG as int
    }) && is_chain_slice_above(chain, s, reply))
    &&& (first_locator_match(chain, locator) is None ==> reply.len() == (if chain.len() - 1
        <= MAX_HEADERS_PER_MSG {
        chain.len() - 1
    } else {
        MAX_HEADERS_PER_MSG as int
    }) && is_chain_slice_above(chain, 0, reply))
}

/// The top of the block-fetch window for the peer at row `idx`: its best
/// advertised height, capped at the known header tip.
pub open spec fn spec_window_top(s: Synchronizer, idx: int) -> int {
    let best = s.peers.peers@[idx].state.best_known_header->0;
    if best.number < s.chain.headers@.len() - 1 {
        best.number as int
    } else {
        s.chain.headers@.len() - 1
    }
}

/// Outcome of processing a `Headers` batch.
#[derive(PartialEq, Eq, Structural, Clone, Copy, Debug)]
pub enum HeadersOutcome {
    /// The batch was empty, not contiguous, or did not attach to a known
    /// header; nothing was stored. A broken nonempty batch records
    /// misbehavior.
    RejectedBroken,
    /// The batch was valid; headers extending the known header chain were
    /// stored. The peer has more to give: sync continues.
    AcceptedContinue,
    /// The batch was valid and shorter than a full response: the peer has
    /// no more headers, so headers-sync from it ends.
    AcceptedComplete,
}

/// Shared sync state: the peer registry, the chain view and the count of
/// peers we are actively headers-syncing from.
pub struct Synchronizer {
    pub peers: PeerRegistry,
    pub chain: ChainView,
    /// Number of peers an outstanding `GetHeaders` round is running with.
    pub n_sync: u64,
    /// Best header height advertised by any peer, if above our own.
    pub best_known_number: u64,
}

impl Synchronizer {
    /// Both shared structures are well-formed.
    pub open spec fn wf(self) -> bool {
        &&& self.peers.wf()
        &&& self.chain.wf()
    }

    /// Create the shared sync state around a chain view.
    pub fn new(chain: ChainView) -> (r: Synchronizer)
        requires
            chain.wf(),
        ensures
            r.wf(),
            r.chain == chain,
            r.peers.peers@.len() == 0,
            r.n_sync == 0,
            r.best_known_number == 0,
    {
        Synchronizer { peers: PeerRegistry::new(), chain, n_sync: 0, best_known_number: 0 }
    }

    /// Whether the node is still in initial block download: some peer has
    /// advertised a header chain strictly longer than what we have.
    pub fn is_initial_block_download(&self) -> (r: bool)
        requires
            self.wf(),
        ensures
            r == (self.best_known_number > self.chain.headers@.len() - 1),
    {
        let tip = self.chain.header_count() - 1;
        self.best_known_number > tip as u64
    }

    /// Walk a locator in order and return the height of the first hash
    /// that exists in the local header chain: the deepest common ancestor
    /// the locator proves. `None` when no entry matches.
    pub fn locate_common_ancestor(&self, locator: &Vec<Hash256>) -> (r: Option<usize>)
        requires
            self.wf(),
        ensures
            r is Some ==> exists|i: int|
                0 <= i < locator@.len() && 0 <= r->0 < self.chain.headers@.len()
                    && self.chain.headers@[r->0 as int].hash == locator@[i]
                    && (forall|j: int|
                        0 <= j < i ==> !chain_has_hash(self.chain.headers@, #[trigger] locator@[j])),
            r is None ==> forall|i: int|
                0 <= i < locator@.len() ==> !chain_has_hash(
                    self.chain.headers@,
                    #[trigger] locator@[i],
                ),
            r is Some ==> first_locator_match(self.chain.headers@, locator@)
                == Some(r->0 as int),
            r is None ==> first_locator_match(self.chain.headers@, locator@) is None,
    {
        proof {
            assert(locator@.skip(0) =~= locator@);
        }
        let mut i: usize = 0;
        while i < locator.len()
            invariant
                self.wf(),
                0 <= i <= locator@.len(),
                forall|j: int| 0 <= j < i ==> !chain_has_hash(
                    self.chain.headers@,
                    #[trigger] locator@[j],
                ),
                first_locator_match(self.chain.headers@, locator@) == first_locator_match(
                    self.chain.headers@,
                    locator@.skip(i as int),
                ),
            decreases locator@.len() - i,
        {
            let ghost rest = locator@.skip(i as int);
            proof {
                assert(rest.len() > 0);
                assert(rest[0] == locator@[i as int]);
                assert(rest.drop_first() =~= locator@.skip(i as int + 1));
            }
            match self.chain.find_header_height(&locator[i]) {
                Some(height) => {
                    proof {
                        assert(chain_has_hash(self.chain.headers@, rest[0]));
                        // hashes are unique in a well-formed chain, so the
                        // chosen height is the found one
                        let j = height_of_hash(self.chain.headers@, rest[0]);
                        assert(0 <= j < self.chain.headers@.len()
                            && self.chain.headers@[j].hash == rest[0]);
                        assert(j == height as int);
                    }
                    return Some(height);
                },
                None => {},
            }
            i = i + 1;
        }
        proof {
            assert(locator@.skip(locator@.len() as int) =~= Seq::<Hash256>::empty());
        }
        None
    }

    /// Answer a `GetHeaders` request: headers after the deepest common
    /// ancestor the locator proves, capped at a full response. A locator
    /// matching nothing is answered from height 1 upward.
    pub fn handle_getheaders(&self, message: &GetHeadersMessage) -> (r: HeadersMessage)
        requires
            self.wf(),
        ensures
            r.headers@.len() <= MAX_HEADERS_PER_MSG,
            forall|i: int|
                1 <= i < r.headers@.len() ==> (#[trigger] r.headers@[i]).parent_hash
                    == r.headers@[i - 1].hash,
            (forall|i: int|
                0 <= i < message.block_locator_hashes@.len() ==> !chain_has_hash(
                    self.chain.headers@,
                    #[trigger] message.block_locator_hashes@[i],
                )) ==> r.headers@.len() > 0 || self.chain.headers@.len() == 1,
            (forall|i: int|
                0 <= i < message.block_locator_hashes@.len() ==> !chain_has_hash(
                    self.chain.headers@,
                    #[trigger] message.block_locator_hashes@[i],
                )) && r.headers@.len() > 0 ==> r.headers@[0] == self.chain.headers@[1]
                && r.headers@[0].number == 1,
            exists|start: int|
                0 <= start < self.chain.headers@.len() && #[trigger] is_chain_slice_above(
                    self.chain.headers@,
                    start,
                    r.headers@,
                ),
            // the response is exactly the chain slice above the first
            // matched locator entry (above genesis when none matches)
            getheaders_reply_exact(
                self.chain.headers@,
                message.block_locator_hashes@,
                r.headers@,
            ),
    {
        let start: usize = match self.locate_common_ancestor(&message.block_locator_hashes) {
            Some(height) => height,
            // no locator entry matches: the requester shares nothing but
            // genesis with us, so answer from height 1 upward
            None => 0,
        };
        let out = self.chain.headers_after(start, MAX_HEADERS_PER_MSG);
        proof {
            let s = start as int;
            assert(is_chain_slice_above(self.chain.headers@, s, out@));
            assert forall|i: int| 1 <= i < out@.len()
                implies (#[trigger] out@[i]).parent_hash == out@[i - 1].hash by {
                assert(out@[i] == self.chain.headers@[s + 1 + i]);
                assert(out@[i - 1] == self.chain.headers@[s + i]);
            }
            if out@.len() > 0 {
                assert(out@[0] == self.chain.headers@[s + 1]);
            }
        }
        Self::wrap_headers(out)
    }

    /// Process a `Headers` batch from the peer at registry row `idx`.
    ///
    /// An empty batch, or one that is not contiguous, or whose first
    /// header does not attach to a known header, is rejected whole and the
    /// peer's misbehavior score grows (an empty batch only ends the sync
    /// round without penalty). A valid batch has every header extending
    /// the known header chain stored, and raises the peer's best known
    /// header to the batch's last entry when that is higher. A batch
    /// shorter than a full response ends headers-sync with the peer:
    /// its active flag clears and `n_sync` drops by one (never below
    /// zero); a full batch keeps the sync active for another round.
    #[verifier::rlimit(100)]
    #[verifier::spinoff_prover]
    pub fn handle_headers(&mut self, idx: usize, message: &HeadersMessage) -> (r: HeadersOutcome)
        requires
            old(self).wf(),
            idx < old(self).peers.peers@.len(),
        ensures
            final(self).wf(),
            final(self).peers.peers@.len() == old(self).peers.peers@.len(),
            forall|j: int| 0 <= j < old(self).peers.peers@.len() && j != idx as int
                ==> #[trigger] final(self).peers.peers@[j] == old(self).peers.peers@[j],
            final(self).peers.peers@[idx as int].id == old(self).peers.peers@[idx as int].id,
            // rejection happens exactly for an empty batch, a batch that
            // is not contiguous, or one whose first parent is unknown
            r == HeadersOutcome::RejectedBroken <==> (message.headers@.len() == 0
                || !headers_contiguous(message.headers@) || !chain_has_hash(
                old(self).chain.headers@,
                message.headers@[0].parent_hash,
            )),
            r == HeadersOutcome::AcceptedComplete <==> (r != HeadersOutcome::RejectedBroken
                && message.headers@.len() < MAX_HEADERS_PER_MSG),
            r == HeadersOutcome::AcceptedContinue <==> (r != HeadersOutcome::RejectedBroken
                && message.headers@.len() >= MAX_HEADERS_PER_MSG),
            // a broken nonempty batch counts one misbehavior; nothing else
            // moves the score
            final(self).peers.peers@[idx as int].state.misbehavior_score
                == if r == HeadersOutcome::RejectedBroken && message.headers@.len() > 0 {
                    if old(self).peers.peers@[idx as int].state.misbehavior_score + 1
                        <= u64::MAX {
                        old(self).peers.peers@[idx as int].state.misbehavior_score + 1
                    } else {
                        u64::MAX as int
                    }
                } else {
                    old(self).peers.peers@[idx as int].state.misbehavior_score as int
                },
            // a rejected batch stores nothing and teaches nothing
            r == HeadersOutcome::RejectedBroken ==> final(self).chain.headers@
                == old(self).chain.headers@
                && final(self).peers.peers@[idx as int].state.best_known_header
                    == old(self).peers.peers@[idx as int].state.best_known_header
                && final(self).best_known_number == old(self).best_known_number,
            // ending the round clears the peer's active flag and, when a
            // round was running with it, decrements n_sync (never below
            // zero)
            (r == HeadersOutcome::AcceptedComplete || message.headers@.len() == 0)
                ==> final(self).n_sync
                    == (if old(self).peers.peers@[idx as int].state.sync_active && old(
                    self,
                ).n_sync > 0 {
                    (old(self).n_sync - 1) as int
                } else {
                    old(self).n_sync as int
                }) && final(self).peers.peers@[idx as int].state.sync_active == false,
            r == HeadersOutcome::AcceptedContinue ==> final(self).n_sync == old(self).n_sync
                && final(self).peers.peers@[idx as int].state.sync_active
                    == old(self).peers.peers@[idx as int].state.sync_active,
            // the chain's stored bodies never move, and the header index
            // never shrinks
            final(self).chain.blocks@ == old(self).chain.blocks@,
            final(self).chain.headers@.len() >= old(self).chain.headers@.len(),
            // an accepted batch raises the peer's best known header to its
            // last entry exactly when that improves on what was known
            r != HeadersOutcome::RejectedBroken
                ==> final(self).peers.peers@[idx as int].state.best_known_header
                    == match old(self).peers.peers@[idx as int].state.best_known_header {
                    Option::None => Some(message.headers@.last()),
                    Option::Some(known) => if message.headers@.last().total_difficulty
                        > known.total_difficulty {
                        Some(message.headers@.last())
                    } else {
                        Some(known)
                    },
                },
            r != HeadersOutcome::RejectedBroken ==> final(self).best_known_number
                == if message.headers@.last().number > old(self).best_known_number {
                    message.headers@.last().number as int
                } else {
                    old(self).best_known_number as int
                },
            // a batch attaching to the header tip with only new hashes
            // joins the header index whole
            (r != HeadersOutcome::RejectedBroken && batch_extends(
                old(self).chain.headers@,
                message.headers@,
            )) ==> final(self).chain.headers@ == old(self).chain.headers@ + message.headers@,
    {
        if message.headers.len() == 0 {
            // the peer has nothing beyond our locator: end this sync round
            self.end_sync_round(idx);
            return HeadersOutcome::RejectedBroken;
        }
        // validate contiguity of the whole batch before storing anything
        let mut i: usize = 1;
        while i < message.headers.len()
            invariant
                self.peers == old(self).peers,
                self.chain == old(self).chain,
                self.n_sync == old(self).n_sync,
                self.best_known_number == old(self).best_known_number,
                old(self).wf(),
                idx < self.peers.peers@.len(),
                1 <= i <= message.headers@.len(),
                forall|j: int|
                    1 <= j < i ==> (#[trigger] message.headers@[j]).parent_hash
                        == message.headers@[j - 1].hash && message.headers@[j].number
                        == message.headers@[j - 1].number + 1,
            decreases message.headers@.len() - i,
        {
            let prev = message.headers[i - 1];
            let cur = message.headers[i];
            if !(cur.parent_hash == prev.hash && prev.number < u64::MAX && cur.number
                == prev.number + 1) {
                self.peers.add_misbehavior_at(idx, 1);
                return HeadersOutcome::RejectedBroken;
            }
            i = i + 1;
        }
        assert(headers_contiguous(message.headers@));
        // the batch must attach to a header this node already knows
        if self.chain.find_header_height(&message.headers[0].parent_hash).is_none() {
            self.peers.add_misbehavior_at(idx, 1);
            return HeadersOutcome::RejectedBroken;
        }
        // store every header that extends the known header chain
        Self::store_batch(&mut self.chain, &message.headers);
        // raise the peer's best known header to the batch's last entry
        let last = message.headers[message.headers.len() - 1];
        let improves = match self.peers.best_known_at(idx) {
            Some(known) => last.total_difficulty > known.total_difficulty,
            None => true,
        };
        if improves {
            self.peers.set_best_known_at(idx, last);
        }
        if last.number > self.best_known_number {
            self.best_known_number = last.number;
        }
        if message.headers.len() < MAX_HEADERS_PER_MSG {
            // a short batch means the peer's chain is exhausted
            self.end_sync_round(idx);
            HeadersOutcome::AcceptedComplete
        } else {
            HeadersOutcome::AcceptedContinue
        }
    }

    /// Select block bodies to fetch from the peer at row `idx` and reserve
    /// them in flight on it. Starting at the first height with no stored
    /// body and walking upward to the peer's best known header, hashes
    /// already in flight on any peer are skipped; the rest are reserved on
    /// this peer, never exceeding its in-flight cap. Returns `None` when
    /// the peer has not advertised a best header yet.
    #[verifier::rlimit(100)]
    pub fn get_blocks_to_fetch(&mut self, idx: usize, now: u64) -> (r: Option<Vec<Hash256>>)
        requires
            old(self).wf(),
            idx < old(self).peers.peers@.len(),
        ensures
            final(self).wf(),
            final(self).chain == old(self).chain,
            final(self).n_sync == old(self).n_sync,
            final(self).peers.peers@.len() == old(self).peers.peers@.len(),
            forall|j: int| 0 <= j < old(self).peers.peers@.len() && j != idx as int
                ==> #[trigger] final(self).peers.peers@[j] == old(self).peers.peers@[j],
            final(self).peers.peers@[idx as int].id == old(self).peers.peers@[idx as int].id,
            final(self).peers.peers@[idx as int].state.best_known_header
                == old(self).peers.peers@[idx as int].state.best_known_header,
            final(self).peers.peers@[idx as int].state.last_common_header
                == old(self).peers.peers@[idx as int].state.last_common_header,
            final(self).peers.peers@[idx as int].state.misbehavior_score
                == old(self).peers.peers@[idx as int].state.misbehavior_score,
            final(self).peers.peers@[idx as int].state.sync_active
                == old(self).peers.peers@[idx as int].state.sync_active,
            r is None ==> final(self).peers.peers@ == old(self).peers.peers@
                && old(self).peers.peers@[idx as int].state.best_known_header is None,
            r is Some ==> old(self).peers.peers@[idx as int].state.best_known_header is Some,
            r is Some ==> final(self).peers.peers@[idx as int].state.in_flight_blocks@.len()
                == old(self).peers.peers@[idx as int].state.in_flight_blocks@.len()
                    + r->0@.len()
                && final(self).peers.peers@[idx as int].state.in_flight_blocks@.len()
                    <= MAX_BLOCKS_IN_FLIGHT_PER_PEER,
            // every new reservation carries the selected hash stamped with
            // the request time
            r is Some ==> final(self).peers.peers@[idx as int].state.in_flight_blocks@
                == old(self).peers.peers@[idx as int].state.in_flight_blocks@ + r->0@.map(
                |i: int, hsh: Hash256| crate::peers::InFlightEntry {
                    hash: hsh,
                    requested_at: now,
                },
            ),
            r is Some ==> forall|i: int|
                0 <= i < r->0@.len() ==> (exists|hh: int|
                    old(self).chain.blocks@.len() <= hh < old(self).chain.headers@.len()
                        && (#[trigger] old(self).chain.headers@[hh]).hash == #[trigger] r->0@[i])
                    && !old(self).peers.inflight_anywhere(r->0@[i]) && state_has_inflight(
                    final(self).peers.peers@[idx as int].state,
                    r->0@[i],
                ),
            // selection is owed: on return either the peer is at its
            // in-flight cap, or every header height of the fetch window is
            // in flight on some peer
            r is Some ==> final(self).peers.peers@[idx as int].state.in_flight_blocks@.len()
                == MAX_BLOCKS_IN_FLIGHT_PER_PEER || (forall|hh: int|
                old(self).chain.blocks@.len() <= hh <= spec_window_top(
                    *old(self),
                    idx as int,
                ) ==> final(self).peers.inflight_anywhere(
                    (#[trigger] old(self).chain.headers@[hh]).hash,
                )),
    {
        let best = match self.peers.best_known_at(idx) {
            Some(h) => h,
            None => {
                return None;
            },
        };
        let header_count = self.chain.header_count();
        let top: usize = if best.number < (header_count - 1) as u64 {
            best.number as usize
        } else {
            header_count - 1
        };
        let mut out: Vec<Hash256> = Vec::new();
        let mut height = self.chain.block_count();
        let ghost old_len = old(self).peers.peers@[idx as int].state.in_flight_blocks@.len();
        while height <= top && self.peers.inflight_len_at(idx) < MAX_BLOCKS_IN_FLIGHT_PER_PEER
            invariant
                self.wf(),
                self.chain == old(self).chain,
                self.n_sync == old(self).n_sync,
                self.best_known_number == old(self).best_known_number,
                idx < self.peers.peers@.len(),
                top < self.chain.headers@.len(),
                top < usize::MAX,
                self.peers.peers@.len() == old(self).peers.peers@.len(),
                forall|j: int| 0 <= j < old(self).peers.peers@.len() && j != idx as int
                    ==> #[trigger] self.peers.peers@[j] == old(self).peers.peers@[j],
                self.peers.peers@[idx as int].id == old(self).peers.peers@[idx as int].id,
                self.peers.peers@[idx as int].state.best_known_header
                    == old(self).peers.peers@[idx as int].state.best_known_header,
                self.peers.peers@[idx as int].state.last_common_header
                    == old(self).peers.peers@[idx as int].state.last_common_header,
                self.peers.peers@[idx as int].state.misbehavior_score
                    == old(self).peers.peers@[idx as int].state.misbehavior_score,
                self.peers.peers@[idx as int].state.sync_active
                    == old(self).peers.peers@[idx as int].state.sync_active,
                old_len == old(self).peers.peers@[idx as int].state.in_flight_blocks@.len(),
                old(self).peers.peers@[idx as int].state.in_flight_blocks@.is_prefix_of(
                    self.peers.peers@[idx as int].state.in_flight_blocks@,
                ),
                self.peers.peers@[idx as int].state.in_flight_blocks@
                    == old(self).peers.peers@[idx as int].state.in_flight_blocks@ + out@.map(
                    |i: int, hsh: Hash256| crate::peers::InFlightEntry {
                        hash: hsh,
                        requested_at: now,
                    },
                ),
                self.peers.peers@[idx as int].state.in_flight_blocks@.len()
                    == old_len + out@.len(),
                self.chain.blocks@.len() <= height,
                top == spec_window_top(*old(self), idx as int),
                forall|hh: int|
                    old(self).chain.blocks@.len() <= hh < height
                        ==> self.peers.inflight_anywhere(
                        (#[trigger] old(self).chain.headers@[hh]).hash,
                    ),
                forall|i: int|
                    0 <= i < out@.len() ==> (exists|hh: int|
                        self.chain.blocks@.len() <= hh < self.chain.headers@.len()
                            && (#[trigger] self.chain.headers@[hh]).hash
                                == #[trigger] out@[i])
                        && !old(self).peers.inflight_anywhere(out@[i]) && state_has_inflight(
                        self.peers.peers@[idx as int].state,
                        out@[i],
                    ),
            decreases top + 1 - height,
        {
            let h = self.chain.headers[height].hash;
            let ghost regpre = self.peers;
            if !self.peers.is_inflight_anywhere(&h) {
                proof {
                    // a hash not in flight now was not in flight at entry:
                    // other rows are unchanged and this row only grew
                    if old(self).peers.inflight_anywhere(h) {
                        let a = choose|a: int|
                            0 <= a < old(self).peers.peers@.len() && state_has_inflight(
                                (#[trigger] old(self).peers.peers@[a]).state,
                                h,
                            );
                        if a == idx as int {
                            let k = choose|k: int|
                                0 <= k < old(self).peers.peers@[a].state.in_flight_blocks@.len()
                                    && (#[trigger] old(
                                    self,
                                ).peers.peers@[a].state.in_flight_blocks@[k]).hash == h;
                            assert(self.peers.peers@[a].state.in_flight_blocks@[k].hash == h);
                            assert(state_has_inflight(self.peers.peers@[a].state, h));
                        } else {
                            assert(self.peers.peers@[a] == old(self).peers.peers@[a]);
                        }
                        assert(self.peers.inflight_anywhere(h));
                    }
                    assert(self.chain.headers@[height as int].hash == h);
                }
                let ghost pre = self.peers.peers@[idx as int].state.in_flight_blocks@;
                self.peers.mark_inflight_at(idx, h, now);
                out.push(h);
                proof {
                    let cur = self.peers.peers@[idx as int].state.in_flight_blocks@;
                    assert(cur == pre.push(crate::peers::InFlightEntry {
                        hash: h,
                        requested_at: now,
                    }));
                    assert(cur =~= old(self).peers.peers@[idx as int].state.in_flight_blocks@
                        + out@.map(
                        |i: int, hsh: Hash256| crate::peers::InFlightEntry {
                            hash: hsh,
                            requested_at: now,
                        },
                    ));
                    assert forall|i: int| 0 <= i < out@.len() implies state_has_inflight(
                        self.peers.peers@[idx as int].state,
                        #[trigger] out@[i],
                    ) by {
                        if i < out@.len() - 1 {
                            let k = choose|k: int|
                                0 <= k < pre.len() && (#[trigger] pre[k]).hash == out@[i];
                            assert(cur[k].hash == out@[i]);
                        } else {
                            assert(cur.last().hash == h);
                        }
                    }
                    // earlier window heights stay in flight: other rows
                    // are untouched and this row only grew
                    assert forall|hh: int|
                        old(self).chain.blocks@.len() <= hh < height + 1
                        implies self.peers.inflight_anywhere(
                            (#[trigger] old(self).chain.headers@[hh]).hash,
                        ) by {
                        let hsh = old(self).chain.headers@[hh].hash;
                        if hh < height {
                            assert(regpre.inflight_anywhere(hsh));
                            let a = choose|a: int|
                                0 <= a < regpre.peers@.len() && state_has_inflight(
                                    (#[trigger] regpre.peers@[a]).state,
                                    hsh,
                                );
                            let k2 = choose|k2: int|
                                0 <= k2 < regpre.peers@[a].state.in_flight_blocks@.len()
                                    && (#[trigger] regpre.peers@[
                                    a
                                ].state.in_flight_blocks@[k2]).hash == hsh;
                            if a == idx as int {
                                assert(self.peers.peers@[a].state.in_flight_blocks@[k2].hash
                                    == hsh);
                            } else {
                                assert(self.peers.peers@[a] == regpre.peers@[a]);
                            }
                            assert(state_has_inflight(self.peers.peers@[a].state, hsh));
                        } else {
                            assert(self.peers.inflight_anywhere(h));
                        }
                    }
                }
            }
            height = height + 1;
        }
        Some(out)
    }

    /// Hand a received block to the chain, clearing any in-flight
    /// reservation of it held by the peer at row `idx`. A block that does
    /// not fit the known header chain at its height counts one
    /// misbehavior; one already stored adds none.
    pub fn process_new_block(&mut self, idx: usize, block: Block) -> (r: BlockAcceptance)
        requires
            old(self).wf(),
            idx < old(self).peers.peers@.len(),
        ensures
            final(self).wf(),
            final(self).n_sync == old(self).n_sync,
            final(self).best_known_number == old(self).best_known_number,
            final(self).peers.peers@.len() == old(self).peers.peers@.len(),
            forall|j: int| 0 <= j < old(self).peers.peers@.len() && j != idx as int
                ==> #[trigger] final(self).peers.peers@[j] == old(self).peers.peers@[j],
            final(self).peers.peers@[idx as int].id == old(self).peers.peers@[idx as int].id,
            final(self).chain.headers@ == old(self).chain.headers@,
            !state_has_inflight(
                final(self).peers.peers@[idx as int].state,
                block.header.hash,
            ),
            r == BlockAcceptance::Accepted <==> old(self).chain.accepts(block.header),
            r == BlockAcceptance::Accepted ==> final(self).chain.blocks@
                == old(self).chain.blocks@.push(block),
            r != BlockAcceptance::Accepted ==> final(self).chain.blocks@
                == old(self).chain.blocks@,
            final(self).peers.peers@[idx as int].state.misbehavior_score
                == if r == BlockAcceptance::Rejected {
                    if old(self).peers.peers@[idx as int].state.misbehavior_score + 1
                        <= u64::MAX {
                        old(self).peers.peers@[idx as int].state.misbehavior_score + 1
                    } else {
                        u64::MAX as int
                    }
                } else {
                    old(self).peers.peers@[idx as int].state.misbehavior_score as int
                },
            final(self).peers.peers@[idx as int].state.best_known_header
                == old(self).peers.peers@[idx as int].state.best_known_header,
            final(self).peers.peers@[idx as int].state.sync_active
                == old(self).peers.peers@[idx as int].state.sync_active,
            final(self).peers.peers@[idx as int].state.last_common_header
                == if r == BlockAcceptance::Accepted {
                    Some(block.header)
                } else {
                    old(self).peers.peers@[idx as int].state.last_common_header
                },
    {
        let header = block.header;
        let _ = self.peers.remove_inflight_at(idx, &header.hash);
        let acceptance = self.chain.process_block(block);
        if acceptance == BlockAcceptance::Rejected {
            self.peers.add_misbehavior_at(idx, 1);
        }
        if acceptance == BlockAcceptance::Accepted {
            // the accepted body is now shared with the peer that sent it
            self.peers.set_last_common_at(idx, header);
        }
        acceptance
    }

    /// Answer a `GetData` request: the heights of the stored bodies whose
    /// hashes the block-inventory entries name. Every returned height is a
    /// stored body matching some block-inventory hash, and every
    /// block-inventory hash the node has a body for is answered.
    #[verifier::rlimit(100)]
    #[verifier::spinoff_prover]
    pub fn handle_getdata(&self, message: &GetDataMessage) -> (r: Vec<usize>)
        requires
            self.wf(),
        ensures
            forall|j: int|
                0 <= j < r@.len() ==> 0 <= #[trigger] r@[j] < self.chain.blocks@.len()
                    && exists|i: int|
                    0 <= i < message.inventory@.len()
                        && (#[trigger] message.inventory@[i]).inv_type
                        == InventoryType::MsgBlock && message.inventory@[i].hash
                        == self.chain.blocks@[r@[j] as int].header.hash,
            forall|i: int|
                0 <= i < message.inventory@.len() && (#[trigger] message.inventory@[i]).inv_type
                    == InventoryType::MsgBlock ==> (forall|hgt: int|
                    0 <= hgt < self.chain.blocks@.len()
                        && (#[trigger] self.chain.blocks@[hgt]).header.hash
                        == message.inventory@[i].hash ==> r@.contains(hgt as usize)),
    {
        let mut out: Vec<usize> = Vec::new();
        let mut i: usize = 0;
        while i < message.inventory.len()
            invariant
                self.wf(),
                0 <= i <= message.inventory@.len(),
                forall|j: int|
                    0 <= j < out@.len() ==> 0 <= #[trigger] out@[j] < self.chain.blocks@.len()
                        && exists|ii: int|
                        0 <= ii < message.inventory@.len()
                            && (#[trigger] message.inventory@[ii]).inv_type
                            == InventoryType::MsgBlock && message.inventory@[ii].hash
                            == self.chain.blocks@[out@[j] as int].header.hash,
                forall|ii: int|
                    0 <= ii < i && (#[trigger] message.inventory@[ii]).inv_type
                        == InventoryType::MsgBlock ==> (forall|hgt: int|
                        0 <= hgt < self.chain.blocks@.len()
                            && (#[trigger] self.chain.blocks@[hgt]).header.hash
                            == message.inventory@[ii].hash ==> out@.contains(hgt as usize)),
            decreases message.inventory@.len() - i,
        {
            let inv = message.inventory[i];
            if matches!(inv.inv_type, InventoryType::MsgBlock) {
                match self.chain.find_block(&inv.hash) {
                    Some(height) => {
                        let ghost pre = out@;
                        out.push(height);
                        proof {
                            assert(out@[pre.len() as int] == height);
                            // anything already collected stays collected
                            assert forall|x: usize| pre.contains(x)
                                implies out@.contains(x) by {
                                let w = choose|w: int| 0 <= w < pre.len() && pre[w] == x;
                                assert(out@[w] == x);
                            }
                            assert forall|hgt: int|
                                0 <= hgt < self.chain.blocks@.len()
                                    && (#[trigger] self.chain.blocks@[hgt]).header.hash
                                    == inv.hash implies out@.contains(hgt as usize) by {
                                // stored hashes are unique, so the found
                                // height is the only one with this hash
                                assert(self.chain.blocks@[hgt].header
                                    == self.chain.headers@[hgt]);
                                assert(self.chain.blocks@[height as int].header
                                    == self.chain.headers@[height as int]);
                                assert(hgt == height as int);
                                assert(out@[pre.len() as int] == hgt as usize);
                            }
                        }
                    },
                    None => {},
                }
            }
            i = i + 1;
        }
        out
    }

    /// Append every header of a contiguous batch that extends the known
    /// header chain; a header that does not attach at the top is ignored. A
    /// batch attaching at the header tip with only new hashes joins whole.
    #[verifier::rlimit(100)]
    #[verifier::spinoff_prover]
    fn store_batch(chain: &mut ChainView, message: &Vec<Header>)
        requires
            old(chain).wf(),
            headers_contiguous(message@),
        ensures
            final(chain).wf(),
            final(chain).blocks@ == old(chain).blocks@,
            final(chain).headers@.len() >= old(chain).headers@.len(),
            batch_extends(old(chain).headers@, message@) ==> final(chain).headers@
                == old(chain).headers@ + message@,
    {
        let ghost oldh = old(chain).headers@;
        let ghost msgs = message@;
        let mut k: usize = 0;
        while k < message.len()
            invariant
                chain.wf(),
                0 <= k <= message@.len(),
                chain.blocks@ == old(chain).blocks@,
                oldh == old(chain).headers@,
                msgs == message@,
                headers_contiguous(msgs),
                chain.headers@.len() >= oldh.len(),
                batch_extends(oldh, msgs) ==> chain.headers@ == oldh + msgs.subrange(0, k as int)
                    && (k < msgs.len() ==> msgs[k as int].number == oldh.len() + k),
            decreases message@.len() - k,
        {
            let h = message[k];
            let ghost pre = chain.headers@;
            let _ = chain.store_header(h);
            proof {
                if batch_extends(oldh, msgs) {
                    let kk = k as int;
                    assert(pre =~= oldh + msgs.subrange(0, kk));
                    assert(pre.last() == if kk == 0 {
                        oldh.last()
                    } else {
                        msgs[kk - 1]
                    });
                    assert(h.number == pre.len());
                    assert(h.parent_hash == pre.last().hash);
                    assert(!chain_has_hash(pre, h.hash)) by {
                        if chain_has_hash(pre, h.hash) {
                            let w = choose|w: int|
                                0 <= w < pre.len() && (#[trigger] pre[w]).hash == h.hash;
                            if w < oldh.len() {
                                assert(oldh[w].hash == h.hash);
                                assert(chain_has_hash(oldh, msgs[kk].hash));
                            } else {
                                assert(msgs[w - oldh.len()].hash == msgs[kk].hash);
                            }
                        }
                    }
                    assert(chain.headers@ == pre.push(h));
                    assert(chain.headers@ =~= oldh + msgs.subrange(0, kk + 1));
                    if kk + 1 < msgs.len() {
                        assert(msgs[kk + 1].number == msgs[kk].number + 1);
                    }
                }
            }
            k = k + 1;
        }
        proof {
            if batch_extends(oldh, msgs) {
                assert(msgs.subrange(0, msgs.len() as int) =~= msgs);
            }
        }
    }

/// Enclose a header vector in a `Headers` message.
    fn wrap_headers(headers: Vec<Header>) -> (r: HeadersMessage)
        ensures
            r.headers == headers,
    {
        HeadersMessage { headers }
    }

    /// End a headers-sync round with the peer at row `idx`: clear its
    /// active flag, and when a round was actually running with it,
    /// decrement `n_sync` (never below zero), so the counter tracks the
    /// number of actively-syncing peers.
    fn end_sync_round(&mut self, idx: usize)
        requires
            old(self).wf(),
            idx < old(self).peers.peers@.len(),
        ensures
            final(self).wf(),
            final(self).chain == old(self).chain,
            final(self).best_known_number == old(self).best_known_number,
            final(self).peers.peers@.len() == old(self).peers.peers@.len(),
            final(self).n_sync
                == if old(self).peers.peers@[idx as int].state.sync_active && old(self).n_sync
                    > 0 {
                    (old(self).n_sync - 1) as int
                } else {
                    old(self).n_sync as int
                },
            final(self).peers.peers@[idx as int].state.sync_active == false,
            final(self).peers.peers@[idx as int].id == old(self).peers.peers@[idx as int].id,
            final(self).peers.peers@[idx as int].state.best_known_header
                == old(self).peers.peers@[idx as int].state.best_known_header,
            final(self).peers.peers@[idx as int].state.last_common_header
                == old(self).peers.peers@[idx as int].state.last_common_header,
            final(self).peers.peers@[idx as int].state.misbehavior_score
                == old(self).peers.peers@[idx as int].state.misbehavior_score,
            final(self).peers.peers@[idx as int].state.in_flight_blocks@
                == old(self).peers.peers@[idx as int].state.in_flight_blocks@,
            forall|j: int| 0 <= j < old(self).peers.peers@.len() && j != idx as int
                ==> #[trigger] final(self).peers.peers@[j] == old(self).peers.peers@[j],
    {
        let was_active = self.peers.sync_active_at(idx);
        self.peers.set_sync_active_at(idx, false);
        if was_active && self.n_sync > 0 {
            self.n_sync = self.n_sync - 1;
        }
    }
}

} // verus!
