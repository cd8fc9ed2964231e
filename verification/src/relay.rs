//! The relay engine: deduplicated gossip of transactions and blocks, and
//! compact-block reconstruction against the transaction pool. Each
//! transaction or block hash triggers the downstream engine and the relay
//! at most once, however often peers echo it.

use vstd::prelude::*;

use crate::chain::BlockAcceptance;
use crate::peers::PeerRegistry;
use crate::shortid::short_transaction_id;
use crate::shortid::short_transaction_id_keys;
use crate::shortid::spec_short_transaction_id;
use crate::shortid::spec_short_transaction_id_keys;
use crate::sync::Synchronizer;
use crate::types::Block;
use crate::types::BlockTransactionsMessage;
use crate::types::BlockTransactionsRequest;
use crate::types::CompactBlock;
use crate::types::Hash256;
use crate::types::Payload;
use crate::types::PeerId;
use crate::types::PrefilledTransaction;
use crate::types::Transaction;

verus! {

/// Whether the hash sequence `s` holds `h`.
pub open spec fn hashes_contain(s: Seq<Hash256>, h: Hash256) -> bool {
    exists|k: int| 0 <= k < s.len() && s[k] == h
}

/// Insert `h` into a hash set kept as a vector. Returns true exactly when
/// the hash was absent, in which case it is appended; a present hash
/// leaves the set unchanged.
fn insert_hash(set: &mut Vec<Hash256>, h: Hash256) -> (r: bool)
    ensures
        r == !hashes_contain(old(set)@, h),
        r ==> final(set)@ == old(set)@.push(h),
        !r ==> final(set)@ == old(set)@,
        hashes_contain(final(set)@, h),
{
    let mut k: usize = 0;
    while k < set.len()
        invariant
            0 <= k <= set@.len(),
            forall|m: int| 0 <= m < k ==> set@[m] != h,
        decreases set@.len() - k,
    {
        if set[k] == h {
            return false;
        }
        k = k + 1;
    }
    set.push(h);
    proof {
        assert(final(set)@.last() == h);
    }
    true
}

/// The transaction pool seen by the relay engine: the main pool and the
/// orphan pool. Admission rules beyond duplicate suppression belong to
/// the external pool engine; the relay core only needs the members.
pub struct TxPool {
    pub pool: Vec<Transaction>,
    pub orphan: Vec<Transaction>,
}

/// Whether a transaction sequence holds `tx`.
pub open spec fn txs_contain(s: Seq<Transaction>, tx: Transaction) -> bool {
    exists|k: int| 0 <= k < s.len() && s[k] == tx
}

impl TxPool {
    /// An empty pool.
    pub fn new() -> (r: TxPool)
        ensures
            r.pool@.len() == 0,
            r.orphan@.len() == 0,
    {
        TxPool { pool: Vec::new(), orphan: Vec::new() }
    }

    /// Admit a transaction to the main pool unless it is already there.
    /// Returns whether it was admitted.
    pub fn add_to_memory_pool(&mut self, tx: Transaction) -> (r: bool)
        ensures
            final(self).orphan@ == old(self).orphan@,
            r == !txs_contain(old(self).pool@, tx),
            r ==> final(self).pool@ == old(self).pool@.push(tx),
            !r ==> final(self).pool@ == old(self).pool@,
    {
        let mut k: usize = 0;
        while k < self.pool.len()
            invariant
                0 <= k <= self.pool@.len(),
                forall|m: int| 0 <= m < k ==> self.pool@[m] != tx,
            decreases self.pool@.len() - k,
        {
            if self.pool[k] == tx {
                return false;
            }
            k = k + 1;
        }
        self.pool.push(tx);
        true
    }
}

/// One pending compact block, keyed by its header hash, waiting for the
/// transactions requested from its announcer.
pub struct PendingEntry {
    pub hash: Hash256,
    pub compact: CompactBlock,
}

/// The relay protocol handler: the transaction pool, the
/// process-lifetime dedup sets, and the pending compact blocks. The peer
/// registry and chain view are shared with the sync handler: every method
/// that needs them borrows the one `Synchronizer`, so a peer the sync
/// handler removes is gone for the relay too.
pub struct RelayProtocol {
    pub tx_pool: TxPool,
    pub received_blocks: Vec<Hash256>,
    pub received_transactions: Vec<Hash256>,
    pub pending_compact_blocks: Vec<PendingEntry>,
}

impl RelayProtocol {
    /// Whether a compact block with header hash `h` is pending.
    pub open spec fn has_pending(self, h: Hash256) -> bool {
        exists|k: int|
            0 <= k < self.pending_compact_blocks@.len()
                && (#[trigger] self.pending_compact_blocks@[k]).hash == h
    }

    /// Well-formedness: pending compact blocks are keyed uniquely.
    pub open spec fn wf(self) -> bool {
        forall|k1: int, k2: int|
            0 <= k1 < self.pending_compact_blocks@.len() && 0 <= k2
                < self.pending_compact_blocks@.len() && k1 != k2
                ==> (#[trigger] self.pending_compact_blocks@[k1]).hash
                    != (#[trigger] self.pending_compact_blocks@[k2]).hash
    }

    /// Build the relay handler around a transaction pool.
    pub fn new(tx_pool: TxPool) -> (r: RelayProtocol)
        ensures
            r.wf(),
            r.tx_pool == tx_pool,
            r.received_blocks@.len() == 0,
            r.received_transactions@.len() == 0,
            r.pending_compact_blocks@.len() == 0,
    {
        RelayProtocol {
            tx_pool,
            received_blocks: Vec::new(),
            received_transactions: Vec::new(),
            pending_compact_blocks: Vec::new(),
        }
    }

    /// The peers a payload from `source` is forwarded to: every peer of
    /// the shared registry except the source, each exactly once.
    pub fn relay(&self, sync: &Synchronizer, source: PeerId) -> (r: Vec<PeerId>)
        requires
            sync.wf(),
        ensures
            forall|i: int|
                0 <= i < r@.len() ==> #[trigger] r@[i] != source && sync.peers.has_peer(r@[i]),
            forall|j: int|
                0 <= j < sync.peers.peers@.len() && (#[trigger] sync.peers.peers@[j]).id
                    != source ==> r@.contains(sync.peers.peers@[j].id),
            forall|i1: int, i2: int|
                0 <= i1 < r@.len() && 0 <= i2 < r@.len() && i1 != i2
                    ==> r@[i1] != r@[i2],
    {
        relay_targets(&sync.peers, source)
    }
    /// Process a transaction received from `source`. On first delivery
    /// its hash enters the dedup set, the pool engine is asked to admit
    /// it, and the targets to forward it to are returned. A transaction
    /// whose hash was seen before changes nothing and is forwarded to no
    /// one: pool and relay fire at most once per hash.
    pub fn handle_transaction(&mut self, sync: &Synchronizer, source: PeerId, tx: Transaction)
        -> (r: Option<Vec<PeerId>>)
        requires
            old(self).wf(),
            sync.wf(),
        ensures
            final(self).wf(),
            final(self).received_blocks@ == old(self).received_blocks@,
            final(self).pending_compact_blocks@ == old(self).pending_compact_blocks@,
            r is Some <==> !hashes_contain(old(self).received_transactions@, tx.hash),
            r is None ==> final(self).received_transactions@
                == old(self).received_transactions@ && final(self).tx_pool
                == old(self).tx_pool,
            r is Some ==> final(self).received_transactions@
                == old(self).received_transactions@.push(tx.hash),
            r is Some ==> final(self).tx_pool.pool@
                == if txs_contain(old(self).tx_pool.pool@, tx) {
                    old(self).tx_pool.pool@
                } else {
                    old(self).tx_pool.pool@.push(tx)
                },
            final(self).tx_pool.orphan@ == old(self).tx_pool.orphan@,
            r is Some ==> {
                let targets = r->0@;
                &&& forall|i: int|
                    0 <= i < targets.len() ==> #[trigger] targets[i] != source
                        && sync.peers.has_peer(targets[i])
                &&& forall|j: int|
                    0 <= j < sync.peers.peers@.len() && (#[trigger] sync.peers.peers@[j]).id
                        != source ==> targets.contains(sync.peers.peers@[j].id)
                &&& forall|i1: int, i2: int|
                    0 <= i1 < targets.len() && 0 <= i2 < targets.len() && i1 != i2
                        ==> targets[i1] != targets[i2]
            },
    {
        if insert_hash(&mut self.received_transactions, tx.hash) {
            let _ = self.tx_pool.add_to_memory_pool(tx);
            Some(self.relay(sync, source))
        } else {
            None
        }
    }

    /// Process a full block received from `source`. On first delivery of
    /// its hash the chain engine is invoked once and the forwarding
    /// targets are returned together with the chain's verdict; a repeated
    /// hash changes nothing and is forwarded to no one.
    pub fn handle_block(&mut self, sync: &mut Synchronizer, source: PeerId, block: Block) -> (r:
        Option<(BlockAcceptance, Vec<PeerId>)>)
        requires
            old(self).wf(),
            old(sync).wf(),
        ensures
            final(self).wf(),
            final(sync).wf(),
            final(self).received_transactions@ == old(self).received_transactions@,
            final(self).pending_compact_blocks@ == old(self).pending_compact_blocks@,
            final(self).tx_pool == old(self).tx_pool,
            r is Some <==> !hashes_contain(old(self).received_blocks@, block.header.hash),
            r is None ==> final(self).received_blocks@ == old(self).received_blocks@
                && *final(sync) == *old(sync),
            r is Some ==> final(self).received_blocks@
                == old(self).received_blocks@.push(block.header.hash),
            final(sync).chain.headers@ == old(sync).chain.headers@,
            r is Some ==> ((r->0).0 == BlockAcceptance::Accepted
                <==> old(sync).chain.accepts(block.header)),
            r is Some ==> ((r->0).0 == BlockAcceptance::Accepted
                ==> final(sync).chain.blocks@ == old(sync).chain.blocks@.push(block)),
            r is Some ==> ((r->0).0 != BlockAcceptance::Accepted
                ==> final(sync).chain.blocks@ == old(sync).chain.blocks@),
            r is Some ==> {
                let targets = (r->0).1@;
                &&& forall|i: int|
                    0 <= i < targets.len() ==> #[trigger] targets[i] != source
                        && final(sync).peers.has_peer(targets[i])
                &&& forall|j: int|
                    0 <= j < final(sync).peers.peers@.len()
                        && (#[trigger] final(sync).peers.peers@[j]).id != source
                        ==> targets.contains(final(sync).peers.peers@[j].id)
                &&& forall|i1: int, i2: int|
                    0 <= i1 < targets.len() && 0 <= i2 < targets.len() && i1 != i2
                        ==> targets[i1] != targets[i2]
            },
    {
        if insert_hash(&mut self.received_blocks, block.header.hash) {
            let acceptance = match sync.peers.find_peer(source) {
                Some(idx) => sync.process_new_block(idx, block),
                None => sync.chain.process_block(block),
            };
            let targets = self.relay(sync, source);
            Some((acceptance, targets))
        } else {
            None
        }
    }
}

/// One entry of the short-ID to transaction mapping built during
/// reconstruction.
#[derive(PartialEq, Eq, Structural, Clone, Copy, Debug)]
struct SidEntry {
    sid: u64,
    tx: Transaction,
}

/// Whether the mapping holds an entry keyed `s`.
spec fn map_has_sid(m: Seq<SidEntry>, s: u64) -> bool {
    exists|k: int| 0 <= k < m.len() && (#[trigger] m[k]).sid == s
}

/// Whether some candidate transaction has short ID `s` under keys
/// `k0`, `k1`.
pub open spec fn cand_has_sid(k0: u64, k1: u64, cands: Seq<Transaction>, s: u64) -> bool {
    exists|c: int|
        0 <= c < cands.len() && spec_short_transaction_id(k0, k1, (#[trigger] cands[c]).hash) == s
}

/// The candidate a short ID resolves to under last-writer-wins: the last
/// candidate in order whose short ID under the keys equals `s`. Total for
/// uniformity; its value matters only where some candidate carries `s`.
pub open spec fn last_candidate_with_sid(
    k0: u64,
    k1: u64,
    cands: Seq<Transaction>,
    s: u64,
) -> Transaction
    decreases cands.len(),
{
    if cands.len() == 0 {
        Transaction { hash: Hash256 { w0: 0, w1: 0, w2: 0, w3: 0 } }
    } else if spec_short_transaction_id(k0, k1, cands.last().hash) == s {
        cands.last()
    } else {
        last_candidate_with_sid(k0, k1, cands.drop_last(), s)
    }
}

/// Whether `s` occurs among the first `upto` short IDs.
spec fn sid_in_prefix(sids: Seq<u64>, upto: int, s: u64) -> bool {
    exists|j: int| 0 <= j < upto && sids[j] == s
}

/// The candidate transactions reconstruction draws from: the transactions
/// delivered with the request answer, the compact block's prefilled
/// transactions, the main pool and the orphan pool, in that order (a later
/// candidate wins a short-ID collision).
pub open spec fn spec_candidates(
    compact: CompactBlock,
    delivered: Seq<Transaction>,
    pool: Seq<Transaction>,
    orphan: Seq<Transaction>,
) -> Seq<Transaction> {
    delivered + compact.prefilled@.map(|i: int, p: PrefilledTransaction| p.transaction) + pool
        + orphan
}

/// Every short ID has a candidate carrying it.
pub open spec fn short_ids_covered(
    k0: u64,
    k1: u64,
    sids: Seq<u64>,
    cands: Seq<Transaction>,
) -> bool {
    forall|i: int| 0 <= i < sids.len() ==> cand_has_sid(k0, k1, cands, #[trigger] sids[i])
}

/// The short IDs are pairwise distinct.
pub open spec fn sids_distinct(sids: Seq<u64>) -> bool {
    forall|i: int, j: int|
        0 <= i < sids.len() && 0 <= j < sids.len() && i != j ==> sids[i] != sids[j]
}

/// Append a copy of every transaction of `src` to `dst`.
fn append_txs(dst: &mut Vec<Transaction>, src: &Vec<Transaction>)
    ensures
        final(dst)@ == old(dst)@ + src@,
{
    let mut k: usize = 0;
    while k < src.len()
        invariant
            0 <= k <= src@.len(),
            dst@ == old(dst)@ + src@.subrange(0, k as int),
        decreases src@.len() - k,
    {
        dst.push(src[k]);
        proof {
            assert(dst@ =~= old(dst)@ + src@.subrange(0, k as int + 1));
        }
        k = k + 1;
    }
    proof {
        assert(dst@ =~= old(dst)@ + src@);
    }
}

/// All registered peers except `source`, in registry order.
pub fn relay_targets(peers: &PeerRegistry, source: PeerId) -> (r: Vec<PeerId>)
    requires
        peers.wf(),
    ensures
        forall|i: int|
            0 <= i < r@.len() ==> #[trigger] r@[i] != source && peers.has_peer(r@[i]),
        forall|j: int|
            0 <= j < peers.peers@.len() && (#[trigger] peers.peers@[j]).id != source
                ==> r@.contains(peers.peers@[j].id),
        forall|i1: int, i2: int|
            0 <= i1 < r@.len() && 0 <= i2 < r@.len() && i1 != i2 ==> r@[i1] != r@[i2],
{
    let mut out: Vec<PeerId> = Vec::new();
    let mut j: usize = 0;
    while j < peers.len()
        invariant
            peers.wf(),
            0 <= j <= peers.peers@.len(),
            forall|i: int|
                0 <= i < out@.len() ==> #[trigger] out@[i] != source && peers.has_peer(out@[i]),
            forall|jj: int|
                0 <= jj < j && (#[trigger] peers.peers@[jj]).id != source
                    ==> out@.contains(peers.peers@[jj].id),
            forall|i: int|
                0 <= i < out@.len() ==> exists|jj: int|
                    0 <= jj < j && (#[trigger] peers.peers@[jj]).id == #[trigger] out@[i],
            forall|i1: int, i2: int|
                0 <= i1 < out@.len() && 0 <= i2 < out@.len() && i1 != i2
                    ==> out@[i1] != out@[i2],
        decreases peers.peers@.len() - j,
    {
        let id = peers.peer_id_at(j);
        if id != source {
            let ghost pre = out@;
            out.push(id);
            proof {
                assert(out@.last() == id);
                assert(peers.peers@[j as int].id == id);
                // the new id came from an unvisited row, so uniqueness of
                // registry ids keeps the output duplicate-free
                assert forall|i1: int, i2: int|
                    0 <= i1 < out@.len() && 0 <= i2 < out@.len() && i1 != i2
                    implies out@[i1] != out@[i2] by {
                    if i1 < pre.len() && i2 < pre.len() {
                        assert(out@[i1] == pre[i1]);
                        assert(out@[i2] == pre[i2]);
                    } else if i1 == pre.len() {
                        let jj = choose|jj: int|
                            0 <= jj < j && (#[trigger] peers.peers@[jj]).id == pre[i2];
                        assert(peers.peers@[jj].id != peers.peers@[j as int].id);
                    } else {
                        let jj = choose|jj: int|
                            0 <= jj < j && (#[trigger] peers.peers@[jj]).id == pre[i1];
                        assert(peers.peers@[jj].id != peers.peers@[j as int].id);
                    }
                }
                assert forall|jj: int|
                    0 <= jj < j + 1 && (#[trigger] peers.peers@[jj]).id != source
                    implies out@.contains(peers.peers@[jj].id) by {
                    if jj < j {
                        assert(pre.contains(peers.peers@[jj].id));
                        let w = choose|w: int|
                            0 <= w < pre.len() && pre[w] == peers.peers@[jj].id;
                        assert(out@[w] == peers.peers@[jj].id);
                    } else {
                        assert(out@.last() == peers.peers@[jj].id);
                    }
                }
            }
        }
        j = j + 1;
    }
    out
}

impl RelayProtocol {
    /// Reconstruct a block from a compact block and delivered
    /// transactions, against the pools. Candidates are the delivered and
    /// prefilled transactions and both pools; a short-ID map is built
    /// last-writer-wins, then each short ID in order is resolved through
    /// it, consuming the entry. With no missing entry the block is
    /// returned; otherwise the missing positions are, in ascending order.
    /// When every short ID is covered by a candidate and the short IDs
    /// are pairwise distinct, reconstruction always succeeds.
    #[verifier::rlimit(100)]
    pub fn reconstruct_block(&self, compact: &CompactBlock, delivered: &Vec<Transaction>) -> (r: (
        Option<Block>,
        Option<Vec<usize>>,
    ))
        ensures
            (r.0 is Some) <==> (r.1 is None),
            r.0 is Some ==> (r.0->0).header == compact.header,
            r.0 is Some ==> (r.0->0).transactions@.len() == compact.short_ids@.len(),
            r.0 is Some ==> forall|i: int|
                0 <= i < compact.short_ids@.len() ==> spec_short_transaction_id(
                    spec_short_transaction_id_keys(compact.nonce, compact.header).0,
                    spec_short_transaction_id_keys(compact.nonce, compact.header).1,
                    (#[trigger] (r.0->0).transactions@[i]).hash,
                ) == compact.short_ids@[i] && txs_contain(
                    spec_candidates(*compact, delivered@, self.tx_pool.pool@, self.tx_pool.orphan@),
                    (r.0->0).transactions@[i],
                ),
            // a short-ID collision resolves to the last candidate in
            // gathering order, as the map is built last-writer-wins
            r.0 is Some ==> forall|i: int|
                0 <= i < compact.short_ids@.len() ==> #[trigger] (r.0->0).transactions@[i]
                    == last_candidate_with_sid(
                    spec_short_transaction_id_keys(compact.nonce, compact.header).0,
                    spec_short_transaction_id_keys(compact.nonce, compact.header).1,
                    spec_candidates(*compact, delivered@, self.tx_pool.pool@, self.tx_pool.orphan@),
                    compact.short_ids@[i],
                ),
            r.1 is Some ==> (r.1->0)@.len() > 0,
            r.1 is Some ==> forall|j: int|
                0 <= j < (r.1->0)@.len() ==> #[trigger] (r.1->0)@[j] < compact.short_ids@.len(),
            r.1 is Some ==> forall|a: int, b: int|
                0 <= a < b < (r.1->0)@.len() ==> (r.1->0)@[a] < (r.1->0)@[b],
            forall|i: int|
                0 <= i < compact.short_ids@.len() && !cand_has_sid(
                    spec_short_transaction_id_keys(compact.nonce, compact.header).0,
                    spec_short_transaction_id_keys(compact.nonce, compact.header).1,
                    spec_candidates(*compact, delivered@, self.tx_pool.pool@, self.tx_pool.orphan@),
                    #[trigger] compact.short_ids@[i],
                ) ==> r.1 is Some && (r.1->0)@.contains(i as usize),
            short_ids_covered(
                spec_short_transaction_id_keys(compact.nonce, compact.header).0,
                spec_short_transaction_id_keys(compact.nonce, compact.header).1,
                compact.short_ids@,
                spec_candidates(*compact, delivered@, self.tx_pool.pool@, self.tx_pool.orphan@),
            ) && sids_distinct(compact.short_ids@) ==> r.0 is Some,
    {
        let keys = short_transaction_id_keys(compact.nonce, &compact.header);
        let k0 = keys.0;
        let k1 = keys.1;
        let ghost gcands = spec_candidates(
            *compact,
            delivered@,
            self.tx_pool.pool@,
            self.tx_pool.orphan@,
        );
        // gather the candidate transactions in collision-priority order
        let mut cands: Vec<Transaction> = Vec::new();
        append_txs(&mut cands, delivered);
        let mut p: usize = 0;
        while p < compact.prefilled.len()
            invariant
                0 <= p <= compact.prefilled@.len(),
                cands@ == delivered@ + compact.prefilled@.subrange(0, p as int).map(
                    |i: int, pf: PrefilledTransaction| pf.transaction,
                ),
            decreases compact.prefilled@.len() - p,
        {
            cands.push(compact.prefilled[p].transaction);
            proof {
                assert(cands@ =~= delivered@ + compact.prefilled@.subrange(0, p as int + 1).map(
                    |i: int, pf: PrefilledTransaction| pf.transaction,
                ));
            }
            p = p + 1;
        }
        proof {
            assert(compact.prefilled@.subrange(0, compact.prefilled@.len() as int)
                =~= compact.prefilled@);
        }
        append_txs(&mut cands, &self.tx_pool.pool);
        append_txs(&mut cands, &self.tx_pool.orphan);
        proof {
            assert(cands@ =~= gcands);
        }
        // short-ID map over the candidates, last writer winning
        let mut m: Vec<SidEntry> = Vec::new();
        let mut c: usize = 0;
        while c < cands.len()
            invariant
                0 <= c <= cands@.len(),
                cands@ == gcands,
                forall|a: int, b: int|
                    0 <= a < m@.len() && 0 <= b < m@.len() && a != b
                        ==> (#[trigger] m@[a]).sid != (#[trigger] m@[b]).sid,
                forall|e: int|
                    0 <= e < m@.len() ==> spec_short_transaction_id(
                        k0,
                        k1,
                        (#[trigger] m@[e]).tx.hash,
                    ) == m@[e].sid && txs_contain(gcands, m@[e].tx),
                forall|cc: int|
                    0 <= cc < c ==> map_has_sid(
                        m@,
                        spec_short_transaction_id(k0, k1, (#[trigger] gcands[cc]).hash),
                    ),
                forall|e: int|
                    0 <= e < m@.len() ==> (#[trigger] m@[e]).tx == last_candidate_with_sid(
                        k0,
                        k1,
                        gcands.subrange(0, c as int),
                        m@[e].sid,
                    ),
            decreases cands@.len() - c,
        {
            let tx = cands[c];
            let s = short_transaction_id(k0, k1, &tx.hash);
            let ghost mpre = m@;
            let mut k: usize = 0;
            let mut found = false;
            while k < m.len() && !found
                invariant
                    0 <= k <= m@.len(),
                    m@ == mpre,
                    !found ==> forall|e: int| 0 <= e < k ==> (#[trigger] m@[e]).sid != s,
                    found ==> k < m@.len() && m@[k as int].sid == s,
                decreases m@.len() - k, (if found { 0int } else { 1int }),
            {
                if m[k].sid == s {
                    found = true;
                } else {
                    k = k + 1;
                }
            }
            if found {
                let row = &mut m[k];
                row.tx = tx;
                proof {
                    assert(m@[k as int].sid == s);
                    assert(m@[k as int].tx == tx);
                    let presub = gcands.subrange(0, c as int);
                    let cursub = gcands.subrange(0, c as int + 1);
                    assert(cursub.drop_last() =~= presub);
                    assert(cursub.last() == gcands[c as int]);
                    assert forall|e: int| 0 <= e < m@.len()
                        implies (#[trigger] m@[e]).tx == last_candidate_with_sid(
                            k0,
                            k1,
                            cursub,
                            m@[e].sid,
                        ) by {
                        if e == k as int {
                            assert(spec_short_transaction_id(k0, k1, cursub.last().hash) == s);
                        } else {
                            assert(m@[e] == mpre[e]);
                            assert(mpre[e].sid != s);
                            assert(spec_short_transaction_id(k0, k1, cursub.last().hash)
                                != m@[e].sid);
                            assert(mpre[e].tx == last_candidate_with_sid(
                                k0,
                                k1,
                                presub,
                                mpre[e].sid,
                            ));
                        }
                    }
                    assert forall|cc: int| 0 <= cc < c + 1 implies map_has_sid(
                        m@,
                        spec_short_transaction_id(k0, k1, (#[trigger] gcands[cc]).hash),
                    ) by {
                        let scc = spec_short_transaction_id(k0, k1, gcands[cc].hash);
                        if cc < c {
                            let w = choose|w: int|
                                0 <= w < mpre.len() && (#[trigger] mpre[w]).sid == scc;
                            assert(m@[w].sid == scc);
                        } else {
                            assert(m@[k as int].sid == scc);
                        }
                    }
                }
            } else {
                let ghost prelen = m@.len();
                m.push(SidEntry { sid: s, tx });
                proof {
                    assert(m@[prelen as int].sid == s);
                    let presub = gcands.subrange(0, c as int);
                    let cursub = gcands.subrange(0, c as int + 1);
                    assert(cursub.drop_last() =~= presub);
                    assert(cursub.last() == gcands[c as int]);
                    assert forall|e: int| 0 <= e < m@.len()
                        implies (#[trigger] m@[e]).tx == last_candidate_with_sid(
                            k0,
                            k1,
                            cursub,
                            m@[e].sid,
                        ) by {
                        if e == prelen as int {
                            assert(spec_short_transaction_id(k0, k1, cursub.last().hash) == s);
                        } else {
                            assert(m@[e] == mpre[e]);
                            assert(mpre[e].sid != s);
                            assert(spec_short_transaction_id(k0, k1, cursub.last().hash)
                                != m@[e].sid);
                            assert(mpre[e].tx == last_candidate_with_sid(
                                k0,
                                k1,
                                presub,
                                mpre[e].sid,
                            ));
                        }
                    }
                    assert forall|cc: int| 0 <= cc < c + 1 implies map_has_sid(
                        m@,
                        spec_short_transaction_id(k0, k1, (#[trigger] gcands[cc]).hash),
                    ) by {
                        let scc = spec_short_transaction_id(k0, k1, gcands[cc].hash);
                        if cc < c {
                            let w = choose|w: int|
                                0 <= w < mpre.len() && (#[trigger] mpre[w]).sid == scc;
                            assert(m@[w].sid == scc);
                        } else {
                            assert(m@[prelen as int].sid == scc);
                        }
                    }
                }
            }
            c = c + 1;
        }
        let ghost m0 = m@;
        proof {
            assert(gcands.subrange(0, gcands.len() as int) =~= gcands);
        }
        // resolve each short ID in positional order, consuming entries
        let mut got: Vec<Transaction> = Vec::new();
        let mut missing: Vec<usize> = Vec::new();
        let mut i: usize = 0;
        while i < compact.short_ids.len()
            invariant
                0 <= i <= compact.short_ids@.len(),
                i == got@.len() + missing@.len(),
                forall|a: int, b: int|
                    0 <= a < m@.len() && 0 <= b < m@.len() && a != b
                        ==> (#[trigger] m@[a]).sid != (#[trigger] m@[b]).sid,
                forall|e: int|
                    0 <= e < m@.len() ==> spec_short_transaction_id(
                        k0,
                        k1,
                        (#[trigger] m@[e]).tx.hash,
                    ) == m@[e].sid && txs_contain(gcands, m@[e].tx),
                forall|e: int|
                    0 <= e < m@.len() ==> (#[trigger] m@[e]).tx == last_candidate_with_sid(
                        k0,
                        k1,
                        gcands,
                        m@[e].sid,
                    ),
                forall|cc: int|
                    0 <= cc < gcands.len() ==> map_has_sid(
                        m0,
                        spec_short_transaction_id(k0, k1, (#[trigger] gcands[cc]).hash),
                    ),
                forall|s: u64|
                    #[trigger] map_has_sid(m0, s) && !sid_in_prefix(
                        compact.short_ids@,
                        i as int,
                        s,
                    ) ==> map_has_sid(m@, s),
                forall|j: int|
                    0 <= j < missing@.len() ==> #[trigger] missing@[j] < i,
                forall|a: int, b: int|
                    0 <= a < b < missing@.len() ==> missing@[a] < missing@[b],
                forall|ii: int|
                    0 <= ii < i && !cand_has_sid(
                        k0,
                        k1,
                        gcands,
                        #[trigger] compact.short_ids@[ii],
                    ) ==> missing@.contains(ii as usize),
                sids_distinct(compact.short_ids@) ==> forall|j: int|
                    0 <= j < missing@.len() ==> !cand_has_sid(
                        k0,
                        k1,
                        gcands,
                        compact.short_ids@[#[trigger] missing@[j] as int],
                    ),
                missing@.len() == 0 ==> got@.len() == i && forall|j: int|
                    0 <= j < i ==> spec_short_transaction_id(
                        k0,
                        k1,
                        (#[trigger] got@[j]).hash,
                    ) == compact.short_ids@[j] && txs_contain(gcands, got@[j]) && got@[j]
                        == last_candidate_with_sid(k0, k1, gcands, compact.short_ids@[j]),
                (short_ids_covered(k0, k1, compact.short_ids@, gcands) && sids_distinct(
                    compact.short_ids@,
                )) ==> missing@.len() == 0,
            decreases compact.short_ids@.len() - i,
        {
            let s = compact.short_ids[i];
            let ghost mpre = m@;
            let mut k: usize = 0;
            let mut found = false;
            while k < m.len() && !found
                invariant
                    0 <= k <= m@.len(),
                    m@ == mpre,
                    !found ==> forall|e: int| 0 <= e < k ==> (#[trigger] m@[e]).sid != s,
                    found ==> k < m@.len() && m@[k as int].sid == s,
                decreases m@.len() - k, (if found { 0int } else { 1int }),
            {
                if m[k].sid == s {
                    found = true;
                } else {
                    k = k + 1;
                }
            }
            if found {
                let tx = m[k].tx;
                m.remove(k);
                got.push(tx);
                proof {
                    let kk = k as int;
                    assert(m@ =~= mpre.remove(kk));
                    assert forall|e: int| 0 <= e < m@.len() implies #[trigger] m@[e]
                        == mpre[if e < kk { e } else { e + 1 }] by {}
                    // keys other than the consumed one survive the removal
                    assert forall|s2: u64|
                        #[trigger] map_has_sid(m0, s2) && !sid_in_prefix(
                            compact.short_ids@,
                            i as int + 1,
                            s2,
                        ) implies map_has_sid(m@, s2) by {
                        assert(!sid_in_prefix(compact.short_ids@, i as int, s2));
                        assert(s2 != s) by {
                            assert(compact.short_ids@[i as int] == s);
                        }
                        assert(map_has_sid(mpre, s2));
                        let w = choose|w: int|
                            0 <= w < mpre.len() && (#[trigger] mpre[w]).sid == s2;
                        assert(w != kk);
                        let w2: int = if w < kk { w } else { w - 1 };
                        assert(m@[w2].sid == s2);
                    }
                    if missing@.len() == 0 {
                        assert(got@.last() == tx);
                        assert(spec_short_transaction_id(k0, k1, tx.hash) == s);
                    }
                    // the found entry witnesses a candidate for this short
                    // ID, so the uncovered-position clause stays vacuous
                    assert(cand_has_sid(k0, k1, gcands, s)) by {
                        let c = choose|c: int|
                            0 <= c < gcands.len() && (#[trigger] gcands[c]) == mpre[kk].tx;
                        assert(spec_short_transaction_id(k0, k1, gcands[c].hash) == s);
                    }
                    assert(compact.short_ids@[i as int] == s);
                }
            } else {
                proof {
                    // under coverage and distinctness this branch cannot
                    // run: the key would still be in the map
                    if short_ids_covered(k0, k1, compact.short_ids@, gcands) && sids_distinct(
                        compact.short_ids@,
                    ) {
                        assert(cand_has_sid(k0, k1, gcands, s)) by {
                            assert(compact.short_ids@[i as int] == s);
                        }
                        let cc = choose|cc: int|
                            0 <= cc < gcands.len() && spec_short_transaction_id(
                                k0,
                                k1,
                                (#[trigger] gcands[cc]).hash,
                            ) == s;
                        assert(map_has_sid(m0, s));
                        assert(!sid_in_prefix(compact.short_ids@, i as int, s)) by {
                            if sid_in_prefix(compact.short_ids@, i as int, s) {
                                let j = choose|j: int|
                                    0 <= j < i as int && compact.short_ids@[j] == s;
                                assert(compact.short_ids@[i as int] == s);
                            }
                        }
                        assert(map_has_sid(m@, s));
                        let w = choose|w: int|
                            0 <= w < m@.len() && (#[trigger] m@[w]).sid == s;
                        assert(false);
                    }
                }
                let ghost mispre = missing@;
                missing.push(i);
                proof {
                    assert(missing@.last() == i);
                    assert forall|x: usize| mispre.contains(x) implies missing@.contains(x) by {
                        let w = choose|w: int| 0 <= w < mispre.len() && mispre[w] == x;
                        assert(missing@[w] == x);
                    }
                    assert forall|a: int, b: int| 0 <= a < b < missing@.len()
                        implies missing@[a] < missing@[b] by {
                        if b == mispre.len() as int {
                            assert(missing@[a] == mispre[a]);
                            assert(mispre[a] < i);
                        }
                    }
                }
            }
            i = i + 1;
        }
        if missing.len() == 0 {
            let block = Block { header: compact.header, transactions: got };
            (Some(block), None)
        } else {
            (None, Some(missing))
        }
    }

    /// Store a compact block under its header hash, waiting for the
    /// transactions requested from its announcer. An entry already keyed
    /// by that hash is replaced.
    fn store_pending(&mut self, compact: CompactBlock)
        requires
            old(self).wf(),
        ensures
            final(self).wf(),
            final(self).tx_pool == old(self).tx_pool,
            final(self).received_blocks@ == old(self).received_blocks@,
            final(self).received_transactions@ == old(self).received_transactions@,
            final(self).has_pending(compact.header.hash),
            exists|k: int|
                0 <= k < final(self).pending_compact_blocks@.len()
                    && (#[trigger] final(self).pending_compact_blocks@[k]).hash
                        == compact.header.hash
                    && final(self).pending_compact_blocks@[k].compact == compact,
    {
        let ghost g = compact;
        let h = compact.header.hash;
        proof {
            assert(h == g.header.hash);
        }
        let mut k: usize = 0;
        while k < self.pending_compact_blocks.len()
            invariant
                old(self).wf(),
                self.tx_pool == old(self).tx_pool,
                self.received_blocks@ == old(self).received_blocks@,
                self.received_transactions@ == old(self).received_transactions@,
                self.pending_compact_blocks@.len() == old(self).pending_compact_blocks@.len(),
                forall|e: int|
                    0 <= e < self.pending_compact_blocks@.len()
                        ==> (#[trigger] self.pending_compact_blocks@[e]).hash
                            == old(self).pending_compact_blocks@[e].hash,
                h == g.header.hash,
                g == compact,
                0 <= k <= self.pending_compact_blocks@.len(),
                forall|e: int|
                    0 <= e < k ==> (#[trigger] self.pending_compact_blocks@[e]).hash != h,
            decreases self.pending_compact_blocks@.len() - k,
        {
            if self.pending_compact_blocks[k].hash == h {
                let row = &mut self.pending_compact_blocks[k];
                row.compact = compact;
                proof {
                    assert(self.pending_compact_blocks@[k as int].hash == h);
                    assert forall|e: int| 0 <= e < self.pending_compact_blocks@.len()
                        implies (#[trigger] self.pending_compact_blocks@[e]).hash
                            == old(self).pending_compact_blocks@[e].hash by {}
                    assert(self.has_pending(h));
                    assert(self.has_pending(g.header.hash));
                    assert(self.pending_compact_blocks@[k as int].compact == g);
                }
                return ;
            }
            k = k + 1;
        }
        self.pending_compact_blocks.push(PendingEntry { hash: h, compact });
        proof {
            let n = old(self).pending_compact_blocks@.len() as int;
            assert(self.pending_compact_blocks@[n].hash == h);
            assert(self.pending_compact_blocks@[n].compact == g);
            assert forall|e: int| 0 <= e < n
                implies (#[trigger] self.pending_compact_blocks@[e]).hash
                    == old(self).pending_compact_blocks@[e].hash by {}
        }
    }

    /// Remove and return the pending compact block keyed `h`, if any.
    fn take_pending(&mut self, h: &Hash256) -> (r: Option<CompactBlock>)
        requires
            old(self).wf(),
        ensures
            final(self).wf(),
            final(self).tx_pool == old(self).tx_pool,
            final(self).received_blocks@ == old(self).received_blocks@,
            final(self).received_transactions@ == old(self).received_transactions@,
            !final(self).has_pending(*h),
            r is Some <==> old(self).has_pending(*h),
            r is Some ==> exists|k: int|
                0 <= k < old(self).pending_compact_blocks@.len()
                    && (#[trigger] old(self).pending_compact_blocks@[k]).hash == *h
                    && old(self).pending_compact_blocks@[k].compact == r->0,
            r is None ==> final(self).pending_compact_blocks@
                == old(self).pending_compact_blocks@,
    {
        let mut k: usize = 0;
        while k < self.pending_compact_blocks.len()
            invariant
                old(self).wf(),
                self == old(self),
                0 <= k <= self.pending_compact_blocks@.len(),
                forall|e: int|
                    0 <= e < k ==> (#[trigger] self.pending_compact_blocks@[e]).hash != *h,
            decreases self.pending_compact_blocks@.len() - k,
        {
            if self.pending_compact_blocks[k].hash == *h {
                let entry = self.pending_compact_blocks.remove(k);
                proof {
                    let kk = k as int;
                    let oldseq = old(self).pending_compact_blocks@;
                    let newseq = self.pending_compact_blocks@;
                    assert(newseq =~= oldseq.remove(kk));
                    assert forall|e: int| 0 <= e < newseq.len() implies #[trigger] newseq[e]
                        == oldseq[if e < kk { e } else { e + 1 }] by {}
                    assert(!final(self).has_pending(*h)) by {
                        if map_pending_has(newseq, *h) {
                            let w = choose|w: int|
                                0 <= w < newseq.len() && (#[trigger] newseq[w]).hash == *h;
                            let ow: int = if w < kk { w } else { w + 1 };
                            assert(oldseq[ow].hash == *h);
                            assert(oldseq[kk].hash == *h);
                        }
                        assert(final(self).has_pending(*h) == map_pending_has(newseq, *h));
                    }
                    assert(oldseq[kk].hash == *h);
                }
                return Some(entry.compact);
            }
            k = k + 1;
        }
        None
    }

    /// Process a compact block received from `source`. The first delivery
    /// of its header hash triggers reconstruction: a complete block goes
    /// to the chain engine and is relayed to everyone but the source;
    /// missing short IDs store the compact block as pending and request
    /// the transactions from the source. A repeated hash does nothing.
    #[verifier::rlimit(100)]
    #[verifier::spinoff_prover]
    pub fn handle_compact_block(
        &mut self,
        sync: &mut Synchronizer,
        source: PeerId,
        compact: CompactBlock,
    ) -> (r: CompactOutcome)
        requires
            old(self).wf(),
            old(sync).wf(),
            compact.short_ids@.len() <= u32::MAX,
        ensures
            final(self).wf(),
            final(sync).wf(),
            final(self).received_transactions@ == old(self).received_transactions@,
            final(self).tx_pool == old(self).tx_pool,
            final(sync).chain.headers@ == old(sync).chain.headers@,
            r is Duplicate <==> hashes_contain(old(self).received_blocks@, compact.header.hash),
            r is Duplicate ==> final(self).received_blocks@ == old(self).received_blocks@
                && *final(sync) == *old(sync) && final(self).pending_compact_blocks@
                == old(self).pending_compact_blocks@,
            !(r is Duplicate) ==> final(self).received_blocks@
                == old(self).received_blocks@.push(compact.header.hash),
            // a complete reconstruction hands the chain one block carrying
            // this compact block's header: the chain grows exactly when
            // that body is the one it accepts next
            r is Completed ==> final(self).pending_compact_blocks@
                == old(self).pending_compact_blocks@,
            r is Completed && old(sync).chain.accepts(compact.header)
                ==> final(sync).chain.blocks@.len() == old(sync).chain.blocks@.len() + 1
                    && final(sync).chain.blocks@.last().header == compact.header,
            r is Completed && !old(sync).chain.accepts(compact.header)
                ==> final(sync).chain.blocks@ == old(sync).chain.blocks@,
            r matches CompactOutcome::Completed { targets } ==> ((forall|i: int|
                0 <= i < targets@.len() ==> #[trigger] targets@[i] != source
                    && final(sync).peers.has_peer(targets@[i])) && (forall|j: int|
                0 <= j < final(sync).peers.peers@.len()
                    && (#[trigger] final(sync).peers.peers@[j]).id != source
                    ==> targets@.contains(final(sync).peers.peers@[j].id)) && (forall|
                i1: int,
                i2: int,
            |
                0 <= i1 < targets@.len() && 0 <= i2 < targets@.len() && i1 != i2
                    ==> targets@[i1] != targets@[i2])),
            r matches CompactOutcome::MissingRequested { request } ==> request.hash
                == compact.header.hash && request.indexes@.len() > 0 && final(self).has_pending(
                compact.header.hash,
            ) && *final(sync) == *old(sync),
            r is MissingRequested ==> exists|k: int|
                0 <= k < final(self).pending_compact_blocks@.len()
                    && (#[trigger] final(self).pending_compact_blocks@[k]).hash
                        == compact.header.hash
                    && final(self).pending_compact_blocks@[k].compact == compact,
            r matches CompactOutcome::MissingRequested { request } ==> forall|j: int|
                0 <= j < request.indexes@.len() ==> #[trigger] request.indexes@[j]
                    < compact.short_ids@.len(),
            r matches CompactOutcome::MissingRequested { request } ==> forall|a: int, b: int|
                0 <= a < b < request.indexes@.len() ==> request.indexes@[a]
                    < request.indexes@[b],
            r matches CompactOutcome::MissingRequested { request } ==> forall|i: int|
                0 <= i < compact.short_ids@.len() && !cand_has_sid(
                    spec_short_transaction_id_keys(compact.nonce, compact.header).0,
                    spec_short_transaction_id_keys(compact.nonce, compact.header).1,
                    spec_candidates(
                        compact,
                        Seq::<Transaction>::empty(),
                        old(self).tx_pool.pool@,
                        old(self).tx_pool.orphan@,
                    ),
                    #[trigger] compact.short_ids@[i],
                ) ==> exists|j: int|
                    0 <= j < request.indexes@.len() && #[trigger] request.indexes@[j]
                        == i as u32,
            short_ids_covered(
                spec_short_transaction_id_keys(compact.nonce, compact.header).0,
                spec_short_transaction_id_keys(compact.nonce, compact.header).1,
                compact.short_ids@,
                spec_candidates(
                    compact,
                    Seq::<Transaction>::empty(),
                    old(self).tx_pool.pool@,
                    old(self).tx_pool.orphan@,
                ),
            ) && sids_distinct(compact.short_ids@) && !hashes_contain(
                old(self).received_blocks@,
                compact.header.hash,
            ) ==> r is Completed,
            (exists|i: int|
                0 <= i < compact.short_ids@.len() && !cand_has_sid(
                    spec_short_transaction_id_keys(compact.nonce, compact.header).0,
                    spec_short_transaction_id_keys(compact.nonce, compact.header).1,
                    spec_candidates(
                        compact,
                        Seq::<Transaction>::empty(),
                        old(self).tx_pool.pool@,
                        old(self).tx_pool.orphan@,
                    ),
                    #[trigger] compact.short_ids@[i],
                )) && !hashes_contain(old(self).received_blocks@, compact.header.hash)
                ==> r is MissingRequested,
    {
        if !insert_hash(&mut self.received_blocks, compact.header.hash) {
            return CompactOutcome::Duplicate;
        }
        let none_delivered: Vec<Transaction> = Vec::new();
        proof {
            assert(none_delivered@ =~= Seq::<Transaction>::empty());
        }
        let outcome = self.reconstruct_block(&compact, &none_delivered);
        match outcome {
            (Some(block), _) => {
                match sync.peers.find_peer(source) {
                    Some(idx) => {
                        let _ = sync.process_new_block(idx, block);
                    },
                    None => {
                        let _ = sync.chain.process_block(block);
                    },
                }
                let targets = self.relay(sync, source);
                CompactOutcome::Completed { targets }
            },
            (None, Some(missing)) => {
                let mut indexes: Vec<u32> = Vec::new();
                let mut j: usize = 0;
                while j < missing.len()
                    invariant
                        0 <= j <= missing@.len(),
                        indexes@.len() == j,
                        forall|e: int| 0 <= e < missing@.len()
                            ==> #[trigger] missing@[e] < compact.short_ids@.len(),
                        compact.short_ids@.len() <= u32::MAX,
                        forall|e: int| 0 <= e < j
                            ==> #[trigger] indexes@[e] == missing@[e] as u32,
                    decreases missing@.len() - j,
                {
                    indexes.push(missing[j] as u32);
                    j = j + 1;
                }
                proof {
                    assert forall|a: int, b: int| 0 <= a < b < indexes@.len()
                        implies indexes@[a] < indexes@[b] by {
                        assert(missing@[a] < missing@[b]);
                    }
                    assert forall|ii: int|
                        0 <= ii < compact.short_ids@.len() && #[trigger] missing@.contains(
                            ii as usize,
                        ) implies exists|jj: int|
                            0 <= jj < indexes@.len() && #[trigger] indexes@[jj] == ii as u32 by {
                        let w = choose|w: int|
                            0 <= w < missing@.len() && missing@[w] == ii as usize;
                        assert(indexes@[w] == ii as u32);
                    }
                }
                let request = BlockTransactionsRequest { hash: compact.header.hash, indexes };
                self.store_pending(compact);
                CompactOutcome::MissingRequested { request }
            },
            (None, None) => {
                // reconstruct_block never reaches this arm: one side of
                // the pair is always present
                CompactOutcome::Duplicate
            },
        }
    }

    /// Answer a request for a block's transactions: if the node has the
    /// block, the transactions at the requested in-range indices, in
    /// request order; if not, no response at all.
    pub fn handle_block_transactions_request(
        &self,
        sync: &Synchronizer,
        message: &BlockTransactionsRequest,
    ) -> (r: Option<BlockTransactionsMessage>)
        requires
            self.wf(),
            sync.wf(),
        ensures
            r is Some <==> exists|i: int|
                0 <= i < sync.chain.blocks@.len()
                    && (#[trigger] sync.chain.blocks@[i]).header.hash
                        == message.hash,
            r is Some ==> (r->0).hash == message.hash,
            // the reply is exactly the stored block's transactions at the
            // in-range requested indices, in request order
            r is Some ==> exists|hgt: int|
                0 <= hgt < sync.chain.blocks@.len()
                    && (#[trigger] sync.chain.blocks@[hgt]).header.hash == message.hash
                    && (r->0).transactions@ == btr_reply(
                    sync.chain.blocks@[hgt].transactions@,
                    message.indexes@,
                ),
    {
        let height = match sync.chain.find_block(&message.hash) {
            Some(height) => height,
            None => {
                return None;
            },
        };
        let block = sync.chain.block_at(height);
        let mut txs: Vec<Transaction> = Vec::new();
        let mut j: usize = 0;
        proof {
            assert(message.indexes@.subrange(0, 0) =~= Seq::<u32>::empty());
        }
        while j < message.indexes.len()
            invariant
                0 <= j <= message.indexes@.len(),
                height < sync.chain.blocks@.len(),
                block == sync.chain.blocks@[height as int],
                txs@ == btr_reply(block.transactions@, message.indexes@.subrange(0, j as int)),
            decreases message.indexes@.len() - j,
        {
            let idx = message.indexes[j];
            proof {
                let pre = message.indexes@.subrange(0, j as int);
                let cur = message.indexes@.subrange(0, j as int + 1);
                assert(cur.drop_last() =~= pre);
                assert(cur.last() == message.indexes@[j as int]);
            }
            if (idx as usize) < block.transactions.len() {
                txs.push(block.transactions[idx as usize]);
            }
            j = j + 1;
        }
        proof {
            assert(message.indexes@.subrange(0, message.indexes@.len() as int)
                =~= message.indexes@);
        }
        Some(BlockTransactionsMessage { hash: message.hash, transactions: txs })
    }

    /// Process delivered block transactions: take the pending compact
    /// block keyed by the message's hash (there is none afterwards either
    /// way), re-run reconstruction with the delivered transactions, and
    /// hand a completed block to the chain engine. Without a pending
    /// entry, or with short IDs still missing, nothing further happens.
    pub fn handle_block_transactions(
        &mut self,
        sync: &mut Synchronizer,
        source: PeerId,
        message: &BlockTransactionsMessage,
    ) -> (r: BlockTransactionsOutcome)
        requires
            old(self).wf(),
            old(sync).wf(),
        ensures
            final(self).wf(),
            final(sync).wf(),
            final(self).received_blocks@ == old(self).received_blocks@,
            final(self).received_transactions@ == old(self).received_transactions@,
            final(self).tx_pool == old(self).tx_pool,
            final(sync).chain.headers@ == old(sync).chain.headers@,
            !final(self).has_pending(message.hash),
            r is NoPending <==> !old(self).has_pending(message.hash),
            r is NoPending ==> final(self).pending_compact_blocks@
                == old(self).pending_compact_blocks@ && *final(sync) == *old(sync),
            r is StillIncomplete ==> *final(sync) == *old(sync),
            // completion is owed when the delivered transactions and the
            // pools cover the pending block's pairwise-distinct short IDs
            forall|k: int|
                0 <= k < old(self).pending_compact_blocks@.len()
                    && (#[trigger] old(self).pending_compact_blocks@[k]).hash == message.hash
                    && short_ids_covered(
                    spec_short_transaction_id_keys(
                        old(self).pending_compact_blocks@[k].compact.nonce,
                        old(self).pending_compact_blocks@[k].compact.header,
                    ).0,
                    spec_short_transaction_id_keys(
                        old(self).pending_compact_blocks@[k].compact.nonce,
                        old(self).pending_compact_blocks@[k].compact.header,
                    ).1,
                    old(self).pending_compact_blocks@[k].compact.short_ids@,
                    spec_candidates(
                        old(self).pending_compact_blocks@[k].compact,
                        message.transactions@,
                        old(self).tx_pool.pool@,
                        old(self).tx_pool.orphan@,
                    ),
                ) && sids_distinct(old(self).pending_compact_blocks@[k].compact.short_ids@)
                    ==> r is Completed,
            // a completed block carries the pending compact block's header
            // and extends the chain exactly when it is the accepted next
            // body
            r is Completed ==> exists|k: int|
                0 <= k < old(self).pending_compact_blocks@.len()
                    && (#[trigger] old(self).pending_compact_blocks@[k]).hash == message.hash
                    && (old(sync).chain.accepts(
                    old(self).pending_compact_blocks@[k].compact.header,
                ) ==> final(sync).chain.blocks@.len() == old(sync).chain.blocks@.len() + 1
                    && final(sync).chain.blocks@.last().header
                        == old(self).pending_compact_blocks@[k].compact.header) && (!old(
                    sync,
                ).chain.accepts(old(self).pending_compact_blocks@[k].compact.header)
                    ==> final(sync).chain.blocks@ == old(sync).chain.blocks@),
    {
        let compact = match self.take_pending(&message.hash) {
            Some(compact) => compact,
            None => {
                return BlockTransactionsOutcome::NoPending;
            },
        };
        let ghost gcompact = compact;
        proof {
            // the pending map is keyed uniquely, so the taken entry is the
            // one every hash-matching index denotes
            let k0 = choose|k0: int|
                0 <= k0 < old(self).pending_compact_blocks@.len()
                    && (#[trigger] old(self).pending_compact_blocks@[k0]).hash == message.hash
                    && old(self).pending_compact_blocks@[k0].compact == gcompact;
            assert forall|k: int|
                0 <= k < old(self).pending_compact_blocks@.len()
                    && (#[trigger] old(self).pending_compact_blocks@[k]).hash == message.hash
                implies old(self).pending_compact_blocks@[k].compact == gcompact by {
                assert(k == k0);
            }
        }
        let outcome = self.reconstruct_block(&compact, &message.transactions);
        match outcome {
            (Some(block), _) => {
                match sync.peers.find_peer(source) {
                    Some(idx) => {
                        let _ = sync.process_new_block(idx, block);
                    },
                    None => {
                        let _ = sync.chain.process_block(block);
                    },
                }
                BlockTransactionsOutcome::Completed
            },
            _ => BlockTransactionsOutcome::StillIncomplete,
        }
    }
}

/// Outcome of processing a compact block.
pub enum CompactOutcome {
    /// The header hash was received before: nothing was done.
    Duplicate,
    /// Reconstruction was complete; the block went to the chain engine
    /// and the compact block is forwarded to `targets`.
    Completed { targets: Vec<PeerId> },
    /// Short IDs were missing; the compact block is pending and `request`
    /// asks the source for the missing transactions.
    MissingRequested { request: BlockTransactionsRequest },
}

/// Outcome of processing delivered block transactions.
#[derive(PartialEq, Eq, Structural, Clone, Copy, Debug)]
pub enum BlockTransactionsOutcome {
    /// No compact block was pending under the delivered hash.
    NoPending,
    /// Reconstruction completed and the block went to the chain engine.
    Completed,
    /// Short IDs were still unresolved; the pending entry is dropped.
    StillIncomplete,
}

/// Whether a pending sequence holds an entry keyed `h`.
spec fn map_pending_has(s: Seq<PendingEntry>, h: Hash256) -> bool {
    exists|k: int| 0 <= k < s.len() && (#[trigger] s[k]).hash == h
}

/// The reply a `BlockTransactionsRequest` earns from a stored block: the
/// transactions at the in-range requested indices, in request order,
/// out-of-range indices silently omitted.
pub open spec fn btr_reply(txs: Seq<Transaction>, indexes: Seq<u32>) -> Seq<Transaction>
    decreases indexes.len(),
{
    if indexes.len() == 0 {
        Seq::empty()
    } else {
        let pre = btr_reply(txs, indexes.drop_last());
        if indexes.last() < txs.len() {
            pre.push(txs[indexes.last() as int])
        } else {
            pre
        }
    }
}

/// What the relay handler does with a processed payload.
pub enum RelayResponse {
    /// Nothing leaves the node: a duplicate, an unknown hash, or a
    /// payload this handler does not route.
    Nothing,
    /// The incoming payload is forwarded as-is to `targets`.
    Forward { targets: Vec<PeerId> },
    /// A reply goes back to the sender of the frame being handled.
    Respond { payload: Payload },
}

impl RelayProtocol {
    /// Route one decoded payload from `source` through the relay engine:
    /// transactions and blocks are deduplicated, handed down once and
    /// forwarded once; compact blocks are reconstructed or turned into a
    /// transaction request; block-transaction requests are answered
    /// exactly when the block is stored, silently otherwise; delivered
    /// block transactions complete a pending compact block. Sync payloads
    /// are not routed here and nothing happens.
    pub fn process(&mut self, sync: &mut Synchronizer, source: PeerId, payload: Payload) -> (r:
        RelayResponse)
        requires
            old(self).wf(),
            old(sync).wf(),
            payload matches Payload::CompactBlock(c) ==> c.short_ids@.len() <= u32::MAX,
        ensures
            final(self).wf(),
            final(sync).wf(),
            final(sync).chain.headers@ == old(sync).chain.headers@,
            // a repeated hash, an unknown request, or a foreign payload
            // changes nothing and emits nothing
            r is Nothing && !(payload is BlockTransactions) ==> final(self).received_blocks@
                == old(self).received_blocks@ && final(self).received_transactions@
                == old(self).received_transactions@ && final(self).tx_pool
                == old(self).tx_pool && final(self).pending_compact_blocks@
                == old(self).pending_compact_blocks@ && *final(sync) == *old(sync),
            // every forward reaches exactly the registered non-source peers
            r matches RelayResponse::Forward { targets } ==> ((forall|i: int|
                0 <= i < targets@.len() ==> #[trigger] targets@[i] != source
                    && final(sync).peers.has_peer(targets@[i])) && (forall|j: int|
                0 <= j < final(sync).peers.peers@.len()
                    && (#[trigger] final(sync).peers.peers@[j]).id != source
                    ==> targets@.contains(final(sync).peers.peers@[j].id)) && (forall|
                i1: int,
                i2: int,
            |
                0 <= i1 < targets@.len() && 0 <= i2 < targets@.len() && i1 != i2
                    ==> targets@[i1] != targets@[i2])),
            payload matches Payload::Transaction(tx) ==> ((r is Forward) <==> !hashes_contain(
                old(self).received_transactions@,
                tx.hash,
            )),
            payload matches Payload::Transaction(tx) ==> ((r is Forward)
                ==> final(self).received_transactions@
                    == old(self).received_transactions@.push(tx.hash)
                    && final(self).tx_pool.pool@ == (if txs_contain(
                    old(self).tx_pool.pool@,
                    tx,
                ) {
                    old(self).tx_pool.pool@
                } else {
                    old(self).tx_pool.pool@.push(tx)
                }) && *final(sync) == *old(sync)),
            payload is Transaction ==> (r is Forward || r is Nothing),
            payload matches Payload::Block(b) ==> ((r is Forward) <==> !hashes_contain(
                old(self).received_blocks@,
                b.header.hash,
            )),
            payload matches Payload::Block(b) ==> ((r is Forward)
                ==> final(self).received_blocks@
                    == old(self).received_blocks@.push(b.header.hash) && (old(
                    sync,
                ).chain.accepts(b.header) ==> final(sync).chain.blocks@
                    == old(sync).chain.blocks@.push(b)) && (!old(sync).chain.accepts(b.header)
                    ==> final(sync).chain.blocks@ == old(sync).chain.blocks@)),
            payload is Block ==> (r is Forward || r is Nothing),
            payload matches Payload::CompactBlock(c) ==> ((r is Forward || r is Respond)
                <==> !hashes_contain(old(self).received_blocks@, c.header.hash)),
            payload matches Payload::CompactBlock(c) ==> (short_ids_covered(
                spec_short_transaction_id_keys(c.nonce, c.header).0,
                spec_short_transaction_id_keys(c.nonce, c.header).1,
                c.short_ids@,
                spec_candidates(
                    c,
                    Seq::<Transaction>::empty(),
                    old(self).tx_pool.pool@,
                    old(self).tx_pool.orphan@,
                ),
            ) && sids_distinct(c.short_ids@) && !hashes_contain(
                old(self).received_blocks@,
                c.header.hash,
            ) ==> r is Forward),
            payload matches Payload::CompactBlock(c) ==> ((r is Forward) ==> (old(
                sync,
            ).chain.accepts(c.header) ==> final(sync).chain.blocks@.len()
                == old(sync).chain.blocks@.len() + 1 && final(sync).chain.blocks@.last().header
                == c.header) && (!old(sync).chain.accepts(c.header)
                ==> final(sync).chain.blocks@ == old(sync).chain.blocks@)),
            payload matches Payload::CompactBlock(c) ==> (r matches RelayResponse::Respond {
                payload: reply,
            } ==> reply matches Payload::BlockTransactionsRequest(btr) && btr.hash
                == c.header.hash && btr.indexes@.len() > 0 && final(self).has_pending(
                c.header.hash,
            ) && *final(sync) == *old(sync) && (exists|k: int|
                0 <= k < final(self).pending_compact_blocks@.len()
                    && (#[trigger] final(self).pending_compact_blocks@[k]).hash
                        == c.header.hash && final(self).pending_compact_blocks@[k].compact
                    == c) && (forall|j: int|
                0 <= j < btr.indexes@.len() ==> #[trigger] btr.indexes@[j]
                    < c.short_ids@.len()) && (forall|a: int, b: int|
                0 <= a < b < btr.indexes@.len() ==> btr.indexes@[a] < btr.indexes@[b]) && (
            forall|i: int|
                0 <= i < c.short_ids@.len() && !cand_has_sid(
                    spec_short_transaction_id_keys(c.nonce, c.header).0,
                    spec_short_transaction_id_keys(c.nonce, c.header).1,
                    spec_candidates(
                        c,
                        Seq::<Transaction>::empty(),
                        old(self).tx_pool.pool@,
                        old(self).tx_pool.orphan@,
                    ),
                    #[trigger] c.short_ids@[i],
                ) ==> exists|j: int|
                    0 <= j < btr.indexes@.len() && #[trigger] btr.indexes@[j] == i as u32)),
            payload matches Payload::BlockTransactionsRequest(m) ==> ((r is Respond)
                <==> exists|i: int|
                0 <= i < old(sync).chain.blocks@.len()
                    && (#[trigger] old(sync).chain.blocks@[i]).header.hash == m.hash),
            payload matches Payload::BlockTransactionsRequest(m) ==> (r matches
                RelayResponse::Respond { payload: reply } ==> reply matches
                Payload::BlockTransactions(bt) && bt.hash == m.hash && exists|hgt: int|
                0 <= hgt < old(sync).chain.blocks@.len()
                    && (#[trigger] old(sync).chain.blocks@[hgt]).header.hash == m.hash
                    && bt.transactions@ == btr_reply(
                    old(sync).chain.blocks@[hgt].transactions@,
                    m.indexes@,
                )),
            payload is BlockTransactionsRequest ==> *final(self) == *old(self) && *final(sync)
                == *old(sync) && !(r is Forward),
            payload matches Payload::BlockTransactions(m)
                ==> !final(self).has_pending(m.hash) && r is Nothing
                    && final(self).received_blocks@ == old(self).received_blocks@
                    && final(self).received_transactions@ == old(self).received_transactions@
                    && final(self).tx_pool == old(self).tx_pool,
            // with no pending entry a BlockTransactions message changes
            // nothing at all
            payload matches Payload::BlockTransactions(m) ==> (!old(self).has_pending(m.hash)
                ==> final(self).pending_compact_blocks@ == old(self).pending_compact_blocks@
                    && *final(sync) == *old(sync)),
            // completion is owed when the delivered transactions and the
            // pools cover the pending block's pairwise-distinct short IDs,
            // and the chain grows exactly when it accepts that block
            payload matches Payload::BlockTransactions(m) ==> forall|k: int|
                0 <= k < old(self).pending_compact_blocks@.len()
                    && (#[trigger] old(self).pending_compact_blocks@[k]).hash == m.hash
                    && short_ids_covered(
                    spec_short_transaction_id_keys(
                        old(self).pending_compact_blocks@[k].compact.nonce,
                        old(self).pending_compact_blocks@[k].compact.header,
                    ).0,
                    spec_short_transaction_id_keys(
                        old(self).pending_compact_blocks@[k].compact.nonce,
                        old(self).pending_compact_blocks@[k].compact.header,
                    ).1,
                    old(self).pending_compact_blocks@[k].compact.short_ids@,
                    spec_candidates(
                        old(self).pending_compact_blocks@[k].compact,
                        m.transactions@,
                        old(self).tx_pool.pool@,
                        old(self).tx_pool.orphan@,
                    ),
                ) && sids_distinct(old(self).pending_compact_blocks@[k].compact.short_ids@)
                    ==> ((old(sync).chain.accepts(
                    old(self).pending_compact_blocks@[k].compact.header,
                ) ==> final(sync).chain.blocks@.len() == old(sync).chain.blocks@.len() + 1
                    && final(sync).chain.blocks@.last().header
                        == old(self).pending_compact_blocks@[k].compact.header) && (!old(
                    sync,
                ).chain.accepts(old(self).pending_compact_blocks@[k].compact.header)
                    ==> final(sync).chain.blocks@ == old(sync).chain.blocks@)),
            (payload is GetHeaders || payload is Headers || payload is GetData)
                ==> r is Nothing && *final(self) == *old(self) && *final(sync) == *old(sync),
    {
        match payload {
            Payload::Transaction(tx) => {
                match self.handle_transaction(sync, source, tx) {
                    Some(targets) => RelayResponse::Forward { targets },
                    None => RelayResponse::Nothing,
                }
            },
            Payload::Block(b) => {
                match self.handle_block(sync, source, b) {
                    Some((_acceptance, targets)) => RelayResponse::Forward { targets },
                    None => RelayResponse::Nothing,
                }
            },
            Payload::CompactBlock(c) => {
                match self.handle_compact_block(sync, source, c) {
                    CompactOutcome::Duplicate => RelayResponse::Nothing,
                    CompactOutcome::Completed { targets } => RelayResponse::Forward { targets },
                    CompactOutcome::MissingRequested { request } => RelayResponse::Respond {
                        payload: Payload::BlockTransactionsRequest(request),
                    },
                }
            },
            Payload::BlockTransactionsRequest(m) => {
                match self.handle_block_transactions_request(sync, &m) {
                    Some(reply) => RelayResponse::Respond {
                        payload: Payload::BlockTransactions(reply),
                    },
                    None => RelayResponse::Nothing,
                }
            },
            Payload::BlockTransactions(m) => {
                let _ = self.handle_block_transactions(sync, source, &m);
                RelayResponse::Nothing
            },
            _ => RelayResponse::Nothing,
        }
    }

    /// A decoded frame arrives from `source`. Byte-level decoding is the
    /// codec's job; frames that fail to decode never reach this point and
    /// change nothing.
    pub fn read(&mut self, sync: &mut Synchronizer, source: PeerId, payload: Payload) -> (r:
        RelayResponse)
        requires
            old(self).wf(),
            old(sync).wf(),
            payload matches Payload::CompactBlock(c) ==> c.short_ids@.len() <= u32::MAX,
        ensures
            final(self).wf(),
            final(sync).wf(),
            final(sync).chain.headers@ == old(sync).chain.headers@,
            r is Nothing && !(payload is BlockTransactions) ==> final(self).received_blocks@
                == old(self).received_blocks@ && final(self).received_transactions@
                == old(self).received_transactions@ && final(self).tx_pool
                == old(self).tx_pool && final(self).pending_compact_blocks@
                == old(self).pending_compact_blocks@ && *final(sync) == *old(sync),
            r matches RelayResponse::Forward { targets } ==> ((forall|i: int|
                0 <= i < targets@.len() ==> #[trigger] targets@[i] != source
                    && final(sync).peers.has_peer(targets@[i])) && (forall|j: int|
                0 <= j < final(sync).peers.peers@.len()
                    && (#[trigger] final(sync).peers.peers@[j]).id != source
                    ==> targets@.contains(final(sync).peers.peers@[j].id))),
            payload matches Payload::Transaction(tx) ==> ((r is Forward) <==> !hashes_contain(
                old(self).received_transactions@,
                tx.hash,
            )),
            payload matches Payload::Block(b) ==> ((r is Forward) <==> !hashes_contain(
                old(self).received_blocks@,
                b.header.hash,
            )),
    {
        self.process(sync, source, payload)
    }

    /// A peer connected: the relay handler keeps no per-peer state of its
    /// own, so nothing happens.
    pub fn connected(&mut self, _peer: PeerId)
        requires
            old(self).wf(),
        ensures
            *final(self) == *old(self),
    {
    }

    /// A peer disconnected: the shared registry is maintained by the sync
    /// handler, so nothing happens here.
    pub fn disconnected(&mut self, _peer: PeerId)
        requires
            old(self).wf(),
        ensures
            *final(self) == *old(self),
    {
    }
}

/// Compact-block round trip: a successful reconstruction whose candidates
/// include the original block's transactions, under keys whose short IDs
/// do not collide among the candidates, recovers exactly the original
/// transactions in positional order. The short IDs are those of the
/// original transactions; the reconstructed sequence matches it
/// position by position.
pub proof fn lemma_reconstruction_roundtrip(
    k0: u64,
    k1: u64,
    cands: Seq<Transaction>,
    original: Seq<Transaction>,
    sids: Seq<u64>,
    result: Seq<Transaction>,
)
    requires
        sids.len() == original.len(),
        forall|i: int|
            0 <= i < original.len() ==> sids[i] == spec_short_transaction_id(
                k0,
                k1,
                (#[trigger] original[i]).hash,
            ),
        forall|i: int| 0 <= i < original.len() ==> txs_contain(cands, #[trigger] original[i]),
        result.len() == sids.len(),
        forall|i: int|
            0 <= i < result.len() ==> spec_short_transaction_id(
                k0,
                k1,
                (#[trigger] result[i]).hash,
            ) == sids[i],
        forall|i: int| 0 <= i < result.len() ==> txs_contain(cands, #[trigger] result[i]),
        forall|a: int, b: int|
            0 <= a < cands.len() && 0 <= b < cands.len() && spec_short_transaction_id(
                k0,
                k1,
                (#[trigger] cands[a]).hash,
            ) == spec_short_transaction_id(k0, k1, (#[trigger] cands[b]).hash) ==> cands[a]
                == cands[b],
    ensures
        result =~= original,
{
    assert forall|i: int| 0 <= i < result.len() implies #[trigger] result[i]
        == original[i] by {
        let a = choose|a: int| 0 <= a < cands.len() && (#[trigger] cands[a]) == result[i];
        let b = choose|b: int| 0 <= b < cands.len() && (#[trigger] cands[b]) == original[i];
        assert(spec_short_transaction_id(k0, k1, cands[a].hash) == spec_short_transaction_id(
            k0,
            k1,
            cands[b].hash,
        ));
    }
}

/// After a peer disconnects it is absent from the registry, so a target
/// list whose members are all registered peers cannot name it: no later
/// forwarding reaches the departed peer.
pub proof fn lemma_no_send_after_disconnect(
    peers: PeerRegistry,
    gone: PeerId,
    targets: Seq<PeerId>,
)
    requires
        !peers.has_peer(gone),
        forall|i: int| 0 <= i < targets.len() ==> peers.has_peer(#[trigger] targets[i]),
    ensures
        forall|i: int| 0 <= i < targets.len() ==> #[trigger] targets[i] != gone,
{
}

} // verus!
