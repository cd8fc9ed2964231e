//! The sync protocol handler: the substrate-facing lifecycle surface.
//! Substrate callbacks and timers only enqueue tasks onto the bounded
//! queue; workers drain the queue and run each task against the sync
//! engine, producing the outbound messages to emit.

use vstd::prelude::*;

use crate::chain::spec_locator;
use crate::queue::Task;
use crate::queue::TaskQueue;
use crate::sync::HeadersOutcome;
use crate::sync::Synchronizer;
use crate::types::Block;
use crate::types::GetDataMessage;
use crate::types::GetHeadersMessage;
use crate::types::Hash256;
use crate::types::HeadersMessage;
use crate::types::Inventory;
use crate::types::InventoryType;
use crate::types::Payload;
use crate::types::PeerId;
use crate::types::TimerToken;
use crate::types::Transaction;
use crate::types::BLOCK_FETCH_TOKEN;
use crate::types::SEND_GET_HEADERS_TOKEN;
use crate::types::TIMER_INTERVAL_MS;

verus! {

/// One outbound emission: a payload sent to a named peer.
pub struct OutboundMessage {
    pub peer: PeerId,
    pub payload: Payload,
}

/// A peer row the fetch scheduler owes nothing more: it advertised no
/// best header, or its in-flight set is at the per-peer cap, or every
/// header height of its fetch window is already in flight on some peer.
pub open spec fn fetch_row_settled(s: Synchronizer, a: int) -> bool {
    ||| s.peers.peers@[a].state.best_known_header is None
    ||| s.peers.peers@[a].state.in_flight_blocks@.len()
        == crate::types::MAX_BLOCKS_IN_FLIGHT_PER_PEER
    ||| forall|hh: int|
        s.chain.blocks@.len() <= hh <= crate::sync::spec_window_top(s, a)
            ==> s.peers.inflight_anywhere((#[trigger] s.chain.headers@[hh]).hash)
}

/// Whether a payload is one the sync handler routes; the rest belong to
/// the relay handler and are ignored here.
pub open spec fn is_sync_payload(p: Payload) -> bool {
    ||| p is GetHeaders
    ||| p is Headers
    ||| p is GetData
    ||| p is Block
}

/// The sync protocol handler: the shared sync state and the bounded task
/// queue its callbacks feed.
pub struct SyncProtocol {
    pub synchronizer: Synchronizer,
    pub queue: TaskQueue,
}

/// What running one task does: how the shared sync state moves and what
/// traffic leaves. `run_task` proves it for every task; `start` folds it
/// over the drained queue, so no dequeued task can be skipped.
pub open spec fn task_effect(
    pre: Synchronizer,
    task: Task,
    post: Synchronizer,
    out: Seq<OutboundMessage>,
) -> bool {
    match task {
        Task::SendGetHeadersToAll => {
            &&& out.len() == pre.peers.peers@.len()
            &&& forall|i: int|
                0 <= i < out.len() ==> (#[trigger] out[i]).peer == pre.peers.peers@[i].id
                    && out[i].payload is GetHeaders && (out[i].payload matches
                Payload::GetHeaders(g) ==> g.block_locator_hashes@ == spec_locator(
                    pre.chain.headers@,
                    pre.chain.headers@.len() - 1,
                    0,
                    1,
                ))
            &&& post.chain == pre.chain
            &&& forall|i: int|
                0 <= i < post.peers.peers@.len()
                    ==> (#[trigger] post.peers.peers@[i]).state.sync_active == true
        },
        Task::FetchBlock => {
            &&& forall|i: int| 0 <= i < out.len() ==> (#[trigger] out[i]).payload is GetData
            &&& post.chain == pre.chain
            &&& forall|a: int|
                0 <= a < post.peers.peers@.len() ==> #[trigger] fetch_row_settled(post, a)
        },
        Task::SendGetHeadersToPeer(p) => {
            &&& out.len() == 1
            &&& out[0].peer == p
            &&& out[0].payload is GetHeaders
            &&& (out[0].payload matches Payload::GetHeaders(g) ==> g.block_locator_hashes@
                == spec_locator(pre.chain.headers@, pre.chain.headers@.len() - 1, 0, 1))
            &&& post.chain == pre.chain
        },
        Task::HandleGetHeaders(p, m) => {
            &&& out.len() == 1
            &&& out[0].peer == p
            &&& out[0].payload is Headers
            &&& (out[0].payload matches Payload::Headers(reply)
                ==> crate::sync::getheaders_reply_exact(
                pre.chain.headers@,
                m.block_locator_hashes@,
                reply.headers@,
            ))
            &&& post == pre
        },
        Task::HandleHeaders(p, m) => {
            &&& out.len() <= 1
            &&& forall|i: int|
                0 <= i < out.len() ==> (#[trigger] out[i]).peer == p
                    && out[i].payload is GetHeaders
            &&& post.chain.blocks@ == pre.chain.blocks@
            &&& (!pre.peers.has_peer(p) ==> post == pre && out.len() == 0)
            &&& (pre.peers.has_peer(p) ==> (out.len() == 1 <==> (m.headers@.len()
                >= crate::types::MAX_HEADERS_PER_MSG && crate::sync::headers_batch_valid(
                pre.chain.headers@,
                m.headers@,
            ))))
            &&& (pre.peers.has_peer(p) && m.headers@.len() > 0
                && !crate::sync::headers_batch_valid(pre.chain.headers@, m.headers@)
                ==> post.chain.headers@ == pre.chain.headers@)
            &&& (pre.peers.has_peer(p) && crate::sync::headers_batch_valid(
                pre.chain.headers@,
                m.headers@,
            ) && crate::sync::batch_extends(pre.chain.headers@, m.headers@)
                ==> post.chain.headers@ == pre.chain.headers@ + m.headers@)
        },
        Task::HandleGetData(p, m) => {
            &&& forall|i: int|
                0 <= i < out.len() ==> (#[trigger] out[i]).peer == p
                    && out[i].payload is Block
            &&& post == pre
        },
        Task::HandleBlock(p, b) => {
            &&& out.len() == 0
            &&& post.chain.headers@ == pre.chain.headers@
            &&& (pre.chain.accepts(b.header) ==> post.chain.blocks@
                == pre.chain.blocks@.push(b))
            &&& (!pre.chain.accepts(b.header) ==> post.chain.blocks@ == pre.chain.blocks@)
        },
    }
}

/// A full drain: the sync state stepped through exactly the queued tasks
/// in arrival order, each moving it by its `task_effect`, and the output
/// is the concatenation of the tasks' traffic. A run that skipped,
/// repeated or reordered a task cannot satisfy this.
pub open spec fn drained(
    pre: Synchronizer,
    tasks: Seq<Task>,
    post: Synchronizer,
    out: Seq<OutboundMessage>,
) -> bool {
    exists|mids: Seq<Synchronizer>, outs: Seq<Seq<OutboundMessage>>|
        #![trigger mids.len(), outs.len()]
        {
            &&& mids.len() == tasks.len() + 1
            &&& outs.len() == tasks.len()
            &&& mids[0] == pre
            &&& mids[mids.len() - 1] == post
            &&& (forall|i: int|
                0 <= i < tasks.len() ==> #[trigger] task_effect(
                    mids[i],
                    tasks[i],
                    mids[i + 1],
                    outs[i],
                ))
            &&& out == outs.flatten()
        }
}

/// An exact copy of a block.
pub fn clone_block(b: &Block) -> (r: Block)
    ensures
        r.header == b.header,
        r.transactions@ == b.transactions@,
{
    let mut txs: Vec<Transaction> = Vec::new();
    let mut i: usize = 0;
    while i < b.transactions.len()
        invariant
            0 <= i <= b.transactions@.len(),
            txs@ == b.transactions@.subrange(0, i as int),
        decreases b.transactions@.len() - i,
    {
        txs.push(b.transactions[i]);
        proof {
            assert(txs@ =~= b.transactions@.subrange(0, i as int + 1));
        }
        i = i + 1;
    }
    proof {
        assert(txs@ =~= b.transactions@);
    }
    Block { header: b.header, transactions: txs }
}

/// Build a block-inventory `GetData` for the given hashes.
pub fn send_block_getdata(v_fetch: &Vec<Hash256>) -> (r: GetDataMessage)
    ensures
        r.inventory@.len() == v_fetch@.len(),
        forall|i: int|
            0 <= i < v_fetch@.len() ==> (#[trigger] r.inventory@[i]).inv_type
                == InventoryType::MsgBlock && r.inventory@[i].hash == v_fetch@[i],
{
    let mut inventory: Vec<Inventory> = Vec::new();
    let mut i: usize = 0;
    while i < v_fetch.len()
        invariant
            0 <= i <= v_fetch@.len(),
            inventory@.len() == i,
            forall|j: int|
                0 <= j < i ==> (#[trigger] inventory@[j]).inv_type == InventoryType::MsgBlock
                    && inventory@[j].hash == v_fetch@[j],
        decreases v_fetch@.len() - i,
    {
        inventory.push(Inventory { inv_type: InventoryType::MsgBlock, hash: v_fetch[i] });
        i = i + 1;
    }
    GetDataMessage { inventory }
}

impl SyncProtocol {
    /// The handler is well-formed when its shared state and queue are.
    pub open spec fn wf(self) -> bool {
        &&& self.synchronizer.wf()
        &&& self.queue.wf()
    }

    /// Build the handler around shared sync state, with an empty queue of
    /// the standard capacity.
    pub fn new(synchronizer: Synchronizer) -> (r: SyncProtocol)
        requires
            synchronizer.wf(),
        ensures
            r.wf(),
            r.synchronizer == synchronizer,
            r.queue.tasks@.len() == 0,
            r.queue.capacity == crate::types::TASK_QUEUE_CAPACITY,
    {
        SyncProtocol { synchronizer, queue: TaskQueue::new() }
    }

    /// The timers the handler asks the substrate to register: the
    /// header-request and block-fetch ticks, both at the standard
    /// interval.
    pub fn initialize(&self) -> (r: Vec<(TimerToken, u64)>)
        ensures
            r@.len() == 2,
            r@[0] == (SEND_GET_HEADERS_TOKEN, TIMER_INTERVAL_MS),
            r@[1] == (BLOCK_FETCH_TOKEN, TIMER_INTERVAL_MS),
    {
        let mut out: Vec<(TimerToken, u64)> = Vec::new();
        out.push((SEND_GET_HEADERS_TOKEN, TIMER_INTERVAL_MS));
        out.push((BLOCK_FETCH_TOKEN, TIMER_INTERVAL_MS));
        out
    }

    /// Route a decoded payload from `peer` onto the task queue. Sync
    /// payloads become their handling task; returns whether a task was
    /// enqueued — a full queue drops the task, payloads of the relay
    /// protocol are not routed here, and neither blocks the caller.
    pub fn process(&mut self, peer: PeerId, payload: Payload) -> (r: bool)
        requires
            old(self).wf(),
        ensures
            final(self).wf(),
            final(self).synchronizer == old(self).synchronizer,
            final(self).queue.capacity == old(self).queue.capacity,
            r == (is_sync_payload(payload) && old(self).queue.tasks@.len()
                < old(self).queue.capacity),
            !r ==> final(self).queue.tasks@ == old(self).queue.tasks@,
            r ==> final(self).queue.tasks@.len() == old(self).queue.tasks@.len() + 1,
            r ==> (payload matches Payload::GetHeaders(m) ==> final(self).queue.tasks@
                == old(self).queue.tasks@.push(Task::HandleGetHeaders(peer, m))),
            r ==> (payload matches Payload::Headers(m) ==> final(self).queue.tasks@
                == old(self).queue.tasks@.push(Task::HandleHeaders(peer, m))),
            r ==> (payload matches Payload::GetData(m) ==> final(self).queue.tasks@
                == old(self).queue.tasks@.push(Task::HandleGetData(peer, m))),
            r ==> (payload matches Payload::Block(b) ==> final(self).queue.tasks@
                == old(self).queue.tasks@.push(Task::HandleBlock(peer, b))),
    {
        match payload {
            Payload::GetHeaders(m) => self.queue.try_send(Task::HandleGetHeaders(peer, m)).is_ok(),
            Payload::Headers(m) => self.queue.try_send(Task::HandleHeaders(peer, m)).is_ok(),
            Payload::GetData(m) => self.queue.try_send(Task::HandleGetData(peer, m)).is_ok(),
            Payload::Block(b) => self.queue.try_send(Task::HandleBlock(peer, b)).is_ok(),
            _ => false,
        }
    }

    /// A decoded frame arrives from `peer`: routing is all that happens
    /// on the substrate's thread. Byte-level decoding is the codec's job;
    /// frames that fail to decode never reach this point and change
    /// nothing.
    pub fn read(&mut self, peer: PeerId, payload: Payload) -> (r: bool)
        requires
            old(self).wf(),
        ensures
            final(self).wf(),
            final(self).synchronizer == old(self).synchronizer,
            final(self).queue.capacity == old(self).queue.capacity,
            r == (is_sync_payload(payload) && old(self).queue.tasks@.len()
                < old(self).queue.capacity),
            !r ==> final(self).queue.tasks@ == old(self).queue.tasks@,
            r ==> (payload matches Payload::GetHeaders(m) ==> final(self).queue.tasks@
                == old(self).queue.tasks@.push(Task::HandleGetHeaders(peer, m))),
            r ==> (payload matches Payload::Headers(m) ==> final(self).queue.tasks@
                == old(self).queue.tasks@.push(Task::HandleHeaders(peer, m))),
            r ==> (payload matches Payload::GetData(m) ==> final(self).queue.tasks@
                == old(self).queue.tasks@.push(Task::HandleGetData(peer, m))),
            r ==> (payload matches Payload::Block(b) ==> final(self).queue.tasks@
                == old(self).queue.tasks@.push(Task::HandleBlock(peer, b))),
    {
        self.process(peer, payload)
    }

    /// A peer connected: register it, and when no headers-sync round is
    /// running or the node is still catching up, enqueue a `GetHeaders`
    /// task for it. Returns whether the task was enqueued.
    pub fn connected(&mut self, peer: PeerId) -> (r: bool)
        requires
            old(self).wf(),
        ensures
            final(self).wf(),
            final(self).synchronizer.peers.has_peer(peer),
            forall|p: PeerId| #[trigger] final(self).synchronizer.peers.has_peer(p)
                <==> (old(self).synchronizer.peers.has_peer(p) || p == peer),
            // the task is enqueued exactly when no round is running or
            // the node is catching up, and the queue has room
            r <==> ((old(self).synchronizer.n_sync == 0 || old(self).synchronizer.best_known_number
                > old(self).synchronizer.chain.headers@.len() - 1)
                && old(self).queue.tasks@.len() < old(self).queue.capacity),
            r ==> final(self).queue.tasks@ == old(self).queue.tasks@.push(
                Task::SendGetHeadersToPeer(peer),
            ),
            !r ==> final(self).queue.tasks@ == old(self).queue.tasks@,
    {
        self.synchronizer.peers.connected(peer);
        if self.synchronizer.n_sync == 0 || self.synchronizer.is_initial_block_download() {
            self.queue.try_send(Task::SendGetHeadersToPeer(peer)).is_ok()
        } else {
            false
        }
    }

    /// A peer disconnected: it leaves the registry and its in-flight
    /// block reservations are released. Afterwards the peer is absent, so
    /// no later task computes it as a send target.
    pub fn disconnected(&mut self, peer: PeerId)
        requires
            old(self).wf(),
        ensures
            final(self).wf(),
            !final(self).synchronizer.peers.has_peer(peer),
            forall|p: PeerId| p != peer ==> (#[trigger] final(self).synchronizer.peers.has_peer(p)
                <==> old(self).synchronizer.peers.has_peer(p)),
            final(self).queue == old(self).queue,
            final(self).synchronizer.chain == old(self).synchronizer.chain,
    {
        self.synchronizer.peers.disconnected(peer);
    }

    /// A timer fired. With no peers connected nothing happens. The
    /// header-request tick enqueues a `GetHeaders` round when none is
    /// running or the node is still catching up; the block-fetch tick
    /// always enqueues a fetch task. Returns whether a task was enqueued.
    pub fn timeout(&mut self, token: TimerToken) -> (r: bool)
        requires
            old(self).wf(),
            token == SEND_GET_HEADERS_TOKEN || token == BLOCK_FETCH_TOKEN,
        ensures
            final(self).wf(),
            final(self).synchronizer == old(self).synchronizer,
            old(self).synchronizer.peers.peers@.len() == 0 ==> !r,
            // a task is enqueued exactly when peers are connected, the
            // token's condition holds, and the queue has room
            r <==> (old(self).synchronizer.peers.peers@.len() > 0 && (token == BLOCK_FETCH_TOKEN
                || old(self).synchronizer.n_sync == 0 || old(self).synchronizer.best_known_number
                > old(self).synchronizer.chain.headers@.len() - 1)
                && old(self).queue.tasks@.len() < old(self).queue.capacity),
            r && token == SEND_GET_HEADERS_TOKEN ==> final(self).queue.tasks@
                == old(self).queue.tasks@.push(Task::SendGetHeadersToAll),
            r && token == BLOCK_FETCH_TOKEN ==> final(self).queue.tasks@
                == old(self).queue.tasks@.push(Task::FetchBlock),
            !r ==> final(self).queue.tasks@ == old(self).queue.tasks@,
            r ==> final(self).queue.tasks@.len() <= final(self).queue.capacity,
    {
        if self.synchronizer.peers.len() == 0 {
            return false;
        }
        if token == SEND_GET_HEADERS_TOKEN {
            if self.synchronizer.n_sync == 0 || self.synchronizer.is_initial_block_download() {
                self.queue.try_send(Task::SendGetHeadersToAll).is_ok()
            } else {
                false
            }
        } else {
            self.queue.try_send(Task::FetchBlock).is_ok()
        }
    }

    /// Build the `GetHeaders` for one peer: the locator rooted at the
    /// best known header, no stop hash. A registered peer not yet in an
    /// active round becomes active and is counted in `n_sync`; a peer
    /// already syncing is not counted twice, so rounds stay balanced.
    pub fn send_getheaders_to_peer(&mut self, peer: PeerId) -> (r: OutboundMessage)
        requires
            old(self).wf(),
        ensures
            final(self).wf(),
            final(self).synchronizer.chain == old(self).synchronizer.chain,
            final(self).synchronizer.best_known_number
                == old(self).synchronizer.best_known_number,
            final(self).queue == old(self).queue,
            final(self).synchronizer.peers.peers@.len()
                == old(self).synchronizer.peers.peers@.len(),
            !old(self).synchronizer.peers.has_peer(peer) ==> final(self).synchronizer.peers
                == old(self).synchronizer.peers && final(self).synchronizer.n_sync
                == old(self).synchronizer.n_sync,
            forall|i: int|
                0 <= i < old(self).synchronizer.peers.peers@.len()
                    && (#[trigger] old(self).synchronizer.peers.peers@[i]).id != peer
                    ==> final(self).synchronizer.peers.peers@[i]
                        == old(self).synchronizer.peers.peers@[i],
            forall|i: int|
                0 <= i < old(self).synchronizer.peers.peers@.len()
                    && (#[trigger] old(self).synchronizer.peers.peers@[i]).id == peer
                    ==> final(self).synchronizer.peers.peers@[i].id
                        == old(self).synchronizer.peers.peers@[i].id
                        && final(self).synchronizer.peers.peers@[i].state.sync_active == true
                        && final(self).synchronizer.n_sync
                        == (if old(self).synchronizer.peers.peers@[i].state.sync_active {
                            old(self).synchronizer.n_sync as int
                        } else if old(self).synchronizer.n_sync < u64::MAX {
                            old(self).synchronizer.n_sync + 1
                        } else {
                            u64::MAX as int
                        }) && final(self).synchronizer.peers.peers@[i].state.in_flight_blocks@
                        == old(self).synchronizer.peers.peers@[i].state.in_flight_blocks@
                        && final(self).synchronizer.peers.peers@[i].state.best_known_header
                        == old(self).synchronizer.peers.peers@[i].state.best_known_header
                        && final(self).synchronizer.peers.peers@[i].state.misbehavior_score
                        == old(self).synchronizer.peers.peers@[i].state.misbehavior_score,
            r.peer == peer,
            r.payload matches Payload::GetHeaders(m) ==> m.version == 0 && m.hash_stop
                == (Hash256 { w0: 0, w1: 0, w2: 0, w3: 0 }) && m.block_locator_hashes@
                == spec_locator(
                old(self).synchronizer.chain.headers@,
                old(self).synchronizer.chain.headers@.len() - 1,
                0,
                1,
            ),
            r.payload is GetHeaders,
    {
        match self.synchronizer.peers.find_peer(peer) {
            Some(idx) => {
                if !self.synchronizer.peers.sync_active_at(idx) {
                    // a fresh round with this peer
                    self.synchronizer.peers.set_sync_active_at(idx, true);
                    if self.synchronizer.n_sync < u64::MAX {
                        self.synchronizer.n_sync = self.synchronizer.n_sync + 1;
                    }
                } else {
                    self.synchronizer.peers.set_sync_active_at(idx, true);
                }
            },
            None => {},
        }
        let tip = self.synchronizer.chain.header_count() - 1;
        let locator = self.synchronizer.chain.get_locator(tip);
        let message = GetHeadersMessage {
            version: 0,
            block_locator_hashes: locator,
            hash_stop: Hash256::zero(),
        };
        OutboundMessage { peer, payload: Payload::GetHeaders(message) }
    }

    /// Emit a `GetHeaders` to every connected peer.
    pub fn send_getheaders_to_all(&mut self) -> (r: Vec<OutboundMessage>)
        requires
            old(self).wf(),
        ensures
            final(self).wf(),
            final(self).synchronizer.chain == old(self).synchronizer.chain,
            final(self).synchronizer.best_known_number
                == old(self).synchronizer.best_known_number,
            final(self).queue == old(self).queue,
            final(self).synchronizer.n_sync >= old(self).synchronizer.n_sync,
            final(self).synchronizer.peers.peers@.len()
                == old(self).synchronizer.peers.peers@.len(),
            // one GetHeaders per connected peer, in registry order, each
            // carrying the locator of the best known header; every peer is
            // in an active round afterwards
            r@.len() == old(self).synchronizer.peers.peers@.len(),
            forall|i: int|
                0 <= i < r@.len() ==> (#[trigger] r@[i]).peer
                    == old(self).synchronizer.peers.peers@[i].id && r@[i].payload is GetHeaders,
            forall|i: int|
                0 <= i < r@.len() ==> ((#[trigger] r@[i]).payload matches Payload::GetHeaders(m)
                    ==> m.version == 0 && m.block_locator_hashes@ == spec_locator(
                    old(self).synchronizer.chain.headers@,
                    old(self).synchronizer.chain.headers@.len() - 1,
                    0,
                    1,
                )),
            forall|i: int|
                0 <= i < old(self).synchronizer.peers.peers@.len()
                    ==> (#[trigger] final(self).synchronizer.peers.peers@[i]).id
                        == old(self).synchronizer.peers.peers@[i].id
                        && final(self).synchronizer.peers.peers@[i].state.sync_active == true
                        && final(self).synchronizer.peers.peers@[i].state.in_flight_blocks@
                        == old(self).synchronizer.peers.peers@[i].state.in_flight_blocks@
                        && final(self).synchronizer.peers.peers@[i].state.best_known_header
                        == old(self).synchronizer.peers.peers@[i].state.best_known_header
                        && final(self).synchronizer.peers.peers@[i].state.misbehavior_score
                        == old(self).synchronizer.peers.peers@[i].state.misbehavior_score,
    {
        let ids = self.synchronizer.peers.snapshot_peers();
        let mut out: Vec<OutboundMessage> = Vec::new();
        let mut i: usize = 0;
        while i < ids.len()
            invariant
                self.wf(),
                self.synchronizer.chain == old(self).synchronizer.chain,
                self.synchronizer.best_known_number
                    == old(self).synchronizer.best_known_number,
                self.queue == old(self).queue,
                self.synchronizer.n_sync >= old(self).synchronizer.n_sync,
                old(self).wf(),
                ids@.len() == old(self).synchronizer.peers.peers@.len(),
                self.synchronizer.peers.peers@.len()
                    == old(self).synchronizer.peers.peers@.len(),
                forall|j: int|
                    0 <= j < ids@.len() ==> ids@[j]
                        == (#[trigger] old(self).synchronizer.peers.peers@[j]).id,
                0 <= i <= ids@.len(),
                out@.len() == i,
                forall|j: int|
                    0 <= j < i ==> (#[trigger] out@[j]).peer
                        == old(self).synchronizer.peers.peers@[j].id
                        && out@[j].payload is GetHeaders,
                forall|j: int|
                    0 <= j < i ==> ((#[trigger] out@[j]).payload matches Payload::GetHeaders(m)
                        ==> m.version == 0 && m.block_locator_hashes@ == spec_locator(
                        old(self).synchronizer.chain.headers@,
                        old(self).synchronizer.chain.headers@.len() - 1,
                        0,
                        1,
                    )),
                forall|j: int|
                    0 <= j < ids@.len()
                        ==> (#[trigger] self.synchronizer.peers.peers@[j]).id
                            == old(self).synchronizer.peers.peers@[j].id
                            && self.synchronizer.peers.peers@[j].state.in_flight_blocks@
                            == old(self).synchronizer.peers.peers@[j].state.in_flight_blocks@
                            && self.synchronizer.peers.peers@[j].state.best_known_header
                            == old(self).synchronizer.peers.peers@[j].state.best_known_header
                            && self.synchronizer.peers.peers@[j].state.misbehavior_score
                            == old(self).synchronizer.peers.peers@[j].state.misbehavior_score,
                forall|j: int|
                    0 <= j < i ==> (#[trigger] self.synchronizer.peers.peers@[j]).state.sync_active
                        == true,
                forall|j: int|
                    i <= j < ids@.len()
                        ==> (#[trigger] self.synchronizer.peers.peers@[j]).state.sync_active
                            == old(self).synchronizer.peers.peers@[j].state.sync_active,
            decreases ids@.len() - i,
        {
            let ghost ppre = self.synchronizer.peers;
            let m = self.send_getheaders_to_peer(ids[i]);
            out.push(m);
            proof {
                // registry ids are unique, so only row `i` was touched
                assert(ppre.peers@[i as int].id == ids@[i as int]);
                assert forall|j: int| 0 <= j < ids@.len() && j != i as int
                    implies #[trigger] self.synchronizer.peers.peers@[j] == ppre.peers@[j] by {
                    assert(old(self).synchronizer.peers.peers@[j].id
                        != old(self).synchronizer.peers.peers@[i as int].id);
                    assert(ppre.peers@[j].id != ids@[i as int]);
                }
            }
            i = i + 1;
        }
        out
    }

    /// For every peer with spare fetch capacity, reserve the block bodies
    /// to download from it and build the `GetData` asking for them.
    pub fn find_blocks_to_fetch(&mut self, now: u64) -> (r: Vec<OutboundMessage>)
        requires
            old(self).wf(),
        ensures
            final(self).wf(),
            final(self).synchronizer.chain == old(self).synchronizer.chain,
            final(self).queue == old(self).queue,
            final(self).synchronizer.peers.peers@.len()
                == old(self).synchronizer.peers.peers@.len(),
            // each message is a nonempty block GetData for a registered
            // peer, asking exactly for hashes now reserved on that peer
            forall|i: int|
                0 <= i < r@.len() ==> (#[trigger] r@[i]).payload is GetData && exists|a: int|
                    0 <= a < final(self).synchronizer.peers.peers@.len()
                        && (#[trigger] final(self).synchronizer.peers.peers@[a]).id
                        == r@[i].peer && (r@[i].payload matches Payload::GetData(g)
                        ==> g.inventory@.len() > 0 && forall|e: int|
                        0 <= e < g.inventory@.len()
                            ==> (#[trigger] g.inventory@[e]).inv_type == InventoryType::MsgBlock
                                && crate::peers::state_has_inflight(
                            final(self).synchronizer.peers.peers@[a].state,
                            g.inventory@[e].hash,
                        )),
            // no peer is asked twice in one round
            forall|i1: int, i2: int|
                0 <= i1 < r@.len() && 0 <= i2 < r@.len() && i1 != i2
                    ==> (#[trigger] r@[i1]).peer != (#[trigger] r@[i2]).peer,
            // scheduling is owed: afterwards every peer is settled — no
            // best header, at its cap, or its whole window in flight
            forall|a: int|
                0 <= a < final(self).synchronizer.peers.peers@.len()
                    ==> #[trigger] fetch_row_settled(final(self).synchronizer, a),
    {
        let n = self.synchronizer.peers.len();
        // first pass: timed-out requests return to the eligible pool
        let mut e: usize = 0;
        while e < n
            invariant
                self.wf(),
                self.synchronizer.chain == old(self).synchronizer.chain,
                self.synchronizer.n_sync == old(self).synchronizer.n_sync,
                self.synchronizer.best_known_number
                    == old(self).synchronizer.best_known_number,
                self.queue == old(self).queue,
                n == self.synchronizer.peers.peers@.len(),
                self.synchronizer.peers.peers@.len()
                    == old(self).synchronizer.peers.peers@.len(),
                0 <= e <= n,
            decreases n - e,
        {
            let _ = self.synchronizer.peers.expire_inflight_at(e, now);
            e = e + 1;
        }
        // second pass: reserve and ask; reservations only grow, so every
        // settled row stays settled
        let mut out: Vec<OutboundMessage> = Vec::new();
        let mut idx: usize = 0;
        while idx < n
            invariant
                self.wf(),
                self.synchronizer.chain == old(self).synchronizer.chain,
                self.queue == old(self).queue,
                n == self.synchronizer.peers.peers@.len(),
                self.synchronizer.peers.peers@.len()
                    == old(self).synchronizer.peers.peers@.len(),
                0 <= idx <= n,
                forall|i: int|
                    0 <= i < out@.len() ==> (#[trigger] out@[i]).payload is GetData
                        && exists|a: int|
                        0 <= a < idx && (#[trigger] self.synchronizer.peers.peers@[a]).id
                            == out@[i].peer && (out@[i].payload matches Payload::GetData(g)
                            ==> g.inventory@.len() > 0 && forall|e2: int|
                            0 <= e2 < g.inventory@.len()
                                ==> (#[trigger] g.inventory@[e2]).inv_type
                                    == InventoryType::MsgBlock
                                    && crate::peers::state_has_inflight(
                                self.synchronizer.peers.peers@[a].state,
                                g.inventory@[e2].hash,
                            )),
                forall|i1: int, i2: int|
                    0 <= i1 < out@.len() && 0 <= i2 < out@.len() && i1 != i2
                        ==> (#[trigger] out@[i1]).peer != (#[trigger] out@[i2]).peer,
                forall|a: int|
                    0 <= a < idx ==> #[trigger] fetch_row_settled(self.synchronizer, a),
            decreases n - idx,
        {
            let ghost outpre = out@;
            let ghost spre = self.synchronizer;
            let peer = self.synchronizer.peers.peer_id_at(idx);
            match self.synchronizer.get_blocks_to_fetch(idx, now) {
                Some(v_fetch) => {
                    if v_fetch.len() > 0 {
                        let message = send_block_getdata(&v_fetch);
                        out.push(OutboundMessage { peer, payload: Payload::GetData(message) });
                    }
                },
                None => {},
            }
            proof {
                let ii = idx as int;
                // this iteration only extended row `idx`'s reservations
                assert forall|j: int| 0 <= j < n as int
                    implies (#[trigger] spre.peers.peers@[j]).state.in_flight_blocks@.is_prefix_of(
                        self.synchronizer.peers.peers@[j].state.in_flight_blocks@,
                    ) by {
                    if j != ii {
                        assert(self.synchronizer.peers.peers@[j] == spre.peers.peers@[j]);
                        assert(spre.peers.peers@[j].state.in_flight_blocks@.is_prefix_of(
                            spre.peers.peers@[j].state.in_flight_blocks@,
                        ));
                    }
                }
                // earlier rows stay settled: their fields are untouched and
                // in-flight membership is monotone under growth
                assert forall|a: int| 0 <= a < ii + 1
                    implies #[trigger] fetch_row_settled(self.synchronizer, a) by {
                    if a < ii {
                        assert(self.synchronizer.peers.peers@[a] == spre.peers.peers@[a]);
                        assert(fetch_row_settled(spre, a));
                        if !(spre.peers.peers@[a].state.best_known_header is None)
                            && spre.peers.peers@[a].state.in_flight_blocks@.len()
                            != crate::types::MAX_BLOCKS_IN_FLIGHT_PER_PEER {
                            assert forall|hh: int|
                                self.synchronizer.chain.blocks@.len() <= hh
                                    <= crate::sync::spec_window_top(self.synchronizer, a)
                                implies self.synchronizer.peers.inflight_anywhere(
                                    (#[trigger] self.synchronizer.chain.headers@[hh]).hash,
                                ) by {
                                assert(crate::sync::spec_window_top(self.synchronizer, a)
                                    == crate::sync::spec_window_top(spre, a));
                                assert(spre.peers.inflight_anywhere(
                                    spre.chain.headers@[hh].hash,
                                ));
                                crate::peers::lemma_inflight_anywhere_monotone(
                                    spre.peers,
                                    self.synchronizer.peers,
                                    spre.chain.headers@[hh].hash,
                                );
                            }
                        }
                    } else {
                        // the row just handled is settled by the engine's
                        // owed-selection guarantee
                        assert(crate::sync::spec_window_top(self.synchronizer, a)
                            == crate::sync::spec_window_top(spre, a));
                    }
                }
                // a fresh message names an unvisited row, so ids stay
                // pairwise distinct
                assert forall|i1: int, i2: int|
                    0 <= i1 < out@.len() && 0 <= i2 < out@.len() && i1 != i2
                    implies (#[trigger] out@[i1]).peer != (#[trigger] out@[i2]).peer by {
                    if i1 < outpre.len() && i2 < outpre.len() {
                        assert(out@[i1] == outpre[i1]);
                        assert(out@[i2] == outpre[i2]);
                    } else if i2 == outpre.len() && i1 < outpre.len() {
                        assert(out@[i1] == outpre[i1]);
                        let a = choose|a: int|
                            0 <= a < ii && (#[trigger] spre.peers.peers@[a]).id == outpre[i1].peer;
                        assert(self.synchronizer.peers.peers@[a].id == outpre[i1].peer);
                        assert(self.synchronizer.peers.peers@[ii].id != self.synchronizer.peers.peers@[a].id);
                        assert(out@[i2].peer == self.synchronizer.peers.peers@[ii].id);
                    } else if i1 == outpre.len() && i2 < outpre.len() {
                        assert(out@[i2] == outpre[i2]);
                        let a = choose|a: int|
                            0 <= a < ii && (#[trigger] spre.peers.peers@[a]).id == outpre[i2].peer;
                        assert(self.synchronizer.peers.peers@[a].id == outpre[i2].peer);
                        assert(self.synchronizer.peers.peers@[ii].id != self.synchronizer.peers.peers@[a].id);
                        assert(out@[i1].peer == self.synchronizer.peers.peers@[ii].id);
                    }
                }
            }
            idx = idx + 1;
        }
        out
    }

    /// Answer a peer's `GetHeaders`: the reply carries the headers after
    /// the deepest common ancestor its locator proves, addressed back to
    /// the asking peer.
    pub fn handle_getheaders(&self, peer: PeerId, message: &GetHeadersMessage) -> (r:
        OutboundMessage)
        requires
            self.wf(),
        ensures
            r.peer == peer,
            r.payload is Headers,
            r.payload matches Payload::Headers(m) ==> m.headers@.len()
                <= crate::types::MAX_HEADERS_PER_MSG && (forall|i: int|
                1 <= i < m.headers@.len() ==> (#[trigger] m.headers@[i]).parent_hash
                    == m.headers@[i - 1].hash),
            // the reply is exactly the chain slice above the first matched
            // locator entry, from height 1 when nothing matches
            r.payload matches Payload::Headers(m) ==> crate::sync::getheaders_reply_exact(
                self.synchronizer.chain.headers@,
                message.block_locator_hashes@,
                m.headers@,
            ),
    {
        let response = self.synchronizer.handle_getheaders(message);
        OutboundMessage { peer, payload: Payload::Headers(response) }
    }

    /// Process a peer's `Headers` batch: validate and store it, and when
    /// the batch was full, immediately ask the peer for the next one —
    /// the continuation locator is rooted at the last accepted header. A
    /// batch from a peer that has since disconnected is dropped.
    pub fn handle_headers(&mut self, peer: PeerId, message: &HeadersMessage) -> (r: Vec<
        OutboundMessage,
    >)
        requires
            old(self).wf(),
        ensures
            final(self).wf(),
            final(self).queue == old(self).queue,
            final(self).synchronizer.chain.blocks@ == old(self).synchronizer.chain.blocks@,
            forall|i: int| 0 <= i < r@.len() ==> (#[trigger] r@[i]).peer == peer
                && r@[i].payload is GetHeaders,
            // a frame from an unregistered peer is dropped whole
            !old(self).synchronizer.peers.has_peer(peer) ==> r@.len() == 0
                && final(self).synchronizer == old(self).synchronizer,
            // a follow-up GetHeaders is owed exactly for a valid full batch
            old(self).synchronizer.peers.has_peer(peer) ==> (r@.len() == 1 <==> (
                message.headers@.len() >= crate::types::MAX_HEADERS_PER_MSG
                    && crate::sync::headers_contiguous(message.headers@)
                    && crate::chain::chain_has_hash(
                    old(self).synchronizer.chain.headers@,
                    message.headers@[0].parent_hash,
                ))) && (r@.len() == 0 || r@.len() == 1),
            // a short valid batch ends the round: the peer leaves the
            // active-sync set, and a round that was running with it is
            // subtracted from n_sync
            (old(self).synchronizer.peers.has_peer(peer) && message.headers@.len() > 0
                && message.headers@.len() < crate::types::MAX_HEADERS_PER_MSG
                && crate::sync::headers_batch_valid(
                old(self).synchronizer.chain.headers@,
                message.headers@,
            )) ==> forall|i: int|
                0 <= i < old(self).synchronizer.peers.peers@.len()
                    && (#[trigger] old(self).synchronizer.peers.peers@[i]).id == peer
                    ==> final(self).synchronizer.n_sync
                        == (if old(self).synchronizer.peers.peers@[i].state.sync_active && old(
                        self,
                    ).synchronizer.n_sync > 0 {
                        (old(self).synchronizer.n_sync - 1) as int
                    } else {
                        old(self).synchronizer.n_sync as int
                    }) && final(self).synchronizer.peers.peers@[i].state.sync_active == false,
            // a full accepted batch never decrements n_sync
            (old(self).synchronizer.peers.has_peer(peer) && message.headers@.len()
                >= crate::types::MAX_HEADERS_PER_MSG && crate::sync::headers_batch_valid(
                old(self).synchronizer.chain.headers@,
                message.headers@,
            )) ==> final(self).synchronizer.n_sync >= old(self).synchronizer.n_sync,
            // a broken nonempty batch stores nothing, teaches nothing, and
            // counts one misbehavior against the sender
            (old(self).synchronizer.peers.has_peer(peer) && message.headers@.len() > 0
                && !crate::sync::headers_batch_valid(
                old(self).synchronizer.chain.headers@,
                message.headers@,
            )) ==> final(self).synchronizer.chain.headers@
                == old(self).synchronizer.chain.headers@
                && final(self).synchronizer.best_known_number
                    == old(self).synchronizer.best_known_number && (forall|i: int|
                0 <= i < old(self).synchronizer.peers.peers@.len()
                    && (#[trigger] old(self).synchronizer.peers.peers@[i]).id == peer
                    ==> final(self).synchronizer.peers.peers@[i].state.best_known_header
                        == old(self).synchronizer.peers.peers@[i].state.best_known_header
                        && final(self).synchronizer.peers.peers@[i].state.misbehavior_score
                        == (if old(self).synchronizer.peers.peers@[i].state.misbehavior_score
                        + 1 <= u64::MAX {
                        old(self).synchronizer.peers.peers@[i].state.misbehavior_score + 1
                    } else {
                        u64::MAX as int
                    })),
            // an accepted batch raises the peer's best known header only
            // when the batch's last entry improves on it
            (old(self).synchronizer.peers.has_peer(peer) && crate::sync::headers_batch_valid(
                old(self).synchronizer.chain.headers@,
                message.headers@,
            )) ==> forall|i: int|
                0 <= i < old(self).synchronizer.peers.peers@.len()
                    && (#[trigger] old(self).synchronizer.peers.peers@[i]).id == peer
                    ==> final(self).synchronizer.peers.peers@[i].state.best_known_header
                        == match old(
                        self,
                    ).synchronizer.peers.peers@[i].state.best_known_header {
                        Option::None => Some(message.headers@.last()),
                        Option::Some(known) => if message.headers@.last().total_difficulty
                            > known.total_difficulty {
                            Some(message.headers@.last())
                        } else {
                            Some(known)
                        },
                    },
            // a valid batch attaching at the header tip with new hashes is
            // stored whole
            (old(self).synchronizer.peers.has_peer(peer) && crate::sync::headers_contiguous(
                message.headers@,
            ) && crate::chain::chain_has_hash(
                old(self).synchronizer.chain.headers@,
                message.headers@[0].parent_hash,
            ) && crate::sync::batch_extends(
                old(self).synchronizer.chain.headers@,
                message.headers@,
            )) ==> final(self).synchronizer.chain.headers@
                == old(self).synchronizer.chain.headers@ + message.headers@,
            // the continuation locator is rooted at the new header tip
            r@.len() == 1 ==> (r@[0].payload matches Payload::GetHeaders(g)
                && g.block_locator_hashes@ == spec_locator(
                final(self).synchronizer.chain.headers@,
                final(self).synchronizer.chain.headers@.len() - 1,
                0,
                1,
            )),
    {
        let mut out: Vec<OutboundMessage> = Vec::new();
        match self.synchronizer.peers.find_peer(peer) {
            Some(idx) => {
                let outcome = self.synchronizer.handle_headers(idx, message);
                if outcome == HeadersOutcome::AcceptedContinue {
                    // a full batch: immediately ask for the next one
                    let m = self.send_getheaders_to_peer(peer);
                    out.push(m);
                }
            },
            None => {},
        }
        out
    }

    /// Run one dequeued task against the engine, returning the outbound
    /// messages it produces. Handling tasks for peers that have since
    /// disconnected fall back to the shared chain and touch no peer row.
    pub fn run_task(&mut self, task: Task, now: u64) -> (r: Vec<OutboundMessage>)
        requires
            old(self).wf(),
        ensures
            final(self).wf(),
            final(self).queue == old(self).queue,
            // the task moved the shared state and produced its traffic
            task_effect(old(self).synchronizer, task, final(self).synchronizer, r@),
    {
        match task {
            Task::SendGetHeadersToAll => self.send_getheaders_to_all(),
            Task::FetchBlock => self.find_blocks_to_fetch(now),
            Task::SendGetHeadersToPeer(peer) => {
                let m = self.send_getheaders_to_peer(peer);
                let mut out: Vec<OutboundMessage> = Vec::new();
                out.push(m);
                out
            },
            Task::HandleGetHeaders(peer, message) => {
                let response = self.handle_getheaders(peer, &message);
                let mut out: Vec<OutboundMessage> = Vec::new();
                out.push(response);
                out
            },
            Task::HandleHeaders(peer, message) => self.handle_headers(peer, &message),
            Task::HandleGetData(peer, message) => {
                let heights = self.synchronizer.handle_getdata(&message);
                let mut out: Vec<OutboundMessage> = Vec::new();
                let mut j: usize = 0;
                while j < heights.len()
                    invariant
                        self.wf(),
                        self.queue == old(self).queue,
                        0 <= j <= heights@.len(),
                        forall|e: int|
                            0 <= e < heights@.len() ==> #[trigger] heights@[e]
                                < self.synchronizer.chain.blocks@.len(),
                        forall|i: int|
                            0 <= i < out@.len() ==> (#[trigger] out@[i]).peer == peer
                                && out@[i].payload is Block,
                    decreases heights@.len() - j,
                {
                    let block = clone_block(self.synchronizer.chain.block_at(heights[j]));
                    out.push(OutboundMessage { peer, payload: Payload::Block(block) });
                    j = j + 1;
                }
                out
            },
            Task::HandleBlock(peer, block) => {
                match self.synchronizer.peers.find_peer(peer) {
                    Some(idx) => {
                        let _ = self.synchronizer.process_new_block(idx, block);
                    },
                    None => {
                        let _ = self.synchronizer.chain.process_block(block);
                    },
                }
                Vec::new()
            },
        }
    }

    /// Start the worker round: drain the task queue, running every task
    /// in arrival order through `run_task`, and collect the outbound
    /// messages. The final state is the fold of every queued task's
    /// effect, in order, and the result is their traffic concatenated:
    /// no dequeued task is skipped or run twice. The threads and timers
    /// that call this repeatedly live outside the core.
    pub fn start(&mut self, now: u64) -> (r: Vec<OutboundMessage>)
        requires
            old(self).wf(),
        ensures
            final(self).wf(),
            final(self).queue.tasks@.len() == 0,
            final(self).queue.capacity == old(self).queue.capacity,
            drained(
                old(self).synchronizer,
                old(self).queue.tasks@,
                final(self).synchronizer,
                r@,
            ),
    {
        let ghost tasks0 = old(self).queue.tasks@;
        let ghost mut mids: Seq<Synchronizer> = seq![old(self).synchronizer];
        let ghost mut outs: Seq<Seq<OutboundMessage>> = Seq::empty();
        let ghost mut k: int = 0;
        let mut out: Vec<OutboundMessage> = Vec::new();
        proof {
            assert(tasks0.skip(0) =~= tasks0);
        }
        loop
            invariant
                self.wf(),
                self.queue.capacity == old(self).queue.capacity,
                0 <= k <= tasks0.len(),
                tasks0 == old(self).queue.tasks@,
                self.queue.tasks@ == tasks0.skip(k),
                mids.len() == k + 1,
                outs.len() == k,
                mids[0] == old(self).synchronizer,
                mids[k] == self.synchronizer,
                forall|i: int|
                    0 <= i < k ==> #[trigger] task_effect(
                        mids[i],
                        tasks0[i],
                        mids[i + 1],
                        outs[i],
                    ),
                out@ == outs.flatten(),
            decreases self.queue.tasks@.len(),
        {
            let task = match self.queue.pop_front() {
                Some(task) => task,
                None => {
                    proof {
                        assert(k == tasks0.len());
                        assert(drained(
                            old(self).synchronizer,
                            tasks0,
                            self.synchronizer,
                            out@,
                        )) by {
                            assert(mids.len() == tasks0.len() + 1 && outs.len()
                                == tasks0.len() && mids[0] == old(self).synchronizer
                                && mids[mids.len() - 1] == self.synchronizer && (forall|i: int|
                                0 <= i < tasks0.len() ==> #[trigger] task_effect(
                                    mids[i],
                                    tasks0[i],
                                    mids[i + 1],
                                    outs[i],
                                )) && out@ == outs.flatten());
                        }
                    }
                    return out;
                },
            };
            proof {
                assert(tasks0.skip(k)[0] == tasks0[k]);
                assert(tasks0.skip(k).drop_first() =~= tasks0.skip(k + 1));
            }
            let ghost presync = self.synchronizer;
            let mut produced = self.run_task(task, now);
            proof {
                let ghost outspre = outs;
                mids = mids.push(self.synchronizer);
                outs = outs.push(produced@);
                assert(task_effect(presync, tasks0[k], self.synchronizer, produced@));
                assert(mids[k + 1] == self.synchronizer);
                assert forall|i: int| 0 <= i < k + 1 implies #[trigger] task_effect(
                    mids[i],
                    tasks0[i],
                    mids[i + 1],
                    outs[i],
                ) by {
                    if i < k {
                        assert(mids[i] == mids.drop_last()[i]);
                        assert(mids[i + 1] == mids.drop_last()[i + 1]);
                        assert(outs[i] == outspre[i]);
                    }
                }
                outspre.lemma_flatten_push(produced@);
            }
            out.append(&mut produced);
            proof {
                k = k + 1;
            }
        }
    }
}

} // verus!
