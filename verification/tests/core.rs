//! End-to-end behavior of the sync and relay core on concrete values.

use blocksync::chain::{BlockAcceptance, ChainView};
use blocksync::peers::PeerRegistry;
use blocksync::protocol::SyncProtocol;
use blocksync::queue::{Task, TaskQueue};
use blocksync::relay::{
    RelayResponse,
    relay_targets, BlockTransactionsOutcome, CompactOutcome, RelayProtocol, TxPool,
};
use blocksync::shortid::{short_transaction_id, short_transaction_id_keys};
use blocksync::sync::{HeadersOutcome, Synchronizer};
use blocksync::types::{
    Block, BlockTransactionsMessage, BlockTransactionsRequest, CompactBlock, GetDataMessage,
    GetHeadersMessage, Hash256, Header, HeadersMessage, Inventory, InventoryType, Payload,
    Transaction, BLOCK_FETCH_TOKEN, MAX_BLOCKS_IN_FLIGHT_PER_PEER, SEND_GET_HEADERS_TOKEN,
};

fn h(n: u64) -> Hash256 {
    Hash256 {
        w0: n,
        w1: n.wrapping_mul(31),
        w2: n ^ 0xabcd,
        w3: 7,
    }
}

fn header_at(n: u64) -> Header {
    Header {
        hash: h(n),
        parent_hash: if n == 0 { h(u64::MAX) } else { h(n - 1) },
        number: n,
        total_difficulty: n,
    }
}

fn genesis_block() -> Block {
    Block {
        header: header_at(0),
        transactions: Vec::new(),
    }
}

/// A chain with headers for heights 0..n_headers and bodies for
/// heights 0..n_bodies.
fn mk_chain(n_headers: u64, n_bodies: u64) -> ChainView {
    let mut chain = ChainView::new(genesis_block());
    for n in 1..n_headers {
        assert!(chain.store_header(header_at(n)));
    }
    for n in 1..n_bodies {
        let block = Block {
            header: header_at(n),
            transactions: Vec::new(),
        };
        assert_eq!(chain.process_block(block), BlockAcceptance::Accepted);
    }
    chain
}

#[test]
fn short_id_exact_value_for_zero_inputs() {
    let zero = Hash256 {
        w0: 0,
        w1: 0,
        w2: 0,
        w3: 0,
    };
    let header = Header {
        hash: zero,
        parent_hash: zero,
        number: 0,
        total_difficulty: 0,
    };
    let (k0, k1) = short_transaction_id_keys(0, &header);
    assert_eq!(k0, 0x9e3779b97f4a7c15);
    assert_eq!(k1, 0x6a09e667f3bcc909);
    assert_eq!(short_transaction_id(k0, k1, &zero), 0x22d66166eaaf488f);
}

#[test]
fn short_id_depends_only_on_tx_hash() {
    let header = header_at(201);
    let (k0, k1) = short_transaction_id_keys(0xDEADBEEF, &header);
    let (k0b, k1b) = short_transaction_id_keys(0xDEADBEEF, &header);
    assert_eq!((k0, k1), (k0b, k1b));
    let a = Transaction { hash: h(42) };
    let b = Transaction { hash: h(42) };
    assert_eq!(
        short_transaction_id(k0, k1, &a.hash),
        short_transaction_id(k0, k1, &b.hash)
    );
    let c = Transaction { hash: h(43) };
    assert_ne!(
        short_transaction_id(k0, k1, &a.hash),
        short_transaction_id(k0, k1, &c.hash)
    );
}

#[test]
fn task_queue_bounded_and_non_blocking() {
    let mut q = TaskQueue::with_capacity(2);
    assert!(q.try_send(Task::SendGetHeadersToAll).is_ok());
    assert!(q.try_send(Task::FetchBlock).is_ok());
    let refused = q.try_send(Task::SendGetHeadersToPeer(7));
    assert!(refused.is_err());
    assert_eq!(q.len(), 2);
    assert!(matches!(q.pop_front(), Some(Task::SendGetHeadersToAll)));
    assert!(matches!(q.pop_front(), Some(Task::FetchBlock)));
    assert!(q.pop_front().is_none());
}

#[test]
fn registry_connect_is_idempotent_and_disconnect_removes() {
    let mut peers = PeerRegistry::new();
    peers.connected(1);
    peers.connected(2);
    peers.connected(1);
    assert_eq!(peers.len(), 2);
    peers.disconnected(1);
    assert!(peers.find_peer(1).is_none());
    assert!(peers.find_peer(2).is_some());
    let targets = relay_targets(&peers, 99);
    assert_eq!(targets, vec![2]);
}

#[test]
fn no_relay_target_after_disconnect() {
    let mut peers = PeerRegistry::new();
    peers.connected(1);
    peers.connected(2);
    peers.connected(3);
    peers.disconnected(2);
    let targets = relay_targets(&peers, 1);
    assert_eq!(targets, vec![3]);
}

#[test]
fn locator_headers_catch_up_shape() {
    // a locator rooted at height 100: ten consecutive entries, then the
    // step doubles down to genesis
    let chain = mk_chain(101, 101);
    let locator = chain.get_locator(100);
    let expected_heights: Vec<u64> = vec![
        100, 99, 98, 97, 96, 95, 94, 93, 92, 91, 89, 85, 77, 61, 29, 0,
    ];
    assert_eq!(locator.len(), expected_heights.len());
    for (i, n) in expected_heights.iter().enumerate() {
        assert_eq!(locator[i], h(*n));
    }
}

#[test]
fn getheaders_with_matching_locator() {
    let chain = mk_chain(21, 11);
    let sync = Synchronizer::new(chain);
    let message = GetHeadersMessage {
        version: 0,
        block_locator_hashes: vec![h(10), h(9), h(0)],
        hash_stop: Hash256 {
            w0: 0,
            w1: 0,
            w2: 0,
            w3: 0,
        },
    };
    let response = sync.handle_getheaders(&message);
    assert_eq!(response.headers.len(), 10);
    assert_eq!(response.headers[0], header_at(11));
    assert_eq!(response.headers[9], header_at(20));
}

#[test]
fn getheaders_with_unmatched_locator_starts_at_height_one() {
    let chain = mk_chain(6, 6);
    let sync = Synchronizer::new(chain);
    let message = GetHeadersMessage {
        version: 0,
        block_locator_hashes: vec![h(1000), h(2000)],
        hash_stop: Hash256 {
            w0: 0,
            w1: 0,
            w2: 0,
            w3: 0,
        },
    };
    let response = sync.handle_getheaders(&message);
    assert_eq!(response.headers.len(), 5);
    assert_eq!(response.headers[0].number, 1);
    assert_eq!(response.headers[0], header_at(1));
}

#[test]
fn headers_batch_contiguous_accepted_and_stored() {
    let chain = mk_chain(1, 1);
    let mut sync = Synchronizer::new(chain);
    sync.peers.connected(5);
    sync.peers.set_sync_active_at(0, true);
    sync.n_sync = 1;
    let batch = HeadersMessage {
        headers: vec![header_at(1), header_at(2), header_at(3)],
    };
    let outcome = sync.handle_headers(0, &batch);
    assert_eq!(outcome, HeadersOutcome::AcceptedComplete);
    assert_eq!(sync.chain.header_count(), 4);
    assert_eq!(sync.n_sync, 0);
    assert_eq!(sync.peers.best_known_at(0), Some(header_at(3)));
}

#[test]
fn headers_batch_broken_rejected_with_misbehavior() {
    let chain = mk_chain(1, 1);
    let mut sync = Synchronizer::new(chain);
    sync.peers.connected(5);
    let mut wrong = header_at(2);
    wrong.parent_hash = h(77);
    let batch = HeadersMessage {
        headers: vec![header_at(1), wrong],
    };
    let outcome = sync.handle_headers(0, &batch);
    assert_eq!(outcome, HeadersOutcome::RejectedBroken);
    assert_eq!(sync.chain.header_count(), 1);
    assert_eq!(sync.peers.misbehavior_at(0), 1);
}

#[test]
fn empty_headers_ends_sync_round() {
    let chain = mk_chain(1, 1);
    let mut sync = Synchronizer::new(chain);
    sync.peers.connected(5);
    sync.peers.set_sync_active_at(0, true);
    sync.n_sync = 1;
    let outcome = sync.handle_headers(0, &HeadersMessage { headers: Vec::new() });
    assert_eq!(outcome, HeadersOutcome::RejectedBroken);
    assert_eq!(sync.n_sync, 0);
    assert!(!sync.peers.sync_active_at(0));
    assert_eq!(sync.peers.misbehavior_at(0), 0);
}

#[test]
fn block_fetch_two_peers_disjoint_windows() {
    // headers known through 200, bodies through 100; both peers advertise
    // the tip, and the scheduler hands each a disjoint window
    let chain = mk_chain(201, 101);
    let mut sync = Synchronizer::new(chain);
    sync.peers.connected(1);
    sync.peers.connected(2);
    sync.peers.set_best_known_at(0, header_at(200));
    sync.peers.set_best_known_at(1, header_at(200));
    let first = sync.get_blocks_to_fetch(0, 1000).unwrap();
    let second = sync.get_blocks_to_fetch(1, 1000).unwrap();
    assert_eq!(first.len(), MAX_BLOCKS_IN_FLIGHT_PER_PEER);
    assert_eq!(second.len(), MAX_BLOCKS_IN_FLIGHT_PER_PEER);
    for (i, expected) in (101u64..117).enumerate() {
        assert_eq!(first[i], h(expected));
    }
    for (i, expected) in (117u64..133).enumerate() {
        assert_eq!(second[i], h(expected));
    }
    for a in &first {
        assert!(!second.contains(a));
    }
}

#[test]
fn received_block_clears_in_flight_and_extends_chain() {
    let chain = mk_chain(3, 1);
    let mut sync = Synchronizer::new(chain);
    sync.peers.connected(1);
    sync.peers.set_best_known_at(0, header_at(2));
    let fetch = sync.get_blocks_to_fetch(0, 0).unwrap();
    assert_eq!(fetch, vec![h(1), h(2)]);
    assert_eq!(sync.peers.inflight_len_at(0), 2);
    let block = Block {
        header: header_at(1),
        transactions: Vec::new(),
    };
    let acceptance = sync.process_new_block(0, block);
    assert_eq!(acceptance, BlockAcceptance::Accepted);
    assert_eq!(sync.peers.inflight_len_at(0), 1);
    assert_eq!(sync.chain.block_count(), 2);
}

#[test]
fn rejected_block_counts_misbehavior() {
    let chain = mk_chain(3, 1);
    let mut sync = Synchronizer::new(chain);
    sync.peers.connected(1);
    let mut bad = header_at(1);
    bad.hash = h(999);
    let block = Block {
        header: bad,
        transactions: Vec::new(),
    };
    let acceptance = sync.process_new_block(0, block);
    assert_eq!(acceptance, BlockAcceptance::Rejected);
    assert_eq!(sync.peers.misbehavior_at(0), 1);
}

#[test]
fn getdata_returns_stored_blocks_only() {
    let chain = mk_chain(6, 4);
    let sync = Synchronizer::new(chain);
    let message = GetDataMessage {
        inventory: vec![
            Inventory {
                inv_type: InventoryType::MsgBlock,
                hash: h(2),
            },
            Inventory {
                inv_type: InventoryType::MsgBlock,
                hash: h(5),
            },
            Inventory {
                inv_type: InventoryType::MsgTx,
                hash: h(3),
            },
        ],
    };
    let heights = sync.handle_getdata(&message);
    assert_eq!(heights, vec![2]);
}

#[test]
fn duplicate_transaction_invokes_pool_and_relay_once() {
    let chain = mk_chain(1, 1);
    let mut sync = Synchronizer::new(chain);
    sync.peers.connected(1);
    sync.peers.connected(2);
    sync.peers.connected(3);
    let mut relay = RelayProtocol::new(TxPool::new());
    let t = Transaction { hash: h(500) };
    let first = relay.handle_transaction(&sync, 1, t);
    assert_eq!(first, Some(vec![2, 3]));
    assert_eq!(relay.tx_pool.pool.len(), 1);
    let echoed = relay.handle_transaction(&sync, 2, t);
    assert_eq!(echoed, None);
    assert_eq!(relay.tx_pool.pool.len(), 1);
}

#[test]
fn duplicate_block_invokes_chain_and_relay_once() {
    let chain = mk_chain(2, 1);
    let mut sync = Synchronizer::new(chain);
    sync.peers.connected(1);
    sync.peers.connected(2);
    let mut relay = RelayProtocol::new(TxPool::new());
    let block = Block {
        header: header_at(1),
        transactions: Vec::new(),
    };
    let first = relay.handle_block(&mut sync, 1, block);
    let (acceptance, targets) = first.unwrap();
    assert_eq!(acceptance, BlockAcceptance::Accepted);
    assert_eq!(targets, vec![2]);
    assert_eq!(sync.chain.block_count(), 2);
    let again = Block {
        header: header_at(1),
        transactions: Vec::new(),
    };
    assert!(relay.handle_block(&mut sync, 2, again).is_none());
    assert_eq!(sync.chain.block_count(), 2);
}

fn compact_of(header: Header, nonce: u64, txs: &[Transaction]) -> CompactBlock {
    let (k0, k1) = short_transaction_id_keys(nonce, &header);
    CompactBlock {
        header,
        nonce,
        short_ids: txs
            .iter()
            .map(|t| short_transaction_id(k0, k1, &t.hash))
            .collect(),
        prefilled: Vec::new(),
    }
}

#[test]
fn compact_block_complete_reconstruction() {
    let chain = mk_chain(1, 1);
    let mut sync = Synchronizer::new(chain);
    assert!(sync.chain.store_header(header_at(1)));
    sync.peers.connected(1);
    sync.peers.connected(2);
    let tx_a = Transaction { hash: h(1001) };
    let tx_b = Transaction { hash: h(1002) };
    let tx_c = Transaction { hash: h(1003) };
    let mut pool = TxPool::new();
    assert!(pool.add_to_memory_pool(tx_a));
    assert!(pool.add_to_memory_pool(tx_b));
    assert!(pool.add_to_memory_pool(tx_c));
    let mut relay = RelayProtocol::new(pool);
    let compact = compact_of(header_at(1), 0xDEADBEEF, &[tx_a, tx_b, tx_c]);
    match relay.handle_compact_block(&mut sync, 1, compact) {
        CompactOutcome::Completed { targets } => assert_eq!(targets, vec![2]),
        _ => panic!("expected complete reconstruction"),
    }
    assert_eq!(sync.chain.block_count(), 2);
    let stored = sync.chain.block_at(1);
    assert_eq!(stored.transactions, vec![tx_a, tx_b, tx_c]);
}

#[test]
fn compact_block_missing_then_delivered() {
    let chain = mk_chain(1, 1);
    let mut sync = Synchronizer::new(chain);
    assert!(sync.chain.store_header(header_at(1)));
    sync.peers.connected(1);
    let tx_a = Transaction { hash: h(1001) };
    let tx_b = Transaction { hash: h(1002) };
    let tx_c = Transaction { hash: h(1003) };
    let mut pool = TxPool::new();
    assert!(pool.add_to_memory_pool(tx_a));
    assert!(pool.add_to_memory_pool(tx_c));
    let mut relay = RelayProtocol::new(pool);
    let compact = compact_of(header_at(1), 0xDEADBEEF, &[tx_a, tx_b, tx_c]);
    let request = match relay.handle_compact_block(&mut sync, 1, compact) {
        CompactOutcome::MissingRequested { request } => request,
        _ => panic!("expected a missing-transactions request"),
    };
    assert_eq!(request.hash, h(1));
    assert_eq!(request.indexes, vec![1]);
    assert_eq!(sync.chain.block_count(), 1);
    let delivered = BlockTransactionsMessage {
        hash: h(1),
        transactions: vec![tx_b],
    };
    let outcome = relay.handle_block_transactions(&mut sync, 1, &delivered);
    assert_eq!(outcome, BlockTransactionsOutcome::Completed);
    assert_eq!(sync.chain.block_count(), 2);
    assert_eq!(sync.chain.block_at(1).transactions, vec![tx_a, tx_b, tx_c]);
    // the pending entry was removed: delivering again finds nothing
    let again = BlockTransactionsMessage {
        hash: h(1),
        transactions: vec![tx_b],
    };
    assert_eq!(
        relay.handle_block_transactions(&mut sync, 1, &again),
        BlockTransactionsOutcome::NoPending
    );
}

#[test]
fn block_transactions_request_for_unknown_block_is_silent() {
    let chain = mk_chain(2, 2);
    let sync = Synchronizer::new(chain);
    let relay = RelayProtocol::new(TxPool::new());
    let request = BlockTransactionsRequest {
        hash: h(4242),
        indexes: vec![0],
    };
    assert!(relay
        .handle_block_transactions_request(&sync, &request)
        .is_none());
}

#[test]
fn block_transactions_request_answered_from_store() {
    let chain = mk_chain(1, 1);
    let mut sync = Synchronizer::new(chain);
    assert!(sync.chain.store_header(header_at(1)));
    let tx_a = Transaction { hash: h(1) };
    let tx_b = Transaction { hash: h(2) };
    let block = Block {
        header: header_at(1),
        transactions: vec![tx_a, tx_b],
    };
    assert_eq!(sync.chain.process_block(block), BlockAcceptance::Accepted);
    let relay = RelayProtocol::new(TxPool::new());
    let request = BlockTransactionsRequest {
        hash: h(1),
        indexes: vec![1, 0],
    };
    let reply = relay
        .handle_block_transactions_request(&sync, &request)
        .unwrap();
    assert_eq!(reply.hash, h(1));
    assert_eq!(reply.transactions, vec![tx_b, tx_a]);
}

#[test]
fn reconstruction_round_trip_preserves_order() {
    let chain = mk_chain(1, 1);
    let sync = Synchronizer::new(chain);
    let txs: Vec<Transaction> = (0..5).map(|n| Transaction { hash: h(3000 + n) }).collect();
    let mut pool = TxPool::new();
    for t in &txs {
        assert!(pool.add_to_memory_pool(*t));
    }
    let _ = &sync;
    let relay = RelayProtocol::new(pool);
    let compact = compact_of(header_at(9), 7, &txs);
    let (block, missing) = relay.reconstruct_block(&compact, &Vec::new());
    assert!(missing.is_none());
    assert_eq!(block.unwrap().transactions, txs);
}

#[test]
fn sync_protocol_routes_payloads_onto_queue() {
    let chain = mk_chain(1, 1);
    let sync = Synchronizer::new(chain);
    let mut protocol = SyncProtocol::new(sync);
    let msg = GetHeadersMessage {
        version: 0,
        block_locator_hashes: vec![h(0)],
        hash_stop: Hash256 {
            w0: 0,
            w1: 0,
            w2: 0,
            w3: 0,
        },
    };
    assert!(protocol.read(3, Payload::GetHeaders(msg)));
    assert_eq!(protocol.queue.len(), 1);
    assert!(matches!(
        protocol.queue.pop_front(),
        Some(Task::HandleGetHeaders(3, _))
    ));
    // relay payloads are not routed by the sync handler
    let t = Transaction { hash: h(9) };
    assert!(!protocol.read(3, Payload::Transaction(t)));
    assert_eq!(protocol.queue.len(), 0);
}

#[test]
fn timers_enqueue_work_only_with_peers() {
    let chain = mk_chain(1, 1);
    let sync = Synchronizer::new(chain);
    let mut protocol = SyncProtocol::new(sync);
    assert!(!protocol.timeout(BLOCK_FETCH_TOKEN));
    assert_eq!(protocol.queue.len(), 0);
    assert!(protocol.connected(1));
    assert_eq!(protocol.queue.len(), 1);
    assert!(protocol.timeout(SEND_GET_HEADERS_TOKEN));
    assert!(protocol.timeout(BLOCK_FETCH_TOKEN));
    assert_eq!(protocol.queue.len(), 3);
}

#[test]
fn worker_drains_queue_and_emits_getheaders() {
    let chain = mk_chain(1, 1);
    let sync = Synchronizer::new(chain);
    let mut protocol = SyncProtocol::new(sync);
    protocol.connected(1);
    protocol.connected(2);
    assert!(protocol.timeout(SEND_GET_HEADERS_TOKEN));
    let out = protocol.start(0);
    assert_eq!(protocol.queue.len(), 0);
    // one GetHeaders per connected peer from the timer round, plus the
    // connect-time requests
    assert!(out.len() >= 2);
    for m in &out {
        match &m.payload {
            Payload::GetHeaders(g) => {
                assert_eq!(g.version, 0);
                assert_eq!(g.block_locator_hashes, vec![h(0)]);
            }
            _ => panic!("expected only GetHeaders traffic"),
        }
    }
}

#[test]
fn disconnected_peer_gets_no_further_traffic() {
    let chain = mk_chain(1, 1);
    let sync = Synchronizer::new(chain);
    let mut protocol = SyncProtocol::new(sync);
    protocol.connected(1);
    protocol.connected(2);
    let _ = protocol.start(0);
    protocol.disconnected(1);
    // the earlier round finished without answers; a new round may start
    protocol.synchronizer.n_sync = 0;
    assert!(protocol.timeout(SEND_GET_HEADERS_TOKEN));
    let out = protocol.start(0);
    for m in &out {
        assert_ne!(m.peer, 1);
    }
}

#[test]
fn expired_in_flight_requests_return_to_pool() {
    let chain = mk_chain(3, 1);
    let mut sync = Synchronizer::new(chain);
    sync.peers.connected(1);
    sync.peers.set_best_known_at(0, header_at(2));
    let first = sync.get_blocks_to_fetch(0, 1000).unwrap();
    assert_eq!(first, vec![h(1), h(2)]);
    // within the timeout nothing expires
    assert_eq!(sync.peers.expire_inflight_at(0, 1000 + 29_999), 0);
    assert_eq!(sync.peers.inflight_len_at(0), 2);
    // past the timeout both reservations are released and counted
    assert_eq!(sync.peers.expire_inflight_at(0, 1000 + 30_000), 2);
    assert_eq!(sync.peers.inflight_len_at(0), 0);
    assert_eq!(sync.peers.misbehavior_at(0), 2);
    // the hashes are eligible again
    let again = sync.get_blocks_to_fetch(0, 40_000).unwrap();
    assert_eq!(again, vec![h(1), h(2)]);
}

#[test]
fn accepted_block_advances_last_common() {
    let chain = mk_chain(3, 1);
    let mut sync = Synchronizer::new(chain);
    sync.peers.connected(1);
    let block = Block {
        header: header_at(1),
        transactions: Vec::new(),
    };
    assert_eq!(sync.process_new_block(0, block), BlockAcceptance::Accepted);
    assert_eq!(sync.chain.tip_header(), header_at(1));
}

#[test]
fn repeated_compact_block_is_duplicate() {
    let chain = mk_chain(1, 1);
    let mut sync = Synchronizer::new(chain);
    assert!(sync.chain.store_header(header_at(1)));
    sync.peers.connected(1);
    let tx_a = Transaction { hash: h(1001) };
    let mut pool = TxPool::new();
    assert!(pool.add_to_memory_pool(tx_a));
    let mut relay = RelayProtocol::new(pool);
    let first = compact_of(header_at(1), 7, &[tx_a]);
    assert!(matches!(
        relay.handle_compact_block(&mut sync, 1, first),
        CompactOutcome::Completed { .. }
    ));
    let echoed = compact_of(header_at(1), 7, &[tx_a]);
    assert!(matches!(
        relay.handle_compact_block(&mut sync, 1, echoed),
        CompactOutcome::Duplicate
    ));
}

#[test]
fn wrong_delivery_leaves_reconstruction_incomplete() {
    let chain = mk_chain(1, 1);
    let mut sync = Synchronizer::new(chain);
    assert!(sync.chain.store_header(header_at(1)));
    sync.peers.connected(1);
    let tx_a = Transaction { hash: h(1001) };
    let mut relay = RelayProtocol::new(TxPool::new());
    let compact = compact_of(header_at(1), 7, &[tx_a]);
    assert!(matches!(
        relay.handle_compact_block(&mut sync, 1, compact),
        CompactOutcome::MissingRequested { .. }
    ));
    // the delivered transaction is not the one the short ID names: the
    // pending entry is consumed and the block stays unbuilt
    let wrong = BlockTransactionsMessage {
        hash: h(1),
        transactions: vec![Transaction { hash: h(2002) }],
    };
    assert_eq!(
        relay.handle_block_transactions(&mut sync, 1, &wrong),
        BlockTransactionsOutcome::StillIncomplete
    );
    assert_eq!(sync.chain.block_count(), 1);
}

#[test]
fn full_headers_batch_continues_sync() {
    let chain = mk_chain(1, 1);
    let sync = Synchronizer::new(chain);
    let mut protocol = SyncProtocol::new(sync);
    protocol.connected(9);
    let _ = protocol.start(0);
    let batch: Vec<Header> = (1..=2000).map(header_at).collect();
    let out = protocol.handle_headers(9, &HeadersMessage { headers: batch });
    // a full batch: the node immediately asks the same peer for more
    assert_eq!(out.len(), 1);
    assert_eq!(out[0].peer, 9);
    assert!(matches!(out[0].payload, Payload::GetHeaders(_)));
    assert_eq!(protocol.synchronizer.chain.header_count(), 2001);
    // a short batch ends the round with nothing more to ask
    let short = vec![header_at(2001)];
    let out = protocol.handle_headers(9, &HeadersMessage { headers: short });
    assert!(out.is_empty());
}

#[test]
fn resent_known_block_is_already_known() {
    let chain = mk_chain(3, 2);
    let mut sync = Synchronizer::new(chain);
    sync.peers.connected(1);
    let block = Block {
        header: header_at(1),
        transactions: Vec::new(),
    };
    assert_eq!(sync.process_new_block(0, block), BlockAcceptance::AlreadyKnown);
    assert_eq!(sync.peers.misbehavior_at(0), 0);
}

#[test]
fn relay_process_routes_and_deduplicates() {
    let chain = mk_chain(1, 1);
    let mut sync = Synchronizer::new(chain);
    sync.peers.connected(1);
    sync.peers.connected(2);
    let mut relay = RelayProtocol::new(TxPool::new());
    let t = Transaction { hash: h(777) };
    match relay.process(&mut sync, 1, Payload::Transaction(t)) {
        RelayResponse::Forward { targets } => assert_eq!(targets, vec![2]),
        _ => panic!("first delivery should be forwarded"),
    }
    assert!(matches!(
        relay.process(&mut sync, 2, Payload::Transaction(t)),
        RelayResponse::Nothing
    ));
    // an unknown-block transaction request stays silent
    let request = BlockTransactionsRequest {
        hash: h(31337),
        indexes: vec![0],
    };
    assert!(matches!(
        relay.process(&mut sync, 1, Payload::BlockTransactionsRequest(request)),
        RelayResponse::Nothing
    ));
}

#[test]
fn misbehavior_threshold_requests_disconnect() {
    let mut peers = PeerRegistry::new();
    peers.connected(1);
    assert!(!peers.should_disconnect(0));
    peers.add_misbehavior_at(0, 99);
    assert!(!peers.should_disconnect(0));
    peers.add_misbehavior_at(0, 1);
    assert!(peers.should_disconnect(0));
    // the score saturates instead of wrapping
    peers.add_misbehavior_at(0, u64::MAX);
    assert_eq!(peers.misbehavior_at(0), u64::MAX);
}

#[test]
fn sync_rounds_stay_balanced_across_batches() {
    let chain = mk_chain(1, 1);
    let sync = Synchronizer::new(chain);
    let mut protocol = SyncProtocol::new(sync);
    protocol.connected(9);
    let _ = protocol.start(0);
    assert_eq!(protocol.synchronizer.n_sync, 1);
    // a full batch continues the same round: still one round running
    let full: Vec<Header> = (1..=2000).map(header_at).collect();
    let out = protocol.handle_headers(9, &HeadersMessage { headers: full });
    assert_eq!(out.len(), 1);
    assert_eq!(protocol.synchronizer.n_sync, 1);
    // the short batch ends it: the counter returns to zero, so the next
    // timer tick may start a fresh round
    let short = vec![header_at(2001)];
    let _ = protocol.handle_headers(9, &HeadersMessage { headers: short });
    assert_eq!(protocol.synchronizer.n_sync, 0);
    assert!(protocol.timeout(SEND_GET_HEADERS_TOKEN));
}

#[test]
fn headers_batch_with_unknown_parent_rejected() {
    let chain = mk_chain(1, 1);
    let mut sync = Synchronizer::new(chain);
    sync.peers.connected(5);
    // contiguous in itself, but the first parent is not a known header
    let mut first = header_at(7);
    first.parent_hash = h(6);
    let batch = HeadersMessage {
        headers: vec![first, header_at(8)],
    };
    let outcome = sync.handle_headers(0, &batch);
    assert_eq!(outcome, HeadersOutcome::RejectedBroken);
    assert_eq!(sync.chain.header_count(), 1);
    assert_eq!(sync.peers.misbehavior_at(0), 1);
    assert_eq!(sync.peers.best_known_at(0), None);
}

#[test]
fn short_batch_from_inactive_peer_keeps_count() {
    // an unsolicited short batch must not push n_sync below the number of
    // peers actually in a round
    let chain = mk_chain(1, 1);
    let mut sync = Synchronizer::new(chain);
    sync.peers.connected(5);
    sync.n_sync = 3;
    let batch = HeadersMessage {
        headers: vec![header_at(1)],
    };
    let outcome = sync.handle_headers(0, &batch);
    assert_eq!(outcome, HeadersOutcome::AcceptedComplete);
    assert_eq!(sync.n_sync, 3);
}

#[test]
fn block_transactions_request_skips_out_of_range_indexes() {
    let chain = mk_chain(1, 1);
    let mut sync = Synchronizer::new(chain);
    assert!(sync.chain.store_header(header_at(1)));
    let tx_a = Transaction { hash: h(1) };
    let tx_b = Transaction { hash: h(2) };
    let block = Block {
        header: header_at(1),
        transactions: vec![tx_a, tx_b],
    };
    assert_eq!(sync.chain.process_block(block), BlockAcceptance::Accepted);
    let relay = RelayProtocol::new(TxPool::new());
    // one out-of-range index in the middle is silently omitted
    let request = BlockTransactionsRequest {
        hash: h(1),
        indexes: vec![1, 99, 0],
    };
    let reply = relay
        .handle_block_transactions_request(&sync, &request)
        .unwrap();
    assert_eq!(reply.transactions, vec![tx_b, tx_a]);
}

#[test]
fn short_id_collision_resolves_to_last_candidate() {
    // two transactions whose hashes differ but collide on the short ID
    // (the keyed mix cancels equal changes to the first and last words)
    let tx_a = Transaction {
        hash: Hash256 { w0: 1, w1: 2, w2: 3, w3: 4 },
    };
    let tx_b = Transaction {
        hash: Hash256 { w0: 1 ^ 5, w1: 2, w2: 3, w3: 4 ^ 5 },
    };
    let header = header_at(1);
    let (k0, k1) = short_transaction_id_keys(9, &header);
    assert_ne!(tx_a.hash, tx_b.hash);
    assert_eq!(
        short_transaction_id(k0, k1, &tx_a.hash),
        short_transaction_id(k0, k1, &tx_b.hash)
    );
    let mut pool = TxPool::new();
    assert!(pool.add_to_memory_pool(tx_a));
    assert!(pool.add_to_memory_pool(tx_b));
    let relay = RelayProtocol::new(pool);
    let compact = CompactBlock {
        header,
        nonce: 9,
        short_ids: vec![short_transaction_id(k0, k1, &tx_a.hash)],
        prefilled: Vec::new(),
    };
    // last writer wins: the later pool candidate overwrites the earlier
    let (block, missing) = relay.reconstruct_block(&compact, &Vec::new());
    assert!(missing.is_none());
    assert_eq!(block.unwrap().transactions, vec![tx_b]);
}

#[test]
fn initialize_registers_both_timers() {
    let chain = mk_chain(1, 1);
    let sync = Synchronizer::new(chain);
    let protocol = SyncProtocol::new(sync);
    let timers = protocol.initialize();
    assert_eq!(timers, vec![(SEND_GET_HEADERS_TOKEN, 100), (BLOCK_FETCH_TOKEN, 100)]);
}
