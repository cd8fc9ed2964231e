//! Core data model of the sync and relay protocols: hashes, headers,
//! transactions, blocks, compact blocks and the logical wire messages.

use vstd::prelude::*;

verus! {

/// A 256-bit hash, stored as four 64-bit words (most significant first).
#[derive(PartialEq, Eq, Structural, Clone, Copy, Debug)]
pub struct Hash256 {
    pub w0: u64,
    pub w1: u64,
    pub w2: u64,
    pub w3: u64,
}

impl Hash256 {
    /// The all-zero hash, used as `hash_stop` meaning "no stop".
    pub fn zero() -> (r: Hash256)
        ensures
            r == (Hash256 { w0: 0, w1: 0, w2: 0, w3: 0 }),
    {
        Hash256 { w0: 0, w1: 0, w2: 0, w3: 0 }
    }
}

/// A block header descriptor: its own hash, its parent's hash, its height
/// and the total difficulty of the chain ending in it.
#[derive(PartialEq, Eq, Structural, Clone, Copy, Debug)]
pub struct Header {
    pub hash: Hash256,
    pub parent_hash: Hash256,
    pub number: u64,
    pub total_difficulty: u64,
}

/// A transaction, identified by its hash. The pool engine that inspects
/// transaction contents is an external collaborator; the relay core only
/// ever reads the hash.
#[derive(PartialEq, Eq, Structural, Clone, Copy, Debug)]
pub struct Transaction {
    pub hash: Hash256,
}

/// A full block: a header and its transactions in positional order.
#[derive(Clone, Debug)]
pub struct Block {
    pub header: Header,
    pub transactions: Vec<Transaction>,
}

/// A transaction carried inside a compact block together with its
/// position in the block.
#[derive(PartialEq, Eq, Structural, Clone, Copy, Debug)]
pub struct PrefilledTransaction {
    pub index: u32,
    pub transaction: Transaction,
}

/// A compact block: a header, the nonce the short-ID keys are derived
/// from, the short IDs of the block's transactions in positional order,
/// and transactions prefilled by the sender.
#[derive(Clone, Debug)]
pub struct CompactBlock {
    pub header: Header,
    pub nonce: u64,
    pub short_ids: Vec<u64>,
    pub prefilled: Vec<PrefilledTransaction>,
}

/// Inventory entry kinds carried by `GetData`.
#[derive(PartialEq, Eq, Structural, Clone, Copy, Debug)]
pub enum InventoryType {
    MsgBlock,
    MsgTx,
    MsgCompactBlock,
}

/// One inventory entry of a `GetData` message.
#[derive(PartialEq, Eq, Structural, Clone, Copy, Debug)]
pub struct Inventory {
    pub inv_type: InventoryType,
    pub hash: Hash256,
}

/// A `GetHeaders` request: a locator (sparse descending ancestor hashes)
/// and a stop hash (all-zero meaning "as many as you will send").
#[derive(Clone, Debug)]
pub struct GetHeadersMessage {
    pub version: u32,
    pub block_locator_hashes: Vec<Hash256>,
    pub hash_stop: Hash256,
}

/// A `Headers` response: consecutive headers along the sender's best chain.
#[derive(Clone, Debug)]
pub struct HeadersMessage {
    pub headers: Vec<Header>,
}

/// A `GetData` request for block bodies or transactions.
#[derive(Clone, Debug)]
pub struct GetDataMessage {
    pub inventory: Vec<Inventory>,
}

/// A request for the transactions of a block at the given indices, sent
/// when compact-block reconstruction found some short IDs missing.
#[derive(Clone, Debug)]
pub struct BlockTransactionsRequest {
    pub hash: Hash256,
    pub indexes: Vec<u32>,
}

/// The transactions answering a `BlockTransactionsRequest`.
#[derive(Clone, Debug)]
pub struct BlockTransactionsMessage {
    pub hash: Hash256,
    pub transactions: Vec<Transaction>,
}

/// The logical wire frame: a discriminated union of the protocol messages.
/// Decoding bytes into this union is the substrate codec's job and out of
/// the core's scope.
#[derive(Clone, Debug)]
pub enum Payload {
    GetHeaders(GetHeadersMessage),
    Headers(HeadersMessage),
    GetData(GetDataMessage),
    Block(Block),
    Transaction(Transaction),
    CompactBlock(CompactBlock),
    BlockTransactionsRequest(BlockTransactionsRequest),
    BlockTransactions(BlockTransactionsMessage),
}

/// Peer identifier handed out by the connection substrate.
pub type PeerId = u64;

/// Timer token identifying which periodic timer fired.
pub type TimerToken = u64;

/// Token of the periodic timer that triggers header requests.
pub const SEND_GET_HEADERS_TOKEN: TimerToken = 1;

/// Token of the periodic timer that triggers block-body fetching.
pub const BLOCK_FETCH_TOKEN: TimerToken = 2;

/// Cap on simultaneous block requests kept in flight per peer.
pub const MAX_BLOCKS_IN_FLIGHT_PER_PEER: usize = 16;

/// Cap on headers carried by one `Headers` response.
pub const MAX_HEADERS_PER_MSG: usize = 2000;

/// In-flight block requests older than this many milliseconds have expired.
pub const BLOCK_DOWNLOAD_TIMEOUT_MS: u64 = 30000;

/// Capacity of the bounded task queue.
pub const TASK_QUEUE_CAPACITY: usize = 65535;

/// Interval of both periodic timers, in milliseconds.
pub const TIMER_INTERVAL_MS: u64 = 100;

/// Misbehavior score at which the substrate is asked to disconnect the
/// peer.
pub const MISBEHAVIOR_DISCONNECT_THRESHOLD: u64 = 100;

} // verus!
