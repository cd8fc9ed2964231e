//! Block synchronization and relay core of a peer-to-peer blockchain node.
//!
//! The core brings the local chain up to the network tip by exchanging
//! headers and fetching block bodies from several peers in parallel, and
//! propagates new transactions and blocks, including a compact-block
//! reconstruction path against the local transaction pool. The connection
//! substrate, the byte-level codec and the chain and pool engines are
//! external collaborators: the core works on logical messages and plain
//! values, and every state transition here is verified.

pub mod chain;
pub mod peers;
pub mod protocol;
pub mod queue;
pub mod relay;
pub mod shortid;
pub mod sync;
pub mod types;
