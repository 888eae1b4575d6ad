//! Consensus core of a PBFT-style blockchain node: views and quorum arithmetic,
//! the canonical codec and hash of blocks, the ledger with its chain linkage and
//! caches, the transaction pool, vote tallying and the per-view state machine,
//! with the bounded buffers and timer around it.

pub mod block;
pub mod buffer;
pub mod bus;
pub mod cache;
pub mod codec;
pub mod ledger;
pub mod meta;
pub mod minter;
pub mod pbft;
pub mod signer;
pub mod store;
pub mod timer;
pub mod txpool;
pub mod validators;
pub mod view;
pub mod votes;
