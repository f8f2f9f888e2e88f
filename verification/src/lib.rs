//! A peer-to-peer synchronization engine for a single-authority block chain.
//!
//! The crate keeps a node's view of the best chain and its transaction
//! mempool convergent with its peers: peers exchange compact inventories of
//! short transaction identifiers, pull blocks one by one until they reach the
//! best advertised tip, and reconcile mempools by requesting only the
//! transactions they are missing.
//!
//! The engine itself is pure: every public operation takes plain values
//! (the current time, a message) and returns the messages to send, so a host
//! only has to deliver them. Hashing and signing are done by `merlin`
//! transcripts and `starsig` Schnorr signatures behind small trusted
//! wrappers; everything else is verified.

pub mod block;
pub mod encoding;
pub mod errors;
pub mod mempool;
pub mod merkle;
pub mod protocol;
pub mod rng;
pub mod shortid;
pub mod signature;
pub mod state;
pub mod storage;
pub mod transcript;
pub mod txlog;
pub mod value;
