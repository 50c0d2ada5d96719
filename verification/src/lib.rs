//! Resumable indexing of the transactions whose Taproot leaf script uses
//! `OP_CAT`.
//!
//! The crate holds the decisions of the indexer and leaves the talking to a
//! node and to a disk to the program that drives it:
//!
//! - `witness` tests the witness of one input, with three strategies of
//!   rising precision;
//! - `scan` lists the inputs of a block that pass, and picks the matched
//!   transactions;
//! - `matches` and `store` keep the matches of each height, each transaction
//!   once, together with the checkpoint;
//! - `indexer` is the scan as a state machine: it asks for blocks, for spent
//!   outputs and for durable writes, one at a time, and moves the checkpoint
//!   only behind a height whose matches are durable;
//! - `report` counts and lists what the index holds;
//! - `codec` gives the keys and the encoding of the checkpoint in a
//!   key-value store;
//! - `script` is what the `bitcoin` crate says of a script.

pub mod bytes;
pub mod codec;
pub mod error;
pub mod indexer;
pub mod matches;
pub mod report;
pub mod scan;
pub mod script;
pub mod store;
pub mod tx;
pub mod witness;
