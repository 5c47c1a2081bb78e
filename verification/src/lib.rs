//! Tracking of flashblocks: the partial blocks that a sequencer publishes while a block is still
//! being built.
//!
//! Flashblocks of one block form a sequence. [`sequence`] collects them while they arrive and
//! checks them once the block is complete, [`cache`] keeps the last complete sequences and picks
//! the one to build on the local chain tip, [`service`] decides when a build starts, and
//! [`consensus`] decides what the engine is told about a complete sequence.

pub mod behaviour;
pub mod broadcast;
pub mod cache;
pub mod consensus;
pub mod flashblock;
pub mod laws;
pub mod order;
pub mod primitives;
pub mod reads;
pub mod ring;
pub mod sequence;
pub mod service;
pub mod transactions;
