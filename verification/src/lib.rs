//! Verified core of a subnet participant node: transaction builders, the
//! compact binary codec for chain runtime-query responses, key handling,
//! wallet-seed parsing, and the node lifecycle state machine.

pub mod axon;
pub mod codec;
pub mod config;
pub mod keys;
pub mod neuron;
pub mod protocol;
pub mod records;
pub mod wallet;
pub mod weights;
