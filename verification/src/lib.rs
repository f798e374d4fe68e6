//! Typed retrieval from three independent backends: a blockchain RPC node, a
//! REST-fronted relational store and a document database.
//!
//! The library holds what is decided and computed; its caller does the
//! network round trips and hands in what came back as plain values.
//!
//! - [`pipeline`]: the stages of an aggregation pipeline and the documents
//!   that ask the store for them.
//! - [`summary`]: the typed form of a result group, and its decoder.
//! - [`docstore`]: the document backend, which gathers summaries from the
//!   store's cursor one event at a time.
//! - [`model`]: the four stages run over a collection held in memory.
//! - [`guarantees`]: what the summary pipeline promises, proved over the model.
//! - [`relational`]: employee rows out of the relational store's reply.
//! - [`rpc`]: the balance of an account out of the node's reply.
//! - [`orchestrator`]: the run that reports the three outcomes together.
//! - [`document`]: the documents themselves, and what is assumed of them.
//! - [`error`], [`config`]: the failures, and the secrets of a run.

pub mod config;
pub mod docstore;
pub mod document;
pub mod error;
pub mod guarantees;
pub mod model;
pub mod orchestrator;
pub mod pipeline;
pub mod relational;
pub mod rpc;
pub mod summary;
