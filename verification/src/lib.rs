//! The decisions of a subgraph instance manager: when subgraphs are started and stopped,
//! how a running subgraph goes through its blocks, and how a block is processed.
//!
//! Nothing here talks to a store, to a chain or to a runtime. Each procedure is a state that
//! takes in what has happened and gives back what there is to do; whoever runs it performs
//! those actions and hands in the answers.

#![allow(unused_imports)]
pub mod block;
pub mod block_course;
pub mod block_laws;
pub mod block_proofs;
pub mod config;
pub mod context;
pub mod data_source;
pub mod error;
pub mod history;
pub mod instances;
pub mod manager;
pub mod metrics;
pub mod progress;
pub mod proof_of_indexing;
pub mod run;
pub mod run_laws;
pub mod start;
pub mod string_map;
pub mod text;
pub mod trigger;
