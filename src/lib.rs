//! A command-processing pipeline: text commands are parsed by a pool of
//! workers and applied by a single owner of an in-memory key/value store.
//!
//! The library holds the decisions of every component (parsing, applying a
//! command to the store, the worker and state-owner steps, the pool's
//! lifecycle and its configuration) and a model of the pipeline over which
//! its delivery and termination laws are proved.
pub mod config;
pub mod handler;
pub mod parser;
pub mod pipeline;
pub mod thread;
