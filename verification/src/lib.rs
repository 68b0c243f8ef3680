//! Decision logic of a local installation pipeline.
//!
//! The pipeline deploys a bundled application stack onto one machine: it
//! stages the payload (by mirroring a directory tree or unpacking an
//! archive), installs a database engine, applies the database schema,
//! registers an operating-system service and starts it.
//!
//! Nothing here touches the filesystem or starts a process. Every component
//! is a small machine that is fed what the caller observed and answers with
//! the next thing to do, so that each decision is stated by a contract.

pub mod archive;
pub mod error;
pub mod invoker;
pub mod mirroring;
pub mod model;
pub mod paths;
pub mod pipeline;
pub mod replicator;
pub mod rules;
pub mod staging;
pub mod text;
