//! Parallel loader for graph data held in a sharded document database.
//!
//! The crate models the two core subsystems of such a loader: the sharded
//! retrieval engine (topology discovery, retrieval-strategy selection and the
//! dump/cursor session state machines that drive paginated fetching with
//! guaranteed cleanup) and the streaming graph builder (folding batches of
//! documents into in-memory graph representations with strict key/index
//! invariants).  Network transport itself stays outside the library; callers
//! hand in the raw bytes that came back from the server.

pub mod util;

pub mod assoc;

pub mod json;

pub mod decode;

pub mod shard;

pub mod info;

pub mod config;

pub mod aql;

pub mod dump;

pub mod graph;

pub mod graph_nx;

pub mod receive;
