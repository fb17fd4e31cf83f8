//! An incremental streaming-relational engine facade.
//!
//! The crate models dataflow graphs whose edges carry multisets of typed
//! rows, marshals external records (CSV text, JSON values, in-memory
//! literals) into layout-conformant row buffers, executes the graph tick by
//! tick, and consolidates sink output back into a portable literal form.

pub mod layout;
pub mod literal;
pub mod order;
pub mod consolidate;
pub mod sqlops;
pub mod interval;
pub mod row;
pub mod demands;
pub mod graph;
pub mod circuit;
pub mod json;
pub mod csvdata;
pub mod laws;
