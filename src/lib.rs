//! A durable, query-capable memory engine: binary codec, container format,
//! write-ahead log, frame lifecycle store, backup chains and retrieval helpers.

pub mod backup;
pub mod codec;
pub mod format;
pub mod io;
pub mod orchestration;
pub mod rag;
pub mod session;
pub mod store;
pub mod structured;
pub mod text;
pub mod textsearch;
pub mod vector;
pub mod wal;

use vstd::prelude::*;

verus! {

/// Marker naming this library.
pub fn bootstrap_marker() -> (r: &'static str)
    ensures
        r@ == "rax-memory"@,
{
    "rax-memory"
}

} // verus!
