//! Execution core of a vectorized dataflow engine: columnar batches, single-slot
//! ports, processors and sinks, and the key-encoding methods used for grouping.

pub mod column;
pub mod contributors_table;
pub mod datablock;
pub mod error;
pub mod group_by_hash;
pub mod hash;
pub mod pipeline;
pub mod port;
pub mod processor;
pub mod sink;
pub mod source;
pub mod transform;
pub mod union_receive_sink;
