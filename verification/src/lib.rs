//! A sampling profiler core: call-tree aggregation of captured stack
//! backtraces, CPU-time accounting, symbol caching, and report rendering.

pub mod aggregate;
pub mod cancel_status;
pub mod error;
pub mod module_info;
pub mod path;
pub mod process_info;
pub mod process_sample;
pub mod raw_sample;
pub mod sample_node;
pub mod sample_point;
pub mod sampling_loop;
pub mod symbol_table;
pub mod text;
pub mod thread_sample;

use vstd::prelude::*;

verus! {

/// Identifier of an operating-system process.
pub type Pid = u32;

/// Identifier of an operating-system thread.
pub type Tid = u32;

} // verus!
