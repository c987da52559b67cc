//! The decisions behind the C interface to `wgpu`: which ranges of a mapped buffer may be handed
//! out, which handles are still in use, what the library can do, and which procedures it has.

pub mod buffers;
pub mod capabilities;
pub mod conv;
pub mod native;
pub mod proc_table;
pub mod report;
pub mod sdk;
