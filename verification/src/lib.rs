//! Safely escaped URL paths from a template call.
//!
//! A path is built from literal fragments, which the developer wrote, and
//! from values, which come from outside: `literal0 + value0 + literal1 + ..`.
//! Literals keep their `/`; in a value every byte that is not unreserved is
//! percent-encoded, `/` included, so a value never opens a path segment.
//!
//! - `percent_encode`: the table of escapes and the two policies.
//! - `template`: the path of a call, on text.
//! - `arena`: the memory that the engine shares with its host, with pointers
//!   as checked handles.
//! - `descriptor`: byte strings in the arena, as the host names them.
//! - `engine`: the path of a call, from descriptors to a descriptor.
pub mod arena;
pub mod descriptor;
pub mod engine;
pub mod error;
pub mod percent_encode;
pub mod template;

pub use arena::{allocate, dealloc, Arena};
pub use descriptor::{WasmString, WasmStrings};
pub use engine::interpolate;
pub use error::Error;
