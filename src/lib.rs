//! Linker directives for the MSVC toolchain, assembled into a fixed-size
//! byte buffer whose layout is proved to match the canonical text of each
//! directive.

pub mod buffer;
pub mod directive;
pub mod msvc;

pub use buffer::{has_quote, to_hex_u32, Buffer};
pub use directive::{assemble, total_size, Directive};
pub use msvc::{ArgSize, LinkArgs};
