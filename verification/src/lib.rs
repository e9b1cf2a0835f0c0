//! A verified model of a global-allocator adapter over a host's C-style
//! allocation primitives.
//!
//! The adapter translates typed allocation requests (size plus a power-of-two
//! alignment) into calls on four host primitives: aligned allocation, in-place
//! resize, free, and byte fill.  The host is modelled by [`host::HostMem`],
//! which hands out integer-valued handles and tracks each block's address,
//! contents and liveness; the adapter itself, [`adapter::LibcAlloc`], is a
//! stateless marker value.

pub mod adapter;
pub mod align;
pub mod host;

pub use adapter::realloc_fallback;
pub use adapter::LibcAlloc;
pub use align::copy_len;
pub use align::effective_align;
pub use align::use_direct_resize;
pub use host::HostMem;
