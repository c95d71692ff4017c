//! A fixed-capacity, double-ended bump allocator for early system bring-up.
//!
//! One arena serves two disciplines at once: byte allocations grow upward
//! from the low end, page allocations grow downward from the high end.
//! The allocator works on offsets into the arena; whoever embeds it owns the
//! backing memory and adds the arena's base address to each offset.

pub mod align;
pub mod arena;
pub mod error;
pub mod laws;
pub mod model;

pub use align::{align_down, align_up};
pub use arena::EarlyAllocator;
pub use error::AllocError;
pub use model::{ArenaState, PAGE_SIZE};
