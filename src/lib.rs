//! A two-dimensional space allocator: a fixed rectangular arena hands out
//! non-overlapping axis-aligned sub-rectangles and takes them back.

pub mod arena;
mod error;
pub mod laws;
pub mod rect;
pub mod tiling;

pub use arena::{coalesce_all, Arena, ArenaView};
pub use error::Error;
pub use rect::Rectangle;
