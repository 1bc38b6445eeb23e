//! The traversal protocol: every cursor walks a half-open range of cells,
//! skips the vacant ones, and yields live elements only.  Forward and
//! backward cursors share one range and meet in the middle.

mod into_iter;
mod iter;
mod iter_mut;

pub use into_iter::IntoIterFl;
pub use iter::IterFl;
pub use iter_mut::IterMutFl;
