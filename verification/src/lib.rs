//! A priority queue implemented with a binary heap, ordered by a pluggable
//! comparator: max-heap, min-heap, or a caller-supplied ordering or key.
//!
//! Insertion and popping the top element have `O(log n)` time complexity.
//! Checking the top element is `O(1)`. A vector can be turned into a heap
//! in place in `O(n)`, and a heap into a sorted vector in place, giving an
//! `O(n log n)` in-place heapsort.

pub mod comparator;
pub mod heap;
pub mod hole;
pub mod iter;
mod vecops;

pub use comparator::Comparator;
pub use comparator::FnComparator;
pub use comparator::KeyComparator;
pub use comparator::KeyFn;
pub use comparator::MaskKey;
pub use comparator::MaxComparator;
pub use comparator::MinComparator;
pub use heap::BinaryHeap;
pub use heap::PeekMut;
pub use iter::Drain;
pub use iter::IntoIter;
pub use iter::IntoIterSorted;
pub use iter::Iter;
