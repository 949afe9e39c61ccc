//! Classic data structures and algorithms, verified with Verus.
//!
//! The centerpiece is the pair of in-memory caches in [`lru_cache`] and
//! [`lfu_cache`]: fixed-capacity key-value stores with least-recently-used
//! and least-frequently-used eviction, specified and proved down to the
//! exact sequence of entries they hold.

pub mod binary_heap;
pub mod bloom_filter;
pub mod deque;
pub mod dynamic_array;
pub mod dynamic_programming;
pub mod error;
pub mod fenwick_tree;
pub mod graph;
pub mod hash_table;
pub mod keys;
pub mod lfu_cache;
pub mod lru_cache;
pub mod monotonic_queue;
pub mod queue;
pub mod searching;
pub mod segment_tree;
pub mod sorting;
pub mod stack;
pub mod strings;
pub mod traits;
pub mod union_find;
