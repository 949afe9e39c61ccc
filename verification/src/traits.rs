//! Common interfaces the concrete data structures implement.

use vstd::prelude::*;
use core::cmp::Ordering;

verus! {

/// A data structure that has a length.
pub trait Container {
    /// Returns the number of elements in the container.
    fn len(&self) -> usize;

    /// Returns `true` if the container contains no elements.
    fn is_empty(&self) -> bool;
}

/// A data structure that supports search operations.
pub trait Searchable<T> {
    /// Searches for a value and returns its index if found.
    fn search(&self, value: &T) -> Option<usize>;

    /// Returns `true` if the container contains the specified value.
    fn contains(&self, value: &T) -> bool;
}

/// An ordered data structure (such as a search tree or a heap).
pub trait Ordered<T: Ord>: Container {
    /// Returns a reference to the minimum element.
    fn min(&self) -> Option<&T>;

    /// Returns a reference to the maximum element.
    fn max(&self) -> Option<&T>;
}

/// A tree-like data structure.
pub trait Tree<T> {
    /// Returns the height of the tree.
    fn height(&self) -> usize;

    /// Returns `true` if the tree is balanced.
    fn is_balanced(&self) -> bool;

    /// Returns the number of nodes in the tree.
    fn size(&self) -> usize;
}

/// A sorting algorithm.
pub trait Sorter<T: Ord> {
    /// Sorts the vector in ascending order.
    fn sort(&self, data: &mut Vec<T>);

    /// Sorts the vector using a custom comparator.
    fn sort_by<F>(&self, data: &mut Vec<T>, compare: F) where F: FnMut(&T, &T) -> Ordering;

    /// Returns `true` if this is a stable sorting algorithm.
    fn is_stable(&self) -> bool;

    /// Returns the name of the sorting algorithm.
    fn name(&self) -> &'static str;
}

/// A graph data structure.
pub trait Graph {
    /// Returns the number of vertices in the graph.
    fn vertex_count(&self) -> usize;

    /// Returns the number of edges in the graph.
    fn edge_count(&self) -> usize;

    /// Returns `true` if the graph is directed.
    fn is_directed(&self) -> bool;

    /// Returns `true` if there is an edge from `u` to `v`.
    fn has_edge(&self, u: usize, v: usize) -> bool;

    /// Returns the neighbors of vertex `v`.
    fn neighbors(&self, v: usize) -> Vec<usize>;
}

/// A cache data structure.
pub trait Cache<K, V> {
    /// Gets a value from the cache.
    fn get(&mut self, key: &K) -> Option<&V>;

    /// Puts a key-value pair into the cache.
    fn put(&mut self, key: K, value: V);

    /// Returns the capacity of the cache.
    fn capacity(&self) -> usize;

    /// Returns the current number of items in the cache.
    fn len(&self) -> usize;

    /// Returns `true` if the cache is empty.
    fn is_empty(&self) -> bool;
}

} // verus!
