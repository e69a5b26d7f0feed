//! A depth-bounded web crawler: link extraction from tag events and the
//! decisions of the recursive, concurrent traversal, with their contracts.

pub mod address;
pub mod crawl;
pub mod links;
