//! Lazy, shared, read-only views into parsed JSON and YAML documents, and
//! the small pieces of logic around them that scripts use: durations written
//! as text, a bounded cache of compiled regexes, terminal color names, byte
//! buffers and deferred closures.
//!
//! A parsed document is held once, as an arena of nodes in which every
//! composite node refers to its children by position. Views are handles on one
//! node of a shared document: navigating, materializing and iterating never
//! copy a subtree.

pub mod bytes;
pub mod document;
pub mod duration;
pub mod eager;
pub mod iter;
pub mod laws;
pub mod pointer;
pub mod patterns;
pub mod terminal;
pub mod text;
pub mod util;
pub mod view;
