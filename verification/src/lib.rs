//! An interactive reflection and dispatch engine.
//!
//! A REPL embeds a graph of nested data values (the *nodes*).  Each node
//! carries a descriptor: an ordered table of named fields and an ordered
//! table of named methods.  A dotted path expression such as
//! `parent.child.add(1, 2)` is parsed, resolved field by field through the
//! graph, and its final segment is either read as a field or invoked as a
//! method; the outcome is rendered as a single human-readable line.  A
//! completion query resolves all but the last segment of a partially typed
//! line and lists the field and method names that could come next.


pub mod args;
pub mod complete;
pub mod eval;
pub mod interactive;
pub mod laws;
pub mod node;
pub mod numbers;
pub mod pathexpr;
pub mod render;
