//! Fixed-capacity collections that live entirely on the stack.

pub mod collections;
