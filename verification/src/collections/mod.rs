//! Allocation-free container types.

pub mod stacklist;
