//! The file layout engine: what a reader plans before it reads.

pub mod filtering;
pub mod column;
