//! Compute kernels: each returns a new array and leaves its input untouched.

pub mod mask;
pub mod search_sorted;
pub mod scalar_at;
pub mod slice;
pub mod take;
pub mod filter;
pub mod laws;
pub mod compare;
pub mod boolean;
pub mod cast;
