//! The encodings: how each lays out its children, and the kernels it has of its own.

pub mod chunked;
pub mod varbin;
pub mod chunked_filter;
pub mod sparse;
pub mod bitpacked;
pub mod structs;
pub mod chunked_variants;
pub mod fsst;
pub mod flat;
