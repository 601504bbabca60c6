//! Verified core of a bridge between a single-threaded host and a tensor
//! inference engine: the dtype table, the tensor codec in both directions,
//! and the preparation of load and infer calls.

pub mod dtype;
pub mod layout;
pub mod codec;
pub mod load;
