//! Decoding on the local MLX runtime: everything that is decided around the
//! tensors.

pub mod batch;
pub mod config;
pub mod constraint;
pub mod decode;
pub mod jobs;
pub mod markup;
pub mod pipeline;
pub mod prefix;
pub mod speculation;
pub mod worker;
