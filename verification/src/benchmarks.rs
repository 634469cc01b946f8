//! What the benchmarks decide before and around a launch: which variant runs with which
//! arguments, how work is cut up, and in which order it is given out.

pub mod args;
pub mod elemwise;
pub mod gemm;
pub mod jit;
pub mod measure;
pub mod modes;
pub mod queue;
pub mod ranks;
pub mod workload;
