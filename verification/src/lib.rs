//! Tile IR: the intermediate representation of tile kernels, its bytecode, and
//! the host-side rules of the kernels and benchmarks built on it.

pub mod benchmarks;
pub mod builder;
pub mod bytecode;
pub mod error;
pub mod ir;
pub mod kernels;
pub mod text;

pub use bytecode::decoder::{bytecode_version, decode_bytecode, decode_module};
pub use error::Error;
