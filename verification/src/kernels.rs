//! The host side of the tile kernels: which kernels there are, how cache blocks are
//! laid out, and how work is cut into tiles and handed to programs.

pub mod argmax;
pub mod attention;
pub mod fused;
pub mod head_view;
pub mod kind;
pub mod kv_cache;
pub mod kvbm;
pub mod positional;
pub mod rows;
pub mod schedule;

pub use kind::{KernelKind, TILE_KERNEL_KINDS};
