//! The Tile IR bytecode format.

pub mod attribute_forms;
pub mod attributes;
pub mod build_laws;
pub mod container_laws;
pub mod decoder;
pub mod dump;
pub mod dump_forms;
pub mod encoding;
pub mod enums;
pub mod functions;
pub mod kernel_forms;
pub mod module_bytes;
pub mod module_forms;
pub mod module_laws;
pub mod op_forms;
pub mod moves;
pub mod op_bytes;
pub mod op_laws;
pub mod opcode;
pub mod ops;
pub mod reader;
pub mod section_forms;
pub mod sections;
pub mod skip;
pub mod table_laws;
pub mod text_laws;
pub mod type_forms;
pub mod types;
pub mod version_bodies;
pub mod version_laws;
pub mod wire_laws;

pub use enums::BytecodeVersion;
pub use opcode::Opcode;
