//! Errors of the library.

use vstd::prelude::*;
use vstd::string::StringExecFns;

use crate::bytecode::enums::ALIGNMENT_BYTE;
use crate::ir::{scalar_debug_name, ScalarType};
use crate::bytecode::opcode::{opcode_debug_name, Opcode};
use crate::text::{push_dec, push_hex_byte};

verus! {

/// An error of the library, with its message.
#[derive(Clone, Debug, PartialEq, Eq)]
pub enum Error {
    /// Bytecode that could not be written or read.
    BytecodeWrite(String),
}

/// What is wrong with a bytecode buffer.
#[derive(Clone, Copy, Debug, PartialEq, Eq, Structural)]
pub enum DecodeError {
    UnexpectedEnd,
    VarintOverflow,
    PaddingByte(u8),
    InvalidMagic,
    StringOffset,
    SubByteFloat,
    NotAFloat(ScalarType),
    AttrTypeIndex,
    AttrStringIndex,
    DenseConstIndex,
    HintsEntryTag,
    UnknownAttributeTag(u64),
    HintsArchIndex,
    HintsEntryValue,
    DictKeyIndex,
    InvalidPaddingValue(u8),
    NotATensorView,
    PointeeNotScalar,
    TileElement,
    TensorViewElement,
    FuncInputIndex,
    FuncResultIndex,
    UnknownTypeTag(u64),
    ResultTypeIndex,
    OperandIndex,
    StringIndex,
    ConstantIndex,
    ConstantWithoutResult,
    UnhandledOp(Opcode),
    UnknownOpcodeInBlock,
    UnknownOpcodeInBody,
    FuncNameIndex,
    FuncSigIndex,
    SignatureNotFunc,
}

impl DecodeError {
    /// The message of the error, without its prefix.
    pub open spec fn reason(self) -> Seq<char> {
        match self {
            DecodeError::UnexpectedEnd => "unexpected end of data"@,
            DecodeError::VarintOverflow => "varint overflow"@,
            DecodeError::PaddingByte(b) => "expected padding byte 0x"@
                + crate::text::hex_byte_text(ALIGNMENT_BYTE) + ", got 0x"@
                + crate::text::hex_byte_text(b),
            DecodeError::InvalidMagic => "invalid magic number"@,
            DecodeError::StringOffset => "string offset out of range"@,
            DecodeError::SubByteFloat => "sub-byte float attribute decode not yet implemented"@,
            DecodeError::NotAFloat(s) => crate::ir::scalar_debug_text(s)
                + " is not a float scalar"@,
            DecodeError::AttrTypeIndex => "attr type index out of range"@,
            DecodeError::AttrStringIndex => "attr string index out of range"@,
            DecodeError::DenseConstIndex => "dense const index out of range"@,
            DecodeError::HintsEntryTag => "optimization_hints entry is not a dictionary"@,
            DecodeError::UnknownAttributeTag(t) => "unknown attribute tag "@
                + crate::text::dec_text(t as nat),
            DecodeError::HintsArchIndex => "opt-hints arch index out of range"@,
            DecodeError::HintsEntryValue => "opt-hints entry value is not a dictionary"@,
            DecodeError::DictKeyIndex => "dict key index out of range"@,
            DecodeError::InvalidPaddingValue(b) => "invalid padding value "@
                + crate::text::dec_text(b as nat),
            DecodeError::NotATensorView => "expected a tensor_view at referenced type index"@,
            DecodeError::PointeeNotScalar => "pointer pointee is not a scalar"@,
            DecodeError::TileElement => "tile element is not scalar/pointer"@,
            DecodeError::TensorViewElement => "tensor_view element is not a scalar"@,
            DecodeError::FuncInputIndex => "bad func input type idx"@,
            DecodeError::FuncResultIndex => "bad func result type idx"@,
            DecodeError::UnknownTypeTag(t) => "unknown type tag "@ + crate::text::dec_text(
                t as nat,
            ),
            DecodeError::ResultTypeIndex => "result type index out of range"@,
            DecodeError::OperandIndex => "operand value index out of range"@,
            DecodeError::StringIndex => "string index out of range"@,
            DecodeError::ConstantIndex => "constant index out of range"@,
            DecodeError::ConstantWithoutResult => "constant has no result type"@,
            DecodeError::UnhandledOp(op) => "op "@ + crate::bytecode::opcode::opcode_debug_text(op)
                + " not yet handled by the bytecode reader"@,
            DecodeError::UnknownOpcodeInBlock => "unknown opcode in block"@,
            DecodeError::UnknownOpcodeInBody => "unknown opcode in function body"@,
            DecodeError::FuncNameIndex => "func name index out of range"@,
            DecodeError::FuncSigIndex => "func sig index out of range"@,
            DecodeError::SignatureNotFunc => "function signature is not a func type"@,
        }
    }

    /// Appends the message of the error to `out`.
    fn push_reason(self, out: &mut String)
        ensures
            final(out)@ == old(out)@ + self.reason(),
    {
        match self {
            DecodeError::UnexpectedEnd => out.append("unexpected end of data"),
            DecodeError::VarintOverflow => out.append("varint overflow"),
            DecodeError::PaddingByte(b) => {
                out.append("expected padding byte 0x");
                push_hex_byte(out, ALIGNMENT_BYTE);
                out.append(", got 0x");
                push_hex_byte(out, b);
                assert(out@ =~= old(out)@ + self.reason());
            },
            DecodeError::InvalidMagic => out.append("invalid magic number"),
            DecodeError::StringOffset => out.append("string offset out of range"),
            DecodeError::SubByteFloat => out.append(
                "sub-byte float attribute decode not yet implemented",
            ),
            DecodeError::NotAFloat(s) => {
                out.append(scalar_debug_name(s));
                out.append(" is not a float scalar");
                assert(out@ =~= old(out)@ + self.reason());
            },
            DecodeError::AttrTypeIndex => out.append("attr type index out of range"),
            DecodeError::AttrStringIndex => out.append("attr string index out of range"),
            DecodeError::DenseConstIndex => out.append("dense const index out of range"),
            DecodeError::HintsEntryTag => out.append(
                "optimization_hints entry is not a dictionary",
            ),
            DecodeError::UnknownAttributeTag(t) => {
                out.append("unknown attribute tag ");
                push_dec(out, t);
                assert(out@ =~= old(out)@ + self.reason());
            },
            DecodeError::HintsArchIndex => out.append("opt-hints arch index out of range"),
            DecodeError::HintsEntryValue => out.append("opt-hints entry value is not a dictionary"),
            DecodeError::DictKeyIndex => out.append("dict key index out of range"),
            DecodeError::InvalidPaddingValue(b) => {
                out.append("invalid padding value ");
                push_dec(out, b as u64);
                assert(out@ =~= old(out)@ + self.reason());
            },
            DecodeError::NotATensorView => out.append(
                "expected a tensor_view at referenced type index",
            ),
            DecodeError::PointeeNotScalar => out.append("pointer pointee is not a scalar"),
            DecodeError::TileElement => out.append("tile element is not scalar/pointer"),
            DecodeError::TensorViewElement => out.append("tensor_view element is not a scalar"),
            DecodeError::FuncInputIndex => out.append("bad func input type idx"),
            DecodeError::FuncResultIndex => out.append("bad func result type idx"),
            DecodeError::UnknownTypeTag(t) => {
                out.append("unknown type tag ");
                push_dec(out, t);
                assert(out@ =~= old(out)@ + self.reason());
            },
            DecodeError::ResultTypeIndex => out.append("result type index out of range"),
            DecodeError::OperandIndex => out.append("operand value index out of range"),
            DecodeError::StringIndex => out.append("string index out of range"),
            DecodeError::ConstantIndex => out.append("constant index out of range"),
            DecodeError::ConstantWithoutResult => out.append("constant has no result type"),
            DecodeError::UnhandledOp(op) => {
                out.append("op ");
                out.append(opcode_debug_name(op));
                out.append(" not yet handled by the bytecode reader");
                assert(out@ =~= old(out)@ + self.reason());
            },
            DecodeError::UnknownOpcodeInBlock => out.append("unknown opcode in block"),
            DecodeError::UnknownOpcodeInBody => out.append("unknown opcode in function body"),
            DecodeError::FuncNameIndex => out.append("func name index out of range"),
            DecodeError::FuncSigIndex => out.append("func sig index out of range"),
            DecodeError::SignatureNotFunc => out.append("function signature is not a func type"),
        }
    }
}

impl Error {
    /// The message of the error.
    pub open spec fn message(self) -> Seq<char> {
        match self {
            Error::BytecodeWrite(m) => m@,
        }
    }
}

/// The message of a decoding error: the reason behind the prefix `decode: `.
pub open spec fn decode_message(kind: DecodeError) -> Seq<char> {
    "decode: "@ + kind.reason()
}

/// The error of the library for a decoding failure.
pub fn err(kind: DecodeError) -> (e: Error)
    ensures
        e.message() == decode_message(kind),
{
    let mut out = String::new();
    out.append("decode: ");
    kind.push_reason(&mut out);
    assert(out@ =~= decode_message(kind));
    Error::BytecodeWrite(out)
}
// ---- the messages ----

/// What ends too early, is too long, or has no magic number.
pub proof fn ends_are_named()
    ensures
        decode_message(DecodeError::UnexpectedEnd) == "decode: unexpected end of data"@,
        decode_message(DecodeError::VarintOverflow) == "decode: varint overflow"@,
        decode_message(DecodeError::InvalidMagic) == "decode: invalid magic number"@,
{
    reveal_strlit("decode: ");
    reveal_strlit("unexpected end of data");
    reveal_strlit("decode: unexpected end of data");
    assert(decode_message(DecodeError::UnexpectedEnd) =~= "decode: unexpected end of data"@);
    reveal_strlit("varint overflow");
    reveal_strlit("decode: varint overflow");
    assert(decode_message(DecodeError::VarintOverflow) =~= "decode: varint overflow"@);
    reveal_strlit("invalid magic number");
    reveal_strlit("decode: invalid magic number");
    assert(decode_message(DecodeError::InvalidMagic) =~= "decode: invalid magic number"@);
}

/// What is out of range in a table.
pub proof fn table_messages()
    ensures
        decode_message(DecodeError::StringOffset) == "decode: string offset out of range"@,
        decode_message(DecodeError::AttrTypeIndex) == "decode: attr type index out of range"@,
        decode_message(DecodeError::AttrStringIndex) == "decode: attr string index out of range"@,
        decode_message(DecodeError::DenseConstIndex) == "decode: dense const index out of range"@,
        decode_message(DecodeError::HintsArchIndex) == "decode: opt-hints arch index out of range"@,
        decode_message(DecodeError::DictKeyIndex) == "decode: dict key index out of range"@,
        decode_message(DecodeError::ResultTypeIndex) == "decode: result type index out of range"@,
{
    reveal_strlit("decode: ");
    reveal_strlit("string offset out of range");
    reveal_strlit("decode: string offset out of range");
    assert(decode_message(DecodeError::StringOffset) =~= "decode: string offset out of range"@);
    reveal_strlit("attr type index out of range");
    reveal_strlit("decode: attr type index out of range");
    assert(decode_message(DecodeError::AttrTypeIndex) =~= "decode: attr type index out of range"@);
    reveal_strlit("attr string index out of range");
    reveal_strlit("decode: attr string index out of range");
    assert(decode_message(DecodeError::AttrStringIndex) =~= "decode: attr string index out of range"@);
    reveal_strlit("dense const index out of range");
    reveal_strlit("decode: dense const index out of range");
    assert(decode_message(DecodeError::DenseConstIndex) =~= "decode: dense const index out of range"@);
    reveal_strlit("opt-hints arch index out of range");
    reveal_strlit("decode: opt-hints arch index out of range");
    assert(decode_message(DecodeError::HintsArchIndex) =~= "decode: opt-hints arch index out of range"@);
    reveal_strlit("dict key index out of range");
    reveal_strlit("decode: dict key index out of range");
    assert(decode_message(DecodeError::DictKeyIndex) =~= "decode: dict key index out of range"@);
    reveal_strlit("result type index out of range");
    reveal_strlit("decode: result type index out of range");
    assert(decode_message(DecodeError::ResultTypeIndex) =~= "decode: result type index out of range"@);
}

/// What is wrong with an operation.
pub proof fn operation_messages()
    ensures
        decode_message(DecodeError::OperandIndex) == "decode: operand value index out of range"@,
        decode_message(DecodeError::StringIndex) == "decode: string index out of range"@,
        decode_message(DecodeError::ConstantIndex) == "decode: constant index out of range"@,
        decode_message(DecodeError::ConstantWithoutResult) == "decode: constant has no result type"@,
        decode_message(DecodeError::UnknownOpcodeInBlock) == "decode: unknown opcode in block"@,
        decode_message(DecodeError::UnknownOpcodeInBody) == "decode: unknown opcode in function body"@,
{
    reveal_strlit("decode: ");
    reveal_strlit("operand value index out of range");
    reveal_strlit("decode: operand value index out of range");
    assert(decode_message(DecodeError::OperandIndex) =~= "decode: operand value index out of range"@);
    reveal_strlit("string index out of range");
    reveal_strlit("decode: string index out of range");
    assert(decode_message(DecodeError::StringIndex) =~= "decode: string index out of range"@);
    reveal_strlit("constant index out of range");
    reveal_strlit("decode: constant index out of range");
    assert(decode_message(DecodeError::ConstantIndex) =~= "decode: constant index out of range"@);
    reveal_strlit("constant has no result type");
    reveal_strlit("decode: constant has no result type");
    assert(decode_message(DecodeError::ConstantWithoutResult) =~= "decode: constant has no result type"@);
    reveal_strlit("unknown opcode in block");
    reveal_strlit("decode: unknown opcode in block");
    assert(decode_message(DecodeError::UnknownOpcodeInBlock) =~= "decode: unknown opcode in block"@);
    reveal_strlit("unknown opcode in function body");
    reveal_strlit("decode: unknown opcode in function body");
    assert(decode_message(DecodeError::UnknownOpcodeInBody) =~= "decode: unknown opcode in function body"@);
}

/// What is wrong with a function.
pub proof fn function_messages()
    ensures
        decode_message(DecodeError::FuncNameIndex) == "decode: func name index out of range"@,
        decode_message(DecodeError::FuncSigIndex) == "decode: func sig index out of range"@,
        decode_message(DecodeError::SignatureNotFunc) == "decode: function signature is not a func type"@,
        decode_message(DecodeError::FuncInputIndex) == "decode: bad func input type idx"@,
        decode_message(DecodeError::FuncResultIndex) == "decode: bad func result type idx"@,
{
    reveal_strlit("decode: ");
    reveal_strlit("func name index out of range");
    reveal_strlit("decode: func name index out of range");
    assert(decode_message(DecodeError::FuncNameIndex) =~= "decode: func name index out of range"@);
    reveal_strlit("func sig index out of range");
    reveal_strlit("decode: func sig index out of range");
    assert(decode_message(DecodeError::FuncSigIndex) =~= "decode: func sig index out of range"@);
    reveal_strlit("function signature is not a func type");
    reveal_strlit("decode: function signature is not a func type");
    assert(decode_message(DecodeError::SignatureNotFunc) =~= "decode: function signature is not a func type"@);
    reveal_strlit("bad func input type idx");
    reveal_strlit("decode: bad func input type idx");
    assert(decode_message(DecodeError::FuncInputIndex) =~= "decode: bad func input type idx"@);
    reveal_strlit("bad func result type idx");
    reveal_strlit("decode: bad func result type idx");
    assert(decode_message(DecodeError::FuncResultIndex) =~= "decode: bad func result type idx"@);
}

/// What is wrong with a type.
pub proof fn type_messages()
    ensures
        decode_message(DecodeError::NotATensorView) == "decode: expected a tensor_view at referenced type index"@,
        decode_message(DecodeError::PointeeNotScalar) == "decode: pointer pointee is not a scalar"@,
        decode_message(DecodeError::TileElement) == "decode: tile element is not scalar/pointer"@,
        decode_message(DecodeError::TensorViewElement) == "decode: tensor_view element is not a scalar"@,
{
    reveal_strlit("decode: ");
    reveal_strlit("expected a tensor_view at referenced type index");
    reveal_strlit("decode: expected a tensor_view at referenced type index");
    assert(decode_message(DecodeError::NotATensorView) =~= "decode: expected a tensor_view at referenced type index"@);
    reveal_strlit("pointer pointee is not a scalar");
    reveal_strlit("decode: pointer pointee is not a scalar");
    assert(decode_message(DecodeError::PointeeNotScalar) =~= "decode: pointer pointee is not a scalar"@);
    reveal_strlit("tile element is not scalar/pointer");
    reveal_strlit("decode: tile element is not scalar/pointer");
    assert(decode_message(DecodeError::TileElement) =~= "decode: tile element is not scalar/pointer"@);
    reveal_strlit("tensor_view element is not a scalar");
    reveal_strlit("decode: tensor_view element is not a scalar");
    assert(decode_message(DecodeError::TensorViewElement) =~= "decode: tensor_view element is not a scalar"@);
}

/// What is wrong with an attribute.
pub proof fn attribute_messages()
    ensures
        decode_message(DecodeError::SubByteFloat) == "decode: sub-byte float attribute decode not yet implemented"@,
        decode_message(DecodeError::HintsEntryTag) == "decode: optimization_hints entry is not a dictionary"@,
        decode_message(DecodeError::HintsEntryValue) == "decode: opt-hints entry value is not a dictionary"@,
{
    reveal_strlit("decode: ");
    reveal_strlit("sub-byte float attribute decode not yet implemented");
    reveal_strlit("decode: sub-byte float attribute decode not yet implemented");
    assert(decode_message(DecodeError::SubByteFloat) =~= "decode: sub-byte float attribute decode not yet implemented"@);
    reveal_strlit("optimization_hints entry is not a dictionary");
    reveal_strlit("decode: optimization_hints entry is not a dictionary");
    assert(decode_message(DecodeError::HintsEntryTag) =~= "decode: optimization_hints entry is not a dictionary"@);
    reveal_strlit("opt-hints entry value is not a dictionary");
    reveal_strlit("decode: opt-hints entry value is not a dictionary");
    assert(decode_message(DecodeError::HintsEntryValue) =~= "decode: opt-hints entry value is not a dictionary"@);
}

/// A byte that is none of the alignment is shown with two hexadecimal digits, behind the one
/// that is; an unknown tag and a padding value out of range are shown in decimal, and a scalar
/// type or an operation by its name.
pub proof fn messages_show_what_is_refused(
    b: u8,
    tag: u64,
    scalar: crate::ir::ScalarType,
    op: crate::bytecode::opcode::Opcode,
)
    ensures
        decode_message(DecodeError::PaddingByte(b)) == "decode: expected padding byte 0xCB, got 0x"@
            + crate::text::hex_byte_text(b),
        decode_message(DecodeError::UnknownAttributeTag(tag)) == "decode: unknown attribute tag "@
            + crate::text::dec_text(tag as nat),
        decode_message(DecodeError::UnknownTypeTag(tag)) == "decode: unknown type tag "@
            + crate::text::dec_text(tag as nat),
        decode_message(DecodeError::InvalidPaddingValue(b)) == "decode: invalid padding value "@
            + crate::text::dec_text(b as nat),
        decode_message(DecodeError::NotAFloat(scalar)) == "decode: "@
            + crate::ir::scalar_debug_text(scalar) + " is not a float scalar"@,
        decode_message(DecodeError::UnhandledOp(op)) == "decode: op "@
            + crate::bytecode::opcode::opcode_debug_text(op)
            + " not yet handled by the bytecode reader"@,
{
    reveal_strlit("decode: ");
    reveal_strlit("expected padding byte 0x");
    reveal_strlit(", got 0x");
    reveal_strlit("decode: expected padding byte 0xCB, got 0x");
    let mark = crate::text::hex_byte_text(0xCB);
    assert(crate::text::hex_char(12) == 'C');
    assert(crate::text::hex_char(11) == 'B');
    assert(mark =~= seq!['C', 'B']);
    assert(decode_message(DecodeError::PaddingByte(b))
        =~= "decode: expected padding byte 0xCB, got 0x"@ + crate::text::hex_byte_text(b));
    reveal_strlit("unknown attribute tag ");
    reveal_strlit("decode: unknown attribute tag ");
    assert(decode_message(DecodeError::UnknownAttributeTag(tag))
        =~= "decode: unknown attribute tag "@ + crate::text::dec_text(tag as nat));
    reveal_strlit("unknown type tag ");
    reveal_strlit("decode: unknown type tag ");
    assert(decode_message(DecodeError::UnknownTypeTag(tag)) =~= "decode: unknown type tag "@
        + crate::text::dec_text(tag as nat));
    reveal_strlit("invalid padding value ");
    reveal_strlit("decode: invalid padding value ");
    assert(decode_message(DecodeError::InvalidPaddingValue(b))
        =~= "decode: invalid padding value "@ + crate::text::dec_text(b as nat));
    assert(decode_message(DecodeError::NotAFloat(scalar)) =~= "decode: "@
        + crate::ir::scalar_debug_text(scalar) + " is not a float scalar"@);
    reveal_strlit("op ");
    reveal_strlit("decode: op ");
    assert(decode_message(DecodeError::UnhandledOp(op)) =~= "decode: op "@
        + crate::bytecode::opcode::opcode_debug_text(op)
        + " not yet handled by the bytecode reader"@);
}

} // verus!
