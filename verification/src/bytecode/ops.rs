//! Operations in function bodies.
//!
//! An operation is its code, the types of its results, its attributes, its
//! operands and, for some, its regions. What it refers to stands in the tables of
//! the buffer and in the table of the values that are in scope.

use vstd::prelude::*;

use crate::builder::{append_op, build_block, build_op};
use crate::bytecode::attributes;
use crate::bytecode::attributes::{
    read_inline_array, read_inline_opt_hints, read_self_contained_attribute, Tables, TablesModel,
};
use crate::bytecode::enums::BytecodeVersion;
use crate::bytecode::opcode;
use crate::bytecode::opcode::Opcode;
use crate::bytecode::reader;
use crate::bytecode::reader::{to_signed32, to_signed64, Reader, Step};
use crate::bytecode::types;
use crate::bytecode::types::read_type_refs;
use crate::error::DecodeError;
use crate::ir;
use crate::ir::{
    Attribute, AttributeModel, BlockId, DenseElements, ElementModel, Module, ModuleModel, Region,
    RegionId, ScalarType, TileElementType, Type, TypeModel, Value,
};

verus! {

broadcast use {ir::type_models_push, ir::attribute_models_push, ir::dictionary_model_push};

/// The attributes of an operation, by name.
pub type Attributes = Seq<(Seq<char>, AttributeModel)>;

/// An integer attribute whose type is not on the wire.
pub open spec fn int_attribute(v: u64) -> AttributeModel {
    AttributeModel::Integer(reader::signed64(v as nat), TypeModel::Scalar(ScalarType::I32))
}

/// An integer attribute whose type is not on the wire.
pub fn int_attr(v: u64) -> (a: Attribute)
    ensures
        a@ == int_attribute(v),
{
    Attribute::Integer(to_signed64(v), Type::Scalar(ScalarType::I32))
}

/// The attributes with a flag behind them where it is set.
pub open spec fn with_flag(attrs: Attributes, set: bool, name: Seq<char>) -> Attributes {
    if set {
        attrs.push((name, AttributeModel::Bool(true)))
    } else {
        attrs
    }
}

/// One integer attribute for each of `names`, behind those in `acc`.
pub open spec fn ints_at(d: Seq<u8>, p: int, names: Seq<Seq<char>>, acc: Attributes) -> Step<
    Attributes,
>
    decreases names.len(),
{
    if names.len() == 0 {
        (Ok(acc), p)
    } else {
        match reader::varint_at(d, p) {
            (Err(e), q) => (Err(e), q),
            (Ok(v), q) => ints_at(d, q, names.skip(1), acc.push((names[0], int_attribute(v)))),
        }
    }
}

/// Flags, and one integer attribute for each of `names`.
pub open spec fn flags_and_ints_at(d: Seq<u8>, p: int, names: Seq<Seq<char>>) -> Step<
    (Attributes, u64),
> {
    match reader::varint_at(d, p) {
        (Err(e), q) => (Err(e), q),
        (Ok(flags), q) => match ints_at(d, q, names, Seq::empty()) {
            (Err(e), q) => (Err(e), q),
            (Ok(attrs), q) => (Ok((attrs, flags)), q),
        },
    }
}

/// Flags and integer attributes, and an attribute for the lowest flag.
pub open spec fn flagged_ints_at(d: Seq<u8>, p: int, names: Seq<Seq<char>>, flag: Seq<char>) -> Step<
    (Attributes, u64),
> {
    match flags_and_ints_at(d, p, names) {
        (Err(e), q) => (Err(e), q),
        (Ok((attrs, flags)), q) => (Ok((with_flag(attrs, flags % 2 == 1, flag), flags)), q),
    }
}

/// One integer attribute, left out where it has its default value.
pub open spec fn defaulted_int_at(d: Seq<u8>, p: int, name: Seq<char>, default: u64) -> Step<
    (Attributes, u64),
> {
    match reader::varint_at(d, p) {
        (Err(e), q) => (Err(e), q),
        (Ok(v), q) => (
            Ok(
                (
                    if v == default {
                        Seq::empty()
                    } else {
                        seq![(name, int_attribute(v))]
                    },
                    0,
                ),
            ),
            q,
        ),
    }
}

/// One string attribute.
pub open spec fn string_attribute_at(d: Seq<u8>, p: int, t: TablesModel, name: Seq<char>) -> Step<
    (Attributes, u64),
> {
    match t.string_ref_at(d, p, DecodeError::StringIndex) {
        (Err(e), q) => (Err(e), q),
        (Ok(s), q) => (Ok((seq![(name, AttributeModel::String(s))], 0)), q),
    }
}

/// The attributes of a load or store behind its flags: the ordering, and the
/// scope and the hints that the flags announce.
pub open spec fn memory_attributes_at(d: Seq<u8>, p: int, t: TablesModel, flags: u64) -> Step<
    Attributes,
> {
    match ints_at(
        d,
        p,
        if flags % 2 == 1 {
            seq!["memory_ordering_semantics"@, "memory_scope"@]
        } else {
            seq!["memory_ordering_semantics"@]
        },
        Seq::empty(),
    ) {
        (Err(e), q) => (Err(e), q),
        (Ok(attrs), q) => if (flags / 2) % 2 == 1 {
            match attributes::inline_hints_at(d, q, t) {
                (Err(e), q) => (Err(e), q),
                (Ok(h), q) => (
                    Ok(attrs.push(("optimization_hints"@, AttributeModel::OptimizationHints(h)))),
                    q,
                ),
            }
        } else {
            (Ok(attrs), q)
        },
    }
}

/// The flags and attributes of a load or store.
pub open spec fn memory_access_at(d: Seq<u8>, p: int, t: TablesModel) -> Step<(Attributes, u64)> {
    match reader::varint_at(d, p) {
        (Err(e), q) => (Err(e), q),
        (Ok(flags), q) => match memory_attributes_at(d, q, t, flags) {
            (Err(e), q) => (Err(e), q),
            (Ok(attrs), q) => (Ok((attrs, flags)), q),
        },
    }
}

/// The attributes of a reduction: integers, and the identities.
pub open spec fn reduction_at(d: Seq<u8>, p: int, t: TablesModel, names: Seq<Seq<char>>) -> Step<
    (Attributes, u64),
> {
    match ints_at(d, p, names, Seq::empty()) {
        (Err(e), q) => (Err(e), q),
        (Ok(attrs), q) => match attributes::var_attributes_at(d, q, t) {
            (Err(e), q) => (Err(e), q),
            (Ok(v), q) => (Ok((attrs.push(("identities"@, AttributeModel::Array(v))), 0)), q),
        },
    }
}

/// The type of the elements of a constant: that of its first result, or of its
/// elements where the result is a tile.
pub open spec fn constant_element(result_types: Seq<TypeModel>) -> Result<TypeModel, DecodeError> {
    if result_types.len() == 0 {
        Err(DecodeError::ConstantWithoutResult)
    } else {
        match result_types[0] {
            TypeModel::Tile { element_type: ElementModel::Scalar(s), .. } => Ok(
                TypeModel::Scalar(s),
            ),
            TypeModel::Tile { element_type: ElementModel::Pointer(p), .. } => Ok(
                TypeModel::Pointer(p),
            ),
            t => Ok(t),
        }
    }
}

/// The attribute of a constant: the data of a constant of the buffer.
pub open spec fn constant_at(d: Seq<u8>, p: int, t: TablesModel, result_types: Seq<TypeModel>) -> Step<
    (Attributes, u64),
> {
    match t.constant_data_at(d, p, DecodeError::ConstantIndex) {
        (Err(e), q) => (Err(e), q),
        (Ok(data), q) => match constant_element(result_types) {
            Err(e) => (Err(e), q),
            Ok(element_type) => (
                Ok(
                    (
                        seq![
                            (
                                "value"@,
                                AttributeModel::DenseElements {
                                    element_type,
                                    shape: Seq::empty(),
                                    data,
                                },
                            ),
                        ],
                        0,
                    ),
                ),
                q,
            ),
        },
    }
}

/// The integer attributes of the operations that have nothing but integers before
/// their operands.
pub open spec fn plain_ints(op: Opcode) -> Option<Seq<Seq<char>>> {
    match op {
        Opcode::MakeToken
        | Opcode::GetTileBlockId
        | Opcode::GetNumTileBlocks
        | Opcode::Iota
        | Opcode::AbsF
        | Opcode::AbsI
        | Opcode::AndI
        | Opcode::Atan2
        | Opcode::Bitcast
        | Opcode::Broadcast
        | Opcode::Ceil
        | Opcode::Cos
        | Opcode::CosH
        | Opcode::Floor
        | Opcode::IntToPtr
        | Opcode::Log
        | Opcode::Log2
        | Opcode::MulhiI
        | Opcode::NegF
        | Opcode::Offset
        | Opcode::OrI
        | Opcode::Pow
        | Opcode::PtrToInt
        | Opcode::PtrToPtr
        | Opcode::RemF
        | Opcode::Reshape
        | Opcode::Select
        | Opcode::Sin
        | Opcode::SinH
        | Opcode::Tan
        | Opcode::XOrI
        | Opcode::MakePartitionView
        | Opcode::MmaFScaled
        | Opcode::MakeStridedView
        | Opcode::MakeGatherScatterView
        | Opcode::Pack
        | Opcode::Unpack
        | Opcode::GetIndexSpaceShape
        | Opcode::GetTensorShape
        | Opcode::JoinTokens
        | Opcode::Extract
        | Opcode::Return
        | Opcode::Yield
        | Opcode::Break
        | Opcode::Continue
        | Opcode::MakeTensorView
        | Opcode::Loop
        | Opcode::If => Some(Seq::empty()),
        Opcode::AddI | Opcode::MulI | Opcode::SubI | Opcode::ShLI | Opcode::TruncI => Some(
            seq!["overflow"@],
        ),
        Opcode::ShRI | Opcode::ExtI | Opcode::MaxI | Opcode::MinI | Opcode::RemI => Some(
            seq!["signedness"@],
        ),
        Opcode::Cat => Some(seq!["dim"@]),
        Opcode::CmpF => Some(seq!["comparison_predicate"@, "comparison_ordering"@]),
        Opcode::CmpI => Some(seq!["comparison_predicate"@, "signedness"@]),
        Opcode::DivI => Some(seq!["signedness"@, "rounding"@]),
        Opcode::FToI | Opcode::IToF => Some(seq!["signedness"@, "rounding_mode"@]),
        Opcode::FToF => Some(seq!["rounding_mode"@]),
        Opcode::MmaI => Some(seq!["signedness_lhs"@, "signedness_rhs"@]),
        _ => None,
    }
}

/// The attributes of an operation, and its flags, zero where it has none.
pub open spec fn op_attributes_at(
    op: Opcode,
    d: Seq<u8>,
    p: int,
    t: TablesModel,
    version: BytecodeVersion,
    result_types: Seq<TypeModel>,
) -> Step<(Attributes, u64)> {
    match op {
        Opcode::Alloca => flagged_ints_at(d, p, seq!["num_elem"@, "alignment"@], "global"@),
        Opcode::NegI => if version.rank() >= BytecodeVersion::v13_2().rank() {
            defaulted_int_at(d, p, "overflow"@, 0)
        } else {
            (Ok((Seq::empty(), 0)), p)
        },
        Opcode::Permute => match reader::var_i32s_at(d, p) {
            (Err(e), q) => (Err(e), q),
            (Ok(v), q) => (Ok((seq![("permutation"@, AttributeModel::DenseI32Array(v))], 0)), q),
        },
        Opcode::AddF
        | Opcode::DivF
        | Opcode::MulF
        | Opcode::SubF
        | Opcode::Fma
        | Opcode::Sqrt => flagged_ints_at(d, p, seq!["rounding_mode"@], "flush_to_zero"@),
        Opcode::Exp2 | Opcode::Rsqrt => flagged_ints_at(d, p, Seq::empty(), "flush_to_zero"@),
        Opcode::Exp => if version.rank() >= BytecodeVersion::v13_3().rank() {
            defaulted_int_at(d, p, "rounding_mode"@, 5)
        } else {
            (Ok((Seq::empty(), 0)), p)
        },
        Opcode::TanH => if version.rank() >= BytecodeVersion::v13_2().rank() {
            defaulted_int_at(d, p, "rounding_mode"@, 5)
        } else {
            (Ok((Seq::empty(), 0)), p)
        },
        Opcode::MmaF => if version.rank() >= BytecodeVersion::v13_3().rank() {
            flagged_ints_at(d, p, Seq::empty(), "fast_acc"@)
        } else {
            (Ok((Seq::empty(), 0)), p)
        },
        Opcode::MaxF | Opcode::MinF => match flagged_ints_at(d, p, Seq::empty(), "propagate_nan"@) {
            (Err(e), q) => (Err(e), q),
            (Ok((attrs, flags)), q) => (
                Ok((with_flag(attrs, (flags / 2) % 2 == 1, "flush_to_zero"@), flags)),
                q,
            ),
        },
        Opcode::Constant => constant_at(d, p, t, result_types),
        Opcode::Assume => match attributes::attribute_at(d, p, t) {
            (Err(e), q) => (Err(e), q),
            (Ok(a), q) => (Ok((seq![("predicate"@, a)], 0)), q),
        },
        Opcode::Assert => string_attribute_at(d, p, t, "message"@),
        Opcode::GetGlobal => string_attribute_at(d, p, t, "name"@),
        Opcode::Print => if version.rank() >= BytecodeVersion::v13_2().rank() {
            match reader::varint_at(d, p) {
                (Err(e), q) => (Err(e), q),
                (Ok(_), q) => string_attribute_at(d, q, t, "str"@),
            }
        } else {
            string_attribute_at(d, p, t, "str"@)
        },
        Opcode::LoadViewTko | Opcode::StoreViewTko | Opcode::LoadPtrTko | Opcode::StorePtrTko =>
            memory_access_at(d, p, t),
        Opcode::AtomicRMW | Opcode::AtomicRedViewTko => flags_and_ints_at(
            d,
            p,
            seq!["memory_ordering_semantics"@, "memory_scope"@, "mode"@],
        ),
        Opcode::AtomicCAS => flags_and_ints_at(
            d,
            p,
            seq!["memory_ordering_semantics"@, "memory_scope"@],
        ),
        Opcode::For => if version.rank() >= BytecodeVersion::v13_2().rank() {
            flagged_ints_at(d, p, Seq::empty(), "unsigned_cmp"@)
        } else {
            (Ok((Seq::empty(), 0)), p)
        },
        Opcode::Reduce => reduction_at(d, p, t, seq!["dim"@]),
        Opcode::Scan => reduction_at(d, p, t, seq!["dim"@, "reverse"@]),
        _ => match plain_ints(op) {
            None => (Err(DecodeError::UnhandledOp(op)), p),
            Some(names) => match ints_at(d, p, names, Seq::empty()) {
                (Err(e), q) => (Err(e), q),
                (Ok(attrs), q) => (Ok((attrs, 0)), q),
            },
        },
    }
}

/// A group of operands.
#[derive(Clone, Copy, Debug, PartialEq, Eq, Structural)]
pub enum OperandGroup {
    /// One operand.
    One,
    /// A count and as many operands.
    Many,
    /// One operand, or none.
    Optional(bool),
}

/// The operand groups of an operation that has them; its flags say which of the
/// optional ones are there.
pub open spec fn operand_groups(op: Opcode, flags: u64) -> Option<Seq<OperandGroup>> {
    match op {
        Opcode::MakeTensorView => Some(
            seq![OperandGroup::One, OperandGroup::Many, OperandGroup::Many],
        ),
        Opcode::LoadViewTko => Some(
            seq![
                OperandGroup::One,
                OperandGroup::Many,
                OperandGroup::Optional((flags / 4) % 2 == 1),
            ],
        ),
        Opcode::StoreViewTko => Some(
            seq![
                OperandGroup::One,
                OperandGroup::One,
                OperandGroup::Many,
                OperandGroup::Optional((flags / 4) % 2 == 1),
            ],
        ),
        Opcode::LoadPtrTko => Some(
            seq![
                OperandGroup::One,
                OperandGroup::Optional((flags / 4) % 2 == 1),
                OperandGroup::Optional((flags / 8) % 2 == 1),
                OperandGroup::Optional((flags / 16) % 2 == 1),
            ],
        ),
        Opcode::StorePtrTko => Some(
            seq![
                OperandGroup::One,
                OperandGroup::One,
                OperandGroup::Optional((flags / 4) % 2 == 1),
                OperandGroup::Optional((flags / 8) % 2 == 1),
            ],
        ),
        Opcode::AtomicRMW => Some(
            seq![
                OperandGroup::One,
                OperandGroup::One,
                OperandGroup::Optional(flags % 2 == 1),
                OperandGroup::Optional((flags / 2) % 2 == 1),
            ],
        ),
        Opcode::AtomicCAS => Some(
            seq![
                OperandGroup::One,
                OperandGroup::One,
                OperandGroup::One,
                OperandGroup::Optional(flags % 2 == 1),
                OperandGroup::Optional((flags / 2) % 2 == 1),
            ],
        ),
        Opcode::AtomicRedViewTko => Some(
            seq![
                OperandGroup::One,
                OperandGroup::Many,
                OperandGroup::One,
                OperandGroup::Optional(flags % 2 == 1),
            ],
        ),
        _ => None,
    }
}

/// `n` operands behind those in `acc`: indices into the values in scope.
pub open spec fn operands_at(d: Seq<u8>, p: int, values: Seq<nat>, n: nat, acc: Seq<nat>) -> Step<
    Seq<nat>,
>
    decreases n,
{
    if n == 0 {
        (Ok(acc), p)
    } else {
        match reader::varint_at(d, p) {
            (Err(e), q) => (Err(e), q),
            (Ok(i), q) => if i < values.len() {
                operands_at(d, q, values, (n - 1) as nat, acc.push(values[i as int]))
            } else {
                (Err(DecodeError::OperandIndex), q)
            },
        }
    }
}

/// A count and as many operands.
pub open spec fn var_operands_at(d: Seq<u8>, p: int, values: Seq<nat>) -> Step<Seq<nat>> {
    match reader::varint_at(d, p) {
        (Err(e), q) => (Err(e), q),
        (Ok(n), q) => operands_at(d, q, values, n as nat, Seq::empty()),
    }
}

/// The operands of a group.
pub open spec fn group_at(d: Seq<u8>, p: int, values: Seq<nat>, group: OperandGroup) -> Step<
    Seq<nat>,
> {
    match group {
        OperandGroup::One | OperandGroup::Optional(true) => operands_at(
            d,
            p,
            values,
            1,
            Seq::empty(),
        ),
        OperandGroup::Many => var_operands_at(d, p, values),
        OperandGroup::Optional(false) => (Ok(Seq::empty()), p),
    }
}

/// The size of a group, as the low 32 bits that the attribute holds.
pub open spec fn segment(n: nat) -> i32 {
    reader::signed32(n % 0x1_0000_0000)
}

/// The operands of the groups, and the sizes of the groups, behind those in `acc`.
pub open spec fn groups_at(
    d: Seq<u8>,
    p: int,
    values: Seq<nat>,
    groups: Seq<OperandGroup>,
    acc: (Seq<nat>, Seq<i32>),
) -> Step<(Seq<nat>, Seq<i32>)>
    decreases groups.len(),
{
    if groups.len() == 0 {
        (Ok(acc), p)
    } else {
        match group_at(d, p, values, groups[0]) {
            (Err(e), q) => (Err(e), q),
            (Ok(ops), q) => groups_at(
                d,
                q,
                values,
                groups.skip(1),
                (acc.0 + ops, acc.1.push(segment(ops.len()))),
            ),
        }
    }
}

/// The operands of an operation, and the sizes of its operand groups where it has
/// them.
pub open spec fn op_operands_at(op: Opcode, d: Seq<u8>, p: int, values: Seq<nat>, flags: u64) -> Step<
    (Seq<nat>, Seq<i32>),
> {
    match operand_groups(op, flags) {
        Some(groups) => groups_at(d, p, values, groups, (Seq::empty(), Seq::empty())),
        None => match (match op.spec_operand_count() {
            Some(n) => operands_at(d, p, values, n as nat, Seq::empty()),
            None => var_operands_at(d, p, values),
        }) {
            (Err(e), q) => (Err(e), q),
            (Ok(ops), q) => (Ok((ops, Seq::empty())), q),
        },
    }
}

/// The attributes with the sizes of the operand groups behind them, where there
/// are groups.
pub open spec fn with_segments(attrs: Attributes, segments: Seq<i32>) -> Attributes {
    if segments.len() == 0 {
        attrs
    } else {
        attrs.push(
            (
                "operandSegmentSizes"@,
                AttributeModel::Array(
                    Seq::new(
                        segments.len(),
                        |i: int|
                            AttributeModel::Integer(
                                segments[i] as i64,
                                TypeModel::Scalar(ScalarType::I32),
                            ),
                    ),
                ),
            ),
        )
    }
}

/// The types of the results of an operation: their number, where the operation
/// does not fix it, and their indices.
pub open spec fn result_types_at(op: Opcode, d: Seq<u8>, p: int, t: TablesModel) -> Step<
    Seq<TypeModel>,
> {
    match op.spec_result_count() {
        Some(n) => types::type_refs_at(
            d,
            p,
            t.types,
            n as nat,
            DecodeError::ResultTypeIndex,
            Seq::empty(),
        ),
        None => types::var_type_refs_at(d, p, t.types, DecodeError::ResultTypeIndex),
    }
}

/// Everything of an operation but its regions.
#[verifier::ext_equal]
pub struct OpFields {
    pub result_types: Seq<TypeModel>,
    pub attributes: Attributes,
    pub operands: Seq<nat>,
}

/// Everything of an operation but its regions, behind its code.
#[verifier::opaque]
pub open spec fn op_fields_at(
    op: Opcode,
    d: Seq<u8>,
    p: int,
    t: TablesModel,
    version: BytecodeVersion,
    values: Seq<nat>,
) -> Step<OpFields> {
    match result_types_at(op, d, p, t) {
        (Err(e), q) => (Err(e), q),
        (Ok(result_types), q) => match op_attributes_at(op, d, q, t, version, result_types) {
            (Err(e), q) => (Err(e), q),
            (Ok((attrs, flags)), q) => match op_operands_at(op, d, q, values, flags) {
                (Err(e), q) => (Err(e), q),
                (Ok((operands, segments)), q) => (
                    Ok(
                        OpFields {
                            result_types,
                            attributes: with_segments(attrs, segments),
                            operands,
                        },
                    ),
                    q,
                ),
            },
        },
    }
}

/// A list of integer attributes ends inside the buffer.
pub proof fn ints_advance(d: Seq<u8>, p: int, names: Seq<Seq<char>>, acc: Attributes)
    requires
        0 <= p <= d.len(),
    ensures
        p <= ints_at(d, p, names, acc).1 <= d.len(),
    decreases names.len(),
{
    if names.len() > 0 {
        reader::varint_advances(d, p);
        if let (Ok(v), q) = reader::varint_at(d, p) {
            ints_advance(d, q, names.skip(1), acc.push((names[0], int_attribute(v))));
        }
    }
}

/// Flags and integer attributes end inside the buffer.
pub proof fn flags_and_ints_advance(d: Seq<u8>, p: int, names: Seq<Seq<char>>)
    requires
        0 <= p <= d.len(),
    ensures
        p <= flags_and_ints_at(d, p, names).1 <= d.len(),
{
    reader::varint_advances(d, p);
    ints_advance(d, reader::varint_at(d, p).1, names, Seq::empty());
}

/// The attributes of an operation end inside the buffer.
pub proof fn op_attributes_advance(
    op: Opcode,
    d: Seq<u8>,
    p: int,
    t: TablesModel,
    version: BytecodeVersion,
    result_types: Seq<TypeModel>,
)
    requires
        0 <= p <= d.len(),
    ensures
        p <= op_attributes_at(op, d, p, t, version, result_types).1 <= d.len(),
{
    reader::varint_advances(d, p);
    let q = reader::varint_at(d, p).1;
    reader::varint_advances(d, q);
    reader::var_i32s_advance(d, p);
    attributes::attribute_advances(d, p, t);
    match op {
        Opcode::Alloca => flags_and_ints_advance(d, p, seq!["num_elem"@, "alignment"@]),
        Opcode::AddF
        | Opcode::DivF
        | Opcode::MulF
        | Opcode::SubF
        | Opcode::Fma
        | Opcode::Sqrt => flags_and_ints_advance(d, p, seq!["rounding_mode"@]),
        Opcode::Exp2
        | Opcode::Rsqrt
        | Opcode::MmaF
        | Opcode::MaxF
        | Opcode::MinF
        | Opcode::For => flags_and_ints_advance(d, p, Seq::empty()),
        Opcode::LoadViewTko | Opcode::StoreViewTko | Opcode::LoadPtrTko | Opcode::StorePtrTko => {
            let one = seq!["memory_ordering_semantics"@];
            let two = seq!["memory_ordering_semantics"@, "memory_scope"@];
            ints_advance(d, q, one, Seq::empty());
            ints_advance(d, q, two, Seq::empty());
            attributes::inline_hints_advance(d, ints_at(d, q, one, Seq::empty()).1, t);
            attributes::inline_hints_advance(d, ints_at(d, q, two, Seq::empty()).1, t);
        },
        Opcode::AtomicRMW | Opcode::AtomicRedViewTko => flags_and_ints_advance(
            d,
            p,
            seq!["memory_ordering_semantics"@, "memory_scope"@, "mode"@],
        ),
        Opcode::AtomicCAS => flags_and_ints_advance(
            d,
            p,
            seq!["memory_ordering_semantics"@, "memory_scope"@],
        ),
        Opcode::Reduce => {
            ints_advance(d, p, seq!["dim"@], Seq::empty());
            attributes::var_attributes_advance(d, ints_at(d, p, seq!["dim"@], Seq::empty()).1, t);
        },
        Opcode::Scan => {
            let names = seq!["dim"@, "reverse"@];
            ints_advance(d, p, names, Seq::empty());
            attributes::var_attributes_advance(d, ints_at(d, p, names, Seq::empty()).1, t);
        },
        _ => {
            if let Some(names) = plain_ints(op) {
                ints_advance(d, p, names, Seq::empty());
            }
        },
    }
}

/// A list of operands ends inside the buffer.
pub proof fn operands_advance(d: Seq<u8>, p: int, values: Seq<nat>, n: nat, acc: Seq<nat>)
    requires
        0 <= p <= d.len(),
    ensures
        p <= operands_at(d, p, values, n, acc).1 <= d.len(),
    decreases n,
{
    if n > 0 {
        reader::varint_advances(d, p);
        if let (Ok(i), q) = reader::varint_at(d, p) {
            if i < values.len() {
                operands_advance(d, q, values, (n - 1) as nat, acc.push(values[i as int]));
            }
        }
    }
}

/// A counted list of operands ends inside the buffer.
pub proof fn var_operands_advance(d: Seq<u8>, p: int, values: Seq<nat>)
    requires
        0 <= p <= d.len(),
    ensures
        p <= var_operands_at(d, p, values).1 <= d.len(),
{
    reader::varint_advances(d, p);
    if let (Ok(n), q) = reader::varint_at(d, p) {
        operands_advance(d, q, values, n as nat, Seq::empty());
    }
}

/// The operand groups end inside the buffer.
pub proof fn groups_advance(
    d: Seq<u8>,
    p: int,
    values: Seq<nat>,
    groups: Seq<OperandGroup>,
    acc: (Seq<nat>, Seq<i32>),
)
    requires
        0 <= p <= d.len(),
    ensures
        p <= groups_at(d, p, values, groups, acc).1 <= d.len(),
    decreases groups.len(),
{
    if groups.len() > 0 {
        operands_advance(d, p, values, 1, Seq::empty());
        var_operands_advance(d, p, values);
        if let (Ok(ops), q) = group_at(d, p, values, groups[0]) {
            groups_advance(
                d,
                q,
                values,
                groups.skip(1),
                (acc.0 + ops, acc.1.push(segment(ops.len()))),
            );
        }
    }
}

/// What stands behind the code of an operation, but for its regions, ends inside
/// the buffer.
pub proof fn op_fields_advance(
    op: Opcode,
    d: Seq<u8>,
    p: int,
    t: TablesModel,
    version: BytecodeVersion,
    values: Seq<nat>,
)
    requires
        0 <= p <= d.len(),
    ensures
        p <= op_fields_at(op, d, p, t, version, values).1 <= d.len(),
{
    reveal(op_fields_at);
    reader::varint_advances(d, p);
    let counted = match op.spec_result_count() {
        Some(n) => (n as nat, p),
        None => match reader::varint_at(d, p) {
            (Ok(n), q) => (n as nat, q),
            (Err(_), q) => (0, q),
        },
    };
    types::type_refs_advance(
        d,
        counted.1,
        t.types,
        counted.0,
        DecodeError::ResultTypeIndex,
        Seq::empty(),
    );
    if let (Ok(result_types), q) = result_types_at(op, d, p, t) {
        op_attributes_advance(op, d, q, t, version, result_types);
        if let (Ok((attrs, flags)), q) = op_attributes_at(op, d, q, t, version, result_types) {
            match operand_groups(op, flags) {
                Some(groups) => groups_advance(d, q, values, groups, (Seq::empty(), Seq::empty())),
                None => {
                    var_operands_advance(d, q, values);
                    if let Some(n) = op.spec_operand_count() {
                        operands_advance(d, q, values, n as nat, Seq::empty());
                    }
                },
            }
        }
    }
}

/// What the reading of a function body works on: the position in the body, the
/// values in scope, and the module that is built.
#[verifier::ext_equal]
pub struct BodyState {
    pub pos: int,
    pub values: Seq<nat>,
    pub module: ModuleModel,
}

/// A value or an error, and the state behind it.
pub type Run<T> = (Result<T, DecodeError>, BodyState);

/// The state after an operation has been built and put at the end of a block: its
/// results are in scope.
pub open spec fn finish_op(
    op: Opcode,
    fields: OpFields,
    regions: Seq<nat>,
    s: BodyState,
    block: nat,
) -> BodyState {
    BodyState {
        pos: s.pos,
        values: s.values + s.module.fresh_values(fields.result_types.len()),
        module: s.module.with_op(
            op,
            fields.result_types,
            fields.operands,
            fields.attributes,
            regions,
        ).with_appended(block, s.module.ops.len()),
    }
}

/// Whether an operation has regions.
pub open spec fn has_regions(op: Opcode) -> bool {
    op is For || op is Loop || op is If || op is Reduce || op is Scan
}

/// One operation behind its code, put at the end of a block.
pub open spec fn op_at(
    op: Opcode,
    d: Seq<u8>,
    s: BodyState,
    t: TablesModel,
    version: BytecodeVersion,
    block: nat,
) -> Run<()>
    decreases d.len() - s.pos, 1int, 0int,
    when 0 <= s.pos <= d.len()
{
    match op_fields_at(op, d, s.pos, t, version, s.values) {
        (Err(e), q) => (Err(e), BodyState { pos: q, ..s }),
        (Ok(fields), q) => if has_regions(op) {
            proof {
                op_fields_advance(op, d, s.pos, t, version, s.values);
            }
            match regions_at(d, BodyState { pos: q, ..s }, t, version) {
                (Err(e), s) => (Err(e), s),
                (Ok(regions), s) => (Ok(()), finish_op(op, fields, regions, s, block)),
            }
        } else {
            (Ok(()), finish_op(op, fields, Seq::empty(), BodyState { pos: q, ..s }, block))
        },
    }
}

/// A count and as many regions, as their numbers in the module.
pub open spec fn regions_at(
    d: Seq<u8>,
    s: BodyState,
    t: TablesModel,
    version: BytecodeVersion,
) -> Run<Seq<nat>>
    decreases d.len() - s.pos, 0int, 0int,
    when 0 <= s.pos <= d.len()
{
    match reader::varint_at(d, s.pos) {
        (Err(e), q) => (Err(e), BodyState { pos: q, ..s }),
        (Ok(n), q) => {
            proof {
                reader::varint_advances(d, s.pos);
            }
            region_list_at(d, BodyState { pos: q, ..s }, t, version, n as nat, Seq::empty())
        },
    }
}

/// `n` regions behind those in `acc`. A region takes at least one byte, so the
/// last branch is never taken.
pub open spec fn region_list_at(
    d: Seq<u8>,
    s: BodyState,
    t: TablesModel,
    version: BytecodeVersion,
    n: nat,
    acc: Seq<nat>,
) -> Run<Seq<nat>>
    decreases d.len() - s.pos, 2int, n,
    when 0 <= s.pos <= d.len()
{
    if n == 0 {
        (Ok(acc), s)
    } else {
        match region_at(d, s, t, version) {
            (Err(e), r) => (Err(e), r),
            (Ok(id), r) => if s.pos < r.pos <= d.len() {
                region_list_at(d, r, t, version, (n - 1) as nat, acc.push(id))
            } else {
                (Err(DecodeError::UnexpectedEnd), r)
            },
        }
    }
}

/// One region: a count and as many blocks.
pub open spec fn region_at(
    d: Seq<u8>,
    s: BodyState,
    t: TablesModel,
    version: BytecodeVersion,
) -> Run<nat>
    decreases d.len() - s.pos, 1int, 0int,
    when 0 <= s.pos <= d.len()
{
    match reader::varint_at(d, s.pos) {
        (Err(e), q) => (Err(e), BodyState { pos: q, ..s }),
        (Ok(n), q) => {
            proof {
                reader::varint_advances(d, s.pos);
            }
            match block_list_at(d, BodyState { pos: q, ..s }, t, version, n as nat, Seq::empty()) {
                (Err(e), r) => (Err(e), r),
                (Ok(blocks), r) => (
                    Ok(r.module.regions.len()),
                    BodyState { module: r.module.with_region(blocks), ..r },
                ),
            }
        },
    }
}

/// `n` blocks behind those in `acc`. A block takes at least one byte, so the last
/// branch is never taken.
pub open spec fn block_list_at(
    d: Seq<u8>,
    s: BodyState,
    t: TablesModel,
    version: BytecodeVersion,
    n: nat,
    acc: Seq<nat>,
) -> Run<Seq<nat>>
    decreases d.len() - s.pos, 2int, n,
    when 0 <= s.pos <= d.len()
{
    if n == 0 {
        (Ok(acc), s)
    } else {
        match block_at(d, s, t, version) {
            (Err(e), r) => (Err(e), r),
            (Ok(id), r) => if s.pos < r.pos <= d.len() {
                block_list_at(d, r, t, version, (n - 1) as nat, acc.push(id))
            } else {
                (Err(DecodeError::UnexpectedEnd), r)
            },
        }
    }
}

/// One block: the types of its arguments, and its operations. What it defines is
/// in scope up to its end.
pub open spec fn block_at(
    d: Seq<u8>,
    s: BodyState,
    t: TablesModel,
    version: BytecodeVersion,
) -> Run<nat>
    decreases d.len() - s.pos, 1int, 0int,
    when 0 <= s.pos <= d.len()
{
    match types::var_type_refs_at(d, s.pos, t.types, DecodeError::ResultTypeIndex) {
        (Err(e), q) => (Err(e), BodyState { pos: q, ..s }),
        (Ok(arg_types), q) => {
            let block = s.module.blocks.len();
            let entered = BodyState {
                pos: q,
                values: s.values + s.module.fresh_values(arg_types.len()),
                module: s.module.with_block(arg_types),
            };
            match reader::varint_at(d, q) {
                (Err(e), q) => (Err(e), BodyState { pos: q, ..entered }),
                (Ok(n), q) => {
                    proof {
                        var_type_refs_advance(d, s.pos, t);
                        reader::varint_advances(d, entered.pos);
                    }
                    match op_list_at(
                        d,
                        BodyState { pos: q, ..entered },
                        t,
                        version,
                        n as nat,
                        block,
                    ) {
                        (Err(e), r) => (Err(e), r),
                        (Ok(_), r) => (
                            Ok(block),
                            BodyState { values: r.values.take(s.values.len() as int), ..r },
                        ),
                    }
                },
            }
        },
    }
}

/// The low 16 bits of a number, by which operation codes are looked up.
pub open spec fn code_of(v: u64) -> u16 {
    (v % 0x1_0000) as u16
}

/// `n` operations with their codes, put at the end of a block. An operation takes
/// at least one byte, so the last branch is never taken.
pub open spec fn op_list_at(
    d: Seq<u8>,
    s: BodyState,
    t: TablesModel,
    version: BytecodeVersion,
    n: nat,
    block: nat,
) -> Run<()>
    decreases d.len() - s.pos, 2int, n,
    when 0 <= s.pos <= d.len()
{
    if n == 0 {
        (Ok(()), s)
    } else {
        match reader::varint_at(d, s.pos) {
            (Err(e), q) => (Err(e), BodyState { pos: q, ..s }),
            (Ok(v), q) => match opcode::opcode_of(code_of(v)) {
                None => (Err(DecodeError::UnknownOpcodeInBlock), BodyState { pos: q, ..s }),
                Some(op) => {
                    proof {
                        reader::varint_advances(d, s.pos);
                    }
                    match op_at(op, d, BodyState { pos: q, ..s }, t, version, block) {
                        (Err(e), r) => (Err(e), r),
                        (Ok(_), r) => if s.pos < r.pos <= d.len() {
                            op_list_at(d, r, t, version, (n - 1) as nat, block)
                        } else {
                            (Err(DecodeError::UnexpectedEnd), r)
                        },
                    }
                },
            },
        }
    }
}

/// The operations of a function body up to its end, put at the end of a block. An
/// operation takes at least one byte, so the last branch is never taken.
pub open spec fn body_at(
    d: Seq<u8>,
    s: BodyState,
    t: TablesModel,
    version: BytecodeVersion,
    block: nat,
) -> Run<()>
    decreases d.len() - s.pos,
    when 0 <= s.pos <= d.len()
{
    if s.pos == d.len() {
        (Ok(()), s)
    } else {
        match reader::varint_at(d, s.pos) {
            (Err(e), q) => (Err(e), BodyState { pos: q, ..s }),
            (Ok(v), q) => match opcode::opcode_of(code_of(v)) {
                None => (Err(DecodeError::UnknownOpcodeInBody), BodyState { pos: q, ..s }),
                Some(op) => match op_at(op, d, BodyState { pos: q, ..s }, t, version, block) {
                    (Err(e), r) => (Err(e), r),
                    (Ok(_), r) => if s.pos < r.pos <= d.len() {
                        body_at(d, r, t, version, block)
                    } else {
                        (Err(DecodeError::UnexpectedEnd), r)
                    },
                },
            },
        }
    }
}

/// A counted list of type references ends inside the buffer and takes at least one
/// byte.
pub proof fn var_type_refs_advance(d: Seq<u8>, p: int, t: TablesModel)
    requires
        0 <= p <= d.len(),
    ensures
        p <= types::var_type_refs_at(d, p, t.types, DecodeError::ResultTypeIndex).1 <= d.len(),
        types::var_type_refs_at(d, p, t.types, DecodeError::ResultTypeIndex).0 is Ok ==> p
            < types::var_type_refs_at(d, p, t.types, DecodeError::ResultTypeIndex).1,
{
    reader::varint_advances(d, p);
    if let (Ok(n), q) = reader::varint_at(d, p) {
        types::type_refs_advance(
            d,
            q,
            t.types,
            n as nat,
            DecodeError::ResultTypeIndex,
            Seq::empty(),
        );
    }
}

/// What the reading of a function body refers to: the tables of the buffer, the
/// values in scope, and the version of the buffer.
pub struct OpCtx<'t> {
    pub tables: Tables<'t>,
    pub values: Vec<Value>,
    pub version: BytecodeVersion,
}

impl<'t> OpCtx<'t> {
    /// The type at an index.
    pub fn ty(&self, i: u64) -> (t: Result<Type, DecodeError>)
        ensures
            match t {
                Ok(t) => i < self.tables@.types.len() && t@ == self.tables@.types[i as int],
                Err(e) => i >= self.tables@.types.len() && e == DecodeError::ResultTypeIndex,
            },
    {
        if i < self.tables.types.len() as u64 {
            Ok(self.tables.types[i as usize].clone())
        } else {
            Err(DecodeError::ResultTypeIndex)
        }
    }

    /// The value in scope at an index.
    pub fn val(&self, i: u64) -> (v: Result<Value, DecodeError>)
        ensures
            match v {
                Ok(v) => i < self.values@.len() && v == self.values@[i as int],
                Err(e) => i >= self.values@.len() && e == DecodeError::OperandIndex,
            },
    {
        if i < self.values.len() as u64 {
            Ok(self.values[i as usize])
        } else {
            Err(DecodeError::OperandIndex)
        }
    }

    /// The string at an index.
    pub fn string(&self, i: u64) -> (s: Result<String, DecodeError>)
        ensures
            match s {
                Ok(s) => i < self.tables@.strings.len() && s@ == self.tables@.strings[i as int],
                Err(e) => i >= self.tables@.strings.len() && e == DecodeError::StringIndex,
            },
    {
        if i < self.tables.strings.len() as u64 {
            Ok(self.tables.strings[i as usize].clone())
        } else {
            Err(DecodeError::StringIndex)
        }
    }

    /// Reads `n` operands.
    pub fn read_operands(&self, r: &mut Reader, n: u64) -> (v: Result<Vec<Value>, DecodeError>)
        requires
            old(r).wf(),
        ensures
            reads_values(
                *old(r),
                *final(r),
                v,
                operands_at(
                    old(r).data@,
                    old(r).pos as int,
                    ir::value_ids(self.values@),
                    n as nat,
                    Seq::empty(),
                ),
            ),
    {
        let mut out: Vec<Value> = Vec::new();
        let mut i: u64 = 0;
        assert(ir::value_ids(out@) =~= Seq::empty());
        while i < n
            invariant
                i <= n,
                r.wf(),
                old(r).pos <= r.pos,
                r.data == old(r).data,
                operands_at(
                    old(r).data@,
                    old(r).pos as int,
                    ir::value_ids(self.values@),
                    n as nat,
                    Seq::empty(),
                ) == operands_at(
                    r.data@,
                    r.pos as int,
                    ir::value_ids(self.values@),
                    (n - i) as nat,
                    ir::value_ids(out@),
                ),
            decreases n - i,
        {
            let idx: u64 = r.read_varint()?;
            let v = self.val(idx)?;
            let ghost before = out@;
            out.push(v);
            assert(ir::value_ids(out@) =~= ir::value_ids(before).push(v.0 as nat));
            i = i + 1;
        }
        Ok(out)
    }

    /// Reads a count and as many operands.
    pub fn read_var_operands(&self, r: &mut Reader) -> (v: Result<Vec<Value>, DecodeError>)
        requires
            old(r).wf(),
        ensures
            reads_values(
                *old(r),
                *final(r),
                v,
                var_operands_at(old(r).data@, old(r).pos as int, ir::value_ids(self.values@)),
            ),
    {
        let n: u64 = r.read_varint()?;
        self.read_operands(r, n)
    }

    /// Reads the operands of a group.
    fn read_group(&self, r: &mut Reader, group: OperandGroup) -> (v: Result<
        Vec<Value>,
        DecodeError,
    >)
        requires
            old(r).wf(),
        ensures
            reads_values(
                *old(r),
                *final(r),
                v,
                group_at(old(r).data@, old(r).pos as int, ir::value_ids(self.values@), group),
            ),
    {
        match group {
            OperandGroup::One | OperandGroup::Optional(true) => self.read_operands(r, 1),
            OperandGroup::Many => self.read_var_operands(r),
            OperandGroup::Optional(false) => {
                let none: Vec<Value> = Vec::new();
                assert(ir::value_ids(none@) =~= Seq::empty());
                Ok(none)
            },
        }
    }

    /// Reads the operands of groups, and gives them and the sizes of the groups.
    fn read_groups(&self, r: &mut Reader, groups: &Vec<OperandGroup>) -> (v: Result<
        (Vec<Value>, Vec<i32>),
        DecodeError,
    >)
        requires
            old(r).wf(),
        ensures
            reads_operands(
                *old(r),
                *final(r),
                v,
                groups_at(
                    old(r).data@,
                    old(r).pos as int,
                    ir::value_ids(self.values@),
                    groups@,
                    (Seq::empty(), Seq::empty()),
                ),
            ),
    {
        let mut operands: Vec<Value> = Vec::new();
        let mut segments: Vec<i32> = Vec::new();
        let mut i: usize = 0;
        assert(ir::value_ids(operands@) =~= Seq::empty());
        assert(groups@.skip(0) =~= groups@);
        while i < groups.len()
            invariant
                i <= groups.len(),
                r.wf(),
                old(r).pos <= r.pos,
                r.data == old(r).data,
                groups_at(
                    old(r).data@,
                    old(r).pos as int,
                    ir::value_ids(self.values@),
                    groups@,
                    (Seq::empty(), Seq::empty()),
                ) == groups_at(
                    r.data@,
                    r.pos as int,
                    ir::value_ids(self.values@),
                    groups@.skip(i as int),
                    (ir::value_ids(operands@), segments@),
                ),
            decreases groups.len() - i,
        {
            let mut group = self.read_group(r, groups[i])?;
            let n: u64 = group.len() as u64;
            let ghost before = operands@;
            let ghost added = group@;
            operands.append(&mut group);
            segments.push(to_signed32((n % 0x1_0000_0000) as u32));
            assert(ir::value_ids(operands@) =~= ir::value_ids(before) + ir::value_ids(added));
            assert(groups@.skip(i as int).skip(1) =~= groups@.skip(i + 1));
            i = i + 1;
        }
        Ok((operands, segments))
    }

    /// Reads the operands of an operation, and gives them and the sizes of its
    /// operand groups.
    fn read_op_operands(&self, op: Opcode, flags: u64, r: &mut Reader) -> (v: Result<
        (Vec<Value>, Vec<i32>),
        DecodeError,
    >)
        requires
            old(r).wf(),
        ensures
            reads_operands(
                *old(r),
                *final(r),
                v,
                op_operands_at(
                    op,
                    old(r).data@,
                    old(r).pos as int,
                    ir::value_ids(self.values@),
                    flags,
                ),
            ),
    {
        match groups_of(op, flags) {
            Some(groups) => self.read_groups(r, &groups),
            None => {
                let operands = match op.fixed_operand_count() {
                    Some(n) => self.read_operands(r, n as u64)?,
                    None => self.read_var_operands(r)?,
                };
                Ok((operands, Vec::new()))
            },
        }
    }
}

/// The operand groups of an operation that has them.
fn groups_of(op: Opcode, flags: u64) -> (g: Option<Vec<OperandGroup>>)
    ensures
        match (g, operand_groups(op, flags)) {
            (Some(v), Some(s)) => v@ == s,
            (None, None) => true,
            _ => false,
        },
{
    let one = OperandGroup::One;
    let many = OperandGroup::Many;
    let bit0 = OperandGroup::Optional(flags % 2 == 1);
    let bit1 = OperandGroup::Optional((flags / 2) % 2 == 1);
    let bit2 = OperandGroup::Optional((flags / 4) % 2 == 1);
    let bit3 = OperandGroup::Optional((flags / 8) % 2 == 1);
    let bit4 = OperandGroup::Optional((flags / 16) % 2 == 1);
    let groups = match op {
        Opcode::MakeTensorView => vec![one, many, many],
        Opcode::LoadViewTko => vec![one, many, bit2],
        Opcode::StoreViewTko => vec![one, one, many, bit2],
        Opcode::LoadPtrTko => vec![one, bit2, bit3, bit4],
        Opcode::StorePtrTko => vec![one, one, bit2, bit3],
        Opcode::AtomicRMW => vec![one, one, bit0, bit1],
        Opcode::AtomicCAS => vec![one, one, one, bit0, bit1],
        Opcode::AtomicRedViewTko => vec![one, many, one, bit0],
        _ => {
            return None;
        },
    };
    assert(groups@ =~= operand_groups(op, flags)->Some_0);
    Some(groups)
}

/// What a read of operands does.
pub open spec fn reads_values<'a>(
    before: Reader<'a>,
    after: Reader<'a>,
    r: Result<Vec<Value>, DecodeError>,
    step: Step<Seq<nat>>,
) -> bool {
    &&& after.wf()
    &&& before.pos <= after.pos
    &&& after.data == before.data
    &&& match (r, step) {
        (Ok(v), (Ok(m), q)) => ir::value_ids(v@) == m && after.pos == q,
        (Err(e), (Err(f), q)) => e == f && after.pos == q,
        _ => false,
    }
}

/// What a read of operands and group sizes does.
pub open spec fn reads_operands<'a>(
    before: Reader<'a>,
    after: Reader<'a>,
    r: Result<(Vec<Value>, Vec<i32>), DecodeError>,
    step: Step<(Seq<nat>, Seq<i32>)>,
) -> bool {
    &&& after.wf()
    &&& before.pos <= after.pos
    &&& after.data == before.data
    &&& match (r, step) {
        (Ok((v, s)), (Ok((m, n)), q)) => ir::value_ids(v@) == m && s@ == n && after.pos == q,
        (Err(e), (Err(f), q)) => e == f && after.pos == q,
        _ => false,
    }
}

/// What a read of attributes and flags does.
pub open spec fn reads_flagged<'a>(
    before: Reader<'a>,
    after: Reader<'a>,
    r: Result<(Vec<(String, Attribute)>, u64), DecodeError>,
    step: Step<(Attributes, u64)>,
) -> bool {
    &&& after.wf()
    &&& before.pos <= after.pos
    &&& after.data == before.data
    &&& match (r, step) {
        (Ok((v, f)), (Ok((m, g)), q)) => ir::dictionary_model(v@) == m && f == g && after.pos == q,
        (Err(e), (Err(f), q)) => e == f && after.pos == q,
        _ => false,
    }
}

/// The texts of a sequence of names.
pub open spec fn names_of(s: Seq<&'static str>) -> Seq<Seq<char>> {
    Seq::new(s.len(), |i: int| s[i]@)
}

/// No attributes.
fn no_attributes() -> (v: Vec<(String, Attribute)>)
    ensures
        ir::dictionary_model(v@) == Seq::<(Seq<char>, AttributeModel)>::empty(),
{
    let v: Vec<(String, Attribute)> = Vec::new();
    assert(ir::dictionary_model(v@) =~= Seq::<(Seq<char>, AttributeModel)>::empty());
    v
}

/// Reads one integer attribute for each of `names`.
fn read_ints(r: &mut Reader, names: &Vec<&'static str>) -> (v: Result<
    Vec<(String, Attribute)>,
    DecodeError,
>)
    requires
        old(r).wf(),
    ensures
        attributes::reads_dictionary(
            *old(r),
            *final(r),
            v,
            ints_at(old(r).data@, old(r).pos as int, names_of(names@), Seq::empty()),
        ),
{
    let mut attrs = no_attributes();
    let mut i: usize = 0;
    assert(names_of(names@).skip(0) =~= names_of(names@));
    while i < names.len()
        invariant
            i <= names.len(),
            r.wf(),
            old(r).pos <= r.pos,
            r.data == old(r).data,
            ints_at(old(r).data@, old(r).pos as int, names_of(names@), Seq::empty()) == ints_at(
                r.data@,
                r.pos as int,
                names_of(names@).skip(i as int),
                ir::dictionary_model(attrs@),
            ),
        decreases names.len() - i,
    {
        let v: u64 = r.read_varint()?;
        attrs.push((names[i].to_owned(), int_attr(v)));
        assert(names_of(names@).skip(i as int).skip(1) =~= names_of(names@).skip(i + 1));
        i = i + 1;
    }
    Ok(attrs)
}

/// Reads flags, and one integer attribute for each of `names`.
fn read_flags_and_ints(r: &mut Reader, names: &Vec<&'static str>) -> (v: Result<
    (Vec<(String, Attribute)>, u64),
    DecodeError,
>)
    requires
        old(r).wf(),
    ensures
        reads_flagged(
            *old(r),
            *final(r),
            v,
            flags_and_ints_at(old(r).data@, old(r).pos as int, names_of(names@)),
        ),
{
    let flags: u64 = r.read_varint()?;
    let attrs = read_ints(r, names)?;
    Ok((attrs, flags))
}

/// Reads flags and integer attributes, with an attribute for the lowest flag.
fn read_flagged_ints(r: &mut Reader, names: &Vec<&'static str>, flag: &'static str) -> (v: Result<
    (Vec<(String, Attribute)>, u64),
    DecodeError,
>)
    requires
        old(r).wf(),
    ensures
        reads_flagged(
            *old(r),
            *final(r),
            v,
            flagged_ints_at(old(r).data@, old(r).pos as int, names_of(names@), flag@),
        ),
{
    let (mut attrs, flags) = read_flags_and_ints(r, names)?;
    if flags % 2 == 1 {
        attrs.push((flag.to_owned(), Attribute::Bool(true)));
    }
    Ok((attrs, flags))
}

/// Reads one integer attribute, and leaves it out where it has its default value.
fn read_defaulted_int(r: &mut Reader, name: &'static str, default: u64) -> (v: Result<
    (Vec<(String, Attribute)>, u64),
    DecodeError,
>)
    requires
        old(r).wf(),
    ensures
        reads_flagged(
            *old(r),
            *final(r),
            v,
            defaulted_int_at(old(r).data@, old(r).pos as int, name@, default),
        ),
{
    let v: u64 = r.read_varint()?;
    let mut attrs = no_attributes();
    if v != default {
        attrs.push((name.to_owned(), int_attr(v)));
    }
    Ok((attrs, 0))
}

/// Reads one string attribute.
fn read_string_attribute(r: &mut Reader, t: &Tables, name: &'static str) -> (v: Result<
    (Vec<(String, Attribute)>, u64),
    DecodeError,
>)
    requires
        old(r).wf(),
    ensures
        reads_flagged(
            *old(r),
            *final(r),
            v,
            string_attribute_at(old(r).data@, old(r).pos as int, t@, name@),
        ),
{
    let s = t.read_string_ref(r, DecodeError::StringIndex)?;
    let mut attrs = no_attributes();
    attrs.push((name.to_owned(), Attribute::String(s)));
    Ok((attrs, 0))
}

/// Reads the flags and attributes of a load or store.
fn read_memory_access(r: &mut Reader, t: &Tables) -> (v: Result<
    (Vec<(String, Attribute)>, u64),
    DecodeError,
>)
    requires
        old(r).wf(),
    ensures
        reads_flagged(
            *old(r),
            *final(r),
            v,
            memory_access_at(old(r).data@, old(r).pos as int, t@),
        ),
{
    let flags: u64 = r.read_varint()?;
    let names = if flags % 2 == 1 {
        vec!["memory_ordering_semantics", "memory_scope"]
    } else {
        vec!["memory_ordering_semantics"]
    };
    assert(names_of(names@) =~= if flags % 2 == 1 {
        seq!["memory_ordering_semantics"@, "memory_scope"@]
    } else {
        seq!["memory_ordering_semantics"@]
    });
    let mut attrs = read_ints(r, &names)?;
    if (flags / 2) % 2 == 1 {
        let hints = read_inline_opt_hints(r, t)?;
        attrs.push(("optimization_hints".to_owned(), Attribute::OptimizationHints(hints)));
    }
    Ok((attrs, flags))
}

/// Reads the attributes of a reduction.
fn read_reduction(r: &mut Reader, t: &Tables, names: &Vec<&'static str>) -> (v: Result<
    (Vec<(String, Attribute)>, u64),
    DecodeError,
>)
    requires
        old(r).wf(),
    ensures
        reads_flagged(
            *old(r),
            *final(r),
            v,
            reduction_at(old(r).data@, old(r).pos as int, t@, names_of(names@)),
        ),
{
    let mut attrs = read_ints(r, names)?;
    let identities = read_inline_array(r, t)?;
    attrs.push(("identities".to_owned(), Attribute::Array(identities)));
    Ok((attrs, 0))
}

/// Reads the attribute of a constant.
fn read_constant(r: &mut Reader, t: &Tables, result_types: &Vec<Type>) -> (v: Result<
    (Vec<(String, Attribute)>, u64),
    DecodeError,
>)
    requires
        old(r).wf(),
    ensures
        reads_flagged(
            *old(r),
            *final(r),
            v,
            constant_at(old(r).data@, old(r).pos as int, t@, ir::type_models(result_types@)),
        ),
{
    let data = t.read_constant_data(r, DecodeError::ConstantIndex)?;
    if result_types.len() == 0 {
        return Err(DecodeError::ConstantWithoutResult);
    }
    let element_type = match &result_types[0] {
        Type::Tile(tile) => match &tile.element_type {
            TileElementType::Scalar(s) => Type::Scalar(*s),
            TileElementType::Pointer(p) => Type::Pointer(**p),
        },
        other => other.clone(),
    };
    let mut attrs = no_attributes();
    attrs.push(
        (
            "value".to_owned(),
            Attribute::DenseElements(DenseElements { element_type, shape: Vec::new(), data }),
        ),
    );
    Ok((attrs, 0))
}

/// The integer attributes of the operations that have nothing but integers before
/// their operands.
fn plain_names(op: Opcode) -> (names: Option<Vec<&'static str>>)
    ensures
        match (names, plain_ints(op)) {
            (Some(v), Some(s)) => names_of(v@) == s,
            (None, None) => true,
            _ => false,
        },
{
    let names = match op {
        Opcode::MakeToken
        | Opcode::GetTileBlockId
        | Opcode::GetNumTileBlocks
        | Opcode::Iota
        | Opcode::AbsF
        | Opcode::AbsI
        | Opcode::AndI
        | Opcode::Atan2
        | Opcode::Bitcast
        | Opcode::Broadcast
        | Opcode::Ceil
        | Opcode::Cos
        | Opcode::CosH
        | Opcode::Floor
        | Opcode::IntToPtr
        | Opcode::Log
        | Opcode::Log2
        | Opcode::MulhiI
        | Opcode::NegF
        | Opcode::Offset
        | Opcode::OrI
        | Opcode::Pow
        | Opcode::PtrToInt
        | Opcode::PtrToPtr
        | Opcode::RemF
        | Opcode::Reshape
        | Opcode::Select
        | Opcode::Sin
        | Opcode::SinH
        | Opcode::Tan
        | Opcode::XOrI
        | Opcode::MakePartitionView
        | Opcode::MmaFScaled
        | Opcode::MakeStridedView
        | Opcode::MakeGatherScatterView
        | Opcode::Pack
        | Opcode::Unpack
        | Opcode::GetIndexSpaceShape
        | Opcode::GetTensorShape
        | Opcode::JoinTokens
        | Opcode::Extract
        | Opcode::Return
        | Opcode::Yield
        | Opcode::Break
        | Opcode::Continue
        | Opcode::MakeTensorView
        | Opcode::Loop
        | Opcode::If => Vec::new(),
        Opcode::AddI | Opcode::MulI | Opcode::SubI | Opcode::ShLI | Opcode::TruncI => vec![
            "overflow",
        ],
        Opcode::ShRI | Opcode::ExtI | Opcode::MaxI | Opcode::MinI | Opcode::RemI => vec![
            "signedness",
        ],
        Opcode::Cat => vec!["dim"],
        Opcode::CmpF => vec!["comparison_predicate", "comparison_ordering"],
        Opcode::CmpI => vec!["comparison_predicate", "signedness"],
        Opcode::DivI => vec!["signedness", "rounding"],
        Opcode::FToI | Opcode::IToF => vec!["signedness", "rounding_mode"],
        Opcode::FToF => vec!["rounding_mode"],
        Opcode::MmaI => vec!["signedness_lhs", "signedness_rhs"],
        _ => {
            return None;
        },
    };
    assert(names_of(names@) =~= plain_ints(op)->Some_0);
    Some(names)
}

/// Reads the attributes of an operation, and its flags.
fn read_op_attributes(op: Opcode, r: &mut Reader, ctx: &OpCtx, result_types: &Vec<Type>) -> (v:
    Result<(Vec<(String, Attribute)>, u64), DecodeError>)
    requires
        old(r).wf(),
    ensures
        reads_flagged(
            *old(r),
            *final(r),
            v,
            op_attributes_at(
                op,
                old(r).data@,
                old(r).pos as int,
                ctx.tables@,
                ctx.version,
                ir::type_models(result_types@),
            ),
        ),
{
    let t = &ctx.tables;
    let since_13_2 = ctx.version >= BytecodeVersion::v13_2();
    let since_13_3 = ctx.version >= BytecodeVersion::v13_3();
    let none: Vec<&'static str> = Vec::new();
    assert(names_of(none@) =~= Seq::empty());
    match op {
        Opcode::Alloca => {
            let names = vec!["num_elem", "alignment"];
            assert(names_of(names@) =~= seq!["num_elem"@, "alignment"@]);
            read_flagged_ints(r, &names, "global")
        },
        Opcode::NegI => if since_13_2 {
            read_defaulted_int(r, "overflow", 0)
        } else {
            Ok((no_attributes(), 0))
        },
        Opcode::Permute => {
            let v = r.read_var_size_i32()?;
            let mut attrs = no_attributes();
            attrs.push(("permutation".to_owned(), Attribute::DenseI32Array(v)));
            Ok((attrs, 0))
        },
        Opcode::AddF
        | Opcode::DivF
        | Opcode::MulF
        | Opcode::SubF
        | Opcode::Fma
        | Opcode::Sqrt => {
            let names = vec!["rounding_mode"];
            assert(names_of(names@) =~= seq!["rounding_mode"@]);
            read_flagged_ints(r, &names, "flush_to_zero")
        },
        Opcode::Exp2 | Opcode::Rsqrt => read_flagged_ints(r, &none, "flush_to_zero"),
        Opcode::Exp => if since_13_3 {
            read_defaulted_int(r, "rounding_mode", 5)
        } else {
            Ok((no_attributes(), 0))
        },
        Opcode::TanH => if since_13_2 {
            read_defaulted_int(r, "rounding_mode", 5)
        } else {
            Ok((no_attributes(), 0))
        },
        Opcode::MmaF => if since_13_3 {
            read_flagged_ints(r, &none, "fast_acc")
        } else {
            Ok((no_attributes(), 0))
        },
        Opcode::MaxF | Opcode::MinF => {
            let (mut attrs, flags) = read_flagged_ints(r, &none, "propagate_nan")?;
            if (flags / 2) % 2 == 1 {
                attrs.push(("flush_to_zero".to_owned(), Attribute::Bool(true)));
            }
            Ok((attrs, flags))
        },
        Opcode::Constant => read_constant(r, t, result_types),
        Opcode::Assume => {
            let a = read_self_contained_attribute(r, t)?;
            let mut attrs = no_attributes();
            attrs.push(("predicate".to_owned(), a));
            Ok((attrs, 0))
        },
        Opcode::Assert => read_string_attribute(r, t, "message"),
        Opcode::GetGlobal => read_string_attribute(r, t, "name"),
        Opcode::Print => {
            if since_13_2 {
                let _flags: u64 = r.read_varint()?;
            }
            read_string_attribute(r, t, "str")
        },
        Opcode::LoadViewTko | Opcode::StoreViewTko | Opcode::LoadPtrTko | Opcode::StorePtrTko =>
            read_memory_access(r, t),
        Opcode::AtomicRMW | Opcode::AtomicRedViewTko => {
            let names = vec!["memory_ordering_semantics", "memory_scope", "mode"];
            assert(names_of(names@) =~= seq![
                "memory_ordering_semantics"@,
                "memory_scope"@,
                "mode"@,
            ]);
            read_flags_and_ints(r, &names)
        },
        Opcode::AtomicCAS => {
            let names = vec!["memory_ordering_semantics", "memory_scope"];
            assert(names_of(names@) =~= seq!["memory_ordering_semantics"@, "memory_scope"@]);
            read_flags_and_ints(r, &names)
        },
        Opcode::For => if since_13_2 {
            read_flagged_ints(r, &none, "unsigned_cmp")
        } else {
            Ok((no_attributes(), 0))
        },
        Opcode::Reduce => {
            let names = vec!["dim"];
            assert(names_of(names@) =~= seq!["dim"@]);
            read_reduction(r, t, &names)
        },
        Opcode::Scan => {
            let names = vec!["dim", "reverse"];
            assert(names_of(names@) =~= seq!["dim"@, "reverse"@]);
            read_reduction(r, t, &names)
        },
        _ => match plain_names(op) {
            None => Err(DecodeError::UnhandledOp(op)),
            Some(names) => {
                let attrs = read_ints(r, &names)?;
                Ok((attrs, 0))
            },
        },
    }
}

/// The state of the reading of a function body.
pub open spec fn body_state<'a, 't>(r: Reader<'a>, ctx: OpCtx<'t>, module: Module) -> BodyState {
    BodyState { pos: r.pos as int, values: ir::value_ids(ctx.values@), module: module@ }
}

/// What every step of the reading of a function body keeps: the buffer, the tables
/// and the version; the position never goes back, and neither a block nor a value in
/// scope is taken away.
pub open spec fn keeps<'a, 't>(
    r0: Reader<'a>,
    r1: Reader<'a>,
    c0: OpCtx<'t>,
    c1: OpCtx<'t>,
    m0: Module,
    m1: Module,
) -> bool {
    &&& r1.wf()
    &&& r1.data == r0.data
    &&& r0.pos <= r1.pos
    &&& c1.tables == c0.tables
    &&& c1.version == c0.version
    &&& c0.values@.len() <= c1.values@.len()
    &&& m0@.blocks.len() <= m1@.blocks.len()
}

/// The sizes of the operand groups, as an attribute.
fn segment_sizes(segments: &Vec<i32>) -> (v: Vec<Attribute>)
    ensures
        ir::attribute_models(v@) == Seq::new(
            segments@.len(),
            |i: int|
                AttributeModel::Integer(
                    segments@[i] as i64,
                    TypeModel::Scalar(ScalarType::I32),
                ),
        ),
{
    let mut v: Vec<Attribute> = Vec::new();
    let mut i: usize = 0;
    while i < segments.len()
        invariant
            i <= segments.len(),
            v@.len() == i,
            forall|j: int|
                0 <= j < i ==> (#[trigger] v@[j])@ == AttributeModel::Integer(
                    segments@[j] as i64,
                    TypeModel::Scalar(ScalarType::I32),
                ),
        decreases segments.len() - i,
    {
        v.push(Attribute::Integer(segments[i] as i64, Type::Scalar(ScalarType::I32)));
        i = i + 1;
    }
    assert(ir::attribute_models(v@) =~= Seq::new(
        segments@.len(),
        |i: int|
            AttributeModel::Integer(segments@[i] as i64, TypeModel::Scalar(ScalarType::I32)),
    ));
    v
}

/// Reads the types of the results of an operation.
pub fn read_result_types(op: Opcode, r: &mut Reader, ctx: &OpCtx) -> (ts: Result<
    Vec<Type>,
    DecodeError,
>)
    requires
        old(r).wf(),
    ensures
        final(r).wf(),
        old(r).pos <= final(r).pos,
        final(r).data == old(r).data,
        match (ts, result_types_at(op, old(r).data@, old(r).pos as int, ctx.tables@)) {
            (Ok(v), (Ok(m), q)) => ir::type_models(v@) == m && final(r).pos == q,
            (Err(e), (Err(f), q)) => e == f && final(r).pos == q,
            _ => false,
        },
{
    let n: u64 = match op.fixed_result_count() {
        Some(n) => n as u64,
        None => r.read_varint()?,
    };
    read_type_refs(r, ctx.tables.types, n, DecodeError::ResultTypeIndex)
}

/// Whether an operation has regions.
fn op_has_regions(op: Opcode) -> (b: bool)
    ensures
        b == has_regions(op),
{
    match op {
        Opcode::For | Opcode::Loop | Opcode::If | Opcode::Reduce | Opcode::Scan => true,
        _ => false,
    }
}

/// Reads one operation behind its code, and puts it at the end of a block.
pub fn read_op(
    op: Opcode,
    r: &mut Reader,
    ctx: &mut OpCtx,
    module: &mut Module,
    block: BlockId,
) -> (res: Result<(), DecodeError>)
    requires
        old(r).wf(),
        block.0 < old(module)@.blocks.len(),
    ensures
        keeps(*old(r), *final(r), *old(ctx), *final(ctx), *old(module), *final(module)),
        (res, body_state(*final(r), *final(ctx), *final(module))) == op_at(
            op,
            old(r).data@,
            body_state(*old(r), *old(ctx), *old(module)),
            old(ctx).tables@,
            old(ctx).version,
            block.0 as nat,
        ),
    decreases old(r).data@.len() - old(r).pos, 1int,
{
    reveal(op_fields_at);
    let result_types = read_result_types(op, r, ctx)?;
    let (mut attributes, flags) = read_op_attributes(op, r, ctx, &result_types)?;
    let (operands, segments) = ctx.read_op_operands(op, flags, r)?;
    if segments.len() > 0 {
        let sizes = segment_sizes(&segments);
        attributes.push(("operandSegmentSizes".to_owned(), Attribute::Array(sizes)));
    }
    let regions = if op_has_regions(op) {
        read_regions(r, ctx, module)?
    } else {
        let none: Vec<RegionId> = Vec::new();
        assert(ir::region_ids(none@) =~= Seq::empty());
        none
    };
    let ghost values = ctx.values@;
    let (id, mut results) = build_op(module, op, &result_types, operands, attributes, regions);
    let ghost fresh = results@;
    append_op(module, block, id);
    ctx.values.append(&mut results);
    assert(ir::value_ids(ctx.values@) =~= ir::value_ids(values) + ir::value_ids(fresh));
    Ok(())
}

/// Reads a count and as many regions.
pub fn read_regions(r: &mut Reader, ctx: &mut OpCtx, module: &mut Module) -> (res: Result<
    Vec<RegionId>,
    DecodeError,
>)
    requires
        old(r).wf(),
    ensures
        keeps(*old(r), *final(r), *old(ctx), *final(ctx), *old(module), *final(module)),
        match (
            res,
            regions_at(
                old(r).data@,
                body_state(*old(r), *old(ctx), *old(module)),
                old(ctx).tables@,
                old(ctx).version,
            ),
        ) {
            (Ok(v), (Ok(m), s)) => ir::region_ids(v@) == m && s == body_state(
                *final(r),
                *final(ctx),
                *final(module),
            ),
            (Err(e), (Err(f), s)) => e == f && s == body_state(
                *final(r),
                *final(ctx),
                *final(module),
            ),
            _ => false,
        },
    decreases old(r).data@.len() - old(r).pos, 0int,
{
    let n: u64 = r.read_varint()?;
    let mut out: Vec<RegionId> = Vec::new();
    let mut i: u64 = 0;
    assert(ir::region_ids(out@) =~= Seq::empty());
    while i < n
        invariant
            i <= n,
            old(r).pos < r.pos,
            keeps(*old(r), *r, *old(ctx), *ctx, *old(module), *module),
            regions_at(
                old(r).data@,
                body_state(*old(r), *old(ctx), *old(module)),
                old(ctx).tables@,
                old(ctx).version,
            ) == region_list_at(
                r.data@,
                body_state(*r, *ctx, *module),
                ctx.tables@,
                ctx.version,
                (n - i) as nat,
                ir::region_ids(out@),
            ),
        decreases n - i,
    {
        let id = read_region(r, ctx, module)?;
        let ghost before = out@;
        out.push(id);
        assert(ir::region_ids(out@) =~= ir::region_ids(before).push(id.0 as nat));
        i = i + 1;
    }
    Ok(out)
}

/// Reads one region: a count and as many blocks.
pub fn read_region(r: &mut Reader, ctx: &mut OpCtx, module: &mut Module) -> (res: Result<
    RegionId,
    DecodeError,
>)
    requires
        old(r).wf(),
    ensures
        keeps(*old(r), *final(r), *old(ctx), *final(ctx), *old(module), *final(module)),
        res is Ok ==> old(r).pos < final(r).pos,
        match (
            res,
            region_at(
                old(r).data@,
                body_state(*old(r), *old(ctx), *old(module)),
                old(ctx).tables@,
                old(ctx).version,
            ),
        ) {
            (Ok(id), (Ok(m), s)) => id.0 == m && s == body_state(
                *final(r),
                *final(ctx),
                *final(module),
            ),
            (Err(e), (Err(f), s)) => e == f && s == body_state(
                *final(r),
                *final(ctx),
                *final(module),
            ),
            _ => false,
        },
    decreases old(r).data@.len() - old(r).pos, 0int,
{
    let n: u64 = r.read_varint()?;
    let mut blocks: Vec<BlockId> = Vec::new();
    let mut i: u64 = 0;
    assert(ir::block_ids(blocks@) =~= Seq::empty());
    while i < n
        invariant
            i <= n,
            old(r).pos < r.pos,
            keeps(*old(r), *r, *old(ctx), *ctx, *old(module), *module),
            region_at(
                old(r).data@,
                body_state(*old(r), *old(ctx), *old(module)),
                old(ctx).tables@,
                old(ctx).version,
            ) == (match block_list_at(
                r.data@,
                body_state(*r, *ctx, *module),
                ctx.tables@,
                ctx.version,
                (n - i) as nat,
                ir::block_ids(blocks@),
            ) {
                (Err(e), s) => (Err::<nat, DecodeError>(e), s),
                (Ok(ids), s) => (
                    Ok::<nat, DecodeError>(s.module.regions.len()),
                    BodyState { module: s.module.with_region(ids), ..s },
                ),
            }),
        decreases n - i,
    {
        let id = read_block(r, ctx, module)?;
        let ghost before = blocks@;
        blocks.push(id);
        assert(ir::block_ids(blocks@) =~= ir::block_ids(before).push(id.0 as nat));
        i = i + 1;
    }
    Ok(module.alloc_region(Region { blocks }))
}

/// Reads one block: the types of its arguments, and its operations.
pub fn read_block(r: &mut Reader, ctx: &mut OpCtx, module: &mut Module) -> (res: Result<
    BlockId,
    DecodeError,
>)
    requires
        old(r).wf(),
    ensures
        keeps(*old(r), *final(r), *old(ctx), *final(ctx), *old(module), *final(module)),
        res is Ok ==> old(r).pos < final(r).pos,
        match (
            res,
            block_at(
                old(r).data@,
                body_state(*old(r), *old(ctx), *old(module)),
                old(ctx).tables@,
                old(ctx).version,
            ),
        ) {
            (Ok(id), (Ok(m), s)) => id.0 == m && s == body_state(
                *final(r),
                *final(ctx),
                *final(module),
            ),
            (Err(e), (Err(f), s)) => e == f && s == body_state(
                *final(r),
                *final(ctx),
                *final(module),
            ),
            _ => false,
        },
    decreases old(r).data@.len() - old(r).pos, 0int,
{
    let saved: usize = ctx.values.len();
    let n_args: u64 = r.read_varint()?;
    let arg_types = read_type_refs(r, ctx.tables.types, n_args, DecodeError::ResultTypeIndex)?;
    let (block, mut args) = build_block(module, &arg_types);
    let ghost values = ctx.values@;
    let ghost fresh = args@;
    ctx.values.append(&mut args);
    assert(ir::value_ids(ctx.values@) =~= ir::value_ids(values) + ir::value_ids(fresh));
    let n_ops: u64 = r.read_varint()?;
    let mut i: u64 = 0;
    while i < n_ops
        invariant
            i <= n_ops,
            old(r).pos < r.pos,
            keeps(*old(r), *r, *old(ctx), *ctx, *old(module), *module),
            block.0 < module@.blocks.len(),
            saved <= ctx.values@.len(),
            block_at(
                old(r).data@,
                body_state(*old(r), *old(ctx), *old(module)),
                old(ctx).tables@,
                old(ctx).version,
            ) == (match op_list_at(
                r.data@,
                body_state(*r, *ctx, *module),
                ctx.tables@,
                ctx.version,
                (n_ops - i) as nat,
                block.0 as nat,
            ) {
                (Err(e), s) => (Err::<nat, DecodeError>(e), s),
                (Ok(_), s) => (
                    Ok::<nat, DecodeError>(block.0 as nat),
                    BodyState { values: s.values.take(saved as int), ..s },
                ),
            }),
        decreases n_ops - i,
    {
        let code: u64 = r.read_varint()?;
        let op = match Opcode::from_u16((code % 0x1_0000) as u16) {
            Some(op) => op,
            None => {
                return Err(DecodeError::UnknownOpcodeInBlock);
            },
        };
        read_op(op, r, ctx, module, block)?;
        i = i + 1;
    }
    let ghost all = ctx.values@;
    ctx.values.truncate(saved);
    assert(ir::value_ids(ctx.values@) =~= ir::value_ids(all).take(saved as int));
    Ok(block)
}

} // verus!
