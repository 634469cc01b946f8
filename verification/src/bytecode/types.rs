//! The typed reading of the type section.

use vstd::prelude::*;

use crate::bytecode::enums;
use crate::bytecode::enums::{BytecodeVersion, TypeTag};
use crate::bytecode::reader;
use crate::bytecode::reader::{to_signed32, Reader, Step};
use crate::error::DecodeError;
use crate::ir;
use crate::ir::{
    ElementModel, FuncType, GatherScatterViewType, PaddingValue, PartitionViewType, PointerType, ScalarType,
    StridedViewType, TensorViewModel, TensorViewType, TileElementType, TileType, Type, TypeModel,
};



verus! {

/// The scalar type of a tag, where the tag is that of a scalar.
pub open spec fn scalar_of(tag: u64) -> Option<ScalarType> {
    match enums::type_tag_of(tag) {
        Some(TypeTag::I1) => Some(ScalarType::I1),
        Some(TypeTag::I4) => Some(ScalarType::I4),
        Some(TypeTag::I8) => Some(ScalarType::I8),
        Some(TypeTag::I16) => Some(ScalarType::I16),
        Some(TypeTag::I32) => Some(ScalarType::I32),
        Some(TypeTag::I64) => Some(ScalarType::I64),
        Some(TypeTag::F16) => Some(ScalarType::F16),
        Some(TypeTag::BF16) => Some(ScalarType::BF16),
        Some(TypeTag::F32) => Some(ScalarType::F32),
        Some(TypeTag::TF32) => Some(ScalarType::TF32),
        Some(TypeTag::F64) => Some(ScalarType::F64),
        Some(TypeTag::F8E4M3FN) => Some(ScalarType::F8E4M3FN),
        Some(TypeTag::F8E5M2) => Some(ScalarType::F8E5M2),
        Some(TypeTag::F8E8M0FNU) => Some(ScalarType::F8E8M0FNU),
        Some(TypeTag::F4E2M1FN) => Some(ScalarType::F4E2M1FN),
        _ => None,
    }
}

/// The scalar type of a tag, `None` where the tag is not that of a scalar.
pub fn scalar_from_tag(tag: u64) -> (s: Option<ScalarType>)
    ensures
        s == scalar_of(tag),
{
    match TypeTag::from_tag(tag) {
        Some(TypeTag::I1) => Some(ScalarType::I1),
        Some(TypeTag::I4) => Some(ScalarType::I4),
        Some(TypeTag::I8) => Some(ScalarType::I8),
        Some(TypeTag::I16) => Some(ScalarType::I16),
        Some(TypeTag::I32) => Some(ScalarType::I32),
        Some(TypeTag::I64) => Some(ScalarType::I64),
        Some(TypeTag::F16) => Some(ScalarType::F16),
        Some(TypeTag::BF16) => Some(ScalarType::BF16),
        Some(TypeTag::F32) => Some(ScalarType::F32),
        Some(TypeTag::TF32) => Some(ScalarType::TF32),
        Some(TypeTag::F64) => Some(ScalarType::F64),
        Some(TypeTag::F8E4M3FN) => Some(ScalarType::F8E4M3FN),
        Some(TypeTag::F8E5M2) => Some(ScalarType::F8E5M2),
        Some(TypeTag::F8E8M0FNU) => Some(ScalarType::F8E8M0FNU),
        Some(TypeTag::F4E2M1FN) => Some(ScalarType::F4E2M1FN),
        _ => None,
    }
}

/// The padding value of a byte.
pub open spec fn padding_of(b: u8) -> Result<PaddingValue, DecodeError> {
    match b {
        0 => Ok(PaddingValue::Zero),
        1 => Ok(PaddingValue::NegZero),
        2 => Ok(PaddingValue::Nan),
        3 => Ok(PaddingValue::PosInf),
        4 => Ok(PaddingValue::NegInf),
        _ => Err(DecodeError::InvalidPaddingValue(b)),
    }
}

/// The padding value of a byte.
pub fn padding_from_u8(b: u8) -> (r: Result<PaddingValue, DecodeError>)
    ensures
        r == padding_of(b),
{
    match b {
        0 => Ok(PaddingValue::Zero),
        1 => Ok(PaddingValue::NegZero),
        2 => Ok(PaddingValue::Nan),
        3 => Ok(PaddingValue::PosInf),
        4 => Ok(PaddingValue::NegInf),
        _ => Err(DecodeError::InvalidPaddingValue(b)),
    }
}

/// The tensor view among `prior` at an index.
pub open spec fn tensor_view_of(
    prior: Seq<TypeModel>,
    idx: u64,
) -> Result<TensorViewModel, DecodeError> {
    if idx < prior.len() {
        match prior[idx as int] {
            TypeModel::TensorView(v) => Ok(v),
            _ => Err(DecodeError::NotATensorView),
        }
    } else {
        Err(DecodeError::NotATensorView)
    }
}

/// The tensor view among the types read so far at an index.
pub fn prior_tensor_view(prior: &Vec<Type>, idx: u64) -> (r: Result<TensorViewType, DecodeError>)
    ensures
        match (r, tensor_view_of(ir::type_models(prior@), idx)) {
            (Ok(v), Ok(m)) => v@ == m,
            (Err(e), Err(f)) => e == f,
            _ => false,
        },
{
    if idx < prior.len() as u64 {
        match &prior[idx as usize] {
            Type::TensorView(v) => Ok(v.clone()),
            _ => Err(DecodeError::NotATensorView),
        }
    } else {
        Err(DecodeError::NotATensorView)
    }
}

/// The index of a tensor view among `prior`, and that view.
pub open spec fn tensor_view_at(d: Seq<u8>, p: int, prior: Seq<TypeModel>) -> Step<TensorViewModel> {
    match reader::varint_at(d, p) {
        (Err(e), q) => (Err(e), q),
        (Ok(idx), q) => (tensor_view_of(prior, idx), q),
    }
}

/// The padding value of the byte at `p`.
pub open spec fn padding_value_at(d: Seq<u8>, p: int) -> Step<PaddingValue> {
    match reader::byte_at(d, p) {
        (Err(e), q) => (Err(e), q),
        (Ok(b), q) => (padding_of(b), q),
    }
}

/// The padding value of the byte at `p` where there is one, `None` where not.
pub open spec fn optional_padding_at(d: Seq<u8>, p: int, present: bool) -> Step<Option<PaddingValue>> {
    if present {
        match padding_value_at(d, p) {
            (Err(e), q) => (Err(e), q),
            (Ok(v), q) => (Ok(Some(v)), q),
        }
    } else {
        (Ok(None), p)
    }
}

/// A padding value behind a byte that says whether it follows, in the form of
/// the versions before 13.3.
pub open spec fn flagged_padding_at(d: Seq<u8>, p: int) -> Step<Option<PaddingValue>> {
    match reader::byte_at(d, p) {
        (Err(e), q) => (Err(e), q),
        (Ok(0), q) => (Ok(None), q),
        (Ok(_), q) => match reader::varint_at(d, q) {
            (Err(e), q) => (Err(e), q),
            (Ok(v), q) => match padding_of((v % 256) as u8) {
                Err(e) => (Err(e), q),
                Ok(pad) => (Ok(Some(pad)), q),
            },
        },
    }
}

/// A pointer type behind its tag: the index of its pointee.
pub open spec fn pointer_at(d: Seq<u8>, p: int, prior: Seq<TypeModel>) -> Step<TypeModel> {
    match reader::varint_at(d, p) {
        (Err(e), q) => (Err(e), q),
        (Ok(idx), q) => if idx < prior.len() {
            match prior[idx as int] {
                TypeModel::Scalar(s) => (Ok(TypeModel::Pointer(PointerType { pointee: s })), q),
                _ => (Err(DecodeError::PointeeNotScalar), q),
            }
        } else {
            (Err(DecodeError::PointeeNotScalar), q)
        },
    }
}

/// The element of a tile: a scalar or a pointer.
pub open spec fn element_of(prior: Seq<TypeModel>, idx: u64) -> Result<ElementModel, DecodeError> {
    if idx < prior.len() {
        match prior[idx as int] {
            TypeModel::Scalar(s) => Ok(ElementModel::Scalar(s)),
            TypeModel::Pointer(p) => Ok(ElementModel::Pointer(p)),
            _ => Err(DecodeError::TileElement),
        }
    } else {
        Err(DecodeError::TileElement)
    }
}

/// A tile type behind its tag: the index of its element and its shape.
pub open spec fn tile_at(d: Seq<u8>, p: int, prior: Seq<TypeModel>) -> Step<TypeModel> {
    match reader::varint_at(d, p) {
        (Err(e), q) => (Err(e), q),
        (Ok(idx), q) => match reader::var_i64s_at(d, q) {
            (Err(e), q) => (Err(e), q),
            (Ok(shape), q) => match element_of(prior, idx) {
                Err(e) => (Err(e), q),
                Ok(element_type) => (Ok(TypeModel::Tile { shape, element_type }), q),
            },
        },
    }
}

/// A tensor view behind its tag: the index of its element, its shape and its
/// strides.
pub open spec fn tensor_view_type_at(d: Seq<u8>, p: int, prior: Seq<TypeModel>) -> Step<TypeModel> {
    match reader::varint_at(d, p) {
        (Err(e), q) => (Err(e), q),
        (Ok(idx), q) => match reader::var_i64s_at(d, q) {
            (Err(e), q) => (Err(e), q),
            (Ok(shape), q) => match reader::var_i64s_at(d, q) {
                (Err(e), q) => (Err(e), q),
                (Ok(strides), q) => if idx < prior.len() && prior[idx as int] is Scalar {
                    (
                        Ok(
                            TypeModel::TensorView(
                                TensorViewModel {
                                    element_type: prior[idx as int]->Scalar_0,
                                    shape,
                                    strides,
                                },
                            ),
                        ),
                        q,
                    )
                } else {
                    (Err(DecodeError::TensorViewElement), q)
                },
            },
        },
    }
}

/// A partition view behind its tag and, from version 13.3 on, behind its flags:
/// the tile shape, the tensor view, the dimension map, and the padding value.
pub open spec fn partition_view_body_at(
    d: Seq<u8>,
    p: int,
    prior: Seq<TypeModel>,
    padding: Option<bool>,
) -> Step<TypeModel> {
    match reader::var_i32s_at(d, p) {
        (Err(e), q) => (Err(e), q),
        (Ok(tile_shape), q) => match tensor_view_at(d, q, prior) {
            (Err(e), q) => (Err(e), q),
            (Ok(tensor_view), q) => match reader::var_i32s_at(d, q) {
                (Err(e), q) => (Err(e), q),
                (Ok(dim_map), q) => match (match padding {
                    Some(present) => optional_padding_at(d, q, present),
                    None => flagged_padding_at(d, q),
                }) {
                    (Err(e), q) => (Err(e), q),
                    (Ok(padding_value), q) => (
                        Ok(
                            TypeModel::PartitionView {
                                tile_shape,
                                tensor_view,
                                dim_map,
                                padding_value,
                            },
                        ),
                        q,
                    ),
                },
            },
        },
    }
}

/// A partition view behind its tag.
pub open spec fn partition_view_at(
    d: Seq<u8>,
    p: int,
    prior: Seq<TypeModel>,
    version: BytecodeVersion,
) -> Step<TypeModel> {
    if version.rank() >= BytecodeVersion::v13_3().rank() {
        match reader::varint_at(d, p) {
            (Err(e), q) => (Err(e), q),
            (Ok(flags), q) => partition_view_body_at(d, q, prior, Some(flags % 2 == 1)),
        }
    } else {
        partition_view_body_at(d, p, prior, None)
    }
}

/// A gather/scatter view behind its tag: flags, the tile shape, the tensor view,
/// the sparse dimension, and, where the flags are not zero, the padding value.
pub open spec fn gather_scatter_at(d: Seq<u8>, p: int, prior: Seq<TypeModel>) -> Step<TypeModel> {
    match reader::varint_at(d, p) {
        (Err(e), q) => (Err(e), q),
        (Ok(flags), q) => match reader::var_i32s_at(d, q) {
            (Err(e), q) => (Err(e), q),
            (Ok(tile_shape), q) => match tensor_view_at(d, q, prior) {
                (Err(e), q) => (Err(e), q),
                (Ok(tensor_view), q) => match reader::varint_at(d, q) {
                    (Err(e), q) => (Err(e), q),
                    (Ok(dim), q) => match optional_padding_at(d, q, flags != 0) {
                        (Err(e), q) => (Err(e), q),
                        (Ok(padding_value), q) => (
                            Ok(
                                TypeModel::GatherScatterView {
                                    tile_shape,
                                    tensor_view,
                                    sparse_dim: reader::signed32((dim % 0x1_0000_0000) as nat),
                                    padding_value,
                                },
                            ),
                            q,
                        ),
                    },
                },
            },
        },
    }
}

/// A strided view behind its tag: flags, the tile shape, the traversal strides,
/// the tensor view, the dimension map, and, where the flags are not zero, the
/// padding value.
pub open spec fn strided_view_at(d: Seq<u8>, p: int, prior: Seq<TypeModel>) -> Step<TypeModel> {
    match reader::varint_at(d, p) {
        (Err(e), q) => (Err(e), q),
        (Ok(flags), q) => match reader::var_i32s_at(d, q) {
            (Err(e), q) => (Err(e), q),
            (Ok(tile_shape), q) => match reader::var_i32s_at(d, q) {
                (Err(e), q) => (Err(e), q),
                (Ok(traversal_strides), q) => match tensor_view_at(d, q, prior) {
                    (Err(e), q) => (Err(e), q),
                    (Ok(tensor_view), q) => match reader::var_i32s_at(d, q) {
                        (Err(e), q) => (Err(e), q),
                        (Ok(dim_map), q) => match optional_padding_at(d, q, flags != 0) {
                            (Err(e), q) => (Err(e), q),
                            (Ok(padding_value), q) => (
                                Ok(
                                    TypeModel::StridedView {
                                        tile_shape,
                                        traversal_strides,
                                        tensor_view,
                                        dim_map,
                                        padding_value,
                                    },
                                ),
                                q,
                            ),
                        },
                    },
                },
            },
        },
    }
}

/// `n` indices into `prior` and the types they name, behind those in `acc`; `bad`
/// is the error for an index outside it.
pub open spec fn type_refs_at(
    d: Seq<u8>,
    p: int,
    prior: Seq<TypeModel>,
    n: nat,
    bad: DecodeError,
    acc: Seq<TypeModel>,
) -> Step<Seq<TypeModel>>
    decreases n,
{
    if n == 0 {
        (Ok(acc), p)
    } else {
        match reader::varint_at(d, p) {
            (Err(e), q) => (Err(e), q),
            (Ok(idx), q) => if idx < prior.len() {
                type_refs_at(d, q, prior, (n - 1) as nat, bad, acc.push(prior[idx as int]))
            } else {
                (Err(bad), q)
            },
        }
    }
}

/// A list of type references ends inside the buffer.
pub proof fn type_refs_advance(
    d: Seq<u8>,
    p: int,
    prior: Seq<TypeModel>,
    n: nat,
    bad: DecodeError,
    acc: Seq<TypeModel>,
)
    requires
        0 <= p <= d.len(),
    ensures
        p <= type_refs_at(d, p, prior, n, bad, acc).1 <= d.len(),
    decreases n,
{
    reader::varint_advances(d, p);
    if n > 0 {
        if let (Ok(idx), q) = reader::varint_at(d, p) {
            if idx < prior.len() {
                type_refs_advance(d, q, prior, (n - 1) as nat, bad, acc.push(prior[idx as int]));
            }
        }
    }
}

/// A count and as many indices into `prior`, as the types they name.
pub open spec fn var_type_refs_at(
    d: Seq<u8>,
    p: int,
    prior: Seq<TypeModel>,
    bad: DecodeError,
) -> Step<Seq<TypeModel>> {
    match reader::varint_at(d, p) {
        (Err(e), q) => (Err(e), q),
        (Ok(n), q) => type_refs_at(d, q, prior, n as nat, bad, Seq::empty()),
    }
}

/// A function type behind its tag: the types of its inputs and results.
pub open spec fn func_type_at(d: Seq<u8>, p: int, prior: Seq<TypeModel>) -> Step<TypeModel> {
    match var_type_refs_at(d, p, prior, DecodeError::FuncInputIndex) {
        (Err(e), q) => (Err(e), q),
        (Ok(inputs), q) => match var_type_refs_at(d, q, prior, DecodeError::FuncResultIndex) {
            (Err(e), q) => (Err(e), q),
            (Ok(results), q) => (Ok(TypeModel::Func { inputs, results }), q),
        },
    }
}

/// One type entry; the types it refers to are among `prior`.
pub open spec fn type_at(
    d: Seq<u8>,
    p: int,
    prior: Seq<TypeModel>,
    version: BytecodeVersion,
) -> Step<TypeModel> {
    match reader::varint_at(d, p) {
        (Err(e), q) => (Err(e), q),
        (Ok(tag), q) => match scalar_of(tag) {
            Some(s) => (Ok(TypeModel::Scalar(s)), q),
            None => match enums::type_tag_of(tag) {
                Some(TypeTag::Pointer) => pointer_at(d, q, prior),
                Some(TypeTag::Tile) => tile_at(d, q, prior),
                Some(TypeTag::TensorView) => tensor_view_type_at(d, q, prior),
                Some(TypeTag::PartitionView) => partition_view_at(d, q, prior, version),
                Some(TypeTag::GatherScatterView) => gather_scatter_at(d, q, prior),
                Some(TypeTag::StridedView) => strided_view_at(d, q, prior),
                Some(TypeTag::Func) => func_type_at(d, q, prior),
                Some(TypeTag::Token) => (Ok(TypeModel::Token), q),
                _ => (Err(DecodeError::UnknownTypeTag(tag)), q),
            },
        },
    }
}

/// `n` type entries behind the types in `acc`, each of which may refer to all
/// before it.
pub open spec fn types_at(
    d: Seq<u8>,
    p: int,
    n: nat,
    version: BytecodeVersion,
    acc: Seq<TypeModel>,
) -> Step<Seq<TypeModel>>
    decreases n,
{
    if n == 0 {
        (Ok(acc), p)
    } else {
        match type_at(d, p, acc, version) {
            (Err(e), q) => (Err(e), q),
            (Ok(t), q) => types_at(d, q, (n - 1) as nat, version, acc.push(t)),
        }
    }
}

/// `n` offsets of four bytes.
pub open spec fn skip_offsets_at(d: Seq<u8>, p: int, n: nat) -> Step<()>
    decreases n,
{
    if n == 0 {
        (Ok(()), p)
    } else {
        match reader::le_at(d, p, 4) {
            (Err(e), q) => (Err(e), q),
            (Ok(_), q) => skip_offsets_at(d, q, (n - 1) as nat),
        }
    }
}

/// The types of a type section: a count, the gap up to a multiple of four, as
/// many offsets, and the entries one behind the other.
pub open spec fn type_section(
    payload: Option<Seq<u8>>,
    version: BytecodeVersion,
) -> Result<Seq<TypeModel>, DecodeError> {
    match payload {
        None => Ok(Seq::empty()),
        Some(d) => match reader::varint_at(d, 0) {
            (Err(e), _) => Err(e),
            (Ok(n), q) => if n == 0 {
                Ok(Seq::empty())
            } else {
                match reader::padding_at(d, q, 4) {
                    (Err(e), _) => Err(e),
                    (Ok(_), q) => match skip_offsets_at(d, q, n as nat) {
                        (Err(e), _) => Err(e),
                        (Ok(_), q) => types_at(
                            d.subrange(q, d.len() as int),
                            0,
                            n as nat,
                            version,
                            Seq::empty(),
                        ).0,
                    },
                }
            },
        },
    }
}

/// Reads the index of a tensor view among `prior`, and gives that view.
fn read_tensor_view(r: &mut Reader, prior: &Vec<Type>) -> (v: Result<TensorViewType, DecodeError>)
    requires
        old(r).wf(),
    ensures
        Reader::reads_view(
            *old(r),
            *final(r),
            v,
            tensor_view_at(old(r).data@, old(r).pos as int, ir::type_models(prior@)),
        ),
{
    let idx: u64 = r.read_varint()?;
    prior_tensor_view(prior, idx)
}

/// Reads a padding value where there is one.
fn read_optional_padding(r: &mut Reader, present: bool) -> (v: Result<
    Option<PaddingValue>,
    DecodeError,
>)
    requires
        old(r).wf(),
    ensures
        Reader::reads(
            *old(r),
            *final(r),
            v,
            optional_padding_at(old(r).data@, old(r).pos as int, present),
        ),
{
    if present {
        let b: u8 = r.read_byte()?;
        Ok(Some(padding_from_u8(b)?))
    } else {
        Ok(None)
    }
}

/// Reads a padding value behind a byte that says whether it follows.
fn read_flagged_padding(r: &mut Reader) -> (v: Result<Option<PaddingValue>, DecodeError>)
    requires
        old(r).wf(),
    ensures
        Reader::reads(
            *old(r),
            *final(r),
            v,
            flagged_padding_at(old(r).data@, old(r).pos as int),
        ),
{
    let b: u8 = r.read_byte()?;
    if b != 0 {
        let v: u64 = r.read_varint()?;
        Ok(Some(padding_from_u8((v % 256) as u8)?))
    } else {
        Ok(None)
    }
}

/// Reads a partition view behind its tag.
fn read_partition_view(r: &mut Reader, prior: &Vec<Type>, version: BytecodeVersion) -> (t: Result<
    Type,
    DecodeError,
>)
    requires
        old(r).wf(),
    ensures
        Reader::reads_view(
            *old(r),
            *final(r),
            t,
            partition_view_at(old(r).data@, old(r).pos as int, ir::type_models(prior@), version),
        ),
{
    let mut has_padding = false;
    let flagged = version >= BytecodeVersion::v13_3();
    if flagged {
        let flags: u64 = r.read_varint()?;
        has_padding = flags % 2 == 1;
    }
    let tile_shape = r.read_var_size_i32()?;
    let tensor_view = read_tensor_view(r, prior)?;
    let dim_map = r.read_var_size_i32()?;
    let padding_value = if flagged {
        read_optional_padding(r, has_padding)?
    } else {
        read_flagged_padding(r)?
    };
    Ok(Type::PartitionView(PartitionViewType { tile_shape, tensor_view, dim_map, padding_value }))
}

/// Reads a gather/scatter view behind its tag.
fn read_gather_scatter_view(r: &mut Reader, prior: &Vec<Type>) -> (t: Result<Type, DecodeError>)
    requires
        old(r).wf(),
    ensures
        Reader::reads_view(
            *old(r),
            *final(r),
            t,
            gather_scatter_at(old(r).data@, old(r).pos as int, ir::type_models(prior@)),
        ),
{
    let flags: u64 = r.read_varint()?;
    let has_padding = flags != 0;
    let tile_shape = r.read_var_size_i32()?;
    let tensor_view = read_tensor_view(r, prior)?;
    let dim: u64 = r.read_varint()?;
    let sparse_dim: i32 = to_signed32((dim % 0x1_0000_0000) as u32);
    let padding_value = read_optional_padding(r, has_padding)?;
    Ok(
        Type::GatherScatterView(
            GatherScatterViewType { tile_shape, tensor_view, sparse_dim, padding_value },
        ),
    )
}

/// Reads a strided view behind its tag.
fn read_strided_view(r: &mut Reader, prior: &Vec<Type>) -> (t: Result<Type, DecodeError>)
    requires
        old(r).wf(),
    ensures
        Reader::reads_view(
            *old(r),
            *final(r),
            t,
            strided_view_at(old(r).data@, old(r).pos as int, ir::type_models(prior@)),
        ),
{
    let flags: u64 = r.read_varint()?;
    let has_padding = flags != 0;
    let tile_shape = r.read_var_size_i32()?;
    let traversal_strides = r.read_var_size_i32()?;
    let tensor_view = read_tensor_view(r, prior)?;
    let dim_map = r.read_var_size_i32()?;
    let padding_value = read_optional_padding(r, has_padding)?;
    Ok(
        Type::StridedView(
            StridedViewType {
                tile_shape,
                traversal_strides,
                tensor_view,
                dim_map,
                padding_value,
            },
        ),
    )
}

/// Reads `n` indices into `prior` and gives the types they name.
pub fn read_type_refs(r: &mut Reader, prior: &Vec<Type>, n: u64, bad: DecodeError) -> (ts: Result<
    Vec<Type>,
    DecodeError,
>)
    requires
        old(r).wf(),
    ensures
        final(r).wf(),
        old(r).pos <= final(r).pos,
        final(r).data == old(r).data,
        match (
            ts,
            type_refs_at(
                old(r).data@,
                old(r).pos as int,
                ir::type_models(prior@),
                n as nat,
                bad,
                Seq::empty(),
            ),
        ) {
            (Ok(v), (Ok(m), q)) => ir::type_models(v@) == m && final(r).pos == q,
            (Err(e), (Err(f), q)) => e == f && final(r).pos == q,
            _ => false,
        },
{
    let mut out: Vec<Type> = Vec::new();
    let mut i: u64 = 0;
    assert(ir::type_models(out@) =~= Seq::empty());
    while i < n
        invariant
            i <= n,
            r.wf(),
            old(r).pos <= r.pos,
            r.data == old(r).data,
            type_refs_at(
                old(r).data@,
                old(r).pos as int,
                ir::type_models(prior@),
                n as nat,
                bad,
                Seq::empty(),
            ) == type_refs_at(
                r.data@,
                r.pos as int,
                ir::type_models(prior@),
                (n - i) as nat,
                bad,
                ir::type_models(out@),
            ),
        decreases n - i,
    {
        let idx: u64 = r.read_varint()?;
        if idx >= prior.len() as u64 {
            return Err(bad);
        }
        let t = prior[idx as usize].clone();
        let ghost before = out@;
        out.push(t);
        assert(ir::type_models(out@) =~= ir::type_models(before).push(ir::type_models(prior@)[idx as int]));
        i = i + 1;
    }
    Ok(out)
}

/// Reads a function type behind its tag.
fn read_func_type(r: &mut Reader, prior: &Vec<Type>) -> (t: Result<Type, DecodeError>)
    requires
        old(r).wf(),
    ensures
        Reader::reads_view(
            *old(r),
            *final(r),
            t,
            func_type_at(old(r).data@, old(r).pos as int, ir::type_models(prior@)),
        ),
{
    let n_in: u64 = r.read_varint()?;
    let inputs = read_type_refs(r, prior, n_in, DecodeError::FuncInputIndex)?;
    let n_res: u64 = r.read_varint()?;
    let results = read_type_refs(r, prior, n_res, DecodeError::FuncResultIndex)?;
    Ok(Type::Func(FuncType { inputs, results }))
}

/// Reads one type entry; the types it refers to are among `prior`.
pub fn decode_one_type(r: &mut Reader, prior: &Vec<Type>, version: BytecodeVersion) -> (t: Result<
    Type,
    DecodeError,
>)
    requires
        old(r).wf(),
    ensures
        Reader::reads_view(
            *old(r),
            *final(r),
            t,
            type_at(old(r).data@, old(r).pos as int, ir::type_models(prior@), version),
        ),
{
    let tag: u64 = r.read_varint()?;
    if let Some(scalar) = scalar_from_tag(tag) {
        return Ok(Type::Scalar(scalar));
    }
    match TypeTag::from_tag(tag) {
        Some(TypeTag::Pointer) => {
            let idx: u64 = r.read_varint()?;
            if idx >= prior.len() as u64 {
                return Err(DecodeError::PointeeNotScalar);
            }
            match &prior[idx as usize] {
                Type::Scalar(s) => Ok(Type::Pointer(PointerType { pointee: *s })),
                _ => Err(DecodeError::PointeeNotScalar),
            }
        },
        Some(TypeTag::Tile) => {
            let idx: u64 = r.read_varint()?;
            let shape = r.read_var_size_i64()?;
            if idx >= prior.len() as u64 {
                return Err(DecodeError::TileElement);
            }
            let element_type = match &prior[idx as usize] {
                Type::Scalar(s) => TileElementType::Scalar(*s),
                Type::Pointer(p) => TileElementType::Pointer(Box::new(*p)),
                _ => {
                    return Err(DecodeError::TileElement);
                },
            };
            Ok(Type::Tile(TileType { shape, element_type }))
        },
        Some(TypeTag::TensorView) => {
            let idx: u64 = r.read_varint()?;
            let shape = r.read_var_size_i64()?;
            let strides = r.read_var_size_i64()?;
            if idx >= prior.len() as u64 {
                return Err(DecodeError::TensorViewElement);
            }
            match &prior[idx as usize] {
                Type::Scalar(s) => Ok(
                    Type::TensorView(TensorViewType { element_type: *s, shape, strides }),
                ),
                _ => Err(DecodeError::TensorViewElement),
            }
        },
        Some(TypeTag::PartitionView) => read_partition_view(r, prior, version),
        Some(TypeTag::GatherScatterView) => read_gather_scatter_view(r, prior),
        Some(TypeTag::StridedView) => read_strided_view(r, prior),
        Some(TypeTag::Func) => read_func_type(r, prior),
        Some(TypeTag::Token) => Ok(Type::Token),
        _ => Err(DecodeError::UnknownTypeTag(tag)),
    }
}

/// Reads `count` type entries that stand one behind the other.
pub fn decode_types_seq(bytes: &[u8], count: u64, version: BytecodeVersion) -> (ts: Result<
    Vec<Type>,
    DecodeError,
>)
    ensures
        match (ts, types_at(bytes@, 0, count as nat, version, Seq::empty()).0) {
            (Ok(v), Ok(m)) => ir::type_models(v@) == m,
            (Err(e), Err(f)) => e == f,
            _ => false,
        },
{
    let mut r = Reader::new(bytes);
    let mut out: Vec<Type> = Vec::new();
    let mut i: u64 = 0;
    assert(ir::type_models(out@) =~= Seq::empty());
    while i < count
        invariant
            i <= count,
            r.wf(),
            r.data@ == bytes@,
            types_at(bytes@, 0, count as nat, version, Seq::empty()) == types_at(
                bytes@,
                r.pos as int,
                (count - i) as nat,
                version,
                ir::type_models(out@),
            ),
        decreases count - i,
    {
        let t = decode_one_type(&mut r, &out, version)?;
        let ghost before = out@;
        out.push(t);
        assert(ir::type_models(out@) =~= ir::type_models(before).push(t@));
        i = i + 1;
    }
    Ok(out)
}

/// Reads the types of a type section.
#[verifier::loop_isolation(false)]
pub fn parse_types(payload: Option<&[u8]>, version: BytecodeVersion) -> (ts: Result<
    Vec<Type>,
    DecodeError,
>)
    ensures
        match (ts, type_section(reader::payload_bytes(payload), version)) {
            (Ok(v), Ok(m)) => ir::type_models(v@) == m,
            (Err(e), Err(f)) => e == f,
            _ => false,
        },
{
    let empty: Vec<Type> = Vec::new();
    assert(ir::type_models(empty@) =~= Seq::empty());
    let data = match payload {
        None => {
            return Ok(empty);
        },
        Some(data) => data,
    };
    let mut r = Reader::new(data);
    let count: u64 = r.read_varint()?;
    if count == 0 {
        return Ok(empty);
    }
    r.skip_padding(4)?;
    let ghost start = r.pos as int;
    let mut i: u64 = 0;
    while i < count
        invariant
            i <= count,
            r.wf(),
            r.data@ == data@,
            skip_offsets_at(data@, start, count as nat) == skip_offsets_at(
                data@,
                r.pos as int,
                (count - i) as nat,
            ),
        decreases count - i,
    {
        let _offset: u32 = r.read_le_u32()?;
        i = i + 1;
    }
    let left: usize = r.remaining();
    let entries = r.read_bytes(left as u64)?;
    decode_types_seq(entries, count, version)
}

} // verus!
