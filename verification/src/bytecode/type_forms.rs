//! The byte forms of types, and what the reader gives back of them.

use vstd::prelude::*;

use crate::bytecode::encoding;
use crate::bytecode::enums;
use crate::bytecode::enums::{BytecodeVersion, TypeTag};
use crate::bytecode::reader;
use crate::bytecode::types;
use crate::error::DecodeError;
use crate::ir::{ElementModel, PaddingValue, PointerType, ScalarType, TensorViewModel, TypeModel};

verus! {

/// The tag of a scalar type.
pub open spec fn scalar_tag(s: ScalarType) -> TypeTag {
    match s {
        ScalarType::I1 => TypeTag::I1,
        ScalarType::I4 => TypeTag::I4,
        ScalarType::I8 => TypeTag::I8,
        ScalarType::I16 => TypeTag::I16,
        ScalarType::I32 => TypeTag::I32,
        ScalarType::I64 => TypeTag::I64,
        ScalarType::F16 => TypeTag::F16,
        ScalarType::BF16 => TypeTag::BF16,
        ScalarType::F32 => TypeTag::F32,
        ScalarType::TF32 => TypeTag::TF32,
        ScalarType::F64 => TypeTag::F64,
        ScalarType::F8E4M3FN => TypeTag::F8E4M3FN,
        ScalarType::F8E5M2 => TypeTag::F8E5M2,
        ScalarType::F8E8M0FNU => TypeTag::F8E8M0FNU,
        ScalarType::F4E2M1FN => TypeTag::F4E2M1FN,
    }
}

/// The number of a padding value.
pub open spec fn padding_code(v: PaddingValue) -> u8 {
    match v {
        PaddingValue::Zero => 0,
        PaddingValue::NegZero => 1,
        PaddingValue::Nan => 2,
        PaddingValue::PosInf => 3,
        PaddingValue::NegInf => 4,
    }
}

/// The form of a padding value that the flags announce.
pub open spec fn optional_padding_form(v: Option<PaddingValue>) -> Seq<u8> {
    match v {
        Some(v) => seq![padding_code(v)],
        None => Seq::empty(),
    }
}

/// The form of a padding value behind a byte that announces it.
pub open spec fn flagged_padding_form(v: Option<PaddingValue>) -> Seq<u8> {
    match v {
        Some(v) => seq![1u8] + encoding::varint_form(padding_code(v) as nat),
        None => seq![0u8],
    }
}

/// One where a padding value is there, zero where not.
pub open spec fn padding_flag(v: Option<PaddingValue>) -> nat {
    if v is Some {
        1
    } else {
        0
    }
}

/// The form of a reference to a type among `prior`.
pub open spec fn type_ref_form(t: TypeModel, prior: Seq<TypeModel>) -> Seq<u8> {
    encoding::varint_form(prior.index_of(t) as nat)
}

/// The form of references to types among `prior`.
pub open spec fn type_refs_form(ts: Seq<TypeModel>, prior: Seq<TypeModel>) -> Seq<u8>
    decreases ts.len(),
{
    if ts.len() == 0 {
        Seq::empty()
    } else {
        type_ref_form(ts[0], prior) + type_refs_form(ts.skip(1), prior)
    }
}

/// The form of a counted list of references to types among `prior`.
pub open spec fn var_type_refs_form(ts: Seq<TypeModel>, prior: Seq<TypeModel>) -> Seq<u8> {
    encoding::varint_form(ts.len()) + type_refs_form(ts, prior)
}

/// The type that the element of a tile refers to.
pub open spec fn element_type_of(e: ElementModel) -> TypeModel {
    match e {
        ElementModel::Scalar(s) => TypeModel::Scalar(s),
        ElementModel::Pointer(p) => TypeModel::Pointer(p),
    }
}

/// The form of a tag.
pub open spec fn tag_form(t: TypeTag) -> Seq<u8> {
    encoding::varint_form(t.spec_tag() as nat)
}

/// The form of the part of a partition view behind its tag and flags.
pub open spec fn partition_form(
    tile_shape: Seq<i32>,
    tensor_view: TensorViewModel,
    dim_map: Seq<i32>,
    padding: Seq<u8>,
    prior: Seq<TypeModel>,
) -> Seq<u8> {
    encoding::var_i32s_form(tile_shape) + type_ref_form(TypeModel::TensorView(tensor_view), prior)
        + encoding::var_i32s_form(dim_map) + padding
}

/// The form of a type entry. The types it refers to are among `prior`.
pub open spec fn type_form(t: TypeModel, prior: Seq<TypeModel>, version: BytecodeVersion) -> Seq<
    u8,
> {
    match t {
        TypeModel::Scalar(s) => tag_form(scalar_tag(s)),
        TypeModel::Pointer(p) => tag_form(TypeTag::Pointer) + type_ref_form(
            TypeModel::Scalar(p.pointee),
            prior,
        ),
        TypeModel::Tile { shape, element_type } => tag_form(TypeTag::Tile) + type_ref_form(
            element_type_of(element_type),
            prior,
        ) + encoding::var_i64s_form(shape),
        TypeModel::TensorView(v) => tag_form(TypeTag::TensorView) + type_ref_form(
            TypeModel::Scalar(v.element_type),
            prior,
        ) + encoding::var_i64s_form(v.shape) + encoding::var_i64s_form(v.strides),
        TypeModel::PartitionView { tile_shape, tensor_view, dim_map, padding_value } => if version.rank()
            >= BytecodeVersion::v13_3().rank() {
            tag_form(TypeTag::PartitionView) + encoding::varint_form(padding_flag(padding_value))
                + partition_form(
                tile_shape,
                tensor_view,
                dim_map,
                optional_padding_form(padding_value),
                prior,
            )
        } else {
            tag_form(TypeTag::PartitionView) + partition_form(
                tile_shape,
                tensor_view,
                dim_map,
                flagged_padding_form(padding_value),
                prior,
            )
        },
        TypeModel::GatherScatterView { tile_shape, tensor_view, sparse_dim, padding_value } => tag_form(
            TypeTag::GatherScatterView,
        ) + encoding::varint_form(padding_flag(padding_value)) + encoding::var_i32s_form(tile_shape)
            + type_ref_form(TypeModel::TensorView(tensor_view), prior) + encoding::varint_form(
            encoding::bits32(sparse_dim),
        ) + optional_padding_form(padding_value),
        TypeModel::StridedView {
            tile_shape,
            traversal_strides,
            tensor_view,
            dim_map,
            padding_value,
        } => tag_form(TypeTag::StridedView) + encoding::varint_form(padding_flag(padding_value))
            + encoding::var_i32s_form(tile_shape) + encoding::var_i32s_form(traversal_strides)
            + type_ref_form(TypeModel::TensorView(tensor_view), prior) + encoding::var_i32s_form(
            dim_map,
        ) + optional_padding_form(padding_value),
        TypeModel::Func { inputs, results } => tag_form(TypeTag::Func) + var_type_refs_form(
            inputs,
            prior,
        ) + var_type_refs_form(results, prior),
        TypeModel::Token => tag_form(TypeTag::Token),
    }
}

/// All of `ts` are among `prior`.
pub open spec fn all_among(ts: Seq<TypeModel>, prior: Seq<TypeModel>) -> bool {
    forall|i: int| 0 <= i < ts.len() ==> prior.contains(#[trigger] ts[i])
}

/// A type can be written behind `prior`: what it refers to is among them, and its
/// lists are no longer than a count can say.
pub open spec fn writable(t: TypeModel, prior: Seq<TypeModel>) -> bool {
    &&& prior.len() <= u64::MAX
    &&& match t {
        TypeModel::Scalar(_) | TypeModel::Token => true,
        TypeModel::Pointer(p) => prior.contains(TypeModel::Scalar(p.pointee)),
        TypeModel::Tile { shape, element_type } => {
            &&& shape.len() <= u64::MAX
            &&& prior.contains(element_type_of(element_type))
        },
        TypeModel::TensorView(v) => {
            &&& v.shape.len() <= u64::MAX
            &&& v.strides.len() <= u64::MAX
            &&& prior.contains(TypeModel::Scalar(v.element_type))
        },
        TypeModel::PartitionView { tile_shape, tensor_view, dim_map, .. } => {
            &&& tile_shape.len() <= u64::MAX
            &&& dim_map.len() <= u64::MAX
            &&& prior.contains(TypeModel::TensorView(tensor_view))
        },
        TypeModel::GatherScatterView { tile_shape, tensor_view, .. } => {
            &&& tile_shape.len() <= u64::MAX
            &&& prior.contains(TypeModel::TensorView(tensor_view))
        },
        TypeModel::StridedView { tile_shape, traversal_strides, tensor_view, dim_map, .. } => {
            &&& tile_shape.len() <= u64::MAX
            &&& traversal_strides.len() <= u64::MAX
            &&& dim_map.len() <= u64::MAX
            &&& prior.contains(TypeModel::TensorView(tensor_view))
        },
        TypeModel::Func { inputs, results } => {
            &&& inputs.len() <= u64::MAX
            &&& results.len() <= u64::MAX
            &&& all_among(inputs, prior)
            &&& all_among(results, prior)
        },
    }
}

/// The index of a type that is among `prior`, read back.
pub proof fn type_ref_round_trip(d: Seq<u8>, p: int, t: TypeModel, prior: Seq<TypeModel>)
    requires
        encoding::holds(d, p, type_ref_form(t, prior)),
        prior.contains(t),
        prior.len() <= u64::MAX,
    ensures
        0 <= prior.index_of(t) < prior.len(),
        prior[prior.index_of(t)] == t,
        reader::varint_at(d, p) == encoding::read_ok(
            prior.index_of(t) as u64,
            p + type_ref_form(t, prior).len(),
        ),
{
    encoding::varint_round_trip(d, p, prior.index_of(t) as u64);
}

/// References to types among `prior` are read back, behind those read before.
pub proof fn type_refs_round_trip(
    d: Seq<u8>,
    p: int,
    ts: Seq<TypeModel>,
    prior: Seq<TypeModel>,
    bad: DecodeError,
    acc: Seq<TypeModel>,
)
    requires
        encoding::holds(d, p, type_refs_form(ts, prior)),
        all_among(ts, prior),
        prior.len() <= u64::MAX,
    ensures
        types::type_refs_at(d, p, prior, ts.len(), bad, acc) == encoding::read_ok(
            acc + ts,
            p + type_refs_form(ts, prior).len(),
        ),
    decreases ts.len(),
{
    if ts.len() == 0 {
        assert(acc + ts =~= acc);
    } else {
        let first = type_ref_form(ts[0], prior);
        encoding::holds_split(d, p, first, type_refs_form(ts.skip(1), prior));
        type_ref_round_trip(d, p, ts[0], prior);
        assert(all_among(ts.skip(1), prior)) by {
            assert forall|i: int| 0 <= i < ts.skip(1).len() implies prior.contains(
                #[trigger] ts.skip(1)[i],
            ) by {
                assert(prior.contains(ts[i + 1]));
            }
        }
        type_refs_round_trip(d, p + first.len(), ts.skip(1), prior, bad, acc.push(ts[0]));
        assert(acc.push(ts[0]) + ts.skip(1) =~= acc + ts);
    }
}

/// A counted list of references to types among `prior` is read back.
pub proof fn var_type_refs_round_trip(
    d: Seq<u8>,
    p: int,
    ts: Seq<TypeModel>,
    prior: Seq<TypeModel>,
    bad: DecodeError,
)
    requires
        encoding::holds(d, p, var_type_refs_form(ts, prior)),
        all_among(ts, prior),
        prior.len() <= u64::MAX,
        ts.len() <= u64::MAX,
    ensures
        types::var_type_refs_at(d, p, prior, bad) == encoding::read_ok(
            ts,
            p + var_type_refs_form(ts, prior).len(),
        ),
{
    let count = encoding::varint_form(ts.len());
    encoding::holds_split(d, p, count, type_refs_form(ts, prior));
    encoding::varint_round_trip(d, p, ts.len() as u64);
    type_refs_round_trip(d, p + count.len(), ts, prior, bad, Seq::empty());
    assert(Seq::<TypeModel>::empty() + ts =~= ts);
}

/// The padding value of a type is read back.
proof fn padding_round_trip(d: Seq<u8>, p: int, v: Option<PaddingValue>)
    ensures
        encoding::holds(d, p, optional_padding_form(v)) ==> types::optional_padding_at(
            d,
            p,
            v is Some,
        ) == encoding::read_ok(v, p + optional_padding_form(v).len()),
        encoding::holds(d, p, flagged_padding_form(v)) ==> types::flagged_padding_at(d, p)
            == encoding::read_ok(v, p + flagged_padding_form(v).len()),
{
    if encoding::holds(d, p, optional_padding_form(v)) && v is Some {
        assert(d.subrange(p, p + 1)[0] == d[p]);
    }
    if encoding::holds(d, p, flagged_padding_form(v)) {
        match v {
            None => {
                assert(d.subrange(p, p + 1)[0] == d[p]);
            },
            Some(v) => {
                let code = encoding::varint_form(padding_code(v) as nat);
                encoding::holds_split(d, p, seq![1u8], code);
                assert(d.subrange(p, p + 1)[0] == d[p]);
                encoding::varint_round_trip(d, p + 1, padding_code(v) as u64);
            },
        }
    }
}

/// The part of a partition view behind its tag and flags is read back.
proof fn partition_round_trip(
    d: Seq<u8>,
    p: int,
    tile_shape: Seq<i32>,
    tensor_view: TensorViewModel,
    dim_map: Seq<i32>,
    padding_value: Option<PaddingValue>,
    flagged: bool,
    prior: Seq<TypeModel>,
)
    requires
        tile_shape.len() <= u64::MAX,
        dim_map.len() <= u64::MAX,
        prior.len() <= u64::MAX,
        prior.contains(TypeModel::TensorView(tensor_view)),
        encoding::holds(
            d,
            p,
            partition_form(
                tile_shape,
                tensor_view,
                dim_map,
                if flagged {
                    optional_padding_form(padding_value)
                } else {
                    flagged_padding_form(padding_value)
                },
                prior,
            ),
        ),
    ensures
        types::partition_view_body_at(
            d,
            p,
            prior,
            if flagged {
                Some(padding_value is Some)
            } else {
                None
            },
        ) == encoding::read_ok(
            TypeModel::PartitionView { tile_shape, tensor_view, dim_map, padding_value },
            p + partition_form(
                tile_shape,
                tensor_view,
                dim_map,
                if flagged {
                    optional_padding_form(padding_value)
                } else {
                    flagged_padding_form(padding_value)
                },
                prior,
            ).len(),
        ),
{
    let padding = if flagged {
        optional_padding_form(padding_value)
    } else {
        flagged_padding_form(padding_value)
    };
    let a = encoding::var_i32s_form(tile_shape);
    let b = type_ref_form(TypeModel::TensorView(tensor_view), prior);
    let c = encoding::var_i32s_form(dim_map);
    encoding::holds_split(d, p, a + b + c, padding);
    encoding::holds_split(d, p, a + b, c);
    encoding::holds_split(d, p, a, b);
    encoding::var_i32s_round_trip(d, p, tile_shape);
    type_ref_round_trip(d, p + a.len(), TypeModel::TensorView(tensor_view), prior);
    encoding::var_i32s_round_trip(d, p + (a + b).len(), dim_map);
    padding_round_trip(d, p + (a + b + c).len(), padding_value);
}

/// A pointer type is read back.
proof fn pointer_round_trip(
    d: Seq<u8>,
    p: int,
    t: TypeModel,
    prior: Seq<TypeModel>,
    version: BytecodeVersion,
)
    requires
        t is Pointer,
        encoding::holds(d, p, type_form(t, prior, version)),
        writable(t, prior),
    ensures
        types::type_at(d, p, prior, version) == encoding::read_ok(
            t,
            p + type_form(t, prior, version).len(),
        ),
{
    if let TypeModel::Pointer(ptr) = t {
        let tag = tag_form(TypeTag::Pointer);
        let a = type_ref_form(TypeModel::Scalar(ptr.pointee), prior);
        encoding::holds_split(d, p, tag, a);
        encoding::varint_round_trip(d, p, TypeTag::Pointer.spec_tag());
        type_ref_round_trip(d, p + tag.len(), TypeModel::Scalar(ptr.pointee), prior);
    }
}

/// A tile type is read back.
proof fn tile_round_trip(
    d: Seq<u8>,
    p: int,
    t: TypeModel,
    prior: Seq<TypeModel>,
    version: BytecodeVersion,
)
    requires
        t is Tile,
        encoding::holds(d, p, type_form(t, prior, version)),
        writable(t, prior),
    ensures
        types::type_at(d, p, prior, version) == encoding::read_ok(
            t,
            p + type_form(t, prior, version).len(),
        ),
{
    if let TypeModel::Tile { shape, element_type } = t {
        let tag = tag_form(TypeTag::Tile);
        let a = type_ref_form(element_type_of(element_type), prior);
        let b = encoding::var_i64s_form(shape);
        encoding::holds_split(d, p, tag + a, b);
        encoding::holds_split(d, p, tag, a);
        encoding::varint_round_trip(d, p, TypeTag::Tile.spec_tag());
        type_ref_round_trip(d, p + tag.len(), element_type_of(element_type), prior);
        encoding::var_i64s_round_trip(d, p + (tag + a).len(), shape);
    }
}

/// A tensor view is read back.
proof fn tensor_view_round_trip(
    d: Seq<u8>,
    p: int,
    t: TypeModel,
    prior: Seq<TypeModel>,
    version: BytecodeVersion,
)
    requires
        t is TensorView,
        encoding::holds(d, p, type_form(t, prior, version)),
        writable(t, prior),
    ensures
        types::type_at(d, p, prior, version) == encoding::read_ok(
            t,
            p + type_form(t, prior, version).len(),
        ),
{
    if let TypeModel::TensorView(v) = t {
        let tag = tag_form(TypeTag::TensorView);
        let a = type_ref_form(TypeModel::Scalar(v.element_type), prior);
        let b = encoding::var_i64s_form(v.shape);
        let c = encoding::var_i64s_form(v.strides);
        encoding::holds_split(d, p, tag + a + b, c);
        encoding::holds_split(d, p, tag + a, b);
        encoding::holds_split(d, p, tag, a);
        encoding::varint_round_trip(d, p, TypeTag::TensorView.spec_tag());
        type_ref_round_trip(d, p + tag.len(), TypeModel::Scalar(v.element_type), prior);
        encoding::var_i64s_round_trip(d, p + (tag + a).len(), v.shape);
        encoding::var_i64s_round_trip(d, p + (tag + a + b).len(), v.strides);
    }
}

/// A partition view is read back.
proof fn partition_view_round_trip(
    d: Seq<u8>,
    p: int,
    t: TypeModel,
    prior: Seq<TypeModel>,
    version: BytecodeVersion,
)
    requires
        t is PartitionView,
        encoding::holds(d, p, type_form(t, prior, version)),
        writable(t, prior),
    ensures
        types::type_at(d, p, prior, version) == encoding::read_ok(
            t,
            p + type_form(t, prior, version).len(),
        ),
{
    if let TypeModel::PartitionView { tile_shape, tensor_view, dim_map, padding_value } = t {
        let tag = tag_form(TypeTag::PartitionView);
        let flagged = version.rank() >= BytecodeVersion::v13_3().rank();
        if flagged {
            let flags = encoding::varint_form(padding_flag(padding_value));
            let body = partition_form(
                tile_shape,
                tensor_view,
                dim_map,
                optional_padding_form(padding_value),
                prior,
            );
            encoding::holds_split(d, p, tag + flags, body);
            encoding::holds_split(d, p, tag, flags);
            encoding::varint_round_trip(d, p + tag.len(), padding_flag(padding_value) as u64);
        } else {
            encoding::holds_split(
                d,
                p,
                tag,
                partition_form(
                    tile_shape,
                    tensor_view,
                    dim_map,
                    flagged_padding_form(padding_value),
                    prior,
                ),
            );
        }
        encoding::varint_round_trip(d, p, TypeTag::PartitionView.spec_tag());
        partition_round_trip(
            d,
            p + tag.len() + if flagged {
                encoding::varint_form(padding_flag(padding_value)).len()
            } else {
                0
            },
            tile_shape,
            tensor_view,
            dim_map,
            padding_value,
            flagged,
            prior,
        );
    }
}

/// A gather/scatter view is read back.
proof fn gather_scatter_round_trip(
    d: Seq<u8>,
    p: int,
    t: TypeModel,
    prior: Seq<TypeModel>,
    version: BytecodeVersion,
)
    requires
        t is GatherScatterView,
        encoding::holds(d, p, type_form(t, prior, version)),
        writable(t, prior),
    ensures
        types::type_at(d, p, prior, version) == encoding::read_ok(
            t,
            p + type_form(t, prior, version).len(),
        ),
{
    if let TypeModel::GatherScatterView { tile_shape, tensor_view, sparse_dim, padding_value } = t {
        let tag = tag_form(TypeTag::GatherScatterView);
        let f = encoding::varint_form(padding_flag(padding_value));
        let a = encoding::var_i32s_form(tile_shape);
        let b = type_ref_form(TypeModel::TensorView(tensor_view), prior);
        let c = encoding::varint_form(encoding::bits32(sparse_dim));
        let e = optional_padding_form(padding_value);
        encoding::holds_split(d, p, tag + f + a + b + c, e);
        encoding::holds_split(d, p, tag + f + a + b, c);
        encoding::holds_split(d, p, tag + f + a, b);
        encoding::holds_split(d, p, tag + f, a);
        encoding::holds_split(d, p, tag, f);
        encoding::varint_round_trip(d, p, TypeTag::GatherScatterView.spec_tag());
        encoding::varint_round_trip(d, p + tag.len(), padding_flag(padding_value) as u64);
        encoding::var_i32s_round_trip(d, p + (tag + f).len(), tile_shape);
        type_ref_round_trip(
            d,
            p + (tag + f + a).len(),
            TypeModel::TensorView(tensor_view),
            prior,
        );
        encoding::varint_round_trip(
            d,
            p + (tag + f + a + b).len(),
            encoding::bits32(sparse_dim) as u64,
        );
        padding_round_trip(d, p + (tag + f + a + b + c).len(), padding_value);
    }
}

/// A strided view is read back.
proof fn strided_view_round_trip(
    d: Seq<u8>,
    p: int,
    t: TypeModel,
    prior: Seq<TypeModel>,
    version: BytecodeVersion,
)
    requires
        t is StridedView,
        encoding::holds(d, p, type_form(t, prior, version)),
        writable(t, prior),
    ensures
        types::type_at(d, p, prior, version) == encoding::read_ok(
            t,
            p + type_form(t, prior, version).len(),
        ),
{
    if let TypeModel::StridedView {
            tile_shape,
            traversal_strides,
            tensor_view,
            dim_map,
            padding_value,
        } = t {
        let tag = tag_form(TypeTag::StridedView);
        let f = encoding::varint_form(padding_flag(padding_value));
        let a = encoding::var_i32s_form(tile_shape);
        let b = encoding::var_i32s_form(traversal_strides);
        let c = type_ref_form(TypeModel::TensorView(tensor_view), prior);
        let e = encoding::var_i32s_form(dim_map);
        let g = optional_padding_form(padding_value);
        encoding::holds_split(d, p, tag + f + a + b + c + e, g);
        encoding::holds_split(d, p, tag + f + a + b + c, e);
        encoding::holds_split(d, p, tag + f + a + b, c);
        encoding::holds_split(d, p, tag + f + a, b);
        encoding::holds_split(d, p, tag + f, a);
        encoding::holds_split(d, p, tag, f);
        encoding::varint_round_trip(d, p, TypeTag::StridedView.spec_tag());
        encoding::varint_round_trip(d, p + tag.len(), padding_flag(padding_value) as u64);
        encoding::var_i32s_round_trip(d, p + (tag + f).len(), tile_shape);
        encoding::var_i32s_round_trip(d, p + (tag + f + a).len(), traversal_strides);
        type_ref_round_trip(
            d,
            p + (tag + f + a + b).len(),
            TypeModel::TensorView(tensor_view),
            prior,
        );
        encoding::var_i32s_round_trip(d, p + (tag + f + a + b + c).len(), dim_map);
        padding_round_trip(d, p + (tag + f + a + b + c + e).len(), padding_value);
    }
}

/// A function type is read back.
proof fn func_round_trip(
    d: Seq<u8>,
    p: int,
    t: TypeModel,
    prior: Seq<TypeModel>,
    version: BytecodeVersion,
)
    requires
        t is Func,
        encoding::holds(d, p, type_form(t, prior, version)),
        writable(t, prior),
    ensures
        types::type_at(d, p, prior, version) == encoding::read_ok(
            t,
            p + type_form(t, prior, version).len(),
        ),
{
    if let TypeModel::Func { inputs, results } = t {
        let tag = tag_form(TypeTag::Func);
        let a = var_type_refs_form(inputs, prior);
        let b = var_type_refs_form(results, prior);
        encoding::holds_split(d, p, tag + a, b);
        encoding::holds_split(d, p, tag, a);
        encoding::varint_round_trip(d, p, TypeTag::Func.spec_tag());
        var_type_refs_round_trip(
            d,
            p + tag.len(),
            inputs,
            prior,
            DecodeError::FuncInputIndex,
        );
        var_type_refs_round_trip(
            d,
            p + (tag + a).len(),
            results,
            prior,
            DecodeError::FuncResultIndex,
        );
    }
}

/// A type entry is read back.
pub proof fn type_round_trip(
    d: Seq<u8>,
    p: int,
    t: TypeModel,
    prior: Seq<TypeModel>,
    version: BytecodeVersion,
)
    requires
        encoding::holds(d, p, type_form(t, prior, version)),
        writable(t, prior),
    ensures
        types::type_at(d, p, prior, version) == encoding::read_ok(
            t,
            p + type_form(t, prior, version).len(),
        ),
{
    match t {
        TypeModel::Scalar(s) => {
            encoding::varint_round_trip(d, p, scalar_tag(s).spec_tag());
        },
        TypeModel::Token => {
            encoding::varint_round_trip(d, p, TypeTag::Token.spec_tag());
        },
        TypeModel::Pointer(_) => {
            pointer_round_trip(d, p, t, prior, version);
        },
        TypeModel::Tile { .. } => {
            tile_round_trip(d, p, t, prior, version);
        },
        TypeModel::TensorView(_) => {
            tensor_view_round_trip(d, p, t, prior, version);
        },
        TypeModel::PartitionView { .. } => {
            partition_view_round_trip(d, p, t, prior, version);
        },
        TypeModel::GatherScatterView { .. } => {
            gather_scatter_round_trip(d, p, t, prior, version);
        },
        TypeModel::StridedView { .. } => {
            strided_view_round_trip(d, p, t, prior, version);
        },
        TypeModel::Func { .. } => {
            func_round_trip(d, p, t, prior, version);
        },
    }
}

/// Every type stands behind the types that it refers to.
pub open spec fn dependency_first(ts: Seq<TypeModel>) -> bool {
    forall|i: int| 0 <= i < ts.len() ==> writable(#[trigger] ts[i], ts.take(i))
}

/// The form of type entries one behind the other, from number `i` on.
pub open spec fn types_form(ts: Seq<TypeModel>, version: BytecodeVersion, i: nat) -> Seq<u8>
    decreases ts.len() - i,
{
    if i >= ts.len() {
        Seq::empty()
    } else {
        type_form(ts[i as int], ts.take(i as int), version) + types_form(ts, version, i + 1)
    }
}

/// Types that stand behind what they refer to are read back, from number `i` on.
pub proof fn types_round_trip(
    d: Seq<u8>,
    p: int,
    ts: Seq<TypeModel>,
    version: BytecodeVersion,
    i: nat,
)
    requires
        i <= ts.len(),
        dependency_first(ts),
        encoding::holds(d, p, types_form(ts, version, i)),
    ensures
        types::types_at(d, p, (ts.len() - i) as nat, version, ts.take(i as int))
            == encoding::read_ok(ts, p + types_form(ts, version, i).len()),
    decreases ts.len() - i,
{
    if i == ts.len() {
        assert(ts.take(i as int) =~= ts);
    } else {
        let prior = ts.take(i as int);
        let first = type_form(ts[i as int], prior, version);
        encoding::holds_split(d, p, first, types_form(ts, version, i + 1));
        type_round_trip(d, p, ts[i as int], prior, version);
        types_round_trip(d, p + first.len(), ts, version, i + 1);
        assert(prior.push(ts[i as int]) =~= ts.take((i + 1) as int));
    }
}

} // verus!
