//! What the types, attributes and tables of a buffer are made of, byte by byte, and how those
//! are refused that are not.

use vstd::prelude::*;

use crate::bytecode::attributes;
use crate::bytecode::attributes::TablesModel;
use crate::bytecode::decoder;
use crate::bytecode::dump;
use crate::bytecode::enums::BytecodeVersion;
use crate::bytecode::functions;
use crate::bytecode::functions::FunctionModel;
use crate::bytecode::op_laws;
use crate::bytecode::opcode;
use crate::bytecode::ops;
use crate::bytecode::ops::BodyState;
use crate::bytecode::reader;
use crate::bytecode::sections;
use crate::bytecode::types;
use crate::bytecode::wire_laws;
use crate::error::DecodeError;
use crate::ir::{AttributeModel, ElementModel, PaddingValue, PointerType, TypeModel};

verus! {

// ---- types ----

/// What a table has at an index, where the index is in range.
pub open spec fn entry<T>(table: Seq<T>, i: u64) -> Option<T> {
    if i < table.len() {
        Some(table[i as int])
    } else {
        None
    }
}

/// A pointer is the index of a scalar; any other index is refused.
pub proof fn pointers_point_to_scalars(
    d: Seq<u8>,
    p: int,
    prior: Seq<TypeModel>,
    version: BytecodeVersion,
)
    ensures
        op_laws::behind(d, p, 2) is Some && op_laws::number(d, p, 0) == 12 ==> {
            let read = types::type_at(d, p, prior, version);
            let e = entry(prior, op_laws::number(d, p, 1));
            &&& read.1 == op_laws::behind(d, p, 2)->0
            &&& e is Some && e->0 is Scalar ==> read.0 == Ok::<TypeModel, DecodeError>(
                TypeModel::Pointer(PointerType { pointee: e->0->Scalar_0 }),
            )
            &&& !(e is Some && e->0 is Scalar) ==> read.0 == Err::<TypeModel, DecodeError>(
                DecodeError::PointeeNotScalar,
            )
        },
{
    reveal_with_fuel(op_laws::behind, 3);
    reveal_with_fuel(op_laws::number, 3);
}

/// A tile is the index of a scalar or a pointer, and a shape; any other index is refused.
pub proof fn tiles_hold_scalars_or_pointers(
    d: Seq<u8>,
    p: int,
    prior: Seq<TypeModel>,
    version: BytecodeVersion,
)
    ensures
        op_laws::behind(d, p, 2) is Some && op_laws::number(d, p, 0) == 13 ==> {
            let read = types::type_at(d, p, prior, version);
            let e = entry(prior, op_laws::number(d, p, 1));
            let (sizes, q) = reader::var_i64s_at(d, op_laws::behind(d, p, 2)->0);
            &&& sizes is Err ==> read.0 is Err
            &&& sizes matches Ok(shape) ==> read.1 == q && {
                &&& (e matches Some(TypeModel::Scalar(s)) ==> read.0 == Ok::<
                    TypeModel,
                    DecodeError,
                >(TypeModel::Tile { shape, element_type: ElementModel::Scalar(s) }))
                &&& (e matches Some(TypeModel::Pointer(x)) ==> read.0 == Ok::<
                    TypeModel,
                    DecodeError,
                >(TypeModel::Tile { shape, element_type: ElementModel::Pointer(x) }))
                &&& !(e is Some && (e->0 is Scalar || e->0 is Pointer)) ==> read.0 == Err::<
                    TypeModel,
                    DecodeError,
                >(DecodeError::TileElement)
            }
        },
{
    reveal_with_fuel(op_laws::behind, 3);
    reveal_with_fuel(op_laws::number, 3);
}

/// A tensor view is the index of a scalar, a shape and strides; any other index is refused.
pub proof fn tensor_views_hold_scalars(
    d: Seq<u8>,
    p: int,
    prior: Seq<TypeModel>,
    version: BytecodeVersion,
)
    ensures
        op_laws::behind(d, p, 2) is Some && op_laws::number(d, p, 0) == 14 ==> {
            let read = types::type_at(d, p, prior, version);
            let e = entry(prior, op_laws::number(d, p, 1));
            let (first, q) = reader::var_i64s_at(d, op_laws::behind(d, p, 2)->0);
            let (second, r) = reader::var_i64s_at(d, q);
            &&& first is Err || second is Err ==> read.0 is Err
            &&& first is Ok && second is Ok ==> read.1 == r && {
                &&& (e matches Some(TypeModel::Scalar(s)) ==> (read.0 matches Ok(
                    TypeModel::TensorView(v),
                ) && v.element_type == s && v.shape == first->Ok_0 && v.strides == second->Ok_0))
                &&& !(e is Some && e->0 is Scalar) ==> read.0 == Err::<TypeModel, DecodeError>(
                    DecodeError::TensorViewElement,
                )
            }
        },
{
    reveal_with_fuel(op_laws::behind, 3);
    reveal_with_fuel(op_laws::number, 3);
}

/// The padding value with a number.
pub open spec fn padding(n: int) -> Option<PaddingValue> {
    if n == 0 {
        Some(PaddingValue::Zero)
    } else if n == 1 {
        Some(PaddingValue::NegZero)
    } else if n == 2 {
        Some(PaddingValue::Nan)
    } else if n == 3 {
        Some(PaddingValue::PosInf)
    } else if n == 4 {
        Some(PaddingValue::NegInf)
    } else {
        None
    }
}

/// An optional padding value that is a byte where it is announced.
pub open spec fn is_padding_byte(
    d: Seq<u8>,
    q: int,
    announced: bool,
    v: Option<PaddingValue>,
    end: int,
) -> bool {
    if announced {
        q < d.len() && v is Some && v == padding(d[q] as int) && end == q + 1
    } else {
        v is None && end == q
    }
}

/// A gather/scatter view is flags, a tile shape, the index of a tensor view, the sparse
/// dimension in the low 32 bits of a number, and a padding byte where the flags are not zero.
pub proof fn gather_scatter_views_have_their_parts(
    d: Seq<u8>,
    p: int,
    prior: Seq<TypeModel>,
    version: BytecodeVersion,
)
    ensures
        op_laws::behind(d, p, 2) is Some && op_laws::number(d, p, 0) == 21 ==> {
            let read = types::type_at(d, p, prior, version);
            let flags = op_laws::number(d, p, 1);
            let (tile, q) = reader::var_i32s_at(d, op_laws::behind(d, p, 2)->0);
            let view = entry(prior, op_laws::number(d, q, 0));
            let dim = op_laws::number(d, q, 1);
            let r = op_laws::behind(d, q, 2);
            &&& (read.0 matches Ok(ty) ==> {
                &&& tile is Ok && r is Some
                &&& (ty matches TypeModel::GatherScatterView {
                    tile_shape,
                    tensor_view,
                    sparse_dim,
                    padding_value,
                } && {
                    &&& tile_shape == tile->Ok_0
                    &&& view == Some(TypeModel::TensorView(tensor_view))
                    &&& (dim - sparse_dim) % 0x1_0000_0000 == 0
                    &&& is_padding_byte(d, r->0, flags != 0, padding_value, read.1)
                })
            })
            &&& tile is Ok && op_laws::behind(d, q, 1) is Some && !(view is Some
                && view->0 is TensorView) ==> read.0 == Err::<TypeModel, DecodeError>(
                DecodeError::NotATensorView,
            )
            &&& tile is Ok && r is Some && view is Some && view->0 is TensorView ==> {
                &&& flags == 0 ==> read.0 is Ok
                &&& flags != 0 && r->0 < d.len() ==> {
                    &&& d[r->0] <= 4 ==> read.0 is Ok
                    &&& d[r->0] > 4 ==> read.0 == Err::<TypeModel, DecodeError>(
                        DecodeError::InvalidPaddingValue(d[r->0]),
                    )
                }
            }
        },
{
    reveal_with_fuel(op_laws::behind, 4);
    reveal_with_fuel(op_laws::number, 4);
}

/// A strided view is flags, a tile shape, traversal strides, the index of a tensor view, a map
/// of dimensions, and a padding byte where the flags are not zero.
pub proof fn strided_views_have_their_parts(
    d: Seq<u8>,
    p: int,
    prior: Seq<TypeModel>,
    version: BytecodeVersion,
)
    ensures
        op_laws::behind(d, p, 2) is Some && op_laws::number(d, p, 0) == 22 ==> {
            let read = types::type_at(d, p, prior, version);
            let flags = op_laws::number(d, p, 1);
            let (tile, q) = reader::var_i32s_at(d, op_laws::behind(d, p, 2)->0);
            let (steps, u) = reader::var_i32s_at(d, q);
            let view = entry(prior, op_laws::number(d, u, 0));
            let v = op_laws::behind(d, u, 1);
            let (map, r) = reader::var_i32s_at(d, v->0);
            &&& (read.0 matches Ok(ty) ==> {
                &&& tile is Ok && steps is Ok && v is Some && map is Ok
                &&& (ty matches TypeModel::StridedView {
                    tile_shape,
                    traversal_strides,
                    tensor_view,
                    dim_map,
                    padding_value,
                } && {
                    &&& tile_shape == tile->Ok_0
                    &&& traversal_strides == steps->Ok_0
                    &&& view == Some(TypeModel::TensorView(tensor_view))
                    &&& dim_map == map->Ok_0
                    &&& is_padding_byte(d, r, flags != 0, padding_value, read.1)
                })
            })
            &&& tile is Ok && steps is Ok && v is Some && !(view is Some
                && view->0 is TensorView) ==> read.0 == Err::<TypeModel, DecodeError>(
                DecodeError::NotATensorView,
            )
            &&& tile is Ok && steps is Ok && v is Some && map is Ok && view is Some
                && view->0 is TensorView ==> {
                &&& flags == 0 ==> read.0 is Ok
                &&& flags != 0 && r < d.len() ==> {
                    &&& d[r] <= 4 ==> read.0 is Ok
                    &&& d[r] > 4 ==> read.0 == Err::<TypeModel, DecodeError>(
                        DecodeError::InvalidPaddingValue(d[r]),
                    )
                }
            }
        },
{
    reveal_with_fuel(op_laws::behind, 4);
    reveal_with_fuel(op_laws::number, 4);
}

/// The version is 13.3 or a later one.
pub open spec fn since_13_3(version: BytecodeVersion) -> bool {
    version.major > 13 || version.major == 13 && version.minor >= 3
}

/// A partition view is a tile shape, the index of a tensor view, a map of dimensions, and a
/// padding value. From version 13.3 on flags stand first, whose lowest bit announces the
/// padding as a byte; before it a byte that is not zero does, and the padding is the low byte
/// of a number.
pub proof fn partition_views_have_their_parts(
    d: Seq<u8>,
    p: int,
    prior: Seq<TypeModel>,
    version: BytecodeVersion,
)
    ensures
        op_laws::behind(d, p, 1) is Some && op_laws::number(d, p, 0) == 15 ==> {
            let read = types::type_at(d, p, prior, version);
            let new = since_13_3(version);
            let flags = op_laws::number(d, p, 1);
            let o = if new {
                op_laws::behind(d, p, 2)
            } else {
                op_laws::behind(d, p, 1)
            };
            let (tile, q) = reader::var_i32s_at(d, o->0);
            let view = entry(prior, op_laws::number(d, q, 0));
            let v = op_laws::behind(d, q, 1);
            let (map, r) = reader::var_i32s_at(d, v->0);
            let there = o is Some && tile is Ok && v is Some;
            &&& (read.0 matches Ok(ty) ==> {
                &&& there && map is Ok
                &&& (ty matches TypeModel::PartitionView {
                    tile_shape,
                    tensor_view,
                    dim_map,
                    padding_value,
                } && {
                    &&& tile_shape == tile->Ok_0
                    &&& view == Some(TypeModel::TensorView(tensor_view))
                    &&& dim_map == map->Ok_0
                    &&& new ==> is_padding_byte(d, r, flags % 2 == 1, padding_value, read.1)
                    &&& !new ==> r < d.len() && (if d[r] == 0 {
                        padding_value is None && read.1 == r + 1
                    } else {
                        &&& op_laws::behind(d, r + 1, 1) == Some(read.1)
                        &&& padding_value is Some
                        &&& padding_value == padding(op_laws::number(d, r + 1, 0) as int % 256)
                    })
                })
            })
            &&& there && !(view is Some && view->0 is TensorView) ==> read.0 == Err::<
                TypeModel,
                DecodeError,
            >(DecodeError::NotATensorView)
            &&& there && map is Ok && view is Some && view->0 is TensorView ==> {
                &&& new && flags % 2 == 0 ==> read.0 is Ok
                &&& new && flags % 2 == 1 && r < d.len() ==> {
                    &&& d[r] <= 4 ==> read.0 is Ok
                    &&& d[r] > 4 ==> read.0 == Err::<TypeModel, DecodeError>(
                        DecodeError::InvalidPaddingValue(d[r]),
                    )
                }
                &&& !new && r < d.len() && d[r] == 0 ==> read.0 is Ok
                &&& !new && r < d.len() && d[r] != 0 && op_laws::behind(d, r + 1, 1) is Some ==> {
                    let low = op_laws::number(d, r + 1, 0) % 256;
                    &&& low <= 4 ==> read.0 is Ok
                    &&& low > 4 ==> read.0 == Err::<TypeModel, DecodeError>(
                        DecodeError::InvalidPaddingValue(low as u8),
                    )
                }
            }
        },
{
    reveal_with_fuel(op_laws::behind, 4);
    reveal_with_fuel(op_laws::number, 4);
}

proof fn bad_type_indices(
    d: Seq<u8>,
    p: int,
    prior: Seq<TypeModel>,
    n: nat,
    bad: DecodeError,
    acc: Seq<TypeModel>,
    i: nat,
)
    requires
        op_laws::behind(d, p, n) is Some,
        i < n,
        op_laws::number(d, p, i) >= prior.len(),
    ensures
        types::type_refs_at(d, p, prior, n, bad, acc).0 == Err::<Seq<TypeModel>, DecodeError>(bad),
    decreases n,
{
    if let (Ok(idx), q) = reader::varint_at(d, p) {
        if idx < prior.len() {
            bad_type_indices(
                d,
                q,
                prior,
                (n - 1) as nat,
                bad,
                acc.push(prior[idx as int]),
                (i - 1) as nat,
            );
        }
    }
}

/// A function type is the number and the indices of its inputs, and those of its results. An
/// index out of range is refused by the list it is in.
pub proof fn function_types_have_two_lists(
    d: Seq<u8>,
    p: int,
    prior: Seq<TypeModel>,
    version: BytecodeVersion,
    i: nat,
)
    ensures
        op_laws::behind(d, p, 2) is Some && op_laws::number(d, p, 0) == 16 ==> {
            let read = types::type_at(d, p, prior, version);
            let n = op_laws::number(d, p, 1) as nat;
            let q = op_laws::behind(d, p, 2)->0;
            let r = op_laws::behind(d, q, n)->0;
            let m = op_laws::number(d, r, 0) as nat;
            let u = op_laws::behind(d, r, 1)->0;
            let first = op_laws::are_indices(d, q, 0, n, prior);
            &&& op_laws::behind(d, q, n) is Some && i < n && op_laws::number(d, q, i)
                >= prior.len() ==> read.0 == Err::<TypeModel, DecodeError>(
                DecodeError::FuncInputIndex,
            )
            &&& first && op_laws::behind(d, r, 1) is Some && op_laws::behind(d, u, m) is Some && i
                < m && op_laws::number(d, u, i) >= prior.len() ==> read.0 == Err::<
                TypeModel,
                DecodeError,
            >(DecodeError::FuncResultIndex)
            &&& read.0 is Ok <==> first && op_laws::behind(d, r, 1) is Some
                && op_laws::are_indices(d, u, 0, m, prior)
            &&& (read.0 matches Ok(ty) ==> {
                &&& ty == (TypeModel::Func {
                    inputs: op_laws::entries(d, q, 0, n, prior),
                    results: op_laws::entries(d, u, 0, m, prior),
                })
                &&& read.1 == op_laws::behind(d, u, m)->0
            })
        },
{
    reveal_with_fuel(op_laws::behind, 3);
    reveal_with_fuel(op_laws::number, 3);
    if op_laws::behind(d, p, 2) is Some && op_laws::number(d, p, 0) == 16 {
        let n = op_laws::number(d, p, 1) as nat;
        let q = op_laws::behind(d, p, 2)->0;
        op_laws::types_are_indices(d, q, prior, n, DecodeError::FuncInputIndex, Seq::empty());
        if op_laws::behind(d, q, n) is Some && i < n && op_laws::number(d, q, i) >= prior.len() {
            bad_type_indices(d, q, prior, n, DecodeError::FuncInputIndex, Seq::empty(), i);
        }
        if op_laws::are_indices(d, q, 0, n, prior) {
            let r = op_laws::behind(d, q, n)->0;
            if op_laws::behind(d, r, 1) is Some {
                let m = op_laws::number(d, r, 0) as nat;
                let u = op_laws::behind(d, r, 1)->0;
                let bad = DecodeError::FuncResultIndex;
                op_laws::types_are_indices(d, u, prior, m, bad, Seq::empty());
                if op_laws::behind(d, u, m) is Some && i < m && op_laws::number(d, u, i)
                    >= prior.len() {
                    bad_type_indices(d, u, prior, m, bad, Seq::empty(), i);
                }
            }
        }
    }
}

/// Tag 17 alone is a token, and a tag above 22 is refused by its number.
pub proof fn tokens_have_no_parts(
    d: Seq<u8>,
    p: int,
    prior: Seq<TypeModel>,
    version: BytecodeVersion,
)
    ensures
        op_laws::behind(d, p, 1) is Some ==> {
            let read = types::type_at(d, p, prior, version);
            let tag = op_laws::number(d, p, 0);
            &&& tag == 17 ==> read == (
                Ok::<TypeModel, DecodeError>(TypeModel::Token),
                op_laws::behind(d, p, 1)->0,
            )
            &&& tag > 22 ==> read.0 == Err::<TypeModel, DecodeError>(
                DecodeError::UnknownTypeTag(tag),
            )
        },
        op_laws::behind(d, p, 1) is None ==> types::type_at(d, p, prior, version).0 is Err,
{
    reveal_with_fuel(op_laws::behind, 2);
    reveal_with_fuel(op_laws::number, 2);
}
// ---- attributes ----

/// Integers, types and strings are made of indices and a number of 64 bits; an index out of
/// range is refused by the table it is for.
pub proof fn plain_attributes_have_their_parts(d: Seq<u8>, p: int, t: TablesModel)
    requires
        0 <= p <= d.len(),
    ensures
        op_laws::behind(d, p, 2) is Some ==> {
            let read = attributes::attribute_at(d, p, t);
            let tag = op_laws::number(d, p, 0);
            let i = op_laws::number(d, p, 1);
            let v = op_laws::number(d, p, 2);
            &&& (tag == 1 || tag == 2 || tag == 4 || tag == 7) && i >= t.types.len() ==> read.0
                == Err::<AttributeModel, DecodeError>(DecodeError::AttrTypeIndex)
            &&& tag == 5 && i >= t.strings.len() ==> read.0 == Err::<AttributeModel, DecodeError>(
                DecodeError::AttrStringIndex,
            )
            &&& tag == 1 && i < t.types.len() ==> {
                &&& read.0 is Ok <==> op_laws::behind(d, p, 3) is Some
                &&& read.0 is Ok ==> read == (
                    Ok::<AttributeModel, DecodeError>(
                        AttributeModel::Integer(op_laws::two_complement(v), t.types[i as int]),
                    ),
                    op_laws::behind(d, p, 3)->0,
                )
            }
            &&& tag == 4 && i < t.types.len() ==> read == (
                Ok::<AttributeModel, DecodeError>(AttributeModel::Type(t.types[i as int])),
                op_laws::behind(d, p, 2)->0,
            )
            &&& tag == 5 && i < t.strings.len() ==> read == (
                Ok::<AttributeModel, DecodeError>(AttributeModel::String(t.strings[i as int])),
                op_laws::behind(d, p, 2)->0,
            )
        },
        op_laws::behind(d, p, 1) is Some ==> {
            let tag = op_laws::number(d, p, 0);
            tag == 0 || tag > 12 ==> attributes::attribute_at(d, p, t).0 == Err::<
                AttributeModel,
                DecodeError,
            >(DecodeError::UnknownAttributeTag(tag))
        },
{
    reveal_with_fuel(op_laws::behind, 4);
    reveal_with_fuel(op_laws::number, 4);
}

/// A float is the index of its type and its bits in a signed number: as many as a scalar type
/// has, and 64 for any other type.
pub proof fn float_attributes_have_their_bits(d: Seq<u8>, p: int, t: TablesModel)
    requires
        0 <= p <= d.len(),
    ensures
        op_laws::behind(d, p, 2) is Some && op_laws::number(d, p, 0) == 2 && op_laws::number(
            d,
            p,
            1,
        ) < t.types.len() ==> {
            let read = attributes::attribute_at(d, p, t);
            let ty = t.types[op_laws::number(d, p, 1) as int];
            let q = op_laws::behind(d, p, 2)->0;
            let signed = reader::signed_varint_at(d, q);
            &&& (ty matches TypeModel::Scalar(s) ==> {
                let bits = reader::float_bits_at(d, q, s);
                &&& read.0 is Ok <==> bits.0 is Ok
                &&& read.0 is Ok ==> read == (
                    Ok::<AttributeModel, DecodeError>(AttributeModel::Float(bits.0->Ok_0, ty)),
                    bits.1,
                )
            })
            &&& !(ty is Scalar) ==> {
                &&& read.0 is Ok <==> signed.0 is Ok
                &&& read.0 is Ok ==> read.1 == signed.1 && (read.0->Ok_0 matches
                    AttributeModel::Float(bits, of) && of == ty && (signed.0->Ok_0 - bits)
                    % 0x1_0000_0000_0000_0000 == 0)
            }
        },
{
    reveal_with_fuel(op_laws::behind, 3);
    reveal_with_fuel(op_laws::number, 3);
}

/// A truth value is a byte, and true where it is not zero.
pub proof fn truth_values_are_bytes(d: Seq<u8>, p: int, t: TablesModel)
    requires
        0 <= p <= d.len(),
    ensures
        op_laws::behind(d, p, 1) is Some && op_laws::number(d, p, 0) == 3 ==> {
            let read = attributes::attribute_at(d, p, t);
            let q = op_laws::behind(d, p, 1)->0;
            &&& q == d.len() ==> read.0 == Err::<AttributeModel, DecodeError>(
                DecodeError::UnexpectedEnd,
            )
            &&& q < d.len() ==> read == (
                Ok::<AttributeModel, DecodeError>(AttributeModel::Bool(d[q] >= 1)),
                q + 1,
            )
        },
{
    reveal_with_fuel(op_laws::behind, 2);
    reveal_with_fuel(op_laws::number, 2);
    reader::varint_advances(d, p);
}

/// The data of a constant is a number and as many bytes.
pub open spec fn is_data(raw: Seq<u8>, data: Seq<u8>) -> bool {
    let q = op_laws::behind(raw, 0, 1);
    let n = op_laws::number(raw, 0, 0);
    &&& q is Some
    &&& data.len() == n
    &&& q->0 + n <= raw.len()
    &&& forall|k: int| 0 <= k < n ==> data[k] == raw[q->0 + k]
}

/// Dense elements are the index of a type and that of a constant with their data.
pub proof fn dense_elements_are_in_a_constant(d: Seq<u8>, p: int, t: TablesModel)
    requires
        0 <= p <= d.len(),
    ensures
        op_laws::behind(d, p, 3) is Some && op_laws::number(d, p, 0) == 7 && op_laws::number(
            d,
            p,
            1,
        ) < t.types.len() ==> {
            let read = attributes::attribute_at(d, p, t);
            let c = op_laws::number(d, p, 2);
            let raw = t.constants[c as int];
            &&& c >= t.constants.len() ==> read.0 == Err::<AttributeModel, DecodeError>(
                DecodeError::DenseConstIndex,
            )
            &&& c < t.constants.len() ==> {
                &&& read.0 is Ok <==> op_laws::behind(raw, 0, 1) is Some && op_laws::behind(
                    raw,
                    0,
                    1,
                )->0 + op_laws::number(raw, 0, 0) <= raw.len()
                &&& (read.0 matches Ok(a) ==> {
                    &&& read.1 == op_laws::behind(d, p, 3)->0
                    &&& (a matches AttributeModel::DenseElements { element_type, shape, data } && {
                        &&& element_type == t.types[op_laws::number(d, p, 1) as int]
                        &&& shape.len() == 0
                        &&& is_data(raw, data)
                    })
                })
            }
        },
{
    reveal_with_fuel(op_laws::behind, 4);
    reveal_with_fuel(op_laws::number, 4);
    if op_laws::behind(d, p, 3) is Some && op_laws::number(d, p, 2) < t.constants.len() {
        let raw = t.constants[op_laws::number(d, p, 2) as int];
        reader::varint_advances(raw, 0);
    }
}

/// The optional signed number that a bit announces.
pub open spec fn is_optional_number(
    d: Seq<u8>,
    q: int,
    announced: bool,
    v: Option<i64>,
    end: int,
) -> bool {
    if announced {
        reader::signed_varint_at(d, q).0 is Ok && v == Some(
            reader::signed_varint_at(d, q).0->Ok_0,
        ) && end == reader::signed_varint_at(d, q).1
    } else {
        v is None && end == q
    }
}

/// A promise of divisibility is a divisor, a byte of flags, and the signed numbers that its
/// two lowest bits announce: every how many elements, and along which dimension. A promise of
/// bounds is such a byte and the lower and the upper bound.
pub proof fn promises_have_their_parts(d: Seq<u8>, p: int, t: TablesModel, middle: int)
    requires
        0 <= p <= d.len(),
    ensures
        op_laws::behind(d, p, 2) is Some && op_laws::number(d, p, 0) == 8 ==> {
            let read = attributes::attribute_at(d, p, t);
            let q = op_laws::behind(d, p, 2)->0;
            &&& q == d.len() ==> read.0 is Err
            &&& (read.0 matches Ok(a) ==> (a matches AttributeModel::DivBy(v) && {
                &&& v.divisor == op_laws::number(d, p, 1)
                &&& (is_optional_number(d, q + 1, d[q] & 1 != 0, v.every, middle) ==>
                    is_optional_number(d, middle, d[q] & 2 != 0, v.along, read.1))
                &&& (v.every is Some <==> d[q] & 1 != 0)
                &&& (v.every is Some ==> reader::signed_varint_at(d, q + 1).0 == Ok::<
                    i64,
                    DecodeError,
                >(v.every->0))
                &&& (v.along is Some <==> d[q] & 2 != 0)
            }))
        },
        op_laws::behind(d, p, 1) is Some && op_laws::number(d, p, 0) == 12 ==> {
            let read = attributes::attribute_at(d, p, t);
            let q = op_laws::behind(d, p, 1)->0;
            &&& q == d.len() ==> read.0 is Err
            &&& (read.0 matches Ok(a) ==> (a matches AttributeModel::Bounded(v) && {
                &&& (is_optional_number(d, q + 1, d[q] & 1 != 0, v.lb, middle) ==>
                    is_optional_number(d, middle, d[q] & 2 != 0, v.ub, read.1))
                &&& (v.lb is Some <==> d[q] & 1 != 0)
                &&& (v.lb is Some ==> reader::signed_varint_at(d, q + 1).0 == Ok::<
                    i64,
                    DecodeError,
                >(v.lb->0))
                &&& (v.ub is Some <==> d[q] & 2 != 0)
            }))
        },
{
    reveal_with_fuel(op_laws::behind, 3);
    reveal_with_fuel(op_laws::number, 3);
    if op_laws::behind(d, p, 1) is Some {
        let one = d[op_laws::behind(d, p, 1)->0];
        assert((one & 1 != 0 <==> one % 2 == 1) && (one & 2 != 0 <==> (one / 2) % 2 == 1))
            by (bit_vector);
    }
    if op_laws::behind(d, p, 2) is Some {
        let two = d[op_laws::behind(d, p, 2)->0];
        assert((two & 1 != 0 <==> two % 2 == 1) && (two & 2 != 0 <==> (two / 2) % 2 == 1))
            by (bit_vector);
    }
}

/// A promise of equal elements is a list of numbers; arrays, dictionaries and hints hold as
/// many items as the number behind their tag says.
pub proof fn lists_hold_as_many_as_announced(d: Seq<u8>, p: int, t: TablesModel)
    requires
        0 <= p <= d.len(),
    ensures
        op_laws::behind(d, p, 1) is Some ==> {
            let read = attributes::attribute_at(d, p, t);
            let tag = op_laws::number(d, p, 0);
            let q = op_laws::behind(d, p, 1)->0;
            let n = op_laws::number(d, p, 1);
            let counted = op_laws::behind(d, p, 2) is Some;
            &&& tag == 9 ==> {
                let list = reader::var_i64s_at(d, q);
                &&& read.0 is Ok <==> list.0 is Ok
                &&& read.0 is Ok ==> read == (
                    Ok::<AttributeModel, DecodeError>(
                        AttributeModel::SameElements(list.0->Ok_0),
                    ),
                    list.1,
                )
            }
            &&& tag == 6 ==> (read.0 matches Ok(a) ==> counted && (a matches AttributeModel::Array(
                v,
            ) && v.len() == n))
            &&& tag == 10 ==> (read.0 matches Ok(a) ==> counted && (a matches
                AttributeModel::Dictionary(v) && v.len() == n))
            &&& tag == 11 ==> (read.0 matches Ok(a) ==> counted && (a matches
                AttributeModel::OptimizationHints(v) && v.len() == n))
        },
{
    reveal_with_fuel(op_laws::behind, 3);
    reveal_with_fuel(op_laws::number, 3);
    reader::varint_advances(d, p);
    if let (Ok(tag), q) = reader::varint_at(d, p) {
        reader::varint_advances(d, q);
        if let (Ok(n), r) = reader::varint_at(d, q) {
            array_length(d, r, t, n as nat, Seq::empty());
            dictionary_length(d, r, t, n as nat, Seq::empty());
            hints_length(d, r, t, n as nat, Seq::empty());
        }
    }
}

proof fn array_length(d: Seq<u8>, p: int, t: TablesModel, n: nat, acc: Seq<AttributeModel>)
    requires
        0 <= p <= d.len(),
    ensures
        attributes::attributes_at(d, p, t, n, acc).0 matches Ok(v) ==> v.len() == acc.len() + n,
    decreases n,
{
    if n > 0 {
        attributes::attribute_advances(d, p, t);
        if let (Ok(a), q) = attributes::attribute_at(d, p, t) {
            array_length(d, q, t, (n - 1) as nat, acc.push(a));
        }
    }
}

proof fn dictionary_length(
    d: Seq<u8>,
    p: int,
    t: TablesModel,
    n: nat,
    acc: Seq<(Seq<char>, AttributeModel)>,
)
    requires
        0 <= p <= d.len(),
    ensures
        attributes::entries_at(d, p, t, n, acc).0 matches Ok(v) ==> v.len() == acc.len() + n,
    decreases n,
{
    if n > 0 {
        reader::varint_advances(d, p);
        if let (Ok(key), q) = t.string_ref_at(d, p, DecodeError::DictKeyIndex) {
            attributes::attribute_advances(d, q, t);
            if let (Ok(a), r) = attributes::attribute_at(d, q, t) {
                dictionary_length(d, r, t, (n - 1) as nat, acc.push((key, a)));
            }
        }
    }
}

proof fn hints_length(
    d: Seq<u8>,
    p: int,
    t: TablesModel,
    n: nat,
    acc: Seq<(Seq<char>, Seq<(Seq<char>, AttributeModel)>)>,
)
    requires
        0 <= p <= d.len(),
    ensures
        attributes::tagged_hint_entries_at(d, p, t, n, acc).0 matches Ok(v) ==> v.len()
            == acc.len() + n,
    decreases n,
{
    if n > 0 {
        reader::varint_advances(d, p);
        if let (Ok(arch), q) = t.string_ref_at(d, p, DecodeError::AttrStringIndex) {
            reader::varint_advances(d, q);
            if let (Ok(tag), r) = reader::varint_at(d, q) {
                attributes::dictionary_advances(d, r, t);
                if let (Ok(v), s) = attributes::dictionary_at(d, r, t) {
                    hints_length(d, s, t, (n - 1) as nat, acc.push((arch, v)));
                }
            }
        }
    }
}

/// An entry of a dictionary is the index of its key and an attribute. One of hints is the
/// index of an architecture and a dictionary with its tag, 10.
pub proof fn entries_have_their_parts(d: Seq<u8>, p: int, t: TablesModel)
    requires
        0 <= p <= d.len(),
    ensures
        op_laws::behind(d, p, 1) is Some ==> {
            let i = op_laws::number(d, p, 0);
            let q = op_laws::behind(d, p, 1)->0;
            let one = attributes::entries_at(d, p, t, 1, Seq::empty());
            let hint = attributes::tagged_hint_entries_at(d, p, t, 1, Seq::empty());
            let inline = attributes::inline_hint_entries_at(d, p, t, 1, Seq::empty());
            let a = attributes::attribute_at(d, q, t);
            &&& i >= t.strings.len() ==> {
                &&& one.0 == Err::<Seq<(Seq<char>, AttributeModel)>, DecodeError>(
                    DecodeError::DictKeyIndex,
                )
                &&& hint.0 == Err::<Seq<(Seq<char>, Seq<(Seq<char>, AttributeModel)>)>, DecodeError>(
                    DecodeError::AttrStringIndex,
                )
                &&& inline.0 == Err::<
                    Seq<(Seq<char>, Seq<(Seq<char>, AttributeModel)>)>,
                    DecodeError,
                >(DecodeError::HintsArchIndex)
            }
            &&& i < t.strings.len() ==> {
                &&& one.0 is Ok <==> a.0 is Ok
                &&& (one.0 matches Ok(v) ==> v.len() == 1 && v[0].0 == t.strings[i as int]
                    && v[0].1 == a.0->Ok_0 && one.1 == a.1)
                &&& (hint.0 is Ok <==> a.0 is Ok && a.0->Ok_0 is Dictionary)
                &&& (hint.0 matches Ok(v) ==> v.len() == 1 && v[0].0 == t.strings[i as int]
                    && AttributeModel::Dictionary(v[0].1) == a.0->Ok_0 && hint.1 == a.1)
                &&& op_laws::behind(d, p, 2) is Some && op_laws::number(d, p, 1) != 10 ==> hint.0
                    == Err::<Seq<(Seq<char>, Seq<(Seq<char>, AttributeModel)>)>, DecodeError>(
                    DecodeError::HintsEntryTag,
                )
                &&& (inline.0 is Ok <==> a.0 is Ok && a.0->Ok_0 is Dictionary)
                &&& inline.0 is Ok ==> inline == hint
                &&& a.0 is Ok && !(a.0->Ok_0 is Dictionary) ==> inline.0 == Err::<
                    Seq<(Seq<char>, Seq<(Seq<char>, AttributeModel)>)>,
                    DecodeError,
                >(DecodeError::HintsEntryValue)
            }
        },
{
    reveal_with_fuel(op_laws::behind, 3);
    reveal_with_fuel(op_laws::number, 3);
    reveal_with_fuel(attributes::entries_at, 2);
    reveal_with_fuel(attributes::tagged_hint_entries_at, 2);
    reveal_with_fuel(attributes::inline_hint_entries_at, 2);
    reader::varint_advances(d, p);
    let q = reader::varint_at(d, p).1;
    attributes::attribute_advances(d, q, t);
    reader::varint_advances(d, q);
    attributes::dictionary_advances(d, reader::varint_at(d, q).1, t);
}
// ---- functions and operations that are refused ----

/// A function whose name or whose signature is an index out of range is refused as such, the
/// name first; one whose body is cut off ends too early.
pub proof fn functions_are_refused_by_their_parts(d: Seq<u8>, p: int, t: TablesModel)
    requires
        0 <= p <= d.len(),
    ensures
        ({
            let read = functions::function_at(d, p, t);
            let name = op_laws::number(d, p, 0);
            let signature = op_laws::number(d, p, 1);
            &&& op_laws::behind(d, p, 1) is Some && name >= t.strings.len() ==> read.0 == Err::<
                FunctionModel,
                DecodeError,
            >(DecodeError::FuncNameIndex)
            &&& op_laws::behind(d, p, 2) is Some && name < t.strings.len() && signature
                >= t.types.len() ==> read.0 == Err::<FunctionModel, DecodeError>(
                DecodeError::FuncSigIndex,
            )
            &&& op_laws::behind(d, p, 2) == Some(d.len() as int) && name < t.strings.len()
                && signature < t.types.len() ==> read.0 == Err::<FunctionModel, DecodeError>(
                DecodeError::UnexpectedEnd,
            )
        }),
{
    reveal_with_fuel(op_laws::behind, 3);
    reveal_with_fuel(op_laws::number, 3);
}

/// A code of no operation is refused, in the body of a function and in a block; a body ends
/// where its bytes do, and a block behind as many operations as it has.
pub proof fn unknown_codes_are_refused(
    d: Seq<u8>,
    s: BodyState,
    t: TablesModel,
    version: BytecodeVersion,
    n: nat,
    block: nat,
)
    requires
        0 <= s.pos <= d.len(),
    ensures
        s.pos == d.len() ==> ops::body_at(d, s, t, version, block) == (
            Ok::<(), DecodeError>(()),
            s,
        ),
        ops::op_list_at(d, s, t, version, 0, block) == (Ok::<(), DecodeError>(()), s),
        op_laws::behind(d, s.pos, 1) is Some && opcode::opcode_of(
            ops::code_of(op_laws::number(d, s.pos, 0)),
        ) is None ==> {
            &&& ops::body_at(d, s, t, version, block).0 == Err::<(), DecodeError>(
                DecodeError::UnknownOpcodeInBody,
            )
            &&& n > 0 ==> ops::op_list_at(d, s, t, version, n, block).0 == Err::<(), DecodeError>(
                DecodeError::UnknownOpcodeInBlock,
            )
        },
{
    reveal_with_fuel(op_laws::behind, 2);
    reveal_with_fuel(op_laws::number, 2);
    reader::varint_advances(d, s.pos);
}

proof fn bad_operands(d: Seq<u8>, p: int, values: Seq<nat>, n: nat, acc: Seq<nat>, i: nat)
    requires
        op_laws::behind(d, p, n) is Some,
        i < n,
        op_laws::number(d, p, i) >= values.len(),
    ensures
        ops::operands_at(d, p, values, n, acc).0 == Err::<Seq<nat>, DecodeError>(
            DecodeError::OperandIndex,
        ),
    decreases n,
{
    if let (Ok(v), q) = reader::varint_at(d, p) {
        if v < values.len() {
            bad_operands(
                d,
                q,
                values,
                (n - 1) as nat,
                acc.push(values[v as int]),
                (i - 1) as nat,
            );
        }
    }
}

/// A result whose type is an index out of range is refused as such, and so is an operand that
/// is no value in scope.
pub proof fn indices_out_of_range_are_refused(
    op: opcode::Opcode,
    d: Seq<u8>,
    p: int,
    t: TablesModel,
    version: BytecodeVersion,
    values: Seq<nat>,
    n: nat,
    i: nat,
)
    requires
        i < n,
        op_laws::behind(d, p, n) is Some,
    ensures
        op.spec_result_count() == Some(n as usize) && n <= usize::MAX && op_laws::number(d, p, i)
            >= t.types.len() ==> ops::op_fields_at(op, d, p, t, version, values).0 == Err::<
            ops::OpFields,
            DecodeError,
        >(DecodeError::ResultTypeIndex),
        op_laws::number(d, p, i) >= values.len() ==> ops::operands_at(
            d,
            p,
            values,
            n,
            Seq::empty(),
        ).0 == Err::<Seq<nat>, DecodeError>(DecodeError::OperandIndex),
{
    reveal(ops::op_fields_at);
    if op_laws::number(d, p, i) >= t.types.len() {
        bad_type_indices(d, p, t.types, n, DecodeError::ResultTypeIndex, Seq::empty(), i);
    }
    if op_laws::number(d, p, i) >= values.len() {
        bad_operands(d, p, values, n, Seq::empty(), i);
    }
}

/// A message or a name that is an index out of range is refused as such, and so is a constant.
pub proof fn names_out_of_range_are_refused(
    d: Seq<u8>,
    p: int,
    t: TablesModel,
    version: BytecodeVersion,
    results: Seq<TypeModel>,
)
    ensures
        op_laws::behind(d, p, 1) is Some ==> {
            let i = op_laws::number(d, p, 0);
            let refused = Err::<(ops::Attributes, u64), DecodeError>(DecodeError::StringIndex);
            let at = |op: opcode::Opcode| ops::op_attributes_at(op, d, p, t, version, results).0;
            let old = version.major < 13 || version.major == 13 && version.minor < 2;
            &&& i >= t.strings.len() ==> at(opcode::Opcode::Assert) == refused && at(
                opcode::Opcode::GetGlobal,
            ) == refused && (old ==> at(opcode::Opcode::Print) == refused)
            &&& i >= t.constants.len() ==> at(opcode::Opcode::Constant) == Err::<
                (ops::Attributes, u64),
                DecodeError,
            >(DecodeError::ConstantIndex)
        },
        op_laws::behind(d, p, 2) is Some && op_laws::number(d, p, 1) >= t.strings.len() && (
        version.major > 13 || version.major == 13 && version.minor >= 2) ==> ops::op_attributes_at(
            opcode::Opcode::Print,
            d,
            p,
            t,
            version,
            results,
        ).0 == Err::<(ops::Attributes, u64), DecodeError>(DecodeError::StringIndex),
{
    reveal_with_fuel(op_laws::behind, 3);
    reveal_with_fuel(op_laws::number, 3);
}

// ---- tables ----

proof fn offsets_have_their_places(d: Seq<u8>, p: int, n: nat, width: int, acc: Seq<nat>, i: int)
    requires
        0 <= p,
        width == 4 || width == 8,
    ensures
        ({
            let read = sections::offsets_at(d, p, n, width, acc);
            &&& read.0 is Ok <==> n == 0 || p + n * width <= d.len()
            &&& (read.0 matches Ok(v) ==> {
                &&& v.len() == acc.len() + n
                &&& 0 <= i < acc.len() ==> v[i] == acc[i]
                &&& 0 <= i < n ==> Ok::<nat, DecodeError>(v[acc.len() + i]) == reader::le_at(
                    d,
                    p + i * width,
                    width,
                ).0
                &&& read.1 == p + n * width
            })
        }),
    decreases n,
{
    if n > 0 {
        let (first, q) = reader::le_at(d, p, width);
        wire_laws::fixed_widths_are_lowest_first(d, p);
        assert(n * width == (n - 1) * width + width) by (nonlinear_arith);
        assert((n - 1) * width >= 0) by (nonlinear_arith)
            requires
                n > 0,
                width > 0,
        ;
        if let Ok(v) = first {
            offsets_have_their_places(d, q, (n - 1) as nat, width, acc.push(v), i - 1);
            offsets_have_their_places(d, q, (n - 1) as nat, width, acc.push(v), i);
            offsets_have_their_places(d, q, (n - 1) as nat, width, acc.push(v), acc.len() as int);
            assert(q + (i - 1) * width == p + i * width) by (nonlinear_arith)
                requires
                    q == p + width,
            ;
        }
    }
}

/// A table is a number, alignment bytes up to a multiple of the width of its offsets, as many
/// offsets, and the data. An empty one is the number alone.
pub proof fn tables_have_aligned_offsets(d: Seq<u8>, width: int, i: int)
    requires
        width == 4 || width == 8,
    ensures
        op_laws::behind(d, 0, 1) is None ==> sections::offset_table(d, width) is Err,
        op_laws::behind(d, 0, 1) is Some ==> {
            let read = sections::offset_table(d, width);
            let n = op_laws::number(d, 0, 0);
            let (pad, start) = reader::padding_at(d, op_laws::behind(d, 0, 1)->0, width as u64);
            let end = start + n * width;
            &&& n == 0 ==> read == Ok::<(Seq<nat>, Seq<u8>), DecodeError>(
                (Seq::empty(), Seq::empty()),
            )
            &&& n > 0 ==> (read is Ok <==> pad is Ok && end <= d.len())
            &&& n > 0 && read is Ok ==> {
                let (offsets, data) = read->Ok_0;
                &&& offsets.len() == n
                &&& 0 <= i < n ==> Ok::<nat, DecodeError>(offsets[i]) == reader::le_at(
                    d,
                    start + i * width,
                    width,
                ).0
                &&& data.len() == d.len() - end
                &&& data == d.subrange(end, d.len() as int)
            }
        },
{
    reveal_with_fuel(op_laws::behind, 2);
    reveal_with_fuel(op_laws::number, 2);
    if let (Ok(n), q) = reader::varint_at(d, 0) {
        reader::varint_advances(d, 0);
        wire_laws::padding_reaches_the_alignment(d, q, width as u64);
        if let (Ok(_), start) = reader::padding_at(d, q, width as u64) {
            offsets_have_their_places(d, start, n as nat, width, Seq::empty(), i);
        }
    }
}

/// The strings and constants of a section lie in its data, one behind the other: each starts
/// at its offset and ends where the next one starts, the last one at the end of the data. A
/// string outside the data is refused. Bytes that are no text are shown by a mark.
pub proof fn entries_lie_between_their_offsets(d: Seq<u8>, i: int)
    ensures
        sections::string_section(None) == Ok::<Seq<Seq<char>>, DecodeError>(Seq::empty()),
        sections::constant_section(None) == Ok::<Seq<Seq<u8>>, DecodeError>(Seq::empty()),
        sections::offset_table(d, 4) matches Ok((offsets, data)) ==> {
            let read = sections::string_section(Some(d));
            let end = if i == offsets.len() - 1 {
                data.len() as int
            } else {
                offsets[i + 1] as int
            };
            &&& 0 <= i < offsets.len() && !(offsets[i] <= end <= data.len()) ==> read == Err::<
                Seq<Seq<char>>,
                DecodeError,
            >(DecodeError::StringOffset)
            &&& read is Err ==> exists|j: int|
                0 <= j < offsets.len() && !(#[trigger] offsets[j] <= (if j == offsets.len() - 1 {
                    data.len() as int
                } else {
                    offsets[j + 1] as int
                }) <= data.len())
            &&& (read matches Ok(strings) ==> {
                &&& strings.len() == offsets.len()
                &&& 0 <= i < offsets.len() ==> {
                    let bytes = data.subrange(offsets[i] as int, end);
                    &&& offsets[i] <= end <= data.len()
                    &&& vstd::utf8::valid_utf8(bytes) ==> vstd::utf8::encode_utf8(strings[i])
                        == bytes
                    &&& !vstd::utf8::valid_utf8(bytes) ==> strings[i] == "<invalid utf8>"@
                }
            })
        },
        sections::offset_table(d, 8) matches Ok((offsets, data)) ==> {
            let end = if i == offsets.len() - 1 {
                data.len() as int
            } else {
                offsets[i + 1] as int
            };
            sections::constant_section(Some(d)) matches Ok(constants) && constants.len()
                == offsets.len() && (0 <= i < offsets.len() ==> constants[i] == data.subrange(
                offsets[i] as int,
                end,
            ))
        },
{
    if let Ok((offsets, data)) = sections::offset_table(d, 4) {
        if sections::string_section(Some(d)) is Err {
            let j = choose|j: int|
                0 <= j < offsets.len() && !sections::entry_in_range(offsets, j, data.len());
            assert(offsets[j] == offsets[j]);
        }
        if 0 <= i < offsets.len() {
            assert(sections::entries_in_range(offsets, data.len()) ==> sections::entry_in_range(
                offsets,
                i,
                data.len(),
            ));
            let bytes = sections::entry_bytes(offsets, data, i);
            if vstd::utf8::valid_utf8(bytes) {
                vstd::utf8::decode_utf8_encode_utf8(bytes);
            }
        }
    }
}
proof fn skipped_offsets(d: Seq<u8>, p: int, n: nat)
    requires
        0 <= p,
    ensures
        types::skip_offsets_at(d, p, n).0 is Ok <==> n == 0 || p + 4 * n <= d.len(),
        types::skip_offsets_at(d, p, n).0 is Ok ==> types::skip_offsets_at(d, p, n).1 == p + 4
            * n,
    decreases n,
{
    if n > 0 {
        wire_laws::fixed_widths_are_lowest_first(d, p);
        if p + 4 <= d.len() {
            skipped_offsets(d, p + 4, (n - 1) as nat);
        }
    }
}

proof fn types_in_a_row(
    d: Seq<u8>,
    p: int,
    n: nat,
    version: BytecodeVersion,
    acc: Seq<TypeModel>,
    k: int,
)
    ensures
        types::types_at(d, p, n, version, acc).0 matches Ok(v) ==> {
            &&& v.len() == acc.len() + n
            &&& v.take(acc.len() as int) == acc
            &&& acc.len() <= k < v.len() ==> exists|q: int|
                types::type_at(d, q, v.take(k), version).0 == Ok::<TypeModel, DecodeError>(v[k])
        },
    decreases n,
{
    if n == 0 {
        assert(acc.take(acc.len() as int) =~= acc);
    } else if let (Ok(t), q) = types::type_at(d, p, acc, version) {
        types_in_a_row(d, q, (n - 1) as nat, version, acc.push(t), k);
        if let (Ok(v), _) = types::types_at(d, p, n, version, acc) {
            assert(v.take(acc.len() as int) =~= acc.push(t).take(acc.len() as int));
            assert(acc.push(t).take(acc.len() as int) =~= acc);
            assert(v.take(acc.push(t).len() as int)[acc.len() as int] == t);
            if k == acc.len() {
                assert(types::type_at(d, p, v.take(k), version).0 == Ok::<TypeModel, DecodeError>(
                    v[k],
                ));
            }
        }
    }
}

/// The types of a section are a number, alignment bytes up to a multiple of four, as many
/// offsets of four bytes that are passed over, and, as data, the types in a row. Each is read with those
/// before it, and no others, to refer to.
pub proof fn types_refer_to_those_before(d: Seq<u8>, version: BytecodeVersion, k: int)
    ensures
        types::type_section(None, version) == Ok::<Seq<TypeModel>, DecodeError>(Seq::empty()),
        op_laws::behind(d, 0, 1) is None ==> types::type_section(Some(d), version) is Err,
        types::type_section(Some(d), version) matches Ok(v) ==> {
            let n = op_laws::number(d, 0, 0);
            let (pad, start) = reader::padding_at(d, op_laws::behind(d, 0, 1)->0, 4);
            let data = d.subrange(start + 4 * n, d.len() as int);
            let first = types::type_at(data, 0, Seq::empty(), version).0;
            &&& v.len() == n
            &&& n > 0 ==> pad is Ok && start + 4 * n <= d.len() && first == Ok::<
                TypeModel,
                DecodeError,
            >(v[0])
            &&& 0 <= k < n ==> exists|q: int|
                types::type_at(data, q, v.take(k), version).0 == Ok::<TypeModel, DecodeError>(
                    v[k],
                )
        },
{
    reveal_with_fuel(op_laws::behind, 2);
    reveal_with_fuel(op_laws::number, 2);
    if let (Ok(n), q) = reader::varint_at(d, 0) {
        reader::varint_advances(d, 0);
        wire_laws::padding_reaches_the_alignment(d, q, 4);
        if let (Ok(_), start) = reader::padding_at(d, q, 4) {
            skipped_offsets(d, start, n as nat);
            let data = d.subrange(start + 4 * n, d.len() as int);
            types_in_a_row(data, 0, n as nat, version, Seq::empty(), k);
            if n > 0 {
                if let (Ok(t), r) = types::type_at(data, 0, Seq::empty(), version) {
                    let one = Seq::<TypeModel>::empty().push(t);
                    types_in_a_row(data, r, (n - 1) as nat, version, one, 1);
                    if let (Ok(v), _) = types::types_at(data, 0, n as nat, version, Seq::empty()) {
                        assert(v.take(1)[0] == one[0]);
                    }
                }
            }
        }
    }
}

/// The strings of a buffer are in its section 1, the types in 5, and the constants in 4; the
/// text shows also the globals, which are in 6, the functions, in 2, and the size of section 3.
pub proof fn buffers_are_read_by_section(d: Seq<u8>)
    ensures
        decoder::tables_of(d) matches Ok((version, s, t)) ==> {
            &&& decoder::container_of(d) == Ok::<_, DecodeError>((version, s))
            &&& sections::string_section(sections::section_of(s, 1)) == Ok::<_, DecodeError>(
                t.strings,
            )
            &&& types::type_section(sections::section_of(s, 5), version) == Ok::<_, DecodeError>(
                t.types,
            )
            &&& sections::constant_section(sections::section_of(s, 4)) == Ok::<_, DecodeError>(
                t.constants,
            )
        },
        decoder::dump_of(d) matches Ok(m) ==> (decoder::container_of(d) matches Ok((version, s))
            && {
            &&& m.version == version
            &&& sections::string_section(sections::section_of(s, 1)) == Ok::<_, DecodeError>(
                m.strings,
            )
            &&& dump::type_section_texts(sections::section_of(s, 5), version) == Ok::<
                _,
                DecodeError,
            >(m.types)
            &&& sections::constant_section(sections::section_of(s, 4)) == Ok::<_, DecodeError>(
                m.constants,
            )
            &&& (match sections::section_of(s, 6) {
                None => m.globals.len() == 0,
                Some(g) => dump::global_section_texts(g, m.strings, m.types, version) == Ok::<
                    _,
                    DecodeError,
                >(m.globals),
            })
            &&& (match sections::section_of(s, 2) {
                None => m.functions is None,
                Some(f) => m.functions is Some && dump::function_section_texts(
                    f,
                    m.strings,
                    m.types,
                ) == Ok::<_, DecodeError>(m.functions->0),
            })
            &&& (match sections::section_of(s, 3) {
                None => m.debug is None,
                Some(x) => m.debug == Some(x.len()),
            })
        }),
{
}

} // verus!
