//! What the text of a buffer shows of the types and the module that were written.

use vstd::prelude::*;

use crate::bytecode::attribute_forms;
use crate::bytecode::attributes::TablesModel;
use crate::bytecode::decoder;
use crate::bytecode::decoder::DumpModel;
use crate::bytecode::dump;
use crate::bytecode::encoding;
use crate::bytecode::enums;
use crate::bytecode::enums::{BytecodeVersion, FunctionFlag, Section, TypeTag};
use crate::bytecode::module_forms;
use crate::bytecode::module_forms::{FunctionTree, ModuleImage};
use crate::bytecode::reader;
use crate::bytecode::section_forms;
use crate::bytecode::sections;
use crate::bytecode::skip;
use crate::bytecode::type_forms;
use crate::error::DecodeError;
use crate::ir::{ElementModel, PaddingValue, ScalarType, TensorViewModel, TypeModel};
use crate::text;

verus! {

/// The name of a scalar type.
pub open spec fn scalar_name(s: ScalarType) -> Seq<char> {
    match s {
        ScalarType::I1 => "i1"@,
        ScalarType::I4 => "i4"@,
        ScalarType::I8 => "i8"@,
        ScalarType::I16 => "i16"@,
        ScalarType::I32 => "i32"@,
        ScalarType::I64 => "i64"@,
        ScalarType::F16 => "f16"@,
        ScalarType::BF16 => "bf16"@,
        ScalarType::F32 => "f32"@,
        ScalarType::TF32 => "tf32"@,
        ScalarType::F64 => "f64"@,
        ScalarType::F8E4M3FN => "f8e4m3fn"@,
        ScalarType::F8E5M2 => "f8e5m2"@,
        ScalarType::F8E8M0FNU => "f8e8m0fnu"@,
        ScalarType::F4E2M1FN => "f4e2m1fn"@,
    }
}

/// The name of the element of a tile.
pub open spec fn element_name(e: ElementModel) -> Seq<char> {
    match e {
        ElementModel::Scalar(s) => scalar_name(s),
        ElementModel::Pointer(p) => "ptr<"@ + scalar_name(p.pointee) + ">"@,
    }
}

/// The name of a tensor view.
pub open spec fn view_name(v: TensorViewModel) -> Seq<char> {
    "tensor_view<"@ + dump::join(dump::extent_texts(v.shape), "x"@) + "x"@ + scalar_name(
        v.element_type,
    ) + ", strides=["@ + dump::join(dump::extent_texts(v.strides), ","@) + "]>"@
}

/// The name of a padding value behind the name of a view, nothing where there is none.
pub open spec fn padding_name(v: Option<PaddingValue>) -> Seq<char> {
    match v {
        Some(v) => ", padding="@ + text::dec_text(type_forms::padding_code(v) as nat),
        None => Seq::empty(),
    }
}

/// The name of a type.
pub open spec fn shown_type(t: TypeModel) -> Seq<char>
    decreases t,
{
    match t {
        TypeModel::Scalar(s) => scalar_name(s),
        TypeModel::Token => "token"@,
        TypeModel::Pointer(p) => "ptr<"@ + scalar_name(p.pointee) + ">"@,
        TypeModel::Tile { shape, element_type } => if shape.len() == 0 {
            "tile<"@ + element_name(element_type) + ">"@
        } else {
            "tile<"@ + dump::join(dump::i64_texts(shape), "x"@) + "x"@ + element_name(element_type)
                + ">"@
        },
        TypeModel::TensorView(v) => view_name(v),
        TypeModel::PartitionView { tile_shape, tensor_view, padding_value, .. } =>
            "partition_view<tile=("@ + dump::join(dump::i32_texts(tile_shape), "x"@) + "), tv="@
            + view_name(tensor_view) + padding_name(padding_value) + ">"@,
        TypeModel::GatherScatterView { tile_shape, tensor_view, sparse_dim, padding_value } =>
            "gather_scatter_view<tile=("@ + dump::join(dump::i32_texts(tile_shape), "x"@)
            + "), tv="@ + view_name(tensor_view) + ", sparse_dim="@ + text::dec_text(
            encoding::bits32(sparse_dim),
        ) + padding_name(padding_value) + ">"@,
        TypeModel::StridedView {
            tile_shape,
            traversal_strides,
            tensor_view,
            dim_map,
            padding_value,
        } => "strided_view<tile=("@ + dump::join(dump::i32_texts(tile_shape), "x"@)
            + "), traversal_strides=["@ + dump::join(dump::i32_texts(traversal_strides), ","@)
            + "], tv="@ + view_name(tensor_view) + ", dim_map=["@ + dump::join(
            dump::i32_texts(dim_map),
            ","@,
        ) + "]"@ + padding_name(padding_value) + ">"@,
        TypeModel::Func { inputs, results } => "("@ + dump::join(shown_types(inputs), ", "@)
            + ") -> ("@ + dump::join(shown_types(results), ", "@) + ")"@,
    }
}

/// The names of types.
pub open spec fn shown_types(ts: Seq<TypeModel>) -> Seq<Seq<char>>
    decreases ts,
{
    if ts.len() == 0 {
        Seq::empty()
    } else {
        shown_types(ts.drop_last()).push(shown_type(ts.last()))
    }
}

/// The names of types, one for one.
proof fn shown_types_index(ts: Seq<TypeModel>)
    ensures
        shown_types(ts).len() == ts.len(),
        forall|i: int| 0 <= i < ts.len() ==> #[trigger] shown_types(ts)[i] == shown_type(ts[i]),
    decreases ts.len(),
{
    if ts.len() > 0 {
        shown_types_index(ts.drop_last());
    }
}

/// Numbers that can be read are read in the same way where zero stands for those that
/// cannot.
pub proof fn i64s_agree(d: Seq<u8>, p: int, n: nat, acc: Seq<i64>)
    ensures
        reader::i64s_at(d, p, n, acc).0 matches Ok(v) ==> dump::i64s_or_zero(d, p, n, acc) == (
            v,
            reader::i64s_at(d, p, n, acc).1,
        ),
    decreases n,
{
    if n > 0 {
        if let (Ok(v), q) = reader::le_i64_at(d, p) {
            i64s_agree(d, q, (n - 1) as nat, acc.push(v));
        }
    }
}

/// Numbers that can be read are read in the same way where zero stands for those that
/// cannot.
pub proof fn i32s_agree(d: Seq<u8>, p: int, n: nat, acc: Seq<i32>)
    ensures
        reader::i32s_at(d, p, n, acc).0 matches Ok(v) ==> dump::i32s_or_zero(d, p, n, acc) == (
            v,
            reader::i32s_at(d, p, n, acc).1,
        ),
    decreases n,
{
    if n > 0 {
        if let (Ok(v), q) = reader::le_i32_at(d, p) {
            i32s_agree(d, q, (n - 1) as nat, acc.push(v));
        }
    }
}

/// A counted list of numbers is read back.
proof fn i64s_shown(d: Seq<u8>, p: int, s: Seq<i64>)
    requires
        encoding::holds(d, p, encoding::var_i64s_form(s)),
        s.len() <= u64::MAX,
    ensures
        dump::var_i64s_or_zero(d, p) == (s, p + encoding::var_i64s_form(s).len()),
{
    encoding::var_i64s_round_trip(d, p, s);
    if let (Ok(n), q) = reader::varint_at(d, p) {
        i64s_agree(d, q, n as nat, Seq::empty());
    }
}

/// A counted list of numbers is read back.
proof fn i32s_shown(d: Seq<u8>, p: int, s: Seq<i32>)
    requires
        encoding::holds(d, p, encoding::var_i32s_form(s)),
        s.len() <= u64::MAX,
    ensures
        dump::var_i32s_or_zero(d, p) == (s, p + encoding::var_i32s_form(s).len()),
{
    encoding::var_i32s_round_trip(d, p, s);
    if let (Ok(n), q) = reader::varint_at(d, p) {
        i32s_agree(d, q, n as nat, Seq::empty());
    }
}

/// The name of a type that is referred to is shown.
proof fn ref_shown(d: Seq<u8>, p: int, t: TypeModel, prior: Seq<TypeModel>)
    requires
        encoding::holds(d, p, type_forms::type_ref_form(t, prior)),
        prior.contains(t),
        prior.len() <= u64::MAX,
    ensures
        dump::name_ref_at(d, p, shown_types(prior)) == (
            shown_type(t),
            p + type_forms::type_ref_form(t, prior).len(),
        ),
{
    type_forms::type_ref_round_trip(d, p, t, prior);
    shown_types_index(prior);
}

/// The names of types that are referred to are shown, behind those in `acc`.
proof fn refs_shown(
    d: Seq<u8>,
    p: int,
    ts: Seq<TypeModel>,
    prior: Seq<TypeModel>,
    acc: Seq<Seq<char>>,
)
    requires
        encoding::holds(d, p, type_forms::type_refs_form(ts, prior)),
        type_forms::all_among(ts, prior),
        prior.len() <= u64::MAX,
    ensures
        dump::name_refs_at(d, p, shown_types(prior), ts.len(), acc) == (
            acc + shown_types(ts),
            p + type_forms::type_refs_form(ts, prior).len(),
        ),
    decreases ts.len(),
{
    shown_types_index(ts);
    if ts.len() == 0 {
        assert(acc + shown_types(ts) =~= acc);
    } else {
        let rest = ts.skip(1);
        let first = type_forms::type_ref_form(ts[0], prior);
        encoding::holds_split(d, p, first, type_forms::type_refs_form(rest, prior));
        ref_shown(d, p, ts[0], prior);
        assert(type_forms::all_among(rest, prior)) by {
            assert forall|i: int| 0 <= i < rest.len() implies prior.contains(#[trigger] rest[i]) by {
                assert(prior.contains(ts[i + 1]));
            }
        }
        refs_shown(d, p + first.len(), rest, prior, acc.push(shown_type(ts[0])));
        shown_types_index(rest);
        assert(acc.push(shown_type(ts[0])) + shown_types(rest) =~= acc + shown_types(ts));
    }
}

/// A counted list of references is shown as the names of the types.
proof fn var_refs_shown(d: Seq<u8>, p: int, ts: Seq<TypeModel>, prior: Seq<TypeModel>)
    requires
        encoding::holds(d, p, type_forms::var_type_refs_form(ts, prior)),
        type_forms::all_among(ts, prior),
        prior.len() <= u64::MAX,
        ts.len() <= u64::MAX,
    ensures
        dump::var_name_refs_at(d, p, shown_types(prior)) == (
            shown_types(ts),
            p + type_forms::var_type_refs_form(ts, prior).len(),
        ),
{
    let count = encoding::varint_form(ts.len());
    encoding::holds_split(d, p, count, type_forms::type_refs_form(ts, prior));
    encoding::varint_round_trip(d, p, ts.len() as u64);
    refs_shown(d, p + count.len(), ts, prior, Seq::empty());
    assert(Seq::<Seq<char>>::empty() + shown_types(ts) =~= shown_types(ts));
}

/// A padding value is shown, in both of its forms.
proof fn padding_shown(d: Seq<u8>, p: int, v: Option<PaddingValue>)
    ensures
        encoding::holds(d, p, type_forms::optional_padding_form(v)) ==> dump::padding_text(
            d,
            p,
            v is Some,
        ) == padding_name(v),
        encoding::holds(d, p, type_forms::flagged_padding_form(v)) ==> dump::partition_padding_text(
            d,
            p,
            None,
        ) == padding_name(v),
{
    if encoding::holds(d, p, type_forms::optional_padding_form(v)) && v is Some {
        assert(d.subrange(p, p + 1)[0] == d[p]);
    }
    if encoding::holds(d, p, type_forms::flagged_padding_form(v)) {
        match v {
            None => {
                assert(d.subrange(p, p + 1)[0] == d[p]);
            },
            Some(v) => {
                let code = encoding::varint_form(type_forms::padding_code(v) as nat);
                encoding::holds_split(d, p, seq![1u8], code);
                assert(d.subrange(p, p + 1)[0] == d[p]);
                encoding::varint_round_trip(d, p + 1, type_forms::padding_code(v) as u64);
            },
        }
    }
}

/// A tag is read back, and names the kind that was written.
proof fn tag_shown(d: Seq<u8>, tag: TypeTag)
    requires
        encoding::holds(d, 0, type_forms::tag_form(tag)),
    ensures
        reader::varint_at(d, 0) == encoding::read_ok(
            tag.spec_tag(),
            type_forms::tag_form(tag).len() as int,
        ),
        enums::type_tag_of(tag.spec_tag() % 256) == Some(tag),
{
    encoding::varint_round_trip(d, 0, tag.spec_tag());
}

/// The text between the numbers of a shape is there where the shape is.
proof fn shape_text_is_empty(shape: Seq<i64>)
    ensures
        dump::join(dump::i64_texts(shape), "x"@).len() == 0 <==> shape.len() == 0,
{
    let parts = dump::i64_texts(shape);
    if shape.len() == 1 {
        int_text_is_there(shape[0] as int);
        assert(parts[0] == text::int_text(shape[0] as int));
    } else if shape.len() > 1 {
        reveal_strlit("x");
        assert("x"@.len() == 1);
    }
}

/// The notation of a number is not empty.
proof fn int_text_is_there(v: int)
    ensures
        text::int_text(v).len() > 0,
{
    reveal_strlit("-");
    text::dec_text_digits(v as nat);
}

/// The entry of a pointer is shown as its name.
proof fn pointer_shown(t: TypeModel, prior: Seq<TypeModel>, version: BytecodeVersion)
    requires
        t is Pointer,
        type_forms::writable(t, prior),
    ensures
        dump::type_text(type_forms::type_form(t, prior, version), shown_types(prior), version)
            == shown_type(t),
{
    let d = type_forms::type_form(t, prior, version);
    assert(d.subrange(0, d.len() as int) =~= d);
    if let TypeModel::Pointer(p) = t {
        let a = type_forms::tag_form(TypeTag::Pointer);
        let b = type_forms::type_ref_form(TypeModel::Scalar(p.pointee), prior);
        encoding::holds_split(d, 0, a, b);
        tag_shown(d, TypeTag::Pointer);
        ref_shown(d, a.len() as int, TypeModel::Scalar(p.pointee), prior);
    }
}

/// The entry of a tile is shown as its name.
proof fn tile_shown(t: TypeModel, prior: Seq<TypeModel>, version: BytecodeVersion)
    requires
        t is Tile,
        type_forms::writable(t, prior),
    ensures
        dump::type_text(type_forms::type_form(t, prior, version), shown_types(prior), version)
            == shown_type(t),
{
    let d = type_forms::type_form(t, prior, version);
    assert(d.subrange(0, d.len() as int) =~= d);
    if let TypeModel::Tile { shape, element_type } = t {
        let a = type_forms::tag_form(TypeTag::Tile);
        let e = type_forms::element_type_of(element_type);
        let b = type_forms::type_ref_form(e, prior);
        let c = encoding::var_i64s_form(shape);
        encoding::holds_split(d, 0, a + b, c);
        encoding::holds_split(d, 0, a, b);
        tag_shown(d, TypeTag::Tile);
        ref_shown(d, a.len() as int, e, prior);
        i64s_shown(d, (a + b).len() as int, shape);
        shape_text_is_empty(shape);
        assert(shown_type(e) == element_name(element_type));
    }
}

/// The entry of a tensor view is shown as its name.
#[verifier::rlimit(30)]
proof fn view_shown(t: TypeModel, prior: Seq<TypeModel>, version: BytecodeVersion)
    requires
        t is TensorView,
        type_forms::writable(t, prior),
    ensures
        dump::type_text(type_forms::type_form(t, prior, version), shown_types(prior), version)
            == shown_type(t),
{
    let d = type_forms::type_form(t, prior, version);
    assert(d.subrange(0, d.len() as int) =~= d);
    if let TypeModel::TensorView(v) = t {
        let a = type_forms::tag_form(TypeTag::TensorView);
        let e = TypeModel::Scalar(v.element_type);
        let b = type_forms::type_ref_form(e, prior);
        let c = encoding::var_i64s_form(v.shape);
        let f = encoding::var_i64s_form(v.strides);
        encoding::holds_split(d, 0, a + b + c, f);
        encoding::holds_split(d, 0, a + b, c);
        encoding::holds_split(d, 0, a, b);
        tag_shown(d, TypeTag::TensorView);
        ref_shown(d, a.len() as int, e, prior);
        i64s_shown(d, (a + b).len() as int, v.shape);
        i64s_shown(d, (a + b + c).len() as int, v.strides);
    }
}

/// The part of a partition view behind its tag and flags is shown as its name.
#[verifier::rlimit(30)]
proof fn partition_body_shown(
    d: Seq<u8>,
    p: int,
    t: TypeModel,
    flagged: bool,
    prior: Seq<TypeModel>,
)
    requires
        type_forms::writable(t, prior),
        t matches TypeModel::PartitionView { tile_shape, tensor_view, dim_map, padding_value }
            && encoding::holds(
            d,
            p,
            type_forms::partition_form(
                tile_shape,
                tensor_view,
                dim_map,
                if flagged {
                    type_forms::optional_padding_form(padding_value)
                } else {
                    type_forms::flagged_padding_form(padding_value)
                },
                prior,
            ),
        ),
    ensures
        t matches TypeModel::PartitionView { tile_shape, tensor_view, dim_map, padding_value }
            && dump::partition_body_text(
            d,
            p,
            shown_types(prior),
            if flagged {
                Some(type_forms::padding_flag(padding_value) as u64)
            } else {
                None
            },
        ) == shown_type(t),
{
    if let TypeModel::PartitionView { tile_shape, tensor_view, dim_map, padding_value } = t {
        let padding = if flagged {
            type_forms::optional_padding_form(padding_value)
        } else {
            type_forms::flagged_padding_form(padding_value)
        };
        let a = encoding::var_i32s_form(tile_shape);
        let b = type_forms::type_ref_form(TypeModel::TensorView(tensor_view), prior);
        let c = encoding::var_i32s_form(dim_map);
        encoding::holds_split(d, p, a + b + c, padding);
        encoding::holds_split(d, p, a + b, c);
        encoding::holds_split(d, p, a, b);
        i32s_shown(d, p, tile_shape);
        ref_shown(d, p + a.len(), TypeModel::TensorView(tensor_view), prior);
        i32s_shown(d, p + (a + b).len(), dim_map);
        padding_shown(d, p + (a + b + c).len(), padding_value);
        assert(shown_type(TypeModel::TensorView(tensor_view)) == view_name(tensor_view));
    }
}

/// The entry of a partition view is shown as its name.
proof fn partition_shown(t: TypeModel, prior: Seq<TypeModel>, version: BytecodeVersion)
    requires
        t is PartitionView,
        type_forms::writable(t, prior),
    ensures
        dump::type_text(type_forms::type_form(t, prior, version), shown_types(prior), version)
            == shown_type(t),
{
    let d = type_forms::type_form(t, prior, version);
    assert(d.subrange(0, d.len() as int) =~= d);
    let a = type_forms::tag_form(TypeTag::PartitionView);
    if let TypeModel::PartitionView { tile_shape, tensor_view, dim_map, padding_value } = t {
        if version.rank() >= BytecodeVersion::v13_3().rank() {
            let b = encoding::varint_form(type_forms::padding_flag(padding_value));
            let c = type_forms::partition_form(
                tile_shape,
                tensor_view,
                dim_map,
                type_forms::optional_padding_form(padding_value),
                prior,
            );
            encoding::holds_split(d, 0, a + b, c);
            encoding::holds_split(d, 0, a, b);
            tag_shown(d, TypeTag::PartitionView);
            encoding::varint_round_trip(
                d,
                a.len() as int,
                type_forms::padding_flag(padding_value) as u64,
            );
            partition_body_shown(d, (a + b).len() as int, t, true, prior);
        } else {
            let c = type_forms::partition_form(
                tile_shape,
                tensor_view,
                dim_map,
                type_forms::flagged_padding_form(padding_value),
                prior,
            );
            encoding::holds_split(d, 0, a, c);
            tag_shown(d, TypeTag::PartitionView);
            partition_body_shown(d, a.len() as int, t, false, prior);
        }
    }
}

/// The entry of a gather/scatter view is shown as its name.
#[verifier::rlimit(30)]
proof fn gather_shown(t: TypeModel, prior: Seq<TypeModel>, version: BytecodeVersion)
    requires
        t is GatherScatterView,
        type_forms::writable(t, prior),
    ensures
        dump::type_text(type_forms::type_form(t, prior, version), shown_types(prior), version)
            == shown_type(t),
{
    let d = type_forms::type_form(t, prior, version);
    assert(d.subrange(0, d.len() as int) =~= d);
    if let TypeModel::GatherScatterView { tile_shape, tensor_view, sparse_dim, padding_value } = t {
        let a = type_forms::tag_form(TypeTag::GatherScatterView);
        let b = encoding::varint_form(type_forms::padding_flag(padding_value));
        let c = encoding::var_i32s_form(tile_shape);
        let e = type_forms::type_ref_form(TypeModel::TensorView(tensor_view), prior);
        let f = encoding::varint_form(encoding::bits32(sparse_dim));
        let g = type_forms::optional_padding_form(padding_value);
        encoding::holds_split(d, 0, a + b + c + e + f, g);
        encoding::holds_split(d, 0, a + b + c + e, f);
        encoding::holds_split(d, 0, a + b + c, e);
        encoding::holds_split(d, 0, a + b, c);
        encoding::holds_split(d, 0, a, b);
        tag_shown(d, TypeTag::GatherScatterView);
        encoding::varint_round_trip(
            d,
            a.len() as int,
            type_forms::padding_flag(padding_value) as u64,
        );
        i32s_shown(d, (a + b).len() as int, tile_shape);
        ref_shown(d, (a + b + c).len() as int, TypeModel::TensorView(tensor_view), prior);
        encoding::varint_round_trip(
            d,
            (a + b + c + e).len() as int,
            encoding::bits32(sparse_dim) as u64,
        );
        padding_shown(d, (a + b + c + e + f).len() as int, padding_value);
        assert(shown_type(TypeModel::TensorView(tensor_view)) == view_name(tensor_view));
    }
}

/// The part of a strided view behind its tag is shown as its name.
#[verifier::rlimit(30)]
proof fn strided_body_shown(
    d: Seq<u8>,
    p: int,
    tile_shape: Seq<i32>,
    traversal_strides: Seq<i32>,
    tensor_view: TensorViewModel,
    dim_map: Seq<i32>,
    padding_value: Option<PaddingValue>,
    prior: Seq<TypeModel>,
)
    requires
        tile_shape.len() <= u64::MAX,
        traversal_strides.len() <= u64::MAX,
        dim_map.len() <= u64::MAX,
        prior.len() <= u64::MAX,
        prior.contains(TypeModel::TensorView(tensor_view)),
        encoding::holds(
            d,
            p,
            encoding::varint_form(type_forms::padding_flag(padding_value))
                + encoding::var_i32s_form(tile_shape) + encoding::var_i32s_form(traversal_strides)
                + type_forms::type_ref_form(TypeModel::TensorView(tensor_view), prior)
                + encoding::var_i32s_form(dim_map) + type_forms::optional_padding_form(
                padding_value,
            ),
        ),
    ensures
        dump::strided_view_text(d, p, shown_types(prior)) == shown_type(
            TypeModel::StridedView {
                tile_shape,
                traversal_strides,
                tensor_view,
                dim_map,
                padding_value,
            },
        ),
{
    let b = encoding::varint_form(type_forms::padding_flag(padding_value));
    let c = encoding::var_i32s_form(tile_shape);
    let e = encoding::var_i32s_form(traversal_strides);
    let f = type_forms::type_ref_form(TypeModel::TensorView(tensor_view), prior);
    let g = encoding::var_i32s_form(dim_map);
    let h = type_forms::optional_padding_form(padding_value);
    encoding::holds_split(d, p, b + c + e + f + g, h);
    encoding::holds_split(d, p, b + c + e + f, g);
    encoding::holds_split(d, p, b + c + e, f);
    encoding::holds_split(d, p, b + c, e);
    encoding::holds_split(d, p, b, c);
    encoding::varint_round_trip(d, p, type_forms::padding_flag(padding_value) as u64);
    i32s_shown(d, p + b.len(), tile_shape);
    i32s_shown(d, p + (b + c).len(), traversal_strides);
    ref_shown(d, p + (b + c + e).len(), TypeModel::TensorView(tensor_view), prior);
    i32s_shown(d, p + (b + c + e + f).len(), dim_map);
    padding_shown(d, p + (b + c + e + f + g).len(), padding_value);
    assert(shown_type(TypeModel::TensorView(tensor_view)) == view_name(tensor_view));
}

/// The entry of a strided view is shown as its name.
proof fn strided_shown(t: TypeModel, prior: Seq<TypeModel>, version: BytecodeVersion)
    requires
        t is StridedView,
        type_forms::writable(t, prior),
    ensures
        dump::type_text(type_forms::type_form(t, prior, version), shown_types(prior), version)
            == shown_type(t),
{
    let d = type_forms::type_form(t, prior, version);
    assert(d.subrange(0, d.len() as int) =~= d);
    if let TypeModel::StridedView {
        tile_shape,
        traversal_strides,
        tensor_view,
        dim_map,
        padding_value,
    } = t {
        let a = type_forms::tag_form(TypeTag::StridedView);
        let b = encoding::varint_form(type_forms::padding_flag(padding_value));
        let c = encoding::var_i32s_form(tile_shape);
        let e = encoding::var_i32s_form(traversal_strides);
        let f = type_forms::type_ref_form(TypeModel::TensorView(tensor_view), prior);
        let g = encoding::var_i32s_form(dim_map);
        let h = type_forms::optional_padding_form(padding_value);
        let rest = b + c + e + f + g + h;
        assert(d =~= a + rest);
        encoding::holds_split(d, 0, a, rest);
        tag_shown(d, TypeTag::StridedView);
        strided_body_shown(
            d,
            a.len() as int,
            tile_shape,
            traversal_strides,
            tensor_view,
            dim_map,
            padding_value,
            prior,
        );
    }
}

/// The text of a type entry is the name of the type that was written, where the entries
/// before it are shown by their names.
pub proof fn type_entry_is_shown(t: TypeModel, prior: Seq<TypeModel>, version: BytecodeVersion)
    requires
        type_forms::writable(t, prior),
    ensures
        dump::type_text(type_forms::type_form(t, prior, version), shown_types(prior), version)
            == shown_type(t),
{
    let d = type_forms::type_form(t, prior, version);
    assert(d.subrange(0, d.len() as int) =~= d);
    match t {
        TypeModel::Scalar(s) => {
            tag_shown(d, type_forms::scalar_tag(s));
        },
        TypeModel::Token => {
            tag_shown(d, TypeTag::Token);
        },
        TypeModel::Pointer(_) => {
            pointer_shown(t, prior, version);
        },
        TypeModel::Tile { .. } => {
            tile_shown(t, prior, version);
        },
        TypeModel::TensorView(_) => {
            view_shown(t, prior, version);
        },
        TypeModel::PartitionView { .. } => {
            partition_shown(t, prior, version);
        },
        TypeModel::GatherScatterView { .. } => {
            gather_shown(t, prior, version);
        },
        TypeModel::StridedView { .. } => {
            strided_shown(t, prior, version);
        },
        TypeModel::Func { inputs, results } => {
            let a = type_forms::tag_form(TypeTag::Func);
            let b = type_forms::var_type_refs_form(inputs, prior);
            let c = type_forms::var_type_refs_form(results, prior);
            encoding::holds_split(d, 0, a + b, c);
            encoding::holds_split(d, 0, a, b);
            tag_shown(d, TypeTag::Func);
            var_refs_shown(d, a.len() as int, inputs, prior);
            var_refs_shown(d, (a + b).len() as int, results, prior);
        },
    }
}

/// The texts of the first `n` entries of a type table are the names of the first `n` types.
proof fn entries_are_shown(ts: Seq<TypeModel>, version: BytecodeVersion, n: nat)
    requires
        type_forms::dependency_first(ts),
        n <= ts.len(),
    ensures
        ({
            let entries = section_forms::type_entries(ts, version);
            dump::type_texts(
                section_forms::entry_starts(entries),
                section_forms::concat(entries),
                version,
                n,
            ) == shown_types(ts.take(n as int))
        }),
    decreases n,
{
    let entries = section_forms::type_entries(ts, version);
    let part = ts.take(n as int);
    if n > 0 {
        entries_are_shown(ts, version, (n - 1) as nat);
        section_forms::table_entries_round_trip(entries);
        let starts = section_forms::entry_starts(entries);
        let data = section_forms::concat(entries);
        assert(sections::entry_bytes(starts, data, n - 1) == entries[n - 1]);
        type_entry_is_shown(ts[n - 1], ts.take(n - 1), version);
        assert(part.drop_last() =~= ts.take(n - 1));
        assert(part.last() == ts[n - 1]);
    }
}

/// The texts of a type section are the names of the types that were written.
pub proof fn type_section_is_shown(ts: Seq<TypeModel>, version: BytecodeVersion)
    requires
        type_forms::dependency_first(ts),
        section_forms::table_writable(section_forms::type_entries(ts, version), 4),
    ensures
        ({
            let payload = section_forms::table_form(section_forms::type_entries(ts, version), 4);
            &&& dump::type_section_texts(Some(payload), version) == Ok::<
                Seq<Seq<char>>,
                DecodeError,
            >(shown_types(ts))
            &&& sections::table_in_range(Some(payload), 4)
        }),
{
    let entries = section_forms::type_entries(ts, version);
    section_forms::table_round_trip(entries, 4);
    section_forms::table_entries_round_trip(entries);
    entries_are_shown(ts, version, ts.len());
    assert(ts.take(ts.len() as int) =~= ts);
}

/// The text of a function that was written.
pub open spec fn shown_function(f: FunctionTree, t: TablesModel, version: BytecodeVersion) -> Seq<
    char,
> {
    dump::function_text(
        f.name,
        shown_type(f.signature()),
        f.flags,
        f.body(t, version).len() as u64,
    )
}

/// The texts of functions that were written.
pub open spec fn shown_functions(
    fs: Seq<FunctionTree>,
    t: TablesModel,
    version: BytecodeVersion,
) -> Seq<Seq<char>> {
    Seq::new(fs.len(), |i: int| shown_function(fs[i], t, version))
}

/// A function is shown.
#[verifier::rlimit(30)]
proof fn function_is_shown(
    d: Seq<u8>,
    p: int,
    f: FunctionTree,
    t: TablesModel,
    version: BytecodeVersion,
)
    requires
        encoding::holds(d, p, f.form(t, version)),
        f.writable(t, version),
        attribute_forms::tables_fit(t),
    ensures
        dump::function_text_at(d, p, t.strings, shown_types(t.types)) == encoding::read_ok(
            shown_function(f, t, version),
            p + f.form(t, version).len(),
        ),
{
    let a = attribute_forms::string_ref_form(f.name, t);
    let b = type_forms::type_ref_form(f.signature(), t.types);
    let c = seq![f.flags];
    let e = encoding::varint_form(f.location as nat);
    let h = match f.hints {
        Some(x) => attribute_forms::attribute_form(x, t),
        None => Seq::empty(),
    };
    let body = f.body(t, version);
    let len = encoding::varint_form(body.len());
    encoding::holds_split(d, p, a + b + c + e + h, len + body);
    encoding::holds_split(d, p, a + b + c + e, h);
    encoding::holds_split(d, p, a + b + c, e);
    encoding::holds_split(d, p, a + b, c);
    encoding::holds_split(d, p, a, b);
    encoding::varint_round_trip(d, p, t.strings.index_of(f.name) as u64);
    type_forms::type_ref_round_trip(d, p + a.len(), f.signature(), t.types);
    shown_types_index(t.types);
    let q = p + (a + b).len();
    assert(d.subrange(q, q + 1)[0] == d[q]);
    encoding::varint_round_trip(d, q + 1, f.location);
    if let Some(x) = f.hints {
        attribute_forms::attribute_round_trip(d, q + 1 + e.len(), x, t);
        skip::attribute_is_passed(d, q + 1 + e.len(), t);
    }
    let u = p + (a + b + c + e + h).len();
    encoding::holds_split(d, u, len, body);
    encoding::varint_round_trip(d, u, body.len() as u64);
    assert(d.subrange(u + len.len(), u + len.len() + body.len()) == body);
}

/// Functions are shown, from number `i` on.
proof fn functions_are_shown(
    d: Seq<u8>,
    p: int,
    fs: Seq<FunctionTree>,
    t: TablesModel,
    version: BytecodeVersion,
    i: nat,
)
    requires
        i <= fs.len(),
        encoding::holds(d, p, module_forms::functions_form(fs, t, version, i)),
        forall|j: int|
            0 <= j < fs.len() ==> (#[trigger] fs[j]).writable(t, version),
        attribute_forms::tables_fit(t),
    ensures
        dump::function_texts_at(
            d,
            p,
            t.strings,
            shown_types(t.types),
            (fs.len() - i) as nat,
            shown_functions(fs, t, version).take(i as int),
        ) == Ok::<Seq<Seq<char>>, DecodeError>(shown_functions(fs, t, version)),
    decreases fs.len() - i,
{
    let shown = shown_functions(fs, t, version);
    if i < fs.len() {
        let f = fs[i as int];
        let first = f.form(t, version);
        encoding::holds_split(d, p, first, module_forms::functions_form(fs, t, version, i + 1));
        function_is_shown(d, p, f, t, version);
        functions_are_shown(d, p + first.len(), fs, t, version, i + 1);
        assert(shown.take(i as int).push(shown[i as int]) =~= shown.take((i + 1) as int));
    } else {
        assert(shown.take(i as int) =~= shown);
    }
}

/// A global as it is written: its name, its type, the number of its constant, its
/// alignment, and from version 13.3 on its visibility and whether it is constant.
pub struct GlobalTree {
    pub name: Seq<char>,
    pub ty: TypeModel,
    pub constant: u64,
    pub alignment: u64,
    pub visibility: u8,
    pub is_constant: bool,
}

impl GlobalTree {
    /// The bytes of what stands behind a global from version 13.3 on.
    pub open spec fn suffix_form(self, version: BytecodeVersion) -> Seq<u8> {
        if version.rank() >= BytecodeVersion::v13_3().rank() {
            seq![self.visibility] + encoding::varint_form(
                if self.is_constant {
                    1
                } else {
                    0
                },
            )
        } else {
            Seq::empty()
        }
    }

    /// The bytes of the global.
    pub open spec fn form(self, t: TablesModel, version: BytecodeVersion) -> Seq<u8> {
        attribute_forms::string_ref_form(self.name, t) + type_forms::type_ref_form(self.ty, t.types)
            + encoding::varint_form(self.constant as nat) + encoding::varint_form(
            self.alignment as nat,
        ) + self.suffix_form(version)
    }

    /// The global can be written: its name and its type stand in the tables.
    pub open spec fn writable(self, t: TablesModel) -> bool {
        t.strings.contains(self.name) && t.types.contains(self.ty)
    }

    /// The text of what stands behind a global from version 13.3 on.
    pub open spec fn shown_suffix(self, version: BytecodeVersion) -> Seq<char> {
        if version.rank() >= BytecodeVersion::v13_3().rank() {
            ", "@ + dump::visibility_text(self.visibility) + ", constant="@ + text::bool_text(
                self.is_constant,
            )
        } else {
            Seq::empty()
        }
    }

    /// The text of the global.
    pub open spec fn shown(self, version: BytecodeVersion) -> Seq<char> {
        "@"@ + self.name + " : "@ + shown_type(self.ty) + " = const["@ + text::dec_text(
            self.constant as nat,
        ) + "], align "@ + text::dec_text(self.alignment as nat) + self.shown_suffix(version)
    }
}

/// The bytes of the globals from number `i` on.
pub open spec fn globals_form(
    gs: Seq<GlobalTree>,
    t: TablesModel,
    version: BytecodeVersion,
    i: nat,
) -> Seq<u8>
    decreases gs.len() - i,
{
    if i < gs.len() {
        gs[i as int].form(t, version) + globals_form(gs, t, version, i + 1)
    } else {
        Seq::empty()
    }
}

/// The payload of a global section: a count and as many globals.
pub open spec fn global_section_form(
    gs: Seq<GlobalTree>,
    t: TablesModel,
    version: BytecodeVersion,
) -> Seq<u8> {
    encoding::varint_form(gs.len()) + globals_form(gs, t, version, 0)
}

/// The texts of globals that were written.
pub open spec fn shown_globals(gs: Seq<GlobalTree>, version: BytecodeVersion) -> Seq<Seq<char>> {
    Seq::new(gs.len(), |i: int| gs[i].shown(version))
}

/// What stands behind a global is shown.
proof fn suffix_is_shown(d: Seq<u8>, p: int, g: GlobalTree, version: BytecodeVersion)
    requires
        encoding::holds(d, p, g.suffix_form(version)),
    ensures
        dump::global_suffix_at(d, p, version) == encoding::read_ok(
            g.shown_suffix(version),
            p + g.suffix_form(version).len(),
        ),
{
    if version.rank() >= BytecodeVersion::v13_3().rank() {
        let a = seq![g.visibility];
        let c: nat = if g.is_constant {
            1
        } else {
            0
        };
        encoding::holds_split(d, p, a, encoding::varint_form(c));
        assert(d.subrange(p, p + 1)[0] == d[p]);
        encoding::varint_round_trip(d, p + 1, c as u64);
    }
}

/// A global is shown.
#[verifier::rlimit(30)]
proof fn global_is_shown(
    d: Seq<u8>,
    p: int,
    g: GlobalTree,
    t: TablesModel,
    version: BytecodeVersion,
)
    requires
        encoding::holds(d, p, g.form(t, version)),
        g.writable(t),
        attribute_forms::tables_fit(t),
    ensures
        dump::global_at(d, p, t.strings, shown_types(t.types), version) == encoding::read_ok(
            g.shown(version),
            p + g.form(t, version).len(),
        ),
{
    let a = attribute_forms::string_ref_form(g.name, t);
    let b = type_forms::type_ref_form(g.ty, t.types);
    let c = encoding::varint_form(g.constant as nat);
    let e = encoding::varint_form(g.alignment as nat);
    let f = g.suffix_form(version);
    encoding::holds_split(d, p, a + b + c + e, f);
    encoding::holds_split(d, p, a + b + c, e);
    encoding::holds_split(d, p, a + b, c);
    encoding::holds_split(d, p, a, b);
    encoding::varint_round_trip(d, p, t.strings.index_of(g.name) as u64);
    type_forms::type_ref_round_trip(d, p + a.len(), g.ty, t.types);
    shown_types_index(t.types);
    encoding::varint_round_trip(d, p + (a + b).len(), g.constant);
    encoding::varint_round_trip(d, p + (a + b + c).len(), g.alignment);
    suffix_is_shown(d, p + (a + b + c + e).len(), g, version);
}

/// Globals are shown, from number `i` on.
proof fn globals_are_shown(
    d: Seq<u8>,
    p: int,
    gs: Seq<GlobalTree>,
    t: TablesModel,
    version: BytecodeVersion,
    i: nat,
)
    requires
        i <= gs.len(),
        encoding::holds(d, p, globals_form(gs, t, version, i)),
        forall|j: int| 0 <= j < gs.len() ==> (#[trigger] gs[j]).writable(t),
        attribute_forms::tables_fit(t),
    ensures
        dump::globals_at(
            d,
            p,
            t.strings,
            shown_types(t.types),
            version,
            (gs.len() - i) as nat,
            shown_globals(gs, version).take(i as int),
        ) == Ok::<Seq<Seq<char>>, DecodeError>(shown_globals(gs, version)),
    decreases gs.len() - i,
{
    let shown = shown_globals(gs, version);
    if i < gs.len() {
        let g = gs[i as int];
        let first = g.form(t, version);
        encoding::holds_split(d, p, first, globals_form(gs, t, version, i + 1));
        global_is_shown(d, p, g, t, version);
        globals_are_shown(d, p + first.len(), gs, t, version, i + 1);
        assert(shown.take(i as int).push(shown[i as int]) =~= shown.take((i + 1) as int));
    } else {
        assert(shown.take(i as int) =~= shown);
    }
}

/// The texts of a global section are those of the globals that were written.
pub proof fn global_section_is_shown(
    gs: Seq<GlobalTree>,
    t: TablesModel,
    version: BytecodeVersion,
)
    requires
        gs.len() <= u64::MAX,
        forall|j: int| 0 <= j < gs.len() ==> (#[trigger] gs[j]).writable(t),
        attribute_forms::tables_fit(t),
    ensures
        dump::global_section_texts(
            global_section_form(gs, t, version),
            t.strings,
            shown_types(t.types),
            version,
        ) == Ok::<Seq<Seq<char>>, DecodeError>(shown_globals(gs, version)),
{
    let payload = global_section_form(gs, t, version);
    let count = encoding::varint_form(gs.len());
    assert(payload.subrange(0, payload.len() as int) =~= payload);
    encoding::holds_split(payload, 0, count, globals_form(gs, t, version, 0));
    encoding::varint_round_trip(payload, 0, gs.len() as u64);
    globals_are_shown(payload, count.len() as int, gs, t, version, 0);
    assert(shown_globals(gs, version).take(0) =~= Seq::empty());
}

/// What the text shows of a module that was written with globals.
pub open spec fn shown_module(image: ModuleImage, globals: Seq<GlobalTree>) -> DumpModel {
    let m = section_forms::section_map(image.sections, Map::empty());
    DumpModel {
        version: image.version,
        strings: image.tables.strings,
        types: shown_types(image.tables.types),
        constants: image.tables.constants,
        globals: shown_globals(globals, image.version),
        functions: match sections::section_of(m, Section::Func.spec_id()) {
            Some(_) => Some(shown_functions(image.functions, image.tables, image.version)),
            None => None,
        },
        debug: match sections::section_of(m, Section::Debug.spec_id()) {
            Some(p) => Some(p.len()),
            None => None,
        },
    }
}

/// The text of a buffer shows the module that was written: its version, its strings, the
/// names of its types, the sizes of its constants, its globals, and its functions, with
/// or without hints.
#[verifier::rlimit(30)]
pub proof fn module_is_shown(
    image: ModuleImage,
    globals: Seq<GlobalTree>,
    trailing: Seq<u8>,
)
    requires
        image.writable(),
        globals.len() <= u64::MAX,
        forall|i: int|
            0 <= i < globals.len() ==> (#[trigger] globals[i]).writable(image.tables),
        module_forms::held(
            section_forms::section_map(image.sections, Map::empty()),
            Section::Global.spec_id(),
            global_section_form(globals, image.tables, image.version),
            globals.len() == 0,
        ),
    ensures
        decoder::dump_tables_in_range(image.form() + trailing),
        decoder::dump_of(image.form() + trailing) == Ok::<DumpModel, DecodeError>(
            shown_module(image, globals),
        ),
{
    let t = image.tables;
    let fs = image.functions;
    section_forms::container_round_trip(image.version, image.sections, trailing);
    section_forms::string_section_round_trip(t.strings);
    type_section_is_shown(t.types, image.version);
    section_forms::constant_section_round_trip(t.constants);
    assert(t.strings.len() == 0 ==> t.strings =~= Seq::empty());
    assert(t.types.len() == 0 ==> shown_types(t.types) =~= Seq::empty());
    assert(t.constants.len() == 0 ==> t.constants =~= Seq::empty());
    global_section_is_shown(globals, t, image.version);
    assert(globals.len() == 0 ==> shown_globals(globals, image.version) =~= Seq::empty());
    let payload = image.function_payload();
    let count = encoding::varint_form(fs.len());
    assert(payload.subrange(0, payload.len() as int) =~= payload);
    encoding::holds_split(
        payload,
        0,
        count,
        module_forms::functions_form(fs, t, image.version, 0),
    );
    encoding::varint_round_trip(payload, 0, fs.len() as u64);
    functions_are_shown(payload, count.len() as int, fs, t, image.version, 0);
    assert(shown_functions(fs, t, image.version).take(0) =~= Seq::empty());
}

} // verus!
