//! The byte forms of self-contained attributes, and what the reader gives back of
//! them.

use vstd::prelude::*;

use crate::bytecode::attributes;
use crate::bytecode::attributes::TablesModel;
use crate::bytecode::encoding;
use crate::bytecode::enums;
use crate::bytecode::enums::AttributeTag;
use crate::bytecode::reader;
use crate::bytecode::type_forms;
use crate::error::DecodeError;
use crate::ir::{AttributeModel, Bounded, DivBy, TypeModel};

verus! {

/// The form of the tag of an attribute.
pub open spec fn tag_form(t: AttributeTag) -> Seq<u8> {
    encoding::varint_form(t.spec_tag() as nat)
}

/// The form of a reference to a string of the tables.
pub open spec fn string_ref_form(s: Seq<char>, t: TablesModel) -> Seq<u8> {
    encoding::varint_form(t.strings.index_of(s) as nat)
}

/// The bytes of a constant that holds data: a length and the data.
pub open spec fn constant_form(data: Seq<u8>) -> Seq<u8> {
    encoding::varint_form(data.len()) + data
}

/// The form of a reference to the constant of the tables that holds data.
pub open spec fn constant_ref_form(data: Seq<u8>, t: TablesModel) -> Seq<u8> {
    encoding::varint_form(t.constants.index_of(constant_form(data)) as nat)
}

/// The form of a signed integer where there is one.
pub open spec fn optional_signed_form(v: Option<i64>) -> Seq<u8> {
    match v {
        Some(v) => encoding::signed_varint_form(v),
        None => Seq::empty(),
    }
}

/// The flags byte that announces two signed integers.
pub open spec fn pair_flags(a: Option<i64>, b: Option<i64>) -> u8 {
    match (a, b) {
        (None, None) => 0,
        (Some(_), None) => 1,
        (None, Some(_)) => 2,
        (Some(_), Some(_)) => 3,
    }
}

/// The form of two optional signed integers behind their flags.
pub open spec fn signed_pair_form(a: Option<i64>, b: Option<i64>) -> Seq<u8> {
    seq![pair_flags(a, b)] + optional_signed_form(a) + optional_signed_form(b)
}

/// The form of a self-contained attribute.
pub open spec fn attribute_form(a: AttributeModel, t: TablesModel) -> Seq<u8>
    decreases a, 0int,
{
    match a {
        AttributeModel::Integer(v, ty) => tag_form(AttributeTag::Integer)
            + type_forms::type_ref_form(ty, t.types) + encoding::varint_form(encoding::bits64(v)),
        AttributeModel::Float(bits, ty) => tag_form(AttributeTag::Float)
            + type_forms::type_ref_form(ty, t.types) + encoding::float_form(bits),
        AttributeModel::Bool(b) => tag_form(AttributeTag::Bool) + seq![
            if b {
                1u8
            } else {
                0u8
            },
        ],
        AttributeModel::Type(ty) => tag_form(AttributeTag::Type) + type_forms::type_ref_form(
            ty,
            t.types,
        ),
        AttributeModel::String(s) => tag_form(AttributeTag::String) + string_ref_form(s, t),
        AttributeModel::Array(v) => tag_form(AttributeTag::Array) + var_attributes_form(v, t),
        AttributeModel::DenseElements { element_type, data, .. } => tag_form(
            AttributeTag::DenseElements,
        ) + type_forms::type_ref_form(element_type, t.types) + constant_ref_form(data, t),
        AttributeModel::DenseI32Array(_) => Seq::empty(),
        AttributeModel::DivBy(v) => tag_form(AttributeTag::DivBy) + encoding::varint_form(
            v.divisor as nat,
        ) + signed_pair_form(v.every, v.along),
        AttributeModel::SameElements(v) => tag_form(AttributeTag::SameElements)
            + encoding::var_i64s_form(v),
        AttributeModel::Dictionary(v) => tag_form(AttributeTag::Dictionary) + dictionary_form(v, t),
        AttributeModel::OptimizationHints(v) => tag_form(AttributeTag::OptimizationHints)
            + hints_form(v, t),
        AttributeModel::Bounded(v) => tag_form(AttributeTag::Bounded) + signed_pair_form(
            v.lb,
            v.ub,
        ),
    }
}

/// The form of attributes one behind the other.
pub open spec fn attributes_form(s: Seq<AttributeModel>, t: TablesModel) -> Seq<u8>
    decreases s, 1int,
{
    if s.len() == 0 {
        Seq::empty()
    } else {
        attribute_form(s[0], t) + attributes_form(s.skip(1), t)
    }
}

/// The form of a counted list of attributes.
pub open spec fn var_attributes_form(s: Seq<AttributeModel>, t: TablesModel) -> Seq<u8>
    decreases s, 2int,
{
    encoding::varint_form(s.len()) + attributes_form(s, t)
}

/// The form of dictionary entries one behind the other.
pub open spec fn entries_form(s: Seq<(Seq<char>, AttributeModel)>, t: TablesModel) -> Seq<u8>
    decreases s, 1int,
{
    if s.len() == 0 {
        Seq::empty()
    } else {
        string_ref_form(s[0].0, t) + attribute_form(s[0].1, t) + entries_form(s.skip(1), t)
    }
}

/// The form of a dictionary behind its tag.
pub open spec fn dictionary_form(s: Seq<(Seq<char>, AttributeModel)>, t: TablesModel) -> Seq<u8>
    decreases s, 2int,
{
    encoding::varint_form(s.len()) + entries_form(s, t)
}

/// The form of entries of optimization hints one behind the other. A dictionary
/// stands behind its tag.
pub open spec fn hint_entries_form(
    s: Seq<(Seq<char>, Seq<(Seq<char>, AttributeModel)>)>,
    t: TablesModel,
) -> Seq<u8>
    decreases s, 3int,
{
    if s.len() == 0 {
        Seq::empty()
    } else {
        string_ref_form(s[0].0, t) + (tag_form(AttributeTag::Dictionary) + dictionary_form(
            s[0].1,
            t,
        )) + hint_entries_form(s.skip(1), t)
    }
}

/// The form of optimization hints behind their tag, or inline.
pub open spec fn hints_form(
    s: Seq<(Seq<char>, Seq<(Seq<char>, AttributeModel)>)>,
    t: TablesModel,
) -> Seq<u8>
    decreases s, 4int,
{
    encoding::varint_form(s.len()) + hint_entries_form(s, t)
}

/// The tables are no longer than an index can say.
pub open spec fn tables_fit(t: TablesModel) -> bool {
    &&& t.strings.len() <= u64::MAX
    &&& t.types.len() <= u64::MAX
    &&& t.constants.len() <= u64::MAX
}

/// A float attribute has a type whose values are read, and fits into it.
pub open spec fn float_fits(bits: u64, ty: TypeModel) -> bool {
    match ty {
        TypeModel::Scalar(s) => match encoding::float_width(s) {
            Some(w) => bits < w,
            None => false,
        },
        _ => true,
    }
}

/// A self-contained attribute can be written: what it refers to stands in the
/// tables, its lists are no longer than a count can say, and it holds nothing that
/// has no place on the wire (a shape of dense elements, a bare array of `i32`s).
pub open spec fn writable(a: AttributeModel, t: TablesModel) -> bool
    decreases a, 0int,
{
    match a {
        AttributeModel::Integer(_, ty) => t.types.contains(ty),
        AttributeModel::Float(bits, ty) => t.types.contains(ty) && float_fits(bits, ty),
        AttributeModel::Bool(_) => true,
        AttributeModel::Type(ty) => t.types.contains(ty),
        AttributeModel::String(s) => t.strings.contains(s),
        AttributeModel::Array(v) => v.len() <= u64::MAX && all_writable(v, t),
        AttributeModel::DenseElements { element_type, shape, data } => {
            &&& t.types.contains(element_type)
            &&& shape.len() == 0
            &&& data.len() <= u64::MAX
            &&& t.constants.contains(constant_form(data))
        },
        AttributeModel::DenseI32Array(_) => false,
        AttributeModel::DivBy(_) => true,
        AttributeModel::SameElements(v) => v.len() <= u64::MAX,
        AttributeModel::Dictionary(v) => dictionary_writable(v, t),
        AttributeModel::OptimizationHints(v) => v.len() <= u64::MAX && hints_writable(v, t),
        AttributeModel::Bounded(_) => true,
    }
}

/// Each of the attributes can be written.
pub open spec fn all_writable(s: Seq<AttributeModel>, t: TablesModel) -> bool
    decreases s, 1int,
{
    s.len() > 0 ==> writable(s[0], t) && all_writable(s.skip(1), t)
}

/// Each of the entries can be written.
pub open spec fn entries_writable(s: Seq<(Seq<char>, AttributeModel)>, t: TablesModel) -> bool
    decreases s, 1int,
{
    s.len() > 0 ==> t.strings.contains(s[0].0) && writable(s[0].1, t) && entries_writable(
        s.skip(1),
        t,
    )
}

/// A dictionary can be written.
pub open spec fn dictionary_writable(s: Seq<(Seq<char>, AttributeModel)>, t: TablesModel) -> bool
    decreases s, 2int,
{
    s.len() <= u64::MAX && entries_writable(s, t)
}

/// Each of the entries of optimization hints can be written.
pub open spec fn hints_writable(
    s: Seq<(Seq<char>, Seq<(Seq<char>, AttributeModel)>)>,
    t: TablesModel,
) -> bool
    decreases s, 3int,
{
    s.len() > 0 ==> t.strings.contains(s[0].0) && dictionary_writable(s[0].1, t) && hints_writable(
        s.skip(1),
        t,
    )
}

/// A reference to a string of the tables is read back.
pub proof fn string_ref_round_trip(
    d: Seq<u8>,
    p: int,
    s: Seq<char>,
    t: TablesModel,
    bad: DecodeError,
)
    requires
        encoding::holds(d, p, string_ref_form(s, t)),
        t.strings.contains(s),
        tables_fit(t),
    ensures
        t.string_ref_at(d, p, bad) == encoding::read_ok(s, p + string_ref_form(s, t).len()),
{
    encoding::varint_round_trip(d, p, t.strings.index_of(s) as u64);
}

/// A reference to a type of the tables is read back.
pub proof fn type_ref_round_trip(d: Seq<u8>, p: int, ty: TypeModel, t: TablesModel, bad: DecodeError)
    requires
        encoding::holds(d, p, type_forms::type_ref_form(ty, t.types)),
        t.types.contains(ty),
        tables_fit(t),
    ensures
        t.type_ref_at(d, p, bad) == encoding::read_ok(
            ty,
            p + type_forms::type_ref_form(ty, t.types).len(),
        ),
{
    type_forms::type_ref_round_trip(d, p, ty, t.types);
}

/// The data of a constant of the tables is read back.
pub proof fn constant_data_round_trip(
    d: Seq<u8>,
    p: int,
    data: Seq<u8>,
    t: TablesModel,
    bad: DecodeError,
)
    requires
        encoding::holds(d, p, constant_ref_form(data, t)),
        data.len() <= u64::MAX,
        t.constants.contains(constant_form(data)),
        tables_fit(t),
    ensures
        t.constant_data_at(d, p, bad) == encoding::read_ok(
            data,
            p + constant_ref_form(data, t).len(),
        ),
{
    let raw = constant_form(data);
    let len = encoding::varint_form(data.len());
    encoding::varint_round_trip(d, p, t.constants.index_of(raw) as u64);
    assert(raw.subrange(0, raw.len() as int) =~= raw);
    encoding::holds_split(raw, 0, len, data);
    encoding::varint_round_trip(raw, 0, data.len() as u64);
}

/// Two optional signed integers behind their flags are read back.
proof fn signed_pair_round_trip(d: Seq<u8>, p: int, a: Option<i64>, b: Option<i64>)
    requires
        encoding::holds(d, p, signed_pair_form(a, b)),
    ensures
        attributes::signed_pair_at(d, p) == encoding::read_ok(
            (a, b),
            p + signed_pair_form(a, b).len(),
        ),
{
    let flags = seq![pair_flags(a, b)];
    encoding::holds_split(d, p, flags + optional_signed_form(a), optional_signed_form(b));
    encoding::holds_split(d, p, flags, optional_signed_form(a));
    assert(d.subrange(p, p + 1)[0] == d[p]);
    if let Some(v) = a {
        encoding::signed_varint_round_trip(d, p + 1, v);
    }
    if let Some(v) = b {
        encoding::signed_varint_round_trip(d, p + 1 + optional_signed_form(a).len(), v);
    }
}

/// The tag of an attribute is read back.
proof fn tag_round_trip(d: Seq<u8>, p: int, tag: AttributeTag, rest: Seq<u8>)
    requires
        encoding::holds(d, p, tag_form(tag) + rest),
    ensures
        reader::varint_at(d, p) == encoding::read_ok(tag.spec_tag(), p + tag_form(tag).len()),
        enums::attribute_tag_of(tag.spec_tag()) == Some(tag),
        encoding::holds(d, p + tag_form(tag).len(), rest),
{
    encoding::holds_split(d, p, tag_form(tag), rest);
    encoding::varint_round_trip(d, p, tag.spec_tag());
}

/// An integer attribute is read back.
proof fn integer_round_trip(d: Seq<u8>, p: int, a: AttributeModel, t: TablesModel)
    requires
        a is Integer,
        encoding::holds(d, p, attribute_form(a, t)),
        writable(a, t),
        tables_fit(t),
    ensures
        attributes::attribute_at(d, p, t) == encoding::read_ok(
            a,
            p + attribute_form(a, t).len(),
        ),
{
    if let AttributeModel::Integer(v, ty) = a {
        let tag = tag_form(AttributeTag::Integer);
        let x = type_forms::type_ref_form(ty, t.types);
        let y = encoding::varint_form(encoding::bits64(v));
        assert(tag + x + y =~= tag + (x + y));
        tag_round_trip(d, p, AttributeTag::Integer, x + y);
        encoding::holds_split(d, p + tag.len(), x, y);
        type_ref_round_trip(d, p + tag.len(), ty, t, DecodeError::AttrTypeIndex);
        encoding::varint_round_trip(d, p + tag.len() + x.len(), encoding::bits64(v) as u64);
    }
}

/// A float attribute is read back.
proof fn float_attribute_round_trip(d: Seq<u8>, p: int, a: AttributeModel, t: TablesModel)
    requires
        a is Float,
        encoding::holds(d, p, attribute_form(a, t)),
        writable(a, t),
        tables_fit(t),
    ensures
        attributes::attribute_at(d, p, t) == encoding::read_ok(
            a,
            p + attribute_form(a, t).len(),
        ),
{
    if let AttributeModel::Float(bits, ty) = a {
        let tag = tag_form(AttributeTag::Float);
        let x = type_forms::type_ref_form(ty, t.types);
        let y = encoding::float_form(bits);
        assert(tag + x + y =~= tag + (x + y));
        tag_round_trip(d, p, AttributeTag::Float, x + y);
        encoding::holds_split(d, p + tag.len(), x, y);
        type_ref_round_trip(d, p + tag.len(), ty, t, DecodeError::AttrTypeIndex);
        let q = p + tag.len() + x.len();
        encoding::wide_float_round_trip(d, q, bits);
        if let TypeModel::Scalar(s) = ty {
            encoding::float_round_trip(d, q, bits, s);
        }
    }
}

/// A flag is read back.
proof fn bool_round_trip(d: Seq<u8>, p: int, a: AttributeModel, t: TablesModel)
    requires
        a is Bool,
        encoding::holds(d, p, attribute_form(a, t)),
        writable(a, t),
        tables_fit(t),
    ensures
        attributes::attribute_at(d, p, t) == encoding::read_ok(
            a,
            p + attribute_form(a, t).len(),
        ),
{
    if let AttributeModel::Bool(b) = a {
        let y = seq![
            if b {
                1u8
            } else {
                0u8
            },
        ];
        tag_round_trip(d, p, AttributeTag::Bool, y);
        let q = p + tag_form(AttributeTag::Bool).len();
        assert(d.subrange(q, q + 1)[0] == d[q]);
    }
}

/// A type attribute is read back.
proof fn type_attribute_round_trip(d: Seq<u8>, p: int, a: AttributeModel, t: TablesModel)
    requires
        a is Type,
        encoding::holds(d, p, attribute_form(a, t)),
        writable(a, t),
        tables_fit(t),
    ensures
        attributes::attribute_at(d, p, t) == encoding::read_ok(
            a,
            p + attribute_form(a, t).len(),
        ),
{
    if let AttributeModel::Type(ty) = a {
        let y = type_forms::type_ref_form(ty, t.types);
        tag_round_trip(d, p, AttributeTag::Type, y);
        let q = p + tag_form(AttributeTag::Type).len();
        type_ref_round_trip(d, q, ty, t, DecodeError::AttrTypeIndex);
    }
}

/// A string attribute is read back.
proof fn string_round_trip(d: Seq<u8>, p: int, a: AttributeModel, t: TablesModel)
    requires
        a is String,
        encoding::holds(d, p, attribute_form(a, t)),
        writable(a, t),
        tables_fit(t),
    ensures
        attributes::attribute_at(d, p, t) == encoding::read_ok(
            a,
            p + attribute_form(a, t).len(),
        ),
{
    if let AttributeModel::String(s) = a {
        tag_round_trip(d, p, AttributeTag::String, string_ref_form(s, t));
        let q = p + tag_form(AttributeTag::String).len();
        string_ref_round_trip(d, q, s, t, DecodeError::AttrStringIndex);
    }
}

/// Dense elements are read back.
proof fn dense_round_trip(d: Seq<u8>, p: int, a: AttributeModel, t: TablesModel)
    requires
        a is DenseElements,
        encoding::holds(d, p, attribute_form(a, t)),
        writable(a, t),
        tables_fit(t),
    ensures
        attributes::attribute_at(d, p, t) == encoding::read_ok(
            a,
            p + attribute_form(a, t).len(),
        ),
{
    if let AttributeModel::DenseElements { element_type, shape, data } = a {
        let tag = tag_form(AttributeTag::DenseElements);
        let x = type_forms::type_ref_form(element_type, t.types);
        let y = constant_ref_form(data, t);
        assert(tag + x + y =~= tag + (x + y));
        tag_round_trip(d, p, AttributeTag::DenseElements, x + y);
        encoding::holds_split(d, p + tag.len(), x, y);
        type_ref_round_trip(d, p + tag.len(), element_type, t, DecodeError::AttrTypeIndex);
        constant_data_round_trip(
            d,
            p + tag.len() + x.len(),
            data,
            t,
            DecodeError::DenseConstIndex,
        );
        assert(shape =~= Seq::empty());
    }
}

/// A divisibility promise is read back.
proof fn div_by_round_trip(d: Seq<u8>, p: int, a: AttributeModel, t: TablesModel)
    requires
        a is DivBy,
        encoding::holds(d, p, attribute_form(a, t)),
        writable(a, t),
        tables_fit(t),
    ensures
        attributes::attribute_at(d, p, t) == encoding::read_ok(
            a,
            p + attribute_form(a, t).len(),
        ),
{
    if let AttributeModel::DivBy(v) = a {
        let tag = tag_form(AttributeTag::DivBy);
        let x = encoding::varint_form(v.divisor as nat);
        let y = signed_pair_form(v.every, v.along);
        assert(tag + x + y =~= tag + (x + y));
        tag_round_trip(d, p, AttributeTag::DivBy, x + y);
        encoding::holds_split(d, p + tag.len(), x, y);
        encoding::varint_round_trip(d, p + tag.len(), v.divisor);
        signed_pair_round_trip(d, p + tag.len() + x.len(), v.every, v.along);
    }
}

/// A promise that elements repeat is read back.
proof fn same_elements_round_trip(d: Seq<u8>, p: int, a: AttributeModel, t: TablesModel)
    requires
        a is SameElements,
        encoding::holds(d, p, attribute_form(a, t)),
        writable(a, t),
        tables_fit(t),
    ensures
        attributes::attribute_at(d, p, t) == encoding::read_ok(
            a,
            p + attribute_form(a, t).len(),
        ),
{
    if let AttributeModel::SameElements(v) = a {
        tag_round_trip(d, p, AttributeTag::SameElements, encoding::var_i64s_form(v));
        encoding::var_i64s_round_trip(d, p + tag_form(AttributeTag::SameElements).len(), v);
    }
}

/// A bounds promise is read back.
proof fn bounded_round_trip(d: Seq<u8>, p: int, a: AttributeModel, t: TablesModel)
    requires
        a is Bounded,
        encoding::holds(d, p, attribute_form(a, t)),
        writable(a, t),
        tables_fit(t),
    ensures
        attributes::attribute_at(d, p, t) == encoding::read_ok(
            a,
            p + attribute_form(a, t).len(),
        ),
{
    if let AttributeModel::Bounded(v) = a {
        tag_round_trip(d, p, AttributeTag::Bounded, signed_pair_form(v.lb, v.ub));
        signed_pair_round_trip(d, p + tag_form(AttributeTag::Bounded).len(), v.lb, v.ub);
    }
}

/// An attribute without nested ones is read back.
proof fn leaf_round_trip(d: Seq<u8>, p: int, a: AttributeModel, t: TablesModel)
    requires
        encoding::holds(d, p, attribute_form(a, t)),
        writable(a, t),
        tables_fit(t),
        !(a is Array),
        !(a is Dictionary),
        !(a is OptimizationHints),
    ensures
        attributes::attribute_at(d, p, t) == encoding::read_ok(
            a,
            p + attribute_form(a, t).len(),
        ),
{
    match a {
        AttributeModel::Integer(..) => {
            integer_round_trip(d, p, a, t);
        },
        AttributeModel::Float(..) => {
            float_attribute_round_trip(d, p, a, t);
        },
        AttributeModel::Bool(_) => {
            bool_round_trip(d, p, a, t);
        },
        AttributeModel::Type(_) => {
            type_attribute_round_trip(d, p, a, t);
        },
        AttributeModel::String(_) => {
            string_round_trip(d, p, a, t);
        },
        AttributeModel::DenseElements { .. } => {
            dense_round_trip(d, p, a, t);
        },
        AttributeModel::DivBy(_) => {
            div_by_round_trip(d, p, a, t);
        },
        AttributeModel::SameElements(_) => {
            same_elements_round_trip(d, p, a, t);
        },
        AttributeModel::Bounded(_) => {
            bounded_round_trip(d, p, a, t);
        },
        _ => {},
    }
}

/// Every self-contained attribute that can be written is read back.
pub proof fn attribute_round_trip(d: Seq<u8>, p: int, a: AttributeModel, t: TablesModel)
    requires
        encoding::holds(d, p, attribute_form(a, t)),
        writable(a, t),
        tables_fit(t),
    ensures
        attributes::attribute_at(d, p, t) == encoding::read_ok(
            a,
            p + attribute_form(a, t).len(),
        ),
    decreases a, 0int,
{
    match a {
        AttributeModel::Array(v) => {
            tag_round_trip(d, p, AttributeTag::Array, var_attributes_form(v, t));
            var_attributes_round_trip(d, p + tag_form(AttributeTag::Array).len(), v, t);
        },
        AttributeModel::Dictionary(v) => {
            tag_round_trip(d, p, AttributeTag::Dictionary, dictionary_form(v, t));
            dictionary_round_trip(d, p + tag_form(AttributeTag::Dictionary).len(), v, t);
        },
        AttributeModel::OptimizationHints(v) => {
            tag_round_trip(d, p, AttributeTag::OptimizationHints, hints_form(v, t));
            let q = p + tag_form(AttributeTag::OptimizationHints).len();
            let count = encoding::varint_form(v.len());
            encoding::holds_split(d, q, count, hint_entries_form(v, t));
            encoding::varint_round_trip(d, q, v.len() as u64);
            tagged_hints_round_trip(d, q + count.len(), v, t, Seq::empty());
            assert(Seq::<(Seq<char>, Seq<(Seq<char>, AttributeModel)>)>::empty() + v =~= v);
        },
        _ => {
            leaf_round_trip(d, p, a, t);
        },
    }
}

/// Attributes are read back, behind those read before them.
pub proof fn attributes_round_trip(
    d: Seq<u8>,
    p: int,
    s: Seq<AttributeModel>,
    t: TablesModel,
    acc: Seq<AttributeModel>,
)
    requires
        encoding::holds(d, p, attributes_form(s, t)),
        all_writable(s, t),
        tables_fit(t),
    ensures
        attributes::attributes_at(d, p, t, s.len(), acc) == encoding::read_ok(
            acc + s,
            p + attributes_form(s, t).len(),
        ),
    decreases s, 1int,
{
    if s.len() == 0 {
        assert(acc + s =~= acc);
    } else {
        let first = attribute_form(s[0], t);
        encoding::holds_split(d, p, first, attributes_form(s.skip(1), t));
        attribute_round_trip(d, p, s[0], t);
        attributes::attribute_advances(d, p, t);
        attributes_round_trip(d, p + first.len(), s.skip(1), t, acc.push(s[0]));
        assert(acc.push(s[0]) + s.skip(1) =~= acc + s);
    }
}

/// A counted list of attributes is read back.
pub proof fn var_attributes_round_trip(
    d: Seq<u8>,
    p: int,
    s: Seq<AttributeModel>,
    t: TablesModel,
)
    requires
        encoding::holds(d, p, var_attributes_form(s, t)),
        s.len() <= u64::MAX,
        all_writable(s, t),
        tables_fit(t),
    ensures
        attributes::var_attributes_at(d, p, t) == encoding::read_ok(
            s,
            p + var_attributes_form(s, t).len(),
        ),
    decreases s, 2int,
{
    let count = encoding::varint_form(s.len());
    encoding::holds_split(d, p, count, attributes_form(s, t));
    encoding::varint_round_trip(d, p, s.len() as u64);
    attributes_round_trip(d, p + count.len(), s, t, Seq::empty());
    assert(Seq::<AttributeModel>::empty() + s =~= s);
}

/// Dictionary entries are read back, behind those read before them.
proof fn entries_round_trip(
    d: Seq<u8>,
    p: int,
    s: Seq<(Seq<char>, AttributeModel)>,
    t: TablesModel,
    acc: Seq<(Seq<char>, AttributeModel)>,
)
    requires
        encoding::holds(d, p, entries_form(s, t)),
        entries_writable(s, t),
        tables_fit(t),
    ensures
        attributes::entries_at(d, p, t, s.len(), acc) == encoding::read_ok(
            acc + s,
            p + entries_form(s, t).len(),
        ),
    decreases s, 1int,
{
    if s.len() == 0 {
        assert(acc + s =~= acc);
    } else {
        let key = string_ref_form(s[0].0, t);
        let value = attribute_form(s[0].1, t);
        encoding::holds_split(d, p, key + value, entries_form(s.skip(1), t));
        encoding::holds_split(d, p, key, value);
        string_ref_round_trip(d, p, s[0].0, t, DecodeError::DictKeyIndex);
        reader::varint_advances(d, p);
        attribute_round_trip(d, p + key.len(), s[0].1, t);
        attributes::attribute_advances(d, p + key.len(), t);
        entries_round_trip(d, p + (key + value).len(), s.skip(1), t, acc.push(s[0]));
        assert(acc.push(s[0]) + s.skip(1) =~= acc + s);
    }
}

/// A dictionary is read back.
proof fn dictionary_round_trip(
    d: Seq<u8>,
    p: int,
    s: Seq<(Seq<char>, AttributeModel)>,
    t: TablesModel,
)
    requires
        encoding::holds(d, p, dictionary_form(s, t)),
        dictionary_writable(s, t),
        tables_fit(t),
    ensures
        attributes::dictionary_at(d, p, t) == encoding::read_ok(
            s,
            p + dictionary_form(s, t).len(),
        ),
    decreases s, 2int,
{
    let count = encoding::varint_form(s.len());
    encoding::holds_split(d, p, count, entries_form(s, t));
    encoding::varint_round_trip(d, p, s.len() as u64);
    entries_round_trip(d, p + count.len(), s, t, Seq::empty());
    assert(Seq::<(Seq<char>, AttributeModel)>::empty() + s =~= s);
}

/// Entries of optimization hints are read back, behind those read before them.
proof fn tagged_hints_round_trip(
    d: Seq<u8>,
    p: int,
    s: Seq<(Seq<char>, Seq<(Seq<char>, AttributeModel)>)>,
    t: TablesModel,
    acc: Seq<(Seq<char>, Seq<(Seq<char>, AttributeModel)>)>,
)
    requires
        encoding::holds(d, p, hint_entries_form(s, t)),
        hints_writable(s, t),
        tables_fit(t),
    ensures
        attributes::tagged_hint_entries_at(d, p, t, s.len(), acc) == encoding::read_ok(
            acc + s,
            p + hint_entries_form(s, t).len(),
        ),
    decreases s, 3int,
{
    if s.len() == 0 {
        assert(acc + s =~= acc);
    } else {
        let arch = string_ref_form(s[0].0, t);
        let tag = tag_form(AttributeTag::Dictionary);
        let dict = dictionary_form(s[0].1, t);
        encoding::holds_split(d, p, arch + (tag + dict), hint_entries_form(s.skip(1), t));
        encoding::holds_split(d, p, arch, tag + dict);
        string_ref_round_trip(d, p, s[0].0, t, DecodeError::AttrStringIndex);
        reader::varint_advances(d, p);
        tag_round_trip(d, p + arch.len(), AttributeTag::Dictionary, dict);
        reader::varint_advances(d, p + arch.len());
        let q = p + arch.len() + tag.len();
        dictionary_round_trip(d, q, s[0].1, t);
        attributes::dictionary_advances(d, q, t);
        tagged_hints_round_trip(d, q + dict.len(), s.skip(1), t, acc.push(s[0]));
        assert(acc.push(s[0]) + s.skip(1) =~= acc + s);
    }
}

/// Entries of inline optimization hints are read back, behind those read before
/// them.
proof fn inline_hint_entries_round_trip(
    d: Seq<u8>,
    p: int,
    s: Seq<(Seq<char>, Seq<(Seq<char>, AttributeModel)>)>,
    t: TablesModel,
    acc: Seq<(Seq<char>, Seq<(Seq<char>, AttributeModel)>)>,
)
    requires
        encoding::holds(d, p, hint_entries_form(s, t)),
        hints_writable(s, t),
        tables_fit(t),
    ensures
        attributes::inline_hint_entries_at(d, p, t, s.len(), acc) == encoding::read_ok(
            acc + s,
            p + hint_entries_form(s, t).len(),
        ),
    decreases s.len(),
{
    if s.len() == 0 {
        assert(acc + s =~= acc);
    } else {
        let arch = string_ref_form(s[0].0, t);
        let value = tag_form(AttributeTag::Dictionary) + dictionary_form(s[0].1, t);
        assert(value == attribute_form(AttributeModel::Dictionary(s[0].1), t));
        encoding::holds_split(d, p, arch + value, hint_entries_form(s.skip(1), t));
        encoding::holds_split(d, p, arch, value);
        string_ref_round_trip(d, p, s[0].0, t, DecodeError::HintsArchIndex);
        assert(writable(AttributeModel::Dictionary(s[0].1), t));
        attribute_round_trip(d, p + arch.len(), AttributeModel::Dictionary(s[0].1), t);
        inline_hint_entries_round_trip(
            d,
            p + (arch + value).len(),
            s.skip(1),
            t,
            acc.push(s[0]),
        );
        assert(acc.push(s[0]) + s.skip(1) =~= acc + s);
    }
}

/// Inline optimization hints are read back.
pub proof fn inline_hints_round_trip(
    d: Seq<u8>,
    p: int,
    s: Seq<(Seq<char>, Seq<(Seq<char>, AttributeModel)>)>,
    t: TablesModel,
)
    requires
        encoding::holds(d, p, hints_form(s, t)),
        s.len() <= u64::MAX,
        hints_writable(s, t),
        tables_fit(t),
    ensures
        attributes::inline_hints_at(d, p, t) == encoding::read_ok(s, p + hints_form(s, t).len()),
{
    let count = encoding::varint_form(s.len());
    encoding::holds_split(d, p, count, hint_entries_form(s, t));
    encoding::varint_round_trip(d, p, s.len() as u64);
    inline_hint_entries_round_trip(d, p + count.len(), s, t, Seq::empty());
    assert(Seq::<(Seq<char>, Seq<(Seq<char>, AttributeModel)>)>::empty() + s =~= s);
}

} // verus!
