//! Self-contained attributes: a tag and a value that refers to the tables of the
//! buffer.

use vstd::prelude::*;

use crate::bytecode::enums;
use crate::bytecode::enums::AttributeTag;
use crate::bytecode::reader;
use crate::bytecode::reader::{to_signed64, Reader, Step};
use crate::error::DecodeError;
use crate::ir;
use crate::ir::{
    Attribute, AttributeModel, Bounded, DenseElements, DivBy, OptimizationHints, SameElements, Type,
    TypeModel,
};
use crate::text;

verus! {

/// The tables that the sections of a buffer hold.
pub struct Tables<'t> {
    pub strings: &'t Vec<String>,
    pub types: &'t Vec<Type>,
    pub constants: &'t Vec<Vec<u8>>,
}

/// The model of the tables.
#[verifier::ext_equal]
pub struct TablesModel {
    pub strings: Seq<Seq<char>>,
    pub types: Seq<TypeModel>,
    pub constants: Seq<Seq<u8>>,
}

/// The contents of a sequence of byte strings.
pub open spec fn blobs(s: Seq<Vec<u8>>) -> Seq<Seq<u8>> {
    Seq::new(s.len(), |i: int| s[i]@)
}

impl<'t> View for Tables<'t> {
    type V = TablesModel;

    open spec fn view(&self) -> TablesModel {
        TablesModel {
            strings: text::texts(self.strings@),
            types: ir::type_models(self.types@),
            constants: blobs(self.constants@),
        }
    }
}

impl TablesModel {
    /// The type at an index that stands in the stream.
    pub open spec fn type_ref_at(self, d: Seq<u8>, p: int, bad: DecodeError) -> Step<TypeModel> {
        match reader::varint_at(d, p) {
            (Err(e), q) => (Err(e), q),
            (Ok(i), q) => if i < self.types.len() {
                (Ok(self.types[i as int]), q)
            } else {
                (Err(bad), q)
            },
        }
    }

    /// The string at an index that stands in the stream.
    pub open spec fn string_ref_at(self, d: Seq<u8>, p: int, bad: DecodeError) -> Step<Seq<char>> {
        match reader::varint_at(d, p) {
            (Err(e), q) => (Err(e), q),
            (Ok(i), q) => if i < self.strings.len() {
                (Ok(self.strings[i as int]), q)
            } else {
                (Err(bad), q)
            },
        }
    }

    /// The data of the constant at an index that stands in the stream: the
    /// constant holds a length and as many bytes.
    pub open spec fn constant_data_at(self, d: Seq<u8>, p: int, bad: DecodeError) -> Step<Seq<u8>> {
        match reader::varint_at(d, p) {
            (Err(e), q) => (Err(e), q),
            (Ok(i), q) => if i < self.constants.len() {
                (constant_data(self.constants[i as int]), q)
            } else {
                (Err(bad), q)
            },
        }
    }
}

/// The data of a constant: a length and as many bytes.
pub open spec fn constant_data(raw: Seq<u8>) -> Result<Seq<u8>, DecodeError> {
    match reader::varint_at(raw, 0) {
        (Err(e), _) => Err(e),
        (Ok(len), q) => reader::bytes_at(raw, q, len as int).0,
    }
}

/// A signed integer where there is one, `None` where not.
pub open spec fn optional_signed_at(d: Seq<u8>, p: int, present: bool) -> Step<Option<i64>> {
    if present {
        match reader::signed_varint_at(d, p) {
            (Err(e), q) => (Err(e), q),
            (Ok(v), q) => (Ok(Some(v)), q),
        }
    } else {
        (Ok(None), p)
    }
}

/// A flags byte, and the two signed integers that its low bits announce.
pub open spec fn signed_pair_at(d: Seq<u8>, p: int) -> Step<(Option<i64>, Option<i64>)> {
    match reader::byte_at(d, p) {
        (Err(e), q) => (Err(e), q),
        (Ok(flags), q) => match optional_signed_at(d, q, flags % 2 == 1) {
            (Err(e), q) => (Err(e), q),
            (Ok(first), q) => match optional_signed_at(d, q, (flags / 2) % 2 == 1) {
                (Err(e), q) => (Err(e), q),
                (Ok(second), q) => (Ok((first, second)), q),
            },
        },
    }
}

/// An integer attribute behind its tag: the index of its type and its value.
pub open spec fn integer_at(d: Seq<u8>, p: int, t: TablesModel) -> Step<AttributeModel> {
    match t.type_ref_at(d, p, DecodeError::AttrTypeIndex) {
        (Err(e), q) => (Err(e), q),
        (Ok(ty), q) => match reader::varint_at(d, q) {
            (Err(e), q) => (Err(e), q),
            (Ok(v), q) => (Ok(AttributeModel::Integer(reader::signed64(v as nat), ty)), q),
        },
    }
}

/// A float attribute behind its tag: the index of its type and its bit pattern.
pub open spec fn float_at(d: Seq<u8>, p: int, t: TablesModel) -> Step<AttributeModel> {
    match t.type_ref_at(d, p, DecodeError::AttrTypeIndex) {
        (Err(e), q) => (Err(e), q),
        (Ok(ty), q) => match (match ty {
            TypeModel::Scalar(s) => reader::float_bits_at(d, q, s),
            _ => reader::wide_float_bits_at(d, q),
        }) {
            (Err(e), q) => (Err(e), q),
            (Ok(bits), q) => (Ok(AttributeModel::Float(bits, ty)), q),
        },
    }
}

/// Dense elements behind their tag: the indices of their type and of a constant.
/// The shape is not on the wire.
pub open spec fn dense_at(d: Seq<u8>, p: int, t: TablesModel) -> Step<AttributeModel> {
    match t.type_ref_at(d, p, DecodeError::AttrTypeIndex) {
        (Err(e), q) => (Err(e), q),
        (Ok(element_type), q) => match t.constant_data_at(d, q, DecodeError::DenseConstIndex) {
            (Err(e), q) => (Err(e), q),
            (Ok(data), q) => (
                Ok(AttributeModel::DenseElements { element_type, shape: Seq::empty(), data }),
                q,
            ),
        },
    }
}

/// A divisibility promise behind its tag.
pub open spec fn div_by_at(d: Seq<u8>, p: int) -> Step<AttributeModel> {
    match reader::varint_at(d, p) {
        (Err(e), q) => (Err(e), q),
        (Ok(divisor), q) => match signed_pair_at(d, q) {
            (Err(e), q) => (Err(e), q),
            (Ok((every, along)), q) => (
                Ok(AttributeModel::DivBy(DivBy { divisor, every, along })),
                q,
            ),
        },
    }
}

/// A bounds promise behind its tag.
pub open spec fn bounded_at(d: Seq<u8>, p: int) -> Step<AttributeModel> {
    match signed_pair_at(d, p) {
        (Err(e), q) => (Err(e), q),
        (Ok((lb, ub)), q) => (Ok(AttributeModel::Bounded(Bounded { lb, ub })), q),
    }
}

/// An attribute without nested attributes behind its tag.
pub open spec fn leaf_at(d: Seq<u8>, p: int, t: TablesModel, tag: AttributeTag) -> Step<
    AttributeModel,
> {
    match tag {
        AttributeTag::Integer => integer_at(d, p, t),
        AttributeTag::Float => float_at(d, p, t),
        AttributeTag::Bool => match reader::byte_at(d, p) {
            (Err(e), q) => (Err(e), q),
            (Ok(b), q) => (Ok(AttributeModel::Bool(b != 0)), q),
        },
        AttributeTag::Type => match t.type_ref_at(d, p, DecodeError::AttrTypeIndex) {
            (Err(e), q) => (Err(e), q),
            (Ok(ty), q) => (Ok(AttributeModel::Type(ty)), q),
        },
        AttributeTag::String => match t.string_ref_at(d, p, DecodeError::AttrStringIndex) {
            (Err(e), q) => (Err(e), q),
            (Ok(s), q) => (Ok(AttributeModel::String(s)), q),
        },
        AttributeTag::DenseElements => dense_at(d, p, t),
        AttributeTag::DivBy => div_by_at(d, p),
        AttributeTag::SameElements => match reader::var_i64s_at(d, p) {
            (Err(e), q) => (Err(e), q),
            (Ok(values), q) => (Ok(AttributeModel::SameElements(values)), q),
        },
        _ => bounded_at(d, p),
    }
}

/// A self-contained attribute: its tag and its value.
pub open spec fn attribute_at(d: Seq<u8>, p: int, t: TablesModel) -> Step<AttributeModel>
    decreases d.len() - p, 0int, 0int,
    when 0 <= p <= d.len()
{
    match reader::varint_at(d, p) {
        (Err(e), q) => (Err(e), q),
        (Ok(tag), q) => {
            proof {
                reader::varint_advances(d, p);
            }
            match enums::attribute_tag_of(tag) {
                None => (Err(DecodeError::UnknownAttributeTag(tag)), q),
                Some(AttributeTag::Array) => match var_attributes_at(d, q, t) {
                    (Err(e), q) => (Err(e), q),
                    (Ok(v), q) => (Ok(AttributeModel::Array(v)), q),
                },
                Some(AttributeTag::Dictionary) => match dictionary_at(d, q, t) {
                    (Err(e), q) => (Err(e), q),
                    (Ok(v), q) => (Ok(AttributeModel::Dictionary(v)), q),
                },
                Some(AttributeTag::OptimizationHints) => match tagged_hints_at(d, q, t) {
                    (Err(e), q) => (Err(e), q),
                    (Ok(v), q) => (Ok(AttributeModel::OptimizationHints(v)), q),
                },
                Some(tag) => leaf_at(d, q, t, tag),
            }
        },
    }
}

/// A count and as many self-contained attributes.
pub open spec fn var_attributes_at(d: Seq<u8>, p: int, t: TablesModel) -> Step<Seq<AttributeModel>>
    decreases d.len() - p, 3int, 0int,
    when 0 <= p <= d.len()
{
    match reader::varint_at(d, p) {
        (Err(e), q) => (Err(e), q),
        (Ok(n), q) => {
            proof {
                reader::varint_advances(d, p);
            }
            attributes_at(d, q, t, n as nat, Seq::empty())
        },
    }
}

/// `n` self-contained attributes behind those in `acc`. An attribute takes at
/// least one byte, so the last branch is never taken.
pub open spec fn attributes_at(
    d: Seq<u8>,
    p: int,
    t: TablesModel,
    n: nat,
    acc: Seq<AttributeModel>,
) -> Step<Seq<AttributeModel>>
    decreases d.len() - p, 1int, n,
    when 0 <= p <= d.len()
{
    if n == 0 {
        (Ok(acc), p)
    } else {
        match attribute_at(d, p, t) {
            (Err(e), q) => (Err(e), q),
            (Ok(a), q) => if p < q <= d.len() {
                attributes_at(d, q, t, (n - 1) as nat, acc.push(a))
            } else {
                (Err(DecodeError::UnexpectedEnd), q)
            },
        }
    }
}

/// A count and as many pairs of the index of a key and a self-contained attribute.
pub open spec fn dictionary_at(d: Seq<u8>, p: int, t: TablesModel) -> Step<
    Seq<(Seq<char>, AttributeModel)>,
>
    decreases d.len() - p, 3int, 0int,
    when 0 <= p <= d.len()
{
    match reader::varint_at(d, p) {
        (Err(e), q) => (Err(e), q),
        (Ok(n), q) => {
            proof {
                reader::varint_advances(d, p);
            }
            entries_at(d, q, t, n as nat, Seq::empty())
        },
    }
}

/// `n` dictionary entries behind those in `acc`.
pub open spec fn entries_at(
    d: Seq<u8>,
    p: int,
    t: TablesModel,
    n: nat,
    acc: Seq<(Seq<char>, AttributeModel)>,
) -> Step<Seq<(Seq<char>, AttributeModel)>>
    decreases d.len() - p, 1int, n,
    when 0 <= p <= d.len()
{
    if n == 0 {
        (Ok(acc), p)
    } else {
        match t.string_ref_at(d, p, DecodeError::DictKeyIndex) {
            (Err(e), q) => (Err(e), q),
            (Ok(key), q) => {
                proof {
                    reader::varint_advances(d, p);
                }
                match attribute_at(d, q, t) {
                    (Err(e), r) => (Err(e), r),
                    (Ok(a), r) => if q < r <= d.len() {
                        entries_at(d, r, t, (n - 1) as nat, acc.push((key, a)))
                    } else {
                        (Err(DecodeError::UnexpectedEnd), r)
                    },
                }
            },
        }
    }
}

/// A count and as many pairs of the index of an architecture and a dictionary
/// with its tag.
pub open spec fn tagged_hints_at(d: Seq<u8>, p: int, t: TablesModel) -> Step<
    Seq<(Seq<char>, Seq<(Seq<char>, AttributeModel)>)>,
>
    decreases d.len() - p, 3int, 0int,
    when 0 <= p <= d.len()
{
    match reader::varint_at(d, p) {
        (Err(e), q) => (Err(e), q),
        (Ok(n), q) => {
            proof {
                reader::varint_advances(d, p);
            }
            tagged_hint_entries_at(d, q, t, n as nat, Seq::empty())
        },
    }
}

/// `n` entries of optimization hints behind those in `acc`.
pub open spec fn tagged_hint_entries_at(
    d: Seq<u8>,
    p: int,
    t: TablesModel,
    n: nat,
    acc: Seq<(Seq<char>, Seq<(Seq<char>, AttributeModel)>)>,
) -> Step<Seq<(Seq<char>, Seq<(Seq<char>, AttributeModel)>)>>
    decreases d.len() - p, 2int, n,
    when 0 <= p <= d.len()
{
    if n == 0 {
        (Ok(acc), p)
    } else {
        match t.string_ref_at(d, p, DecodeError::AttrStringIndex) {
            (Err(e), q) => (Err(e), q),
            (Ok(arch), q) => match reader::varint_at(d, q) {
                (Err(e), r) => (Err(e), r),
                (Ok(tag), r) => if tag != AttributeTag::Dictionary.spec_tag() {
                    (Err(DecodeError::HintsEntryTag), r)
                } else {
                    proof {
                        reader::varint_advances(d, p);
                        reader::varint_advances(d, q);
                    }
                    match dictionary_at(d, r, t) {
                        (Err(e), s) => (Err(e), s),
                        (Ok(v), s) => if r < s <= d.len() {
                            tagged_hint_entries_at(d, s, t, (n - 1) as nat, acc.push((arch, v)))
                        } else {
                            (Err(DecodeError::UnexpectedEnd), s)
                        },
                    }
                },
            },
        }
    }
}

/// An attribute without nested ones ends inside the buffer.
pub proof fn leaf_advances(d: Seq<u8>, p: int, t: TablesModel, tag: AttributeTag)
    requires
        0 <= p <= d.len(),
    ensures
        p <= leaf_at(d, p, t, tag).1 <= d.len(),
{
    reader::varint_advances(d, p);
    let q = reader::varint_at(d, p).1;
    reader::varint_advances(d, q);
    reader::var_i64s_advance(d, p);
    if p < d.len() {
        reader::varint_advances(d, p + 1);
        reader::varint_advances(d, reader::varint_at(d, p + 1).1);
    }
    if q < d.len() {
        reader::varint_advances(d, q + 1);
        reader::varint_advances(d, reader::varint_at(d, q + 1).1);
    }
}

/// A self-contained attribute ends inside the buffer and takes at least one byte.
pub proof fn attribute_advances(d: Seq<u8>, p: int, t: TablesModel)
    requires
        0 <= p <= d.len(),
    ensures
        p <= attribute_at(d, p, t).1 <= d.len(),
        attribute_at(d, p, t).0 is Ok ==> p < attribute_at(d, p, t).1,
    decreases d.len() - p, 0int, 0int,
{
    reader::varint_advances(d, p);
    if let (Ok(tag), q) = reader::varint_at(d, p) {
        match enums::attribute_tag_of(tag) {
            None => {},
            Some(AttributeTag::Array) => {
                var_attributes_advance(d, q, t);
            },
            Some(AttributeTag::Dictionary) => {
                dictionary_advances(d, q, t);
            },
            Some(AttributeTag::OptimizationHints) => {
                reader::varint_advances(d, q);
                if let (Ok(n), r) = reader::varint_at(d, q) {
                    tagged_hint_entries_advance(d, r, t, n as nat, Seq::empty());
                }
            },
            Some(tag) => {
                leaf_advances(d, q, t, tag);
            },
        }
    }
}

/// A counted list of attributes ends inside the buffer and takes at least one byte.
pub proof fn var_attributes_advance(d: Seq<u8>, p: int, t: TablesModel)
    requires
        0 <= p <= d.len(),
    ensures
        p <= var_attributes_at(d, p, t).1 <= d.len(),
        var_attributes_at(d, p, t).0 is Ok ==> p < var_attributes_at(d, p, t).1,
    decreases d.len() - p, 3int, 0int,
{
    reader::varint_advances(d, p);
    if let (Ok(n), q) = reader::varint_at(d, p) {
        attributes_advance(d, q, t, n as nat, Seq::empty());
    }
}

/// A list of attributes ends inside the buffer.
pub proof fn attributes_advance(d: Seq<u8>, p: int, t: TablesModel, n: nat, acc: Seq<AttributeModel>)
    requires
        0 <= p <= d.len(),
    ensures
        p <= attributes_at(d, p, t, n, acc).1 <= d.len(),
    decreases d.len() - p, 1int, n,
{
    if n > 0 {
        attribute_advances(d, p, t);
        if let (Ok(a), q) = attribute_at(d, p, t) {
            attributes_advance(d, q, t, (n - 1) as nat, acc.push(a));
        }
    }
}

/// A dictionary ends inside the buffer and takes at least one byte.
pub proof fn dictionary_advances(d: Seq<u8>, p: int, t: TablesModel)
    requires
        0 <= p <= d.len(),
    ensures
        p <= dictionary_at(d, p, t).1 <= d.len(),
        dictionary_at(d, p, t).0 is Ok ==> p < dictionary_at(d, p, t).1,
    decreases d.len() - p, 3int, 0int,
{
    reader::varint_advances(d, p);
    if let (Ok(n), q) = reader::varint_at(d, p) {
        entries_advance(d, q, t, n as nat, Seq::empty());
    }
}

/// A list of dictionary entries ends inside the buffer.
pub proof fn entries_advance(
    d: Seq<u8>,
    p: int,
    t: TablesModel,
    n: nat,
    acc: Seq<(Seq<char>, AttributeModel)>,
)
    requires
        0 <= p <= d.len(),
    ensures
        p <= entries_at(d, p, t, n, acc).1 <= d.len(),
    decreases d.len() - p, 1int, n,
{
    if n > 0 {
        reader::varint_advances(d, p);
        if let (Ok(key), q) = t.string_ref_at(d, p, DecodeError::DictKeyIndex) {
            attribute_advances(d, q, t);
            if let (Ok(a), r) = attribute_at(d, q, t) {
                entries_advance(d, r, t, (n - 1) as nat, acc.push((key, a)));
            }
        }
    }
}

/// A list of optimization hints ends inside the buffer.
pub proof fn tagged_hint_entries_advance(
    d: Seq<u8>,
    p: int,
    t: TablesModel,
    n: nat,
    acc: Seq<(Seq<char>, Seq<(Seq<char>, AttributeModel)>)>,
)
    requires
        0 <= p <= d.len(),
    ensures
        p <= tagged_hint_entries_at(d, p, t, n, acc).1 <= d.len(),
    decreases d.len() - p, 2int, n,
{
    if n > 0 {
        reader::varint_advances(d, p);
        if let (Ok(arch), q) = t.string_ref_at(d, p, DecodeError::AttrStringIndex) {
            reader::varint_advances(d, q);
            if let (Ok(tag), r) = reader::varint_at(d, q) {
                if tag == AttributeTag::Dictionary.spec_tag() {
                    dictionary_advances(d, r, t);
                    if let (Ok(v), s) = dictionary_at(d, r, t) {
                        tagged_hint_entries_advance(d, s, t, (n - 1) as nat, acc.push((arch, v)));
                    }
                }
            }
        }
    }
}

/// A list of inline optimization hints ends inside the buffer.
pub proof fn inline_hint_entries_advance(
    d: Seq<u8>,
    p: int,
    t: TablesModel,
    n: nat,
    acc: Seq<(Seq<char>, Seq<(Seq<char>, AttributeModel)>)>,
)
    requires
        0 <= p <= d.len(),
    ensures
        p <= inline_hint_entries_at(d, p, t, n, acc).1 <= d.len(),
    decreases n,
{
    if n > 0 {
        reader::varint_advances(d, p);
        if let (Ok(arch), q) = t.string_ref_at(d, p, DecodeError::HintsArchIndex) {
            attribute_advances(d, q, t);
            if let (Ok(AttributeModel::Dictionary(v)), r) = attribute_at(d, q, t) {
                inline_hint_entries_advance(d, r, t, (n - 1) as nat, acc.push((arch, v)));
            }
        }
    }
}

/// Inline optimization hints end inside the buffer.
pub proof fn inline_hints_advance(d: Seq<u8>, p: int, t: TablesModel)
    requires
        0 <= p <= d.len(),
    ensures
        p <= inline_hints_at(d, p, t).1 <= d.len(),
{
    reader::varint_advances(d, p);
    if let (Ok(n), q) = reader::varint_at(d, p) {
        inline_hint_entries_advance(d, q, t, n as nat, Seq::empty());
    }
}

/// `n` entries of inline optimization hints behind those in `acc`: the index of
/// an architecture, and an attribute that has to be a dictionary.
pub open spec fn inline_hint_entries_at(
    d: Seq<u8>,
    p: int,
    t: TablesModel,
    n: nat,
    acc: Seq<(Seq<char>, Seq<(Seq<char>, AttributeModel)>)>,
) -> Step<Seq<(Seq<char>, Seq<(Seq<char>, AttributeModel)>)>>
    decreases n,
{
    if n == 0 {
        (Ok(acc), p)
    } else {
        match t.string_ref_at(d, p, DecodeError::HintsArchIndex) {
            (Err(e), q) => (Err(e), q),
            (Ok(arch), q) => match attribute_at(d, q, t) {
                (Err(e), q) => (Err(e), q),
                (Ok(AttributeModel::Dictionary(v)), q) => inline_hint_entries_at(
                    d,
                    q,
                    t,
                    (n - 1) as nat,
                    acc.push((arch, v)),
                ),
                (Ok(_), q) => (Err(DecodeError::HintsEntryValue), q),
            },
        }
    }
}

/// Inline optimization hints: a count and as many entries.
pub open spec fn inline_hints_at(d: Seq<u8>, p: int, t: TablesModel) -> Step<
    Seq<(Seq<char>, Seq<(Seq<char>, AttributeModel)>)>,
> {
    match reader::varint_at(d, p) {
        (Err(e), q) => (Err(e), q),
        (Ok(n), q) => inline_hint_entries_at(d, q, t, n as nat, Seq::empty()),
    }
}

impl<'t> Tables<'t> {
    /// Reads the index of a type and gives the type.
    pub fn read_type_ref(&self, r: &mut Reader, bad: DecodeError) -> (t: Result<Type, DecodeError>)
        requires
            old(r).wf(),
        ensures
            Reader::reads_view(
                *old(r),
                *final(r),
                t,
                self@.type_ref_at(old(r).data@, old(r).pos as int, bad),
            ),
            t is Ok ==> old(r).pos < final(r).pos,
    {
        let i: u64 = r.read_varint()?;
        if i < self.types.len() as u64 {
            Ok(self.types[i as usize].clone())
        } else {
            Err(bad)
        }
    }

    /// Reads the index of a string and gives the string.
    pub fn read_string_ref(&self, r: &mut Reader, bad: DecodeError) -> (s: Result<
        String,
        DecodeError,
    >)
        requires
            old(r).wf(),
        ensures
            Reader::reads_view(
                *old(r),
                *final(r),
                s,
                self@.string_ref_at(old(r).data@, old(r).pos as int, bad),
            ),
            s is Ok ==> old(r).pos < final(r).pos,
    {
        let i: u64 = r.read_varint()?;
        if i < self.strings.len() as u64 {
            Ok(self.strings[i as usize].clone())
        } else {
            Err(bad)
        }
    }

    /// Reads the index of a constant and gives the data of the constant.
    pub fn read_constant_data(&self, r: &mut Reader, bad: DecodeError) -> (v: Result<
        Vec<u8>,
        DecodeError,
    >)
        requires
            old(r).wf(),
        ensures
            Reader::reads_view(
                *old(r),
                *final(r),
                v,
                self@.constant_data_at(old(r).data@, old(r).pos as int, bad),
            ),
            v is Ok ==> old(r).pos < final(r).pos,
    {
        let i: u64 = r.read_varint()?;
        if i < self.constants.len() as u64 {
            let mut cr = Reader::new(self.constants[i as usize].as_slice());
            let len: u64 = cr.read_varint()?;
            let data = cr.read_bytes(len)?;
            Ok(vstd::slice::slice_to_vec(data))
        } else {
            Err(bad)
        }
    }
}

/// Reads a signed integer where there is one.
fn read_optional_signed(r: &mut Reader, present: bool) -> (v: Result<Option<i64>, DecodeError>)
    requires
        old(r).wf(),
    ensures
        Reader::reads(
            *old(r),
            *final(r),
            v,
            optional_signed_at(old(r).data@, old(r).pos as int, present),
        ),
{
    if present {
        let v: i64 = r.read_signed_varint()?;
        Ok(Some(v))
    } else {
        Ok(None)
    }
}

/// Reads a flags byte and the two signed integers that it announces.
pub(crate) fn read_signed_pair(r: &mut Reader) -> (v: Result<(Option<i64>, Option<i64>), DecodeError>)
    requires
        old(r).wf(),
    ensures
        Reader::reads(*old(r), *final(r), v, signed_pair_at(old(r).data@, old(r).pos as int)),
{
    let flags: u8 = r.read_byte()?;
    let first = read_optional_signed(r, flags % 2 == 1)?;
    let second = read_optional_signed(r, (flags / 2) % 2 == 1)?;
    Ok((first, second))
}

/// Reads an attribute without nested attributes behind its tag.
fn read_leaf(r: &mut Reader, t: &Tables, tag: AttributeTag) -> (a: Result<Attribute, DecodeError>)
    requires
        old(r).wf(),
        !(tag is Array),
        !(tag is Dictionary),
        !(tag is OptimizationHints),
    ensures
        Reader::reads_view(
            *old(r),
            *final(r),
            a,
            leaf_at(old(r).data@, old(r).pos as int, t@, tag),
        ),
{
    match tag {
        AttributeTag::Integer => {
            let ty = t.read_type_ref(r, DecodeError::AttrTypeIndex)?;
            let v: u64 = r.read_varint()?;
            Ok(Attribute::Integer(to_signed64(v), ty))
        },
        AttributeTag::Float => {
            let ty = t.read_type_ref(r, DecodeError::AttrTypeIndex)?;
            let bits: u64 = match &ty {
                Type::Scalar(s) => r.read_ap_float(*s)?,
                _ => r.read_wide_float()?,
            };
            Ok(Attribute::Float(bits, ty))
        },
        AttributeTag::Bool => {
            let b: u8 = r.read_byte()?;
            Ok(Attribute::Bool(b != 0))
        },
        AttributeTag::Type => Ok(Attribute::Type(t.read_type_ref(r, DecodeError::AttrTypeIndex)?)),
        AttributeTag::String => Ok(
            Attribute::String(t.read_string_ref(r, DecodeError::AttrStringIndex)?),
        ),
        AttributeTag::DenseElements => {
            let element_type = t.read_type_ref(r, DecodeError::AttrTypeIndex)?;
            let data = t.read_constant_data(r, DecodeError::DenseConstIndex)?;
            Ok(Attribute::DenseElements(DenseElements { element_type, shape: Vec::new(), data }))
        },
        AttributeTag::DivBy => {
            let divisor: u64 = r.read_varint()?;
            let (every, along) = read_signed_pair(r)?;
            Ok(Attribute::DivBy(DivBy { divisor, every, along }))
        },
        AttributeTag::SameElements => {
            let values = r.read_var_size_i64()?;
            Ok(Attribute::SameElements(SameElements { values }))
        },
        _ => {
            let (lb, ub) = read_signed_pair(r)?;
            Ok(Attribute::Bounded(Bounded { lb, ub }))
        },
    }
}

/// What a read of a list of attributes does.
pub open spec fn reads_attributes<'a>(
    before: Reader<'a>,
    after: Reader<'a>,
    r: Result<Vec<Attribute>, DecodeError>,
    step: Step<Seq<AttributeModel>>,
) -> bool {
    &&& after.wf()
    &&& before.pos <= after.pos
    &&& after.data == before.data
    &&& match (r, step) {
        (Ok(v), (Ok(m), q)) => ir::attribute_models(v@) == m && after.pos == q,
        (Err(e), (Err(f), q)) => e == f && after.pos == q,
        _ => false,
    }
}

/// What a read of a dictionary does.
pub open spec fn reads_dictionary<'a>(
    before: Reader<'a>,
    after: Reader<'a>,
    r: Result<Vec<(String, Attribute)>, DecodeError>,
    step: Step<Seq<(Seq<char>, AttributeModel)>>,
) -> bool {
    &&& after.wf()
    &&& before.pos <= after.pos
    &&& after.data == before.data
    &&& match (r, step) {
        (Ok(v), (Ok(m), q)) => ir::dictionary_model(v@) == m && after.pos == q,
        (Err(e), (Err(f), q)) => e == f && after.pos == q,
        _ => false,
    }
}

/// What a read of optimization hints does.
pub open spec fn reads_hints<'a>(
    before: Reader<'a>,
    after: Reader<'a>,
    r: Result<OptimizationHints, DecodeError>,
    step: Step<Seq<(Seq<char>, Seq<(Seq<char>, AttributeModel)>)>>,
) -> bool {
    &&& after.wf()
    &&& before.pos <= after.pos
    &&& after.data == before.data
    &&& match (r, step) {
        (Ok(v), (Ok(m), q)) => ir::hints_model(v.entries@) == m && after.pos == q,
        (Err(e), (Err(f), q)) => e == f && after.pos == q,
        _ => false,
    }
}

/// Reads a self-contained attribute.
pub fn read_self_contained_attribute(r: &mut Reader, t: &Tables) -> (a: Result<
    Attribute,
    DecodeError,
>)
    requires
        old(r).wf(),
    ensures
        Reader::reads_view(
            *old(r),
            *final(r),
            a,
            attribute_at(old(r).data@, old(r).pos as int, t@),
        ),
        a is Ok ==> old(r).pos < final(r).pos,
    decreases old(r).data@.len() - old(r).pos, 0int,
{
    let tag: u64 = r.read_varint()?;
    match AttributeTag::from_tag(tag) {
        None => Err(DecodeError::UnknownAttributeTag(tag)),
        Some(AttributeTag::Array) => Ok(Attribute::Array(read_inline_array(r, t)?)),
        Some(AttributeTag::Dictionary) => Ok(
            Attribute::Dictionary(read_dictionary_entries(r, t)?),
        ),
        Some(AttributeTag::OptimizationHints) => Ok(
            Attribute::OptimizationHints(read_tagged_hints(r, t)?),
        ),
        Some(tag) => read_leaf(r, t, tag),
    }
}

/// Reads a count and as many self-contained attributes.
pub fn read_inline_array(r: &mut Reader, t: &Tables) -> (v: Result<Vec<Attribute>, DecodeError>)
    requires
        old(r).wf(),
    ensures
        reads_attributes(
            *old(r),
            *final(r),
            v,
            var_attributes_at(old(r).data@, old(r).pos as int, t@),
        ),
        v is Ok ==> old(r).pos < final(r).pos,
    decreases old(r).data@.len() - old(r).pos, 1int,
{
    let n: u64 = r.read_varint()?;
    let mut out: Vec<Attribute> = Vec::new();
    let mut i: u64 = 0;
    assert(ir::attribute_models(out@) =~= Seq::empty());
    while i < n
        invariant
            i <= n,
            r.wf(),
            r.data == old(r).data,
            old(r).pos < r.pos,
            var_attributes_at(old(r).data@, old(r).pos as int, t@) == attributes_at(
                r.data@,
                r.pos as int,
                t@,
                (n - i) as nat,
                ir::attribute_models(out@),
            ),
        decreases n - i,
    {
        let a = read_self_contained_attribute(r, t)?;
        let ghost before = out@;
        out.push(a);
        assert(ir::attribute_models(out@) =~= ir::attribute_models(before).push(a@));
        i = i + 1;
    }
    Ok(out)
}

/// Reads a count and as many dictionary entries.
pub fn read_dictionary_entries(r: &mut Reader, t: &Tables) -> (v: Result<
    Vec<(String, Attribute)>,
    DecodeError,
>)
    requires
        old(r).wf(),
    ensures
        reads_dictionary(
            *old(r),
            *final(r),
            v,
            dictionary_at(old(r).data@, old(r).pos as int, t@),
        ),
        v is Ok ==> old(r).pos < final(r).pos,
    decreases old(r).data@.len() - old(r).pos, 1int,
{
    let n: u64 = r.read_varint()?;
    let mut out: Vec<(String, Attribute)> = Vec::new();
    let mut i: u64 = 0;
    assert(ir::dictionary_model(out@) =~= Seq::empty());
    while i < n
        invariant
            i <= n,
            r.wf(),
            r.data == old(r).data,
            old(r).pos < r.pos,
            dictionary_at(old(r).data@, old(r).pos as int, t@) == entries_at(
                r.data@,
                r.pos as int,
                t@,
                (n - i) as nat,
                ir::dictionary_model(out@),
            ),
        decreases n - i,
    {
        let key = t.read_string_ref(r, DecodeError::DictKeyIndex)?;
        let a = read_self_contained_attribute(r, t)?;
        let ghost before = out@;
        out.push((key, a));
        assert(ir::dictionary_model(out@) =~= ir::dictionary_model(before).push((key@, a@)));
        i = i + 1;
    }
    Ok(out)
}

/// Reads a count and as many entries of optimization hints, each a dictionary
/// with its tag.
fn read_tagged_hints(r: &mut Reader, t: &Tables) -> (v: Result<OptimizationHints, DecodeError>)
    requires
        old(r).wf(),
    ensures
        reads_hints(
            *old(r),
            *final(r),
            v,
            tagged_hints_at(old(r).data@, old(r).pos as int, t@),
        ),
        v is Ok ==> old(r).pos < final(r).pos,
    decreases old(r).data@.len() - old(r).pos, 1int,
{
    let n: u64 = r.read_varint()?;
    let mut out: Vec<(String, Vec<(String, Attribute)>)> = Vec::new();
    let mut i: u64 = 0;
    assert(ir::hints_model(out@) =~= Seq::empty());
    while i < n
        invariant
            i <= n,
            r.wf(),
            r.data == old(r).data,
            old(r).pos < r.pos,
            tagged_hints_at(old(r).data@, old(r).pos as int, t@) == tagged_hint_entries_at(
                r.data@,
                r.pos as int,
                t@,
                (n - i) as nat,
                ir::hints_model(out@),
            ),
        decreases n - i,
    {
        let arch = t.read_string_ref(r, DecodeError::AttrStringIndex)?;
        let tag: u64 = r.read_varint()?;
        if tag != AttributeTag::Dictionary.tag() {
            return Err(DecodeError::HintsEntryTag);
        }
        let entries = read_dictionary_entries(r, t)?;
        let ghost before = out@;
        out.push((arch, entries));
        assert(ir::hints_model(out@) =~= ir::hints_model(before).push(
            (arch@, ir::dictionary_model(entries@)),
        ));
        i = i + 1;
    }
    Ok(OptimizationHints { entries: out })
}

/// Reads inline optimization hints.
pub fn read_inline_opt_hints(r: &mut Reader, t: &Tables) -> (v: Result<
    OptimizationHints,
    DecodeError,
>)
    requires
        old(r).wf(),
    ensures
        reads_hints(
            *old(r),
            *final(r),
            v,
            inline_hints_at(old(r).data@, old(r).pos as int, t@),
        ),
        v is Ok ==> old(r).pos < final(r).pos,
{
    let n: u64 = r.read_varint()?;
    let mut out: Vec<(String, Vec<(String, Attribute)>)> = Vec::new();
    let mut i: u64 = 0;
    assert(ir::hints_model(out@) =~= Seq::empty());
    while i < n
        invariant
            i <= n,
            r.wf(),
            r.data == old(r).data,
            old(r).pos < r.pos,
            inline_hints_at(old(r).data@, old(r).pos as int, t@) == inline_hint_entries_at(
                r.data@,
                r.pos as int,
                t@,
                (n - i) as nat,
                ir::hints_model(out@),
            ),
        decreases n - i,
    {
        let arch = t.read_string_ref(r, DecodeError::HintsArchIndex)?;
        match read_self_contained_attribute(r, t)? {
            Attribute::Dictionary(entries) => {
                let ghost before = out@;
                out.push((arch, entries));
                assert(ir::hints_model(out@) =~= ir::hints_model(before).push(
                    (arch@, ir::dictionary_model(entries@)),
                ));
            },
            _ => {
                return Err(DecodeError::HintsEntryValue);
            },
        }
        i = i + 1;
    }
    Ok(OptimizationHints { entries: out })
}

} // verus!
