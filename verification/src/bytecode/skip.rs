//! Passing over self-contained attributes without the tables that they refer to.

use vstd::prelude::*;

use crate::bytecode::attributes;
use crate::bytecode::attributes::TablesModel;
use crate::bytecode::enums;
use crate::bytecode::enums::AttributeTag;
use crate::bytecode::reader;
use crate::bytecode::reader::{Reader, Step};
use crate::error::DecodeError;
use crate::ir::AttributeModel;

verus! {

/// The end of a read whose value is dropped.
pub open spec fn passed<T>(s: Step<T>) -> Step<()> {
    match s {
        (Err(e), q) => (Err(e), q),
        (Ok(_), q) => (Ok(()), q),
    }
}

/// Two variable-length integers.
pub open spec fn passed_pair_at(d: Seq<u8>, p: int) -> Step<()> {
    match reader::varint_at(d, p) {
        (Err(e), q) => (Err(e), q),
        (Ok(_), q) => passed(reader::varint_at(d, q)),
    }
}

/// An attribute without nested attributes behind its tag.
pub open spec fn passed_leaf_at(d: Seq<u8>, p: int, tag: AttributeTag) -> Step<()> {
    match tag {
        AttributeTag::Integer | AttributeTag::Float | AttributeTag::DenseElements => passed_pair_at(
            d,
            p,
        ),
        AttributeTag::Bool => passed(reader::byte_at(d, p)),
        AttributeTag::Type | AttributeTag::String => passed(reader::varint_at(d, p)),
        AttributeTag::DivBy => match reader::varint_at(d, p) {
            (Err(e), q) => (Err(e), q),
            (Ok(_), q) => passed(attributes::signed_pair_at(d, q)),
        },
        AttributeTag::SameElements => passed(reader::var_i64s_at(d, p)),
        _ => passed(attributes::signed_pair_at(d, p)),
    }
}

/// The tag belongs to an attribute that holds a counted list of others.
pub open spec fn nests(tag: AttributeTag) -> bool {
    tag is Array || tag is Dictionary || tag is OptimizationHints
}

/// A self-contained attribute: its tag and what the tag announces.
pub open spec fn passed_attribute_at(d: Seq<u8>, p: int) -> Step<()>
    decreases d.len() - p, 0int, 0int,
    when 0 <= p <= d.len()
{
    match reader::varint_at(d, p) {
        (Err(e), q) => (Err(e), q),
        (Ok(tag), q) => {
            proof {
                reader::varint_advances(d, p);
            }
            match enums::attribute_tag_of(tag) {
                None => (Err(DecodeError::UnknownAttributeTag(tag)), q),
                Some(tag) => if nests(tag) {
                    passed_list_at(d, q, tag)
                } else {
                    passed_leaf_at(d, q, tag)
                },
            }
        },
    }
}

/// A count and as many items of an attribute with the tag.
pub open spec fn passed_list_at(d: Seq<u8>, p: int, tag: AttributeTag) -> Step<()>
    decreases d.len() - p, 0int, 0int,
    when 0 <= p <= d.len()
{
    match reader::varint_at(d, p) {
        (Err(e), q) => (Err(e), q),
        (Ok(n), q) => {
            proof {
                reader::varint_advances(d, p);
            }
            passed_items_at(d, q, tag, n as nat)
        },
    }
}

/// `n` items of an attribute with the tag. An item takes at least one byte, so the last
/// branch is never taken.
pub open spec fn passed_items_at(d: Seq<u8>, p: int, tag: AttributeTag, n: nat) -> Step<()>
    decreases d.len() - p, 2int, n,
    when 0 <= p <= d.len()
{
    if n == 0 {
        (Ok(()), p)
    } else {
        match passed_item_at(d, p, tag) {
            (Err(e), q) => (Err(e), q),
            (Ok(_), q) => if p < q <= d.len() {
                passed_items_at(d, q, tag, (n - 1) as nat)
            } else {
                (Err(DecodeError::UnexpectedEnd), q)
            },
        }
    }
}

/// One item of an attribute with the tag: an attribute in an array, a key and an
/// attribute in a dictionary, and an architecture and a dictionary with its tag in
/// optimization hints.
pub open spec fn passed_item_at(d: Seq<u8>, p: int, tag: AttributeTag) -> Step<()>
    decreases d.len() - p, 1int, 0int,
    when 0 <= p <= d.len()
{
    if tag is Array {
        passed_attribute_at(d, p)
    } else {
        match reader::varint_at(d, p) {
            (Err(e), q) => (Err(e), q),
            (Ok(_), q) => {
                proof {
                    reader::varint_advances(d, p);
                }
                if tag is Dictionary {
                    passed_attribute_at(d, q)
                } else {
                    match reader::varint_at(d, q) {
                        (Err(e), r) => (Err(e), r),
                        (Ok(inner), r) => {
                            proof {
                                reader::varint_advances(d, q);
                            }
                            if inner != AttributeTag::Dictionary.spec_tag() {
                                (Err(DecodeError::HintsEntryTag), r)
                            } else {
                                passed_list_at(d, r, AttributeTag::Dictionary)
                            }
                        },
                    }
                }
            },
        }
    }
}

/// A reader passes over what the step says.
pub open spec fn passes<'a>(
    before: Reader<'a>,
    after: Reader<'a>,
    r: Result<(), DecodeError>,
    step: Step<()>,
) -> bool {
    &&& Reader::reads(before, after, r, step)
    &&& r is Ok ==> before.pos < after.pos
}

/// Passes over one integer, or two behind one another.
fn pass_varints(r: &mut Reader, two: bool) -> (v: Result<(), DecodeError>)
    requires
        old(r).wf(),
    ensures
        passes(
            *old(r),
            *final(r),
            v,
            if two {
                passed_pair_at(old(r).data@, old(r).pos as int)
            } else {
                passed(reader::varint_at(old(r).data@, old(r).pos as int))
            },
        ),
{
    let _first: u64 = r.read_varint()?;
    if two {
        let _second: u64 = r.read_varint()?;
    }
    Ok(())
}

/// Passes over an attribute without nested attributes behind its tag.
fn pass_leaf(r: &mut Reader, tag: AttributeTag) -> (v: Result<(), DecodeError>)
    requires
        old(r).wf(),
        !nests(tag),
    ensures
        Reader::reads(
            *old(r),
            *final(r),
            v,
            passed_leaf_at(old(r).data@, old(r).pos as int, tag),
        ),
{
    match tag {
        AttributeTag::Integer | AttributeTag::Float | AttributeTag::DenseElements => pass_varints(
            r,
            true,
        ),
        AttributeTag::Bool => {
            let _flag: u8 = r.read_byte()?;
            Ok(())
        },
        AttributeTag::Type | AttributeTag::String => pass_varints(r, false),
        AttributeTag::DivBy => {
            let _divisor: u64 = r.read_varint()?;
            let _ends = attributes::read_signed_pair(r)?;
            Ok(())
        },
        AttributeTag::SameElements => {
            let _values = r.read_var_size_i64()?;
            Ok(())
        },
        _ => {
            let _ends = attributes::read_signed_pair(r)?;
            Ok(())
        },
    }
}

/// Passes over a self-contained attribute.
pub(crate) fn pass_attribute(r: &mut Reader) -> (v: Result<(), DecodeError>)
    requires
        old(r).wf(),
    ensures
        passes(*old(r), *final(r), v, passed_attribute_at(old(r).data@, old(r).pos as int)),
    decreases old(r).data@.len() - old(r).pos, 0int,
{
    let tag: u64 = r.read_varint()?;
    match AttributeTag::from_tag(tag) {
        None => Err(DecodeError::UnknownAttributeTag(tag)),
        Some(AttributeTag::Array) => pass_list(r, AttributeTag::Array),
        Some(AttributeTag::Dictionary) => pass_list(r, AttributeTag::Dictionary),
        Some(AttributeTag::OptimizationHints) => pass_list(r, AttributeTag::OptimizationHints),
        Some(tag) => pass_leaf(r, tag),
    }
}

/// Passes over a count and as many items of an attribute with the tag.
fn pass_list(r: &mut Reader, tag: AttributeTag) -> (v: Result<(), DecodeError>)
    requires
        old(r).wf(),
        nests(tag),
    ensures
        passes(*old(r), *final(r), v, passed_list_at(old(r).data@, old(r).pos as int, tag)),
    decreases old(r).data@.len() - old(r).pos, 0int,
{
    let n: u64 = r.read_varint()?;
    let mut i: u64 = 0;
    while i < n
        invariant
            i <= n,
            nests(tag),
            r.wf(),
            r.data == old(r).data,
            old(r).pos < r.pos,
            passed_list_at(old(r).data@, old(r).pos as int, tag) == passed_items_at(
                r.data@,
                r.pos as int,
                tag,
                (n - i) as nat,
            ),
        decreases n - i,
    {
        pass_item(r, tag)?;
        i = i + 1;
    }
    Ok(())
}

/// Passes over one item of an attribute with the tag.
fn pass_item(r: &mut Reader, tag: AttributeTag) -> (v: Result<(), DecodeError>)
    requires
        old(r).wf(),
        nests(tag),
    ensures
        passes(*old(r), *final(r), v, passed_item_at(old(r).data@, old(r).pos as int, tag)),
    decreases old(r).data@.len() - old(r).pos, 1int,
{
    match tag {
        AttributeTag::Array => pass_attribute(r),
        AttributeTag::Dictionary => {
            let _key: u64 = r.read_varint()?;
            pass_attribute(r)
        },
        _ => {
            let _arch: u64 = r.read_varint()?;
            let inner: u64 = r.read_varint()?;
            if inner != AttributeTag::Dictionary.tag() {
                return Err(DecodeError::HintsEntryTag);
            }
            pass_list(r, AttributeTag::Dictionary)
        },
    }
}

/// What is read as an attribute without nested ones is passed over.
proof fn leaf_is_passed(d: Seq<u8>, p: int, t: TablesModel, tag: AttributeTag)
    requires
        0 <= p <= d.len(),
        !nests(tag),
        attributes::leaf_at(d, p, t, tag).0 is Ok,
    ensures
        passed_leaf_at(d, p, tag) == (
            Ok::<(), DecodeError>(()),
            attributes::leaf_at(d, p, t, tag).1,
        ),
{
}

/// Where the tables give a self-contained attribute, passing over it without them ends at
/// the same place.
pub proof fn attribute_is_passed(d: Seq<u8>, p: int, t: TablesModel)
    requires
        0 <= p <= d.len(),
        attributes::attribute_at(d, p, t).0 is Ok,
    ensures
        passed_attribute_at(d, p) == (
            Ok::<(), DecodeError>(()),
            attributes::attribute_at(d, p, t).1,
        ),
    decreases d.len() - p, 0int, 0int,
{
    reader::varint_advances(d, p);
    if let (Ok(tag), q) = reader::varint_at(d, p) {
        reader::varint_advances(d, q);
        match enums::attribute_tag_of(tag) {
            None => {},
            Some(AttributeTag::Array) => {
                if let (Ok(n), r) = reader::varint_at(d, q) {
                    attributes_are_passed(d, r, t, n as nat, Seq::empty());
                }
            },
            Some(AttributeTag::Dictionary) => {
                if let (Ok(n), r) = reader::varint_at(d, q) {
                    entries_are_passed(d, r, t, n as nat, Seq::empty());
                }
            },
            Some(AttributeTag::OptimizationHints) => {
                if let (Ok(n), r) = reader::varint_at(d, q) {
                    hints_are_passed(d, r, t, n as nat, Seq::empty());
                }
            },
            Some(tag) => {
                leaf_is_passed(d, q, t, tag);
            },
        }
    }
}

/// What is read as a list of attributes is passed over.
proof fn attributes_are_passed(
    d: Seq<u8>,
    p: int,
    t: TablesModel,
    n: nat,
    acc: Seq<AttributeModel>,
)
    requires
        0 <= p <= d.len(),
        attributes::attributes_at(d, p, t, n, acc).0 is Ok,
    ensures
        passed_items_at(d, p, AttributeTag::Array, n) == (
            Ok::<(), DecodeError>(()),
            attributes::attributes_at(d, p, t, n, acc).1,
        ),
    decreases d.len() - p, 1int, n,
{
    if n > 0 {
        attribute_is_passed(d, p, t);
        assert(passed_item_at(d, p, AttributeTag::Array) == passed_attribute_at(d, p));
        if let (Ok(a), q) = attributes::attribute_at(d, p, t) {
            attributes_are_passed(d, q, t, (n - 1) as nat, acc.push(a));
        }
    }
}

/// What is read as dictionary entries is passed over.
proof fn entries_are_passed(
    d: Seq<u8>,
    p: int,
    t: TablesModel,
    n: nat,
    acc: Seq<(Seq<char>, AttributeModel)>,
)
    requires
        0 <= p <= d.len(),
        attributes::entries_at(d, p, t, n, acc).0 is Ok,
    ensures
        passed_items_at(d, p, AttributeTag::Dictionary, n) == (
            Ok::<(), DecodeError>(()),
            attributes::entries_at(d, p, t, n, acc).1,
        ),
    decreases d.len() - p, 1int, n,
{
    if n > 0 {
        reader::varint_advances(d, p);
        if let (Ok(key), q) = t.string_ref_at(d, p, DecodeError::DictKeyIndex) {
            attribute_is_passed(d, q, t);
            assert(passed_item_at(d, p, AttributeTag::Dictionary) == passed_attribute_at(d, q));
            if let (Ok(a), r) = attributes::attribute_at(d, q, t) {
                entries_are_passed(d, r, t, (n - 1) as nat, acc.push((key, a)));
            }
        }
    }
}

/// What is read as entries of optimization hints is passed over.
proof fn hints_are_passed(
    d: Seq<u8>,
    p: int,
    t: TablesModel,
    n: nat,
    acc: Seq<(Seq<char>, Seq<(Seq<char>, AttributeModel)>)>,
)
    requires
        0 <= p <= d.len(),
        attributes::tagged_hint_entries_at(d, p, t, n, acc).0 is Ok,
    ensures
        passed_items_at(d, p, AttributeTag::OptimizationHints, n) == (
            Ok::<(), DecodeError>(()),
            attributes::tagged_hint_entries_at(d, p, t, n, acc).1,
        ),
    decreases d.len() - p, 2int, n,
{
    if n > 0 {
        reader::varint_advances(d, p);
        if let (Ok(arch), q) = t.string_ref_at(d, p, DecodeError::AttrStringIndex) {
            reader::varint_advances(d, q);
            if let (Ok(inner), r) = reader::varint_at(d, q) {
                reader::varint_advances(d, r);
                assert(attributes::dictionary_at(d, r, t).0 is Ok);
                assert(passed_item_at(d, p, AttributeTag::OptimizationHints) == passed_list_at(
                    d,
                    r,
                    AttributeTag::Dictionary,
                ));
                if let (Ok(m), s) = reader::varint_at(d, r) {
                    entries_are_passed(d, s, t, m as nat, Seq::empty());
                }
                if let (Ok(v), s) = attributes::dictionary_at(d, r, t) {
                    hints_are_passed(d, s, t, (n - 1) as nat, acc.push((arch, v)));
                }
            }
        }
    }
}

} // verus!
