//! What is read depends on the bytes that are read, not on where they stand.
//!
//! Most lemmas say of a read that succeeds: where another buffer has the same bytes, in
//! another place, the same is read there, and ends as much further on. Those at the end say
//! so of errors too, where the buffers are the same up to their ends.

use vstd::prelude::*;

use crate::bytecode::attributes;
use crate::bytecode::attributes::TablesModel;
use crate::bytecode::enums;
use crate::bytecode::enums::{AttributeTag, BytecodeVersion};
use crate::bytecode::opcode::Opcode;
use crate::bytecode::ops;
use crate::bytecode::ops::{Attributes, OperandGroup};
use crate::bytecode::reader;
use crate::bytecode::reader::Step;
use crate::bytecode::types;
use crate::error::DecodeError;
use crate::ir::{AttributeModel, TypeModel};

verus! {

/// The bytes from `p` to `end` of a buffer stand `k` further on in another.
pub open spec fn agrees(d: Seq<u8>, e: Seq<u8>, p: int, end: int, k: int) -> bool {
    &&& 0 <= p <= end <= d.len()
    &&& 0 <= p + k
    &&& end + k <= e.len()
    &&& forall|i: int| p <= i < end ==> #[trigger] d[i] == e[i + k]
}

/// A read that succeeds up to `end` is the same read `k` further on.
pub open spec fn moved<T>(a: Step<T>, b: Step<T>, end: int, k: int) -> bool {
    a.0 is Ok && a.1 <= end ==> b == (a.0, a.1 + k)
}

/// What agrees from a place on agrees from a later place on.
proof fn agrees_later(d: Seq<u8>, e: Seq<u8>, p: int, q: int, end: int, k: int)
    requires
        agrees(d, e, p, end, k),
        p <= q <= end,
    ensures
        agrees(d, e, q, end, k),
{
}

proof fn base128_moves(d: Seq<u8>, e: Seq<u8>, p: int, end: int, k: int, more: nat)
    requires
        agrees(d, e, p, end, k),
    ensures
        moved(reader::base128_at(d, p, more), reader::base128_at(e, p + k, more), end, k),
    decreases more,
{
    reader::base128_advances(d, p, more);
    if p < end {
        assert(d[p] == e[p + k]);
        if d[p] >= 128 && more > 0 {
            base128_moves(d, e, p + 1, end, k, (more - 1) as nat);
        }
    }
}

/// A variable-length integer moves.
pub proof fn varint_moves(d: Seq<u8>, e: Seq<u8>, p: int, end: int, k: int)
    requires
        agrees(d, e, p, end, k),
    ensures
        moved(reader::varint_at(d, p), reader::varint_at(e, p + k), end, k),
{
    base128_moves(d, e, p, end, k, 9);
}

proof fn bytes_move(d: Seq<u8>, e: Seq<u8>, p: int, end: int, k: int, n: int)
    requires
        agrees(d, e, p, end, k),
        0 <= n,
    ensures
        moved(reader::bytes_at(d, p, n), reader::bytes_at(e, p + k, n), end, k),
{
    if p + n <= end {
        let here = d.subrange(p, p + n);
        let there = e.subrange(p + k, p + k + n);
        assert forall|i: int| 0 <= i < n implies #[trigger] here[i] == there[i] by {
            assert(d[p + i] == e[p + i + k]);
        }
        assert(here =~= there);
    }
}

proof fn i64s_move(d: Seq<u8>, e: Seq<u8>, p: int, end: int, k: int, n: nat, acc: Seq<i64>)
    requires
        agrees(d, e, p, end, k),
    ensures
        moved(reader::i64s_at(d, p, n, acc), reader::i64s_at(e, p + k, n, acc), end, k),
    decreases n,
{
    if n > 0 {
        bytes_move(d, e, p, end, k, 8);
        if let (Ok(v), q) = reader::le_i64_at(d, p) {
            reader::i64s_advance(d, q, (n - 1) as nat, acc.push(v));
            if q <= end {
                i64s_move(d, e, q, end, k, (n - 1) as nat, acc.push(v));
            }
        }
    }
}

proof fn i32s_move(d: Seq<u8>, e: Seq<u8>, p: int, end: int, k: int, n: nat, acc: Seq<i32>)
    requires
        agrees(d, e, p, end, k),
    ensures
        moved(reader::i32s_at(d, p, n, acc), reader::i32s_at(e, p + k, n, acc), end, k),
    decreases n,
{
    if n > 0 {
        bytes_move(d, e, p, end, k, 4);
        if let (Ok(v), q) = reader::le_i32_at(d, p) {
            reader::i32s_advance(d, q, (n - 1) as nat, acc.push(v));
            if q <= end {
                i32s_move(d, e, q, end, k, (n - 1) as nat, acc.push(v));
            }
        }
    }
}

proof fn var_i64s_move(d: Seq<u8>, e: Seq<u8>, p: int, end: int, k: int)
    requires
        agrees(d, e, p, end, k),
    ensures
        moved(reader::var_i64s_at(d, p), reader::var_i64s_at(e, p + k), end, k),
{
    varint_moves(d, e, p, end, k);
    reader::varint_advances(d, p);
    if let (Ok(n), q) = reader::varint_at(d, p) {
        reader::i64s_advance(d, q, n as nat, Seq::empty());
        if q <= end {
            i64s_move(d, e, q, end, k, n as nat, Seq::empty());
        }
    }
}

proof fn var_i32s_move(d: Seq<u8>, e: Seq<u8>, p: int, end: int, k: int)
    requires
        agrees(d, e, p, end, k),
    ensures
        moved(reader::var_i32s_at(d, p), reader::var_i32s_at(e, p + k), end, k),
{
    varint_moves(d, e, p, end, k);
    reader::varint_advances(d, p);
    if let (Ok(n), q) = reader::varint_at(d, p) {
        reader::i32s_advance(d, q, n as nat, Seq::empty());
        if q <= end {
            i32s_move(d, e, q, end, k, n as nat, Seq::empty());
        }
    }
}

proof fn optional_signed_moves(d: Seq<u8>, e: Seq<u8>, p: int, end: int, k: int, present: bool)
    requires
        agrees(d, e, p, end, k),
    ensures
        moved(
            attributes::optional_signed_at(d, p, present),
            attributes::optional_signed_at(e, p + k, present),
            end,
            k,
        ),
        p <= attributes::optional_signed_at(d, p, present).1,
{
    varint_moves(d, e, p, end, k);
    reader::varint_advances(d, p);
}

proof fn signed_pair_moves(d: Seq<u8>, e: Seq<u8>, p: int, end: int, k: int)
    requires
        agrees(d, e, p, end, k),
    ensures
        moved(attributes::signed_pair_at(d, p), attributes::signed_pair_at(e, p + k), end, k),
        p <= attributes::signed_pair_at(d, p).1,
{
    if p < end {
        assert(d[p] == e[p + k]);
        let flags = d[p];
        agrees_later(d, e, p, p + 1, end, k);
        optional_signed_moves(d, e, p + 1, end, k, flags % 2 == 1);
        let q = attributes::optional_signed_at(d, p + 1, flags % 2 == 1).1;
        if q <= end {
            optional_signed_moves(d, e, q, end, k, (flags / 2) % 2 == 1);
        } else {
            reader::varint_advances(d, p + 1);
            reader::varint_advances(d, q);
        }
    } else if p < d.len() {
        reader::varint_advances(d, p + 1);
        reader::varint_advances(d, reader::varint_at(d, p + 1).1);
    }
}

/// Two variable-length integers behind one another move.
proof fn two_varints_move(d: Seq<u8>, e: Seq<u8>, p: int, end: int, k: int)
    requires
        agrees(d, e, p, end, k),
    ensures
        moved(reader::varint_at(d, p), reader::varint_at(e, p + k), end, k),
        p <= reader::varint_at(d, p).1 <= reader::varint_at(d, reader::varint_at(d, p).1).1,
        reader::varint_at(d, p).1 <= end ==> moved(
            reader::varint_at(d, reader::varint_at(d, p).1),
            reader::varint_at(e, reader::varint_at(d, p).1 + k),
            end,
            k,
        ),
{
    varint_moves(d, e, p, end, k);
    reader::varint_advances(d, p);
    let q = reader::varint_at(d, p).1;
    reader::varint_advances(d, q);
    if q <= end {
        varint_moves(d, e, q, end, k);
    }
}

proof fn leaf_moves(
    d: Seq<u8>,
    e: Seq<u8>,
    p: int,
    end: int,
    k: int,
    t: TablesModel,
    tag: AttributeTag,
)
    requires
        agrees(d, e, p, end, k),
    ensures
        moved(attributes::leaf_at(d, p, t, tag), attributes::leaf_at(e, p + k, t, tag), end, k),
{
    two_varints_move(d, e, p, end, k);
    match tag {
        AttributeTag::Bool => {
            if p < end {
                assert(d[p] == e[p + k]);
            }
        },
        AttributeTag::DivBy => {
            let q = reader::varint_at(d, p).1;
            if q <= end {
                signed_pair_moves(d, e, q, end, k);
            } else if q < d.len() {
                reader::varint_advances(d, q + 1);
                reader::varint_advances(d, reader::varint_at(d, q + 1).1);
            }
        },
        AttributeTag::SameElements => {
            var_i64s_move(d, e, p, end, k);
        },
        AttributeTag::Integer
        | AttributeTag::Float
        | AttributeTag::Type
        | AttributeTag::String
        | AttributeTag::DenseElements => {},
        _ => {
            signed_pair_moves(d, e, p, end, k);
        },
    }
}

/// A self-contained attribute moves.
pub proof fn attribute_moves(
    d: Seq<u8>,
    e: Seq<u8>,
    p: int,
    end: int,
    k: int,
    t: TablesModel,
)
    requires
        agrees(d, e, p, end, k),
    ensures
        moved(attributes::attribute_at(d, p, t), attributes::attribute_at(e, p + k, t), end, k),
    decreases d.len() - p, 0int, 0int,
{
    varint_moves(d, e, p, end, k);
    reader::varint_advances(d, p);
    if let (Ok(tag), q) = reader::varint_at(d, p) {
        match enums::attribute_tag_of(tag) {
            None => {},
            Some(AttributeTag::Array) => {
                attributes::var_attributes_advance(d, q, t);
                if q <= end {
                    var_attributes_move(d, e, q, end, k, t);
                }
            },
            Some(AttributeTag::Dictionary) => {
                attributes::dictionary_advances(d, q, t);
                if q <= end {
                    dictionary_moves(d, e, q, end, k, t);
                }
            },
            Some(AttributeTag::OptimizationHints) => {
                reader::varint_advances(d, q);
                if let (Ok(n), r) = reader::varint_at(d, q) {
                    attributes::tagged_hint_entries_advance(d, r, t, n as nat, Seq::empty());
                    if r <= end {
                        varint_moves(d, e, q, end, k);
                        tagged_hints_move(d, e, r, end, k, t, n as nat, Seq::empty());
                    }
                }
            },
            Some(tag) => {
                attributes::leaf_advances(d, q, t, tag);
                if q <= end {
                    leaf_moves(d, e, q, end, k, t, tag);
                }
            },
        }
    }
}

/// A counted list of attributes moves.
pub proof fn var_attributes_move(
    d: Seq<u8>,
    e: Seq<u8>,
    p: int,
    end: int,
    k: int,
    t: TablesModel,
)
    requires
        agrees(d, e, p, end, k),
    ensures
        moved(
            attributes::var_attributes_at(d, p, t),
            attributes::var_attributes_at(e, p + k, t),
            end,
            k,
        ),
    decreases d.len() - p, 3int, 0int,
{
    varint_moves(d, e, p, end, k);
    reader::varint_advances(d, p);
    if let (Ok(n), q) = reader::varint_at(d, p) {
        attributes::attributes_advance(d, q, t, n as nat, Seq::empty());
        if q <= end {
            attributes_move(d, e, q, end, k, t, n as nat, Seq::empty());
        }
    }
}

proof fn attributes_move(
    d: Seq<u8>,
    e: Seq<u8>,
    p: int,
    end: int,
    k: int,
    t: TablesModel,
    n: nat,
    acc: Seq<AttributeModel>,
)
    requires
        agrees(d, e, p, end, k),
    ensures
        moved(
            attributes::attributes_at(d, p, t, n, acc),
            attributes::attributes_at(e, p + k, t, n, acc),
            end,
            k,
        ),
    decreases d.len() - p, 1int, n,
{
    if n > 0 {
        attribute_moves(d, e, p, end, k, t);
        attributes::attribute_advances(d, p, t);
        if let (Ok(a), q) = attributes::attribute_at(d, p, t) {
            attributes::attributes_advance(d, q, t, (n - 1) as nat, acc.push(a));
            if q <= end {
                attributes_move(d, e, q, end, k, t, (n - 1) as nat, acc.push(a));
            }
        }
    }
}

proof fn dictionary_moves(d: Seq<u8>, e: Seq<u8>, p: int, end: int, k: int, t: TablesModel)
    requires
        agrees(d, e, p, end, k),
    ensures
        moved(attributes::dictionary_at(d, p, t), attributes::dictionary_at(e, p + k, t), end, k),
    decreases d.len() - p, 3int, 0int,
{
    varint_moves(d, e, p, end, k);
    reader::varint_advances(d, p);
    if let (Ok(n), q) = reader::varint_at(d, p) {
        attributes::entries_advance(d, q, t, n as nat, Seq::empty());
        if q <= end {
            entries_move(d, e, q, end, k, t, n as nat, Seq::empty());
        }
    }
}

proof fn entries_move(
    d: Seq<u8>,
    e: Seq<u8>,
    p: int,
    end: int,
    k: int,
    t: TablesModel,
    n: nat,
    acc: Seq<(Seq<char>, AttributeModel)>,
)
    requires
        agrees(d, e, p, end, k),
    ensures
        moved(
            attributes::entries_at(d, p, t, n, acc),
            attributes::entries_at(e, p + k, t, n, acc),
            end,
            k,
        ),
    decreases d.len() - p, 1int, n,
{
    if n > 0 {
        varint_moves(d, e, p, end, k);
        reader::varint_advances(d, p);
        if let (Ok(key), q) = t.string_ref_at(d, p, DecodeError::DictKeyIndex) {
            attributes::attribute_advances(d, q, t);
            if q <= end {
                attribute_moves(d, e, q, end, k, t);
            }
            if let (Ok(a), r) = attributes::attribute_at(d, q, t) {
                attributes::entries_advance(d, r, t, (n - 1) as nat, acc.push((key, a)));
                if r <= end {
                    entries_move(d, e, r, end, k, t, (n - 1) as nat, acc.push((key, a)));
                }
            }
        }
    }
}

proof fn tagged_hints_move(
    d: Seq<u8>,
    e: Seq<u8>,
    p: int,
    end: int,
    k: int,
    t: TablesModel,
    n: nat,
    acc: Seq<(Seq<char>, Seq<(Seq<char>, AttributeModel)>)>,
)
    requires
        agrees(d, e, p, end, k),
    ensures
        moved(
            attributes::tagged_hint_entries_at(d, p, t, n, acc),
            attributes::tagged_hint_entries_at(e, p + k, t, n, acc),
            end,
            k,
        ),
    decreases d.len() - p, 2int, n,
{
    if n > 0 {
        two_varints_move(d, e, p, end, k);
        reader::varint_advances(d, p);
        if let (Ok(arch), q) = t.string_ref_at(d, p, DecodeError::AttrStringIndex) {
            reader::varint_advances(d, q);
            if let (Ok(tag), r) = reader::varint_at(d, q) {
                if tag == AttributeTag::Dictionary.spec_tag() {
                    attributes::dictionary_advances(d, r, t);
                    if r <= end {
                        dictionary_moves(d, e, r, end, k, t);
                    }
                    if let (Ok(v), u) = attributes::dictionary_at(d, r, t) {
                        let next = acc.push((arch, v));
                        attributes::tagged_hint_entries_advance(d, u, t, (n - 1) as nat, next);
                        if u <= end {
                            tagged_hints_move(d, e, u, end, k, t, (n - 1) as nat, next);
                        }
                    }
                }
            }
        }
    }
}

proof fn inline_hints_move(
    d: Seq<u8>,
    e: Seq<u8>,
    p: int,
    end: int,
    k: int,
    t: TablesModel,
    n: nat,
    acc: Seq<(Seq<char>, Seq<(Seq<char>, AttributeModel)>)>,
)
    requires
        agrees(d, e, p, end, k),
    ensures
        moved(
            attributes::inline_hint_entries_at(d, p, t, n, acc),
            attributes::inline_hint_entries_at(e, p + k, t, n, acc),
            end,
            k,
        ),
    decreases n,
{
    if n > 0 {
        varint_moves(d, e, p, end, k);
        reader::varint_advances(d, p);
        if let (Ok(arch), q) = t.string_ref_at(d, p, DecodeError::HintsArchIndex) {
            attributes::attribute_advances(d, q, t);
            if q <= end {
                attribute_moves(d, e, q, end, k, t);
            }
            if let (Ok(AttributeModel::Dictionary(v)), r) = attributes::attribute_at(d, q, t) {
                let next = acc.push((arch, v));
                attributes::inline_hint_entries_advance(d, r, t, (n - 1) as nat, next);
                if r <= end {
                    inline_hints_move(d, e, r, end, k, t, (n - 1) as nat, next);
                }
            }
        }
    }
}

proof fn counted_hints_move(d: Seq<u8>, e: Seq<u8>, p: int, end: int, k: int, t: TablesModel)
    requires
        agrees(d, e, p, end, k),
    ensures
        moved(
            attributes::inline_hints_at(d, p, t),
            attributes::inline_hints_at(e, p + k, t),
            end,
            k,
        ),
{
    varint_moves(d, e, p, end, k);
    reader::varint_advances(d, p);
    if let (Ok(n), q) = reader::varint_at(d, p) {
        attributes::inline_hint_entries_advance(d, q, t, n as nat, Seq::empty());
        if q <= end {
            inline_hints_move(d, e, q, end, k, t, n as nat, Seq::empty());
        }
    }
}

proof fn type_refs_move(
    d: Seq<u8>,
    e: Seq<u8>,
    p: int,
    end: int,
    k: int,
    prior: Seq<TypeModel>,
    n: nat,
    bad: DecodeError,
    acc: Seq<TypeModel>,
)
    requires
        agrees(d, e, p, end, k),
    ensures
        moved(
            types::type_refs_at(d, p, prior, n, bad, acc),
            types::type_refs_at(e, p + k, prior, n, bad, acc),
            end,
            k,
        ),
        p <= types::type_refs_at(d, p, prior, n, bad, acc).1 <= d.len(),
    decreases n,
{
    types::type_refs_advance(d, p, prior, n, bad, acc);
    if n > 0 {
        varint_moves(d, e, p, end, k);
        reader::varint_advances(d, p);
        if let (Ok(i), q) = reader::varint_at(d, p) {
            if i < prior.len() {
                let next = acc.push(prior[i as int]);
                types::type_refs_advance(d, q, prior, (n - 1) as nat, bad, next);
                if q <= end {
                    type_refs_move(d, e, q, end, k, prior, (n - 1) as nat, bad, next);
                }
            }
        }
    }
}

/// A counted list of type references moves.
pub proof fn var_type_refs_move(
    d: Seq<u8>,
    e: Seq<u8>,
    p: int,
    end: int,
    k: int,
    prior: Seq<TypeModel>,
    bad: DecodeError,
)
    requires
        agrees(d, e, p, end, k),
    ensures
        moved(
            types::var_type_refs_at(d, p, prior, bad),
            types::var_type_refs_at(e, p + k, prior, bad),
            end,
            k,
        ),
        p <= types::var_type_refs_at(d, p, prior, bad).1 <= d.len(),
{
    varint_moves(d, e, p, end, k);
    reader::varint_advances(d, p);
    if let (Ok(n), q) = reader::varint_at(d, p) {
        types::type_refs_advance(d, q, prior, n as nat, bad, Seq::empty());
        if q <= end {
            type_refs_move(d, e, q, end, k, prior, n as nat, bad, Seq::empty());
        }
    }
}

/// The types of the results of an operation move.
pub proof fn result_types_move(
    d: Seq<u8>,
    e: Seq<u8>,
    p: int,
    end: int,
    k: int,
    op: Opcode,
    t: TablesModel,
)
    requires
        agrees(d, e, p, end, k),
    ensures
        moved(ops::result_types_at(op, d, p, t), ops::result_types_at(op, e, p + k, t), end, k),
        p <= ops::result_types_at(op, d, p, t).1 <= d.len(),
{
    match op.spec_result_count() {
        Some(n) => {
            type_refs_move(
                d,
                e,
                p,
                end,
                k,
                t.types,
                n as nat,
                DecodeError::ResultTypeIndex,
                Seq::empty(),
            );
        },
        None => {
            var_type_refs_move(d, e, p, end, k, t.types, DecodeError::ResultTypeIndex);
        },
    }
}

proof fn ints_move(
    d: Seq<u8>,
    e: Seq<u8>,
    p: int,
    end: int,
    k: int,
    names: Seq<Seq<char>>,
    acc: Attributes,
)
    requires
        agrees(d, e, p, end, k),
    ensures
        moved(ops::ints_at(d, p, names, acc), ops::ints_at(e, p + k, names, acc), end, k),
    decreases names.len(),
{
    if names.len() > 0 {
        varint_moves(d, e, p, end, k);
        reader::varint_advances(d, p);
        if let (Ok(v), q) = reader::varint_at(d, p) {
            let next = acc.push((names[0], ops::int_attribute(v)));
            ops::ints_advance(d, q, names.skip(1), next);
            if q <= end {
                ints_move(d, e, q, end, k, names.skip(1), next);
            }
        }
    }
}

proof fn flags_and_ints_move(
    d: Seq<u8>,
    e: Seq<u8>,
    p: int,
    end: int,
    k: int,
    names: Seq<Seq<char>>,
)
    requires
        agrees(d, e, p, end, k),
    ensures
        moved(ops::flags_and_ints_at(d, p, names), ops::flags_and_ints_at(e, p + k, names), end, k),
{
    varint_moves(d, e, p, end, k);
    reader::varint_advances(d, p);
    if let (Ok(_), q) = reader::varint_at(d, p) {
        ops::ints_advance(d, q, names, Seq::empty());
        if q <= end {
            ints_move(d, e, q, end, k, names, Seq::empty());
        }
    }
}

proof fn memory_attributes_move(
    d: Seq<u8>,
    e: Seq<u8>,
    p: int,
    end: int,
    k: int,
    t: TablesModel,
    flags: u64,
)
    requires
        agrees(d, e, p, end, k),
    ensures
        moved(
            ops::memory_attributes_at(d, p, t, flags),
            ops::memory_attributes_at(e, p + k, t, flags),
            end,
            k,
        ),
        p <= ops::memory_attributes_at(d, p, t, flags).1,
{
    let names = if flags % 2 == 1 {
        seq!["memory_ordering_semantics"@, "memory_scope"@]
    } else {
        seq!["memory_ordering_semantics"@]
    };
    ints_move(d, e, p, end, k, names, Seq::empty());
    ops::ints_advance(d, p, names, Seq::empty());
    let q = ops::ints_at(d, p, names, Seq::empty()).1;
    attributes::inline_hints_advance(d, q, t);
    if q <= end {
        counted_hints_move(d, e, q, end, k, t);
    }
}

proof fn memory_access_moves(d: Seq<u8>, e: Seq<u8>, p: int, end: int, k: int, t: TablesModel)
    requires
        agrees(d, e, p, end, k),
    ensures
        moved(ops::memory_access_at(d, p, t), ops::memory_access_at(e, p + k, t), end, k),
{
    varint_moves(d, e, p, end, k);
    reader::varint_advances(d, p);
    if let (Ok(flags), q) = reader::varint_at(d, p) {
        if q <= end {
            memory_attributes_move(d, e, q, end, k, t, flags);
        } else {
            memory_attributes_move(d, d, q, q, 0, t, flags);
        }
    }
}

proof fn reduction_moves(
    d: Seq<u8>,
    e: Seq<u8>,
    p: int,
    end: int,
    k: int,
    t: TablesModel,
    names: Seq<Seq<char>>,
)
    requires
        agrees(d, e, p, end, k),
    ensures
        moved(ops::reduction_at(d, p, t, names), ops::reduction_at(e, p + k, t, names), end, k),
{
    ints_move(d, e, p, end, k, names, Seq::empty());
    ops::ints_advance(d, p, names, Seq::empty());
    let q = ops::ints_at(d, p, names, Seq::empty()).1;
    attributes::var_attributes_advance(d, q, t);
    if q <= end {
        var_attributes_move(d, e, q, end, k, t);
    }
}

/// The attributes of an operation move.
#[verifier::rlimit(40)]
#[verifier::spinoff_prover]
pub proof fn op_attributes_move(
    d: Seq<u8>,
    e: Seq<u8>,
    p: int,
    end: int,
    k: int,
    op: Opcode,
    t: TablesModel,
    version: BytecodeVersion,
    result_types: Seq<TypeModel>,
)
    requires
        agrees(d, e, p, end, k),
    ensures
        moved(
            ops::op_attributes_at(op, d, p, t, version, result_types),
            ops::op_attributes_at(op, e, p + k, t, version, result_types),
            end,
            k,
        ),
{
    two_varints_move(d, e, p, end, k);
    match op {
        Opcode::Alloca => flags_and_ints_move(
            d,
            e,
            p,
            end,
            k,
            seq!["num_elem"@, "alignment"@],
        ),
        Opcode::Permute => var_i32s_move(d, e, p, end, k),
        Opcode::AddF
        | Opcode::DivF
        | Opcode::MulF
        | Opcode::SubF
        | Opcode::Fma
        | Opcode::Sqrt => flags_and_ints_move(d, e, p, end, k, seq!["rounding_mode"@]),
        Opcode::Exp2
        | Opcode::Rsqrt
        | Opcode::MmaF
        | Opcode::MaxF
        | Opcode::MinF
        | Opcode::For => flags_and_ints_move(d, e, p, end, k, Seq::empty()),
        Opcode::Assume => attribute_moves(d, e, p, end, k, t),
        Opcode::LoadViewTko | Opcode::StoreViewTko | Opcode::LoadPtrTko | Opcode::StorePtrTko =>
            memory_access_moves(d, e, p, end, k, t),
        Opcode::AtomicRMW | Opcode::AtomicRedViewTko => flags_and_ints_move(
            d,
            e,
            p,
            end,
            k,
            seq!["memory_ordering_semantics"@, "memory_scope"@, "mode"@],
        ),
        Opcode::AtomicCAS => flags_and_ints_move(
            d,
            e,
            p,
            end,
            k,
            seq!["memory_ordering_semantics"@, "memory_scope"@],
        ),
        Opcode::Reduce => reduction_moves(d, e, p, end, k, t, seq!["dim"@]),
        Opcode::Scan => reduction_moves(d, e, p, end, k, t, seq!["dim"@, "reverse"@]),
        _ => {
            if let Some(names) = ops::plain_ints(op) {
                ints_move(d, e, p, end, k, names, Seq::empty());
            }
        },
    }
}

proof fn operands_move(
    d: Seq<u8>,
    e: Seq<u8>,
    p: int,
    end: int,
    k: int,
    values: Seq<nat>,
    n: nat,
    acc: Seq<nat>,
)
    requires
        agrees(d, e, p, end, k),
    ensures
        moved(
            ops::operands_at(d, p, values, n, acc),
            ops::operands_at(e, p + k, values, n, acc),
            end,
            k,
        ),
    decreases n,
{
    if n > 0 {
        varint_moves(d, e, p, end, k);
        reader::varint_advances(d, p);
        if let (Ok(i), q) = reader::varint_at(d, p) {
            if i < values.len() {
                let next = acc.push(values[i as int]);
                ops::operands_advance(d, q, values, (n - 1) as nat, next);
                if q <= end {
                    operands_move(d, e, q, end, k, values, (n - 1) as nat, next);
                }
            }
        }
    }
}

proof fn var_operands_move(d: Seq<u8>, e: Seq<u8>, p: int, end: int, k: int, values: Seq<nat>)
    requires
        agrees(d, e, p, end, k),
    ensures
        moved(ops::var_operands_at(d, p, values), ops::var_operands_at(e, p + k, values), end, k),
{
    varint_moves(d, e, p, end, k);
    reader::varint_advances(d, p);
    if let (Ok(n), q) = reader::varint_at(d, p) {
        ops::operands_advance(d, q, values, n as nat, Seq::empty());
        if q <= end {
            operands_move(d, e, q, end, k, values, n as nat, Seq::empty());
        }
    }
}

proof fn groups_move(
    d: Seq<u8>,
    e: Seq<u8>,
    p: int,
    end: int,
    k: int,
    values: Seq<nat>,
    groups: Seq<OperandGroup>,
    acc: (Seq<nat>, Seq<i32>),
)
    requires
        agrees(d, e, p, end, k),
    ensures
        moved(
            ops::groups_at(d, p, values, groups, acc),
            ops::groups_at(e, p + k, values, groups, acc),
            end,
            k,
        ),
    decreases groups.len(),
{
    if groups.len() > 0 {
        operands_move(d, e, p, end, k, values, 1, Seq::empty());
        var_operands_move(d, e, p, end, k, values);
        ops::operands_advance(d, p, values, 1, Seq::empty());
        ops::var_operands_advance(d, p, values);
        if let (Ok(os), q) = ops::group_at(d, p, values, groups[0]) {
            let next = (acc.0 + os, acc.1.push(ops::segment(os.len())));
            ops::groups_advance(d, q, values, groups.skip(1), next);
            if q <= end {
                groups_move(d, e, q, end, k, values, groups.skip(1), next);
            }
        }
    }
}

/// The operands of an operation move.
pub proof fn op_operands_move(
    d: Seq<u8>,
    e: Seq<u8>,
    p: int,
    end: int,
    k: int,
    op: Opcode,
    values: Seq<nat>,
    flags: u64,
)
    requires
        agrees(d, e, p, end, k),
    ensures
        moved(
            ops::op_operands_at(op, d, p, values, flags),
            ops::op_operands_at(op, e, p + k, values, flags),
            end,
            k,
        ),
        p <= ops::op_operands_at(op, d, p, values, flags).1 <= d.len(),
{
    match ops::operand_groups(op, flags) {
        Some(groups) => {
            let none = (Seq::<nat>::empty(), Seq::<i32>::empty());
            groups_move(d, e, p, end, k, values, groups, none);
            ops::groups_advance(d, p, values, groups, none);
        },
        None => {
            var_operands_move(d, e, p, end, k, values);
            ops::var_operands_advance(d, p, values);
            if let Some(n) = op.spec_operand_count() {
                operands_move(d, e, p, end, k, values, n as nat, Seq::empty());
                ops::operands_advance(d, p, values, n as nat, Seq::empty());
            }
        },
    }
}

/// Everything of an operation but its regions moves.
pub proof fn op_fields_move(
    d: Seq<u8>,
    e: Seq<u8>,
    p: int,
    end: int,
    k: int,
    op: Opcode,
    t: TablesModel,
    version: BytecodeVersion,
    values: Seq<nat>,
)
    requires
        agrees(d, e, p, end, k),
    ensures
        moved(
            ops::op_fields_at(op, d, p, t, version, values),
            ops::op_fields_at(op, e, p + k, t, version, values),
            end,
            k,
        ),
{
    reveal(ops::op_fields_at);
    result_types_move(d, e, p, end, k, op, t);
    if let (Ok(result_types), q) = ops::result_types_at(op, d, p, t) {
        ops::op_attributes_advance(op, d, q, t, version, result_types);
        if q <= end {
            op_attributes_move(d, e, q, end, k, op, t, version, result_types);
        }
        if let (Ok((_, flags)), u) = ops::op_attributes_at(op, d, q, t, version, result_types) {
            if u <= end {
                op_operands_move(d, e, u, end, k, op, values, flags);
            } else {
                op_operands_move(d, d, u, u, 0, op, values, flags);
            }
        }
    }
}

/// From `p` on a buffer is what another is `k` further on, up to the end of both.
pub open spec fn same_rest(d: Seq<u8>, e: Seq<u8>, p: int, k: int) -> bool {
    &&& 0 <= p <= d.len()
    &&& 0 <= p + k
    &&& e.len() == d.len() + k
    &&& forall|i: int| p <= i < d.len() ==> #[trigger] d[i] == e[i + k]
}

/// What is read, or the error, and a position that is `k` further on.
pub open spec fn shifted<T>(s: Step<T>, k: int) -> Step<T> {
    (s.0, s.1 + k)
}

proof fn base128_shifts(d: Seq<u8>, e: Seq<u8>, p: int, k: int, more: nat)
    requires
        same_rest(d, e, p, k),
    ensures
        reader::base128_at(e, p + k, more) == shifted(reader::base128_at(d, p, more), k),
    decreases more,
{
    if p < d.len() {
        assert(d[p] == e[p + k]);
        if d[p] >= 128 && more > 0 {
            base128_shifts(d, e, p + 1, k, (more - 1) as nat);
        }
    }
}

/// A variable-length integer, or the error that there is none, shifts with the bytes.
pub proof fn varint_shifts(d: Seq<u8>, e: Seq<u8>, p: int, k: int)
    requires
        same_rest(d, e, p, k),
    ensures
        reader::varint_at(e, p + k) == shifted(reader::varint_at(d, p), k),
{
    base128_shifts(d, e, p, k, 9);
}

/// A list of operands, or the error in it, shifts with the bytes.
pub proof fn operands_shift(
    d: Seq<u8>,
    e: Seq<u8>,
    p: int,
    k: int,
    values: Seq<nat>,
    n: nat,
    acc: Seq<nat>,
)
    requires
        same_rest(d, e, p, k),
    ensures
        ops::operands_at(e, p + k, values, n, acc) == shifted(
            ops::operands_at(d, p, values, n, acc),
            k,
        ),
    decreases n,
{
    if n > 0 {
        varint_shifts(d, e, p, k);
        reader::varint_advances(d, p);
        if let (Ok(i), q) = reader::varint_at(d, p) {
            if i < values.len() {
                let next = acc.push(values[i as int]);
                operands_shift(d, e, q, k, values, (n - 1) as nat, next);
            }
        }
    }
}

/// A counted list of operands, or the error in it, shifts with the bytes.
pub proof fn var_operands_shift(d: Seq<u8>, e: Seq<u8>, p: int, k: int, values: Seq<nat>)
    requires
        same_rest(d, e, p, k),
    ensures
        ops::var_operands_at(e, p + k, values) == shifted(ops::var_operands_at(d, p, values), k),
{
    varint_shifts(d, e, p, k);
    reader::varint_advances(d, p);
    if let (Ok(n), q) = reader::varint_at(d, p) {
        operands_shift(d, e, q, k, values, n as nat, Seq::empty());
    }
}

} // verus!
