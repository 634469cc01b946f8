//! What an operation of a module tells of the bytes that it was read from.
//!
//! Some of what is written has no place in a module: flags that stand for nothing, and the
//! number before a text. Where they are zero, the operation tells all of its bytes.

use vstd::prelude::*;

use crate::bytecode::attributes::TablesModel;
use crate::bytecode::enums::BytecodeVersion;
use crate::bytecode::op_forms;
use crate::bytecode::op_forms::{AttrValues, Layout, OpImage};
use crate::bytecode::opcode::Opcode;
use crate::bytecode::ops;
use crate::bytecode::ops::OperandGroup;
use crate::ir::{AttributeModel, TypeModel};

verus! {

/// The flags of an operation are less than this where every one of them stands for
/// something.
pub open spec fn flag_limit(op: Opcode) -> u64 {
    match op {
        Opcode::LoadPtrTko => 32,
        Opcode::StorePtrTko => 16,
        Opcode::LoadViewTko | Opcode::StoreViewTko => 8,
        Opcode::AtomicRMW | Opcode::AtomicCAS | Opcode::MaxF | Opcode::MinF => 4,
        _ => 2,
    }
}

/// Nothing is written that has no place in a module: every flag stands for something, the
/// number before a text is zero, and the sizes of the operand groups fit into their
/// attribute.
pub open spec fn is_plain(o: OpImage, version: BytecodeVersion) -> bool {
    &&& o.flags(version) < flag_limit(o.opcode)
    &&& o.attributes matches AttrValues::Text { prefix, .. } ==> prefix == 0
    &&& forall|i: int|
        0 <= i < o.operands.len() ==> (#[trigger] o.operands[i]).len() < 0x8000_0000
}

/// Integer attributes tell their integers.
proof fn int_attribute_is_one_to_one(a: u64, b: u64)
    requires
        ops::int_attribute(a) == ops::int_attribute(b),
    ensures
        a == b,
{
    assert(ops::int_attribute(a)->Integer_0 == ops::int_attribute(b)->Integer_0);
}

/// Integer attributes by name tell their integers.
proof fn named_ints_are_one_to_one(names: Seq<Seq<char>>, a: Seq<u64>, b: Seq<u64>)
    requires
        a.len() == names.len(),
        b.len() == names.len(),
        forall|i: int|
            0 <= i < names.len() ==> #[trigger] op_forms::named_ints(names, a)[i]
                == op_forms::named_ints(names, b)[i],
    ensures
        a == b,
{
    assert forall|i: int| 0 <= i < names.len() implies #[trigger] a[i] == b[i] by {
        assert(op_forms::named_ints(names, a)[i] == op_forms::named_ints(names, b)[i]);
        int_attribute_is_one_to_one(a[i], b[i]);
    }
    assert(a =~= b);
}

/// Whether an operation has operand groups, and how many, does not depend on its flags.
proof fn groups_are_fixed(op: Opcode, a: u64, b: u64)
    ensures
        ops::operand_groups(op, a) is Some == ops::operand_groups(op, b) is Some,
        ops::operand_groups(op, a) is Some ==> 0 < ops::operand_groups(op, a)->0.len()
            == ops::operand_groups(op, b)->0.len(),
{
}

/// The sizes of operand groups tell the numbers of operands.
proof fn segment_is_one_to_one(a: nat, b: nat)
    requires
        a < 0x8000_0000,
        b < 0x8000_0000,
        ops::segment(a) == ops::segment(b),
    ensures
        a == b,
{
}

/// Groups of operands are told by the operands one behind the other and the sizes.
proof fn flattened_is_one_to_one(a: Seq<Seq<nat>>, b: Seq<Seq<nat>>)
    requires
        a.len() == b.len(),
        forall|i: int| 0 <= i < a.len() ==> (#[trigger] a[i]).len() == b[i].len(),
        op_forms::flattened(a) == op_forms::flattened(b),
    ensures
        a == b,
    decreases a.len(),
{
    if a.len() > 0 {
        let x = op_forms::flattened(a);
        let y = op_forms::flattened(b);
        let n = a[0].len() as int;
        assert(b[0].len() == n);
        assert(x.take(n) =~= a[0]);
        assert(y.take(n) =~= b[0]);
        assert(x.skip(n) =~= op_forms::flattened(a.skip(1)));
        assert(y.skip(n) =~= op_forms::flattened(b.skip(1)));
        assert forall|i: int| 0 <= i < a.skip(1).len() implies (#[trigger] a.skip(1)[i]).len()
            == b.skip(1)[i].len() by {
            assert(a[i + 1].len() == b[i + 1].len());
        }
        flattened_is_one_to_one(a.skip(1), b.skip(1));
        assert forall|i: int| 0 <= i < a.len() implies a[i] == b[i] by {
            if i > 0 {
                assert(a.skip(1)[i - 1] == b.skip(1)[i - 1]);
            }
        }
        assert(a =~= b);
    } else {
        assert(a =~= b);
    }
}

/// The operands one behind the other are places of the scope where each group is.
proof fn flattened_in_scope(a: Seq<Seq<nat>>, scope: nat)
    requires
        forall|i: int| 0 <= i < a.len() ==> op_forms::in_scope(#[trigger] a[i], scope),
    ensures
        op_forms::in_scope(op_forms::flattened(a), scope),
    decreases a.len(),
{
    if a.len() > 0 {
        assert forall|i: int| 0 <= i < a.skip(1).len() implies op_forms::in_scope(
            #[trigger] a.skip(1)[i],
            scope,
        ) by {
            assert(op_forms::in_scope(a[i + 1], scope));
        }
        flattened_in_scope(a.skip(1), scope);
        assert(op_forms::in_scope(a[0], scope));
        let x = op_forms::flattened(a);
        assert forall|i: int| 0 <= i < x.len() implies (#[trigger] x[i]) < scope by {
            if i < a[0].len() {
                assert(x[i] == a[0][i]);
            } else {
                assert(x[i] == op_forms::flattened(a.skip(1))[i - a[0].len()]);
            }
        }
    }
}

/// Values tell their places in a scope without duplicates.
proof fn values_tell_places(a: Seq<nat>, b: Seq<nat>, values: Seq<nat>)
    requires
        values.no_duplicates(),
        op_forms::in_scope(a, values.len()),
        op_forms::in_scope(b, values.len()),
        op_forms::values_at(a, values) == op_forms::values_at(b, values),
    ensures
        a == b,
{
    let x = op_forms::values_at(a, values);
    let y = op_forms::values_at(b, values);
    assert(a.len() == x.len() && b.len() == y.len());
    assert forall|i: int| 0 <= i < a.len() implies a[i] == b[i] by {
        assert(x[i] == values[a[i] as int]);
        assert(y[i] == values[b[i] as int]);
        assert(a[i] < values.len() && b[i] < values.len());
    }
    assert(a =~= b);
}

/// The attributes of two operations with the same attributes in a module, without the sizes
/// of the operand groups, are the same, and so are the sizes.
proof fn segments_split(a: ops::Attributes, s: Seq<i32>, b: ops::Attributes, u: Seq<i32>)
    requires
        ops::with_segments(a, s) == ops::with_segments(b, u),
        (s.len() == 0) == (u.len() == 0),
    ensures
        a == b,
        s == u,
{
    let x = ops::with_segments(a, s);
    let y = ops::with_segments(b, u);
    if s.len() > 0 {
        assert(x.drop_last() =~= a);
        assert(y.drop_last() =~= b);
        let p = x.last().1->Array_0;
        let q = y.last().1->Array_0;
        assert(p == q);
        assert(p.len() == s.len() && q.len() == u.len());
        assert forall|i: int| 0 <= i < s.len() implies s[i] == u[i] by {
            assert(p[i]->Integer_0 == s[i] as i64);
            assert(q[i]->Integer_0 == u[i] as i64);
        }
        assert(s =~= u);
    } else {
        assert(s =~= u);
    }
}

/// Integers and flags among the attributes tell the integers and the flags.
proof fn ints_tell(
    names: Seq<Seq<char>>,
    flag_names: Seq<Seq<char>>,
    f: u64,
    a: Seq<u64>,
    g: u64,
    b: Seq<u64>,
)
    requires
        a.len() == names.len(),
        b.len() == names.len(),
        flag_names.len() <= 2,
        flag_names.len() == 2 ==> flag_names[0] != flag_names[1],
        op_forms::with_flags(op_forms::named_ints(names, a), f, flag_names)
            == op_forms::with_flags(op_forms::named_ints(names, b), g, flag_names),
    ensures
        a == b,
        flag_names.len() > 0 ==> f % 2 == g % 2,
        flag_names.len() > 1 ==> (f / 2) % 2 == (g / 2) % 2,
{
    let n = names.len() as int;
    let p = op_forms::named_ints(names, a);
    let q = op_forms::named_ints(names, b);
    let x = op_forms::with_flags(p, f, flag_names);
    let y = op_forms::with_flags(q, g, flag_names);
    assert(p.len() == n && q.len() == n);
    assert forall|i: int| 0 <= i < n implies #[trigger] p[i] == q[i] by {
        assert(x[i] == p[i]);
        assert(y[i] == q[i]);
    }
    named_ints_are_one_to_one(names, a, b);
    if flag_names.len() > 0 && f % 2 != g % 2 {
        assert(x.len() == y.len());
        if flag_names.len() > 1 {
            if f % 2 == 1 {
                assert(x[n].0 == flag_names[0]);
                assert(y[n].0 == flag_names[1]);
            } else {
                assert(x[n].0 == flag_names[1]);
                assert(y[n].0 == flag_names[0]);
            }
        }
    }
}

/// The attributes of a load or store tell its integers, its hints and the flags for them.
proof fn memory_tells(a: AttrValues, b: AttrValues, result_types: Seq<TypeModel>, t: TablesModel)
    requires
        op_forms::values_fit(Layout::Memory, a, result_types, t),
        op_forms::values_fit(Layout::Memory, b, result_types, t),
        op_forms::attributes_of(Layout::Memory, a, result_types) == op_forms::attributes_of(
            Layout::Memory,
            b,
            result_types,
        ),
    ensures
        a->Memory_ints == b->Memory_ints,
        a->Memory_flags % 2 == b->Memory_flags % 2,
        (a->Memory_flags / 2) % 2 == (b->Memory_flags / 2) % 2,
        (a->Memory_flags / 2) % 2 == 1 ==> a->hints == b->hints,
{
    let x = op_forms::attributes_of(Layout::Memory, a, result_types);
    let y = op_forms::attributes_of(Layout::Memory, b, result_types);
    let f = a->Memory_flags;
    let g = b->Memory_flags;
    let p = op_forms::named_ints(op_forms::memory_names(f), a->Memory_ints);
    let q = op_forms::named_ints(op_forms::memory_names(g), b->Memory_ints);
    assert(p.len() == 1 + f % 2 && q.len() == 1 + g % 2);
    assert(x.len() == p.len() + (f / 2) % 2 && y.len() == q.len() + (g / 2) % 2);
    if f % 2 != g % 2 {
        assert(x[1].1 is Integer != y[1].1 is Integer);
    }
    assert forall|i: int| 0 <= i < p.len() implies #[trigger] p[i] == q[i] by {
        assert(x[i] == p[i]);
        assert(y[i] == q[i]);
    }
    named_ints_are_one_to_one(op_forms::memory_names(f), a->Memory_ints, b->Memory_ints);
    if (f / 2) % 2 == 1 {
        assert(x.last() == y.last());
    }
}

/// The attributes of a reduction tell its integers and its identities.
proof fn reduction_tells(
    names: Seq<Seq<char>>,
    a: Seq<u64>,
    x: Seq<AttributeModel>,
    b: Seq<u64>,
    y: Seq<AttributeModel>,
)
    requires
        a.len() == names.len(),
        b.len() == names.len(),
        op_forms::named_ints(names, a).push(("identities"@, AttributeModel::Array(x)))
            == op_forms::named_ints(names, b).push(("identities"@, AttributeModel::Array(y))),
    ensures
        a == b,
        x == y,
{
    let p = op_forms::named_ints(names, a);
    let q = op_forms::named_ints(names, b);
    let u = p.push(("identities"@, AttributeModel::Array(x)));
    let v = q.push(("identities"@, AttributeModel::Array(y)));
    assert forall|i: int| 0 <= i < names.len() implies #[trigger] p[i] == q[i] by {
        assert(u[i] == p[i]);
        assert(v[i] == q[i]);
    }
    named_ints_are_one_to_one(names, a, b);
    assert(u.last() == v.last());
}

/// The two names of flags that one operation has are different.
proof fn flag_names_differ(op: Opcode, version: BytecodeVersion)
    ensures
        op_forms::layout_of(op, version) matches Layout::Ints { flags, .. } ==> flags.len() <= 2 && (
        flags.len() == 2 ==> flags[0] != flags[1]),
{
    if op is MaxF || op is MinF {
        reveal_strlit("propagate_nan");
        reveal_strlit("flush_to_zero");
        assert("propagate_nan"@[0] != "flush_to_zero"@[0]);
    }
}

/// The low flags of an operation are told by its attributes.
pub open spec fn same_low_flags(layout: Layout, f: u64, g: u64) -> bool {
    match layout {
        Layout::Ints { flagged: true, flags, .. } => {
            &&& flags.len() > 0 ==> f % 2 == g % 2
            &&& flags.len() > 1 ==> (f / 2) % 2 == (g / 2) % 2
        },
        Layout::Memory => f % 2 == g % 2 && (f / 2) % 2 == (g / 2) % 2,
        _ => f == g,
    }
}

/// The attributes of an operation tell its values, but for the flags that stand for
/// operands and the number before a text.
#[verifier::rlimit(30)]
proof fn attributes_tell(
    op: Opcode,
    version: BytecodeVersion,
    a: AttrValues,
    b: AttrValues,
    result_types: Seq<TypeModel>,
    t: TablesModel,
)
    requires
        op_forms::values_fit(op_forms::layout_of(op, version), a, result_types, t),
        op_forms::values_fit(op_forms::layout_of(op, version), b, result_types, t),
        op_forms::attributes_of(op_forms::layout_of(op, version), a, result_types)
            == op_forms::attributes_of(op_forms::layout_of(op, version), b, result_types),
        a matches AttrValues::Text { prefix, .. } ==> prefix == 0,
        b matches AttrValues::Text { prefix, .. } ==> prefix == 0,
    ensures
        ({
            let layout = op_forms::layout_of(op, version);
            let f = op_forms::flags_of(layout, a);
            let g = op_forms::flags_of(layout, b);
            &&& same_low_flags(layout, f, g)
            &&& f == g ==> op_forms::values_form(layout, a, t) == op_forms::values_form(
                layout,
                b,
                t,
            )
        }),
{
    let layout = op_forms::layout_of(op, version);
    let x = op_forms::attributes_of(layout, a, result_types);
    let y = op_forms::attributes_of(layout, b, result_types);
    match layout {
        Layout::Ints { flagged, names, flags } => {
            flag_names_differ(op, version);
            ints_tell(names, flags, a->Ints_flags, a->Ints_ints, b->Ints_flags, b->Ints_ints);
        },
        Layout::Defaulted { name, default } => {
            let m = a->Ints_ints[0];
            let n = b->Ints_ints[0];
            if m != default {
                assert(x.len() == 1);
                assert(y.len() == 1);
                assert(x[0] == y[0]);
                int_attribute_is_one_to_one(m, n);
            } else {
                assert(x.len() == 0);
                assert(y.len() == 0);
            }
            assert(m == n);
        },
        Layout::Memory => {
            memory_tells(a, b, result_types, t);
        },
        Layout::Reduction { names } => {
            reduction_tells(
                names,
                a->Reduction_ints,
                a->identities,
                b->Reduction_ints,
                b->identities,
            );
        },
        Layout::Permutation => {
            assert(x[0] == y[0]);
        },
        Layout::Constant => {
            assert(x[0].1->data == y[0].1->data);
        },
        Layout::Predicate => {
            assert(x[0] == y[0]);
        },
        Layout::Text { .. } => {
            assert(x[0] == y[0]);
        },
        Layout::Unknown => {},
    }
}

/// Flags with the same five lowest bits are the same, where there are no others.
proof fn five_bits_tell(f: u64, g: u64)
    requires
        f < 32,
        g < 32,
        f % 2 == g % 2,
        (f / 2) % 2 == (g / 2) % 2,
        (f / 4) % 2 == (g / 4) % 2,
        (f / 8) % 2 == (g / 8) % 2,
        (f / 16) % 2 == (g / 16) % 2,
    ensures
        f == g,
{
}

/// The operand groups that are there tell the flags that stand for them.
proof fn groups_tell(op: Opcode, f: u64, a: Seq<Seq<nat>>, g: u64, b: Seq<Seq<nat>>, scope: nat)
    requires
        op_forms::operands_fit(op, f, a, scope),
        op_forms::operands_fit(op, g, b, scope),
        ops::operand_groups(op, f) is Some,
        a.len() == b.len(),
        forall|i: int| 0 <= i < a.len() ==> (#[trigger] a[i]).len() == b[i].len(),
    ensures
        forall|i: int|
            0 <= i < a.len() ==> #[trigger] ops::operand_groups(op, f)->0[i]
                == ops::operand_groups(op, g)->0[i],
{
    groups_are_fixed(op, f, g);
    let x = ops::operand_groups(op, f)->0;
    let y = ops::operand_groups(op, g)->0;
    assert forall|i: int| 0 <= i < a.len() implies #[trigger] x[i] == y[i] by {
        assert(op_forms::group_fits(x[i], a[i], scope));
        assert(op_forms::group_fits(y[i], b[i], scope));
        assert(a[i].len() == b[i].len());
        match x[i] {
            OperandGroup::Optional(_) => {},
            _ => {},
        }
    }
}

/// The attributes and the operand groups of an operation tell its flags.
proof fn flags_tell(op: Opcode, version: BytecodeVersion, f: u64, g: u64)
    requires
        f < flag_limit(op),
        g < flag_limit(op),
        same_low_flags(op_forms::layout_of(op, version), f, g),
        ops::operand_groups(op, f) is Some ==> forall|i: int|
            0 <= i < ops::operand_groups(op, f)->0.len() ==> #[trigger] ops::operand_groups(
                op,
                f,
            )->0[i] == ops::operand_groups(op, g)->0[i],
    ensures
        f == g,
{
    groups_are_fixed(op, f, g);
    if ops::operand_groups(op, f) is Some {
        let x = ops::operand_groups(op, f)->0;
        let y = ops::operand_groups(op, g)->0;
        match op {
            Opcode::LoadViewTko => {
                assert(x[2] == y[2]);
                five_bits_tell(f, g);
            },
            Opcode::StoreViewTko => {
                assert(x[3] == y[3]);
                five_bits_tell(f, g);
            },
            Opcode::LoadPtrTko => {
                assert(x[1] == y[1]);
                assert(x[2] == y[2]);
                assert(x[3] == y[3]);
                five_bits_tell(f, g);
            },
            Opcode::StorePtrTko => {
                assert(x[2] == y[2]);
                assert(x[3] == y[3]);
                five_bits_tell(f, g);
            },
            Opcode::AtomicRMW => {
                assert(x[2] == y[2]);
                assert(x[3] == y[3]);
                five_bits_tell(f, g);
            },
            Opcode::AtomicCAS => {
                assert(x[3] == y[3]);
                assert(x[4] == y[4]);
                five_bits_tell(f, g);
            },
            Opcode::AtomicRedViewTko => {
                assert(x[3] == y[3]);
                five_bits_tell(f, g);
            },
            _ => {},
        }
    } else {
        attributes_tell_flags(op, version, f, g);
    }
}

/// Where no flag stands for an operand, the attributes tell all flags.
proof fn attributes_tell_flags(op: Opcode, version: BytecodeVersion, f: u64, g: u64)
    requires
        f < flag_limit(op),
        g < flag_limit(op),
        same_low_flags(op_forms::layout_of(op, version), f, g),
        ops::operand_groups(op, f) is None,
    ensures
        f == g,
{
    match op_forms::layout_of(op, version) {
        Layout::Ints { flagged, flags, .. } => {
            if flagged {
                assert(flags.len() > 0);
                if op is MaxF || op is MinF {
                    assert(flags.len() == 2);
                }
            }
        },
        _ => {},
    }
}

/// An operation of a module tells its bytes, but for its regions: two that are written in
/// the same version with the same tables, at the same values in scope, and are the same in
/// a module, have the same bytes.
pub proof fn op_tells_its_form(
    a: OpImage,
    b: OpImage,
    values: Seq<nat>,
    t: TablesModel,
    version: BytecodeVersion,
)
    requires
        a.writable(values.len(), t, version),
        b.writable(values.len(), t, version),
        is_plain(a, version),
        is_plain(b, version),
        values.no_duplicates(),
        a.opcode == b.opcode,
        a.result_types == b.result_types,
        a.fields(values, version) == b.fields(values, version),
    ensures
        a.form(t, version) == b.form(t, version),
{
    let op = a.opcode;
    let layout = op_forms::layout_of(op, version);
    let f = a.flags(version);
    let g = b.flags(version);
    let x = op_forms::attributes_of(layout, a.attributes, a.result_types);
    let y = op_forms::attributes_of(layout, b.attributes, b.result_types);
    let s = op_forms::op_segments(op, f, a.operands);
    let u = op_forms::op_segments(op, g, b.operands);
    groups_are_fixed(op, f, g);
    assert(ops::with_segments(x, s) == ops::with_segments(y, u));
    segments_split(x, s, y, u);
    attributes_tell(op, version, a.attributes, b.attributes, a.result_types, t);
    operand_scopes(op, f, a.operands, values.len());
    operand_scopes(op, g, b.operands, values.len());
    flattened_in_scope(a.operands, values.len());
    flattened_in_scope(b.operands, values.len());
    values_tell_places(
        op_forms::flattened(a.operands),
        op_forms::flattened(b.operands),
        values,
    );
    if ops::operand_groups(op, f) is Some {
        assert(a.operands.len() == b.operands.len());
        assert forall|i: int| 0 <= i < a.operands.len() implies (#[trigger] a.operands[i]).len()
            == b.operands[i].len() by {
            assert(s[i] == u[i]);
            assert(a.operands[i].len() < 0x8000_0000 && b.operands[i].len() < 0x8000_0000);
            segment_is_one_to_one(a.operands[i].len(), b.operands[i].len());
        }
        groups_tell(op, f, a.operands, g, b.operands, values.len());
    } else {
        reveal_with_fuel(op_forms::flattened, 2);
        assert(op_forms::flattened(a.operands) =~= a.operands[0]);
        assert(op_forms::flattened(b.operands) =~= b.operands[0]);
    }
    flattened_is_one_to_one(a.operands, b.operands);
    flags_tell(op, version, f, g);
}

/// The operands of an operation are places of the scope.
proof fn operand_scopes(op: Opcode, flags: u64, places: Seq<Seq<nat>>, scope: nat)
    requires
        op_forms::operands_fit(op, flags, places, scope),
    ensures
        forall|i: int| 0 <= i < places.len() ==> op_forms::in_scope(#[trigger] places[i], scope),
{
    if let Some(groups) = ops::operand_groups(op, flags) {
        assert forall|i: int| 0 <= i < places.len() implies op_forms::in_scope(
            #[trigger] places[i],
            scope,
        ) by {
            assert(op_forms::group_fits(groups[i], places[i], scope));
        }
    }
}

} // verus!
