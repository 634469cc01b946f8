//! What holds of every module that is decoded.

use vstd::prelude::*;

use crate::bytecode::attributes::TablesModel;
use crate::bytecode::decoder;
use crate::bytecode::enums::{BytecodeVersion, Section};
use crate::bytecode::functions;
use crate::bytecode::functions::FunctionModel;
use crate::bytecode::opcode;
use crate::bytecode::opcode::Opcode;
use crate::bytecode::ops;
use crate::bytecode::ops::{BodyState, OpFields};
use crate::bytecode::reader;
use crate::bytecode::sections;
use crate::bytecode::types;
use crate::error::DecodeError;
use crate::ir::{AttributeModel, DefModel, ModuleModel, TypeModel};
use crate::text;

verus! {

/// A value is where its definition says: a result of an operation or an argument of a
/// block.
pub open spec fn value_is_defined(m: ModuleModel, v: int) -> bool {
    match m.values[v].def {
        DefModel::OpResult { op, index } => {
            &&& op < m.ops.len()
            &&& index < m.ops[op as int].results.len()
            &&& m.ops[op as int].results[index as int] == v
        },
        DefModel::BlockArgument { block, index } => {
            &&& block < m.blocks.len()
            &&& index < m.blocks[block as int].args.len()
            &&& m.blocks[block as int].args[index as int] == v
        },
    }
}

/// A value is known before an operation: it is an argument of a block, or a result of
/// an operation with a lower number.
pub open spec fn is_known_before(m: ModuleModel, v: nat, op: int) -> bool {
    &&& v < m.values.len()
    &&& m.values[v as int].def matches DefModel::OpResult { op: k, .. } ==> k < op
}

/// An operation is in order: its results are values that it defines, its operands are
/// known before it, and its regions are there.
pub open spec fn op_is_in_order(m: ModuleModel, i: int) -> bool {
    let op = m.ops[i];
    &&& forall|j: int|
        0 <= j < op.results.len() ==> (#[trigger] op.results[j]) < m.values.len()
            && m.values[op.results[j] as int].def == (DefModel::OpResult {
            op: i as nat,
            index: j as nat,
        })
    &&& forall|j: int|
        0 <= j < op.operands.len() ==> is_known_before(m, #[trigger] op.operands[j], i)
    &&& forall|j: int| 0 <= j < op.regions.len() ==> (#[trigger] op.regions[j]) < m.regions.len()
}

/// A block is in order: its arguments are values that it defines, and its operations
/// are there.
pub open spec fn block_is_in_order(m: ModuleModel, i: int) -> bool {
    let b = m.blocks[i];
    &&& forall|j: int|
        0 <= j < b.args.len() ==> (#[trigger] b.args[j]) < m.values.len()
            && m.values[b.args[j] as int].def == (DefModel::BlockArgument {
            block: i as nat,
            index: j as nat,
        })
    &&& forall|j: int| 0 <= j < b.ops.len() ==> (#[trigger] b.ops[j]) < m.ops.len()
}

/// No operation stands at two places.
pub open spec fn ops_stand_once(m: ModuleModel) -> bool {
    forall|a: int, i: int, b: int, j: int|
        0 <= a < m.blocks.len() && 0 <= b < m.blocks.len() && 0 <= i < m.blocks[a].ops.len()
            && 0 <= j < m.blocks[b].ops.len() && #[trigger] m.blocks[a].ops[i]
            == #[trigger] m.blocks[b].ops[j] ==> a == b && i == j
}

/// A module is well formed.
pub open spec fn well_formed(m: ModuleModel) -> bool {
    &&& forall|v: int| 0 <= v < m.values.len() ==> #[trigger] value_is_defined(m, v)
    &&& forall|i: int| 0 <= i < m.ops.len() ==> #[trigger] op_is_in_order(m, i)
    &&& forall|i: int| 0 <= i < m.blocks.len() ==> #[trigger] block_is_in_order(m, i)
    &&& forall|i: int, j: int|
        0 <= i < m.regions.len() && 0 <= j < m.regions[i].len() ==> (
        #[trigger] m.regions[i][j]) < m.blocks.len()
    &&& forall|i: int|
        0 <= i < m.functions.len() ==> (#[trigger] m.functions[i]) < m.ops.len()
            && m.ops[m.functions[i] as int].opcode == Opcode::Entry
    &&& ops_stand_once(m)
}

/// A module has at least what another has.
pub open spec fn grows(a: ModuleModel, b: ModuleModel) -> bool {
    &&& a.values.len() <= b.values.len()
    &&& a.ops.len() <= b.ops.len()
    &&& a.blocks.len() <= b.blocks.len()
    &&& a.regions.len() <= b.regions.len()
}

/// A block with new arguments keeps a module well formed.
proof fn with_block_keeps(m: ModuleModel, arg_types: Seq<TypeModel>)
    requires
        well_formed(m),
    ensures
        well_formed(m.with_block(arg_types)),
        grows(m, m.with_block(arg_types)),
        m.with_block(arg_types).blocks.len() == m.blocks.len() + 1,
        m.with_block(arg_types).values.len() == m.values.len() + arg_types.len(),
{
    let n = m.with_block(arg_types);
    assert forall|v: int| 0 <= v < n.values.len() implies #[trigger] value_is_defined(n, v) by {
        if v < m.values.len() {
            assert(value_is_defined(m, v));
        }
    }
    assert forall|i: int| 0 <= i < n.ops.len() implies #[trigger] op_is_in_order(n, i) by {
        assert(op_is_in_order(m, i));
        let op = m.ops[i];
        assert forall|j: int| 0 <= j < op.operands.len() implies is_known_before(
            n,
            #[trigger] op.operands[j],
            i,
        ) by {
            assert(is_known_before(m, op.operands[j], i));
        }
    }
    assert forall|i: int| 0 <= i < n.blocks.len() implies #[trigger] block_is_in_order(n, i) by {
        if i < m.blocks.len() {
            assert(block_is_in_order(m, i));
        }
    }
}

/// A region of blocks that are there keeps a module well formed.
proof fn with_region_keeps(m: ModuleModel, blocks: Seq<nat>)
    requires
        well_formed(m),
        forall|j: int| 0 <= j < blocks.len() ==> (#[trigger] blocks[j]) < m.blocks.len(),
    ensures
        well_formed(m.with_region(blocks)),
        grows(m, m.with_region(blocks)),
{
    let n = m.with_region(blocks);
    assert forall|v: int| 0 <= v < n.values.len() implies #[trigger] value_is_defined(n, v) by {
        assert(value_is_defined(m, v));
    }
    assert forall|i: int| 0 <= i < n.ops.len() implies #[trigger] op_is_in_order(n, i) by {
        assert(op_is_in_order(m, i));
        let op = m.ops[i];
        assert forall|j: int| 0 <= j < op.operands.len() implies is_known_before(
            n,
            #[trigger] op.operands[j],
            i,
        ) by {
            assert(is_known_before(m, op.operands[j], i));
        }
    }
    assert forall|i: int| 0 <= i < n.blocks.len() implies #[trigger] block_is_in_order(n, i) by {
        assert(block_is_in_order(m, i));
    }
}

/// An operation whose operands and regions are there keeps a module well formed.
proof fn with_op_keeps(
    m: ModuleModel,
    op: Opcode,
    result_types: Seq<TypeModel>,
    operands: Seq<nat>,
    attributes: Seq<(Seq<char>, AttributeModel)>,
    regions: Seq<nat>,
)
    requires
        well_formed(m),
        forall|j: int| 0 <= j < operands.len() ==> (#[trigger] operands[j]) < m.values.len(),
        forall|j: int| 0 <= j < regions.len() ==> (#[trigger] regions[j]) < m.regions.len(),
    ensures
        well_formed(m.with_op(op, result_types, operands, attributes, regions)),
        grows(m, m.with_op(op, result_types, operands, attributes, regions)),
{
    let n = m.with_op(op, result_types, operands, attributes, regions);
    assert forall|v: int| 0 <= v < n.values.len() implies #[trigger] value_is_defined(n, v) by {
        if v < m.values.len() {
            assert(value_is_defined(m, v));
        }
    }
    assert forall|i: int| 0 <= i < n.ops.len() implies #[trigger] op_is_in_order(n, i) by {
        if i < m.ops.len() {
            assert(op_is_in_order(m, i));
            let o = m.ops[i];
            assert forall|j: int| 0 <= j < o.operands.len() implies is_known_before(
                n,
                #[trigger] o.operands[j],
                i,
            ) by {
                assert(is_known_before(m, o.operands[j], i));
            }
        } else {
            assert forall|j: int| 0 <= j < operands.len() implies is_known_before(
                n,
                #[trigger] operands[j],
                i,
            ) by {
                assert(value_is_defined(m, operands[j] as int));
            }
        }
    }
    assert forall|i: int| 0 <= i < n.blocks.len() implies #[trigger] block_is_in_order(n, i) by {
        assert(block_is_in_order(m, i));
    }
}

/// An operation that stands nowhere, put at the end of a block, keeps a module well
/// formed.
proof fn with_appended_keeps(m: ModuleModel, block: nat, op: nat)
    requires
        well_formed(m),
        block < m.blocks.len(),
        op < m.ops.len(),
        forall|b: int, j: int|
            0 <= b < m.blocks.len() && 0 <= j < m.blocks[b].ops.len() ==> (
            #[trigger] m.blocks[b].ops[j]) < op,
    ensures
        well_formed(m.with_appended(block, op)),
        grows(m, m.with_appended(block, op)),
{
    let n = m.with_appended(block, op);
    assert forall|v: int| 0 <= v < n.values.len() implies #[trigger] value_is_defined(n, v) by {
        assert(value_is_defined(m, v));
    }
    assert forall|i: int| 0 <= i < n.ops.len() implies #[trigger] op_is_in_order(n, i) by {
        assert(op_is_in_order(m, i));
        let o = m.ops[i];
        assert forall|j: int| 0 <= j < o.operands.len() implies is_known_before(
            n,
            #[trigger] o.operands[j],
            i,
        ) by {
            assert(is_known_before(m, o.operands[j], i));
        }
    }
    assert forall|i: int| 0 <= i < n.blocks.len() implies #[trigger] block_is_in_order(n, i) by {
        assert(block_is_in_order(m, i));
        let b = n.blocks[i];
        assert forall|j: int| 0 <= j < b.ops.len() implies (#[trigger] b.ops[j]) < n.ops.len() by {
            if j < m.blocks[i].ops.len() {
                assert(m.blocks[i].ops[j] < m.ops.len());
            }
        }
    }
    assert forall|a: int, i: int, b: int, j: int|
        0 <= a < n.blocks.len() && 0 <= b < n.blocks.len() && 0 <= i < n.blocks[a].ops.len() && 0
            <= j < n.blocks[b].ops.len() && #[trigger] n.blocks[a].ops[i]
            == #[trigger] n.blocks[b].ops[j] implies a == b && i == j by {
        if i < m.blocks[a].ops.len() {
            assert(m.blocks[a].ops[i] < op);
        }
        if j < m.blocks[b].ops.len() {
            assert(m.blocks[b].ops[j] < op);
        }
    }
}

/// A state in which a body is read is in order: its module is well formed and the
/// values in scope are there.
pub open spec fn state_is_in_order(s: BodyState) -> bool {
    &&& well_formed(s.module)
    &&& forall|i: int| 0 <= i < s.values.len() ==> (#[trigger] s.values[i]) < s.module.values.len()
}

/// A read operation keeps the state in order.
proof fn finish_op_keeps(
    op: Opcode,
    fields: OpFields,
    regions: Seq<nat>,
    s: BodyState,
    block: nat,
)
    requires
        state_is_in_order(s),
        block < s.module.blocks.len(),
        forall|j: int|
            0 <= j < fields.operands.len() ==> (#[trigger] fields.operands[j])
                < s.module.values.len(),
        forall|j: int| 0 <= j < regions.len() ==> (#[trigger] regions[j]) < s.module.regions.len(),
    ensures
        state_is_in_order(ops::finish_op(op, fields, regions, s, block)),
        grows(s.module, ops::finish_op(op, fields, regions, s, block).module),
{
    let m = s.module;
    let n = m.with_op(op, fields.result_types, fields.operands, fields.attributes, regions);
    with_op_keeps(m, op, fields.result_types, fields.operands, fields.attributes, regions);
    assert forall|b: int, j: int|
        0 <= b < n.blocks.len() && 0 <= j < n.blocks[b].ops.len() implies (
    #[trigger] n.blocks[b].ops[j]) < m.ops.len() by {
        assert(block_is_in_order(m, b));
    }
    with_appended_keeps(n, block, m.ops.len());
}

/// Operands come from the scope.
proof fn operands_are_in_scope(d: Seq<u8>, p: int, values: Seq<nat>, n: nat, acc: Seq<nat>, top: nat)
    requires
        forall|i: int| 0 <= i < values.len() ==> (#[trigger] values[i]) < top,
        forall|i: int| 0 <= i < acc.len() ==> (#[trigger] acc[i]) < top,
    ensures
        ops::operands_at(d, p, values, n, acc).0 matches Ok(v) ==> forall|i: int|
            0 <= i < v.len() ==> (#[trigger] v[i]) < top,
    decreases n,
{
    if n > 0 {
        if let (Ok(i), q) = reader::varint_at(d, p) {
            if i < values.len() {
                operands_are_in_scope(
                    d,
                    q,
                    values,
                    (n - 1) as nat,
                    acc.push(values[i as int]),
                    top,
                );
            }
        }
    }
}

/// Groups of operands come from the scope.
proof fn groups_are_in_scope(
    d: Seq<u8>,
    p: int,
    values: Seq<nat>,
    groups: Seq<ops::OperandGroup>,
    acc: (Seq<nat>, Seq<i32>),
    top: nat,
)
    requires
        forall|i: int| 0 <= i < values.len() ==> (#[trigger] values[i]) < top,
        forall|i: int| 0 <= i < acc.0.len() ==> (#[trigger] acc.0[i]) < top,
    ensures
        ops::groups_at(d, p, values, groups, acc).0 matches Ok(v) ==> forall|i: int|
            0 <= i < v.0.len() ==> (#[trigger] v.0[i]) < top,
    decreases groups.len(),
{
    if groups.len() > 0 {
        operands_are_in_scope(d, p, values, 1, Seq::empty(), top);
        if let (Ok(n), q) = reader::varint_at(d, p) {
            operands_are_in_scope(d, q, values, n as nat, Seq::empty(), top);
        }
        if let (Ok(got), q) = ops::group_at(d, p, values, groups[0]) {
            let next = (acc.0 + got, acc.1.push(ops::segment(got.len())));
            groups_are_in_scope(d, q, values, groups.skip(1), next, top);
        }
    }
}

/// The operands of an operation come from the scope.
proof fn fields_are_in_scope(
    op: Opcode,
    d: Seq<u8>,
    p: int,
    t: TablesModel,
    version: BytecodeVersion,
    values: Seq<nat>,
    top: nat,
)
    requires
        forall|i: int| 0 <= i < values.len() ==> (#[trigger] values[i]) < top,
    ensures
        ops::op_fields_at(op, d, p, t, version, values).0 matches Ok(f) ==> forall|i: int|
            0 <= i < f.operands.len() ==> (#[trigger] f.operands[i]) < top,
{
    reveal(ops::op_fields_at);
    if let (Ok(ts), q) = ops::result_types_at(op, d, p, t) {
        if let (Ok((attrs, flags)), q) = ops::op_attributes_at(op, d, q, t, version, ts) {
            match ops::operand_groups(op, flags) {
                Some(groups) => {
                    groups_are_in_scope(d, q, values, groups, (Seq::empty(), Seq::empty()), top);
                },
                None => {
                    if let Some(n) = op.spec_operand_count() {
                        operands_are_in_scope(d, q, values, n as nat, Seq::empty(), top);
                    }
                    if let (Ok(n), r) = reader::varint_at(d, q) {
                        operands_are_in_scope(d, r, values, n as nat, Seq::empty(), top);
                    }
                },
            }
        }
    }
}

/// An operation that is read keeps the state in order and takes no value out of scope.
proof fn op_keeps(
    op: Opcode,
    d: Seq<u8>,
    s: BodyState,
    t: TablesModel,
    version: BytecodeVersion,
    block: nat,
)
    requires
        0 <= s.pos <= d.len(),
        state_is_in_order(s),
        block < s.module.blocks.len(),
    ensures
        ops::op_at(op, d, s, t, version, block).0 is Ok ==> {
            let r = ops::op_at(op, d, s, t, version, block).1;
            &&& state_is_in_order(r)
            &&& grows(s.module, r.module)
            &&& s.values.len() <= r.values.len()
            &&& r.values.take(s.values.len() as int) == s.values
        },
    decreases d.len() - s.pos, 1int, 0int,
{
    ops::op_fields_advance(op, d, s.pos, t, version, s.values);
    fields_are_in_scope(op, d, s.pos, t, version, s.values, s.module.values.len());
    if let (Ok(fields), q) = ops::op_fields_at(op, d, s.pos, t, version, s.values) {
        let at = BodyState { pos: q, ..s };
        if ops::has_regions(op) {
            regions_keep(d, at, t, version);
            if let (Ok(regions), r) = ops::regions_at(d, at, t, version) {
                finish_op_keeps(op, fields, regions, r, block);
                let end = ops::finish_op(op, fields, regions, r, block);
                assert(end.values.take(s.values.len() as int) =~= s.values);
            }
        } else {
            finish_op_keeps(op, fields, Seq::empty(), at, block);
            let end = ops::finish_op(op, fields, Seq::empty(), at, block);
            assert(end.values.take(s.values.len() as int) =~= s.values);
        }
    }
}

/// Regions that are read keep the state in order and leave the scope as it is.
proof fn regions_keep(d: Seq<u8>, s: BodyState, t: TablesModel, version: BytecodeVersion)
    requires
        0 <= s.pos <= d.len(),
        state_is_in_order(s),
    ensures
        ops::regions_at(d, s, t, version).0 matches Ok(regions) ==> {
            let r = ops::regions_at(d, s, t, version).1;
            &&& state_is_in_order(r)
            &&& grows(s.module, r.module)
            &&& r.values == s.values
            &&& forall|j: int|
                0 <= j < regions.len() ==> (#[trigger] regions[j]) < r.module.regions.len()
        },
    decreases d.len() - s.pos, 0int, 0int,
{
    reader::varint_advances(d, s.pos);
    if let (Ok(n), q) = reader::varint_at(d, s.pos) {
        region_list_keeps(d, BodyState { pos: q, ..s }, t, version, n as nat, Seq::empty());
    }
}

/// A list of regions that is read keeps the state in order and leaves the scope as it
/// is.
proof fn region_list_keeps(
    d: Seq<u8>,
    s: BodyState,
    t: TablesModel,
    version: BytecodeVersion,
    n: nat,
    acc: Seq<nat>,
)
    requires
        0 <= s.pos <= d.len(),
        state_is_in_order(s),
        forall|j: int| 0 <= j < acc.len() ==> (#[trigger] acc[j]) < s.module.regions.len(),
    ensures
        ops::region_list_at(d, s, t, version, n, acc).0 matches Ok(regions) ==> {
            let r = ops::region_list_at(d, s, t, version, n, acc).1;
            &&& state_is_in_order(r)
            &&& grows(s.module, r.module)
            &&& r.values == s.values
            &&& forall|j: int|
                0 <= j < regions.len() ==> (#[trigger] regions[j]) < r.module.regions.len()
        },
    decreases d.len() - s.pos, 2int, n,
{
    if n > 0 {
        region_keeps(d, s, t, version);
        if let (Ok(id), r) = ops::region_at(d, s, t, version) {
            if s.pos < r.pos <= d.len() {
                region_list_keeps(d, r, t, version, (n - 1) as nat, acc.push(id));
            }
        }
    }
}

/// A region that is read keeps the state in order and leaves the scope as it is.
proof fn region_keeps(d: Seq<u8>, s: BodyState, t: TablesModel, version: BytecodeVersion)
    requires
        0 <= s.pos <= d.len(),
        state_is_in_order(s),
    ensures
        ops::region_at(d, s, t, version).0 matches Ok(id) ==> {
            let r = ops::region_at(d, s, t, version).1;
            &&& state_is_in_order(r)
            &&& grows(s.module, r.module)
            &&& r.values == s.values
            &&& id < r.module.regions.len()
        },
    decreases d.len() - s.pos, 1int, 0int,
{
    reader::varint_advances(d, s.pos);
    if let (Ok(n), q) = reader::varint_at(d, s.pos) {
        let at = BodyState { pos: q, ..s };
        block_list_keeps(d, at, t, version, n as nat, Seq::empty());
        if let (Ok(blocks), r) = ops::block_list_at(d, at, t, version, n as nat, Seq::empty()) {
            with_region_keeps(r.module, blocks);
        }
    }
}

/// A list of blocks that is read keeps the state in order and leaves the scope as it
/// is.
proof fn block_list_keeps(
    d: Seq<u8>,
    s: BodyState,
    t: TablesModel,
    version: BytecodeVersion,
    n: nat,
    acc: Seq<nat>,
)
    requires
        0 <= s.pos <= d.len(),
        state_is_in_order(s),
        forall|j: int| 0 <= j < acc.len() ==> (#[trigger] acc[j]) < s.module.blocks.len(),
    ensures
        ops::block_list_at(d, s, t, version, n, acc).0 matches Ok(blocks) ==> {
            let r = ops::block_list_at(d, s, t, version, n, acc).1;
            &&& state_is_in_order(r)
            &&& grows(s.module, r.module)
            &&& r.values == s.values
            &&& forall|j: int|
                0 <= j < blocks.len() ==> (#[trigger] blocks[j]) < r.module.blocks.len()
        },
    decreases d.len() - s.pos, 2int, n,
{
    if n > 0 {
        block_keeps(d, s, t, version);
        if let (Ok(id), r) = ops::block_at(d, s, t, version) {
            if s.pos < r.pos <= d.len() {
                block_list_keeps(d, r, t, version, (n - 1) as nat, acc.push(id));
            }
        }
    }
}

/// A block that is read keeps the state in order, and what it defines is out of scope
/// behind it.
pub proof fn block_keeps(d: Seq<u8>, s: BodyState, t: TablesModel, version: BytecodeVersion)
    requires
        0 <= s.pos <= d.len(),
        state_is_in_order(s),
    ensures
        ops::block_at(d, s, t, version).0 matches Ok(id) ==> {
            let r = ops::block_at(d, s, t, version).1;
            &&& state_is_in_order(r)
            &&& grows(s.module, r.module)
            &&& r.values == s.values
            &&& id < r.module.blocks.len()
        },
    decreases d.len() - s.pos, 1int, 0int,
{
    ops::var_type_refs_advance(d, s.pos, t);
    if let (Ok(arg_types), q) = types::var_type_refs_at(
        d,
        s.pos,
        t.types,
        DecodeError::ResultTypeIndex,
    ) {
        let block = s.module.blocks.len();
        let entered = BodyState {
            pos: q,
            values: s.values + s.module.fresh_values(arg_types.len()),
            module: s.module.with_block(arg_types),
        };
        with_block_keeps(s.module, arg_types);
        reader::varint_advances(d, q);
        if let (Ok(n), q2) = reader::varint_at(d, q) {
            let inner = BodyState { pos: q2, ..entered };
            op_list_keeps(d, inner, t, version, n as nat, block);
            if let (Ok(_), r) = ops::op_list_at(d, inner, t, version, n as nat, block) {
                assert(inner.values.take(s.values.len() as int) =~= s.values);
                assert(r.values.take(s.values.len() as int) =~= r.values.take(
                    inner.values.len() as int,
                ).take(s.values.len() as int));
            }
        }
    }
}

/// A list of operations that is read keeps the state in order and takes no value out of
/// scope.
proof fn op_list_keeps(
    d: Seq<u8>,
    s: BodyState,
    t: TablesModel,
    version: BytecodeVersion,
    n: nat,
    block: nat,
)
    requires
        0 <= s.pos <= d.len(),
        state_is_in_order(s),
        block < s.module.blocks.len(),
    ensures
        ops::op_list_at(d, s, t, version, n, block).0 is Ok ==> {
            let r = ops::op_list_at(d, s, t, version, n, block).1;
            &&& state_is_in_order(r)
            &&& grows(s.module, r.module)
            &&& s.values.len() <= r.values.len()
            &&& r.values.take(s.values.len() as int) == s.values
        },
    decreases d.len() - s.pos, 2int, n,
{
    if n == 0 {
        assert(s.values.take(s.values.len() as int) =~= s.values);
    } else {
        reader::varint_advances(d, s.pos);
        if let (Ok(v), q) = reader::varint_at(d, s.pos) {
            if let Some(op) = opcode::opcode_of(ops::code_of(v)) {
                let at = BodyState { pos: q, ..s };
                op_keeps(op, d, at, t, version, block);
                if let (Ok(_), r) = ops::op_at(op, d, at, t, version, block) {
                    if s.pos < r.pos <= d.len() {
                        op_list_keeps(d, r, t, version, (n - 1) as nat, block);
                        let rest = ops::op_list_at(d, r, t, version, (n - 1) as nat, block);
                        if let (Ok(_), end) = rest {
                            assert(end.values.take(s.values.len() as int) =~= end.values.take(
                                r.values.len() as int,
                            ).take(s.values.len() as int));
                        }
                    }
                }
            }
        }
    }
}

/// A body that is read keeps the state in order.
proof fn body_keeps(
    d: Seq<u8>,
    s: BodyState,
    t: TablesModel,
    version: BytecodeVersion,
    block: nat,
)
    requires
        0 <= s.pos <= d.len(),
        state_is_in_order(s),
        block < s.module.blocks.len(),
    ensures
        ops::body_at(d, s, t, version, block).0 is Ok ==> {
            let r = ops::body_at(d, s, t, version, block).1;
            &&& state_is_in_order(r)
            &&& grows(s.module, r.module)
        },
    decreases d.len() - s.pos,
{
    if s.pos < d.len() {
        reader::varint_advances(d, s.pos);
        if let (Ok(v), q) = reader::varint_at(d, s.pos) {
            if let Some(op) = opcode::opcode_of(ops::code_of(v)) {
                let at = BodyState { pos: q, ..s };
                op_keeps(op, d, at, t, version, block);
                if let (Ok(_), r) = ops::op_at(op, d, at, t, version, block) {
                    if s.pos < r.pos <= d.len() {
                        body_keeps(d, r, t, version, block);
                    }
                }
            }
        }
    }
}

/// A function that is read keeps a module well formed.
proof fn function_keeps(
    m: ModuleModel,
    f: FunctionModel,
    t: TablesModel,
    version: BytecodeVersion,
)
    requires
        well_formed(m),
    ensures
        functions::with_function(m, f, t, version).0 is Ok ==> well_formed(
            functions::with_function(m, f, t, version).1,
        ),
{
    if let TypeModel::Func { inputs, .. } = f.signature {
        with_block_keeps(m, inputs);
        with_region_keeps(m.with_block(inputs), seq![m.blocks.len()]);
        let entry = functions::entry_state(m, inputs);
        body_keeps(f.body, entry, t, version, m.blocks.len());
        if let (Ok(_), s) = ops::body_at(f.body, entry, t, version, m.blocks.len()) {
            let attrs = functions::function_attributes(f);
            let regions = seq![m.regions.len()];
            with_op_keeps(s.module, Opcode::Entry, Seq::empty(), Seq::empty(), attrs, regions);
            let n = s.module.with_op(
                Opcode::Entry,
                Seq::empty(),
                Seq::empty(),
                attrs,
                regions,
            );
            with_function_keeps(n, s.module.ops.len());
        }
    }
}

/// A function that an entry operation stands for keeps a module well formed.
proof fn with_function_keeps(m: ModuleModel, op: nat)
    requires
        well_formed(m),
        op < m.ops.len(),
        m.ops[op as int].opcode == Opcode::Entry,
    ensures
        well_formed(m.with_function(op)),
{
    let n = m.with_function(op);
    assert forall|v: int| 0 <= v < n.values.len() implies #[trigger] value_is_defined(n, v) by {
        assert(value_is_defined(m, v));
    }
    assert forall|i: int| 0 <= i < n.ops.len() implies #[trigger] op_is_in_order(n, i) by {
        assert(op_is_in_order(m, i));
        let o = m.ops[i];
        assert forall|j: int| 0 <= j < o.operands.len() implies is_known_before(
            n,
            #[trigger] o.operands[j],
            i,
        ) by {
            assert(is_known_before(m, o.operands[j], i));
        }
    }
    assert forall|i: int| 0 <= i < n.blocks.len() implies #[trigger] block_is_in_order(n, i) by {
        assert(block_is_in_order(m, i));
    }
}

/// Functions that are read keep a module well formed.
proof fn functions_keep(
    d: Seq<u8>,
    p: int,
    n: nat,
    m: ModuleModel,
    t: TablesModel,
    version: BytecodeVersion,
)
    requires
        well_formed(m),
    ensures
        functions::functions_at(d, p, n, m, t, version).0 is Ok ==> well_formed(
            functions::functions_at(d, p, n, m, t, version).1,
        ),
    decreases n,
{
    if n > 0 {
        if let (Ok(f), q) = functions::function_at(d, p, t) {
            function_keeps(m, f, t, version);
            if let (Ok(_), next) = functions::with_function(m, f, t, version) {
                functions_keep(d, q, (n - 1) as nat, next, t, version);
            }
        }
    }
}

/// Every module that is decoded is well formed, whatever the bytes: each value is
/// defined once and where it says, an operation uses only values known before it, what
/// is referred to is there, no operation stands at two places, and the functions are
/// entry operations.
pub proof fn decoded_modules_are_well_formed(d: Seq<u8>)
    ensures
        decoder::module_of(d) matches Ok(m) ==> well_formed(m),
{
    if let Ok((version, s, t)) = decoder::tables_of(d) {
        let empty = ModuleModel::empty("module"@);
        assert(well_formed(empty));
        if let Some(payload) = sections::section_of(
            s,
            Section::Func.spec_id(),
        ) {
            if let (Ok(n), q) = reader::varint_at(payload, 0) {
                functions_keep(payload, q, n as nat, empty, t, version);
            }
        }
    }
}

/// The version of a buffer decides first: where it cannot be read, neither the module
/// nor the text can, for the same reason, and where one of them can be read, so can the
/// version.
pub proof fn version_comes_first(d: Seq<u8>)
    ensures
        reader::header_at(d, 0).0 matches Err(e) ==> decoder::module_of(d) == Err::<
            ModuleModel,
            DecodeError,
        >(e) && decoder::text_of_buffer(d) == Err::<Seq<char>, DecodeError>(e),
        decoder::module_of(d) is Ok || decoder::text_of_buffer(d) is Ok ==> reader::header_at(
            d,
            0,
        ).0 is Ok,
{
}

/// A text begins with another.
pub open spec fn begins_with(s: Seq<char>, prefix: Seq<char>) -> bool {
    prefix.len() <= s.len() && s.take(prefix.len() as int) == prefix
}

/// What is put behind a text leaves its beginning.
proof fn begins_with_more(s: Seq<char>, more: Seq<char>, prefix: Seq<char>)
    requires
        begins_with(s, prefix),
    ensures
        begins_with(s + more, prefix),
{
    assert((s + more).take(prefix.len() as int) =~= s.take(prefix.len() as int));
}

/// A listing leaves the beginning of the text before it.
proof fn listing_keeps_beginning(
    out: Seq<char>,
    title: Seq<char>,
    entries: Seq<Seq<char>>,
    prefix: Seq<char>,
)
    requires
        begins_with(out, prefix),
    ensures
        begins_with(decoder::listing(out, title, entries), prefix),
{
    if entries.len() > 0 {
        let count = text::dec_text(entries.len());
        begins_with_more(out, title, prefix);
        begins_with_more(out + title, count, prefix);
        begins_with_more(out + title + count, ") ===\n"@, prefix);
        let start = out + title + count + ") ===\n"@;
        numbered_keeps_beginning(start, entries, entries.len(), prefix);
        begins_with_more(decoder::numbered(start, entries, entries.len()), "\n"@, prefix);
    }
}

/// Numbered lines leave the beginning of the text before them.
proof fn numbered_keeps_beginning(
    out: Seq<char>,
    entries: Seq<Seq<char>>,
    n: nat,
    prefix: Seq<char>,
)
    requires
        begins_with(out, prefix),
    ensures
        begins_with(decoder::numbered(out, entries, n), prefix),
    decreases n,
{
    if n > 0 {
        numbered_keeps_beginning(out, entries, (n - 1) as nat, prefix);
        let a = decoder::numbered(out, entries, (n - 1) as nat);
        let i = text::dec_text((n - 1) as nat);
        begins_with_more(a, "  ["@, prefix);
        begins_with_more(a + "  ["@, i, prefix);
        begins_with_more(a + "  ["@ + i, "] "@, prefix);
        begins_with_more(a + "  ["@ + i + "] "@, entries[n - 1], prefix);
        begins_with_more(a + "  ["@ + i + "] "@ + entries[n - 1], "\n"@, prefix);
    }
}

/// Indented lines leave the beginning of the text before them.
proof fn indented_keeps_beginning(
    out: Seq<char>,
    entries: Seq<Seq<char>>,
    n: nat,
    prefix: Seq<char>,
)
    requires
        begins_with(out, prefix),
    ensures
        begins_with(decoder::indented(out, entries, n), prefix),
    decreases n,
{
    if n > 0 {
        indented_keeps_beginning(out, entries, (n - 1) as nat, prefix);
        let a = decoder::indented(out, entries, (n - 1) as nat);
        begins_with_more(a, "  "@, prefix);
        begins_with_more(a + "  "@, entries[n - 1], prefix);
        begins_with_more(a + "  "@ + entries[n - 1], "\n"@, prefix);
    }
}

/// Lines leave the beginning of the text before them.
proof fn lined_keeps_beginning(out: Seq<char>, entries: Seq<Seq<char>>, n: nat, prefix: Seq<char>)
    requires
        begins_with(out, prefix),
    ensures
        begins_with(decoder::lined(out, entries, n), prefix),
    decreases n,
{
    if n > 0 {
        lined_keeps_beginning(out, entries, (n - 1) as nat, prefix);
        let a = decoder::lined(out, entries, (n - 1) as nat);
        begins_with_more(a, entries[n - 1], prefix);
        begins_with_more(a + entries[n - 1], "\n"@, prefix);
    }
}

/// The text of a buffer begins with a line that names the version of its header.
pub proof fn text_begins_with_the_version(d: Seq<u8>)
    ensures
        decoder::text_of_buffer(d) matches Ok(t) ==> reader::header_at(d, 0).0 matches Ok(v)
            && begins_with(t, "TileIR bytecode v"@ + v.text() + "\n"@),
{
    if let Ok(m) = decoder::dump_of(d) {
        let quoted = decoder::debug_texts(m.strings);
        let prefix = "TileIR bytecode v"@ + m.version.text() + "\n"@;
        let head = prefix + "\n"@;
        assert(head.take(prefix.len() as int) =~= prefix);
        let strings = decoder::listing(head, "=== Strings ("@, quoted);
        listing_keeps_beginning(head, "=== Strings ("@, quoted, prefix);
        let types = decoder::listing(strings, "=== Types ("@, m.types);
        listing_keeps_beginning(strings, "=== Types ("@, m.types, prefix);
        let sizes = decoder::size_texts(m.constants);
        let constants = decoder::listing(types, "=== Constants ("@, sizes);
        listing_keeps_beginning(types, "=== Constants ("@, sizes, prefix);
        let g = text::dec_text(m.globals.len());
        begins_with_more(constants, "=== Globals ("@, prefix);
        begins_with_more(constants + "=== Globals ("@, g, prefix);
        begins_with_more(constants + "=== Globals ("@ + g, ") ===\n"@, prefix);
        let start = constants + "=== Globals ("@ + g + ") ===\n"@;
        indented_keeps_beginning(start, m.globals, m.globals.len(), prefix);
        begins_with_more(
            decoder::indented(start, m.globals, m.globals.len()),
            "\n"@,
            prefix,
        );
        let globals = if m.globals.len() == 0 {
            constants
        } else {
            decoder::indented(start, m.globals, m.globals.len()) + "\n"@
        };
        let functions = match m.functions {
            None => globals,
            Some(f) => decoder::lined(
                globals + "=== Functions ("@ + text::dec_text(f.len()) + ") ===\n"@,
                f,
                f.len(),
            ),
        };
        if let Some(f) = m.functions {
            let n = text::dec_text(f.len());
            begins_with_more(globals, "=== Functions ("@, prefix);
            begins_with_more(globals + "=== Functions ("@, n, prefix);
            begins_with_more(globals + "=== Functions ("@ + n, ") ===\n"@, prefix);
            lined_keeps_beginning(
                globals + "=== Functions ("@ + n + ") ===\n"@,
                f,
                f.len(),
                prefix,
            );
        }
        if let Some(n) = m.debug {
            let size = text::dec_text(n);
            begins_with_more(functions, "=== Debug ("@, prefix);
            begins_with_more(functions + "=== Debug ("@, size, prefix);
            begins_with_more(functions + "=== Debug ("@ + size, " bytes) ===\n"@, prefix);
        }
    }
}

} // verus!
