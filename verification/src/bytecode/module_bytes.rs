//! What a module tells of the bytes that it was decoded from.
//!
//! A tree of operations stands in a module where the module holds its operations, blocks
//! and regions. What a tree builds is a module in which it stands; and two trees that stand
//! at the same place of a module have the same bytes.

use vstd::prelude::*;

use crate::bytecode::attributes::TablesModel;
use crate::bytecode::decoder;
use crate::bytecode::enums::BytecodeVersion;
use crate::bytecode::functions;
use crate::bytecode::kernel_forms;
use crate::bytecode::kernel_forms::{BlockTree, OpTree, Scope};
use crate::bytecode::module_forms;
use crate::bytecode::module_forms::{FunctionTree, ModuleImage};
use crate::bytecode::op_bytes;
use crate::bytecode::reader;
use crate::error::DecodeError;
use crate::ir::{ModuleModel, TypeModel};

verus! {

/// Values are there and have the types.
pub open spec fn are_of(m: ModuleModel, ids: Seq<nat>, types: Seq<TypeModel>) -> bool {
    &&& ids.len() == types.len()
    &&& forall|i: int|
        0 <= i < ids.len() ==> (#[trigger] ids[i]) < m.values.len() && m.values[ids[i] as int].ty
            == types[i]
}

/// An operation with its regions stands in a module under a number, where values are in
/// scope. The blocks of its regions have numbers from `low` on.
pub open spec fn op_stands(
    m: ModuleModel,
    id: nat,
    o: OpTree,
    values: Seq<nat>,
    version: BytecodeVersion,
    low: nat,
) -> bool
    decreases o, 0int,
{
    let fields = o.op.fields(values, version);
    &&& values.no_duplicates()
    &&& id < m.ops.len()
    &&& m.ops[id as int].opcode == o.op.opcode
    &&& m.ops[id as int].attributes == fields.attributes
    &&& m.ops[id as int].operands == fields.operands
    &&& are_of(m, m.ops[id as int].results, o.op.result_types)
    &&& regions_stand(m, m.ops[id as int].regions, o.regions, values, version, low)
}

/// Regions stand in a module under numbers.
pub open spec fn regions_stand(
    m: ModuleModel,
    ids: Seq<nat>,
    rs: Seq<Seq<BlockTree>>,
    values: Seq<nat>,
    version: BytecodeVersion,
    low: nat,
) -> bool
    decreases rs, 1int,
{
    &&& ids.len() == rs.len()
    &&& rs.len() > 0 ==> {
        &&& ids[0] < m.regions.len()
        &&& blocks_stand(m, m.regions[ids[0] as int], rs[0], values, version, low)
        &&& regions_stand(m, ids.skip(1), rs.skip(1), values, version, low)
    }
}

/// Blocks stand in a module under numbers.
pub open spec fn blocks_stand(
    m: ModuleModel,
    ids: Seq<nat>,
    bs: Seq<BlockTree>,
    values: Seq<nat>,
    version: BytecodeVersion,
    low: nat,
) -> bool
    decreases bs, 1int,
{
    &&& ids.len() == bs.len()
    &&& bs.len() > 0 ==> {
        &&& block_stands(m, ids[0], bs[0], values, version, low)
        &&& blocks_stand(m, ids.skip(1), bs.skip(1), values, version, low)
    }
}

/// A block stands in a module under a number. The blocks inside it have greater numbers.
pub open spec fn block_stands(
    m: ModuleModel,
    id: nat,
    b: BlockTree,
    values: Seq<nat>,
    version: BytecodeVersion,
    low: nat,
) -> bool
    decreases b, 0int,
{
    &&& low <= id < m.blocks.len()
    &&& are_of(m, m.blocks[id as int].args, b.arg_types)
    &&& ops_stand(
        m,
        m.blocks[id as int].ops,
        b.ops,
        values + m.blocks[id as int].args,
        version,
        id + 1,
    )
}

/// Operations stand in a module under numbers; the results of each are in scope behind it.
pub open spec fn ops_stand(
    m: ModuleModel,
    ids: Seq<nat>,
    os: Seq<OpTree>,
    values: Seq<nat>,
    version: BytecodeVersion,
    low: nat,
) -> bool
    decreases os, 1int,
{
    &&& ids.len() == os.len()
    &&& os.len() > 0 ==> {
        &&& op_stands(m, ids[0], os[0], values, version, low)
        &&& ops_stand(
            m,
            ids.skip(1),
            os.skip(1),
            values + m.ops[ids[0] as int].results,
            version,
            low,
        )
    }
}

/// A module has all of another, but for the block `open`, which may have got operations.
pub open spec fn grown(m: ModuleModel, n: ModuleModel, open: int) -> bool {
    &&& m.ops.len() <= n.ops.len()
    &&& forall|i: int| 0 <= i < m.ops.len() ==> #[trigger] n.ops[i] == m.ops[i]
    &&& m.regions.len() <= n.regions.len()
    &&& forall|i: int| 0 <= i < m.regions.len() ==> #[trigger] n.regions[i] == m.regions[i]
    &&& m.values.len() <= n.values.len()
    &&& forall|i: int| 0 <= i < m.values.len() ==> #[trigger] n.values[i] == m.values[i]
    &&& m.blocks.len() <= n.blocks.len()
    &&& forall|i: int|
        0 <= i < m.blocks.len() && i != open ==> #[trigger] n.blocks[i] == m.blocks[i]
}

/// Values keep their types.
proof fn are_of_keeps(m: ModuleModel, n: ModuleModel, open: int, ids: Seq<nat>, types: Seq<TypeModel>)
    requires
        grown(m, n, open),
        are_of(m, ids, types),
    ensures
        are_of(n, ids, types),
{
    assert forall|i: int| 0 <= i < ids.len() implies (#[trigger] ids[i]) < n.values.len()
        && n.values[ids[i] as int].ty == types[i] by {
        assert(ids[i] < m.values.len());
        assert(n.values[ids[i] as int] == m.values[ids[i] as int]);
    }
}

/// What stands in a module stands in one that has grown.
proof fn op_keeps(
    m: ModuleModel,
    n: ModuleModel,
    open: int,
    id: nat,
    o: OpTree,
    values: Seq<nat>,
    version: BytecodeVersion,
    low: nat,
)
    requires
        grown(m, n, open),
        open < low,
        op_stands(m, id, o, values, version, low),
    ensures
        op_stands(n, id, o, values, version, low),
    decreases o, 0int,
{
    assert(n.ops[id as int] == m.ops[id as int]);
    are_of_keeps(m, n, open, m.ops[id as int].results, o.op.result_types);
    regions_keep(m, n, open, m.ops[id as int].regions, o.regions, values, version, low);
}

/// Regions that stand in a module stand in one that has grown.
proof fn regions_keep(
    m: ModuleModel,
    n: ModuleModel,
    open: int,
    ids: Seq<nat>,
    rs: Seq<Seq<BlockTree>>,
    values: Seq<nat>,
    version: BytecodeVersion,
    low: nat,
)
    requires
        grown(m, n, open),
        open < low,
        regions_stand(m, ids, rs, values, version, low),
    ensures
        regions_stand(n, ids, rs, values, version, low),
    decreases rs, 1int,
{
    if rs.len() > 0 {
        assert(n.regions[ids[0] as int] == m.regions[ids[0] as int]);
        blocks_keep(m, n, open, m.regions[ids[0] as int], rs[0], values, version, low);
        regions_keep(m, n, open, ids.skip(1), rs.skip(1), values, version, low);
    }
}

/// Blocks that stand in a module stand in one that has grown.
proof fn blocks_keep(
    m: ModuleModel,
    n: ModuleModel,
    open: int,
    ids: Seq<nat>,
    bs: Seq<BlockTree>,
    values: Seq<nat>,
    version: BytecodeVersion,
    low: nat,
)
    requires
        grown(m, n, open),
        open < low,
        blocks_stand(m, ids, bs, values, version, low),
    ensures
        blocks_stand(n, ids, bs, values, version, low),
    decreases bs, 1int,
{
    if bs.len() > 0 {
        block_keeps(m, n, open, ids[0], bs[0], values, version, low);
        blocks_keep(m, n, open, ids.skip(1), bs.skip(1), values, version, low);
    }
}

/// A block that stands in a module stands in one that has grown.
proof fn block_keeps(
    m: ModuleModel,
    n: ModuleModel,
    open: int,
    id: nat,
    b: BlockTree,
    values: Seq<nat>,
    version: BytecodeVersion,
    low: nat,
)
    requires
        grown(m, n, open),
        open < low,
        block_stands(m, id, b, values, version, low),
    ensures
        block_stands(n, id, b, values, version, low),
    decreases b, 0int,
{
    let x = m.blocks[id as int];
    assert(n.blocks[id as int] == x);
    are_of_keeps(m, n, open, x.args, b.arg_types);
    ops_keep(m, n, open, x.ops, b.ops, values + x.args, version, id + 1);
}

/// Operations that stand in a module stand in one that has grown.
proof fn ops_keep(
    m: ModuleModel,
    n: ModuleModel,
    open: int,
    ids: Seq<nat>,
    os: Seq<OpTree>,
    values: Seq<nat>,
    version: BytecodeVersion,
    low: nat,
)
    requires
        grown(m, n, open),
        open < low,
        ops_stand(m, ids, os, values, version, low),
    ensures
        ops_stand(n, ids, os, values, version, low),
    decreases os, 1int,
{
    if os.len() > 0 {
        assert(op_stands(m, ids[0], os[0], values, version, low));
        op_keeps(m, n, open, ids[0], os[0], values, version, low);
        assert(n.ops[ids[0] as int] == m.ops[ids[0] as int]);
        ops_keep(
            m,
            n,
            open,
            ids.skip(1),
            os.skip(1),
            values + m.ops[ids[0] as int].results,
            version,
            low,
        );
    }
}

/// Growing on is growing.
proof fn grown_on(a: ModuleModel, b: ModuleModel, c: ModuleModel, open: int)
    requires
        grown(a, b, open),
        grown(b, c, open),
    ensures
        grown(a, c, open),
{
    assert forall|i: int| 0 <= i < a.ops.len() implies #[trigger] c.ops[i] == a.ops[i] by {
        assert(b.ops[i] == a.ops[i]);
    }
    assert forall|i: int| 0 <= i < a.regions.len() implies #[trigger] c.regions[i]
        == a.regions[i] by {
        assert(b.regions[i] == a.regions[i]);
    }
    assert forall|i: int| 0 <= i < a.values.len() implies #[trigger] c.values[i]
        == a.values[i] by {
        assert(b.values[i] == a.values[i]);
    }
    assert forall|i: int| 0 <= i < a.blocks.len() && i != open implies #[trigger] c.blocks[i]
        == a.blocks[i] by {
        assert(b.blocks[i] == a.blocks[i]);
    }
}

/// The values in scope are those of the module, each once.
pub open spec fn in_order(s: Scope) -> bool {
    &&& s.values.no_duplicates()
    &&& forall|i: int| 0 <= i < s.values.len() ==> (#[trigger] s.values[i]) < s.module.values.len()
}

/// New values are in order behind those in scope.
proof fn fresh_values_are_in_order(s: Scope, n: nat, m: ModuleModel)
    requires
        in_order(s),
        m.values.len() == s.module.values.len() + n,
    ensures
        in_order(Scope { values: s.values + s.module.fresh_values(n), module: m }),
{
    let fresh = s.module.fresh_values(n);
    let all = s.values + fresh;
    assert forall|i: int| 0 <= i < all.len() implies (#[trigger] all[i]) < m.values.len() by {
        if i < s.values.len() {
            assert(all[i] == s.values[i]);
        } else {
            assert(all[i] == fresh[i - s.values.len()]);
        }
    }
    assert forall|i: int, j: int| 0 <= i < all.len() && 0 <= j < all.len() && i != j implies all[i]
        != all[j] by {
        if i < s.values.len() {
            assert(all[i] == s.values[i]);
        } else {
            assert(all[i] == fresh[i - s.values.len()]);
        }
        if j < s.values.len() {
            assert(all[j] == s.values[j]);
        } else {
            assert(all[j] == fresh[j - s.values.len()]);
        }
    }
}

/// An operation that is finished at the end of a block stands there.
proof fn finished_op_stands(
    o: OpTree,
    q: Scope,
    regions: Seq<nat>,
    version: BytecodeVersion,
    block: nat,
    low: nat,
)
    requires
        in_order(q),
        block < low,
        block < q.module.blocks.len(),
        regions_stand(q.module, regions, o.regions, q.values, version, low),
    ensures
        ({
            let r = kernel_forms::finished(
                o.op.opcode,
                o.op.fields(q.values, version),
                regions,
                q,
                block,
            );
            let id = q.module.ops.len();
            &&& in_order(r)
            &&& r.module.functions == q.module.functions
            &&& grown(q.module, r.module, block as int)
            &&& r.module.ops.len() == id + 1
            &&& r.module.blocks[block as int].args == q.module.blocks[block as int].args
            &&& r.module.blocks[block as int].ops == q.module.blocks[block as int].ops.push(id)
            &&& r.values == q.values + r.module.ops[id as int].results
            &&& op_stands(r.module, id, o, q.values, version, low)
        }),
{
    let fields = o.op.fields(q.values, version);
    let r = kernel_forms::finished(o.op.opcode, fields, regions, q, block);
    let id = q.module.ops.len();
    fresh_values_are_in_order(q, o.op.result_types.len(), r.module);
    assert(grown(q.module, r.module, block as int));
    regions_keep(q.module, r.module, block as int, regions, o.regions, q.values, version, low);
    assert(are_of(r.module, r.module.ops[id as int].results, o.op.result_types));
}

/// What an operation builds is a module in which it stands.
proof fn op_builds(o: OpTree, s: Scope, version: BytecodeVersion, block: nat, low: nat)
    requires
        in_order(s),
        block < low <= s.module.blocks.len(),
    ensures
        ({
            let r = kernel_forms::op_built(o, s, version, block);
            let id = (r.module.ops.len() - 1) as nat;
            &&& in_order(r)
            &&& r.module.functions == s.module.functions
            &&& grown(s.module, r.module, block as int)
            &&& r.module.ops.len() > 0
            &&& r.module.blocks[block as int].args == s.module.blocks[block as int].args
            &&& r.module.blocks[block as int].ops == s.module.blocks[block as int].ops.push(id)
            &&& r.values == s.values + r.module.ops[id as int].results
            &&& op_stands(r.module, id, o, s.values, version, low)
        }),
    decreases o, 0int,
{
    regions_build(o.regions, s, version, Seq::empty(), low);
    let (regions, q) = kernel_forms::regions_built(o.regions, s, version, Seq::empty());
    assert(regions.skip(0) =~= regions);
    finished_op_stands(o, q, regions, version, block, low);
    let r = kernel_forms::op_built(o, s, version, block);
    assert(grown(s.module, q.module, block as int));
    grown_on(s.module, q.module, r.module, block as int);
}

/// What regions build is a module in which they stand.
proof fn regions_build(
    rs: Seq<Seq<BlockTree>>,
    s: Scope,
    version: BytecodeVersion,
    acc: Seq<nat>,
    low: nat,
)
    requires
        in_order(s),
        low <= s.module.blocks.len(),
    ensures
        ({
            let (ids, r) = kernel_forms::regions_built(rs, s, version, acc);
            &&& in_order(r)
            &&& r.values == s.values
            &&& r.module.functions == s.module.functions
            &&& grown(s.module, r.module, -1)
            &&& ids.len() == acc.len() + rs.len()
            &&& ids.take(acc.len() as int) == acc
            &&& regions_stand(
                r.module,
                ids.skip(acc.len() as int),
                rs,
                s.values,
                version,
                low,
            )
        }),
    decreases rs, 1int,
{
    let (ids, r) = kernel_forms::regions_built(rs, s, version, acc);
    if rs.len() == 0 {
        assert(ids.take(acc.len() as int) =~= acc);
    } else {
        blocks_build(rs[0], s, version, Seq::empty(), low);
        let (blocks, p) = kernel_forms::blocks_built(rs[0], s, version, Seq::empty());
        assert(blocks.skip(0) =~= blocks);
        let (id, q) = kernel_forms::region_built(rs[0], s, version);
        assert(grown(p.module, q.module, -1));
        blocks_keep(p.module, q.module, -1, blocks, rs[0], s.values, version, low);
        grown_on(s.module, p.module, q.module, -1);
        regions_build(rs.skip(1), q, version, acc.push(id), low);
        grown_on(s.module, q.module, r.module, -1);
        blocks_keep(q.module, r.module, -1, blocks, rs[0], s.values, version, low);
        let new = ids.skip(acc.len() as int);
        assert(ids.take((acc.len() + 1) as int)[acc.len() as int] == id);
        assert(new[0] == id);
        assert(r.module.regions[id as int] == q.module.regions[id as int]);
        assert(new.skip(1) =~= ids.skip((acc.len() + 1) as int));
        assert(ids.take(acc.len() as int) =~= ids.take((acc.len() + 1) as int).take(
            acc.len() as int,
        ));
        assert(acc.push(id).take(acc.len() as int) =~= acc);
    }
}

/// What blocks build is a module in which they stand.
proof fn blocks_build(
    bs: Seq<BlockTree>,
    s: Scope,
    version: BytecodeVersion,
    acc: Seq<nat>,
    low: nat,
)
    requires
        in_order(s),
        low <= s.module.blocks.len(),
    ensures
        ({
            let (ids, r) = kernel_forms::blocks_built(bs, s, version, acc);
            &&& in_order(r)
            &&& r.values == s.values
            &&& r.module.functions == s.module.functions
            &&& grown(s.module, r.module, -1)
            &&& ids.len() == acc.len() + bs.len()
            &&& ids.take(acc.len() as int) == acc
            &&& blocks_stand(r.module, ids.skip(acc.len() as int), bs, s.values, version, low)
        }),
    decreases bs, 1int,
{
    let (ids, r) = kernel_forms::blocks_built(bs, s, version, acc);
    if bs.len() == 0 {
        assert(ids.take(acc.len() as int) =~= acc);
    } else {
        block_builds(bs[0], s, version, low);
        let (id, q) = kernel_forms::block_built(bs[0], s, version);
        blocks_build(bs.skip(1), q, version, acc.push(id), low);
        grown_on(s.module, q.module, r.module, -1);
        block_keeps(q.module, r.module, -1, id, bs[0], s.values, version, low);
        let new = ids.skip(acc.len() as int);
        assert(ids.take((acc.len() + 1) as int)[acc.len() as int] == id);
        assert(new[0] == id);
        assert(new.skip(1) =~= ids.skip((acc.len() + 1) as int));
        assert(ids.take(acc.len() as int) =~= ids.take((acc.len() + 1) as int).take(
            acc.len() as int,
        ));
        assert(acc.push(id).take(acc.len() as int) =~= acc);
    }
}

/// What a block builds is a module in which it stands.
proof fn block_builds(b: BlockTree, s: Scope, version: BytecodeVersion, low: nat)
    requires
        in_order(s),
        low <= s.module.blocks.len(),
    ensures
        ({
            let (id, r) = kernel_forms::block_built(b, s, version);
            &&& in_order(r)
            &&& r.values == s.values
            &&& r.module.functions == s.module.functions
            &&& grown(s.module, r.module, -1)
            &&& block_stands(r.module, id, b, s.values, version, low)
        }),
    decreases b, 0int,
{
    let block = s.module.blocks.len();
    let inner = kernel_forms::entered(b.arg_types, s);
    let (id, r) = kernel_forms::block_built(b, s, version);
    fresh_values_are_in_order(s, b.arg_types.len(), inner.module);
    ops_build(b.ops, inner, version, block, block + 1);
    kernel_forms::block_built_scope(b, s, version);
    assert(grown(s.module, inner.module, -1));
    let end = kernel_forms::ops_built(b.ops, inner, version, block);
    assert(end.module == r.module);
    assert(grown(inner.module, r.module, block as int));
    assert(grown(s.module, r.module, -1)) by {
        assert(grown(s.module, inner.module, block as int));
        grown_on(s.module, inner.module, r.module, block as int);
    }
    let x = r.module.blocks[block as int];
    assert(x.args == s.module.fresh_values(b.arg_types.len()));
    assert(x.ops.skip(0) =~= x.ops);
    assert(are_of(inner.module, x.args, b.arg_types));
    are_of_keeps(inner.module, r.module, block as int, x.args, b.arg_types);
    assert forall|i: int| 0 <= i < r.values.len() implies (#[trigger] r.values[i])
        < r.module.values.len() by {
        assert(s.values[i] < s.module.values.len());
    }
}

/// What operations build is a module in which they stand.
proof fn ops_build(os: Seq<OpTree>, s: Scope, version: BytecodeVersion, block: nat, low: nat)
    requires
        in_order(s),
        block < low <= s.module.blocks.len(),
    ensures
        ({
            let r = kernel_forms::ops_built(os, s, version, block);
            let before = s.module.blocks[block as int].ops;
            let ids = r.module.blocks[block as int].ops;
            &&& in_order(r)
            &&& r.module.functions == s.module.functions
            &&& grown(s.module, r.module, block as int)
            &&& r.module.blocks[block as int].args == s.module.blocks[block as int].args
            &&& ids.len() == before.len() + os.len()
            &&& ids.take(before.len() as int) == before
            &&& ops_stand(r.module, ids.skip(before.len() as int), os, s.values, version, low)
        }),
    decreases os, 1int,
{
    let r = kernel_forms::ops_built(os, s, version, block);
    let before = s.module.blocks[block as int].ops;
    if os.len() == 0 {
        assert(before.take(before.len() as int) =~= before);
    } else {
        op_builds(os[0], s, version, block, low);
        let q = kernel_forms::op_built(os[0], s, version, block);
        let id = (q.module.ops.len() - 1) as nat;
        ops_build(os.skip(1), q, version, block, low);
        grown_on(s.module, q.module, r.module, block as int);
        op_keeps(q.module, r.module, block as int, id, os[0], s.values, version, low);
        let ids = r.module.blocks[block as int].ops;
        let n = before.len() as int;
        assert(q.module.blocks[block as int].ops == before.push(id));
        assert(ids.take(n + 1)[n] == id);
        let new = ids.skip(n);
        assert(new[0] == id);
        assert(new.skip(1) =~= ids.skip(n + 1));
        assert(ids.take(n) =~= ids.take(n + 1).take(n));
        assert(before.push(id).take(n) =~= before);
        assert(r.module.ops[id as int] == q.module.ops[id as int]);
    }
}

/// Nothing of an operation and its regions is written that has no place in a module.
pub open spec fn op_is_plain(o: OpTree, version: BytecodeVersion) -> bool
    decreases o, 0int,
{
    op_bytes::is_plain(o.op, version) && regions_are_plain(o.regions, version)
}

/// Nothing of regions is written that has no place in a module.
pub open spec fn regions_are_plain(rs: Seq<Seq<BlockTree>>, version: BytecodeVersion) -> bool
    decreases rs, 1int,
{
    rs.len() > 0 ==> blocks_are_plain(rs[0], version) && regions_are_plain(rs.skip(1), version)
}

/// Nothing of blocks is written that has no place in a module.
pub open spec fn blocks_are_plain(bs: Seq<BlockTree>, version: BytecodeVersion) -> bool
    decreases bs, 1int,
{
    bs.len() > 0 ==> block_is_plain(bs[0], version) && blocks_are_plain(bs.skip(1), version)
}

/// Nothing of a block is written that has no place in a module.
pub open spec fn block_is_plain(b: BlockTree, version: BytecodeVersion) -> bool
    decreases b, 0int,
{
    ops_are_plain(b.ops, version)
}

/// Nothing of operations is written that has no place in a module.
pub open spec fn ops_are_plain(os: Seq<OpTree>, version: BytecodeVersion) -> bool
    decreases os, 1int,
{
    os.len() > 0 ==> op_is_plain(os[0], version) && ops_are_plain(os.skip(1), version)
}

/// Values have one list of types.
proof fn types_are_told(m: ModuleModel, ids: Seq<nat>, a: Seq<TypeModel>, b: Seq<TypeModel>)
    requires
        are_of(m, ids, a),
        are_of(m, ids, b),
    ensures
        a == b,
{
    assert forall|i: int| 0 <= i < a.len() implies a[i] == b[i] by {
        assert(m.values[ids[i] as int].ty == a[i]);
        assert(m.values[ids[i] as int].ty == b[i]);
    }
    assert(a =~= b);
}

/// Two operations that stand at the same place of a module have the same bytes.
proof fn op_tells(
    m: ModuleModel,
    id: nat,
    a: OpTree,
    b: OpTree,
    values: Seq<nat>,
    t: TablesModel,
    version: BytecodeVersion,
    low: nat,
)
    requires
        op_stands(m, id, a, values, version, low),
        op_stands(m, id, b, values, version, low),
        kernel_forms::op_writable(a, values.len(), t, version),
        kernel_forms::op_writable(b, values.len(), t, version),
        op_is_plain(a, version),
        op_is_plain(b, version),
    ensures
        a.op.opcode == b.op.opcode,
        kernel_forms::op_tail_form(a, t, version) == kernel_forms::op_tail_form(b, t, version),
    decreases a, 0int,
{
    types_are_told(m, m.ops[id as int].results, a.op.result_types, b.op.result_types);
    assert(a.op.fields(values, version) == b.op.fields(values, version));
    op_bytes::op_tells_its_form(a.op, b.op, values, t, version);
    regions_tell(
        m,
        m.ops[id as int].regions,
        a.regions,
        b.regions,
        values,
        t,
        version,
        low,
    );
}

/// Regions that stand at the same places of a module have the same bytes.
proof fn regions_tell(
    m: ModuleModel,
    ids: Seq<nat>,
    a: Seq<Seq<BlockTree>>,
    b: Seq<Seq<BlockTree>>,
    values: Seq<nat>,
    t: TablesModel,
    version: BytecodeVersion,
    low: nat,
)
    requires
        regions_stand(m, ids, a, values, version, low),
        regions_stand(m, ids, b, values, version, low),
        kernel_forms::regions_writable(a, values.len(), t, version),
        kernel_forms::regions_writable(b, values.len(), t, version),
        regions_are_plain(a, version),
        regions_are_plain(b, version),
    ensures
        a.len() == b.len(),
        kernel_forms::regions_form(a, t, version) == kernel_forms::regions_form(b, t, version),
    decreases a, 1int,
{
    if a.len() > 0 {
        assert(kernel_forms::region_writable(a[0], values.len(), t, version));
        assert(kernel_forms::region_writable(b[0], values.len(), t, version));
        blocks_tell(m, m.regions[ids[0] as int], a[0], b[0], values, t, version, low);
        assert(kernel_forms::region_form(a[0], t, version) == kernel_forms::region_form(
            b[0],
            t,
            version,
        ));
        regions_tell(m, ids.skip(1), a.skip(1), b.skip(1), values, t, version, low);
    }
}

/// Blocks that stand at the same places of a module have the same bytes.
proof fn blocks_tell(
    m: ModuleModel,
    ids: Seq<nat>,
    a: Seq<BlockTree>,
    b: Seq<BlockTree>,
    values: Seq<nat>,
    t: TablesModel,
    version: BytecodeVersion,
    low: nat,
)
    requires
        blocks_stand(m, ids, a, values, version, low),
        blocks_stand(m, ids, b, values, version, low),
        kernel_forms::blocks_writable(a, values.len(), t, version),
        kernel_forms::blocks_writable(b, values.len(), t, version),
        blocks_are_plain(a, version),
        blocks_are_plain(b, version),
    ensures
        a.len() == b.len(),
        kernel_forms::blocks_form(a, t, version) == kernel_forms::blocks_form(b, t, version),
    decreases a, 1int,
{
    if a.len() > 0 {
        block_tells(m, ids[0], a[0], b[0], values, t, version, low);
        blocks_tell(m, ids.skip(1), a.skip(1), b.skip(1), values, t, version, low);
    }
}

/// Two blocks that stand at the same place of a module have the same bytes.
proof fn block_tells(
    m: ModuleModel,
    id: nat,
    a: BlockTree,
    b: BlockTree,
    values: Seq<nat>,
    t: TablesModel,
    version: BytecodeVersion,
    low: nat,
)
    requires
        block_stands(m, id, a, values, version, low),
        block_stands(m, id, b, values, version, low),
        kernel_forms::block_writable(a, values.len(), t, version),
        kernel_forms::block_writable(b, values.len(), t, version),
        block_is_plain(a, version),
        block_is_plain(b, version),
    ensures
        kernel_forms::block_form(a, t, version) == kernel_forms::block_form(b, t, version),
    decreases a, 0int,
{
    let x = m.blocks[id as int];
    types_are_told(m, x.args, a.arg_types, b.arg_types);
    ops_tell(m, x.ops, a.ops, b.ops, values + x.args, t, version, id + 1);
}

/// Operations that stand at the same places of a module have the same bytes.
proof fn ops_tell(
    m: ModuleModel,
    ids: Seq<nat>,
    a: Seq<OpTree>,
    b: Seq<OpTree>,
    values: Seq<nat>,
    t: TablesModel,
    version: BytecodeVersion,
    low: nat,
)
    requires
        ops_stand(m, ids, a, values, version, low),
        ops_stand(m, ids, b, values, version, low),
        kernel_forms::ops_writable(a, values.len(), t, version),
        kernel_forms::ops_writable(b, values.len(), t, version),
        ops_are_plain(a, version),
        ops_are_plain(b, version),
    ensures
        a.len() == b.len(),
        kernel_forms::ops_form(a, t, version) == kernel_forms::ops_form(b, t, version),
    decreases a, 1int,
{
    if a.len() > 0 {
        assert(op_stands(m, ids[0], a[0], values, version, low));
        assert(op_stands(m, ids[0], b[0], values, version, low));
        op_tells(m, ids[0], a[0], b[0], values, t, version, low);
        let next = values + m.ops[ids[0] as int].results;
        assert(next.len() == values.len() + a[0].op.result_types.len());
        ops_tell(m, ids.skip(1), a.skip(1), b.skip(1), next, t, version, low);
    }
}

/// Nothing of a function is written that has no place in a module: it is a kernel without a
/// location, and its flags say nothing else but whether it has hints.
pub open spec fn function_is_plain(f: FunctionTree, version: BytecodeVersion) -> bool {
    &&& f.location == 0
    &&& f.flags == (if f.hints is Some {
        6u8
    } else {
        2u8
    })
    &&& ops_are_plain(f.ops, version)
}

/// A function stands in a module under the number of an operation.
pub open spec fn function_stands(
    m: ModuleModel,
    id: nat,
    f: FunctionTree,
    t: TablesModel,
    version: BytecodeVersion,
) -> bool {
    &&& id < m.ops.len()
    &&& m.ops[id as int].attributes == functions::function_attributes(f.head(t, version))
    &&& m.ops[id as int].regions.len() == 1
    &&& m.ops[id as int].regions[0] < m.regions.len()
    &&& m.regions[m.ops[id as int].regions[0] as int].len() == 1
    &&& m.regions[m.ops[id as int].regions[0] as int][0] < m.blocks.len()
    &&& {
        let block = m.regions[m.ops[id as int].regions[0] as int][0];
        &&& are_of(m, m.blocks[block as int].args, f.inputs)
        &&& ops_stand(
            m,
            m.blocks[block as int].ops,
            f.ops,
            m.blocks[block as int].args,
            version,
            block + 1,
        )
    }
}

/// A function that stands in a module stands in one that has grown.
proof fn function_keeps(
    m: ModuleModel,
    n: ModuleModel,
    id: nat,
    f: FunctionTree,
    t: TablesModel,
    version: BytecodeVersion,
)
    requires
        grown(m, n, -1),
        function_stands(m, id, f, t, version),
    ensures
        function_stands(n, id, f, t, version),
{
    let region = m.ops[id as int].regions[0];
    let block = m.regions[region as int][0];
    assert(n.ops[id as int] == m.ops[id as int]);
    assert(n.regions[region as int] == m.regions[region as int]);
    assert(n.blocks[block as int] == m.blocks[block as int]);
    let x = m.blocks[block as int];
    are_of_keeps(m, n, -1, x.args, f.inputs);
    ops_keep(m, n, -1, x.ops, f.ops, x.args, version, block + 1);
}

/// What a function builds is a module in which it stands, as the last of its functions.
proof fn function_builds(f: FunctionTree, m: ModuleModel, t: TablesModel, version: BytecodeVersion)
    ensures
        ({
            let n = f.built(m, t, version);
            let id = (n.ops.len() - 1) as nat;
            &&& n.ops.len() > 0
            &&& n.functions == m.functions.push(id)
            &&& grown(m, n, -1)
            &&& function_stands(n, id, f, t, version)
        }),
{
    let block = m.blocks.len();
    let region = m.regions.len();
    let entry = functions::entry_state(m, f.inputs);
    let s = Scope { values: entry.values, module: entry.module };
    let none = Scope { values: Seq::empty(), module: m };
    fresh_values_are_in_order(none, f.inputs.len(), s.module);
    assert(none.values + m.fresh_values(f.inputs.len()) =~= s.values);
    assert(grown(m, s.module, -1));
    ops_build(f.ops, s, version, block, block + 1);
    let r = kernel_forms::ops_built(f.ops, s, version, block);
    let n = f.built(m, t, version);
    let id = (n.ops.len() - 1) as nat;
    assert(id == r.module.ops.len());
    assert(grown(m, s.module, block as int));
    grown_on(m, s.module, r.module, block as int);
    assert(grown(r.module, n, -1));
    assert(grown(m, n, -1)) by {
        assert(grown(r.module, n, block as int));
        grown_on(m, r.module, n, block as int);
    }
    let x = r.module.blocks[block as int];
    assert(n.blocks[block as int] == x);
    assert(x.args == s.values);
    assert(x.ops.skip(0) =~= x.ops);
    assert(are_of(s.module, x.args, f.inputs));
    are_of_keeps(s.module, r.module, block as int, x.args, f.inputs);
    are_of_keeps(r.module, n, -1, x.args, f.inputs);
    ops_keep(r.module, n, -1, x.ops, f.ops, x.args, version, block + 1);
    assert(n.ops[id as int].regions == seq![region]);
    assert(s.module.regions[region as int] == seq![block]);
    assert(r.module.regions[region as int] == seq![block]);
}

/// What functions build is a module in which they stand, one behind the other.
proof fn functions_build(
    fs: Seq<FunctionTree>,
    m: ModuleModel,
    t: TablesModel,
    version: BytecodeVersion,
    i: nat,
)
    requires
        i <= fs.len(),
        m.functions.len() == i,
        forall|j: int| 0 <= j < i ==> function_stands(m, #[trigger] m.functions[j], fs[j], t, version),
    ensures
        ({
            let n = module_forms::functions_built(fs, m, t, version, i);
            &&& n.functions.len() == fs.len()
            &&& forall|j: int|
                0 <= j < fs.len() ==> function_stands(
                    n,
                    #[trigger] n.functions[j],
                    fs[j],
                    t,
                    version,
                )
        }),
    decreases fs.len() - i,
{
    if i < fs.len() {
        let f = fs[i as int];
        let n = f.built(m, t, version);
        function_builds(f, m, t, version);
        assert forall|j: int| 0 <= j < i + 1 implies function_stands(
            n,
            #[trigger] n.functions[j],
            fs[j],
            t,
            version,
        ) by {
            if j < i {
                assert(n.functions[j] == m.functions[j]);
                function_keeps(m, n, m.functions[j], fs[j], t, version);
            }
        }
        functions_build(fs, n, t, version, i + 1);
    }
}

/// Two functions that stand at the same place of a module have the same bytes.
proof fn function_tells(
    m: ModuleModel,
    id: nat,
    a: FunctionTree,
    b: FunctionTree,
    t: TablesModel,
    version: BytecodeVersion,
)
    requires
        function_stands(m, id, a, t, version),
        function_stands(m, id, b, t, version),
        a.writable(t, version),
        b.writable(t, version),
        function_is_plain(a, version),
        function_is_plain(b, version),
    ensures
        a.form(t, version) == b.form(t, version),
{
    let x = functions::function_attributes(a.head(t, version));
    let y = functions::function_attributes(b.head(t, version));
    assert(x == y);
    assert(x[0].1->String_0 == y[0].1->String_0);
    assert(x[1].1->Type_0 == y[1].1->Type_0);
    assert(a.signature() == b.signature());
    assert(a.hints is Some <==> x.len() == 3);
    assert(b.hints is Some <==> y.len() == 3);
    if a.hints is Some {
        assert(x[2].1 == y[2].1);
    }
    assert(a.hints == b.hints);
    let region = m.ops[id as int].regions[0];
    let block = m.regions[region as int][0];
    let z = m.blocks[block as int];
    ops_tell(m, z.ops, a.ops, b.ops, z.args, t, version, block + 1);
}

/// Functions that stand at the same places of a module have the same bytes.
proof fn functions_tell(
    m: ModuleModel,
    a: Seq<FunctionTree>,
    b: Seq<FunctionTree>,
    t: TablesModel,
    version: BytecodeVersion,
    i: nat,
)
    requires
        i <= a.len() == b.len() == m.functions.len(),
        forall|j: int|
            0 <= j < a.len() ==> function_stands(m, #[trigger] m.functions[j], a[j], t, version),
        forall|j: int|
            0 <= j < b.len() ==> function_stands(m, #[trigger] m.functions[j], b[j], t, version),
        forall|j: int| 0 <= j < a.len() ==> (#[trigger] a[j]).writable(t, version),
        forall|j: int| 0 <= j < b.len() ==> (#[trigger] b[j]).writable(t, version),
        forall|j: int| 0 <= j < a.len() ==> function_is_plain(#[trigger] a[j], version),
        forall|j: int| 0 <= j < b.len() ==> function_is_plain(#[trigger] b[j], version),
    ensures
        module_forms::functions_form(a, t, version, i) == module_forms::functions_form(
            b,
            t,
            version,
            i,
        ),
    decreases a.len() - i,
{
    if i < a.len() {
        let id = m.functions[i as int];
        assert(function_stands(m, id, a[i as int], t, version));
        assert(function_stands(m, id, b[i as int], t, version));
        function_tells(m, id, a[i as int], b[i as int], t, version);
        functions_tell(m, a, b, t, version, i + 1);
    }
}

/// Nothing of a module is written that has no place in what is decoded of it.
pub open spec fn is_plain(image: ModuleImage) -> bool {
    forall|i: int|
        0 <= i < image.functions.len() ==> function_is_plain(
            #[trigger] image.functions[i],
            image.version,
        )
}

/// Two modules are laid out alike: their sections have the same numbers and alignments in
/// the same order, and the same payloads but for those that hold their functions.
pub open spec fn laid_out_alike(a: ModuleImage, b: ModuleImage) -> bool {
    &&& a.sections.len() == b.sections.len()
    &&& forall|i: int|
        0 <= i < a.sections.len() ==> {
            let x = #[trigger] a.sections[i];
            let y = b.sections[i];
            &&& x.id == y.id
            &&& x.alignment == y.alignment
            &&& x.payload == y.payload || x.payload == a.function_payload() && y.payload
                == b.function_payload()
        }
}

/// What is decoded of a buffer, written anew in the version of the buffer, is the buffer:
/// two modules of one version, with the same tables and laid out alike, that are decoded
/// into the same module have the same bytes.
pub proof fn the_module_tells_its_bytes(a: ModuleImage, b: ModuleImage)
    requires
        a.writable(),
        b.writable(),
        is_plain(a),
        is_plain(b),
        a.version == b.version,
        a.tables == b.tables,
        laid_out_alike(a, b),
        decoder::module_of(a.form()) == decoder::module_of(b.form()),
    ensures
        a.form() == b.form(),
{
    let none = ModuleModel::empty("module"@);
    let t = a.tables;
    let version = a.version;
    module_forms::module_round_trip(a, Seq::empty());
    module_forms::module_round_trip(b, Seq::empty());
    assert(a.form() + Seq::<u8>::empty() =~= a.form());
    assert(b.form() + Seq::<u8>::empty() =~= b.form());
    let m = a.built();
    assert(m == b.built());
    functions_build(a.functions, none, t, version, 0);
    functions_build(b.functions, none, t, version, 0);
    functions_tell(m, a.functions, b.functions, t, version, 0);
    assert(a.function_payload() == b.function_payload());
    assert forall|i: int| 0 <= i < a.sections.len() implies a.sections[i] == b.sections[i] by {
        let x = a.sections[i];
        assert(x.id == b.sections[i].id);
    }
    assert(a.sections =~= b.sections);
}

/// How a module is written in a version.
pub type Writing = spec_fn(ModuleModel, BytecodeVersion) -> ModuleImage;

/// A module can be written in a version, by its operations alone.
pub open spec fn writes(w: Writing, m: ModuleModel, version: BytecodeVersion) -> bool {
    &&& w(m, version).writable()
    &&& is_plain(w(m, version))
    &&& w(m, version).version == version
}

/// Decoding and writing undo one another. What is written of a module in a version is
/// decoded into the module that it builds, and is known to be of that version; and where
/// what was decoded is written as a module that builds it, with the tables and the layout
/// that the buffer had, the buffer comes out again, byte for byte.
pub proof fn decoding_undoes_writing(w: Writing, m: ModuleModel, version: BytecodeVersion)
    requires
        writes(w, m, version),
        ({
            let first = w(m, version);
            let again = w(first.built(), version);
            &&& writes(w, first.built(), version)
            &&& again.built() == first.built()
            &&& again.tables == first.tables
            &&& laid_out_alike(first, again)
        }),
    ensures
        decoder::module_of(w(m, version).form()) == Ok::<ModuleModel, DecodeError>(
            w(m, version).built(),
        ),
        reader::header_at(w(m, version).form(), 0).0 == Ok::<BytecodeVersion, DecodeError>(version),
        w(w(m, version).built(), version).form() == w(m, version).form(),
{
    let first = w(m, version);
    let again = w(first.built(), version);
    module_forms::module_round_trip(first, Seq::empty());
    module_forms::module_round_trip(again, Seq::empty());
    assert(first.form() + Seq::<u8>::empty() =~= first.form());
    assert(again.form() + Seq::<u8>::empty() =~= again.form());
    the_module_tells_its_bytes(first, again);
}

} // verus!
