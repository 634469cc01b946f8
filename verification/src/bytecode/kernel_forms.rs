//! The byte forms of operations with their regions, and what the reader builds of them.
//!
//! A kernel is written as trees of operations. An operand is written as its place among
//! the values in scope: the arguments of the enclosing blocks and the results of the
//! operations before it. What is read back is the module that the trees build, without
//! regard to bytes.

use vstd::prelude::*;

use crate::bytecode::attribute_forms;
use crate::bytecode::attributes::TablesModel;
use crate::bytecode::encoding;
use crate::bytecode::enums::BytecodeVersion;
use crate::bytecode::op_forms;
use crate::bytecode::op_forms::OpImage;
use crate::bytecode::opcode;
use crate::bytecode::opcode::Opcode;
use crate::bytecode::ops;
use crate::bytecode::ops::{BodyState, OpFields};
use crate::bytecode::reader;
use crate::bytecode::type_forms;
use crate::error::DecodeError;
use crate::ir::{ModuleModel, TypeModel};

verus! {

/// An operation and its regions; a region is a list of blocks.
pub struct OpTree {
    pub op: OpImage,
    pub regions: Seq<Seq<BlockTree>>,
}

/// A block: the types of its arguments, and its operations.
pub struct BlockTree {
    pub arg_types: Seq<TypeModel>,
    pub ops: Seq<OpTree>,
}

/// The values in scope, and the module that is built.
#[verifier::ext_equal]
pub struct Scope {
    pub values: Seq<nat>,
    pub module: ModuleModel,
}

/// A scope at a position of a body.
pub open spec fn in_body(s: Scope, pos: int) -> BodyState {
    BodyState { pos, values: s.values, module: s.module }
}

/// An operation is put at the end of a block, and its results are in scope.
pub open spec fn finished(
    op: Opcode,
    fields: OpFields,
    regions: Seq<nat>,
    s: Scope,
    block: nat,
) -> Scope {
    let f = ops::finish_op(op, fields, regions, in_body(s, 0), block);
    Scope { values: f.values, module: f.module }
}

/// What an operation builds, at the end of a block.
pub open spec fn op_built(o: OpTree, s: Scope, version: BytecodeVersion, block: nat) -> Scope
    decreases o, 0int,
{
    let (regions, r) = regions_built(o.regions, s, version, Seq::empty());
    finished(o.op.opcode, o.op.fields(s.values, version), regions, r, block)
}

/// What regions build: their numbers behind those in `acc`, and the scope.
pub open spec fn regions_built(
    rs: Seq<Seq<BlockTree>>,
    s: Scope,
    version: BytecodeVersion,
    acc: Seq<nat>,
) -> (Seq<nat>, Scope)
    decreases rs, 1int,
{
    if rs.len() == 0 {
        (acc, s)
    } else {
        let (id, r) = region_built(rs[0], s, version);
        regions_built(rs.skip(1), r, version, acc.push(id))
    }
}

/// What a region builds: its number, and the scope.
pub open spec fn region_built(bs: Seq<BlockTree>, s: Scope, version: BytecodeVersion) -> (nat, Scope)
    decreases bs, 2int,
{
    let (blocks, r) = blocks_built(bs, s, version, Seq::empty());
    (r.module.regions.len(), Scope { module: r.module.with_region(blocks), ..r })
}

/// What blocks build: their numbers behind those in `acc`, and the scope.
pub open spec fn blocks_built(
    bs: Seq<BlockTree>,
    s: Scope,
    version: BytecodeVersion,
    acc: Seq<nat>,
) -> (Seq<nat>, Scope)
    decreases bs, 1int,
{
    if bs.len() == 0 {
        (acc, s)
    } else {
        let (id, r) = block_built(bs[0], s, version);
        blocks_built(bs.skip(1), r, version, acc.push(id))
    }
}

/// The scope inside a block: its arguments are new values.
pub open spec fn entered(arg_types: Seq<TypeModel>, s: Scope) -> Scope {
    Scope {
        values: s.values + s.module.fresh_values(arg_types.len()),
        module: s.module.with_block(arg_types),
    }
}

/// What a block builds: its number, and the scope. What it defines is in scope up to
/// its end.
pub open spec fn block_built(b: BlockTree, s: Scope, version: BytecodeVersion) -> (nat, Scope)
    decreases b, 0int,
{
    let block = s.module.blocks.len();
    let r = ops_built(b.ops, entered(b.arg_types, s), version, block);
    (block, Scope { values: r.values.take(s.values.len() as int), ..r })
}

/// What operations build, at the end of a block.
pub open spec fn ops_built(os: Seq<OpTree>, s: Scope, version: BytecodeVersion, block: nat) -> Scope
    decreases os, 1int,
{
    if os.len() == 0 {
        s
    } else {
        ops_built(os.skip(1), op_built(os[0], s, version, block), version, block)
    }
}

/// The form of an operation behind its code.
pub open spec fn op_tail_form(o: OpTree, t: TablesModel, version: BytecodeVersion) -> Seq<u8>
    decreases o, 0int,
{
    if ops::has_regions(o.op.opcode) {
        o.op.form(t, version) + (encoding::varint_form(o.regions.len()) + regions_form(
            o.regions,
            t,
            version,
        ))
    } else {
        o.op.form(t, version)
    }
}

/// The form of regions one behind the other.
pub open spec fn regions_form(
    rs: Seq<Seq<BlockTree>>,
    t: TablesModel,
    version: BytecodeVersion,
) -> Seq<u8>
    decreases rs, 1int,
{
    if rs.len() == 0 {
        Seq::empty()
    } else {
        region_form(rs[0], t, version) + regions_form(rs.skip(1), t, version)
    }
}

/// The form of a region: a count and as many blocks.
pub open spec fn region_form(bs: Seq<BlockTree>, t: TablesModel, version: BytecodeVersion) -> Seq<u8>
    decreases bs, 2int,
{
    encoding::varint_form(bs.len()) + blocks_form(bs, t, version)
}

/// The form of blocks one behind the other.
pub open spec fn blocks_form(bs: Seq<BlockTree>, t: TablesModel, version: BytecodeVersion) -> Seq<u8>
    decreases bs, 1int,
{
    if bs.len() == 0 {
        Seq::empty()
    } else {
        block_form(bs[0], t, version) + blocks_form(bs.skip(1), t, version)
    }
}

/// The form of a block: the types of its arguments, and its operations.
pub open spec fn block_form(b: BlockTree, t: TablesModel, version: BytecodeVersion) -> Seq<u8>
    decreases b, 0int,
{
    type_forms::var_type_refs_form(b.arg_types, t.types) + (encoding::varint_form(b.ops.len())
        + ops_form(b.ops, t, version))
}

/// The form of operations with their codes, one behind the other.
pub open spec fn ops_form(os: Seq<OpTree>, t: TablesModel, version: BytecodeVersion) -> Seq<u8>
    decreases os, 1int,
{
    if os.len() == 0 {
        Seq::empty()
    } else {
        encoding::varint_form(os[0].op.opcode.spec_code() as nat) + op_tail_form(
            os[0],
            t,
            version,
        ) + ops_form(os.skip(1), t, version)
    }
}

/// An operation can be written where `scope` values are in scope.
pub open spec fn op_writable(
    o: OpTree,
    scope: nat,
    t: TablesModel,
    version: BytecodeVersion,
) -> bool
    decreases o, 0int,
{
    &&& o.op.writable(scope, t, version)
    &&& o.regions.len() <= u64::MAX
    &&& o.regions.len() > 0 ==> ops::has_regions(o.op.opcode)
    &&& regions_writable(o.regions, scope, t, version)
}

/// Each of the regions can be written.
pub open spec fn regions_writable(
    rs: Seq<Seq<BlockTree>>,
    scope: nat,
    t: TablesModel,
    version: BytecodeVersion,
) -> bool
    decreases rs, 1int,
{
    rs.len() > 0 ==> region_writable(rs[0], scope, t, version) && regions_writable(
        rs.skip(1),
        scope,
        t,
        version,
    )
}

/// A region can be written.
pub open spec fn region_writable(
    bs: Seq<BlockTree>,
    scope: nat,
    t: TablesModel,
    version: BytecodeVersion,
) -> bool
    decreases bs, 2int,
{
    bs.len() <= u64::MAX && blocks_writable(bs, scope, t, version)
}

/// Each of the blocks can be written.
pub open spec fn blocks_writable(
    bs: Seq<BlockTree>,
    scope: nat,
    t: TablesModel,
    version: BytecodeVersion,
) -> bool
    decreases bs, 1int,
{
    bs.len() > 0 ==> block_writable(bs[0], scope, t, version) && blocks_writable(
        bs.skip(1),
        scope,
        t,
        version,
    )
}

/// A block can be written.
pub open spec fn block_writable(
    b: BlockTree,
    scope: nat,
    t: TablesModel,
    version: BytecodeVersion,
) -> bool
    decreases b, 0int,
{
    &&& type_forms::all_among(b.arg_types, t.types)
    &&& b.arg_types.len() <= u64::MAX
    &&& b.ops.len() <= u64::MAX
    &&& ops_writable(b.ops, scope + b.arg_types.len(), t, version)
}

/// Each of the operations can be written where the results of those before it are in
/// scope.
pub open spec fn ops_writable(
    os: Seq<OpTree>,
    scope: nat,
    t: TablesModel,
    version: BytecodeVersion,
) -> bool
    decreases os, 1int,
{
    os.len() > 0 ==> op_writable(os[0], scope, t, version) && ops_writable(
        os.skip(1),
        scope + os[0].op.result_types.len(),
        t,
        version,
    )
}

/// A scope begins with the values of another.
pub open spec fn extends(s: Scope, base: Scope) -> bool {
    s.values.len() >= base.values.len() && s.values.take(base.values.len() as int) == base.values
}

/// An operation brings its results into scope and nothing else.
pub proof fn op_built_scope(o: OpTree, s: Scope, version: BytecodeVersion, block: nat)
    ensures
        extends(op_built(o, s, version, block), s),
        op_built(o, s, version, block).values.len() == s.values.len() + o.op.result_types.len(),
    decreases o, 0int,
{
    regions_built_scope(o.regions, s, version, Seq::empty());
    let r = regions_built(o.regions, s, version, Seq::empty()).1;
    let fresh = r.module.fresh_values(o.op.result_types.len());
    assert(op_built(o, s, version, block).values == s.values + fresh);
    assert((s.values + fresh).take(s.values.len() as int) =~= s.values);
}

/// Regions leave the values in scope as they are.
pub proof fn regions_built_scope(
    rs: Seq<Seq<BlockTree>>,
    s: Scope,
    version: BytecodeVersion,
    acc: Seq<nat>,
)
    ensures
        regions_built(rs, s, version, acc).1.values == s.values,
    decreases rs, 1int,
{
    if rs.len() > 0 {
        blocks_built_scope(rs[0], s, version, Seq::empty());
        let (id, r) = region_built(rs[0], s, version);
        regions_built_scope(rs.skip(1), r, version, acc.push(id));
    }
}

/// Blocks leave the values in scope as they are.
pub proof fn blocks_built_scope(
    bs: Seq<BlockTree>,
    s: Scope,
    version: BytecodeVersion,
    acc: Seq<nat>,
)
    ensures
        blocks_built(bs, s, version, acc).1.values == s.values,
    decreases bs, 1int,
{
    if bs.len() > 0 {
        block_built_scope(bs[0], s, version);
        let (id, r) = block_built(bs[0], s, version);
        blocks_built_scope(bs.skip(1), r, version, acc.push(id));
    }
}

/// A block leaves the values in scope as they are.
pub proof fn block_built_scope(b: BlockTree, s: Scope, version: BytecodeVersion)
    ensures
        block_built(b, s, version).1.values == s.values,
    decreases b, 0int,
{
    let inner = entered(b.arg_types, s);
    let block = s.module.blocks.len();
    ops_built_scope(b.ops, inner, version, block);
    let r = ops_built(b.ops, inner, version, block);
    assert(inner.values.take(s.values.len() as int) =~= s.values);
    assert(r.values.take(s.values.len() as int) =~= r.values.take(
        inner.values.len() as int,
    ).take(s.values.len() as int));
}

/// Operations bring values into scope and take none out.
proof fn ops_built_scope(os: Seq<OpTree>, s: Scope, version: BytecodeVersion, block: nat)
    ensures
        extends(ops_built(os, s, version, block), s),
    decreases os, 1int,
{
    if os.len() == 0 {
        assert(s.values.take(s.values.len() as int) =~= s.values);
    } else {
        op_built_scope(os[0], s, version, block);
        let next = op_built(os[0], s, version, block);
        ops_built_scope(os.skip(1), next, version, block);
        let end = ops_built(os, s, version, block);
        assert(end.values.take(s.values.len() as int) =~= end.values.take(
            next.values.len() as int,
        ).take(s.values.len() as int));
    }
}

/// The form of a number takes at least one byte.
proof fn varint_form_is_not_empty(v: nat)
    ensures
        encoding::varint_form(v).len() > 0,
{
}

/// An operation is read back: what is built of its bytes is what the tree builds.
pub proof fn op_round_trip(
    d: Seq<u8>,
    p: int,
    o: OpTree,
    s: Scope,
    t: TablesModel,
    version: BytecodeVersion,
    block: nat,
)
    requires
        encoding::holds(d, p, op_tail_form(o, t, version)),
        op_writable(o, s.values.len(), t, version),
        attribute_forms::tables_fit(t),
    ensures
        ops::op_at(o.op.opcode, d, in_body(s, p), t, version, block) == (
            Ok::<(), DecodeError>(()),
            in_body(op_built(o, s, version, block), p + op_tail_form(o, t, version).len()),
        ),
    decreases o, 0int,
{
    let fields = o.op.form(t, version);
    if ops::has_regions(o.op.opcode) {
        let count = encoding::varint_form(o.regions.len());
        let rest = count + regions_form(o.regions, t, version);
        encoding::holds_split(d, p, fields, rest);
        op_forms::op_fields_round_trip(d, p, o.op, t, version, s.values);
        let q = p + fields.len();
        encoding::holds_split(d, q, count, regions_form(o.regions, t, version));
        encoding::varint_round_trip(d, q, o.regions.len() as u64);
        regions_round_trip(d, q + count.len(), o.regions, s, t, version, Seq::empty());
    } else {
        op_forms::op_fields_round_trip(d, p, o.op, t, version, s.values);
        assert(regions_built(o.regions, s, version, Seq::empty()) == (Seq::<nat>::empty(), s));
    }
}

/// Regions are read back, behind those read before them.
proof fn regions_round_trip(
    d: Seq<u8>,
    p: int,
    rs: Seq<Seq<BlockTree>>,
    s: Scope,
    t: TablesModel,
    version: BytecodeVersion,
    acc: Seq<nat>,
)
    requires
        encoding::holds(d, p, regions_form(rs, t, version)),
        regions_writable(rs, s.values.len(), t, version),
        attribute_forms::tables_fit(t),
    ensures
        ops::region_list_at(d, in_body(s, p), t, version, rs.len(), acc) == (
            Ok::<Seq<nat>, DecodeError>(regions_built(rs, s, version, acc).0),
            in_body(
                regions_built(rs, s, version, acc).1,
                p + regions_form(rs, t, version).len(),
            ),
        ),
    decreases rs, 1int,
{
    if rs.len() > 0 {
        let first = region_form(rs[0], t, version);
        encoding::holds_split(d, p, first, regions_form(rs.skip(1), t, version));
        region_round_trip(d, p, rs[0], s, t, version);
        varint_form_is_not_empty(rs[0].len());
        blocks_built_scope(rs[0], s, version, Seq::empty());
        let (id, r) = region_built(rs[0], s, version);
        regions_round_trip(d, p + first.len(), rs.skip(1), r, t, version, acc.push(id));
    }
}

/// A region is read back.
proof fn region_round_trip(
    d: Seq<u8>,
    p: int,
    bs: Seq<BlockTree>,
    s: Scope,
    t: TablesModel,
    version: BytecodeVersion,
)
    requires
        encoding::holds(d, p, region_form(bs, t, version)),
        region_writable(bs, s.values.len(), t, version),
        attribute_forms::tables_fit(t),
    ensures
        ops::region_at(d, in_body(s, p), t, version) == (
            Ok::<nat, DecodeError>(region_built(bs, s, version).0),
            in_body(region_built(bs, s, version).1, p + region_form(bs, t, version).len()),
        ),
    decreases bs, 2int,
{
    let count = encoding::varint_form(bs.len());
    encoding::holds_split(d, p, count, blocks_form(bs, t, version));
    encoding::varint_round_trip(d, p, bs.len() as u64);
    blocks_round_trip(d, p + count.len(), bs, s, t, version, Seq::empty());
}

/// Blocks are read back, behind those read before them.
proof fn blocks_round_trip(
    d: Seq<u8>,
    p: int,
    bs: Seq<BlockTree>,
    s: Scope,
    t: TablesModel,
    version: BytecodeVersion,
    acc: Seq<nat>,
)
    requires
        encoding::holds(d, p, blocks_form(bs, t, version)),
        blocks_writable(bs, s.values.len(), t, version),
        attribute_forms::tables_fit(t),
    ensures
        ops::block_list_at(d, in_body(s, p), t, version, bs.len(), acc) == (
            Ok::<Seq<nat>, DecodeError>(blocks_built(bs, s, version, acc).0),
            in_body(blocks_built(bs, s, version, acc).1, p + blocks_form(bs, t, version).len()),
        ),
    decreases bs, 1int,
{
    if bs.len() > 0 {
        let first = block_form(bs[0], t, version);
        encoding::holds_split(d, p, first, blocks_form(bs.skip(1), t, version));
        block_round_trip(d, p, bs[0], s, t, version);
        varint_form_is_not_empty(bs[0].arg_types.len());
        block_built_scope(bs[0], s, version);
        let (id, r) = block_built(bs[0], s, version);
        blocks_round_trip(d, p + first.len(), bs.skip(1), r, t, version, acc.push(id));
    }
}

/// A block is read back.
proof fn block_round_trip(
    d: Seq<u8>,
    p: int,
    b: BlockTree,
    s: Scope,
    t: TablesModel,
    version: BytecodeVersion,
)
    requires
        encoding::holds(d, p, block_form(b, t, version)),
        block_writable(b, s.values.len(), t, version),
        attribute_forms::tables_fit(t),
    ensures
        ops::block_at(d, in_body(s, p), t, version) == (
            Ok::<nat, DecodeError>(block_built(b, s, version).0),
            in_body(block_built(b, s, version).1, p + block_form(b, t, version).len()),
        ),
    decreases b, 0int,
{
    let args = type_forms::var_type_refs_form(b.arg_types, t.types);
    let count = encoding::varint_form(b.ops.len());
    let rest = count + ops_form(b.ops, t, version);
    encoding::holds_split(d, p, args, rest);
    type_forms::var_type_refs_round_trip(
        d,
        p,
        b.arg_types,
        t.types,
        DecodeError::ResultTypeIndex,
    );
    let q = p + args.len();
    encoding::holds_split(d, q, count, ops_form(b.ops, t, version));
    encoding::varint_round_trip(d, q, b.ops.len() as u64);
    ops_round_trip(
        d,
        q + count.len(),
        b.ops,
        entered(b.arg_types, s),
        t,
        version,
        s.module.blocks.len(),
    );
}

/// Operations are read back.
proof fn ops_round_trip(
    d: Seq<u8>,
    p: int,
    os: Seq<OpTree>,
    s: Scope,
    t: TablesModel,
    version: BytecodeVersion,
    block: nat,
)
    requires
        encoding::holds(d, p, ops_form(os, t, version)),
        ops_writable(os, s.values.len(), t, version),
        attribute_forms::tables_fit(t),
    ensures
        ops::op_list_at(d, in_body(s, p), t, version, os.len(), block) == (
            Ok::<(), DecodeError>(()),
            in_body(ops_built(os, s, version, block), p + ops_form(os, t, version).len()),
        ),
    decreases os, 1int,
{
    if os.len() > 0 {
        let code = encoding::varint_form(os[0].op.opcode.spec_code() as nat);
        let tail = op_tail_form(os[0], t, version);
        encoding::holds_split(d, p, code + tail, ops_form(os.skip(1), t, version));
        encoding::holds_split(d, p, code, tail);
        encoding::varint_round_trip(d, p, os[0].op.opcode.spec_code() as u64);
        varint_form_is_not_empty(os[0].op.opcode.spec_code() as nat);
        code_round_trip(os[0].op.opcode);
        op_round_trip(d, p + code.len(), os[0], s, t, version, block);
        op_built_scope(os[0], s, version, block);
        let next = op_built(os[0], s, version, block);
        ops_round_trip(d, p + (code + tail).len(), os.skip(1), next, t, version, block);
    }
}

/// The code of an operation is read back.
proof fn code_round_trip(op: Opcode)
    ensures
        opcode::opcode_of(ops::code_of(op.spec_code() as u64)) == Some(op),
{
    opcode::opcode_codes_are_faithful(op, op.spec_code());
}

/// The operations of a function body are read back, up to the end of the body.
pub proof fn body_round_trip(
    d: Seq<u8>,
    p: int,
    os: Seq<OpTree>,
    s: Scope,
    t: TablesModel,
    version: BytecodeVersion,
    block: nat,
)
    requires
        encoding::holds(d, p, ops_form(os, t, version)),
        p + ops_form(os, t, version).len() == d.len(),
        ops_writable(os, s.values.len(), t, version),
        attribute_forms::tables_fit(t),
    ensures
        ops::body_at(d, in_body(s, p), t, version, block) == (
            Ok::<(), DecodeError>(()),
            in_body(ops_built(os, s, version, block), d.len() as int),
        ),
    decreases os.len(),
{
    if os.len() > 0 {
        let code = encoding::varint_form(os[0].op.opcode.spec_code() as nat);
        let tail = op_tail_form(os[0], t, version);
        encoding::holds_split(d, p, code + tail, ops_form(os.skip(1), t, version));
        encoding::holds_split(d, p, code, tail);
        encoding::varint_round_trip(d, p, os[0].op.opcode.spec_code() as u64);
        varint_form_is_not_empty(os[0].op.opcode.spec_code() as nat);
        code_round_trip(os[0].op.opcode);
        op_round_trip(d, p + code.len(), os[0], s, t, version, block);
        op_built_scope(os[0], s, version, block);
        let next = op_built(os[0], s, version, block);
        body_round_trip(d, p + (code + tail).len(), os.skip(1), next, t, version, block);
    }
}

} // verus!
