//! What a kernel that is written in one version has to do with the same kernel in a later
//! version.
//!
//! Some operations have got an attribute in the course of the versions. Where it has its
//! default, it is not among the attributes of the operation that is read, so the operation
//! is the one that is read of the older form, which has no such attribute.

use vstd::prelude::*;

use crate::bytecode::attributes::TablesModel;
use crate::bytecode::decoder;
use crate::bytecode::encoding;
use crate::bytecode::enums::BytecodeVersion;
use crate::bytecode::functions;
use crate::bytecode::kernel_forms;
use crate::bytecode::kernel_forms::{BlockTree, OpTree, Scope};
use crate::bytecode::module_forms;
use crate::bytecode::module_forms::{FunctionTree, ModuleImage};
use crate::bytecode::moves;
use crate::bytecode::op_forms;
use crate::bytecode::op_forms::{AttrValues, Layout, OpImage};
use crate::bytecode::opcode::Opcode;
use crate::bytecode::ops;
use crate::bytecode::reader;
use crate::error::DecodeError;
use crate::ir::ModuleModel;

verus! {

/// The default of the attribute that an operation has got: what is written in a version
/// that has it and stands for a form without it. It is a number in all cases: a rounding
/// mode, an overflow mode, flags, or the count that stands before a text.
pub open spec fn added_default(op: Opcode) -> u64 {
    match op {
        Opcode::TanH | Opcode::Exp => 5,
        _ => 0,
    }
}

/// The layout of an operation changes from one version to another: it gets an attribute.
pub open spec fn gets_attribute(op: Opcode, from: BytecodeVersion, to: BytecodeVersion) -> bool {
    op_forms::layout_of(op, from) != op_forms::layout_of(op, to)
}

/// The values of the attributes of an operation in a later version: those that it had, and
/// the default of the one that it got.
pub open spec fn raised_values(
    op: Opcode,
    v: AttrValues,
    from: BytecodeVersion,
    to: BytecodeVersion,
) -> AttrValues {
    if !gets_attribute(op, from, to) {
        v
    } else {
        match (op_forms::layout_of(op, to), v) {
            (Layout::Defaulted { default, .. }, _) => AttrValues::Ints {
                flags: 0,
                ints: seq![default],
            },
            (Layout::Ints { .. }, _) => AttrValues::Ints { flags: 0, ints: Seq::empty() },
            (_, AttrValues::Text { text, .. }) => AttrValues::Text { prefix: 0, text },
            (_, v) => v,
        }
    }
}

/// An operation in a later version.
pub open spec fn raised_image(o: OpImage, from: BytecodeVersion, to: BytecodeVersion) -> OpImage {
    OpImage { attributes: raised_values(o.opcode, o.attributes, from, to), ..o }
}

/// An operation with its regions in a later version.
pub open spec fn raised(o: OpTree, from: BytecodeVersion, to: BytecodeVersion) -> OpTree
    decreases o, 0int,
{
    OpTree {
        op: raised_image(o.op, from, to),
        regions: raised_regions(o.regions, from, to),
    }
}

/// Regions in a later version.
pub open spec fn raised_regions(
    rs: Seq<Seq<BlockTree>>,
    from: BytecodeVersion,
    to: BytecodeVersion,
) -> Seq<Seq<BlockTree>>
    decreases rs, 1int,
{
    if rs.len() == 0 {
        Seq::empty()
    } else {
        seq![raised_blocks(rs[0], from, to)] + raised_regions(rs.skip(1), from, to)
    }
}

/// Blocks in a later version.
pub open spec fn raised_blocks(
    bs: Seq<BlockTree>,
    from: BytecodeVersion,
    to: BytecodeVersion,
) -> Seq<BlockTree>
    decreases bs, 1int,
{
    if bs.len() == 0 {
        Seq::empty()
    } else {
        seq![raised_block(bs[0], from, to)] + raised_blocks(bs.skip(1), from, to)
    }
}

/// A block in a later version.
pub open spec fn raised_block(b: BlockTree, from: BytecodeVersion, to: BytecodeVersion) -> BlockTree
    decreases b, 0int,
{
    BlockTree { arg_types: b.arg_types, ops: raised_ops(b.ops, from, to) }
}

/// Operations in a later version.
pub open spec fn raised_ops(os: Seq<OpTree>, from: BytecodeVersion, to: BytecodeVersion) -> Seq<
    OpTree,
>
    decreases os, 1int,
{
    if os.len() == 0 {
        Seq::empty()
    } else {
        seq![raised(os[0], from, to)] + raised_ops(os.skip(1), from, to)
    }
}

/// A function in a later version.
pub open spec fn raised_function(
    f: FunctionTree,
    from: BytecodeVersion,
    to: BytecodeVersion,
) -> FunctionTree {
    FunctionTree { ops: raised_ops(f.ops, from, to), ..f }
}

/// Functions in a later version.
pub open spec fn raised_functions(
    fs: Seq<FunctionTree>,
    from: BytecodeVersion,
    to: BytecodeVersion,
) -> Seq<FunctionTree> {
    Seq::new(fs.len(), |i: int| raised_function(fs[i], from, to))
}

/// The operations that get an attribute, and what they are without it.
proof fn added_attributes(op: Opcode, from: BytecodeVersion, to: BytecodeVersion)
    requires
        from.rank() <= to.rank(),
        gets_attribute(op, from, to),
    ensures
        op is NegI || op is TanH || op is Exp || op is MmaF || op is For || op is Print,
        op is Print ==> op_forms::layout_of(op, from) == (Layout::Text {
            name: "str"@,
            prefixed: false,
        }) && op_forms::layout_of(op, to) == (Layout::Text { name: "str"@, prefixed: true }),
        !(op is Print) ==> op_forms::layout_of(op, from) == op_forms::no_layout(),
        op is NegI || op is TanH || op is Exp ==> (op_forms::layout_of(
            op,
            to,
        ) matches Layout::Defaulted { default, .. } && default == added_default(op)),
        op is MmaF || op is For ==> (op_forms::layout_of(op, to) matches Layout::Ints {
            flagged,
            names,
            flags,
        } && flagged && names.len() == 0 && flags.len() == 1),
{
    let a = op_forms::layout_of(op, from);
    let b = op_forms::layout_of(op, to);
    if !(op is NegI || op is TanH || op is Exp || op is MmaF || op is For || op is Print) {
        assert(a == b);
    }
}

/// An operation can be written in a later version where it can be written in an earlier
/// one, and is the same operation to the reader.
proof fn raised_image_is_the_same(
    o: OpImage,
    values: Seq<nat>,
    t: TablesModel,
    from: BytecodeVersion,
    to: BytecodeVersion,
)
    requires
        from.rank() <= to.rank(),
        o.writable(values.len(), t, from),
    ensures
        raised_image(o, from, to).writable(values.len(), t, to),
        raised_image(o, from, to).fields(values, to) == o.fields(values, from),
{
    if gets_attribute(o.opcode, from, to) {
        added_attributes(o.opcode, from, to);
        let r = raised_image(o, from, to);
        assert(r.flags(to) == 0);
        assert(o.flags(from) == 0);
        let a = op_forms::attributes_of(
            op_forms::layout_of(o.opcode, from),
            o.attributes,
            o.result_types,
        );
        let b = op_forms::attributes_of(
            op_forms::layout_of(o.opcode, to),
            r.attributes,
            o.result_types,
        );
        assert(a =~= b);
    }
}

/// An operation in a later version can be written and builds what it did.
proof fn raised_op_builds_the_same(
    o: OpTree,
    s: Scope,
    t: TablesModel,
    from: BytecodeVersion,
    to: BytecodeVersion,
    block: nat,
)
    requires
        from.rank() <= to.rank(),
        kernel_forms::op_writable(o, s.values.len(), t, from),
    ensures
        kernel_forms::op_writable(raised(o, from, to), s.values.len(), t, to),
        kernel_forms::op_built(raised(o, from, to), s, to, block) == kernel_forms::op_built(
            o,
            s,
            from,
            block,
        ),
    decreases o, 0int,
{
    raised_image_is_the_same(o.op, s.values, t, from, to);
    raised_regions_build_the_same(o.regions, s, t, from, to, Seq::empty());
}

/// Regions in a later version can be written and build what they did.
proof fn raised_regions_build_the_same(
    rs: Seq<Seq<BlockTree>>,
    s: Scope,
    t: TablesModel,
    from: BytecodeVersion,
    to: BytecodeVersion,
    acc: Seq<nat>,
)
    requires
        from.rank() <= to.rank(),
        kernel_forms::regions_writable(rs, s.values.len(), t, from),
    ensures
        raised_regions(rs, from, to).len() == rs.len(),
        kernel_forms::regions_writable(raised_regions(rs, from, to), s.values.len(), t, to),
        kernel_forms::regions_built(raised_regions(rs, from, to), s, to, acc)
            == kernel_forms::regions_built(rs, s, from, acc),
    decreases rs, 1int,
{
    if rs.len() > 0 {
        let r = raised_regions(rs, from, to);
        assert(kernel_forms::region_writable(rs[0], s.values.len(), t, from));
        raised_blocks_build_the_same(rs[0], s, t, from, to, Seq::empty());
        assert(r[0] == raised_blocks(rs[0], from, to));
        assert(kernel_forms::region_writable(r[0], s.values.len(), t, to));
        assert(kernel_forms::region_built(r[0], s, to) == kernel_forms::region_built(
            rs[0],
            s,
            from,
        ));
        assert(r.skip(1) =~= raised_regions(rs.skip(1), from, to));
        kernel_forms::blocks_built_scope(rs[0], s, from, Seq::empty());
        let (id, next) = kernel_forms::region_built(rs[0], s, from);
        raised_regions_build_the_same(rs.skip(1), next, t, from, to, acc.push(id));
    }
}

/// Blocks in a later version can be written and build what they did.
proof fn raised_blocks_build_the_same(
    bs: Seq<BlockTree>,
    s: Scope,
    t: TablesModel,
    from: BytecodeVersion,
    to: BytecodeVersion,
    acc: Seq<nat>,
)
    requires
        from.rank() <= to.rank(),
        kernel_forms::blocks_writable(bs, s.values.len(), t, from),
    ensures
        raised_blocks(bs, from, to).len() == bs.len(),
        kernel_forms::blocks_writable(raised_blocks(bs, from, to), s.values.len(), t, to),
        kernel_forms::blocks_built(raised_blocks(bs, from, to), s, to, acc)
            == kernel_forms::blocks_built(bs, s, from, acc),
    decreases bs, 1int,
{
    if bs.len() > 0 {
        let r = raised_blocks(bs, from, to);
        raised_block_builds_the_same(bs[0], s, t, from, to);
        assert(r[0] == raised_block(bs[0], from, to));
        assert(r.skip(1) =~= raised_blocks(bs.skip(1), from, to));
        kernel_forms::block_built_scope(bs[0], s, from);
        let (id, next) = kernel_forms::block_built(bs[0], s, from);
        raised_blocks_build_the_same(bs.skip(1), next, t, from, to, acc.push(id));
    }
}

/// A block in a later version can be written and builds what it did.
proof fn raised_block_builds_the_same(
    b: BlockTree,
    s: Scope,
    t: TablesModel,
    from: BytecodeVersion,
    to: BytecodeVersion,
)
    requires
        from.rank() <= to.rank(),
        kernel_forms::block_writable(b, s.values.len(), t, from),
    ensures
        kernel_forms::block_writable(raised_block(b, from, to), s.values.len(), t, to),
        kernel_forms::block_built(raised_block(b, from, to), s, to) == kernel_forms::block_built(
            b,
            s,
            from,
        ),
    decreases b, 0int,
{
    let inner = kernel_forms::entered(b.arg_types, s);
    raised_ops_build_the_same(b.ops, inner, t, from, to, s.module.blocks.len());
}

/// Operations in a later version can be written and build what they did.
pub proof fn raised_ops_build_the_same(
    os: Seq<OpTree>,
    s: Scope,
    t: TablesModel,
    from: BytecodeVersion,
    to: BytecodeVersion,
    block: nat,
)
    requires
        from.rank() <= to.rank(),
        kernel_forms::ops_writable(os, s.values.len(), t, from),
    ensures
        raised_ops(os, from, to).len() == os.len(),
        kernel_forms::ops_writable(raised_ops(os, from, to), s.values.len(), t, to),
        kernel_forms::ops_built(raised_ops(os, from, to), s, to, block) == kernel_forms::ops_built(
            os,
            s,
            from,
            block,
        ),
    decreases os, 1int,
{
    if os.len() > 0 {
        let r = raised_ops(os, from, to);
        raised_op_builds_the_same(os[0], s, t, from, to, block);
        assert(r[0] == raised(os[0], from, to));
        assert(r.skip(1) =~= raised_ops(os.skip(1), from, to));
        kernel_forms::op_built_scope(os[0], s, from, block);
        let next = kernel_forms::op_built(os[0], s, from, block);
        raised_ops_build_the_same(os.skip(1), next, t, from, to, block);
    }
}

/// What the newer form of an operation has and the older has not is one number, the default
/// of the attribute that it got, between the types of its results and the rest.
pub proof fn the_default_is_inserted(
    o: OpImage,
    t: TablesModel,
    scope: nat,
    from: BytecodeVersion,
    to: BytecodeVersion,
)
    requires
        from.rank() <= to.rank(),
        o.writable(scope, t, from),
        gets_attribute(o.opcode, from, to),
    ensures
        o.opcode is NegI || o.opcode is TanH || o.opcode is Exp || o.opcode is MmaF
            || o.opcode is For || o.opcode is Print,
        ({
            let head = op_forms::result_types_form(o.opcode, o.result_types, t);
            let rest = op_forms::values_form(
                op_forms::layout_of(o.opcode, from),
                o.attributes,
                t,
            ) + op_forms::operands_form(o.opcode, 0, o.operands);
            &&& o.form(t, from) == head + rest
            &&& raised_image(o, from, to).form(t, to) == head + encoding::varint_form(
                added_default(o.opcode) as nat,
            ) + rest
        }),
{
    added_attributes(o.opcode, from, to);
    let r = raised_image(o, from, to);
    let head = op_forms::result_types_form(o.opcode, o.result_types, t);
    let old_values = op_forms::values_form(op_forms::layout_of(o.opcode, from), o.attributes, t);
    let new_values = op_forms::values_form(op_forms::layout_of(o.opcode, to), r.attributes, t);
    let operands = op_forms::operands_form(o.opcode, 0, o.operands);
    let default = encoding::varint_form(added_default(o.opcode) as nat);
    assert(o.flags(from) == 0 && r.flags(to) == 0);
    assert(new_values =~= default + old_values);
    assert(head + old_values + operands =~= head + (old_values + operands));
    assert(head + new_values + operands =~= head + default + (old_values + operands));
}

/// Functions in a later version build the module that they did.
proof fn raised_functions_build_the_same(
    fs: Seq<FunctionTree>,
    m: ModuleModel,
    t: TablesModel,
    from: BytecodeVersion,
    to: BytecodeVersion,
    i: nat,
)
    requires
        from.rank() <= to.rank(),
        i <= fs.len(),
        forall|j: int| 0 <= j < fs.len() ==> (#[trigger] fs[j]).writable(t, from),
    ensures
        module_forms::functions_built(raised_functions(fs, from, to), m, t, to, i)
            == module_forms::functions_built(fs, m, t, from, i),
    decreases fs.len() - i,
{
    if i < fs.len() {
        let f = fs[i as int];
        let g = raised_function(f, from, to);
        assert(f.writable(t, from));
        assert(raised_functions(fs, from, to)[i as int] == g);
        let entry = functions::entry_state(m, f.inputs);
        let s = Scope { values: entry.values, module: entry.module };
        raised_ops_build_the_same(f.ops, s, t, from, to, m.blocks.len());
        assert(g.built(m, t, to) == f.built(m, t, from));
        raised_functions_build_the_same(fs, f.built(m, t, from), t, from, to, i + 1);
    }
}

/// A module that is written in a later version, with the defaults of the attributes that
/// its operations have got, is decoded into the module that it is in the earlier version.
pub proof fn a_later_version_decodes_the_same(a: ModuleImage, b: ModuleImage)
    requires
        a.writable(),
        b.writable(),
        a.version.rank() <= b.version.rank(),
        a.tables == b.tables,
        b.functions == raised_functions(a.functions, a.version, b.version),
    ensures
        decoder::module_of(a.form()) == decoder::module_of(
            b.form(),
        ),
{
    raised_functions_build_the_same(
        a.functions,
        ModuleModel::empty("module"@),
        a.tables,
        a.version,
        b.version,
        0,
    );
    module_forms::module_round_trip(a, Seq::empty());
    module_forms::module_round_trip(b, Seq::empty());
    assert(a.form() + Seq::<u8>::empty() =~= a.form());
    assert(b.form() + Seq::<u8>::empty() =~= b.form());
}

/// An operation that gets no attribute between two versions reads the same in both, of any
/// bytes.
pub proof fn other_operations_read_the_same(
    op: Opcode,
    d: Seq<u8>,
    p: int,
    t: TablesModel,
    from: BytecodeVersion,
    to: BytecodeVersion,
    values: Seq<nat>,
)
    requires
        !gets_attribute(op, from, to),
    ensures
        ops::op_fields_at(op, d, p, t, to, values) == ops::op_fields_at(
            op,
            d,
            p,
            t,
            from,
            values,
        ),
{
    reveal(ops::op_fields_at);
    if let (Ok(result_types), q) = ops::result_types_at(op, d, p, t) {
        assert(ops::op_attributes_at(op, d, q, t, to, result_types) == ops::op_attributes_at(
            op,
            d,
            q,
            t,
            from,
            result_types,
        ));
    }
}

/// What is read of an operation ends no earlier than the types of its results.
pub proof fn fields_end_behind_the_types(
    op: Opcode,
    d: Seq<u8>,
    p: int,
    t: TablesModel,
    version: BytecodeVersion,
    values: Seq<nat>,
)
    requires
        0 <= p <= d.len(),
    ensures
        p <= ops::result_types_at(op, d, p, t).1 <= ops::op_fields_at(
            op,
            d,
            p,
            t,
            version,
            values,
        ).1 <= d.len(),
{
    reveal(ops::op_fields_at);
    moves::result_types_move(d, d, p, p, 0, op, t);
    if let (Ok(result_types), q) = ops::result_types_at(op, d, p, t) {
        ops::op_attributes_advance(op, d, q, t, version, result_types);
        if let (Ok((_, flags)), u) = ops::op_attributes_at(op, d, q, t, version, result_types) {
            moves::op_operands_move(d, d, u, u, 0, op, values, flags);
        }
    }
}

/// Any bytes that are read as an operation of an older version are read as the same
/// operation of a later version when the default of the attribute that it got is put behind
/// the types of its results. The number may be written in any way that the reader takes,
/// and so may everything else. Where the older bytes have an error behind those types, the
/// newer have the same.
pub proof fn the_inserted_default_changes_nothing(
    op: Opcode,
    d: Seq<u8>,
    p: int,
    number: Seq<u8>,
    t: TablesModel,
    from: BytecodeVersion,
    to: BytecodeVersion,
    values: Seq<nat>,
)
    requires
        from.rank() <= to.rank(),
        gets_attribute(op, from, to),
        0 <= p <= d.len(),
        ops::result_types_at(op, d, p, t).0 is Ok,
        reader::varint_at(number, 0) == (Ok::<u64, DecodeError>(added_default(op)), number.len()
            as int),
    ensures
        ({
            let m = ops::result_types_at(op, d, p, t).1;
            let e = d.take(m) + number + d.skip(m);
            ops::op_fields_at(op, e, p, t, to, values) == moves::shifted(
                ops::op_fields_at(op, d, p, t, from, values),
                number.len() as int,
            )
        }),
{
    reveal(ops::op_fields_at);
    added_attributes(op, from, to);
    let m = ops::result_types_at(op, d, p, t).1;
    let k = number.len() as int;
    let e = d.take(m) + number + d.skip(m);
    moves::result_types_move(d, d, p, p, 0, op, t);
    assert(moves::agrees(d, e, p, m, 0));
    moves::result_types_move(d, e, p, m, 0, op, t);
    reader::varint_advances(number, 0);
    assert(moves::agrees(number, e, 0, k, m));
    moves::varint_moves(number, e, 0, k, m);
    assert(moves::same_rest(d, e, m, k));
    moves::varint_shifts(d, e, m, k);
    let u = if op is Print {
        reader::varint_advances(d, m);
        reader::varint_at(d, m).1
    } else {
        m
    };
    moves::var_operands_shift(d, e, u, k, values);
    if let Some(n) = op.spec_operand_count() {
        moves::operands_shift(d, e, u, k, values, n as nat, Seq::empty());
    }
}

} // verus!
