//! What is built of the operations and functions that are read.

use vstd::prelude::*;

use crate::bytecode::attributes;
use crate::bytecode::attributes::TablesModel;
use crate::bytecode::decoder;
use crate::bytecode::enums::BytecodeVersion;
use crate::bytecode::functions;
use crate::bytecode::functions::FunctionModel;
use crate::bytecode::op_laws;
use crate::bytecode::opcode;
use crate::bytecode::opcode::Opcode;
use crate::bytecode::ops;
use crate::bytecode::ops::BodyState;
use crate::bytecode::reader;
use crate::bytecode::sections;
use crate::bytecode::types;
use crate::error::DecodeError;
use crate::ir::{AttributeModel, DefModel, ModuleModel, TypeModel};

verus! {

/// An operation with these parts stands at the end of a block of a module, its results are the
/// newest values, and all else is as it was.
pub open spec fn is_appended(
    m: ModuleModel,
    n: ModuleModel,
    block: int,
    opcode: Opcode,
    result_types: Seq<TypeModel>,
    attributes: ops::Attributes,
    operands: Seq<nat>,
    regions: Seq<nat>,
) -> bool {
    let id = m.ops.len();
    let first = m.values.len();
    &&& n.ops.len() == id + 1
    &&& n.ops.take(id as int) == m.ops
    &&& n.ops[id as int].opcode == opcode
    &&& n.ops[id as int].attributes == attributes
    &&& n.ops[id as int].operands == operands
    &&& n.ops[id as int].regions == regions
    &&& n.ops[id as int].results.len() == result_types.len()
    &&& n.values.len() == first + result_types.len()
    &&& n.values.take(first as int) == m.values
    &&& forall|i: int|
        0 <= i < result_types.len() ==> {
            &&& #[trigger] n.ops[id as int].results[i] == first + i
            &&& n.values[first + i].ty == result_types[i]
            &&& n.values[first + i].def == (DefModel::OpResult { op: id, index: i as nat })
        }
    &&& n.blocks.len() == m.blocks.len()
    &&& n.blocks[block].ops == m.blocks[block].ops.push(id)
    &&& n.blocks[block].args == m.blocks[block].args
    &&& forall|b: int| 0 <= b < m.blocks.len() && b != block ==> n.blocks[b] == m.blocks[b]
    &&& n.regions == m.regions
    &&& n.functions == m.functions
    &&& n.name == m.name
}

/// An operation that is read is put at the end of its block, with the parts that were read,
/// and its results come into scope behind the values that were. Loops, branches, reductions
/// and scans have regions, which are read first; no other operation has any.
pub proof fn operations_are_put_at_the_end(
    op: Opcode,
    d: Seq<u8>,
    s: BodyState,
    t: TablesModel,
    version: BytecodeVersion,
    block: nat,
)
    requires
        0 <= s.pos <= d.len(),
    ensures
        ({
            let (fields, q) = ops::op_fields_at(op, d, s.pos, t, version, s.values);
            let nests = op == Opcode::For || op == Opcode::Loop || op == Opcode::If || op
                == Opcode::Reduce || op == Opcode::Scan;
            let inner = ops::regions_at(d, BodyState { pos: q, ..s }, t, version);
            let before = if nests {
                inner.1
            } else {
                BodyState { pos: q, ..s }
            };
            let regions = if nests {
                inner.0->Ok_0
            } else {
                Seq::empty()
            };
            let (done, after) = ops::op_at(op, d, s, t, version, block);
            &&& done is Ok <==> fields is Ok && (nests ==> inner.0 is Ok)
            &&& done is Ok && block < before.module.blocks.len() ==> {
                &&& after.pos == before.pos
                &&& is_appended(
                    before.module,
                    after.module,
                    block as int,
                    op,
                    fields->Ok_0.result_types,
                    fields->Ok_0.attributes,
                    fields->Ok_0.operands,
                    regions,
                )
                &&& after.values == before.values
                    + after.module.ops[before.module.ops.len() as int].results
            }
        }),
{
    ops::op_fields_advance(op, d, s.pos, t, version, s.values);
    let (fields, q) = ops::op_fields_at(op, d, s.pos, t, version, s.values);
    if let Ok(f) = fields {
        let at = BodyState { pos: q, ..s };
        if ops::has_regions(op) {
            if let (Ok(regions), r) = ops::regions_at(d, at, t, version) {
                finished_is_appended(op, f, regions, r, block);
            }
        } else {
            finished_is_appended(op, f, Seq::empty(), at, block);
        }
    }
}

proof fn finished_is_appended(
    op: Opcode,
    f: ops::OpFields,
    regions: Seq<nat>,
    s: BodyState,
    block: nat,
)
    ensures
        block < s.module.blocks.len() ==> {
            let r = ops::finish_op(op, f, regions, s, block);
            &&& r.pos == s.pos
            &&& is_appended(
                s.module,
                r.module,
                block as int,
                op,
                f.result_types,
                f.attributes,
                f.operands,
                regions,
            )
            &&& r.values == s.values + r.module.ops[s.module.ops.len() as int].results
        },
{
    let r = ops::finish_op(op, f, regions, s, block);
    assert(r.module.ops.take(s.module.ops.len() as int) =~= s.module.ops);
    assert(r.module.values.take(s.module.values.len() as int) =~= s.module.values);
}

/// The code of an operation is the low 16 bits of its number.
pub proof fn codes_are_cut_to_16_bits(v: u64)
    ensures
        ops::code_of(v) == v & 0xFFFF,
{
    assert(v & 0xFFFF == v % 0x1_0000) by (bit_vector);
}

proof fn region_lists_are_counted(
    d: Seq<u8>,
    s: BodyState,
    t: TablesModel,
    version: BytecodeVersion,
    n: nat,
    acc: Seq<nat>,
)
    requires
        0 <= s.pos <= d.len(),
    ensures
        ops::region_list_at(d, s, t, version, n, acc).0 matches Ok(v) ==> v.len() == acc.len() + n,
    decreases n,
{
    if n > 0 {
        if let (Ok(id), r) = ops::region_at(d, s, t, version) {
            if s.pos < r.pos <= d.len() {
                region_lists_are_counted(d, r, t, version, (n - 1) as nat, acc.push(id));
            }
        }
    }
}

proof fn block_lists_are_counted(
    d: Seq<u8>,
    s: BodyState,
    t: TablesModel,
    version: BytecodeVersion,
    n: nat,
    acc: Seq<nat>,
)
    requires
        0 <= s.pos <= d.len(),
    ensures
        ops::block_list_at(d, s, t, version, n, acc).0 matches Ok(v) ==> v.len() == acc.len() + n,
    decreases n,
{
    if n > 0 {
        if let (Ok(id), r) = ops::block_at(d, s, t, version) {
            if s.pos < r.pos <= d.len() {
                block_lists_are_counted(d, r, t, version, (n - 1) as nat, acc.push(id));
            }
        }
    }
}

/// An operation has as many regions as the number before them says, and a region as many
/// blocks; the newest region is the one that was read last.
pub proof fn regions_are_counted(
    d: Seq<u8>,
    s: BodyState,
    t: TablesModel,
    version: BytecodeVersion,
)
    requires
        0 <= s.pos <= d.len(),
    ensures
        ops::regions_at(d, s, t, version).0 matches Ok(v) ==> v.len() == op_laws::number(
            d,
            s.pos,
            0,
        ),
        ops::region_at(d, s, t, version).0 matches Ok(id) ==> {
            let m = ops::region_at(d, s, t, version).1.module;
            &&& m.regions.len() == id + 1
            &&& m.regions[id as int].len() == op_laws::number(d, s.pos, 0)
        },
{
    reader::varint_advances(d, s.pos);
    if let (Ok(n), q) = reader::varint_at(d, s.pos) {
        let at = BodyState { pos: q, ..s };
        region_lists_are_counted(d, at, t, version, n as nat, Seq::empty());
        block_lists_are_counted(d, at, t, version, n as nat, Seq::empty());
    }
}

/// A function of the section is the index of its name, that of its signature, a byte of flags,
/// a location, an attribute with its hints where bit 2 of the flags is set, and the length
/// and the bytes of its body.
pub proof fn functions_have_their_parts(d: Seq<u8>, p: int, t: TablesModel)
    requires
        0 <= p <= d.len(),
    ensures
        ({
            let name = op_laws::number(d, p, 0);
            let signature = op_laws::number(d, p, 1);
            let q = op_laws::behind(d, p, 2);
            let flags = d[q->0];
            let u = op_laws::behind(d, q->0 + 1, 1);
            let hinted = (flags / 4) % 2 == 1;
            let hints = attributes::attribute_at(d, u->0, t);
            let v = if hinted {
                hints.1
            } else {
                u->0
            };
            let len = op_laws::number(d, v, 0);
            let body = op_laws::behind(d, v, 1);
            let there = q is Some && name < t.strings.len() && signature < t.types.len() && q->0
                < d.len() && u is Some && (hinted ==> hints.0 is Ok) && body is Some && body->0
                + len <= d.len();
            let read = functions::function_at(d, p, t);
            &&& read.0 is Ok <==> there
            &&& read.0 matches Ok(f) ==> {
                &&& read.1 == body->0 + len
                &&& f.name == t.strings[name as int]
                &&& f.signature == t.types[signature as int]
                &&& f.flags == flags
                &&& f.hints is Some <==> hinted
                &&& hinted ==> f.hints->0 == hints.0->Ok_0
                &&& f.body.len() == len
                &&& f.body == d.subrange(body->0, body->0 + len)
            }
        }),
{
    reveal_with_fuel(op_laws::behind, 3);
    reveal_with_fuel(op_laws::number, 3);
    reader::varint_advances(d, p);
    let p1 = reader::varint_at(d, p).1;
    reader::varint_advances(d, p1);
    let p2 = reader::varint_at(d, p1).1;
    if p2 < d.len() {
        reader::varint_advances(d, p2 + 1);
        let p3 = reader::varint_at(d, p2 + 1).1;
        attributes::attribute_advances(d, p3, t);
        reader::varint_advances(d, p3);
        reader::varint_advances(d, attributes::attribute_at(d, p3, t).1);
    }
}

/// The body of a function is read in a new block, whose arguments have the types of the
/// inputs of the signature and are all that is in scope; the block is alone in a new region.
pub proof fn bodies_begin_with_the_inputs(m: ModuleModel, inputs: Seq<TypeModel>, i: int)
    ensures
        ({
            let s = functions::entry_state(m, inputs);
            let block = m.blocks.len() as int;
            let first = m.values.len();
            &&& s.pos == 0
            &&& s.module.blocks.len() == block + 1
            &&& s.module.blocks.take(block) == m.blocks
            &&& s.module.blocks[block].ops.len() == 0
            &&& s.module.blocks[block].args == s.values
            &&& s.module.regions == m.regions.push(seq![m.blocks.len()])
            &&& s.module.values.len() == first + inputs.len()
            &&& s.module.values.take(first as int) == m.values
            &&& s.values.len() == inputs.len()
            &&& 0 <= i < inputs.len() ==> {
                &&& s.values[i] == first + i
                &&& s.module.values[first + i].ty == inputs[i]
                &&& s.module.values[first + i].def == (DefModel::BlockArgument {
                    block: m.blocks.len(),
                    index: i as nat,
                })
            }
            &&& s.module.ops == m.ops
            &&& s.module.functions == m.functions
            &&& s.module.name == m.name
        }),
{
    let s = functions::entry_state(m, inputs);
    assert(s.module.blocks.take(m.blocks.len() as int) =~= m.blocks);
    assert(s.module.values.take(m.values.len() as int) =~= m.values);
}

/// A function that is put into a module is an entry operation with no operands and results: its
/// attributes are its name, its signature, and its hints where it has them, and its region is
/// the one that its body was read in. It is the newest operation, and the last function.
pub proof fn functions_are_entries(
    m: ModuleModel,
    f: FunctionModel,
    t: TablesModel,
    version: BytecodeVersion,
)
    ensures
        ({
            let (done, n) = functions::with_function(m, f, t, version);
            let inputs = f.signature->Func_inputs;
            let run = ops::body_at(
                f.body,
                functions::entry_state(m, inputs),
                t,
                version,
                m.blocks.len(),
            );
            &&& done is Ok <==> f.signature is Func && run.0 is Ok
            &&& !(f.signature is Func) ==> done == Err::<(), DecodeError>(
                DecodeError::SignatureNotFunc,
            )
            &&& done is Ok ==> {
                let id = run.1.module.ops.len();
                let entry = n.ops[id as int];
                &&& n.ops.len() == id + 1
                &&& n.functions == run.1.module.functions.push(id)
                &&& n.blocks == run.1.module.blocks
                &&& n.regions == run.1.module.regions
                &&& n.values == run.1.module.values
                &&& entry.opcode == Opcode::Entry
                &&& entry.operands.len() == 0
                &&& entry.results.len() == 0
                &&& entry.regions == seq![m.regions.len()]
                &&& entry.attributes.len() == (if f.hints is Some {
                    3int
                } else {
                    2int
                })
                &&& entry.attributes[0] == ("sym_name"@, AttributeModel::String(f.name))
                &&& entry.attributes[1] == ("function_type"@, AttributeModel::Type(f.signature))
                &&& f.hints matches Some(a) ==> entry.attributes[2] == ("optimization_hints"@, a)
            }
        }),
{
    if let TypeModel::Func { inputs, .. } = f.signature {
        let run = ops::body_at(
            f.body,
            functions::entry_state(m, inputs),
            t,
            version,
            m.blocks.len(),
        );
        if run.0 is Ok {
            let n = functions::with_function(m, f, t, version).1;
            assert(n.values =~= run.1.module.values);
        }
    }
}

// ---- what reading a body leaves as it is ----

/// A module is built on another: it has all values, operations and regions of the other, in
/// the same places, its functions and its name, and its blocks. But for the block with one
/// number, to which operations may have been appended, the blocks are as they were.
pub open spec fn is_built_on(a: ModuleModel, b: ModuleModel, block: int) -> bool {
    &&& b.functions == a.functions && b.name == a.name
    &&& a.values.len() <= b.values.len() && b.values.take(a.values.len() as int) == a.values
    &&& a.ops.len() <= b.ops.len() && b.ops.take(a.ops.len() as int) == a.ops
    &&& a.regions.len() <= b.regions.len() && b.regions.take(a.regions.len() as int) == a.regions
    &&& a.blocks.len() <= b.blocks.len()
    &&& forall|i: int|
        0 <= i < a.blocks.len() && i != block ==> #[trigger] b.blocks[i] == a.blocks[i]
    &&& 0 <= block < a.blocks.len() ==> b.blocks[block].args == a.blocks[block].args
}

proof fn built_on_itself(a: ModuleModel, block: int)
    ensures
        is_built_on(a, a, block),
{
    assert(a.values.take(a.values.len() as int) =~= a.values);
    assert(a.ops.take(a.ops.len() as int) =~= a.ops);
    assert(a.regions.take(a.regions.len() as int) =~= a.regions);
}

proof fn built_on_twice(a: ModuleModel, b: ModuleModel, c: ModuleModel, k: int, j: int)
    requires
        is_built_on(a, b, k),
        is_built_on(b, c, j),
        j == k || j < 0 || j >= a.blocks.len(),
    ensures
        is_built_on(a, c, k),
{
    assert(c.values.take(a.values.len() as int) =~= c.values.take(b.values.len() as int).take(
        a.values.len() as int,
    ));
    assert(c.ops.take(a.ops.len() as int) =~= c.ops.take(b.ops.len() as int).take(
        a.ops.len() as int,
    ));
    assert(c.regions.take(a.regions.len() as int) =~= c.regions.take(b.regions.len() as int).take(
        a.regions.len() as int,
    ));
    assert forall|i: int| 0 <= i < a.blocks.len() && i != k implies #[trigger] c.blocks[i]
        == a.blocks[i] by {
        assert(b.blocks[i] == a.blocks[i]);
    }
}

proof fn finish_is_built_on(
    op: Opcode,
    f: ops::OpFields,
    regions: Seq<nat>,
    s: BodyState,
    block: nat,
)
    requires
        block < s.module.blocks.len(),
    ensures
        ({
            let r = ops::finish_op(op, f, regions, s, block).module;
            &&& is_built_on(s.module, r, block as int)
            &&& r.blocks[block as int].ops.len() == s.module.blocks[block as int].ops.len() + 1
        }),
{
    finished_is_appended(op, f, regions, s, block);
    let r = ops::finish_op(op, f, regions, s, block).module;
    assert(r.regions.take(s.module.regions.len() as int) =~= s.module.regions);
}

/// Reading an operation appends one operation to its block, and leaves all that was built
/// before as it was; the blocks inside the operation are new.
pub proof fn operations_leave_the_rest(
    op: Opcode,
    d: Seq<u8>,
    s: BodyState,
    t: TablesModel,
    version: BytecodeVersion,
    block: nat,
)
    requires
        0 <= s.pos <= d.len(),
        block < s.module.blocks.len(),
    ensures
        is_built_on(s.module, ops::op_at(op, d, s, t, version, block).1.module, block as int),
        ops::op_at(op, d, s, t, version, block).0 is Ok ==> ops::op_at(
            op,
            d,
            s,
            t,
            version,
            block,
        ).1.module.blocks[block as int].ops.len() == s.module.blocks[block as int].ops.len() + 1,
    decreases d.len() - s.pos, 1int, 0int,
{
    ops::op_fields_advance(op, d, s.pos, t, version, s.values);
    built_on_itself(s.module, block as int);
    if let (Ok(f), q) = ops::op_fields_at(op, d, s.pos, t, version, s.values) {
        let at = BodyState { pos: q, ..s };
        if ops::has_regions(op) {
            reader::varint_advances(d, q);
            built_on_itself(s.module, -1);
            if let (Ok(n), r) = reader::varint_at(d, q) {
                region_list_leaves_the_rest(
                    d,
                    BodyState { pos: r, ..at },
                    t,
                    version,
                    n as nat,
                    Seq::empty(),
                );
            }
            let (regions, r) = ops::regions_at(d, at, t, version);
            assert(is_built_on(s.module, r.module, -1));
            assert(r.module.blocks[block as int] == s.module.blocks[block as int]);
            assert(is_built_on(s.module, r.module, block as int));
            if let Ok(regions) = regions {
                finish_is_built_on(op, f, regions, r, block);
                built_on_twice(
                    s.module,
                    r.module,
                    ops::finish_op(op, f, regions, r, block).module,
                    block as int,
                    block as int,
                );
            }
        } else {
            finish_is_built_on(op, f, Seq::empty(), at, block);
        }
    }
}

proof fn region_list_leaves_the_rest(
    d: Seq<u8>,
    s: BodyState,
    t: TablesModel,
    version: BytecodeVersion,
    n: nat,
    acc: Seq<nat>,
)
    requires
        0 <= s.pos <= d.len(),
    ensures
        is_built_on(s.module, ops::region_list_at(d, s, t, version, n, acc).1.module, -1),
    decreases d.len() - s.pos, 2int, n,
{
    built_on_itself(s.module, -1);
    if n > 0 {
        reader::varint_advances(d, s.pos);
        let region = ops::region_at(d, s, t, version);
        if let (Ok(k), q) = reader::varint_at(d, s.pos) {
            let at = BodyState { pos: q, ..s };
            block_list_leaves_the_rest(d, at, t, version, k as nat, Seq::empty());
            let (blocks, r) = ops::block_list_at(d, at, t, version, k as nat, Seq::empty());
            if let Ok(blocks) = blocks {
                let m = r.module.with_region(blocks);
                built_on_itself(r.module, -1);
                assert(m.regions.take(r.module.regions.len() as int) =~= r.module.regions);
                assert(is_built_on(r.module, m, -1));
                built_on_twice(s.module, r.module, m, -1, -1);
            }
        }
        assert(is_built_on(s.module, region.1.module, -1));
        if let (Ok(id), r) = region {
            if s.pos < r.pos <= d.len() {
                region_list_leaves_the_rest(d, r, t, version, (n - 1) as nat, acc.push(id));
                built_on_twice(
                    s.module,
                    r.module,
                    ops::region_list_at(d, r, t, version, (n - 1) as nat, acc.push(id)).1.module,
                    -1,
                    -1,
                );
            }
        }
    }
}

proof fn block_list_leaves_the_rest(
    d: Seq<u8>,
    s: BodyState,
    t: TablesModel,
    version: BytecodeVersion,
    n: nat,
    acc: Seq<nat>,
)
    requires
        0 <= s.pos <= d.len(),
    ensures
        is_built_on(s.module, ops::block_list_at(d, s, t, version, n, acc).1.module, -1),
    decreases d.len() - s.pos, 2int, n,
{
    built_on_itself(s.module, -1);
    if n > 0 {
        blocks_hold_what_is_announced(d, s, t, version);
        if let (Ok(id), r) = ops::block_at(d, s, t, version) {
            if s.pos < r.pos <= d.len() {
                block_list_leaves_the_rest(d, r, t, version, (n - 1) as nat, acc.push(id));
                built_on_twice(
                    s.module,
                    r.module,
                    ops::block_list_at(d, r, t, version, (n - 1) as nat, acc.push(id)).1.module,
                    -1,
                    -1,
                );
            }
        }
    }
}

/// A block is the number and the types of its arguments, and the number of its operations and
/// these. It is a new block, with new values of these types as its arguments and as many
/// operations; all that was built before is left as it was.
pub proof fn blocks_hold_what_is_announced(
    d: Seq<u8>,
    s: BodyState,
    t: TablesModel,
    version: BytecodeVersion,
)
    requires
        0 <= s.pos <= d.len(),
    ensures
        is_built_on(s.module, ops::block_at(d, s, t, version).1.module, -1),
        ops::block_at(d, s, t, version).0 matches Ok(id) ==> {
            let m = ops::block_at(d, s, t, version).1.module;
            let n = op_laws::number(d, s.pos, 0);
            let q = op_laws::behind(d, s.pos, 1)->0;
            let args = m.blocks[id as int].args;
            &&& id == s.module.blocks.len()
            &&& id < m.blocks.len()
            &&& op_laws::are_indices(d, q, 0, n as nat, t.types)
            &&& args.len() == n
            &&& s.module.values.len() + n <= m.values.len()
            &&& forall|i: int|
                0 <= i < n ==> {
                    let v = m.values[#[trigger] args[i] as int];
                    &&& args[i] == s.module.values.len() + i
                    &&& v.ty == t.types[op_laws::number(d, q, i as nat) as int]
                    &&& v.def == (DefModel::BlockArgument { block: id, index: i as nat })
                }
            &&& m.blocks[id as int].ops.len() == op_laws::number(
                d,
                op_laws::behind(d, q, n as nat)->0,
                0,
            )
        },
    decreases d.len() - s.pos, 1int, 0int,
{
    reveal_with_fuel(op_laws::behind, 2);
    reveal_with_fuel(op_laws::number, 2);
    ops::var_type_refs_advance(d, s.pos, t);
    built_on_itself(s.module, -1);
    let bad = DecodeError::ResultTypeIndex;
    if let (Ok(arg_types), q) = types::var_type_refs_at(d, s.pos, t.types, bad) {
        let count = op_laws::number(d, s.pos, 0) as nat;
        let p1 = op_laws::behind(d, s.pos, 1)->0;
        op_laws::types_are_indices(d, p1, t.types, count, bad, Seq::empty());
        assert(arg_types =~= op_laws::entries(d, p1, 0, count, t.types));
        let m = s.module.with_block(arg_types);
        let block = s.module.blocks.len();
        assert(m.values.take(s.module.values.len() as int) =~= s.module.values);
        assert(m.ops.take(s.module.ops.len() as int) =~= s.module.ops);
        assert(m.regions.take(s.module.regions.len() as int) =~= s.module.regions);
        assert(is_built_on(s.module, m, -1));
        reader::varint_advances(d, q);
        if let (Ok(n), r) = reader::varint_at(d, q) {
            let entered = BodyState {
                pos: r,
                values: s.values + s.module.fresh_values(arg_types.len()),
                module: m,
            };
            op_list_leaves_the_rest(d, entered, t, version, n as nat, block);
            let after = ops::op_list_at(d, entered, t, version, n as nat, block).1.module;
            built_on_twice(s.module, m, after, -1, block as int);
            assert forall|k: int| 0 <= k < m.values.len() implies #[trigger] after.values[k]
                == m.values[k] by {
                assert(after.values.take(m.values.len() as int)[k] == m.values[k]);
            }
        }
    }
}

proof fn op_list_leaves_the_rest(
    d: Seq<u8>,
    s: BodyState,
    t: TablesModel,
    version: BytecodeVersion,
    n: nat,
    block: nat,
)
    requires
        0 <= s.pos <= d.len(),
        block < s.module.blocks.len(),
    ensures
        is_built_on(
            s.module,
            ops::op_list_at(d, s, t, version, n, block).1.module,
            block as int,
        ),
        ops::op_list_at(d, s, t, version, n, block).0 is Ok ==> ops::op_list_at(
            d,
            s,
            t,
            version,
            n,
            block,
        ).1.module.blocks[block as int].ops.len() == s.module.blocks[block as int].ops.len() + n,
    decreases d.len() - s.pos, 2int, n,
{
    built_on_itself(s.module, block as int);
    if n > 0 {
        reader::varint_advances(d, s.pos);
        if let (Ok(v), q) = reader::varint_at(d, s.pos) {
            if let Some(op) = opcode::opcode_of(ops::code_of(v)) {
                let at = BodyState { pos: q, ..s };
                operations_leave_the_rest(op, d, at, t, version, block);
                if let (Ok(_), r) = ops::op_at(op, d, at, t, version, block) {
                    if s.pos < r.pos <= d.len() {
                        op_list_leaves_the_rest(d, r, t, version, (n - 1) as nat, block);
                        built_on_twice(
                            s.module,
                            r.module,
                            ops::op_list_at(d, r, t, version, (n - 1) as nat, block).1.module,
                            block as int,
                            block as int,
                        );
                    }
                }
            }
        }
    }
}

/// Reading the body of a function appends its operations to its block, and leaves all that was
/// built before as it was.
pub proof fn bodies_leave_the_rest(
    d: Seq<u8>,
    s: BodyState,
    t: TablesModel,
    version: BytecodeVersion,
    block: nat,
)
    requires
        0 <= s.pos <= d.len(),
        block < s.module.blocks.len(),
    ensures
        is_built_on(s.module, ops::body_at(d, s, t, version, block).1.module, block as int),
    decreases d.len() - s.pos,
{
    built_on_itself(s.module, block as int);
    if s.pos < d.len() {
        reader::varint_advances(d, s.pos);
        if let (Ok(v), q) = reader::varint_at(d, s.pos) {
            if let Some(op) = opcode::opcode_of(ops::code_of(v)) {
                let at = BodyState { pos: q, ..s };
                operations_leave_the_rest(op, d, at, t, version, block);
                if let (Ok(_), r) = ops::op_at(op, d, at, t, version, block) {
                    if s.pos < r.pos <= d.len() {
                        bodies_leave_the_rest(d, r, t, version, block);
                        built_on_twice(
                            s.module,
                            r.module,
                            ops::body_at(d, r, t, version, block).1.module,
                            block as int,
                            block as int,
                        );
                    }
                }
            }
        }
    }
}

proof fn functions_add_up(
    d: Seq<u8>,
    p: int,
    n: nat,
    m: ModuleModel,
    t: TablesModel,
    version: BytecodeVersion,
)
    ensures
        functions::functions_at(d, p, n, m, t, version).0 is Ok ==> {
            let r = functions::functions_at(d, p, n, m, t, version).1;
            r.functions.len() == m.functions.len() + n && r.name == m.name
        },
    decreases n,
{
    if n > 0 {
        if let (Ok(f), q) = functions::function_at(d, p, t) {
            if let TypeModel::Func { inputs, .. } = f.signature {
                let entry = functions::entry_state(m, inputs);
                bodies_leave_the_rest(f.body, entry, t, version, m.blocks.len());
            }
            if let (Ok(_), next) = functions::with_function(m, f, t, version) {
                functions_add_up(d, q, (n - 1) as nat, next, t, version);
            }
        }
    }
}

/// A decoded module is named `module`, and has as many functions as the number at the start of
/// its function section says; none where it has no such section.
pub proof fn modules_have_their_functions(d: Seq<u8>)
    ensures
        decoder::module_of(d) matches Ok(m) ==> m.name == "module"@ && (decoder::tables_of(
            d,
        ) matches Ok((_, s, _)) && match sections::section_of(s, 2) {
            None => m == ModuleModel::empty("module"@),
            Some(payload) => op_laws::behind(payload, 0, 1) is Some && m.functions.len()
                == op_laws::number(payload, 0, 0),
        }),
{
    if let Ok((version, s, t)) = decoder::tables_of(d) {
        if let Some(payload) = sections::section_of(s, 2) {
            if let (Ok(n), q) = reader::varint_at(payload, 0) {
                assert(op_laws::behind(payload, q, 0) == Some(q));
                functions_add_up(
                    payload,
                    q,
                    n as nat,
                    ModuleModel::empty("module"@),
                    t,
                    version,
                );
            }
        }
    }
}
/// A new module has a name and nothing else.
pub proof fn new_modules_are_empty(name: Seq<char>)
    ensures
        ({
            let m = ModuleModel::empty(name);
            &&& m.name == name
            &&& m.ops.len() == 0 && m.values.len() == 0 && m.blocks.len() == 0
            &&& m.regions.len() == 0 && m.functions.len() == 0
        }),
{
}

} // verus!
