//! The bytes of a function body in a later version, with everything that is nested in it.
//!
//! A body of an older version is rewritten for a later one: behind the types of the results
//! of each operation that has got an attribute, its default is put in. All other bytes stay,
//! however the numbers in them are written. The body that comes out is read as the same
//! operations.

use vstd::prelude::*;

use crate::bytecode::attributes::TablesModel;
use crate::bytecode::encoding;
use crate::bytecode::enums::BytecodeVersion;
use crate::bytecode::functions;
use crate::bytecode::functions::FunctionModel;
use crate::bytecode::moves;
use crate::bytecode::opcode;
use crate::bytecode::opcode::Opcode;
use crate::bytecode::ops;
use crate::bytecode::ops::BodyState;
use crate::bytecode::reader;
use crate::bytecode::types;
use crate::bytecode::version_laws;
use crate::error::DecodeError;
use crate::ir::{ModuleModel, TypeModel};

verus! {

/// A way to write the default of the attribute that an operation has got, which may be
/// another in each place of a body.
pub type Spelling = spec_fn(Opcode, int) -> Seq<u8>;

/// What is written is read as the default, wherever it is put in.
pub open spec fn spells_defaults(spell: Spelling) -> bool {
    forall|op: Opcode, p: int|
        reader::varint_at(#[trigger] spell(op, p), 0) == (
            Ok::<u64, DecodeError>(version_laws::added_default(op)),
            spell(op, p).len() as int,
        )
}

/// A rewriting of a body: the tables that it refers to, its version, the later version, and
/// how the defaults are written.
pub struct Rise {
    pub t: TablesModel,
    pub from: BytecodeVersion,
    pub to: BytecodeVersion,
    pub spell: Spelling,
}

impl Rise {
    /// The later version is no earlier one, and the defaults are written as such.
    pub open spec fn wf(self) -> bool {
        &&& self.from.rank() <= self.to.rank()
        &&& spells_defaults(self.spell)
    }

    /// Everything of an operation but its regions, rewritten.
    pub open spec fn fields(self, op: Opcode, d: Seq<u8>, p: int, values: Seq<nat>) -> Seq<u8> {
        let q = ops::op_fields_at(op, d, p, self.t, self.from, values).1;
        if version_laws::gets_attribute(op, self.from, self.to) {
            let m = ops::result_types_at(op, d, p, self.t).1;
            d.subrange(p, m) + (self.spell)(op, m) + d.subrange(m, q)
        } else {
            d.subrange(p, q)
        }
    }

    /// An operation behind its code, rewritten.
    pub open spec fn op(self, op: Opcode, d: Seq<u8>, s: BodyState, block: nat) -> Seq<u8>
        decreases d.len() - s.pos, 1int, 0int,
        when 0 <= s.pos <= d.len()
    {
        match ops::op_fields_at(op, d, s.pos, self.t, self.from, s.values) {
            (Err(_), _) => Seq::empty(),
            (Ok(_), q) => if ops::has_regions(op) {
                proof {
                    ops::op_fields_advance(op, d, s.pos, self.t, self.from, s.values);
                }
                self.fields(op, d, s.pos, s.values) + self.regions(d, BodyState { pos: q, ..s })
            } else {
                self.fields(op, d, s.pos, s.values)
            },
        }
    }

    /// A count and as many regions, rewritten.
    pub open spec fn regions(self, d: Seq<u8>, s: BodyState) -> Seq<u8>
        decreases d.len() - s.pos, 0int, 0int,
        when 0 <= s.pos <= d.len()
    {
        match reader::varint_at(d, s.pos) {
            (Err(_), _) => Seq::empty(),
            (Ok(n), q) => {
                proof {
                    reader::varint_advances(d, s.pos);
                }
                d.subrange(s.pos, q) + self.region_list(d, BodyState { pos: q, ..s }, n as nat)
            },
        }
    }

    /// `n` regions, rewritten.
    pub open spec fn region_list(self, d: Seq<u8>, s: BodyState, n: nat) -> Seq<u8>
        decreases d.len() - s.pos, 2int, n,
        when 0 <= s.pos <= d.len()
    {
        if n == 0 {
            Seq::empty()
        } else {
            match ops::region_at(d, s, self.t, self.from) {
                (Err(_), _) => Seq::empty(),
                (Ok(_), r) => if s.pos < r.pos <= d.len() {
                    self.region(d, s) + self.region_list(d, r, (n - 1) as nat)
                } else {
                    Seq::empty()
                },
            }
        }
    }

    /// A region, rewritten.
    pub open spec fn region(self, d: Seq<u8>, s: BodyState) -> Seq<u8>
        decreases d.len() - s.pos, 1int, 0int,
        when 0 <= s.pos <= d.len()
    {
        match reader::varint_at(d, s.pos) {
            (Err(_), _) => Seq::empty(),
            (Ok(n), q) => {
                proof {
                    reader::varint_advances(d, s.pos);
                }
                d.subrange(s.pos, q) + self.block_list(d, BodyState { pos: q, ..s }, n as nat)
            },
        }
    }

    /// `n` blocks, rewritten.
    pub open spec fn block_list(self, d: Seq<u8>, s: BodyState, n: nat) -> Seq<u8>
        decreases d.len() - s.pos, 2int, n,
        when 0 <= s.pos <= d.len()
    {
        if n == 0 {
            Seq::empty()
        } else {
            match ops::block_at(d, s, self.t, self.from) {
                (Err(_), _) => Seq::empty(),
                (Ok(_), r) => if s.pos < r.pos <= d.len() {
                    self.block(d, s) + self.block_list(d, r, (n - 1) as nat)
                } else {
                    Seq::empty()
                },
            }
        }
    }

    /// A block, rewritten.
    pub open spec fn block(self, d: Seq<u8>, s: BodyState) -> Seq<u8>
        decreases d.len() - s.pos, 1int, 0int,
        when 0 <= s.pos <= d.len()
    {
        match types::var_type_refs_at(d, s.pos, self.t.types, DecodeError::ResultTypeIndex) {
            (Err(_), _) => Seq::empty(),
            (Ok(arg_types), m) => match reader::varint_at(d, m) {
                (Err(_), _) => Seq::empty(),
                (Ok(n), q) => {
                    let entered = BodyState {
                        pos: q,
                        values: s.values + s.module.fresh_values(arg_types.len()),
                        module: s.module.with_block(arg_types),
                    };
                    proof {
                        ops::var_type_refs_advance(d, s.pos, self.t);
                        reader::varint_advances(d, m);
                    }
                    d.subrange(s.pos, q) + self.op_list(
                        d,
                        entered,
                        n as nat,
                        s.module.blocks.len(),
                    )
                },
            },
        }
    }

    /// `n` operations with their codes, rewritten.
    pub open spec fn op_list(self, d: Seq<u8>, s: BodyState, n: nat, block: nat) -> Seq<u8>
        decreases d.len() - s.pos, 2int, n,
        when 0 <= s.pos <= d.len()
    {
        if n == 0 {
            Seq::empty()
        } else {
            match reader::varint_at(d, s.pos) {
                (Err(_), _) => Seq::empty(),
                (Ok(v), q) => match opcode::opcode_of(ops::code_of(v)) {
                    None => Seq::empty(),
                    Some(op) => {
                        proof {
                            reader::varint_advances(d, s.pos);
                        }
                        let behind = BodyState { pos: q, ..s };
                        match ops::op_at(op, d, behind, self.t, self.from, block) {
                            (Err(_), _) => Seq::empty(),
                            (Ok(_), r) => if s.pos < r.pos <= d.len() {
                                d.subrange(s.pos, q) + self.op(op, d, behind, block)
                                    + self.op_list(d, r, (n - 1) as nat, block)
                            } else {
                                Seq::empty()
                            },
                        }
                    },
                },
            }
        }
    }

    /// The operations of a function body up to its end, rewritten.
    pub open spec fn body(self, d: Seq<u8>, s: BodyState, block: nat) -> Seq<u8>
        decreases d.len() - s.pos,
        when 0 <= s.pos <= d.len()
    {
        if s.pos == d.len() {
            Seq::empty()
        } else {
            match reader::varint_at(d, s.pos) {
                (Err(_), _) => Seq::empty(),
                (Ok(v), q) => match opcode::opcode_of(ops::code_of(v)) {
                    None => Seq::empty(),
                    Some(op) => {
                        let behind = BodyState { pos: q, ..s };
                        match ops::op_at(op, d, behind, self.t, self.from, block) {
                            (Err(_), _) => Seq::empty(),
                            (Ok(_), r) => if s.pos < r.pos <= d.len() {
                                d.subrange(s.pos, q) + self.op(op, d, behind, block) + self.body(
                                    d,
                                    r,
                                    block,
                                )
                            } else {
                                Seq::empty()
                            },
                        }
                    },
                },
            }
        }
    }
}

/// A buffer that holds a part of another agrees with it there.
proof fn held_part_agrees(d: Seq<u8>, p: int, q: int, e: Seq<u8>, r: int)
    requires
        0 <= p <= q <= d.len(),
        encoding::holds(e, r, d.subrange(p, q)),
    ensures
        moves::agrees(d, e, p, q, r - p),
{
    let part = d.subrange(p, q);
    assert forall|i: int| p <= i < q implies #[trigger] d[i] == e[i + (r - p)] by {
        assert(d[i] == part[i - p]);
        assert(e.subrange(r, r + part.len())[i - p] == e[i + (r - p)]);
    }
}

/// The fields of an operation, rewritten, are read as the same fields.
proof fn newer_fields(
    f: Rise,
    op: Opcode,
    d: Seq<u8>,
    p: int,
    values: Seq<nat>,
    e: Seq<u8>,
    r: int,
)
    requires
        f.wf(),
        0 <= p <= d.len(),
        ops::op_fields_at(op, d, p, f.t, f.from, values).0 is Ok,
        encoding::holds(e, r, f.fields(op, d, p, values)),
    ensures
        ops::op_fields_at(op, e, r, f.t, f.to, values) == (
            ops::op_fields_at(op, d, p, f.t, f.from, values).0,
            r + f.fields(op, d, p, values).len(),
        ),
{
    ops::op_fields_advance(op, d, p, f.t, f.from, values);
    let q = ops::op_fields_at(op, d, p, f.t, f.from, values).1;
    if version_laws::gets_attribute(op, f.from, f.to) {
        let m = ops::result_types_at(op, d, p, f.t).1;
        let number = (f.spell)(op, m);
        reveal(ops::op_fields_at);
        moves::result_types_move(d, d, p, p, 0, op, f.t);
        version_laws::fields_end_behind_the_types(op, d, p, f.t, f.from, values);
        version_laws::the_inserted_default_changes_nothing(
            op,
            d,
            p,
            number,
            f.t,
            f.from,
            f.to,
            values,
        );
        let g = d.take(m) + number + d.skip(m);
        assert(g.subrange(p, q + number.len()) =~= f.fields(op, d, p, values));
        held_part_agrees(g, p, q + number.len(), e, r);
        moves::op_fields_move(g, e, p, q + number.len(), r - p, op, f.t, f.to, values);
    } else {
        version_laws::other_operations_read_the_same(op, d, p, f.t, f.from, f.to, values);
        held_part_agrees(d, p, q, e, r);
        moves::op_fields_move(d, e, p, q, r - p, op, f.t, f.to, values);
    }
}

/// An operation behind its code, rewritten, is read as the same operation.
pub proof fn newer_op(
    f: Rise,
    op: Opcode,
    d: Seq<u8>,
    s: BodyState,
    block: nat,
    e: Seq<u8>,
    r: int,
)
    requires
        f.wf(),
        0 <= s.pos <= d.len(),
        ops::op_at(op, d, s, f.t, f.from, block).0 is Ok,
        encoding::holds(e, r, f.op(op, d, s, block)),
    ensures
        ops::op_at(op, e, BodyState { pos: r, ..s }, f.t, f.to, block) == (
            Ok::<(), DecodeError>(()),
            BodyState {
                pos: r + f.op(op, d, s, block).len(),
                ..ops::op_at(op, d, s, f.t, f.from, block).1
            },
        ),
    decreases d.len() - s.pos, 1int, 0int,
{
    let (fields, q) = ops::op_fields_at(op, d, s.pos, f.t, f.from, s.values);
    ops::op_fields_advance(op, d, s.pos, f.t, f.from, s.values);
    let head = f.fields(op, d, s.pos, s.values);
    if ops::has_regions(op) {
        let behind = BodyState { pos: q, ..s };
        encoding::holds_split(e, r, head, f.regions(d, behind));
        newer_fields(f, op, d, s.pos, s.values, e, r);
        newer_regions(f, d, behind, e, r + head.len());
    } else {
        newer_fields(f, op, d, s.pos, s.values, e, r);
    }
}

/// Regions, rewritten, are read as the same regions.
proof fn newer_regions(f: Rise, d: Seq<u8>, s: BodyState, e: Seq<u8>, r: int)
    requires
        f.wf(),
        0 <= s.pos <= d.len(),
        ops::regions_at(d, s, f.t, f.from).0 is Ok,
        encoding::holds(e, r, f.regions(d, s)),
    ensures
        ops::regions_at(e, BodyState { pos: r, ..s }, f.t, f.to) == (
            ops::regions_at(d, s, f.t, f.from).0,
            BodyState {
                pos: r + f.regions(d, s).len(),
                ..ops::regions_at(d, s, f.t, f.from).1
            },
        ),
    decreases d.len() - s.pos, 0int, 0int,
{
    reader::varint_advances(d, s.pos);
    if let (Ok(n), q) = reader::varint_at(d, s.pos) {
        let behind = BodyState { pos: q, ..s };
        encoding::holds_split(e, r, d.subrange(s.pos, q), f.region_list(d, behind, n as nat));
        held_part_agrees(d, s.pos, q, e, r);
        moves::varint_moves(d, e, s.pos, q, r - s.pos);
        newer_region_list(f, d, behind, n as nat, Seq::empty(), e, r + (q - s.pos));
    }
}

proof fn newer_region_list(
    f: Rise,
    d: Seq<u8>,
    s: BodyState,
    n: nat,
    acc: Seq<nat>,
    e: Seq<u8>,
    r: int,
)
    requires
        f.wf(),
        0 <= s.pos <= d.len(),
        ops::region_list_at(d, s, f.t, f.from, n, acc).0 is Ok,
        encoding::holds(e, r, f.region_list(d, s, n)),
    ensures
        ops::region_list_at(e, BodyState { pos: r, ..s }, f.t, f.to, n, acc) == (
            ops::region_list_at(d, s, f.t, f.from, n, acc).0,
            BodyState {
                pos: r + f.region_list(d, s, n).len(),
                ..ops::region_list_at(d, s, f.t, f.from, n, acc).1
            },
        ),
    decreases d.len() - s.pos, 2int, n,
{
    if n > 0 {
        if let (Ok(id), next) = ops::region_at(d, s, f.t, f.from) {
            let first = f.region(d, s);
            encoding::holds_split(e, r, first, f.region_list(d, next, (n - 1) as nat));
            newer_region(f, d, s, e, r);
            newer_region_list(f, d, next, (n - 1) as nat, acc.push(id), e, r + first.len());
        }
    }
}

proof fn newer_region(f: Rise, d: Seq<u8>, s: BodyState, e: Seq<u8>, r: int)
    requires
        f.wf(),
        0 <= s.pos <= d.len(),
        ops::region_at(d, s, f.t, f.from).0 is Ok,
        encoding::holds(e, r, f.region(d, s)),
    ensures
        ops::region_at(e, BodyState { pos: r, ..s }, f.t, f.to) == (
            ops::region_at(d, s, f.t, f.from).0,
            BodyState {
                pos: r + f.region(d, s).len(),
                ..ops::region_at(d, s, f.t, f.from).1
            },
        ),
        f.region(d, s).len() > 0,
    decreases d.len() - s.pos, 1int, 0int,
{
    reader::varint_advances(d, s.pos);
    if let (Ok(n), q) = reader::varint_at(d, s.pos) {
        let behind = BodyState { pos: q, ..s };
        encoding::holds_split(e, r, d.subrange(s.pos, q), f.block_list(d, behind, n as nat));
        held_part_agrees(d, s.pos, q, e, r);
        moves::varint_moves(d, e, s.pos, q, r - s.pos);
        newer_block_list(f, d, behind, n as nat, Seq::empty(), e, r + (q - s.pos));
    }
}

proof fn newer_block_list(
    f: Rise,
    d: Seq<u8>,
    s: BodyState,
    n: nat,
    acc: Seq<nat>,
    e: Seq<u8>,
    r: int,
)
    requires
        f.wf(),
        0 <= s.pos <= d.len(),
        ops::block_list_at(d, s, f.t, f.from, n, acc).0 is Ok,
        encoding::holds(e, r, f.block_list(d, s, n)),
    ensures
        ops::block_list_at(e, BodyState { pos: r, ..s }, f.t, f.to, n, acc) == (
            ops::block_list_at(d, s, f.t, f.from, n, acc).0,
            BodyState {
                pos: r + f.block_list(d, s, n).len(),
                ..ops::block_list_at(d, s, f.t, f.from, n, acc).1
            },
        ),
    decreases d.len() - s.pos, 2int, n,
{
    if n > 0 {
        if let (Ok(id), next) = ops::block_at(d, s, f.t, f.from) {
            let first = f.block(d, s);
            encoding::holds_split(e, r, first, f.block_list(d, next, (n - 1) as nat));
            newer_block(f, d, s, e, r);
            newer_block_list(f, d, next, (n - 1) as nat, acc.push(id), e, r + first.len());
        }
    }
}

proof fn newer_block(f: Rise, d: Seq<u8>, s: BodyState, e: Seq<u8>, r: int)
    requires
        f.wf(),
        0 <= s.pos <= d.len(),
        ops::block_at(d, s, f.t, f.from).0 is Ok,
        encoding::holds(e, r, f.block(d, s)),
    ensures
        ops::block_at(e, BodyState { pos: r, ..s }, f.t, f.to) == (
            ops::block_at(d, s, f.t, f.from).0,
            BodyState {
                pos: r + f.block(d, s).len(),
                ..ops::block_at(d, s, f.t, f.from).1
            },
        ),
        f.block(d, s).len() > 0,
    decreases d.len() - s.pos, 1int, 0int,
{
    let bad = DecodeError::ResultTypeIndex;
    ops::var_type_refs_advance(d, s.pos, f.t);
    if let (Ok(arg_types), m) = types::var_type_refs_at(d, s.pos, f.t.types, bad) {
        reader::varint_advances(d, m);
        if let (Ok(n), q) = reader::varint_at(d, m) {
            let block = s.module.blocks.len();
            let entered = BodyState {
                pos: q,
                values: s.values + s.module.fresh_values(arg_types.len()),
                module: s.module.with_block(arg_types),
            };
            let list = f.op_list(d, entered, n as nat, block);
            encoding::holds_split(e, r, d.subrange(s.pos, q), list);
            held_part_agrees(d, s.pos, q, e, r);
            moves::var_type_refs_move(d, e, s.pos, q, r - s.pos, f.t.types, bad);
            moves::varint_moves(d, e, m, q, r - s.pos);
            newer_op_list(f, d, entered, n as nat, block, e, r + (q - s.pos));
        }
    }
}

proof fn newer_op_list(
    f: Rise,
    d: Seq<u8>,
    s: BodyState,
    n: nat,
    block: nat,
    e: Seq<u8>,
    r: int,
)
    requires
        f.wf(),
        0 <= s.pos <= d.len(),
        ops::op_list_at(d, s, f.t, f.from, n, block).0 is Ok,
        encoding::holds(e, r, f.op_list(d, s, n, block)),
    ensures
        ops::op_list_at(e, BodyState { pos: r, ..s }, f.t, f.to, n, block) == (
            ops::op_list_at(d, s, f.t, f.from, n, block).0,
            BodyState {
                pos: r + f.op_list(d, s, n, block).len(),
                ..ops::op_list_at(d, s, f.t, f.from, n, block).1
            },
        ),
    decreases d.len() - s.pos, 2int, n,
{
    if n > 0 {
        reader::varint_advances(d, s.pos);
        if let (Ok(v), q) = reader::varint_at(d, s.pos) {
            if let Some(op) = opcode::opcode_of(ops::code_of(v)) {
                let behind = BodyState { pos: q, ..s };
                let code = d.subrange(s.pos, q);
                let first = f.op(op, d, behind, block);
                if let (Ok(_), next) = ops::op_at(op, d, behind, f.t, f.from, block) {
                    let rest = f.op_list(d, next, (n - 1) as nat, block);
                    encoding::holds_split(e, r, code + first, rest);
                    encoding::holds_split(e, r, code, first);
                    held_part_agrees(d, s.pos, q, e, r);
                    moves::varint_moves(d, e, s.pos, q, r - s.pos);
                    newer_op(f, op, d, behind, block, e, r + code.len());
                    newer_op_list(
                        f,
                        d,
                        next,
                        (n - 1) as nat,
                        block,
                        e,
                        r + code.len() + first.len(),
                    );
                }
            }
        }
    }
}

/// Any bytes that are read as a function body of an older version are, rewritten for a
/// later one, read as the same body: the same operations, with the same types, attributes,
/// operands and regions, are built, in the nested blocks too.
pub proof fn a_newer_body_is_the_same(
    f: Rise,
    d: Seq<u8>,
    s: BodyState,
    block: nat,
    e: Seq<u8>,
    r: int,
)
    requires
        f.wf(),
        0 <= s.pos <= d.len(),
        ops::body_at(d, s, f.t, f.from, block).0 is Ok,
        encoding::holds(e, r, f.body(d, s, block)),
        r + f.body(d, s, block).len() == e.len(),
    ensures
        ops::body_at(e, BodyState { pos: r, ..s }, f.t, f.to, block) == (
            Ok::<(), DecodeError>(()),
            BodyState {
                pos: e.len() as int,
                ..ops::body_at(d, s, f.t, f.from, block).1
            },
        ),
    decreases d.len() - s.pos,
{
    if s.pos < d.len() {
        reader::varint_advances(d, s.pos);
        if let (Ok(v), q) = reader::varint_at(d, s.pos) {
            if let Some(op) = opcode::opcode_of(ops::code_of(v)) {
                let behind = BodyState { pos: q, ..s };
                let code = d.subrange(s.pos, q);
                let first = f.op(op, d, behind, block);
                if let (Ok(_), next) = ops::op_at(op, d, behind, f.t, f.from, block) {
                    let rest = f.body(d, next, block);
                    encoding::holds_split(e, r, code + first, rest);
                    encoding::holds_split(e, r, code, first);
                    held_part_agrees(d, s.pos, q, e, r);
                    moves::varint_moves(d, e, s.pos, q, r - s.pos);
                    newer_op(f, op, d, behind, block, e, r + code.len());
                    a_newer_body_is_the_same(
                        f,
                        d,
                        next,
                        block,
                        e,
                        r + code.len() + first.len(),
                    );
                }
            }
        }
    }
}

/// The shortest forms of the defaults are read as the defaults.
pub proof fn shortest_forms_spell_the_defaults()
    ensures
        spells_defaults(
            |op: Opcode, p: int| encoding::varint_form(version_laws::added_default(op) as nat),
        ),
{
    let spell = |op: Opcode, p: int|
        encoding::varint_form(version_laws::added_default(op) as nat);
    assert forall|op: Opcode, p: int|
        reader::varint_at(#[trigger] spell(op, p), 0) == (
            Ok::<u64, DecodeError>(version_laws::added_default(op)),
            spell(op, p).len() as int,
        ) by {
        let x = spell(op, p);
        assert(x.subrange(0, x.len() as int) =~= x);
        encoding::varint_round_trip(x, 0, version_laws::added_default(op));
    }
}

/// A function whose body is rewritten for a later version is put into a module as it was in
/// the older version.
pub proof fn a_newer_function_is_the_same(f: Rise, m: ModuleModel, g: FunctionModel)
    requires
        f.wf(),
        functions::with_function(m, g, f.t, f.from).0 is Ok,
    ensures
        g.signature is Func,
        ({
            let entry = functions::entry_state(m, g.signature->Func_inputs);
            let newer = FunctionModel { body: f.body(g.body, entry, m.blocks.len()), ..g };
            functions::with_function(m, newer, f.t, f.to) == functions::with_function(
                m,
                g,
                f.t,
                f.from,
            )
        }),
{
    if let TypeModel::Func { inputs, .. } = g.signature {
        let entry = functions::entry_state(m, inputs);
        let e = f.body(g.body, entry, m.blocks.len());
        assert(e.subrange(0, e.len() as int) =~= e);
        a_newer_body_is_the_same(f, g.body, entry, m.blocks.len(), e, 0);
    }
}

} // verus!
