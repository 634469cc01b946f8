//! What the bytes of each operation mean.
//!
//! An operation is a row of numbers: the indices of the types of its results, its attributes
//! and the indices of its operands, and where an attribute is none, what stands in its place.
//! The laws say of each operation which number has which meaning, when the bytes are read as
//! the operation, and where it ends.

use vstd::prelude::*;

use crate::bytecode::attributes;
use crate::bytecode::attributes::TablesModel;
use crate::bytecode::enums::BytecodeVersion;
use crate::bytecode::opcode::Opcode;
use crate::bytecode::ops;
use crate::bytecode::ops::{Attributes, OpFields, OperandGroup};
use crate::bytecode::reader;
use crate::bytecode::reader::Step;
use crate::bytecode::types;
use crate::error::DecodeError;
use crate::ir::{AttributeModel, ElementModel, ScalarType, TypeModel};

verus! {

/// The number of a row of numbers that has `i` before it.
pub open spec fn number(d: Seq<u8>, p: int, i: nat) -> u64
    decreases i,
{
    if i == 0 {
        reader::varint_at(d, p).0->Ok_0
    } else {
        number(d, reader::varint_at(d, p).1, (i - 1) as nat)
    }
}

/// The position behind `n` numbers, where they are all there.
pub open spec fn behind(d: Seq<u8>, p: int, n: nat) -> Option<int>
    decreases n,
{
    if n == 0 {
        Some(p)
    } else {
        match reader::varint_at(d, p) {
            (Ok(_), q) => behind(d, q, (n - 1) as nat),
            (Err(_), _) => None,
        }
    }
}

/// `n` numbers in a row are there and are all indices of a table.
pub open spec fn are_indices<T>(d: Seq<u8>, p: int, from: nat, n: nat, table: Seq<T>) -> bool {
    &&& behind(d, p, from + n) is Some
    &&& forall|i: nat| from <= i < from + n ==> #[trigger] number(d, p, i) < table.len()
}

/// What `n` numbers in a row are the indices of.
pub open spec fn entries<T>(d: Seq<u8>, p: int, from: nat, n: nat, table: Seq<T>) -> Seq<T> {
    Seq::new(n, |i: int| table[number(d, p, (from + i) as nat) as int])
}

/// A number of 64 bits as the signed one with the same bits.
pub open spec fn two_complement(v: u64) -> i64 {
    if v < 0x8000_0000_0000_0000 {
        v as i64
    } else {
        (v - 0x1_0000_0000_0000_0000) as i64
    }
}

/// A 32-bit integer attribute.
pub open spec fn integer(v: u64) -> AttributeModel {
    AttributeModel::Integer(two_complement(v), TypeModel::Scalar(ScalarType::I32))
}

/// An attribute that is there where a condition holds.
pub open spec fn flag(there: bool, name: Seq<char>) -> Attributes {
    if there {
        seq![(name, AttributeModel::Bool(true))]
    } else {
        Seq::empty()
    }
}

/// Attributes and the position behind their bytes.
pub type Read = Option<(Attributes, int)>;

/// Integers in a row, behind `from` other numbers, under their names.
pub open spec fn named(d: Seq<u8>, p: int, from: nat, names: Seq<Seq<char>>) -> Attributes {
    Seq::new(names.len(), |i: int| (names[i], integer(number(d, p, (from + i) as nat))))
}

/// Attributes where the numbers are there that they are made of.
pub open spec fn of_numbers(d: Seq<u8>, p: int, n: nat, attrs: Attributes) -> Read {
    match behind(d, p, n) {
        Some(q) => Some((attrs, q)),
        None => None,
    }
}

/// Integers in a row under their names.
pub open spec fn ints(d: Seq<u8>, p: int, names: Seq<Seq<char>>) -> Read {
    of_numbers(d, p, names.len(), named(d, p, 0, names))
}

/// The attribute of an operand list in groups: the size of each group, as a 32-bit number.
pub open spec fn are_sizes(a: (Seq<char>, AttributeModel), sizes: Seq<nat>) -> bool {
    &&& a.0 == "operandSegmentSizes"@
    &&& a.1 matches AttributeModel::Array(v) && {
        &&& v.len() == sizes.len()
        &&& forall|i: int|
            0 <= i < sizes.len() ==> (#[trigger] v[i] matches AttributeModel::Integer(n, ty) && {
                &&& ty == TypeModel::Scalar(ScalarType::I32)
                &&& -0x8000_0000 <= n < 0x8000_0000
                &&& (sizes[i] - n) % 0x1_0000_0000 == 0
            })
    }
}

/// What is read of an operation, and where.
pub struct Site {
    pub d: Seq<u8>,
    pub p: int,
    pub t: TablesModel,
    pub version: BytecodeVersion,
    pub values: Seq<nat>,
}

impl Site {
    /// A position in the bytes.
    pub open spec fn wf(self) -> bool {
        0 <= self.p <= self.d.len()
    }

    /// What is read.
    pub open spec fn fields(self, op: Opcode) -> Step<OpFields> {
        ops::op_fields_at(op, self.d, self.p, self.t, self.version, self.values)
    }

    /// The version is 13.`minor` or a later one.
    pub open spec fn since(self, minor: u8) -> bool {
        self.version.major > 13 || self.version.major == 13 && self.version.minor >= minor
    }

    /// The position behind `n` numbers.
    pub open spec fn at(self, n: nat) -> int {
        match behind(self.d, self.p, n) {
            Some(m) => m,
            None => self.p,
        }
    }

    /// An operation whose result types are `results` numbers behind `from` others, whose
    /// attributes come next, and whose operands are `n` numbers behind `skip` others behind
    /// them. It is read exactly where all of that is there and all indices are in range.
    pub open spec fn reads(
        self,
        op: Opcode,
        from: nat,
        results: nat,
        attrs: Read,
        skip: nat,
        n: nat,
    ) -> bool {
        let types_there = are_indices(self.d, self.p, from, results, self.t.types);
        let there = types_there && attrs is Some && are_indices(
            self.d,
            attrs->Some_0.1,
            skip,
            n,
            self.values,
        );
        &&& self.fields(op).0 is Ok <==> there
        &&& there ==> self.fields(op) == (
            Ok::<OpFields, DecodeError>(
                OpFields {
                    result_types: entries(self.d, self.p, from, results, self.t.types),
                    attributes: attrs->Some_0.0,
                    operands: entries(self.d, attrs->Some_0.1, skip, n, self.values),
                },
            ),
            behind(self.d, attrs->Some_0.1, skip + n)->0,
        )
    }

    /// An operation with a fixed number of results, integers under their names, and a fixed
    /// number of operands.
    pub open spec fn plain(self, op: Opcode, results: nat, names: Seq<Seq<char>>, n: nat) -> bool {
        self.reads(op, 0, results, ints(self.d, self.at(results), names), 0, n)
    }

    /// An operation with one result, flags, integers under their names, attributes for the
    /// two lowest flags, and a fixed number of operands.
    pub open spec fn flagged(
        self,
        op: Opcode,
        names: Seq<Seq<char>>,
        low: Attributes,
        n: nat,
    ) -> bool {
        let m = self.at(1);
        let attrs = of_numbers(self.d, m, 1 + names.len(), named(self.d, m, 1, names) + low);
        self.reads(op, 0, 1, attrs, 0, n)
    }

    /// The flags of an operation with one result.
    pub open spec fn flags(self) -> u64 {
        number(self.d, self.at(1), 0)
    }
}

// ---- rows of numbers ----

proof fn numbers_join(d: Seq<u8>, p: int, a: nat, b: nat)
    requires
        behind(d, p, a) is Some,
    ensures
        behind(d, p, a + b) == behind(d, behind(d, p, a)->0, b),
        forall|i: nat| number(d, p, a + i) == #[trigger] number(d, behind(d, p, a)->0, i),
    decreases a,
{
    if a > 0 {
        let q = reader::varint_at(d, p).1;
        numbers_join(d, q, (a - 1) as nat, b);
        assert forall|i: nat| number(d, p, a + i) == #[trigger] number(
            d,
            behind(d, p, a)->0,
            i,
        ) by {
            assert(number(d, p, a + i) == number(d, q, (a - 1 + i) as nat));
            assert(number(d, q, ((a - 1) as nat) + i) == number(
                d,
                behind(d, q, (a - 1) as nat)->0,
                i,
            ));
        }
    }
}

/// Fewer numbers are there where more are, and all inside the buffer.
proof fn fewer_are_there(d: Seq<u8>, p: int, a: nat, b: nat)
    requires
        0 <= p <= d.len(),
        a <= b,
    ensures
        behind(d, p, b) is Some ==> behind(d, p, a) is Some,
        behind(d, p, a) matches Some(q) ==> p <= q <= d.len(),
    decreases a,
{
    if a > 0 {
        reader::varint_advances(d, p);
        if let (Ok(_), q) = reader::varint_at(d, p) {
            fewer_are_there(d, q, (a - 1) as nat, (b - 1) as nat);
        }
    }
}

proof fn ints_are_numbers(d: Seq<u8>, p: int, names: Seq<Seq<char>>, acc: Attributes)
    ensures
        ops::ints_at(d, p, names, acc).0 is Ok <==> behind(d, p, names.len()) is Some,
        behind(d, p, names.len()) matches Some(q) ==> ops::ints_at(d, p, names, acc) == (
            Ok::<Attributes, DecodeError>(acc + named(d, p, 0, names)),
            q,
        ),
    decreases names.len(),
{
    if names.len() == 0 {
        assert(acc + named(d, p, 0, names) =~= acc);
    } else if let (Ok(v), q) = reader::varint_at(d, p) {
        let rest = names.skip(1);
        let next = acc.push((names[0], ops::int_attribute(v)));
        ints_are_numbers(d, q, rest, next);
        assert forall|i: int| 0 <= i < rest.len() implies #[trigger] named(d, q, 0, rest)[i]
            == named(d, p, 0, names)[i + 1] by {
            assert(number(d, p, (0 + (i + 1)) as nat) == number(d, q, i as nat));
        }
        assert(named(d, p, 0, names)[0] == (names[0], ops::int_attribute(v)));
        assert(next + named(d, q, 0, rest) =~= acc + named(d, p, 0, names));
    }
}

proof fn one_fewer<T>(d: Seq<u8>, p: int, n: nat, table: Seq<T>)
    requires
        n > 0,
    ensures
        are_indices(d, p, 0, n, table) <==> {
            &&& reader::varint_at(d, p).0 matches Ok(v) && v < table.len()
            &&& are_indices(d, reader::varint_at(d, p).1, 0, (n - 1) as nat, table)
        },
        entries(d, p, 0, n, table) == seq![table[number(d, p, 0) as int]] + entries(
            d,
            reader::varint_at(d, p).1,
            0,
            (n - 1) as nat,
            table,
        ),
{
    let q = reader::varint_at(d, p).1;
    if are_indices(d, p, 0, n, table) {
        assert(number(d, p, 0) < table.len());
        assert forall|i: nat| 0 <= i < 0 + (n - 1) as nat implies #[trigger] number(d, q, i)
            < table.len() by {
            assert(number(d, p, i + 1) == number(d, q, i));
        }
    }
    if (reader::varint_at(d, p).0 matches Ok(v) && v < table.len()) && are_indices(
        d,
        q,
        0,
        (n - 1) as nat,
        table,
    ) {
        assert forall|i: nat| 0 <= i < 0 + n implies #[trigger] number(d, p, i) < table.len() by {
            if i > 0 {
                assert(number(d, q, (i - 1) as nat) < table.len());
            }
        }
    }
    let rest = entries(d, q, 0, (n - 1) as nat, table);
    assert forall|i: int| 0 < i < n implies #[trigger] entries(d, p, 0, n, table)[i] == rest[i
        - 1] by {
        assert(number(d, p, (0 + i) as nat) == number(d, q, (0 + (i - 1)) as nat));
    }
    assert(entries(d, p, 0, n, table) =~= seq![table[number(d, p, 0) as int]] + rest);
}

proof fn operands_are_indices(d: Seq<u8>, p: int, values: Seq<nat>, n: nat, acc: Seq<nat>)
    ensures
        ops::operands_at(d, p, values, n, acc).0 is Ok <==> are_indices(d, p, 0, n, values),
        are_indices(d, p, 0, n, values) ==> ops::operands_at(d, p, values, n, acc) == (
            Ok::<Seq<nat>, DecodeError>(acc + entries(d, p, 0, n, values)),
            behind(d, p, n)->0,
        ),
    decreases n,
{
    if n == 0 {
        assert(acc + entries(d, p, 0, n, values) =~= acc);
    } else {
        one_fewer(d, p, n, values);
        if let (Ok(v), q) = reader::varint_at(d, p) {
            if v < values.len() {
                let next = acc.push(values[v as int]);
                operands_are_indices(d, q, values, (n - 1) as nat, next);
                assert(next + entries(d, q, 0, (n - 1) as nat, values) =~= acc + entries(
                    d,
                    p,
                    0,
                    n,
                    values,
                ));
            }
        }
    }
}

/// A list of types is a list of indices in range.
pub proof fn types_are_indices(
    d: Seq<u8>,
    p: int,
    table: Seq<TypeModel>,
    n: nat,
    bad: DecodeError,
    acc: Seq<TypeModel>,
)
    ensures
        types::type_refs_at(d, p, table, n, bad, acc).0 is Ok <==> are_indices(d, p, 0, n, table),
        are_indices(d, p, 0, n, table) ==> types::type_refs_at(d, p, table, n, bad, acc) == (
            Ok::<Seq<TypeModel>, DecodeError>(acc + entries(d, p, 0, n, table)),
            behind(d, p, n)->0,
        ),
    decreases n,
{
    if n == 0 {
        assert(acc + entries(d, p, 0, n, table) =~= acc);
    } else {
        one_fewer(d, p, n, table);
        if let (Ok(v), q) = reader::varint_at(d, p) {
            if v < table.len() {
                let next = acc.push(table[v as int]);
                types_are_indices(d, q, table, (n - 1) as nat, bad, next);
                assert(next + entries(d, q, 0, (n - 1) as nat, table) =~= acc + entries(
                    d,
                    p,
                    0,
                    n,
                    table,
                ));
            }
        }
    }
}

/// Indices behind other numbers.
proof fn indices_behind<T>(d: Seq<u8>, p: int, from: nat, n: nat, table: Seq<T>)
    requires
        behind(d, p, from) is Some,
    ensures
        are_indices(d, p, from, n, table) <==> are_indices(d, behind(d, p, from)->0, 0, n, table),
        entries(d, p, from, n, table) == entries(d, behind(d, p, from)->0, 0, n, table),
        behind(d, p, from + n) == behind(d, behind(d, p, from)->0, n),
{
    let q = behind(d, p, from)->0;
    numbers_join(d, p, from, n);
    if are_indices(d, p, from, n, table) {
        assert forall|i: nat| 0 <= i < 0 + n implies #[trigger] number(d, q, i) < table.len() by {
            assert(number(d, p, from + i) < table.len());
        }
    }
    if are_indices(d, q, 0, n, table) {
        assert forall|i: nat| from <= i < from + n implies #[trigger] number(d, p, i)
            < table.len() by {
            assert(number(d, q, (i - from) as nat) < table.len());
            assert(number(d, p, from + (i - from) as nat) == number(d, q, (i - from) as nat));
        }
    }
    assert forall|i: int| 0 <= i < n implies #[trigger] entries(d, p, from, n, table)[i]
        == entries(d, q, 0, n, table)[i] by {
        assert(number(d, p, from + i as nat) == number(d, q, i as nat));
    }
    assert(entries(d, p, from, n, table) =~= entries(d, q, 0, n, table));
}

/// The types of the results, as numbers.
proof fn result_types_are_indices(s: Site, op: Opcode, from: nat, results: nat)
    requires
        match op.spec_result_count() {
            Some(n) => from == 0 && results == n,
            None => from == 1 && results == number(s.d, s.p, 0),
        },
    ensures
        ({
            let there = are_indices(s.d, s.p, from, results, s.t.types);
            let read = ops::result_types_at(op, s.d, s.p, s.t);
            &&& read.0 is Ok <==> there
            &&& there ==> read == (
                Ok::<Seq<TypeModel>, DecodeError>(
                    entries(s.d, s.p, from, results, s.t.types),
                ),
                s.at(from + results),
            )
        }),
{
    let bad = DecodeError::ResultTypeIndex;
    let none = Seq::<TypeModel>::empty();
    match op.spec_result_count() {
        Some(n) => {
            types_are_indices(s.d, s.p, s.t.types, n as nat, bad, none);
            assert(none + entries(s.d, s.p, 0, results, s.t.types) =~= entries(
                s.d,
                s.p,
                0,
                results,
                s.t.types,
            ));
        },
        None => {
            if let (Ok(n), q) = reader::varint_at(s.d, s.p) {
                assert(behind(s.d, q, 0) == Some(q));
                assert(behind(s.d, s.p, 1) == Some(q));
                indices_behind(s.d, s.p, 1, results, s.t.types);
                types_are_indices(s.d, q, s.t.types, n as nat, bad, none);
                assert(none + entries(s.d, q, 0, results, s.t.types) =~= entries(
                    s.d,
                    q,
                    0,
                    results,
                    s.t.types,
                ));
            } else {
                assert(behind(s.d, s.p, 1 + results) is None);
            }
        },
    }
}

/// What an operation reads, from what its attributes read, where its operands come without
/// groups: a fixed number of them, or a count and as many.
proof fn fields_from_attributes(
    s: Site,
    op: Opcode,
    from: nat,
    results: nat,
    attrs: Read,
    flags: u64,
    skip: nat,
    n: nat,
)
    requires
        match op.spec_result_count() {
            Some(k) => from == 0 && results == k,
            None => from == 1 && results == number(s.d, s.p, 0),
        },
        ops::operand_groups(op, flags) is None,
        are_indices(s.d, s.p, from, results, s.t.types) ==> {
            let read = ops::op_attributes_at(
                op,
                s.d,
                s.at(from + results),
                s.t,
                s.version,
                entries(s.d, s.p, from, results, s.t.types),
            );
            &&& read.0 is Ok <==> attrs is Some
            &&& attrs matches Some(a) ==> read == (
                Ok::<(Attributes, u64), DecodeError>((a.0, flags)),
                a.1,
            )
        },
        match op.spec_operand_count() {
            Some(k) => skip == 0 && n == k,
            None => skip == 1 && n == number(s.d, attrs->Some_0.1, 0),
        },
    ensures
        s.reads(op, from, results, attrs, skip, n),
{
    reveal(ops::op_fields_at);
    result_types_are_indices(s, op, from, results);
    if are_indices(s.d, s.p, from, results, s.t.types) && attrs is Some {
        let u = attrs->Some_0.1;
        let none = Seq::<nat>::empty();
        match op.spec_operand_count() {
            Some(_) => {
                operands_are_indices(s.d, u, s.values, n, none);
                assert(none + entries(s.d, u, 0, n, s.values) =~= entries(
                    s.d,
                    u,
                    0,
                    n,
                    s.values,
                ));
            },
            None => {
                if let (Ok(k), q) = reader::varint_at(s.d, u) {
                    assert(behind(s.d, q, 0) == Some(q));
                    assert(behind(s.d, u, 1) == Some(q));
                    indices_behind(s.d, u, 1, n, s.values);
                    operands_are_indices(s.d, q, s.values, n, none);
                    assert(none + entries(s.d, q, 0, n, s.values) =~= entries(
                        s.d,
                        q,
                        0,
                        n,
                        s.values,
                    ));
                } else {
                    assert(behind(s.d, u, 1 + n) is None);
                }
            },
        }
        if let (Ok(result_types), m) = ops::result_types_at(op, s.d, s.p, s.t) {
            let read = ops::op_attributes_at(op, s.d, m, s.t, s.version, result_types);
            assert(ops::with_segments(attrs->Some_0.0, Seq::empty()) == attrs->Some_0.0);
        }
    }
}

proof fn plain_reads(s: Site, op: Opcode, results: nat, names: Seq<Seq<char>>, n: nat)
    requires
        op.spec_result_count() == Some(results as usize),
        results <= 3,
        op.spec_operand_count() == Some(n as usize),
        n <= 5,
        ops::operand_groups(op, 0) is None,
        ({
            let m = s.at(results);
            ops::op_attributes_at(
                op,
                s.d,
                m,
                s.t,
                s.version,
                entries(s.d, s.p, 0, results, s.t.types),
            ) == match ops::ints_at(s.d, m, names, Seq::empty()) {
                (Err(e), q) => (Err(e), q),
                (Ok(a), q) => (Ok((a, 0u64)), q),
            }
        }),
    ensures
        s.plain(op, results, names, n),
{
    let m = s.at(results);
    ints_are_numbers(s.d, m, names, Seq::empty());
    assert(Seq::<(Seq<char>, AttributeModel)>::empty() + named(s.d, m, 0, names) =~= named(
        s.d,
        m,
        0,
        names,
    ));
    fields_from_attributes(s, op, 0, results, ints(s.d, m, names), 0, 0, n);
}

proof fn flagged_reads(s: Site, op: Opcode, names: Seq<Seq<char>>, low: Attributes, n: nat)
    requires
        op.spec_result_count() == Some(1usize),
        op.spec_operand_count() == Some(n as usize),
        n <= 5,
        ops::operand_groups(op, s.flags()) is None,
        ({
            let m = s.at(1);
            let attrs = named(s.d, m, 1, names) + low;
            ops::op_attributes_at(
                op,
                s.d,
                m,
                s.t,
                s.version,
                entries(s.d, s.p, 0, 1, s.t.types),
            ) == match ops::flags_and_ints_at(s.d, m, names) {
                (Err(e), q) => (Err(e), q),
                (Ok((a, f)), q) => (Ok((a + low, f)), q),
            }
        }),
    ensures
        s.flagged(op, names, low, n),
{
    let m = s.at(1);
    let attrs = of_numbers(s.d, m, 1 + names.len(), named(s.d, m, 1, names) + low);
    flags_are_numbers(s.d, m, names);
    fields_from_attributes(s, op, 0, 1, attrs, s.flags(), 0, n);
}

/// Flags and integers, as numbers.
proof fn flags_are_numbers(d: Seq<u8>, m: int, names: Seq<Seq<char>>)
    ensures
        ops::flags_and_ints_at(d, m, names).0 is Ok <==> behind(d, m, 1 + names.len()) is Some,
        behind(d, m, 1 + names.len()) matches Some(q) ==> ops::flags_and_ints_at(d, m, names) == (
            Ok::<(Attributes, u64), DecodeError>((named(d, m, 1, names), number(d, m, 0))),
            q,
        ),
{
    if let (Ok(_), q) = reader::varint_at(d, m) {
        ints_are_numbers(d, q, names, Seq::empty());
        assert(behind(d, q, 0) == Some(q));
        assert(behind(d, m, 1) == Some(q));
        numbers_join(d, m, 1, names.len());
        let none = Seq::<(Seq<char>, AttributeModel)>::empty();
        assert forall|i: int| 0 <= i < names.len() implies #[trigger] named(d, m, 1, names)[i]
            == named(d, q, 0, names)[i] by {
            assert(number(d, m, 1 + i as nat) == number(d, q, i as nat));
        }
        assert(none + named(d, q, 0, names) =~= named(d, m, 1, names));
    } else {
        assert(behind(d, m, 1 + names.len()) is None);
    }
}

// ---- the operations ----

/// A token and a sequence of indices have one result and nothing else.
pub proof fn values_from_nothing(s: Site, op: Opcode)
    requires
        s.wf(),
        op is MakeToken || op is Iota,
    ensures
        s.plain(op, 1, Seq::empty(), 0),
{
    plain_reads(s, op, 1, Seq::empty(), 0);
}

/// The number of a block and the numbers of blocks have three results and nothing else.
pub proof fn block_numbers(s: Site, op: Opcode)
    requires
        s.wf(),
        op is GetTileBlockId || op is GetNumTileBlocks,
    ensures
        s.plain(op, 3, Seq::empty(), 0),
{
    plain_reads(s, op, 3, Seq::empty(), 0);
}

/// Unary operations have one result, no attributes and one operand.
pub proof fn unary_operations(s: Site, op: Opcode)
    requires
        s.wf(),
        op is AbsF || op is AbsI || op is Bitcast || op is Broadcast || op is Ceil || op is Cos || op is CosH || op is Floor || op is IntToPtr || op is Log || op is Log2 || op is NegF || op is PtrToInt || op is PtrToPtr || op is Reshape || op is Sin || op is SinH || op is Tan || op is MakePartitionView || op is MakeStridedView || op is MakeGatherScatterView || op is Pack || op is Unpack,
    ensures
        s.plain(op, 1, Seq::empty(), 1),
{
    plain_reads(s, op, 1, Seq::empty(), 1);
}

/// Binary operations have one result, no attributes and two operands.
pub proof fn binary_operations(s: Site, op: Opcode)
    requires
        s.wf(),
        op is AndI || op is Atan2 || op is MulhiI || op is Offset || op is OrI || op is Pow || op is RemF || op is XOrI,
    ensures
        s.plain(op, 1, Seq::empty(), 2),
{
    plain_reads(s, op, 1, Seq::empty(), 2);
}

/// A selection has one result, no attributes and three operands.
pub proof fn selections(s: Site, op: Opcode)
    requires
        s.wf(),
        op is Select,
    ensures
        s.plain(op, 1, Seq::empty(), 3),
{
    plain_reads(s, op, 1, Seq::empty(), 3);
}

/// A scaled matrix product has one result, no attributes and five operands.
pub proof fn scaled_products(s: Site, op: Opcode)
    requires
        s.wf(),
        op is MmaFScaled,
    ensures
        s.plain(op, 1, Seq::empty(), 5),
{
    plain_reads(s, op, 1, Seq::empty(), 5);
}

/// Integer arithmetic has its overflow, and two operands.
pub proof fn integer_arithmetic(s: Site, op: Opcode)
    requires
        s.wf(),
        op is AddI || op is MulI || op is SubI || op is ShLI,
    ensures
        s.plain(op, 1, seq!["overflow"@], 2),
{
    plain_reads(s, op, 1, seq!["overflow"@], 2);
}

/// A truncation has its overflow, and one operand.
pub proof fn truncations(s: Site, op: Opcode)
    requires
        s.wf(),
        op is TruncI,
    ensures
        s.plain(op, 1, seq!["overflow"@], 1),
{
    plain_reads(s, op, 1, seq!["overflow"@], 1);
}

/// Integer arithmetic that depends on the sign has its signedness, and two operands.
pub proof fn signed_arithmetic(s: Site, op: Opcode)
    requires
        s.wf(),
        op is ShRI || op is MaxI || op is MinI || op is RemI,
    ensures
        s.plain(op, 1, seq!["signedness"@], 2),
{
    plain_reads(s, op, 1, seq!["signedness"@], 2);
}

/// An extension has its signedness, and one operand.
pub proof fn extensions(s: Site, op: Opcode)
    requires
        s.wf(),
        op is ExtI,
    ensures
        s.plain(op, 1, seq!["signedness"@], 1),
{
    plain_reads(s, op, 1, seq!["signedness"@], 1);
}

/// A concatenation has its dimension, and two operands.
pub proof fn concatenations(s: Site, op: Opcode)
    requires
        s.wf(),
        op is Cat,
    ensures
        s.plain(op, 1, seq!["dim"@], 2),
{
    plain_reads(s, op, 1, seq!["dim"@], 2);
}

/// A comparison of floats has its predicate, then its ordering, and two operands.
pub proof fn float_comparisons(s: Site, op: Opcode)
    requires
        s.wf(),
        op is CmpF,
    ensures
        s.plain(op, 1, seq!["comparison_predicate"@, "comparison_ordering"@], 2),
{
    plain_reads(s, op, 1, seq!["comparison_predicate"@, "comparison_ordering"@], 2);
}

/// A comparison of integers has its predicate, then its signedness, and two operands.
pub proof fn integer_comparisons(s: Site, op: Opcode)
    requires
        s.wf(),
        op is CmpI,
    ensures
        s.plain(op, 1, seq!["comparison_predicate"@, "signedness"@], 2),
{
    plain_reads(s, op, 1, seq!["comparison_predicate"@, "signedness"@], 2);
}

/// A division of integers has its signedness, then its rounding, and two operands.
pub proof fn integer_divisions(s: Site, op: Opcode)
    requires
        s.wf(),
        op is DivI,
    ensures
        s.plain(op, 1, seq!["signedness"@, "rounding"@], 2),
{
    plain_reads(s, op, 1, seq!["signedness"@, "rounding"@], 2);
}

/// A conversion between floats and integers has its signedness, then its rounding mode, and
/// one operand.
pub proof fn float_integer_conversions(s: Site, op: Opcode)
    requires
        s.wf(),
        op is FToI || op is IToF,
    ensures
        s.plain(op, 1, seq!["signedness"@, "rounding_mode"@], 1),
{
    plain_reads(s, op, 1, seq!["signedness"@, "rounding_mode"@], 1);
}

/// A conversion between floats has its rounding mode, and one operand.
pub proof fn float_conversions(s: Site, op: Opcode)
    requires
        s.wf(),
        op is FToF,
    ensures
        s.plain(op, 1, seq!["rounding_mode"@], 1),
{
    plain_reads(s, op, 1, seq!["rounding_mode"@], 1);
}

/// A product of integer matrices has the signedness of the left, then of the right, and three
/// operands.
pub proof fn integer_products(s: Site, op: Opcode)
    requires
        s.wf(),
        op is MmaI,
    ensures
        s.plain(op, 1, seq!["signedness_lhs"@, "signedness_rhs"@], 3),
{
    plain_reads(s, op, 1, seq!["signedness_lhs"@, "signedness_rhs"@], 3);
}

/// Float arithmetic has flags, of which the lowest says that small results are flushed, then
/// its rounding mode, and two operands.
pub proof fn float_arithmetic(s: Site, op: Opcode)
    requires
        s.wf(),
        op is AddF || op is DivF || op is MulF || op is SubF,
    ensures
        s.flagged(
            op,
            seq!["rounding_mode"@],
            flag(s.flags() % 2 == 1, "flush_to_zero"@),
            2,
        ),
{
    let low = flag(s.flags() % 2 == 1, "flush_to_zero"@);
    assert(forall|a: Attributes| #[trigger] (a + low) =~= ops::with_flag(a, s.flags() % 2 == 1, "flush_to_zero"@));
    flagged_reads(s, op, seq!["rounding_mode"@], low, 2);
}

/// A fused multiplication and addition is float arithmetic with three operands.
pub proof fn multiply_adds(s: Site, op: Opcode)
    requires
        s.wf(),
        op is Fma,
    ensures
        s.flagged(
            op,
            seq!["rounding_mode"@],
            flag(s.flags() % 2 == 1, "flush_to_zero"@),
            3,
        ),
{
    let low = flag(s.flags() % 2 == 1, "flush_to_zero"@);
    assert(forall|a: Attributes| #[trigger] (a + low) =~= ops::with_flag(a, s.flags() % 2 == 1, "flush_to_zero"@));
    flagged_reads(s, op, seq!["rounding_mode"@], low, 3);
}

/// A square root is float arithmetic with one operand.
pub proof fn square_roots(s: Site, op: Opcode)
    requires
        s.wf(),
        op is Sqrt,
    ensures
        s.flagged(
            op,
            seq!["rounding_mode"@],
            flag(s.flags() % 2 == 1, "flush_to_zero"@),
            1,
        ),
{
    let low = flag(s.flags() % 2 == 1, "flush_to_zero"@);
    assert(forall|a: Attributes| #[trigger] (a + low) =~= ops::with_flag(a, s.flags() % 2 == 1, "flush_to_zero"@));
    flagged_reads(s, op, seq!["rounding_mode"@], low, 1);
}

/// Exponentials to the base two and inverse roots have flags, of which the lowest says that
/// small results are flushed, and one operand.
pub proof fn binary_exponentials(s: Site, op: Opcode)
    requires
        s.wf(),
        op is Exp2 || op is Rsqrt,
    ensures
        s.flagged(
            op,
            Seq::empty(),
            flag(s.flags() % 2 == 1, "flush_to_zero"@),
            1,
        ),
{
    let low = flag(s.flags() % 2 == 1, "flush_to_zero"@);
    assert(forall|a: Attributes| #[trigger] (a + low) =~= ops::with_flag(a, s.flags() % 2 == 1, "flush_to_zero"@));
    flagged_reads(s, op, Seq::empty(), low, 1);
}

/// The greater and the lesser of two floats have flags: the lowest says that what is no number
/// is passed on, the next that small results are flushed.
pub proof fn float_extrema(s: Site, op: Opcode)
    requires
        s.wf(),
        op is MaxF || op is MinF,
    ensures
        s.flagged(
            op,
            Seq::empty(),
            flag(s.flags() % 2 == 1, "propagate_nan"@) + flag((s.flags() / 2) % 2 == 1, "flush_to_zero"@),
            2,
        ),
{
    let low = flag(s.flags() % 2 == 1, "propagate_nan"@) + flag((s.flags() / 2) % 2 == 1, "flush_to_zero"@);
    assert(forall|a: Attributes| #[trigger] (a + low) =~= ops::with_flag(
        ops::with_flag(a, s.flags() % 2 == 1, "propagate_nan"@),
        (s.flags() / 2) % 2 == 1,
        "flush_to_zero"@,
    ));
    flagged_reads(s, op, Seq::empty(), low, 2);
}

/// An allocation has flags, of which the lowest says that it is global, then its number of
/// elements, then its alignment, and no operands.
pub proof fn allocations(s: Site, op: Opcode)
    requires
        s.wf(),
        op is Alloca,
    ensures
        s.flagged(
            op,
            seq!["num_elem"@, "alignment"@],
            flag(s.flags() % 2 == 1, "global"@),
            0,
        ),
{
    let low = flag(s.flags() % 2 == 1, "global"@);
    assert(forall|a: Attributes| #[trigger] (a + low) =~= ops::with_flag(a, s.flags() % 2 == 1, "global"@));
    flagged_reads(s, op, seq!["num_elem"@, "alignment"@], low, 0);
}

/// A negation of an integer has its overflow since 13.2, which is left out where it is zero.
pub proof fn negations(s: Site, op: Opcode)
    requires
        s.wf(),
        op is NegI,
    ensures
        !s.since(2) ==> s.plain(op, 1, Seq::empty(), 1),
        s.since(2) ==> {
            let m = s.at(1);
            let v = number(s.d, m, 0);
            let attrs = if v == 0 {
                Seq::empty()
            } else {
                seq![("overflow"@, integer(v))]
            };
            s.reads(op, 0, 1, of_numbers(s.d, m, 1, attrs), 0, 1)
        },
{
    let m = s.at(1);
    if s.since(2) {
        let v = number(s.d, m, 0);
        let attrs = if v == 0 {
            Seq::empty()
        } else {
            seq![("overflow"@, integer(v))]
        };
        assert(behind(s.d, reader::varint_at(s.d, m).1, 0) is Some);
        fields_from_attributes(s, op, 0, 1, of_numbers(s.d, m, 1, attrs), 0, 0, 1);
    } else {
        plain_reads(s, op, 1, Seq::empty(), 1);
    }
}

/// A hyperbolic tangent has its rounding mode since 13.2, which is left out where it is five.
pub proof fn hyperbolic_tangents(s: Site, op: Opcode)
    requires
        s.wf(),
        op is TanH,
    ensures
        !s.since(2) ==> s.plain(op, 1, Seq::empty(), 1),
        s.since(2) ==> {
            let m = s.at(1);
            let v = number(s.d, m, 0);
            let attrs = if v == 5 {
                Seq::empty()
            } else {
                seq![("rounding_mode"@, integer(v))]
            };
            s.reads(op, 0, 1, of_numbers(s.d, m, 1, attrs), 0, 1)
        },
{
    let m = s.at(1);
    if s.since(2) {
        let v = number(s.d, m, 0);
        let attrs = if v == 5 {
            Seq::empty()
        } else {
            seq![("rounding_mode"@, integer(v))]
        };
        assert(behind(s.d, reader::varint_at(s.d, m).1, 0) is Some);
        fields_from_attributes(s, op, 0, 1, of_numbers(s.d, m, 1, attrs), 0, 0, 1);
    } else {
        plain_reads(s, op, 1, Seq::empty(), 1);
    }
}

/// An exponential has its rounding mode since 13.3, which is left out where it is five.
pub proof fn exponentials(s: Site, op: Opcode)
    requires
        s.wf(),
        op is Exp,
    ensures
        !s.since(3) ==> s.plain(op, 1, Seq::empty(), 1),
        s.since(3) ==> {
            let m = s.at(1);
            let v = number(s.d, m, 0);
            let attrs = if v == 5 {
                Seq::empty()
            } else {
                seq![("rounding_mode"@, integer(v))]
            };
            s.reads(op, 0, 1, of_numbers(s.d, m, 1, attrs), 0, 1)
        },
{
    let m = s.at(1);
    if s.since(3) {
        let v = number(s.d, m, 0);
        let attrs = if v == 5 {
            Seq::empty()
        } else {
            seq![("rounding_mode"@, integer(v))]
        };
        assert(behind(s.d, reader::varint_at(s.d, m).1, 0) is Some);
        fields_from_attributes(s, op, 0, 1, of_numbers(s.d, m, 1, attrs), 0, 0, 1);
    } else {
        plain_reads(s, op, 1, Seq::empty(), 1);
    }
}

/// A product of float matrices has flags since 13.3, of which the lowest says that sums may be
/// less exact, and three operands.
pub proof fn float_products(s: Site, op: Opcode)
    requires
        s.wf(),
        op is MmaF,
    ensures
        !s.since(3) ==> s.plain(op, 1, Seq::empty(), 3),
        s.since(3) ==> s.flagged(op, Seq::empty(), flag(s.flags() % 2 == 1, "fast_acc"@), 3),
{
    if s.since(3) {
        let low = flag(s.flags() % 2 == 1, "fast_acc"@);
        assert(forall|a: Attributes| #[trigger] (a + low) =~= ops::with_flag(
            a,
            s.flags() % 2 == 1,
            "fast_acc"@,
        ));
        flagged_reads(s, op, Seq::empty(), low, 3);
    } else {
        plain_reads(s, op, 1, Seq::empty(), 3);
    }
}

/// The attribute of a string whose index is a number behind `skip` others.
pub open spec fn string(s: Site, m: int, skip: nat, name: Seq<char>) -> Read {
    if are_indices(s.d, m, skip, 1, s.t.strings) {
        Some(
            (
                seq![(name, AttributeModel::String(s.t.strings[number(s.d, m, skip) as int]))],
                behind(s.d, m, skip + 1)->0,
            ),
        )
    } else {
        None
    }
}

proof fn string_reads(s: Site, m: int, name: Seq<char>)
    ensures
        ({
            let read = ops::string_attribute_at(s.d, m, s.t, name);
            let attrs = string(s, m, 0, name);
            &&& read.0 is Ok <==> attrs is Some
            &&& attrs matches Some(a) ==> read == (
                Ok::<(Attributes, u64), DecodeError>((a.0, 0)),
                a.1,
            )
        }),
{
    one_fewer(s.d, m, 1, s.t.strings);
    assert(behind(s.d, reader::varint_at(s.d, m).1, 0) is Some);
    assert(are_indices(s.d, reader::varint_at(s.d, m).1, 0, 0, s.t.strings));
}

/// The shape of an index space and of a tensor have any number of results, no attributes and
/// one operand.
pub proof fn shape_queries(s: Site, op: Opcode)
    requires
        s.wf(),
        op is GetIndexSpaceShape || op is GetTensorShape,
    ensures
        ({
            let results = number(s.d, s.p, 0) as nat;
            s.reads(op, 1, results, ints(s.d, s.at(1 + results), Seq::empty()), 0, 1)
        }),
{
    let results = number(s.d, s.p, 0) as nat;
    let m = s.at(1 + results);
    no_attributes_read(s, m);
    fields_from_attributes(s, op, 1, results, ints(s.d, m, Seq::empty()), 0, 0, 1);
}

proof fn no_attributes_read(s: Site, m: int)
    ensures
        ints(s.d, m, Seq::empty()) == Some((Seq::<(Seq<char>, AttributeModel)>::empty(), m)),
{
    assert(named(s.d, m, 0, Seq::empty()) =~= Seq::empty());
}

/// Joined tokens and an extraction have one result, and a count and as many operands.
pub proof fn variadic_operations(s: Site, op: Opcode)
    requires
        s.wf(),
        op is JoinTokens || op is Extract,
    ensures
        ({
            let m = s.at(1);
            let n = number(s.d, m, 0) as nat;
            s.reads(op, 0, 1, ints(s.d, m, Seq::empty()), 1, n)
        }),
{
    let m = s.at(1);
    no_attributes_read(s, m);
    let n = number(s.d, m, 0) as nat;
    fields_from_attributes(s, op, 0, 1, ints(s.d, m, Seq::empty()), 0, 1, n);
}

/// What ends a block has no results, and a count and as many operands.
pub proof fn terminators(s: Site, op: Opcode)
    requires
        s.wf(),
        op is Return || op is Yield || op is Break || op is Continue,
    ensures
        ({
            let n = number(s.d, s.p, 0) as nat;
            s.reads(op, 0, 0, ints(s.d, s.p, Seq::empty()), 1, n)
        }),
{
    no_attributes_read(s, s.p);
    let n = number(s.d, s.p, 0) as nat;
    assert(s.at(0) == s.p);
    fields_from_attributes(s, op, 0, 0, ints(s.d, s.p, Seq::empty()), 0, 1, n);
}

/// A loop has any number of results, and a count and as many operands.
pub proof fn loops(s: Site, op: Opcode)
    requires
        s.wf(),
        op is Loop,
    ensures
        ({
            let results = number(s.d, s.p, 0) as nat;
            let m = s.at(1 + results);
            s.reads(op, 1, results, ints(s.d, m, Seq::empty()), 1, number(s.d, m, 0) as nat)
        }),
{
    let results = number(s.d, s.p, 0) as nat;
    let m = s.at(1 + results);
    no_attributes_read(s, m);
    let n = number(s.d, m, 0) as nat;
    fields_from_attributes(s, op, 1, results, ints(s.d, m, Seq::empty()), 0, 1, n);
}

/// A branch has any number of results and one operand, its condition.
pub proof fn branches(s: Site, op: Opcode)
    requires
        s.wf(),
        op is If,
    ensures
        ({
            let results = number(s.d, s.p, 0) as nat;
            s.reads(op, 1, results, ints(s.d, s.at(1 + results), Seq::empty()), 0, 1)
        }),
{
    let results = number(s.d, s.p, 0) as nat;
    let m = s.at(1 + results);
    no_attributes_read(s, m);
    fields_from_attributes(s, op, 1, results, ints(s.d, m, Seq::empty()), 0, 0, 1);
}

/// A counted loop has any number of results, since 13.2 flags, of which the lowest says that
/// its bounds have no sign, and a count and as many operands.
pub proof fn counted_loops(s: Site, op: Opcode)
    requires
        s.wf(),
        op is For,
    ensures
        ({
            let results = number(s.d, s.p, 0) as nat;
            let m = s.at(1 + results);
            let attrs = if s.since(2) {
                of_numbers(s.d, m, 1, flag(number(s.d, m, 0) % 2 == 1, "unsigned_cmp"@))
            } else {
                ints(s.d, m, Seq::empty())
            };
            let n = number(s.d, attrs->Some_0.1, 0) as nat;
            s.reads(op, 1, results, attrs, 1, n)
        }),
{
    let results = number(s.d, s.p, 0) as nat;
    let m = s.at(1 + results);
    if s.since(2) {
        let low = flag(number(s.d, m, 0) % 2 == 1, "unsigned_cmp"@);
        let attrs = of_numbers(s.d, m, 1, low);
        flags_are_numbers(s.d, m, Seq::empty());
        assert(named(s.d, m, 1, Seq::empty()) =~= Seq::empty());
        assert(ops::with_flag(
            Seq::empty(),
            number(s.d, m, 0) % 2 == 1,
            "unsigned_cmp"@,
        ) =~= low);
        let n = number(s.d, attrs->Some_0.1, 0) as nat;
        fields_from_attributes(s, op, 1, results, attrs, number(s.d, m, 0), 1, n);
    } else {
        no_attributes_read(s, m);
        let n = number(s.d, m, 0) as nat;
        fields_from_attributes(s, op, 1, results, ints(s.d, m, Seq::empty()), 0, 1, n);
    }
}

/// Integers under their names, and the attributes of an array behind them.
pub open spec fn with_identities(s: Site, m: int, names: Seq<Seq<char>>) -> Read {
    match ints(s.d, m, names) {
        Some(a) => match attributes::var_attributes_at(s.d, a.1, s.t) {
            (Ok(v), q) => Some((a.0.push(("identities"@, AttributeModel::Array(v))), q)),
            (Err(_), _) => None,
        },
        None => None,
    }
}

proof fn reduction_reads(s: Site, m: int, names: Seq<Seq<char>>)
    ensures
        ({
            let read = ops::reduction_at(s.d, m, s.t, names);
            let attrs = with_identities(s, m, names);
            &&& read.0 is Ok <==> attrs is Some
            &&& attrs matches Some(a) ==> read == (
                Ok::<(Attributes, u64), DecodeError>((a.0, 0)),
                a.1,
            )
        }),
{
    ints_are_numbers(s.d, m, names, Seq::empty());
    assert(Seq::<(Seq<char>, AttributeModel)>::empty() + named(s.d, m, 0, names) =~= named(
        s.d,
        m,
        0,
        names,
    ));
}

/// A reduction has any number of results, its dimension, its identities, and a count and as
/// many operands; a scan has between its dimension and its identities whether it runs
/// backwards.
pub proof fn reductions(s: Site, op: Opcode)
    requires
        s.wf(),
        op is Reduce || op is Scan,
    ensures
        ({
            let results = number(s.d, s.p, 0) as nat;
            let m = s.at(1 + results);
            let attrs = if op is Reduce {
                with_identities(s, m, seq!["dim"@])
            } else {
                with_identities(s, m, seq!["dim"@, "reverse"@])
            };
            let n = number(s.d, attrs->Some_0.1, 0) as nat;
            s.reads(op, 1, results, attrs, 1, n)
        }),
{
    let results = number(s.d, s.p, 0) as nat;
    let m = s.at(1 + results);
    let names = if op is Reduce {
        seq!["dim"@]
    } else {
        seq!["dim"@, "reverse"@]
    };
    reduction_reads(s, m, names);
    let attrs = with_identities(s, m, names);
    let n = number(s.d, attrs->Some_0.1, 0) as nat;
    fields_from_attributes(s, op, 1, results, attrs, 0, 1, n);
}

/// A permutation has a list of 32-bit integers and one operand.
pub proof fn permutations(s: Site, op: Opcode)
    requires
        s.wf(),
        op is Permute,
    ensures
        ({
            let attrs = match reader::var_i32s_at(s.d, s.at(1)) {
                (Ok(v), q) => Some((seq![("permutation"@, AttributeModel::DenseI32Array(v))], q)),
                (Err(_), _) => None,
            };
            s.reads(op, 0, 1, attrs, 0, 1)
        }),
{
    let attrs: Read = match reader::var_i32s_at(s.d, s.at(1)) {
        (Ok(v), q) => Some((seq![("permutation"@, AttributeModel::DenseI32Array(v))], q)),
        (Err(_), _) => None,
    };
    fields_from_attributes(s, op, 0, 1, attrs, 0, 0, 1);
}

/// An assumption has a self-contained attribute and one operand.
pub proof fn assumptions(s: Site, op: Opcode)
    requires
        s.wf(),
        op is Assume,
    ensures
        ({
            let attrs = match attributes::attribute_at(s.d, s.at(1), s.t) {
                (Ok(a), q) => Some((seq![("predicate"@, a)], q)),
                (Err(_), _) => None,
            };
            s.reads(op, 0, 1, attrs, 0, 1)
        }),
{
    let attrs: Read = match attributes::attribute_at(s.d, s.at(1), s.t) {
        (Ok(a), q) => Some((seq![("predicate"@, a)], q)),
        (Err(_), _) => None,
    };
    fields_from_attributes(s, op, 0, 1, attrs, 0, 0, 1);
}

/// An assertion has no results, the index of its message and one operand.
pub proof fn assertions(s: Site, op: Opcode)
    requires
        s.wf(),
        op is Assert,
    ensures
        s.reads(op, 0, 0, string(s, s.p, 0, "message"@), 0, 1),
{
    assert(s.at(0) == s.p);
    string_reads(s, s.p, "message"@);
    fields_from_attributes(s, op, 0, 0, string(s, s.p, 0, "message"@), 0, 0, 1);
}

/// A global has one result, the index of its name and no operands.
pub proof fn uses_of_globals(s: Site, op: Opcode)
    requires
        s.wf(),
        op is GetGlobal,
    ensures
        s.reads(op, 0, 1, string(s, s.at(1), 0, "name"@), 0, 0),
{
    string_reads(s, s.at(1), "name"@);
    fields_from_attributes(s, op, 0, 1, string(s, s.at(1), 0, "name"@), 0, 0, 0);
}

/// A print has no results, since 13.2 a number that is passed over, the index of its text, and
/// a count and as many operands.
pub proof fn prints(s: Site, op: Opcode)
    requires
        s.wf(),
        op is Print,
    ensures
        ({
            let skip = if s.since(2) {
                1nat
            } else {
                0nat
            };
            let attrs = string(s, s.p, skip, "str"@);
            s.reads(op, 0, 0, attrs, 1, number(s.d, attrs->Some_0.1, 0) as nat)
        }),
{
    assert(s.at(0) == s.p);
    if s.since(2) {
        let attrs = string(s, s.p, 1, "str"@);
        if let (Ok(_), q) = reader::varint_at(s.d, s.p) {
            string_reads(s, q, "str"@);
            assert(behind(s.d, q, 0) == Some(q));
            assert(behind(s.d, s.p, 1) == Some(q));
            indices_behind(s.d, s.p, 1, 1, s.t.strings);
            assert(number(s.d, s.p, 1) == number(s.d, q, 0));
            assert(attrs == string(s, q, 0, "str"@));
        } else {
            assert(behind(s.d, s.p, 2) is None);
        }
        let n = number(s.d, attrs->Some_0.1, 0) as nat;
        fields_from_attributes(s, op, 0, 0, attrs, 0, 1, n);
    } else {
        let attrs = string(s, s.p, 0, "str"@);
        string_reads(s, s.p, "str"@);
        let n = number(s.d, attrs->Some_0.1, 0) as nat;
        fields_from_attributes(s, op, 0, 0, attrs, 0, 1, n);
    }
}

/// The type of the elements of a constant of a type.
pub open spec fn element_of(ty: TypeModel) -> TypeModel {
    match ty {
        TypeModel::Tile { element_type: ElementModel::Scalar(e), .. } => TypeModel::Scalar(e),
        TypeModel::Tile { element_type: ElementModel::Pointer(e), .. } => TypeModel::Pointer(e),
        _ => ty,
    }
}

/// A constant has one result, the index of its constant, and no operands. The constant is a
/// length and as many bytes, which are its data; the type of its elements is that of the
/// elements of the result.
pub proof fn constants(s: Site, op: Opcode)
    requires
        s.wf(),
        op is Constant,
    ensures
        ({
            let m = s.at(1);
            let raw = s.t.constants[number(s.d, m, 0) as int];
            let q = behind(raw, 0, 1);
            let len = number(raw, 0, 0);
            let attrs = if are_indices(s.d, m, 0, 1, s.t.constants) && q is Some && q->0 + len
                <= raw.len() {
                let value = AttributeModel::DenseElements {
                    element_type: element_of(s.t.types[number(s.d, s.p, 0) as int]),
                    shape: Seq::empty(),
                    data: raw.subrange(q->0, q->0 + len),
                };
                Some((seq![("value"@, value)], behind(s.d, m, 1)->0))
            } else {
                None
            };
            s.reads(op, 0, 1, attrs, 0, 0)
        }),
{
    let m = s.at(1);
    let raw = s.t.constants[number(s.d, m, 0) as int];
    let q = behind(raw, 0, 1);
    let len = number(raw, 0, 0);
    let attrs: Read = if are_indices(s.d, m, 0, 1, s.t.constants) && q is Some && q->0 + len
        <= raw.len() {
        let value = AttributeModel::DenseElements {
            element_type: element_of(s.t.types[number(s.d, s.p, 0) as int]),
            shape: Seq::empty(),
            data: raw.subrange(q->0, q->0 + len),
        };
        Some((seq![("value"@, value)], behind(s.d, m, 1)->0))
    } else {
        None
    };
    one_fewer(s.d, m, 1, s.t.constants);
    assert(behind(s.d, reader::varint_at(s.d, m).1, 0) is Some);
    assert(are_indices(s.d, reader::varint_at(s.d, m).1, 0, 0, s.t.constants));
    assert(behind(raw, reader::varint_at(raw, 0).1, 0) is Some);
    let result_types = entries(s.d, s.p, 0, 1, s.t.types);
    assert(result_types[0] == s.t.types[number(s.d, s.p, 0) as int]);
    fields_from_attributes(s, op, 0, 1, attrs, 0, 0, 0);
}

/// An entry point is no operation of a body.
pub proof fn entries_are_refused(s: Site)
    requires
        s.wf(),
    ensures
        s.fields(Opcode::Entry).0 == Err::<OpFields, DecodeError>(
            DecodeError::UnhandledOp(Opcode::Entry),
        ),
{
    reveal(ops::op_fields_at);
}

// ---- operands in groups ----

/// Runs of numbers, by how many stand before and how many there are, are indices of values.
pub open spec fn runs_are_indices(
    d: Seq<u8>,
    u: int,
    runs: Seq<(nat, nat)>,
    total: nat,
    values: Seq<nat>,
) -> bool {
    &&& behind(d, u, total) is Some
    &&& forall|k: int|
        0 <= k < runs.len() ==> are_indices(d, u, (#[trigger] runs[k]).0, runs[k].1, values)
}

/// What runs of numbers are the indices of.
pub open spec fn run_entries(d: Seq<u8>, u: int, runs: Seq<(nat, nat)>, values: Seq<nat>) -> Seq<
    nat,
>
    decreases runs.len(),
{
    if runs.len() == 0 {
        Seq::empty()
    } else {
        entries(d, u, runs[0].0, runs[0].1, values) + run_entries(d, u, runs.skip(1), values)
    }
}

impl Site {
    /// An operation with `results` results whose operands are runs of numbers among `total`
    /// behind its attributes. Behind its attributes stand the sizes of the runs.
    pub open spec fn grouped(
        self,
        op: Opcode,
        results: nat,
        attrs: Read,
        runs: Seq<(nat, nat)>,
        total: nat,
    ) -> bool {
        let there = are_indices(self.d, self.p, 0, results, self.t.types) && attrs is Some
            && runs_are_indices(self.d, attrs->Some_0.1, runs, total, self.values);
        &&& self.fields(op).0 is Ok <==> there
        &&& self.fields(op).0 matches Ok(f) ==> {
            &&& f.result_types == entries(self.d, self.p, 0, results, self.t.types)
            &&& f.attributes.len() > 0
            &&& f.attributes.drop_last() == attrs->Some_0.0
            &&& are_sizes(
                f.attributes.last(),
                Seq::new(runs.len(), |i: int| runs[i].1),
            )
            &&& f.operands == run_entries(self.d, attrs->Some_0.1, runs, self.values)
            &&& behind(self.d, attrs->Some_0.1, total) == Some(self.fields(op).1)
        }
    }
}

/// The runs of groups behind `k` numbers, and how many numbers there are with them.
spec fn runs_of(d: Seq<u8>, u: int, k: nat, groups: Seq<OperandGroup>) -> (Seq<(nat, nat)>, nat)
    decreases groups.len(),
{
    if groups.len() == 0 {
        (Seq::empty(), k)
    } else {
        let (run, next) = match groups[0] {
            OperandGroup::One | OperandGroup::Optional(true) => ((k, 1nat), k + 1),
            OperandGroup::Many => {
                let n = number(d, u, k) as nat;
                ((k + 1, n), k + 1 + n)
            },
            OperandGroup::Optional(false) => ((k, 0nat), k),
        };
        let (runs, total) = runs_of(d, u, next, groups.skip(1));
        (seq![run] + runs, total)
    }
}

proof fn runs_grow(d: Seq<u8>, u: int, k: nat, groups: Seq<OperandGroup>)
    ensures
        runs_of(d, u, k, groups).1 >= k,
        runs_of(d, u, k, groups).0.len() == groups.len(),
    decreases groups.len(),
{
    if groups.len() > 0 {
        let n = number(d, u, k) as nat;
        runs_grow(d, u, k + 1, groups.skip(1));
        runs_grow(d, u, k + 1 + n, groups.skip(1));
        runs_grow(d, u, k, groups.skip(1));
    }
}

spec fn segments_of(runs: Seq<(nat, nat)>) -> Seq<i32> {
    Seq::new(runs.len(), |i: int| ops::segment(runs[i].1))
}

#[verifier::rlimit(40)]
proof fn groups_are_runs(
    d: Seq<u8>,
    u: int,
    k: nat,
    values: Seq<nat>,
    groups: Seq<OperandGroup>,
    acc: (Seq<nat>, Seq<i32>),
)
    requires
        0 <= u <= d.len(),
        behind(d, u, k) is Some,
    ensures
        ({
            let (runs, total) = runs_of(d, u, k, groups);
            let read = ops::groups_at(d, behind(d, u, k)->0, values, groups, acc);
            &&& read.0 is Ok <==> runs_are_indices(d, u, runs, total, values)
            &&& read.0 is Ok ==> read == (
                Ok::<(Seq<nat>, Seq<i32>), DecodeError>(
                    (acc.0 + run_entries(d, u, runs, values), acc.1 + segments_of(runs)),
                ),
                behind(d, u, total)->0,
            )
        }),
    decreases groups.len(),
{
    let (runs, total) = runs_of(d, u, k, groups);
    runs_grow(d, u, k, groups);
    let q = behind(d, u, k)->0;
    if groups.len() == 0 {
        assert(acc.0 + run_entries(d, u, runs, values) =~= acc.0);
        assert(acc.1 + segments_of(runs) =~= acc.1);
    } else {
        let rest = groups.skip(1);
        let n = number(d, u, k) as nat;
        numbers_join(d, u, k, 1);
        assert(number(d, u, k + 0) == number(d, q, 0));
        let (run, next) = match groups[0] {
            OperandGroup::One | OperandGroup::Optional(true) => ((k, 1nat), k + 1),
            OperandGroup::Many => ((k + 1, n), k + 1 + n),
            OperandGroup::Optional(false) => ((k, 0nat), k),
        };
        assert(runs[0] == run);
        assert(runs.skip(1) =~= runs_of(d, u, next, rest).0);
        runs_grow(d, u, next, rest);
        fewer_are_there(d, u, next, total);
        let os = entries(d, u, run.0, run.1, values);
        // The first group.
        let first = ops::group_at(d, q, values, groups[0]);
        assert((first.0 is Ok <==> are_indices(d, u, run.0, run.1, values)) && (first.0 is Ok
            ==> first == (Ok::<Seq<nat>, DecodeError>(os), behind(d, u, next)->0) && behind(
            d,
            u,
            next,
        ) is Some)) by {
            let none = Seq::<nat>::empty();
            match groups[0] {
                OperandGroup::One | OperandGroup::Optional(true) => {
                    operands_are_indices(d, q, values, 1, none);
                    indices_behind(d, u, k, 1, values);
                    assert(none + os =~= os);
                },
                OperandGroup::Many => {
                    if let (Ok(v), r) = reader::varint_at(d, q) {
                        assert(behind(d, r, 0) == Some(r));
                        assert(behind(d, q, 1) == Some(r));
                        assert(behind(d, u, k + 1) == Some(r));
                        operands_are_indices(d, r, values, n, none);
                        indices_behind(d, u, k + 1, n, values);
                        assert(none + os =~= os);
                    } else {
                        assert(behind(d, q, 1) is None);
                        fewer_are_there(d, u, k + 1, k + 1 + n);
                    }
                },
                OperandGroup::Optional(false) => {
                    assert(os =~= none);
                },
            }
        }
        if are_indices(d, u, run.0, run.1, values) {
            let after = (acc.0 + os, acc.1.push(ops::segment(os.len())));
            groups_are_runs(d, u, next, values, rest, after);
            assert(after.0 + run_entries(d, u, runs.skip(1), values) =~= acc.0 + run_entries(
                d,
                u,
                runs,
                values,
            ));
            assert(after.1 + segments_of(runs.skip(1)) =~= acc.1 + segments_of(runs));
            if runs_are_indices(d, u, runs.skip(1), total, values) {
                assert forall|j: int| 0 <= j < runs.len() implies are_indices(
                    d,
                    u,
                    (#[trigger] runs[j]).0,
                    runs[j].1,
                    values,
                ) by {
                    if j > 0 {
                        assert(runs.skip(1)[j - 1] == runs[j]);
                    }
                }
            }
            if runs_are_indices(d, u, runs, total, values) {
                assert forall|j: int| 0 <= j < runs.skip(1).len() implies are_indices(
                    d,
                    u,
                    (#[trigger] runs.skip(1)[j]).0,
                    runs.skip(1)[j].1,
                    values,
                ) by {
                    assert(runs.skip(1)[j] == runs[j + 1]);
                }
            }
        } else {
            assert(runs[0] == run);
        }
    }
}

proof fn grouped_reads(
    s: Site,
    op: Opcode,
    results: nat,
    attrs: Read,
    flags: u64,
    groups: Seq<OperandGroup>,
    runs: Seq<(nat, nat)>,
    total: nat,
)
    requires
        s.wf(),
        op.spec_result_count() == Some(results as usize),
        results <= 3,
        groups.len() > 0,
        are_indices(s.d, s.p, 0, results, s.t.types) ==> {
            let read = ops::op_attributes_at(
                op,
                s.d,
                s.at(results),
                s.t,
                s.version,
                entries(s.d, s.p, 0, results, s.t.types),
            );
            &&& read.0 is Ok <==> attrs is Some
            &&& attrs matches Some(a) ==> read == (
                Ok::<(Attributes, u64), DecodeError>((a.0, flags)),
                a.1,
            )
        },
        ops::operand_groups(op, flags) == Some(groups),
        attrs matches Some(a) ==> (runs, total) == runs_of(s.d, a.1, 0, groups),
    ensures
        s.grouped(op, results, attrs, runs, total),
{
    reveal(ops::op_fields_at);
    result_types_are_indices(s, op, 0, results);
    fewer_are_there(s.d, s.p, results, results);
    if are_indices(s.d, s.p, 0, results, s.t.types) && attrs is Some {
        let u = attrs->Some_0.1;
        ops::op_attributes_advance(
            op,
            s.d,
            s.at(results),
            s.t,
            s.version,
            entries(s.d, s.p, 0, results, s.t.types),
        );
        let none = (Seq::<nat>::empty(), Seq::<i32>::empty());
        assert(behind(s.d, u, 0) == Some(u));
        groups_are_runs(s.d, u, 0, s.values, groups, none);
        runs_grow(s.d, u, 0, groups);
        assert(none.0 + run_entries(s.d, u, runs, s.values) =~= run_entries(
            s.d,
            u,
            runs,
            s.values,
        ));
        assert(none.1 + segments_of(runs) =~= segments_of(runs));
        if let (Ok(f), _) = s.fields(op) {
            let sizes = Seq::new(runs.len(), |i: int| runs[i].1);
            let segments = segments_of(runs);
            assert(f.attributes == ops::with_segments(attrs->Some_0.0, segments));
            assert(f.attributes.drop_last() =~= attrs->Some_0.0);
            let last = f.attributes.last();
            if let AttributeModel::Array(v) = last.1 {
                assert forall|i: int| 0 <= i < sizes.len() implies (
                #[trigger] v[i] matches AttributeModel::Integer(n, ty) && {
                    &&& ty == TypeModel::Scalar(ScalarType::I32)
                    &&& -0x8000_0000 <= n < 0x8000_0000
                    &&& (sizes[i] - n) % 0x1_0000_0000 == 0
                }) by {
                    assert(v[i] == AttributeModel::Integer(
                        segments[i] as i64,
                        TypeModel::Scalar(ScalarType::I32),
                    ));
                    assert(segments[i] == ops::segment(sizes[i]));
                }
            }
        }
    }
}

/// How many operands a flag stands for.
pub open spec fn one_if(there: bool) -> nat {
    if there {
        1
    } else {
        0
    }
}

/// The attributes of a load or store: its flags, its memory ordering, its scope where the
/// lowest flag is set, and its hints where the next is.
pub open spec fn access(s: Site, m: int) -> Read {
    let flags = number(s.d, m, 0);
    let ordering = ("memory_ordering_semantics"@, integer(number(s.d, m, 1)));
    let scope = ("memory_scope"@, integer(number(s.d, m, 2)));
    let plain = if flags % 2 == 1 {
        of_numbers(s.d, m, 3, seq![ordering, scope])
    } else {
        of_numbers(s.d, m, 2, seq![ordering])
    };
    match plain {
        Some(a) => if (flags / 2) % 2 == 1 {
            match attributes::inline_hints_at(s.d, a.1, s.t) {
                (Ok(h), q) => Some(
                    (
                        a.0.push(("optimization_hints"@, AttributeModel::OptimizationHints(h))),
                        q,
                    ),
                ),
                (Err(_), _) => None,
            }
        } else {
            Some(a)
        },
        None => None,
    }
}

proof fn access_reads(s: Site, m: int)
    ensures
        ({
            let read = ops::memory_access_at(s.d, m, s.t);
            let attrs = access(s, m);
            &&& read.0 is Ok <==> attrs is Some
            &&& attrs matches Some(a) ==> read == (
                Ok::<(Attributes, u64), DecodeError>((a.0, number(s.d, m, 0))),
                a.1,
            )
        }),
{
    let flags = number(s.d, m, 0);
    let names = if flags % 2 == 1 {
        seq!["memory_ordering_semantics"@, "memory_scope"@]
    } else {
        seq!["memory_ordering_semantics"@]
    };
    if let (Ok(_), q) = reader::varint_at(s.d, m) {
        assert(behind(s.d, q, 0) == Some(q));
        assert(behind(s.d, m, 1) == Some(q));
        numbers_join(s.d, m, 1, names.len());
        ints_are_numbers(s.d, q, names, Seq::empty());
        assert(number(s.d, m, 1 + 0) == number(s.d, q, 0));
        assert(number(s.d, m, 1 + 1) == number(s.d, q, 1));
        let ordering = ("memory_ordering_semantics"@, integer(number(s.d, m, 1)));
        let scope = ("memory_scope"@, integer(number(s.d, m, 2)));
        let none = Seq::<(Seq<char>, AttributeModel)>::empty();
        if flags % 2 == 1 {
            assert(none + named(s.d, q, 0, names) =~= seq![ordering, scope]);
        } else {
            assert(none + named(s.d, q, 0, names) =~= seq![ordering]);
        }
    } else {
        assert(behind(s.d, m, 2) is None);
        assert(behind(s.d, m, 3) is None);
    }
}

/// Flags and integers under their names.
pub open spec fn behind_flags(s: Site, m: int, names: Seq<Seq<char>>) -> Read {
    of_numbers(s.d, m, 1 + names.len(), named(s.d, m, 1, names))
}

/// A pointer load has two results, and the operands pointer, mask where bit 2 of the flags is
/// set, padding value where bit 3 is, and token where bit 4 is.
pub proof fn pointer_loads(s: Site)
    requires
        s.wf(),
    ensures
        ({
            let m = s.at(2);
            let attrs = access(s, m);
            let u = attrs->Some_0.1;
            let flags = number(s.d, m, 0);
            let mask = one_if((flags / 4) % 2 == 1);
            let padding = one_if((flags / 8) % 2 == 1);
            let token = one_if((flags / 16) % 2 == 1);
            s.grouped(
                Opcode::LoadPtrTko,
                2,
                attrs,
                seq![(0nat, 1nat), (1nat, mask), (1 + mask, padding), (1 + mask + padding, token)],
                1 + mask + padding + token,
            )
        }),
{
    let m = s.at(2);
    let attrs = access(s, m);
    let u = attrs->Some_0.1;
    let flags = number(s.d, m, 0);
    let mask = one_if((flags / 4) % 2 == 1);
    let padding = one_if((flags / 8) % 2 == 1);
    let token = one_if((flags / 16) % 2 == 1);
    access_reads(s, m);
    let runs = seq![(0nat, 1nat), (1nat, mask), (1 + mask, padding), (1 + mask + padding, token)];
    let groups = seq![OperandGroup::One, OperandGroup::Optional((flags / 4) % 2 == 1), OperandGroup::Optional((flags / 8) % 2 == 1), OperandGroup::Optional((flags / 16) % 2 == 1)];
    reveal_with_fuel(runs_of, 6);
    assert(runs_of(s.d, u, 0, groups).0 =~= runs);
    grouped_reads(s, Opcode::LoadPtrTko, 2, attrs, number(s.d, m, 0), groups, runs, 1 + mask + padding + token);
}

/// A pointer store has one result, and the operands pointer, value, mask where bit 2 of the
/// flags is set, and token where bit 3 is.
pub proof fn pointer_stores(s: Site)
    requires
        s.wf(),
    ensures
        ({
            let m = s.at(1);
            let attrs = access(s, m);
            let u = attrs->Some_0.1;
            let flags = number(s.d, m, 0);
            let mask = one_if((flags / 4) % 2 == 1);
            let token = one_if((flags / 8) % 2 == 1);
            s.grouped(
                Opcode::StorePtrTko,
                1,
                attrs,
                seq![(0nat, 1nat), (1nat, 1nat), (2nat, mask), (2 + mask, token)],
                2 + mask + token,
            )
        }),
{
    let m = s.at(1);
    let attrs = access(s, m);
    let u = attrs->Some_0.1;
    let flags = number(s.d, m, 0);
    let mask = one_if((flags / 4) % 2 == 1);
    let token = one_if((flags / 8) % 2 == 1);
    access_reads(s, m);
    let runs = seq![(0nat, 1nat), (1nat, 1nat), (2nat, mask), (2 + mask, token)];
    let groups = seq![OperandGroup::One, OperandGroup::One, OperandGroup::Optional((flags / 4) % 2 == 1), OperandGroup::Optional((flags / 8) % 2 == 1)];
    reveal_with_fuel(runs_of, 6);
    assert(runs_of(s.d, u, 0, groups).0 =~= runs);
    grouped_reads(s, Opcode::StorePtrTko, 1, attrs, number(s.d, m, 0), groups, runs, 2 + mask + token);
}

/// A view load has two results, and the operands view, a count and as many indices, and token
/// where bit 2 of the flags is set.
pub proof fn view_loads(s: Site)
    requires
        s.wf(),
    ensures
        ({
            let m = s.at(2);
            let attrs = access(s, m);
            let u = attrs->Some_0.1;
            let flags = number(s.d, m, 0);
            let n = number(s.d, u, 1) as nat;
            let token = one_if((flags / 4) % 2 == 1);
            s.grouped(
                Opcode::LoadViewTko,
                2,
                attrs,
                seq![(0nat, 1nat), (2nat, n), (2 + n, token)],
                2 + n + token,
            )
        }),
{
    let m = s.at(2);
    let attrs = access(s, m);
    let u = attrs->Some_0.1;
    let flags = number(s.d, m, 0);
    let n = number(s.d, u, 1) as nat;
    let token = one_if((flags / 4) % 2 == 1);
    access_reads(s, m);
    let runs = seq![(0nat, 1nat), (2nat, n), (2 + n, token)];
    let groups = seq![OperandGroup::One, OperandGroup::Many, OperandGroup::Optional((flags / 4) % 2 == 1)];
    reveal_with_fuel(runs_of, 6);
    assert(runs_of(s.d, u, 0, groups).0 =~= runs);
    grouped_reads(s, Opcode::LoadViewTko, 2, attrs, number(s.d, m, 0), groups, runs, 2 + n + token);
}

/// A view store has one result, and the operands tile, view, a count and as many indices, and
/// token where bit 2 of the flags is set.
pub proof fn view_stores(s: Site)
    requires
        s.wf(),
    ensures
        ({
            let m = s.at(1);
            let attrs = access(s, m);
            let u = attrs->Some_0.1;
            let flags = number(s.d, m, 0);
            let n = number(s.d, u, 2) as nat;
            let token = one_if((flags / 4) % 2 == 1);
            s.grouped(
                Opcode::StoreViewTko,
                1,
                attrs,
                seq![(0nat, 1nat), (1nat, 1nat), (3nat, n), (3 + n, token)],
                3 + n + token,
            )
        }),
{
    let m = s.at(1);
    let attrs = access(s, m);
    let u = attrs->Some_0.1;
    let flags = number(s.d, m, 0);
    let n = number(s.d, u, 2) as nat;
    let token = one_if((flags / 4) % 2 == 1);
    access_reads(s, m);
    let runs = seq![(0nat, 1nat), (1nat, 1nat), (3nat, n), (3 + n, token)];
    let groups = seq![OperandGroup::One, OperandGroup::One, OperandGroup::Many, OperandGroup::Optional((flags / 4) % 2 == 1)];
    reveal_with_fuel(runs_of, 6);
    assert(runs_of(s.d, u, 0, groups).0 =~= runs);
    grouped_reads(s, Opcode::StoreViewTko, 1, attrs, number(s.d, m, 0), groups, runs, 3 + n + token);
}

/// An atomic update has two results, flags, its memory ordering, its scope and its mode, and
/// the operands pointer, value, mask where the lowest flag is set, and token where the next
/// is.
pub proof fn atomic_updates(s: Site)
    requires
        s.wf(),
    ensures
        ({
            let m = s.at(2);
            let attrs = behind_flags(s, m, seq!["memory_ordering_semantics"@, "memory_scope"@, "mode"@]);
            let u = attrs->Some_0.1;
            let flags = number(s.d, m, 0);
            let mask = one_if(flags % 2 == 1);
            let token = one_if((flags / 2) % 2 == 1);
            s.grouped(
                Opcode::AtomicRMW,
                2,
                attrs,
                seq![(0nat, 1nat), (1nat, 1nat), (2nat, mask), (2 + mask, token)],
                2 + mask + token,
            )
        }),
{
    let m = s.at(2);
    let attrs = behind_flags(s, m, seq!["memory_ordering_semantics"@, "memory_scope"@, "mode"@]);
    let u = attrs->Some_0.1;
    let flags = number(s.d, m, 0);
    let mask = one_if(flags % 2 == 1);
    let token = one_if((flags / 2) % 2 == 1);
    flags_are_numbers(s.d, m, seq!["memory_ordering_semantics"@, "memory_scope"@, "mode"@]);
    let runs = seq![(0nat, 1nat), (1nat, 1nat), (2nat, mask), (2 + mask, token)];
    let groups = seq![OperandGroup::One, OperandGroup::One, OperandGroup::Optional(flags % 2 == 1), OperandGroup::Optional((flags / 2) % 2 == 1)];
    reveal_with_fuel(runs_of, 6);
    assert(runs_of(s.d, u, 0, groups).0 =~= runs);
    grouped_reads(s, Opcode::AtomicRMW, 2, attrs, number(s.d, m, 0), groups, runs, 2 + mask + token);
}

/// An atomic comparison and exchange has two results, flags, its memory ordering and its scope,
/// and the operands pointer, what is compared, value, mask where the lowest flag is set, and
/// token where the next is.
pub proof fn atomic_exchanges(s: Site)
    requires
        s.wf(),
    ensures
        ({
            let m = s.at(2);
            let attrs = behind_flags(s, m, seq!["memory_ordering_semantics"@, "memory_scope"@]);
            let u = attrs->Some_0.1;
            let flags = number(s.d, m, 0);
            let mask = one_if(flags % 2 == 1);
            let token = one_if((flags / 2) % 2 == 1);
            s.grouped(
                Opcode::AtomicCAS,
                2,
                attrs,
                seq![(0nat, 1nat), (1nat, 1nat), (2nat, 1nat), (3nat, mask), (3 + mask, token)],
                3 + mask + token,
            )
        }),
{
    let m = s.at(2);
    let attrs = behind_flags(s, m, seq!["memory_ordering_semantics"@, "memory_scope"@]);
    let u = attrs->Some_0.1;
    let flags = number(s.d, m, 0);
    let mask = one_if(flags % 2 == 1);
    let token = one_if((flags / 2) % 2 == 1);
    flags_are_numbers(s.d, m, seq!["memory_ordering_semantics"@, "memory_scope"@]);
    let runs = seq![(0nat, 1nat), (1nat, 1nat), (2nat, 1nat), (3nat, mask), (3 + mask, token)];
    let groups = seq![OperandGroup::One, OperandGroup::One, OperandGroup::One, OperandGroup::Optional(flags % 2 == 1), OperandGroup::Optional((flags / 2) % 2 == 1)];
    reveal_with_fuel(runs_of, 6);
    assert(runs_of(s.d, u, 0, groups).0 =~= runs);
    grouped_reads(s, Opcode::AtomicCAS, 2, attrs, number(s.d, m, 0), groups, runs, 3 + mask + token);
}

/// An atomic reduction of a view has one result, flags, its memory ordering, its scope and its
/// mode, and the operands view, a count and as many indices, value, and token where the lowest
/// flag is set.
pub proof fn atomic_reductions(s: Site)
    requires
        s.wf(),
    ensures
        ({
            let m = s.at(1);
            let attrs = behind_flags(s, m, seq!["memory_ordering_semantics"@, "memory_scope"@, "mode"@]);
            let u = attrs->Some_0.1;
            let flags = number(s.d, m, 0);
            let n = number(s.d, u, 1) as nat;
            let token = one_if(flags % 2 == 1);
            s.grouped(
                Opcode::AtomicRedViewTko,
                1,
                attrs,
                seq![(0nat, 1nat), (2nat, n), (2 + n, 1nat), (3 + n, token)],
                3 + n + token,
            )
        }),
{
    let m = s.at(1);
    let attrs = behind_flags(s, m, seq!["memory_ordering_semantics"@, "memory_scope"@, "mode"@]);
    let u = attrs->Some_0.1;
    let flags = number(s.d, m, 0);
    let n = number(s.d, u, 1) as nat;
    let token = one_if(flags % 2 == 1);
    flags_are_numbers(s.d, m, seq!["memory_ordering_semantics"@, "memory_scope"@, "mode"@]);
    let runs = seq![(0nat, 1nat), (2nat, n), (2 + n, 1nat), (3 + n, token)];
    let groups = seq![OperandGroup::One, OperandGroup::Many, OperandGroup::One, OperandGroup::Optional(flags % 2 == 1)];
    reveal_with_fuel(runs_of, 6);
    assert(runs_of(s.d, u, 0, groups).0 =~= runs);
    grouped_reads(s, Opcode::AtomicRedViewTko, 1, attrs, number(s.d, m, 0), groups, runs, 3 + n + token);
}

/// A tensor view has one result, no attributes of its own, and the operands base, a count and as
/// many extents, and a count and as many strides.
pub proof fn tensor_views(s: Site)
    requires
        s.wf(),
    ensures
        ({
            let m = s.at(1);
            let attrs = ints(s.d, m, Seq::empty());
            let u = attrs->Some_0.1;
            let n = number(s.d, u, 1) as nat;
            let k = number(s.d, u, 2 + n) as nat;
            s.grouped(
                Opcode::MakeTensorView,
                1,
                attrs,
                seq![(0nat, 1nat), (2nat, n), (3 + n, k)],
                3 + n + k,
            )
        }),
{
    let m = s.at(1);
    let attrs = ints(s.d, m, Seq::empty());
    let u = attrs->Some_0.1;
    let n = number(s.d, u, 1) as nat;
    let k = number(s.d, u, 2 + n) as nat;
    no_attributes_read(s, m);
    let runs = seq![(0nat, 1nat), (2nat, n), (3 + n, k)];
    let groups = seq![OperandGroup::One, OperandGroup::Many, OperandGroup::Many];
    reveal_with_fuel(runs_of, 6);
    assert(runs_of(s.d, u, 0, groups).0 =~= runs);
    grouped_reads(s, Opcode::MakeTensorView, 1, attrs, 0, groups, runs, 3 + n + k);
}

} // verus!
