//! The byte forms of the attributes and operands of operations, and what the reader
//! gives back of them.

use vstd::prelude::*;

use crate::bytecode::attribute_forms;
use crate::bytecode::attributes;
use crate::bytecode::attributes::TablesModel;
use crate::bytecode::encoding;
use crate::bytecode::enums::BytecodeVersion;
use crate::bytecode::opcode::Opcode;
use crate::bytecode::ops;
use crate::bytecode::ops::OperandGroup;
use crate::bytecode::reader;
use crate::bytecode::type_forms;
use crate::bytecode::types;
use crate::error::DecodeError;
use crate::ir::{AttributeModel, TypeModel};

verus! {

/// How the attributes of an operation are laid out.
#[verifier::ext_equal]
pub enum Layout {
    /// Flags where there are any, integers, and attributes for the lowest flags.
    Ints { flagged: bool, names: Seq<Seq<char>>, flags: Seq<Seq<char>> },
    /// One integer that is left out of the attributes where it has its default.
    Defaulted { name: Seq<char>, default: u64 },
    /// A permutation.
    Permutation,
    /// The data of a constant.
    Constant,
    /// A self-contained attribute.
    Predicate,
    /// A string, behind a number that is skipped or not.
    Text { name: Seq<char>, prefixed: bool },
    /// The flags and attributes of a load or store.
    Memory,
    /// Integers and identities.
    Reduction { names: Seq<Seq<char>> },
    /// The operation cannot be read.
    Unknown,
}

/// No attributes.
pub open spec fn no_layout() -> Layout {
    Layout::Ints { flagged: false, names: Seq::empty(), flags: Seq::empty() }
}

/// How the attributes of an operation are laid out in a version.
pub open spec fn layout_of(op: Opcode, version: BytecodeVersion) -> Layout {
    let since_2 = version.rank() >= BytecodeVersion::v13_2().rank();
    let since_3 = version.rank() >= BytecodeVersion::v13_3().rank();
    match op {
        Opcode::Alloca => Layout::Ints {
            flagged: true,
            names: seq!["num_elem"@, "alignment"@],
            flags: seq!["global"@],
        },
        Opcode::NegI => if since_2 {
            Layout::Defaulted { name: "overflow"@, default: 0 }
        } else {
            no_layout()
        },
        Opcode::Permute => Layout::Permutation,
        Opcode::AddF
        | Opcode::DivF
        | Opcode::MulF
        | Opcode::SubF
        | Opcode::Fma
        | Opcode::Sqrt => Layout::Ints {
            flagged: true,
            names: seq!["rounding_mode"@],
            flags: seq!["flush_to_zero"@],
        },
        Opcode::Exp2 | Opcode::Rsqrt => Layout::Ints {
            flagged: true,
            names: Seq::empty(),
            flags: seq!["flush_to_zero"@],
        },
        Opcode::Exp => if since_3 {
            Layout::Defaulted { name: "rounding_mode"@, default: 5 }
        } else {
            no_layout()
        },
        Opcode::TanH => if since_2 {
            Layout::Defaulted { name: "rounding_mode"@, default: 5 }
        } else {
            no_layout()
        },
        Opcode::MmaF => if since_3 {
            Layout::Ints { flagged: true, names: Seq::empty(), flags: seq!["fast_acc"@] }
        } else {
            no_layout()
        },
        Opcode::MaxF | Opcode::MinF => Layout::Ints {
            flagged: true,
            names: Seq::empty(),
            flags: seq!["propagate_nan"@, "flush_to_zero"@],
        },
        Opcode::Constant => Layout::Constant,
        Opcode::Assume => Layout::Predicate,
        Opcode::Assert => Layout::Text { name: "message"@, prefixed: false },
        Opcode::GetGlobal => Layout::Text { name: "name"@, prefixed: false },
        Opcode::Print => Layout::Text { name: "str"@, prefixed: since_2 },
        Opcode::LoadViewTko | Opcode::StoreViewTko | Opcode::LoadPtrTko | Opcode::StorePtrTko =>
            Layout::Memory,
        Opcode::AtomicRMW | Opcode::AtomicRedViewTko => Layout::Ints {
            flagged: true,
            names: seq!["memory_ordering_semantics"@, "memory_scope"@, "mode"@],
            flags: Seq::empty(),
        },
        Opcode::AtomicCAS => Layout::Ints {
            flagged: true,
            names: seq!["memory_ordering_semantics"@, "memory_scope"@],
            flags: Seq::empty(),
        },
        Opcode::For => if since_2 {
            Layout::Ints { flagged: true, names: Seq::empty(), flags: seq!["unsigned_cmp"@] }
        } else {
            no_layout()
        },
        Opcode::Reduce => Layout::Reduction { names: seq!["dim"@] },
        Opcode::Scan => Layout::Reduction { names: seq!["dim"@, "reverse"@] },
        _ => match ops::plain_ints(op) {
            None => Layout::Unknown,
            Some(names) => Layout::Ints { flagged: false, names, flags: Seq::empty() },
        },
    }
}

/// Optimization hints by architecture.
pub type Hints = Seq<(Seq<char>, Seq<(Seq<char>, AttributeModel)>)>;

/// The values of the attributes of an operation.
#[verifier::ext_equal]
pub enum AttrValues {
    Ints { flags: u64, ints: Seq<u64> },
    Permutation(Seq<i32>),
    Constant(Seq<u8>),
    Predicate(AttributeModel),
    Text { prefix: u64, text: Seq<char> },
    Memory { flags: u64, ints: Seq<u64>, hints: Hints },
    Reduction { ints: Seq<u64>, identities: Seq<AttributeModel> },
}

/// The form of numbers one behind the other.
pub open spec fn varints_form(s: Seq<u64>) -> Seq<u8>
    decreases s.len(),
{
    if s.len() == 0 {
        Seq::empty()
    } else {
        encoding::varint_form(s[0] as nat) + varints_form(s.skip(1))
    }
}

/// Integer attributes by name.
pub open spec fn named_ints(names: Seq<Seq<char>>, ints: Seq<u64>) -> ops::Attributes {
    Seq::new(names.len(), |i: int| (names[i], ops::int_attribute(ints[i])))
}

/// The attributes with those behind them that the two lowest flags stand for.
pub open spec fn with_flags(attrs: ops::Attributes, flags: u64, names: Seq<Seq<char>>) ->
    ops::Attributes {
    let one = if names.len() > 0 {
        ops::with_flag(attrs, flags % 2 == 1, names[0])
    } else {
        attrs
    };
    if names.len() > 1 {
        ops::with_flag(one, (flags / 2) % 2 == 1, names[1])
    } else {
        one
    }
}

/// The names of the integers of a load or store.
pub open spec fn memory_names(flags: u64) -> Seq<Seq<char>> {
    if flags % 2 == 1 {
        seq!["memory_ordering_semantics"@, "memory_scope"@]
    } else {
        seq!["memory_ordering_semantics"@]
    }
}

/// The attributes that values stand for.
pub open spec fn attributes_of(
    layout: Layout,
    v: AttrValues,
    result_types: Seq<TypeModel>,
) -> ops::Attributes {
    match (layout, v) {
        (Layout::Ints { names, flags: flag_names, .. }, AttrValues::Ints { flags, ints }) =>
            with_flags(named_ints(names, ints), flags, flag_names),
        (Layout::Defaulted { name, default }, AttrValues::Ints { ints, .. }) => if ints[0]
            == default {
            Seq::empty()
        } else {
            seq![(name, ops::int_attribute(ints[0]))]
        },
        (Layout::Permutation, AttrValues::Permutation(p)) => seq![
            ("permutation"@, AttributeModel::DenseI32Array(p)),
        ],
        (Layout::Constant, AttrValues::Constant(data)) => seq![
            (
                "value"@,
                AttributeModel::DenseElements {
                    element_type: ops::constant_element(result_types)->Ok_0,
                    shape: Seq::empty(),
                    data,
                },
            ),
        ],
        (Layout::Predicate, AttrValues::Predicate(a)) => seq![("predicate"@, a)],
        (Layout::Text { name, .. }, AttrValues::Text { text, .. }) => seq![
            (name, AttributeModel::String(text)),
        ],
        (Layout::Memory, AttrValues::Memory { flags, ints, hints }) => {
            let attrs = named_ints(memory_names(flags), ints);
            if (flags / 2) % 2 == 1 {
                attrs.push(("optimization_hints"@, AttributeModel::OptimizationHints(hints)))
            } else {
                attrs
            }
        },
        (Layout::Reduction { names }, AttrValues::Reduction { ints, identities }) => named_ints(
            names,
            ints,
        ).push(("identities"@, AttributeModel::Array(identities))),
        _ => Seq::empty(),
    }
}

/// The flags that values hold, which say which of the optional operands are there.
pub open spec fn flags_of(layout: Layout, v: AttrValues) -> u64 {
    match (layout, v) {
        (Layout::Ints { flagged: true, .. }, AttrValues::Ints { flags, .. }) => flags,
        (Layout::Memory, AttrValues::Memory { flags, .. }) => flags,
        _ => 0,
    }
}

/// The form of the attributes of an operation.
pub open spec fn values_form(layout: Layout, v: AttrValues, t: TablesModel) -> Seq<u8> {
    match (layout, v) {
        (Layout::Ints { flagged, .. }, AttrValues::Ints { flags, ints }) => if flagged {
            encoding::varint_form(flags as nat) + varints_form(ints)
        } else {
            varints_form(ints)
        },
        (Layout::Defaulted { .. }, AttrValues::Ints { ints, .. }) => encoding::varint_form(
            ints[0] as nat,
        ),
        (Layout::Permutation, AttrValues::Permutation(p)) => encoding::var_i32s_form(p),
        (Layout::Constant, AttrValues::Constant(data)) => attribute_forms::constant_ref_form(
            data,
            t,
        ),
        (Layout::Predicate, AttrValues::Predicate(a)) => attribute_forms::attribute_form(a, t),
        (Layout::Text { prefixed, .. }, AttrValues::Text { prefix, text }) => if prefixed {
            encoding::varint_form(prefix as nat) + attribute_forms::string_ref_form(text, t)
        } else {
            attribute_forms::string_ref_form(text, t)
        },
        (Layout::Memory, AttrValues::Memory { flags, ints, hints }) => {
            let head = encoding::varint_form(flags as nat) + varints_form(ints);
            if (flags / 2) % 2 == 1 {
                head + attribute_forms::hints_form(hints, t)
            } else {
                head
            }
        },
        (Layout::Reduction { .. }, AttrValues::Reduction { ints, identities }) => varints_form(ints)
            + attribute_forms::var_attributes_form(identities, t),
        _ => Seq::empty(),
    }
}

/// Values suit a layout: there is one for each name, and what they refer to stands in
/// the tables.
pub open spec fn values_fit(
    layout: Layout,
    v: AttrValues,
    result_types: Seq<TypeModel>,
    t: TablesModel,
) -> bool {
    match (layout, v) {
        (Layout::Ints { names, flags: flag_names, .. }, AttrValues::Ints { ints, .. }) =>
            ints.len() == names.len() && flag_names.len() <= 2,
        (Layout::Defaulted { .. }, AttrValues::Ints { ints, .. }) => ints.len() == 1,
        (Layout::Permutation, AttrValues::Permutation(p)) => p.len() <= u64::MAX,
        (Layout::Constant, AttrValues::Constant(data)) => {
            &&& data.len() <= u64::MAX
            &&& t.constants.contains(attribute_forms::constant_form(data))
            &&& result_types.len() > 0
        },
        (Layout::Predicate, AttrValues::Predicate(a)) => attribute_forms::writable(a, t),
        (Layout::Text { .. }, AttrValues::Text { text, .. }) => t.strings.contains(text),
        (Layout::Memory, AttrValues::Memory { flags, ints, hints }) => {
            &&& ints.len() == memory_names(flags).len()
            &&& (flags / 2) % 2 == 1 ==> hints.len() <= u64::MAX && attribute_forms::hints_writable(
                hints,
                t,
            )
        },
        (Layout::Reduction { names }, AttrValues::Reduction { ints, identities }) => {
            &&& ints.len() == names.len()
            &&& identities.len() <= u64::MAX
            &&& attribute_forms::all_writable(identities, t)
        },
        _ => false,
    }
}

/// Integer attributes are read back, behind those read before them.
proof fn ints_round_trip(
    d: Seq<u8>,
    p: int,
    names: Seq<Seq<char>>,
    ints: Seq<u64>,
    acc: ops::Attributes,
)
    requires
        encoding::holds(d, p, varints_form(ints)),
        ints.len() == names.len(),
    ensures
        ops::ints_at(d, p, names, acc) == encoding::read_ok(
            acc + named_ints(names, ints),
            p + varints_form(ints).len(),
        ),
    decreases names.len(),
{
    if names.len() == 0 {
        assert(acc + named_ints(names, ints) =~= acc);
    } else {
        let first = encoding::varint_form(ints[0] as nat);
        encoding::holds_split(d, p, first, varints_form(ints.skip(1)));
        encoding::varint_round_trip(d, p, ints[0]);
        let next = acc.push((names[0], ops::int_attribute(ints[0])));
        ints_round_trip(d, p + first.len(), names.skip(1), ints.skip(1), next);
        assert(next + named_ints(names.skip(1), ints.skip(1)) =~= acc + named_ints(names, ints));
    }
}

/// Integer attributes are read back.
proof fn named_ints_round_trip(d: Seq<u8>, p: int, names: Seq<Seq<char>>, ints: Seq<u64>)
    requires
        encoding::holds(d, p, varints_form(ints)),
        ints.len() == names.len(),
    ensures
        ops::ints_at(d, p, names, Seq::empty()) == encoding::read_ok(
            named_ints(names, ints),
            p + varints_form(ints).len(),
        ),
{
    ints_round_trip(d, p, names, ints, Seq::empty());
    assert(Seq::<(Seq<char>, AttributeModel)>::empty() + named_ints(names, ints) =~= named_ints(
        names,
        ints,
    ));
}

/// Flags and integer attributes are read back.
proof fn flags_and_ints_round_trip(
    d: Seq<u8>,
    p: int,
    names: Seq<Seq<char>>,
    flags: u64,
    ints: Seq<u64>,
)
    requires
        encoding::holds(d, p, encoding::varint_form(flags as nat) + varints_form(ints)),
        ints.len() == names.len(),
    ensures
        ops::flags_and_ints_at(d, p, names) == encoding::read_ok(
            (named_ints(names, ints), flags),
            p + (encoding::varint_form(flags as nat) + varints_form(ints)).len(),
        ),
{
    let head = encoding::varint_form(flags as nat);
    encoding::holds_split(d, p, head, varints_form(ints));
    encoding::varint_round_trip(d, p, flags);
    named_ints_round_trip(d, p + head.len(), names, ints);
}

/// The attributes of a load or store are read back.
proof fn memory_round_trip(
    d: Seq<u8>,
    p: int,
    v: AttrValues,
    result_types: Seq<TypeModel>,
    t: TablesModel,
)
    requires
        encoding::holds(d, p, values_form(Layout::Memory, v, t)),
        values_fit(Layout::Memory, v, result_types, t),
        attribute_forms::tables_fit(t),
    ensures
        ops::memory_access_at(d, p, t) == encoding::read_ok(
            (attributes_of(Layout::Memory, v, result_types), flags_of(Layout::Memory, v)),
            p + values_form(Layout::Memory, v, t).len(),
        ),
{
    if let AttrValues::Memory { flags, ints, hints } = v {
        let first = encoding::varint_form(flags as nat);
        let head = first + varints_form(ints);
        if (flags / 2) % 2 == 1 {
            encoding::holds_split(d, p, head, attribute_forms::hints_form(hints, t));
            attribute_forms::inline_hints_round_trip(d, p + head.len(), hints, t);
        }
        encoding::holds_split(d, p, first, varints_form(ints));
        encoding::varint_round_trip(d, p, flags);
        named_ints_round_trip(d, p + first.len(), memory_names(flags), ints);
    }
}

/// The attributes of a reduction are read back.
proof fn reduction_round_trip(
    d: Seq<u8>,
    p: int,
    names: Seq<Seq<char>>,
    ints: Seq<u64>,
    identities: Seq<AttributeModel>,
    t: TablesModel,
)
    requires
        encoding::holds(
            d,
            p,
            varints_form(ints) + attribute_forms::var_attributes_form(identities, t),
        ),
        ints.len() == names.len(),
        identities.len() <= u64::MAX,
        attribute_forms::all_writable(identities, t),
        attribute_forms::tables_fit(t),
    ensures
        ops::reduction_at(d, p, t, names) == encoding::read_ok(
            (
                named_ints(names, ints).push(("identities"@, AttributeModel::Array(identities))),
                0u64,
            ),
            p + (varints_form(ints) + attribute_forms::var_attributes_form(identities, t)).len(),
        ),
{
    let head = varints_form(ints);
    encoding::holds_split(d, p, head, attribute_forms::var_attributes_form(identities, t));
    named_ints_round_trip(d, p, names, ints);
    attribute_forms::var_attributes_round_trip(d, p + head.len(), identities, t);
}

/// What the layout of an operation says is read.
spec fn layout_at(
    layout: Layout,
    op: Opcode,
    d: Seq<u8>,
    p: int,
    t: TablesModel,
    result_types: Seq<TypeModel>,
) -> reader::Step<(ops::Attributes, u64)> {
    match layout {
        Layout::Ints { flagged, names, flags } => if flagged {
            match ops::flags_and_ints_at(d, p, names) {
                (Err(e), q) => (Err(e), q),
                (Ok((attrs, bits)), q) => (Ok((with_flags(attrs, bits, flags), bits)), q),
            }
        } else {
            match ops::ints_at(d, p, names, Seq::empty()) {
                (Err(e), q) => (Err(e), q),
                (Ok(attrs), q) => (Ok((attrs, 0)), q),
            }
        },
        Layout::Defaulted { name, default } => ops::defaulted_int_at(d, p, name, default),
        Layout::Permutation => match reader::var_i32s_at(d, p) {
            (Err(e), q) => (Err(e), q),
            (Ok(v), q) => (Ok((seq![("permutation"@, AttributeModel::DenseI32Array(v))], 0)), q),
        },
        Layout::Constant => ops::constant_at(d, p, t, result_types),
        Layout::Predicate => match attributes::attribute_at(d, p, t) {
            (Err(e), q) => (Err(e), q),
            (Ok(a), q) => (Ok((seq![("predicate"@, a)], 0)), q),
        },
        Layout::Text { name, prefixed } => if prefixed {
            match reader::varint_at(d, p) {
                (Err(e), q) => (Err(e), q),
                (Ok(_), q) => ops::string_attribute_at(d, q, t, name),
            }
        } else {
            ops::string_attribute_at(d, p, t, name)
        },
        Layout::Memory => ops::memory_access_at(d, p, t),
        Layout::Reduction { names } => ops::reduction_at(d, p, t, names),
        Layout::Unknown => (Err(DecodeError::UnhandledOp(op)), p),
    }
}

/// The attributes of an operation are read by its layout.
proof fn attributes_by_layout(
    op: Opcode,
    d: Seq<u8>,
    p: int,
    t: TablesModel,
    version: BytecodeVersion,
    result_types: Seq<TypeModel>,
)
    ensures
        ops::op_attributes_at(op, d, p, t, version, result_types) == layout_at(
            layout_of(op, version),
            op,
            d,
            p,
            t,
            result_types,
        ),
{
}

/// Values are read back by the layout that they suit.
proof fn layout_round_trip(
    layout: Layout,
    op: Opcode,
    d: Seq<u8>,
    p: int,
    v: AttrValues,
    t: TablesModel,
    result_types: Seq<TypeModel>,
)
    requires
        encoding::holds(d, p, values_form(layout, v, t)),
        values_fit(layout, v, result_types, t),
        attribute_forms::tables_fit(t),
        layout matches Layout::Ints { flagged, flags, .. } ==> flagged || flags.len() == 0,
    ensures
        layout_at(layout, op, d, p, t, result_types) == encoding::read_ok(
            (attributes_of(layout, v, result_types), flags_of(layout, v)),
            p + values_form(layout, v, t).len(),
        ),
{
    match (layout, v) {
        (Layout::Ints { flagged, names, .. }, AttrValues::Ints { flags, ints }) => if flagged {
            flags_and_ints_round_trip(d, p, names, flags, ints);
        } else {
            named_ints_round_trip(d, p, names, ints);
        },
        (Layout::Defaulted { .. }, AttrValues::Ints { ints, .. }) => {
            encoding::varint_round_trip(d, p, ints[0]);
        },
        (Layout::Permutation, AttrValues::Permutation(s)) => {
            encoding::var_i32s_round_trip(d, p, s);
        },
        (Layout::Constant, AttrValues::Constant(data)) => {
            attribute_forms::constant_data_round_trip(d, p, data, t, DecodeError::ConstantIndex);
        },
        (Layout::Predicate, AttrValues::Predicate(a)) => {
            attribute_forms::attribute_round_trip(d, p, a, t);
        },
        (Layout::Text { prefixed, .. }, AttrValues::Text { prefix, text }) => if prefixed {
            let head = encoding::varint_form(prefix as nat);
            encoding::holds_split(d, p, head, attribute_forms::string_ref_form(text, t));
            encoding::varint_round_trip(d, p, prefix);
            attribute_forms::string_ref_round_trip(
                d,
                p + head.len(),
                text,
                t,
                DecodeError::StringIndex,
            );
        } else {
            attribute_forms::string_ref_round_trip(d, p, text, t, DecodeError::StringIndex);
        },
        (Layout::Memory, AttrValues::Memory { .. }) => {
            memory_round_trip(d, p, v, result_types, t);
        },
        (Layout::Reduction { names }, AttrValues::Reduction { ints, identities }) => {
            reduction_round_trip(d, p, names, ints, identities, t);
        },
        _ => {},
    }
}

/// The form of operands one behind the other: their places among the values in scope.
pub open spec fn places_form(places: Seq<nat>) -> Seq<u8>
    decreases places.len(),
{
    if places.len() == 0 {
        Seq::empty()
    } else {
        encoding::varint_form(places[0]) + places_form(places.skip(1))
    }
}

/// The form of a counted list of operands.
pub open spec fn var_places_form(places: Seq<nat>) -> Seq<u8> {
    encoding::varint_form(places.len()) + places_form(places)
}

/// The values at places of the scope.
pub open spec fn values_at(places: Seq<nat>, values: Seq<nat>) -> Seq<nat> {
    Seq::new(places.len(), |i: int| values[places[i] as int])
}

/// The places are places of a scope.
pub open spec fn in_scope(places: Seq<nat>, scope: nat) -> bool {
    forall|i: int| 0 <= i < places.len() ==> (#[trigger] places[i]) < scope
}

/// The form of a group of operands.
pub open spec fn group_form(group: OperandGroup, places: Seq<nat>) -> Seq<u8> {
    match group {
        OperandGroup::Many => var_places_form(places),
        _ => places_form(places),
    }
}

/// The number of operands suits a group.
pub open spec fn group_fits(group: OperandGroup, places: Seq<nat>, scope: nat) -> bool {
    &&& in_scope(places, scope)
    &&& match group {
        OperandGroup::One | OperandGroup::Optional(true) => places.len() == 1,
        OperandGroup::Many => places.len() <= u64::MAX,
        OperandGroup::Optional(false) => places.len() == 0,
    }
}

/// The form of groups of operands one behind the other.
pub open spec fn groups_form(groups: Seq<OperandGroup>, places: Seq<Seq<nat>>) -> Seq<u8>
    decreases groups.len(),
{
    if groups.len() == 0 {
        Seq::empty()
    } else {
        group_form(groups[0], places[0]) + groups_form(groups.skip(1), places.skip(1))
    }
}

/// The operands of the groups one behind the other.
pub open spec fn flattened(places: Seq<Seq<nat>>) -> Seq<nat>
    decreases places.len(),
{
    if places.len() == 0 {
        Seq::empty()
    } else {
        places[0] + flattened(places.skip(1))
    }
}

/// The sizes of the groups.
pub open spec fn segments_of(places: Seq<Seq<nat>>) -> Seq<i32> {
    Seq::new(places.len(), |i: int| ops::segment(places[i].len()))
}

/// The operands of an operation suit it.
pub open spec fn operands_fit(op: Opcode, flags: u64, places: Seq<Seq<nat>>, scope: nat) -> bool {
    &&& scope <= u64::MAX
    &&& match ops::operand_groups(op, flags) {
        Some(groups) => {
            &&& places.len() == groups.len()
            &&& forall|i: int|
                0 <= i < groups.len() ==> group_fits(groups[i], #[trigger] places[i], scope)
        },
        None => {
            &&& places.len() == 1
            &&& in_scope(places[0], scope)
            &&& match op.spec_operand_count() {
                Some(n) => places[0].len() == n,
                None => places[0].len() <= u64::MAX,
            }
        },
    }
}

/// The form of the operands of an operation.
pub open spec fn operands_form(op: Opcode, flags: u64, places: Seq<Seq<nat>>) -> Seq<u8> {
    match ops::operand_groups(op, flags) {
        Some(groups) => groups_form(groups, places),
        None => match op.spec_operand_count() {
            Some(_) => places_form(places[0]),
            None => var_places_form(places[0]),
        },
    }
}

/// The sizes of the operand groups of an operation, where it has groups.
pub open spec fn op_segments(op: Opcode, flags: u64, places: Seq<Seq<nat>>) -> Seq<i32> {
    match ops::operand_groups(op, flags) {
        Some(_) => segments_of(places),
        None => Seq::empty(),
    }
}

/// Operands are read back, behind those read before them.
proof fn places_round_trip(d: Seq<u8>, p: int, places: Seq<nat>, values: Seq<nat>, acc: Seq<nat>)
    requires
        encoding::holds(d, p, places_form(places)),
        in_scope(places, values.len()),
        values.len() <= u64::MAX,
    ensures
        ops::operands_at(d, p, values, places.len(), acc) == encoding::read_ok(
            acc + values_at(places, values),
            p + places_form(places).len(),
        ),
    decreases places.len(),
{
    if places.len() == 0 {
        assert(acc + values_at(places, values) =~= acc);
    } else {
        let first = encoding::varint_form(places[0]);
        encoding::holds_split(d, p, first, places_form(places.skip(1)));
        assert(places[0] < values.len());
        encoding::varint_round_trip(d, p, places[0] as u64);
        assert forall|i: int| 0 <= i < places.skip(1).len() implies (#[trigger] places.skip(1)[i])
            < values.len() by {
            assert(places[i + 1] < values.len());
        }
        let next = acc.push(values[places[0] as int]);
        places_round_trip(d, p + first.len(), places.skip(1), values, next);
        assert(next + values_at(places.skip(1), values) =~= acc + values_at(places, values));
    }
}

/// Operands are read back.
proof fn plain_places_round_trip(d: Seq<u8>, p: int, places: Seq<nat>, values: Seq<nat>)
    requires
        encoding::holds(d, p, places_form(places)),
        in_scope(places, values.len()),
        values.len() <= u64::MAX,
    ensures
        ops::operands_at(d, p, values, places.len(), Seq::empty()) == encoding::read_ok(
            values_at(places, values),
            p + places_form(places).len(),
        ),
{
    places_round_trip(d, p, places, values, Seq::empty());
    assert(Seq::<nat>::empty() + values_at(places, values) =~= values_at(places, values));
}

/// A counted list of operands is read back.
proof fn var_places_round_trip(d: Seq<u8>, p: int, places: Seq<nat>, values: Seq<nat>)
    requires
        encoding::holds(d, p, var_places_form(places)),
        in_scope(places, values.len()),
        values.len() <= u64::MAX,
        places.len() <= u64::MAX,
    ensures
        ops::var_operands_at(d, p, values) == encoding::read_ok(
            values_at(places, values),
            p + var_places_form(places).len(),
        ),
{
    let count = encoding::varint_form(places.len());
    encoding::holds_split(d, p, count, places_form(places));
    encoding::varint_round_trip(d, p, places.len() as u64);
    plain_places_round_trip(d, p + count.len(), places, values);
}

/// Groups of operands are read back, behind those read before them.
proof fn groups_round_trip(
    d: Seq<u8>,
    p: int,
    groups: Seq<OperandGroup>,
    places: Seq<Seq<nat>>,
    values: Seq<nat>,
    acc: (Seq<nat>, Seq<i32>),
)
    requires
        encoding::holds(d, p, groups_form(groups, places)),
        places.len() == groups.len(),
        values.len() <= u64::MAX,
        forall|i: int|
            0 <= i < groups.len() ==> group_fits(groups[i], #[trigger] places[i], values.len()),
    ensures
        ops::groups_at(d, p, values, groups, acc) == encoding::read_ok(
            (acc.0 + values_at(flattened(places), values), acc.1 + segments_of(places)),
            p + groups_form(groups, places).len(),
        ),
    decreases groups.len(),
{
    if groups.len() == 0 {
        assert(acc.0 + values_at(flattened(places), values) =~= acc.0);
        assert(acc.1 + segments_of(places) =~= acc.1);
    } else {
        let first = group_form(groups[0], places[0]);
        let rest = places.skip(1);
        encoding::holds_split(d, p, first, groups_form(groups.skip(1), rest));
        assert(group_fits(groups[0], places[0], values.len()));
        match groups[0] {
            OperandGroup::Many => {
                var_places_round_trip(d, p, places[0], values);
            },
            OperandGroup::Optional(false) => {
                assert(values_at(places[0], values) =~= Seq::empty());
            },
            _ => {
                plain_places_round_trip(d, p, places[0], values);
            },
        }
        let got = values_at(places[0], values);
        let next = (acc.0 + got, acc.1.push(ops::segment(got.len())));
        assert forall|i: int| 0 <= i < groups.skip(1).len() implies group_fits(
            groups.skip(1)[i],
            #[trigger] rest[i],
            values.len(),
        ) by {
            assert(group_fits(groups[i + 1], places[i + 1], values.len()));
        }
        groups_round_trip(d, p + first.len(), groups.skip(1), rest, values, next);
        assert(next.0 + values_at(flattened(rest), values) =~= acc.0 + values_at(
            flattened(places),
            values,
        ));
        assert(next.1 + segments_of(rest) =~= acc.1 + segments_of(places));
    }
}

/// The operands of an operation are read back.
proof fn operands_round_trip(
    op: Opcode,
    d: Seq<u8>,
    p: int,
    flags: u64,
    places: Seq<Seq<nat>>,
    values: Seq<nat>,
)
    requires
        encoding::holds(d, p, operands_form(op, flags, places)),
        operands_fit(op, flags, places, values.len()),
    ensures
        ops::op_operands_at(op, d, p, values, flags) == encoding::read_ok(
            (values_at(flattened(places), values), op_segments(op, flags, places)),
            p + operands_form(op, flags, places).len(),
        ),
{
    match ops::operand_groups(op, flags) {
        Some(groups) => {
            groups_round_trip(d, p, groups, places, values, (Seq::empty(), Seq::empty()));
            assert(Seq::<nat>::empty() + values_at(flattened(places), values) =~= values_at(
                flattened(places),
                values,
            ));
            assert(Seq::<i32>::empty() + segments_of(places) =~= segments_of(places));
        },
        None => {
            assert(places.skip(1) =~= Seq::empty());
            assert(flattened(places.skip(1)) =~= Seq::empty());
            assert(flattened(places) =~= places[0]);
            match op.spec_operand_count() {
                Some(n) => {
                    plain_places_round_trip(d, p, places[0], values);
                },
                None => {
                    var_places_round_trip(d, p, places[0], values);
                },
            }
        },
    }
}

/// The form of the result types of an operation: their number where the operation does
/// not fix it, and references.
pub open spec fn result_types_form(op: Opcode, ts: Seq<TypeModel>, t: TablesModel) -> Seq<u8> {
    match op.spec_result_count() {
        Some(_) => type_forms::type_refs_form(ts, t.types),
        None => type_forms::var_type_refs_form(ts, t.types),
    }
}

/// The result types suit an operation.
pub open spec fn result_types_fit(op: Opcode, ts: Seq<TypeModel>, t: TablesModel) -> bool {
    &&& type_forms::all_among(ts, t.types)
    &&& match op.spec_result_count() {
        Some(n) => ts.len() == n,
        None => ts.len() <= u64::MAX,
    }
}

/// The result types of an operation are read back.
proof fn result_types_round_trip(
    op: Opcode,
    d: Seq<u8>,
    p: int,
    ts: Seq<TypeModel>,
    t: TablesModel,
)
    requires
        encoding::holds(d, p, result_types_form(op, ts, t)),
        result_types_fit(op, ts, t),
        attribute_forms::tables_fit(t),
    ensures
        ops::result_types_at(op, d, p, t) == encoding::read_ok(
            ts,
            p + result_types_form(op, ts, t).len(),
        ),
{
    match op.spec_result_count() {
        Some(_) => {
            type_forms::type_refs_round_trip(
                d,
                p,
                ts,
                t.types,
                DecodeError::ResultTypeIndex,
                Seq::empty(),
            );
            assert(Seq::<TypeModel>::empty() + ts =~= ts);
        },
        None => {
            type_forms::var_type_refs_round_trip(d, p, ts, t.types, DecodeError::ResultTypeIndex);
        },
    }
}

/// What of an operation does not lie in its regions, as it is written: operands are
/// places among the values in scope, by groups.
#[verifier::ext_equal]
pub struct OpImage {
    pub opcode: Opcode,
    pub result_types: Seq<TypeModel>,
    pub attributes: AttrValues,
    pub operands: Seq<Seq<nat>>,
}

impl OpImage {
    /// The flags of the operation.
    pub open spec fn flags(self, version: BytecodeVersion) -> u64 {
        flags_of(layout_of(self.opcode, version), self.attributes)
    }

    /// The form of the operation behind its code, but for its regions.
    pub open spec fn form(self, t: TablesModel, version: BytecodeVersion) -> Seq<u8> {
        result_types_form(self.opcode, self.result_types, t) + values_form(
            layout_of(self.opcode, version),
            self.attributes,
            t,
        ) + operands_form(self.opcode, self.flags(version), self.operands)
    }

    /// The operation can be written where `scope` values are in scope.
    pub open spec fn writable(self, scope: nat, t: TablesModel, version: BytecodeVersion) -> bool {
        &&& result_types_fit(self.opcode, self.result_types, t)
        &&& values_fit(
            layout_of(self.opcode, version),
            self.attributes,
            self.result_types,
            t,
        )
        &&& operands_fit(self.opcode, self.flags(version), self.operands, scope)
    }

    /// What the operation is, where the given values are in scope.
    pub open spec fn fields(self, values: Seq<nat>, version: BytecodeVersion) -> ops::OpFields {
        ops::OpFields {
            result_types: self.result_types,
            attributes: ops::with_segments(
                attributes_of(
                    layout_of(self.opcode, version),
                    self.attributes,
                    self.result_types,
                ),
                op_segments(self.opcode, self.flags(version), self.operands),
            ),
            operands: values_at(flattened(self.operands), values),
        }
    }
}

/// Every operation that can be written is read back, but for its regions.
pub proof fn op_fields_round_trip(
    d: Seq<u8>,
    p: int,
    op: OpImage,
    t: TablesModel,
    version: BytecodeVersion,
    values: Seq<nat>,
)
    requires
        encoding::holds(d, p, op.form(t, version)),
        op.writable(values.len(), t, version),
        attribute_forms::tables_fit(t),
    ensures
        ops::op_fields_at(op.opcode, d, p, t, version, values) == encoding::read_ok(
            op.fields(values, version),
            p + op.form(t, version).len(),
        ),
{
    reveal(ops::op_fields_at);
    let layout = layout_of(op.opcode, version);
    let flags = op.flags(version);
    let a = result_types_form(op.opcode, op.result_types, t);
    let b = values_form(layout, op.attributes, t);
    let c = operands_form(op.opcode, flags, op.operands);
    encoding::holds_split(d, p, a + b, c);
    encoding::holds_split(d, p, a, b);
    result_types_round_trip(op.opcode, d, p, op.result_types, t);
    attributes_by_layout(op.opcode, d, p + a.len(), t, version, op.result_types);
    unflagged_layouts(op.opcode, version);
    layout_round_trip(
        layout,
        op.opcode,
        d,
        p + a.len(),
        op.attributes,
        t,
        op.result_types,
    );
    operands_round_trip(op.opcode, d, p + (a + b).len(), flags, op.operands, values);
}

/// A layout without flags has no attributes for them.
proof fn unflagged_layouts(op: Opcode, version: BytecodeVersion)
    ensures
        layout_of(op, version) matches Layout::Ints { flagged, flags, .. } ==> flagged
            || flags.len() == 0,
{
}

} // verus!
