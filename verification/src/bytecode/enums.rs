//! Constants and tags of the bytecode format.

use vstd::prelude::*;
use vstd::string::StringExecFns;

use crate::text::push_dec;

verus! {

/// The byte that fills alignment gaps.
pub const ALIGNMENT_BYTE: u8 = 0xCB;

/// The number of section kinds, the end marker among them.
pub const NUM_SECTIONS: u8 = 7;

/// The eight bytes that every buffer starts with.
pub const MAGIC: [u8; 8] = [0x7F, 0x54, 0x69, 0x6C, 0x65, 0x49, 0x52, 0x00];

/// The sections of a buffer, in the order of their numbers.
#[derive(Clone, Copy, Debug, PartialEq, Eq, Structural)]
pub enum Section {
    EndOfBytecode,
    String,
    Func,
    Debug,
    Constant,
    Type,
    Global,
}

impl Section {
    /// The number of the section in its header.
    pub open spec fn spec_id(self) -> u8 {
        match self {
            Section::EndOfBytecode => 0,
            Section::String => 1,
            Section::Func => 2,
            Section::Debug => 3,
            Section::Constant => 4,
            Section::Type => 5,
            Section::Global => 6,
        }
    }

    /// The number of the section in its header.
    pub fn id(self) -> (id: u8)
        ensures
            id == self.spec_id(),
    {
        match self {
            Section::EndOfBytecode => 0,
            Section::String => 1,
            Section::Func => 2,
            Section::Debug => 3,
            Section::Constant => 4,
            Section::Type => 5,
            Section::Global => 6,
        }
    }
}

/// The kinds of type entries, in the order of their tags.
#[derive(Clone, Copy, Debug, PartialEq, Eq, Structural)]
pub enum TypeTag {
    I1,
    I8,
    I16,
    I32,
    I64,
    F16,
    BF16,
    F32,
    TF32,
    F64,
    F8E4M3FN,
    F8E5M2,
    Pointer,
    Tile,
    TensorView,
    PartitionView,
    Func,
    Token,
    F8E8M0FNU,
    I4,
    F4E2M1FN,
    GatherScatterView,
    StridedView,
}

/// The kind of a tag, where the tag is assigned.
pub open spec fn type_tag_of(tag: u64) -> Option<TypeTag> {
    match tag {
        0 => Some(TypeTag::I1),
        1 => Some(TypeTag::I8),
        2 => Some(TypeTag::I16),
        3 => Some(TypeTag::I32),
        4 => Some(TypeTag::I64),
        5 => Some(TypeTag::F16),
        6 => Some(TypeTag::BF16),
        7 => Some(TypeTag::F32),
        8 => Some(TypeTag::TF32),
        9 => Some(TypeTag::F64),
        10 => Some(TypeTag::F8E4M3FN),
        11 => Some(TypeTag::F8E5M2),
        12 => Some(TypeTag::Pointer),
        13 => Some(TypeTag::Tile),
        14 => Some(TypeTag::TensorView),
        15 => Some(TypeTag::PartitionView),
        16 => Some(TypeTag::Func),
        17 => Some(TypeTag::Token),
        18 => Some(TypeTag::F8E8M0FNU),
        19 => Some(TypeTag::I4),
        20 => Some(TypeTag::F4E2M1FN),
        21 => Some(TypeTag::GatherScatterView),
        22 => Some(TypeTag::StridedView),
        _ => None,
    }
}

impl TypeTag {
    /// The tag of the kind.
    pub open spec fn spec_tag(self) -> u64 {
        match self {
            TypeTag::I1 => 0,
            TypeTag::I8 => 1,
            TypeTag::I16 => 2,
            TypeTag::I32 => 3,
            TypeTag::I64 => 4,
            TypeTag::F16 => 5,
            TypeTag::BF16 => 6,
            TypeTag::F32 => 7,
            TypeTag::TF32 => 8,
            TypeTag::F64 => 9,
            TypeTag::F8E4M3FN => 10,
            TypeTag::F8E5M2 => 11,
            TypeTag::Pointer => 12,
            TypeTag::Tile => 13,
            TypeTag::TensorView => 14,
            TypeTag::PartitionView => 15,
            TypeTag::Func => 16,
            TypeTag::Token => 17,
            TypeTag::F8E8M0FNU => 18,
            TypeTag::I4 => 19,
            TypeTag::F4E2M1FN => 20,
            TypeTag::GatherScatterView => 21,
            TypeTag::StridedView => 22,
        }
    }

    /// The tag of the kind.
    pub fn tag(self) -> (tag: u64)
        ensures
            tag == self.spec_tag(),
    {
        match self {
            TypeTag::I1 => 0,
            TypeTag::I8 => 1,
            TypeTag::I16 => 2,
            TypeTag::I32 => 3,
            TypeTag::I64 => 4,
            TypeTag::F16 => 5,
            TypeTag::BF16 => 6,
            TypeTag::F32 => 7,
            TypeTag::TF32 => 8,
            TypeTag::F64 => 9,
            TypeTag::F8E4M3FN => 10,
            TypeTag::F8E5M2 => 11,
            TypeTag::Pointer => 12,
            TypeTag::Tile => 13,
            TypeTag::TensorView => 14,
            TypeTag::PartitionView => 15,
            TypeTag::Func => 16,
            TypeTag::Token => 17,
            TypeTag::F8E8M0FNU => 18,
            TypeTag::I4 => 19,
            TypeTag::F4E2M1FN => 20,
            TypeTag::GatherScatterView => 21,
            TypeTag::StridedView => 22,
        }
    }

    /// The kind of a tag, `None` where the tag is not assigned.
    pub fn from_tag(tag: u64) -> (kind: Option<TypeTag>)
        ensures
            kind == type_tag_of(tag),
    {
        match tag {
            0 => Some(TypeTag::I1),
            1 => Some(TypeTag::I8),
            2 => Some(TypeTag::I16),
            3 => Some(TypeTag::I32),
            4 => Some(TypeTag::I64),
            5 => Some(TypeTag::F16),
            6 => Some(TypeTag::BF16),
            7 => Some(TypeTag::F32),
            8 => Some(TypeTag::TF32),
            9 => Some(TypeTag::F64),
            10 => Some(TypeTag::F8E4M3FN),
            11 => Some(TypeTag::F8E5M2),
            12 => Some(TypeTag::Pointer),
            13 => Some(TypeTag::Tile),
            14 => Some(TypeTag::TensorView),
            15 => Some(TypeTag::PartitionView),
            16 => Some(TypeTag::Func),
            17 => Some(TypeTag::Token),
            18 => Some(TypeTag::F8E8M0FNU),
            19 => Some(TypeTag::I4),
            20 => Some(TypeTag::F4E2M1FN),
            21 => Some(TypeTag::GatherScatterView),
            22 => Some(TypeTag::StridedView),
            _ => None,
        }
    }
}

/// The kinds of self-contained attributes, in the order of their tags.
#[derive(Clone, Copy, Debug, PartialEq, Eq, Structural)]
pub enum AttributeTag {
    Integer,
    Float,
    Bool,
    Type,
    String,
    Array,
    DenseElements,
    DivBy,
    SameElements,
    Dictionary,
    OptimizationHints,
    Bounded,
}

/// The kind of a tag, where the tag is assigned.
pub open spec fn attribute_tag_of(tag: u64) -> Option<AttributeTag> {
    match tag {
        1 => Some(AttributeTag::Integer),
        2 => Some(AttributeTag::Float),
        3 => Some(AttributeTag::Bool),
        4 => Some(AttributeTag::Type),
        5 => Some(AttributeTag::String),
        6 => Some(AttributeTag::Array),
        7 => Some(AttributeTag::DenseElements),
        8 => Some(AttributeTag::DivBy),
        9 => Some(AttributeTag::SameElements),
        10 => Some(AttributeTag::Dictionary),
        11 => Some(AttributeTag::OptimizationHints),
        12 => Some(AttributeTag::Bounded),
        _ => None,
    }
}

impl AttributeTag {
    /// The tag of the kind.
    pub open spec fn spec_tag(self) -> u64 {
        match self {
            AttributeTag::Integer => 1,
            AttributeTag::Float => 2,
            AttributeTag::Bool => 3,
            AttributeTag::Type => 4,
            AttributeTag::String => 5,
            AttributeTag::Array => 6,
            AttributeTag::DenseElements => 7,
            AttributeTag::DivBy => 8,
            AttributeTag::SameElements => 9,
            AttributeTag::Dictionary => 10,
            AttributeTag::OptimizationHints => 11,
            AttributeTag::Bounded => 12,
        }
    }

    /// The tag of the kind.
    pub fn tag(self) -> (tag: u64)
        ensures
            tag == self.spec_tag(),
    {
        match self {
            AttributeTag::Integer => 1,
            AttributeTag::Float => 2,
            AttributeTag::Bool => 3,
            AttributeTag::Type => 4,
            AttributeTag::String => 5,
            AttributeTag::Array => 6,
            AttributeTag::DenseElements => 7,
            AttributeTag::DivBy => 8,
            AttributeTag::SameElements => 9,
            AttributeTag::Dictionary => 10,
            AttributeTag::OptimizationHints => 11,
            AttributeTag::Bounded => 12,
        }
    }

    /// The kind of a tag, `None` where the tag is not assigned.
    pub fn from_tag(tag: u64) -> (kind: Option<AttributeTag>)
        ensures
            kind == attribute_tag_of(tag),
    {
        match tag {
            1 => Some(AttributeTag::Integer),
            2 => Some(AttributeTag::Float),
            3 => Some(AttributeTag::Bool),
            4 => Some(AttributeTag::Type),
            5 => Some(AttributeTag::String),
            6 => Some(AttributeTag::Array),
            7 => Some(AttributeTag::DenseElements),
            8 => Some(AttributeTag::DivBy),
            9 => Some(AttributeTag::SameElements),
            10 => Some(AttributeTag::Dictionary),
            11 => Some(AttributeTag::OptimizationHints),
            12 => Some(AttributeTag::Bounded),
            _ => None,
        }
    }
}

/// Every kind of type entry and of attribute is found again from its tag.
pub proof fn tags_are_faithful(t: TypeTag, a: AttributeTag)
    ensures
        type_tag_of(t.spec_tag()) == Some(t),
        attribute_tag_of(a.spec_tag()) == Some(a),
{
}

/// The flags of a function.
#[derive(Clone, Copy, Debug, PartialEq, Eq, Structural)]
pub enum FunctionFlag {
    VisibilityPrivate,
    KindKernel,
    HasOptimizationHints,
}

impl FunctionFlag {
    /// Whether a flags byte holds the flag: private in bit 0, kernel in bit 1,
    /// optimization hints in bit 2.
    pub open spec fn spec_is_set(self, flags: u8) -> bool {
        match self {
            FunctionFlag::VisibilityPrivate => flags % 2 == 1,
            FunctionFlag::KindKernel => (flags / 2) % 2 == 1,
            FunctionFlag::HasOptimizationHints => (flags / 4) % 2 == 1,
        }
    }

    /// Whether a flags byte holds the flag.
    pub fn is_set(self, flags: u8) -> (b: bool)
        ensures
            b == self.spec_is_set(flags),
    {
        match self {
            FunctionFlag::VisibilityPrivate => flags % 2 == 1,
            FunctionFlag::KindKernel => (flags / 2) % 2 == 1,
            FunctionFlag::HasOptimizationHints => (flags / 4) % 2 == 1,
        }
    }
}

/// A version of the bytecode format.
#[derive(Clone, Copy, Debug, PartialEq, Eq, Ord, Structural)]
pub struct BytecodeVersion {
    pub major: u8,
    pub minor: u8,
    pub tag: u16,
}

impl BytecodeVersion {
    /// The version 13.1, the oldest that is supported.
    pub open spec fn spec_v13_1() -> BytecodeVersion {
        BytecodeVersion { major: 13, minor: 1, tag: 0 }
    }

    /// The version 13.2.
    pub open spec fn spec_v13_2() -> BytecodeVersion {
        BytecodeVersion { major: 13, minor: 2, tag: 0 }
    }

    /// The version 13.3.
    pub open spec fn spec_v13_3() -> BytecodeVersion {
        BytecodeVersion { major: 13, minor: 3, tag: 0 }
    }

    /// The version 13.1, the oldest that is supported.
    #[verifier::when_used_as_spec(spec_v13_1)]
    pub fn v13_1() -> (v: BytecodeVersion)
        ensures
            v == Self::spec_v13_1(),
    {
        BytecodeVersion { major: 13, minor: 1, tag: 0 }
    }

    /// The version 13.2.
    #[verifier::when_used_as_spec(spec_v13_2)]
    pub fn v13_2() -> (v: BytecodeVersion)
        ensures
            v == Self::spec_v13_2(),
    {
        BytecodeVersion { major: 13, minor: 2, tag: 0 }
    }

    /// The version 13.3.
    #[verifier::when_used_as_spec(spec_v13_3)]
    pub fn v13_3() -> (v: BytecodeVersion)
        ensures
            v == Self::spec_v13_3(),
    {
        BytecodeVersion { major: 13, minor: 3, tag: 0 }
    }

    /// The version that is written where none is asked for.
    #[verifier::when_used_as_spec(spec_v13_3)]
    pub fn current() -> (v: BytecodeVersion)
        ensures
            v == Self::spec_v13_3(),
    {
        Self::v13_3()
    }

    /// The oldest version that is supported.
    #[verifier::when_used_as_spec(spec_v13_1)]
    pub fn min_supported() -> (v: BytecodeVersion)
        ensures
            v == Self::spec_v13_1(),
    {
        Self::v13_1()
    }

    /// Whether a version is not older than the oldest that is supported.
    pub fn is_supported(self) -> (b: bool)
        ensures
            b == (self.rank() >= Self::spec_v13_1().rank()),
    {
        self >= Self::min_supported()
    }

    /// The number by which versions are ordered: major, then minor, then tag.
    pub open spec fn rank(self) -> int {
        (self.major * 256 + self.minor) * 65536 + self.tag
    }

    /// The version as text: `major.minor`, and `.tag` where the tag is not zero.
    pub open spec fn text(self) -> Seq<char> {
        let base = crate::text::dec_text(self.major as nat) + "."@ + crate::text::dec_text(
            self.minor as nat,
        );
        if self.tag == 0 {
            base
        } else {
            base + "."@ + crate::text::dec_text(self.tag as nat)
        }
    }

    /// Appends the version as text.
    pub fn push_text(self, out: &mut String)
        ensures
            final(out)@ == old(out)@ + self.text(),
    {
        push_dec(out, self.major as u64);
        out.append(".");
        push_dec(out, self.minor as u64);
        if self.tag != 0 {
            out.append(".");
            push_dec(out, self.tag as u64);
        }
        assert(out@ =~= old(out)@ + self.text());
    }

    /// The version as text: `major.minor`, and `.tag` where the tag is not zero.
    pub fn to_text(self) -> (s: String)
        ensures
            s@ == self.text(),
    {
        let mut out = String::new();
        self.push_text(&mut out);
        assert(out@ =~= self.text());
        out
    }
}

impl vstd::std_specs::cmp::PartialOrdSpecImpl for BytecodeVersion {
    open spec fn obeys_partial_cmp_spec() -> bool {
        true
    }

    open spec fn partial_cmp_spec(&self, other: &BytecodeVersion) -> Option<std::cmp::Ordering> {
        if self.rank() < other.rank() {
            Some(std::cmp::Ordering::Less)
        } else if self.rank() > other.rank() {
            Some(std::cmp::Ordering::Greater)
        } else {
            Some(std::cmp::Ordering::Equal)
        }
    }
}

impl PartialOrd for BytecodeVersion {
    fn partial_cmp(&self, other: &BytecodeVersion) -> (r: Option<std::cmp::Ordering>) {
        if self.major != other.major {
            if self.major < other.major {
                Some(std::cmp::Ordering::Less)
            } else {
                Some(std::cmp::Ordering::Greater)
            }
        } else if self.minor != other.minor {
            if self.minor < other.minor {
                Some(std::cmp::Ordering::Less)
            } else {
                Some(std::cmp::Ordering::Greater)
            }
        } else if self.tag < other.tag {
            Some(std::cmp::Ordering::Less)
        } else if self.tag > other.tag {
            Some(std::cmp::Ordering::Greater)
        } else {
            Some(std::cmp::Ordering::Equal)
        }
    }
}

/// Versions are ordered by major, then minor, then tag, and versions of equal rank are
/// equal: the order is total.
pub proof fn versions_are_totally_ordered(a: BytecodeVersion, b: BytecodeVersion)
    ensures
        a.rank() < b.rank() <==> a.major < b.major || (a.major == b.major && (a.minor < b.minor || (
        a.minor == b.minor && a.tag < b.tag))),
        a.rank() == b.rank() <==> a == b,
        a.rank() < b.rank() || a == b || b.rank() < a.rank(),
{
}

} // verus!
