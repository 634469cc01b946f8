//! Operation codes.

use vstd::prelude::*;

verus! {

/// The operations of the dialect, in the order of their codes.
#[derive(Clone, Copy, Debug, PartialEq, Eq, Structural)]
pub enum Opcode {
    AbsF,
    AbsI,
    AddF,
    AddI,
    AndI,
    Assert,
    Assume,
    AtomicCAS,
    AtomicRMW,
    Bitcast,
    Break,
    Broadcast,
    Cat,
    Ceil,
    CmpF,
    CmpI,
    Constant,
    Continue,
    Cos,
    CosH,
    DivF,
    DivI,
    Entry,
    Exp,
    Exp2,
    ExtI,
    Extract,
    Floor,
    Fma,
    For,
    FToF,
    FToI,
    GetGlobal,
    GetIndexSpaceShape,
    GetNumTileBlocks,
    GetTensorShape,
    GetTileBlockId,
    If,
    IntToPtr,
    Iota,
    IToF,
    JoinTokens,
    LoadPtrTko,
    LoadViewTko,
    Log,
    Log2,
    Loop,
    MakePartitionView,
    MakeTensorView,
    MakeToken,
    MaxF,
    MaxI,
    MinF,
    MinI,
    MmaF,
    MmaI,
    MulF,
    MulhiI,
    MulI,
    NegF,
    NegI,
    Offset,
    OrI,
    Permute,
    Pow,
    Print,
    PtrToInt,
    PtrToPtr,
    Reduce,
    RemF,
    RemI,
    Reshape,
    Return,
    Rsqrt,
    Scan,
    Select,
    ShLI,
    ShRI,
    Sin,
    SinH,
    Sqrt,
    StorePtrTko,
    StoreViewTko,
    SubF,
    SubI,
    Tan,
    TanH,
    TruncI,
    XOrI,
    Yield,
    Atan2,
    Alloca,
    AtomicRedViewTko,
    MakeGatherScatterView,
    MakeStridedView,
    MmaFScaled,
    Pack,
    Unpack,
}

/// The number of operation codes.
pub const NUM_OPCODES: u16 = 98;

/// The operation of a code, where the code is assigned.
pub open spec fn opcode_of(code: u16) -> Option<Opcode> {
    match code {
        0 => Some(Opcode::AbsF),
        1 => Some(Opcode::AbsI),
        2 => Some(Opcode::AddF),
        3 => Some(Opcode::AddI),
        4 => Some(Opcode::AndI),
        5 => Some(Opcode::Assert),
        6 => Some(Opcode::Assume),
        7 => Some(Opcode::AtomicCAS),
        8 => Some(Opcode::AtomicRMW),
        9 => Some(Opcode::Bitcast),
        10 => Some(Opcode::Break),
        11 => Some(Opcode::Broadcast),
        12 => Some(Opcode::Cat),
        13 => Some(Opcode::Ceil),
        14 => Some(Opcode::CmpF),
        15 => Some(Opcode::CmpI),
        16 => Some(Opcode::Constant),
        17 => Some(Opcode::Continue),
        18 => Some(Opcode::Cos),
        19 => Some(Opcode::CosH),
        20 => Some(Opcode::DivF),
        21 => Some(Opcode::DivI),
        22 => Some(Opcode::Entry),
        23 => Some(Opcode::Exp),
        24 => Some(Opcode::Exp2),
        25 => Some(Opcode::ExtI),
        26 => Some(Opcode::Extract),
        27 => Some(Opcode::Floor),
        28 => Some(Opcode::Fma),
        29 => Some(Opcode::For),
        30 => Some(Opcode::FToF),
        31 => Some(Opcode::FToI),
        32 => Some(Opcode::GetGlobal),
        33 => Some(Opcode::GetIndexSpaceShape),
        34 => Some(Opcode::GetNumTileBlocks),
        35 => Some(Opcode::GetTensorShape),
        36 => Some(Opcode::GetTileBlockId),
        37 => Some(Opcode::If),
        38 => Some(Opcode::IntToPtr),
        39 => Some(Opcode::Iota),
        40 => Some(Opcode::IToF),
        41 => Some(Opcode::JoinTokens),
        42 => Some(Opcode::LoadPtrTko),
        43 => Some(Opcode::LoadViewTko),
        44 => Some(Opcode::Log),
        45 => Some(Opcode::Log2),
        46 => Some(Opcode::Loop),
        47 => Some(Opcode::MakePartitionView),
        48 => Some(Opcode::MakeTensorView),
        49 => Some(Opcode::MakeToken),
        50 => Some(Opcode::MaxF),
        51 => Some(Opcode::MaxI),
        52 => Some(Opcode::MinF),
        53 => Some(Opcode::MinI),
        54 => Some(Opcode::MmaF),
        55 => Some(Opcode::MmaI),
        56 => Some(Opcode::MulF),
        57 => Some(Opcode::MulhiI),
        58 => Some(Opcode::MulI),
        59 => Some(Opcode::NegF),
        60 => Some(Opcode::NegI),
        61 => Some(Opcode::Offset),
        62 => Some(Opcode::OrI),
        63 => Some(Opcode::Permute),
        64 => Some(Opcode::Pow),
        65 => Some(Opcode::Print),
        66 => Some(Opcode::PtrToInt),
        67 => Some(Opcode::PtrToPtr),
        68 => Some(Opcode::Reduce),
        69 => Some(Opcode::RemF),
        70 => Some(Opcode::RemI),
        71 => Some(Opcode::Reshape),
        72 => Some(Opcode::Return),
        73 => Some(Opcode::Rsqrt),
        74 => Some(Opcode::Scan),
        75 => Some(Opcode::Select),
        76 => Some(Opcode::ShLI),
        77 => Some(Opcode::ShRI),
        78 => Some(Opcode::Sin),
        79 => Some(Opcode::SinH),
        80 => Some(Opcode::Sqrt),
        81 => Some(Opcode::StorePtrTko),
        82 => Some(Opcode::StoreViewTko),
        83 => Some(Opcode::SubF),
        84 => Some(Opcode::SubI),
        85 => Some(Opcode::Tan),
        86 => Some(Opcode::TanH),
        87 => Some(Opcode::TruncI),
        88 => Some(Opcode::XOrI),
        89 => Some(Opcode::Yield),
        90 => Some(Opcode::Atan2),
        91 => Some(Opcode::Alloca),
        92 => Some(Opcode::AtomicRedViewTko),
        93 => Some(Opcode::MakeGatherScatterView),
        94 => Some(Opcode::MakeStridedView),
        95 => Some(Opcode::MmaFScaled),
        96 => Some(Opcode::Pack),
        97 => Some(Opcode::Unpack),
        _ => None,
    }
}

impl Opcode {
    /// The code of the operation.
    pub open spec fn spec_code(self) -> u16 {
        match self {
            Opcode::AbsF => 0,
            Opcode::AbsI => 1,
            Opcode::AddF => 2,
            Opcode::AddI => 3,
            Opcode::AndI => 4,
            Opcode::Assert => 5,
            Opcode::Assume => 6,
            Opcode::AtomicCAS => 7,
            Opcode::AtomicRMW => 8,
            Opcode::Bitcast => 9,
            Opcode::Break => 10,
            Opcode::Broadcast => 11,
            Opcode::Cat => 12,
            Opcode::Ceil => 13,
            Opcode::CmpF => 14,
            Opcode::CmpI => 15,
            Opcode::Constant => 16,
            Opcode::Continue => 17,
            Opcode::Cos => 18,
            Opcode::CosH => 19,
            Opcode::DivF => 20,
            Opcode::DivI => 21,
            Opcode::Entry => 22,
            Opcode::Exp => 23,
            Opcode::Exp2 => 24,
            Opcode::ExtI => 25,
            Opcode::Extract => 26,
            Opcode::Floor => 27,
            Opcode::Fma => 28,
            Opcode::For => 29,
            Opcode::FToF => 30,
            Opcode::FToI => 31,
            Opcode::GetGlobal => 32,
            Opcode::GetIndexSpaceShape => 33,
            Opcode::GetNumTileBlocks => 34,
            Opcode::GetTensorShape => 35,
            Opcode::GetTileBlockId => 36,
            Opcode::If => 37,
            Opcode::IntToPtr => 38,
            Opcode::Iota => 39,
            Opcode::IToF => 40,
            Opcode::JoinTokens => 41,
            Opcode::LoadPtrTko => 42,
            Opcode::LoadViewTko => 43,
            Opcode::Log => 44,
            Opcode::Log2 => 45,
            Opcode::Loop => 46,
            Opcode::MakePartitionView => 47,
            Opcode::MakeTensorView => 48,
            Opcode::MakeToken => 49,
            Opcode::MaxF => 50,
            Opcode::MaxI => 51,
            Opcode::MinF => 52,
            Opcode::MinI => 53,
            Opcode::MmaF => 54,
            Opcode::MmaI => 55,
            Opcode::MulF => 56,
            Opcode::MulhiI => 57,
            Opcode::MulI => 58,
            Opcode::NegF => 59,
            Opcode::NegI => 60,
            Opcode::Offset => 61,
            Opcode::OrI => 62,
            Opcode::Permute => 63,
            Opcode::Pow => 64,
            Opcode::Print => 65,
            Opcode::PtrToInt => 66,
            Opcode::PtrToPtr => 67,
            Opcode::Reduce => 68,
            Opcode::RemF => 69,
            Opcode::RemI => 70,
            Opcode::Reshape => 71,
            Opcode::Return => 72,
            Opcode::Rsqrt => 73,
            Opcode::Scan => 74,
            Opcode::Select => 75,
            Opcode::ShLI => 76,
            Opcode::ShRI => 77,
            Opcode::Sin => 78,
            Opcode::SinH => 79,
            Opcode::Sqrt => 80,
            Opcode::StorePtrTko => 81,
            Opcode::StoreViewTko => 82,
            Opcode::SubF => 83,
            Opcode::SubI => 84,
            Opcode::Tan => 85,
            Opcode::TanH => 86,
            Opcode::TruncI => 87,
            Opcode::XOrI => 88,
            Opcode::Yield => 89,
            Opcode::Atan2 => 90,
            Opcode::Alloca => 91,
            Opcode::AtomicRedViewTko => 92,
            Opcode::MakeGatherScatterView => 93,
            Opcode::MakeStridedView => 94,
            Opcode::MmaFScaled => 95,
            Opcode::Pack => 96,
            Opcode::Unpack => 97,
        }
    }

    /// The operation of a code, `None` where the code is not assigned.
    pub fn from_u16(code: u16) -> (op: Option<Opcode>)
        ensures
            op == opcode_of(code),
    {
        match code {
            0 => Some(Opcode::AbsF),
            1 => Some(Opcode::AbsI),
            2 => Some(Opcode::AddF),
            3 => Some(Opcode::AddI),
            4 => Some(Opcode::AndI),
            5 => Some(Opcode::Assert),
            6 => Some(Opcode::Assume),
            7 => Some(Opcode::AtomicCAS),
            8 => Some(Opcode::AtomicRMW),
            9 => Some(Opcode::Bitcast),
            10 => Some(Opcode::Break),
            11 => Some(Opcode::Broadcast),
            12 => Some(Opcode::Cat),
            13 => Some(Opcode::Ceil),
            14 => Some(Opcode::CmpF),
            15 => Some(Opcode::CmpI),
            16 => Some(Opcode::Constant),
            17 => Some(Opcode::Continue),
            18 => Some(Opcode::Cos),
            19 => Some(Opcode::CosH),
            20 => Some(Opcode::DivF),
            21 => Some(Opcode::DivI),
            22 => Some(Opcode::Entry),
            23 => Some(Opcode::Exp),
            24 => Some(Opcode::Exp2),
            25 => Some(Opcode::ExtI),
            26 => Some(Opcode::Extract),
            27 => Some(Opcode::Floor),
            28 => Some(Opcode::Fma),
            29 => Some(Opcode::For),
            30 => Some(Opcode::FToF),
            31 => Some(Opcode::FToI),
            32 => Some(Opcode::GetGlobal),
            33 => Some(Opcode::GetIndexSpaceShape),
            34 => Some(Opcode::GetNumTileBlocks),
            35 => Some(Opcode::GetTensorShape),
            36 => Some(Opcode::GetTileBlockId),
            37 => Some(Opcode::If),
            38 => Some(Opcode::IntToPtr),
            39 => Some(Opcode::Iota),
            40 => Some(Opcode::IToF),
            41 => Some(Opcode::JoinTokens),
            42 => Some(Opcode::LoadPtrTko),
            43 => Some(Opcode::LoadViewTko),
            44 => Some(Opcode::Log),
            45 => Some(Opcode::Log2),
            46 => Some(Opcode::Loop),
            47 => Some(Opcode::MakePartitionView),
            48 => Some(Opcode::MakeTensorView),
            49 => Some(Opcode::MakeToken),
            50 => Some(Opcode::MaxF),
            51 => Some(Opcode::MaxI),
            52 => Some(Opcode::MinF),
            53 => Some(Opcode::MinI),
            54 => Some(Opcode::MmaF),
            55 => Some(Opcode::MmaI),
            56 => Some(Opcode::MulF),
            57 => Some(Opcode::MulhiI),
            58 => Some(Opcode::MulI),
            59 => Some(Opcode::NegF),
            60 => Some(Opcode::NegI),
            61 => Some(Opcode::Offset),
            62 => Some(Opcode::OrI),
            63 => Some(Opcode::Permute),
            64 => Some(Opcode::Pow),
            65 => Some(Opcode::Print),
            66 => Some(Opcode::PtrToInt),
            67 => Some(Opcode::PtrToPtr),
            68 => Some(Opcode::Reduce),
            69 => Some(Opcode::RemF),
            70 => Some(Opcode::RemI),
            71 => Some(Opcode::Reshape),
            72 => Some(Opcode::Return),
            73 => Some(Opcode::Rsqrt),
            74 => Some(Opcode::Scan),
            75 => Some(Opcode::Select),
            76 => Some(Opcode::ShLI),
            77 => Some(Opcode::ShRI),
            78 => Some(Opcode::Sin),
            79 => Some(Opcode::SinH),
            80 => Some(Opcode::Sqrt),
            81 => Some(Opcode::StorePtrTko),
            82 => Some(Opcode::StoreViewTko),
            83 => Some(Opcode::SubF),
            84 => Some(Opcode::SubI),
            85 => Some(Opcode::Tan),
            86 => Some(Opcode::TanH),
            87 => Some(Opcode::TruncI),
            88 => Some(Opcode::XOrI),
            89 => Some(Opcode::Yield),
            90 => Some(Opcode::Atan2),
            91 => Some(Opcode::Alloca),
            92 => Some(Opcode::AtomicRedViewTko),
            93 => Some(Opcode::MakeGatherScatterView),
            94 => Some(Opcode::MakeStridedView),
            95 => Some(Opcode::MmaFScaled),
            96 => Some(Opcode::Pack),
            97 => Some(Opcode::Unpack),
            _ => None,
        }
    }

    /// The code of the operation.
    pub fn code(self) -> (code: u16)
        ensures
            code == self.spec_code(),
    {
        match self {
            Opcode::AbsF => 0,
            Opcode::AbsI => 1,
            Opcode::AddF => 2,
            Opcode::AddI => 3,
            Opcode::AndI => 4,
            Opcode::Assert => 5,
            Opcode::Assume => 6,
            Opcode::AtomicCAS => 7,
            Opcode::AtomicRMW => 8,
            Opcode::Bitcast => 9,
            Opcode::Break => 10,
            Opcode::Broadcast => 11,
            Opcode::Cat => 12,
            Opcode::Ceil => 13,
            Opcode::CmpF => 14,
            Opcode::CmpI => 15,
            Opcode::Constant => 16,
            Opcode::Continue => 17,
            Opcode::Cos => 18,
            Opcode::CosH => 19,
            Opcode::DivF => 20,
            Opcode::DivI => 21,
            Opcode::Entry => 22,
            Opcode::Exp => 23,
            Opcode::Exp2 => 24,
            Opcode::ExtI => 25,
            Opcode::Extract => 26,
            Opcode::Floor => 27,
            Opcode::Fma => 28,
            Opcode::For => 29,
            Opcode::FToF => 30,
            Opcode::FToI => 31,
            Opcode::GetGlobal => 32,
            Opcode::GetIndexSpaceShape => 33,
            Opcode::GetNumTileBlocks => 34,
            Opcode::GetTensorShape => 35,
            Opcode::GetTileBlockId => 36,
            Opcode::If => 37,
            Opcode::IntToPtr => 38,
            Opcode::Iota => 39,
            Opcode::IToF => 40,
            Opcode::JoinTokens => 41,
            Opcode::LoadPtrTko => 42,
            Opcode::LoadViewTko => 43,
            Opcode::Log => 44,
            Opcode::Log2 => 45,
            Opcode::Loop => 46,
            Opcode::MakePartitionView => 47,
            Opcode::MakeTensorView => 48,
            Opcode::MakeToken => 49,
            Opcode::MaxF => 50,
            Opcode::MaxI => 51,
            Opcode::MinF => 52,
            Opcode::MinI => 53,
            Opcode::MmaF => 54,
            Opcode::MmaI => 55,
            Opcode::MulF => 56,
            Opcode::MulhiI => 57,
            Opcode::MulI => 58,
            Opcode::NegF => 59,
            Opcode::NegI => 60,
            Opcode::Offset => 61,
            Opcode::OrI => 62,
            Opcode::Permute => 63,
            Opcode::Pow => 64,
            Opcode::Print => 65,
            Opcode::PtrToInt => 66,
            Opcode::PtrToPtr => 67,
            Opcode::Reduce => 68,
            Opcode::RemF => 69,
            Opcode::RemI => 70,
            Opcode::Reshape => 71,
            Opcode::Return => 72,
            Opcode::Rsqrt => 73,
            Opcode::Scan => 74,
            Opcode::Select => 75,
            Opcode::ShLI => 76,
            Opcode::ShRI => 77,
            Opcode::Sin => 78,
            Opcode::SinH => 79,
            Opcode::Sqrt => 80,
            Opcode::StorePtrTko => 81,
            Opcode::StoreViewTko => 82,
            Opcode::SubF => 83,
            Opcode::SubI => 84,
            Opcode::Tan => 85,
            Opcode::TanH => 86,
            Opcode::TruncI => 87,
            Opcode::XOrI => 88,
            Opcode::Yield => 89,
            Opcode::Atan2 => 90,
            Opcode::Alloca => 91,
            Opcode::AtomicRedViewTko => 92,
            Opcode::MakeGatherScatterView => 93,
            Opcode::MakeStridedView => 94,
            Opcode::MmaFScaled => 95,
            Opcode::Pack => 96,
            Opcode::Unpack => 97,
        }
    }

    /// The number of results where the operation fixes it; `None` where a count
    /// stands in the stream.
    pub open spec fn spec_result_count(self) -> Option<usize> {
        match self {
            Opcode::Assert
            | Opcode::Break
            | Opcode::Continue
            | Opcode::Entry
            | Opcode::Print
            | Opcode::Return
            | Opcode::Yield => Some(0),
            Opcode::AtomicCAS
            | Opcode::AtomicRMW
            | Opcode::LoadPtrTko
            | Opcode::LoadViewTko => Some(2),
            Opcode::For
            | Opcode::GetIndexSpaceShape
            | Opcode::GetTensorShape
            | Opcode::If
            | Opcode::Loop
            | Opcode::Reduce
            | Opcode::Scan => None,
            Opcode::GetNumTileBlocks
            | Opcode::GetTileBlockId => Some(3),
            _ => Some(1),
        }
    }

    /// The number of results where the operation fixes it.
    pub fn fixed_result_count(self) -> (n: Option<usize>)
        ensures
            n == self.spec_result_count(),
    {
        match self {
            Opcode::Assert
            | Opcode::Break
            | Opcode::Continue
            | Opcode::Entry
            | Opcode::Print
            | Opcode::Return
            | Opcode::Yield => Some(0),
            Opcode::AtomicCAS
            | Opcode::AtomicRMW
            | Opcode::LoadPtrTko
            | Opcode::LoadViewTko => Some(2),
            Opcode::For
            | Opcode::GetIndexSpaceShape
            | Opcode::GetTensorShape
            | Opcode::If
            | Opcode::Loop
            | Opcode::Reduce
            | Opcode::Scan => None,
            Opcode::GetNumTileBlocks
            | Opcode::GetTileBlockId => Some(3),
            _ => Some(1),
        }
    }

    /// The number of operands where the operation fixes it; `None` where the
    /// operands come in groups or their count stands in the stream.
    pub open spec fn spec_operand_count(self) -> Option<usize> {
        match self {
            Opcode::AbsF
            | Opcode::AbsI
            | Opcode::Assert
            | Opcode::Assume
            | Opcode::Bitcast
            | Opcode::Broadcast
            | Opcode::Ceil
            | Opcode::Cos
            | Opcode::CosH
            | Opcode::Exp
            | Opcode::Exp2
            | Opcode::ExtI
            | Opcode::Floor
            | Opcode::FToF
            | Opcode::FToI
            | Opcode::GetIndexSpaceShape
            | Opcode::GetTensorShape
            | Opcode::If
            | Opcode::IntToPtr
            | Opcode::IToF
            | Opcode::Log
            | Opcode::Log2
            | Opcode::MakePartitionView
            | Opcode::NegF
            | Opcode::NegI
            | Opcode::Permute
            | Opcode::PtrToInt
            | Opcode::PtrToPtr
            | Opcode::Reshape
            | Opcode::Rsqrt
            | Opcode::Sin
            | Opcode::SinH
            | Opcode::Sqrt
            | Opcode::Tan
            | Opcode::TanH
            | Opcode::TruncI
            | Opcode::MakeGatherScatterView
            | Opcode::MakeStridedView
            | Opcode::Pack
            | Opcode::Unpack => Some(1),
            Opcode::AddF
            | Opcode::AddI
            | Opcode::AndI
            | Opcode::Cat
            | Opcode::CmpF
            | Opcode::CmpI
            | Opcode::DivF
            | Opcode::DivI
            | Opcode::MaxF
            | Opcode::MaxI
            | Opcode::MinF
            | Opcode::MinI
            | Opcode::MulF
            | Opcode::MulhiI
            | Opcode::MulI
            | Opcode::Offset
            | Opcode::OrI
            | Opcode::Pow
            | Opcode::RemF
            | Opcode::RemI
            | Opcode::ShLI
            | Opcode::ShRI
            | Opcode::SubF
            | Opcode::SubI
            | Opcode::XOrI
            | Opcode::Atan2 => Some(2),
            Opcode::Constant
            | Opcode::Entry
            | Opcode::GetGlobal
            | Opcode::GetNumTileBlocks
            | Opcode::GetTileBlockId
            | Opcode::Iota
            | Opcode::MakeToken
            | Opcode::Alloca => Some(0),
            Opcode::Fma
            | Opcode::MmaF
            | Opcode::MmaI
            | Opcode::Select => Some(3),
            Opcode::MmaFScaled => Some(5),
            _ => None,
        }
    }

    /// The number of operands where the operation fixes it.
    pub fn fixed_operand_count(self) -> (n: Option<usize>)
        ensures
            n == self.spec_operand_count(),
    {
        match self {
            Opcode::AbsF
            | Opcode::AbsI
            | Opcode::Assert
            | Opcode::Assume
            | Opcode::Bitcast
            | Opcode::Broadcast
            | Opcode::Ceil
            | Opcode::Cos
            | Opcode::CosH
            | Opcode::Exp
            | Opcode::Exp2
            | Opcode::ExtI
            | Opcode::Floor
            | Opcode::FToF
            | Opcode::FToI
            | Opcode::GetIndexSpaceShape
            | Opcode::GetTensorShape
            | Opcode::If
            | Opcode::IntToPtr
            | Opcode::IToF
            | Opcode::Log
            | Opcode::Log2
            | Opcode::MakePartitionView
            | Opcode::NegF
            | Opcode::NegI
            | Opcode::Permute
            | Opcode::PtrToInt
            | Opcode::PtrToPtr
            | Opcode::Reshape
            | Opcode::Rsqrt
            | Opcode::Sin
            | Opcode::SinH
            | Opcode::Sqrt
            | Opcode::Tan
            | Opcode::TanH
            | Opcode::TruncI
            | Opcode::MakeGatherScatterView
            | Opcode::MakeStridedView
            | Opcode::Pack
            | Opcode::Unpack => Some(1),
            Opcode::AddF
            | Opcode::AddI
            | Opcode::AndI
            | Opcode::Cat
            | Opcode::CmpF
            | Opcode::CmpI
            | Opcode::DivF
            | Opcode::DivI
            | Opcode::MaxF
            | Opcode::MaxI
            | Opcode::MinF
            | Opcode::MinI
            | Opcode::MulF
            | Opcode::MulhiI
            | Opcode::MulI
            | Opcode::Offset
            | Opcode::OrI
            | Opcode::Pow
            | Opcode::RemF
            | Opcode::RemI
            | Opcode::ShLI
            | Opcode::ShRI
            | Opcode::SubF
            | Opcode::SubI
            | Opcode::XOrI
            | Opcode::Atan2 => Some(2),
            Opcode::Constant
            | Opcode::Entry
            | Opcode::GetGlobal
            | Opcode::GetNumTileBlocks
            | Opcode::GetTileBlockId
            | Opcode::Iota
            | Opcode::MakeToken
            | Opcode::Alloca => Some(0),
            Opcode::Fma
            | Opcode::MmaF
            | Opcode::MmaI
            | Opcode::Select => Some(3),
            Opcode::MmaFScaled => Some(5),
            _ => None,
        }
    }
}

/// The name of an operation.
pub open spec fn opcode_debug_text(op: Opcode) -> Seq<char> {
    match op {
        Opcode::AbsF => "AbsF"@,
        Opcode::AbsI => "AbsI"@,
        Opcode::AddF => "AddF"@,
        Opcode::AddI => "AddI"@,
        Opcode::AndI => "AndI"@,
        Opcode::Assert => "Assert"@,
        Opcode::Assume => "Assume"@,
        Opcode::AtomicCAS => "AtomicCAS"@,
        Opcode::AtomicRMW => "AtomicRMW"@,
        Opcode::Bitcast => "Bitcast"@,
        Opcode::Break => "Break"@,
        Opcode::Broadcast => "Broadcast"@,
        Opcode::Cat => "Cat"@,
        Opcode::Ceil => "Ceil"@,
        Opcode::CmpF => "CmpF"@,
        Opcode::CmpI => "CmpI"@,
        Opcode::Constant => "Constant"@,
        Opcode::Continue => "Continue"@,
        Opcode::Cos => "Cos"@,
        Opcode::CosH => "CosH"@,
        Opcode::DivF => "DivF"@,
        Opcode::DivI => "DivI"@,
        Opcode::Entry => "Entry"@,
        Opcode::Exp => "Exp"@,
        Opcode::Exp2 => "Exp2"@,
        Opcode::ExtI => "ExtI"@,
        Opcode::Extract => "Extract"@,
        Opcode::Floor => "Floor"@,
        Opcode::Fma => "Fma"@,
        Opcode::For => "For"@,
        Opcode::FToF => "FToF"@,
        Opcode::FToI => "FToI"@,
        Opcode::GetGlobal => "GetGlobal"@,
        Opcode::GetIndexSpaceShape => "GetIndexSpaceShape"@,
        Opcode::GetNumTileBlocks => "GetNumTileBlocks"@,
        Opcode::GetTensorShape => "GetTensorShape"@,
        Opcode::GetTileBlockId => "GetTileBlockId"@,
        Opcode::If => "If"@,
        Opcode::IntToPtr => "IntToPtr"@,
        Opcode::Iota => "Iota"@,
        Opcode::IToF => "IToF"@,
        Opcode::JoinTokens => "JoinTokens"@,
        Opcode::LoadPtrTko => "LoadPtrTko"@,
        Opcode::LoadViewTko => "LoadViewTko"@,
        Opcode::Log => "Log"@,
        Opcode::Log2 => "Log2"@,
        Opcode::Loop => "Loop"@,
        Opcode::MakePartitionView => "MakePartitionView"@,
        Opcode::MakeTensorView => "MakeTensorView"@,
        Opcode::MakeToken => "MakeToken"@,
        Opcode::MaxF => "MaxF"@,
        Opcode::MaxI => "MaxI"@,
        Opcode::MinF => "MinF"@,
        Opcode::MinI => "MinI"@,
        Opcode::MmaF => "MmaF"@,
        Opcode::MmaI => "MmaI"@,
        Opcode::MulF => "MulF"@,
        Opcode::MulhiI => "MulhiI"@,
        Opcode::MulI => "MulI"@,
        Opcode::NegF => "NegF"@,
        Opcode::NegI => "NegI"@,
        Opcode::Offset => "Offset"@,
        Opcode::OrI => "OrI"@,
        Opcode::Permute => "Permute"@,
        Opcode::Pow => "Pow"@,
        Opcode::Print => "Print"@,
        Opcode::PtrToInt => "PtrToInt"@,
        Opcode::PtrToPtr => "PtrToPtr"@,
        Opcode::Reduce => "Reduce"@,
        Opcode::RemF => "RemF"@,
        Opcode::RemI => "RemI"@,
        Opcode::Reshape => "Reshape"@,
        Opcode::Return => "Return"@,
        Opcode::Rsqrt => "Rsqrt"@,
        Opcode::Scan => "Scan"@,
        Opcode::Select => "Select"@,
        Opcode::ShLI => "ShLI"@,
        Opcode::ShRI => "ShRI"@,
        Opcode::Sin => "Sin"@,
        Opcode::SinH => "SinH"@,
        Opcode::Sqrt => "Sqrt"@,
        Opcode::StorePtrTko => "StorePtrTko"@,
        Opcode::StoreViewTko => "StoreViewTko"@,
        Opcode::SubF => "SubF"@,
        Opcode::SubI => "SubI"@,
        Opcode::Tan => "Tan"@,
        Opcode::TanH => "TanH"@,
        Opcode::TruncI => "TruncI"@,
        Opcode::XOrI => "XOrI"@,
        Opcode::Yield => "Yield"@,
        Opcode::Atan2 => "Atan2"@,
        Opcode::Alloca => "Alloca"@,
        Opcode::AtomicRedViewTko => "AtomicRedViewTko"@,
        Opcode::MakeGatherScatterView => "MakeGatherScatterView"@,
        Opcode::MakeStridedView => "MakeStridedView"@,
        Opcode::MmaFScaled => "MmaFScaled"@,
        Opcode::Pack => "Pack"@,
        Opcode::Unpack => "Unpack"@,
    }
}

/// The name of an operation.
pub fn opcode_debug_name(op: Opcode) -> (s: &'static str)
    ensures
        s@ == opcode_debug_text(op),
{
    match op {
        Opcode::AbsF => "AbsF",
        Opcode::AbsI => "AbsI",
        Opcode::AddF => "AddF",
        Opcode::AddI => "AddI",
        Opcode::AndI => "AndI",
        Opcode::Assert => "Assert",
        Opcode::Assume => "Assume",
        Opcode::AtomicCAS => "AtomicCAS",
        Opcode::AtomicRMW => "AtomicRMW",
        Opcode::Bitcast => "Bitcast",
        Opcode::Break => "Break",
        Opcode::Broadcast => "Broadcast",
        Opcode::Cat => "Cat",
        Opcode::Ceil => "Ceil",
        Opcode::CmpF => "CmpF",
        Opcode::CmpI => "CmpI",
        Opcode::Constant => "Constant",
        Opcode::Continue => "Continue",
        Opcode::Cos => "Cos",
        Opcode::CosH => "CosH",
        Opcode::DivF => "DivF",
        Opcode::DivI => "DivI",
        Opcode::Entry => "Entry",
        Opcode::Exp => "Exp",
        Opcode::Exp2 => "Exp2",
        Opcode::ExtI => "ExtI",
        Opcode::Extract => "Extract",
        Opcode::Floor => "Floor",
        Opcode::Fma => "Fma",
        Opcode::For => "For",
        Opcode::FToF => "FToF",
        Opcode::FToI => "FToI",
        Opcode::GetGlobal => "GetGlobal",
        Opcode::GetIndexSpaceShape => "GetIndexSpaceShape",
        Opcode::GetNumTileBlocks => "GetNumTileBlocks",
        Opcode::GetTensorShape => "GetTensorShape",
        Opcode::GetTileBlockId => "GetTileBlockId",
        Opcode::If => "If",
        Opcode::IntToPtr => "IntToPtr",
        Opcode::Iota => "Iota",
        Opcode::IToF => "IToF",
        Opcode::JoinTokens => "JoinTokens",
        Opcode::LoadPtrTko => "LoadPtrTko",
        Opcode::LoadViewTko => "LoadViewTko",
        Opcode::Log => "Log",
        Opcode::Log2 => "Log2",
        Opcode::Loop => "Loop",
        Opcode::MakePartitionView => "MakePartitionView",
        Opcode::MakeTensorView => "MakeTensorView",
        Opcode::MakeToken => "MakeToken",
        Opcode::MaxF => "MaxF",
        Opcode::MaxI => "MaxI",
        Opcode::MinF => "MinF",
        Opcode::MinI => "MinI",
        Opcode::MmaF => "MmaF",
        Opcode::MmaI => "MmaI",
        Opcode::MulF => "MulF",
        Opcode::MulhiI => "MulhiI",
        Opcode::MulI => "MulI",
        Opcode::NegF => "NegF",
        Opcode::NegI => "NegI",
        Opcode::Offset => "Offset",
        Opcode::OrI => "OrI",
        Opcode::Permute => "Permute",
        Opcode::Pow => "Pow",
        Opcode::Print => "Print",
        Opcode::PtrToInt => "PtrToInt",
        Opcode::PtrToPtr => "PtrToPtr",
        Opcode::Reduce => "Reduce",
        Opcode::RemF => "RemF",
        Opcode::RemI => "RemI",
        Opcode::Reshape => "Reshape",
        Opcode::Return => "Return",
        Opcode::Rsqrt => "Rsqrt",
        Opcode::Scan => "Scan",
        Opcode::Select => "Select",
        Opcode::ShLI => "ShLI",
        Opcode::ShRI => "ShRI",
        Opcode::Sin => "Sin",
        Opcode::SinH => "SinH",
        Opcode::Sqrt => "Sqrt",
        Opcode::StorePtrTko => "StorePtrTko",
        Opcode::StoreViewTko => "StoreViewTko",
        Opcode::SubF => "SubF",
        Opcode::SubI => "SubI",
        Opcode::Tan => "Tan",
        Opcode::TanH => "TanH",
        Opcode::TruncI => "TruncI",
        Opcode::XOrI => "XOrI",
        Opcode::Yield => "Yield",
        Opcode::Atan2 => "Atan2",
        Opcode::Alloca => "Alloca",
        Opcode::AtomicRedViewTko => "AtomicRedViewTko",
        Opcode::MakeGatherScatterView => "MakeGatherScatterView",
        Opcode::MakeStridedView => "MakeStridedView",
        Opcode::MmaFScaled => "MmaFScaled",
        Opcode::Pack => "Pack",
        Opcode::Unpack => "Unpack",
    }
}

/// Every operation is found again from its code, and every assigned code is the
/// code of the operation it stands for.
pub proof fn opcode_codes_are_faithful(op: Opcode, code: u16)
    ensures
        opcode_of(op.spec_code()) == Some(op),
        op.spec_code() < NUM_OPCODES,
        opcode_of(code) is Some <==> code < NUM_OPCODES,
        opcode_of(code) matches Some(found) ==> found.spec_code() == code,
{
}
/// Each operation is shown under its own name.
pub proof fn operations_have_their_names()
    ensures
        opcode_debug_text(Opcode::AbsF) == "AbsF"@,
        opcode_debug_text(Opcode::AbsI) == "AbsI"@,
        opcode_debug_text(Opcode::AddF) == "AddF"@,
        opcode_debug_text(Opcode::AddI) == "AddI"@,
        opcode_debug_text(Opcode::AndI) == "AndI"@,
        opcode_debug_text(Opcode::Assert) == "Assert"@,
        opcode_debug_text(Opcode::Assume) == "Assume"@,
        opcode_debug_text(Opcode::AtomicCAS) == "AtomicCAS"@,
        opcode_debug_text(Opcode::AtomicRMW) == "AtomicRMW"@,
        opcode_debug_text(Opcode::Bitcast) == "Bitcast"@,
        opcode_debug_text(Opcode::Break) == "Break"@,
        opcode_debug_text(Opcode::Broadcast) == "Broadcast"@,
        opcode_debug_text(Opcode::Cat) == "Cat"@,
        opcode_debug_text(Opcode::Ceil) == "Ceil"@,
        opcode_debug_text(Opcode::CmpF) == "CmpF"@,
        opcode_debug_text(Opcode::CmpI) == "CmpI"@,
        opcode_debug_text(Opcode::Constant) == "Constant"@,
        opcode_debug_text(Opcode::Continue) == "Continue"@,
        opcode_debug_text(Opcode::Cos) == "Cos"@,
        opcode_debug_text(Opcode::CosH) == "CosH"@,
        opcode_debug_text(Opcode::DivF) == "DivF"@,
        opcode_debug_text(Opcode::DivI) == "DivI"@,
        opcode_debug_text(Opcode::Entry) == "Entry"@,
        opcode_debug_text(Opcode::Exp) == "Exp"@,
        opcode_debug_text(Opcode::Exp2) == "Exp2"@,
        opcode_debug_text(Opcode::ExtI) == "ExtI"@,
        opcode_debug_text(Opcode::Extract) == "Extract"@,
        opcode_debug_text(Opcode::Floor) == "Floor"@,
        opcode_debug_text(Opcode::Fma) == "Fma"@,
        opcode_debug_text(Opcode::For) == "For"@,
        opcode_debug_text(Opcode::FToF) == "FToF"@,
        opcode_debug_text(Opcode::FToI) == "FToI"@,
        opcode_debug_text(Opcode::GetGlobal) == "GetGlobal"@,
        opcode_debug_text(Opcode::GetIndexSpaceShape) == "GetIndexSpaceShape"@,
        opcode_debug_text(Opcode::GetNumTileBlocks) == "GetNumTileBlocks"@,
        opcode_debug_text(Opcode::GetTensorShape) == "GetTensorShape"@,
        opcode_debug_text(Opcode::GetTileBlockId) == "GetTileBlockId"@,
        opcode_debug_text(Opcode::If) == "If"@,
        opcode_debug_text(Opcode::IntToPtr) == "IntToPtr"@,
        opcode_debug_text(Opcode::Iota) == "Iota"@,
        opcode_debug_text(Opcode::IToF) == "IToF"@,
        opcode_debug_text(Opcode::JoinTokens) == "JoinTokens"@,
        opcode_debug_text(Opcode::LoadPtrTko) == "LoadPtrTko"@,
        opcode_debug_text(Opcode::LoadViewTko) == "LoadViewTko"@,
        opcode_debug_text(Opcode::Log) == "Log"@,
        opcode_debug_text(Opcode::Log2) == "Log2"@,
        opcode_debug_text(Opcode::Loop) == "Loop"@,
        opcode_debug_text(Opcode::MakePartitionView) == "MakePartitionView"@,
        opcode_debug_text(Opcode::MakeTensorView) == "MakeTensorView"@,
        opcode_debug_text(Opcode::MakeToken) == "MakeToken"@,
        opcode_debug_text(Opcode::MaxF) == "MaxF"@,
        opcode_debug_text(Opcode::MaxI) == "MaxI"@,
        opcode_debug_text(Opcode::MinF) == "MinF"@,
        opcode_debug_text(Opcode::MinI) == "MinI"@,
        opcode_debug_text(Opcode::MmaF) == "MmaF"@,
        opcode_debug_text(Opcode::MmaI) == "MmaI"@,
        opcode_debug_text(Opcode::MulF) == "MulF"@,
        opcode_debug_text(Opcode::MulhiI) == "MulhiI"@,
        opcode_debug_text(Opcode::MulI) == "MulI"@,
        opcode_debug_text(Opcode::NegF) == "NegF"@,
        opcode_debug_text(Opcode::NegI) == "NegI"@,
        opcode_debug_text(Opcode::Offset) == "Offset"@,
        opcode_debug_text(Opcode::OrI) == "OrI"@,
        opcode_debug_text(Opcode::Permute) == "Permute"@,
        opcode_debug_text(Opcode::Pow) == "Pow"@,
        opcode_debug_text(Opcode::Print) == "Print"@,
        opcode_debug_text(Opcode::PtrToInt) == "PtrToInt"@,
        opcode_debug_text(Opcode::PtrToPtr) == "PtrToPtr"@,
        opcode_debug_text(Opcode::Reduce) == "Reduce"@,
        opcode_debug_text(Opcode::RemF) == "RemF"@,
        opcode_debug_text(Opcode::RemI) == "RemI"@,
        opcode_debug_text(Opcode::Reshape) == "Reshape"@,
        opcode_debug_text(Opcode::Return) == "Return"@,
        opcode_debug_text(Opcode::Rsqrt) == "Rsqrt"@,
        opcode_debug_text(Opcode::Scan) == "Scan"@,
        opcode_debug_text(Opcode::Select) == "Select"@,
        opcode_debug_text(Opcode::ShLI) == "ShLI"@,
        opcode_debug_text(Opcode::ShRI) == "ShRI"@,
        opcode_debug_text(Opcode::Sin) == "Sin"@,
        opcode_debug_text(Opcode::SinH) == "SinH"@,
        opcode_debug_text(Opcode::Sqrt) == "Sqrt"@,
        opcode_debug_text(Opcode::StorePtrTko) == "StorePtrTko"@,
        opcode_debug_text(Opcode::StoreViewTko) == "StoreViewTko"@,
        opcode_debug_text(Opcode::SubF) == "SubF"@,
        opcode_debug_text(Opcode::SubI) == "SubI"@,
        opcode_debug_text(Opcode::Tan) == "Tan"@,
        opcode_debug_text(Opcode::TanH) == "TanH"@,
        opcode_debug_text(Opcode::TruncI) == "TruncI"@,
        opcode_debug_text(Opcode::XOrI) == "XOrI"@,
        opcode_debug_text(Opcode::Yield) == "Yield"@,
        opcode_debug_text(Opcode::Atan2) == "Atan2"@,
        opcode_debug_text(Opcode::Alloca) == "Alloca"@,
        opcode_debug_text(Opcode::AtomicRedViewTko) == "AtomicRedViewTko"@,
        opcode_debug_text(Opcode::MakeGatherScatterView) == "MakeGatherScatterView"@,
        opcode_debug_text(Opcode::MakeStridedView) == "MakeStridedView"@,
        opcode_debug_text(Opcode::MmaFScaled) == "MmaFScaled"@,
        opcode_debug_text(Opcode::Pack) == "Pack"@,
        opcode_debug_text(Opcode::Unpack) == "Unpack"@,
{
}

} // verus!
