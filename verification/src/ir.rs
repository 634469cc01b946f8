//! The intermediate representation: types, attributes, and modules of operations.
//!
//! Each data type has a model, which `@` gives, with sequences in place of
//! vectors and strings. Contracts speak of the models.

use vstd::prelude::*;

use crate::bytecode::opcode::Opcode;

verus! {

/// The element types of tiles, pointers and tensor views.
#[derive(Clone, Copy, Debug, PartialEq, Eq, Structural)]
pub enum ScalarType {
    I1,
    I4,
    I8,
    I16,
    I32,
    I64,
    F16,
    BF16,
    F32,
    TF32,
    F64,
    F8E4M3FN,
    F8E5M2,
    F8E8M0FNU,
    F4E2M1FN,
}

/// The name of a scalar type.
pub open spec fn scalar_debug_text(s: ScalarType) -> Seq<char> {
    match s {
        ScalarType::I1 => "I1"@,
        ScalarType::I4 => "I4"@,
        ScalarType::I8 => "I8"@,
        ScalarType::I16 => "I16"@,
        ScalarType::I32 => "I32"@,
        ScalarType::I64 => "I64"@,
        ScalarType::F16 => "F16"@,
        ScalarType::BF16 => "BF16"@,
        ScalarType::F32 => "F32"@,
        ScalarType::TF32 => "TF32"@,
        ScalarType::F64 => "F64"@,
        ScalarType::F8E4M3FN => "F8E4M3FN"@,
        ScalarType::F8E5M2 => "F8E5M2"@,
        ScalarType::F8E8M0FNU => "F8E8M0FNU"@,
        ScalarType::F4E2M1FN => "F4E2M1FN"@,
    }
}

/// The name of a scalar type.
pub fn scalar_debug_name(s: ScalarType) -> (name: &'static str)
    ensures
        name@ == scalar_debug_text(s),
{
    match s {
        ScalarType::I1 => "I1",
        ScalarType::I4 => "I4",
        ScalarType::I8 => "I8",
        ScalarType::I16 => "I16",
        ScalarType::I32 => "I32",
        ScalarType::I64 => "I64",
        ScalarType::F16 => "F16",
        ScalarType::BF16 => "BF16",
        ScalarType::F32 => "F32",
        ScalarType::TF32 => "TF32",
        ScalarType::F64 => "F64",
        ScalarType::F8E4M3FN => "F8E4M3FN",
        ScalarType::F8E5M2 => "F8E5M2",
        ScalarType::F8E8M0FNU => "F8E8M0FNU",
        ScalarType::F4E2M1FN => "F4E2M1FN",
    }
}

/// The extent or stride that is known only at run time.
pub const DYNAMIC: i64 = i64::MIN;

/// What a load outside a tensor view yields.
#[derive(Clone, Copy, Debug, PartialEq, Eq, Structural)]
pub enum PaddingValue {
    Zero,
    NegZero,
    Nan,
    PosInf,
    NegInf,
}

/// A pointer to scalars.
#[derive(Clone, Copy, Debug, PartialEq, Eq, Structural)]
pub struct PointerType {
    pub pointee: ScalarType,
}

/// The element of a tile.
#[derive(Debug, PartialEq, Eq)]
pub enum TileElementType {
    Scalar(ScalarType),
    Pointer(Box<PointerType>),
}

/// A tile of a static shape.
#[derive(Debug, PartialEq, Eq)]
pub struct TileType {
    pub shape: Vec<i64>,
    pub element_type: TileElementType,
}

/// A view of a tensor in memory.
#[derive(Debug, PartialEq, Eq)]
pub struct TensorViewType {
    pub element_type: ScalarType,
    pub shape: Vec<i64>,
    pub strides: Vec<i64>,
}

/// A tensor view cut into tiles.
#[derive(Debug, PartialEq, Eq)]
pub struct PartitionViewType {
    pub tile_shape: Vec<i32>,
    pub tensor_view: TensorViewType,
    pub dim_map: Vec<i32>,
    pub padding_value: Option<PaddingValue>,
}

/// A tensor view that is read and written along indices of one dimension.
#[derive(Debug, PartialEq, Eq)]
pub struct GatherScatterViewType {
    pub tile_shape: Vec<i32>,
    pub tensor_view: TensorViewType,
    pub sparse_dim: i32,
    pub padding_value: Option<PaddingValue>,
}

/// A tensor view cut into tiles that may overlap or leave gaps.
#[derive(Debug, PartialEq, Eq)]
pub struct StridedViewType {
    pub tile_shape: Vec<i32>,
    pub traversal_strides: Vec<i32>,
    pub tensor_view: TensorViewType,
    pub dim_map: Vec<i32>,
    pub padding_value: Option<PaddingValue>,
}

/// The type of a function.
#[derive(Debug, PartialEq, Eq)]
pub struct FuncType {
    pub inputs: Vec<Type>,
    pub results: Vec<Type>,
}

/// A type.
#[derive(Debug, PartialEq, Eq)]
pub enum Type {
    Scalar(ScalarType),
    Pointer(PointerType),
    Tile(TileType),
    TensorView(TensorViewType),
    PartitionView(PartitionViewType),
    GatherScatterView(GatherScatterViewType),
    StridedView(StridedViewType),
    Func(FuncType),
    Token,
}

/// The model of the element of a tile.
pub enum ElementModel {
    Scalar(ScalarType),
    Pointer(PointerType),
}

/// The model of a tensor view.
#[verifier::ext_equal]
pub struct TensorViewModel {
    pub element_type: ScalarType,
    pub shape: Seq<i64>,
    pub strides: Seq<i64>,
}

/// The model of a type.
#[verifier::ext_equal]
pub enum TypeModel {
    Scalar(ScalarType),
    Pointer(PointerType),
    Tile { shape: Seq<i64>, element_type: ElementModel },
    TensorView(TensorViewModel),
    PartitionView {
        tile_shape: Seq<i32>,
        tensor_view: TensorViewModel,
        dim_map: Seq<i32>,
        padding_value: Option<PaddingValue>,
    },
    GatherScatterView {
        tile_shape: Seq<i32>,
        tensor_view: TensorViewModel,
        sparse_dim: i32,
        padding_value: Option<PaddingValue>,
    },
    StridedView {
        tile_shape: Seq<i32>,
        traversal_strides: Seq<i32>,
        tensor_view: TensorViewModel,
        dim_map: Seq<i32>,
        padding_value: Option<PaddingValue>,
    },
    Func { inputs: Seq<TypeModel>, results: Seq<TypeModel> },
    Token,
}

impl View for TileElementType {
    type V = ElementModel;

    open spec fn view(&self) -> ElementModel {
        match self {
            TileElementType::Scalar(s) => ElementModel::Scalar(*s),
            TileElementType::Pointer(p) => ElementModel::Pointer(**p),
        }
    }
}

impl View for TensorViewType {
    type V = TensorViewModel;

    open spec fn view(&self) -> TensorViewModel {
        TensorViewModel {
            element_type: self.element_type,
            shape: self.shape@,
            strides: self.strides@,
        }
    }
}

/// The model of a type.
pub open spec fn type_model(t: Type) -> TypeModel
    decreases t, 0int,
{
    match t {
        Type::Scalar(s) => TypeModel::Scalar(s),
        Type::Pointer(p) => TypeModel::Pointer(p),
        Type::Tile(t) => TypeModel::Tile { shape: t.shape@, element_type: t.element_type@ },
        Type::TensorView(v) => TypeModel::TensorView(v@),
        Type::PartitionView(v) => TypeModel::PartitionView {
            tile_shape: v.tile_shape@,
            tensor_view: v.tensor_view@,
            dim_map: v.dim_map@,
            padding_value: v.padding_value,
        },
        Type::GatherScatterView(v) => TypeModel::GatherScatterView {
            tile_shape: v.tile_shape@,
            tensor_view: v.tensor_view@,
            sparse_dim: v.sparse_dim,
            padding_value: v.padding_value,
        },
        Type::StridedView(v) => TypeModel::StridedView {
            tile_shape: v.tile_shape@,
            traversal_strides: v.traversal_strides@,
            tensor_view: v.tensor_view@,
            dim_map: v.dim_map@,
            padding_value: v.padding_value,
        },
        Type::Func(f) => TypeModel::Func {
            inputs: type_models(f.inputs@),
            results: type_models(f.results@),
        },
        Type::Token => TypeModel::Token,
    }
}

/// The models of a sequence of types.
pub open spec fn type_models(s: Seq<Type>) -> Seq<TypeModel>
    decreases s, 1int,
{
    Seq::new(
        s.len(),
        |i: int|
            if 0 <= i < s.len() {
                type_model(s[i])
            } else {
                TypeModel::Token
            },
    )
}

impl View for Type {
    type V = TypeModel;

    open spec fn view(&self) -> TypeModel {
        type_model(*self)
    }
}

impl Clone for TileElementType {
    fn clone(&self) -> (r: Self)
        ensures
            r@ == self@,
    {
        match self {
            TileElementType::Scalar(s) => TileElementType::Scalar(*s),
            TileElementType::Pointer(p) => TileElementType::Pointer(Box::new(**p)),
        }
    }
}

/// A copy of a list of `i64`s.
fn copy_i64s(v: &Vec<i64>) -> (r: Vec<i64>)
    ensures
        r@ == v@,
{
    let r = v.clone();
    assert(r@ =~= v@);
    r
}

/// A copy of a list of `i32`s.
fn copy_i32s(v: &Vec<i32>) -> (r: Vec<i32>)
    ensures
        r@ == v@,
{
    let r = v.clone();
    assert(r@ =~= v@);
    r
}

impl Clone for TileType {
    fn clone(&self) -> (r: Self)
        ensures
            r.shape@ == self.shape@,
            r.element_type@ == self.element_type@,
    {
        TileType { shape: copy_i64s(&self.shape), element_type: self.element_type.clone() }
    }
}

impl Clone for TensorViewType {
    fn clone(&self) -> (r: Self)
        ensures
            r@ == self@,
    {
        TensorViewType {
            element_type: self.element_type,
            shape: copy_i64s(&self.shape),
            strides: copy_i64s(&self.strides),
        }
    }
}

impl Clone for PartitionViewType {
    fn clone(&self) -> (r: Self)
        ensures
            r.tile_shape@ == self.tile_shape@,
            r.tensor_view@ == self.tensor_view@,
            r.dim_map@ == self.dim_map@,
            r.padding_value == self.padding_value,
    {
        PartitionViewType {
            tile_shape: copy_i32s(&self.tile_shape),
            tensor_view: self.tensor_view.clone(),
            dim_map: copy_i32s(&self.dim_map),
            padding_value: self.padding_value,
        }
    }
}

impl Clone for GatherScatterViewType {
    fn clone(&self) -> (r: Self)
        ensures
            r.tile_shape@ == self.tile_shape@,
            r.tensor_view@ == self.tensor_view@,
            r.sparse_dim == self.sparse_dim,
            r.padding_value == self.padding_value,
    {
        GatherScatterViewType {
            tile_shape: copy_i32s(&self.tile_shape),
            tensor_view: self.tensor_view.clone(),
            sparse_dim: self.sparse_dim,
            padding_value: self.padding_value,
        }
    }
}

impl Clone for StridedViewType {
    fn clone(&self) -> (r: Self)
        ensures
            r.tile_shape@ == self.tile_shape@,
            r.traversal_strides@ == self.traversal_strides@,
            r.tensor_view@ == self.tensor_view@,
            r.dim_map@ == self.dim_map@,
            r.padding_value == self.padding_value,
    {
        StridedViewType {
            tile_shape: copy_i32s(&self.tile_shape),
            traversal_strides: copy_i32s(&self.traversal_strides),
            tensor_view: self.tensor_view.clone(),
            dim_map: copy_i32s(&self.dim_map),
            padding_value: self.padding_value,
        }
    }
}

impl Clone for FuncType {
    fn clone(&self) -> (r: Self)
        ensures
            type_models(r.inputs@) == type_models(self.inputs@),
            type_models(r.results@) == type_models(self.results@),
        decreases self, 0int,
    {
        FuncType { inputs: copy_types(&self.inputs), results: copy_types(&self.results) }
    }
}

impl Clone for Type {
    fn clone(&self) -> (r: Self)
        ensures
            r@ == self@,
        decreases self, 0int,
    {
        match self {
            Type::Scalar(s) => Type::Scalar(*s),
            Type::Pointer(p) => Type::Pointer(*p),
            Type::Tile(t) => Type::Tile(t.clone()),
            Type::TensorView(v) => Type::TensorView(v.clone()),
            Type::PartitionView(v) => Type::PartitionView(v.clone()),
            Type::GatherScatterView(v) => Type::GatherScatterView(v.clone()),
            Type::StridedView(v) => Type::StridedView(v.clone()),
            Type::Func(f) => Type::Func(f.clone()),
            Type::Token => Type::Token,
        }
    }
}

/// A copy of a list of types.
pub fn copy_types(v: &Vec<Type>) -> (r: Vec<Type>)
    ensures
        type_models(r@) == type_models(v@),
        r@.len() == v@.len(),
    decreases v, 0int,
{
    let mut r: Vec<Type> = Vec::new();
    let mut i: usize = 0;
    while i < v.len()
        invariant
            i <= v.len(),
            r@.len() == i,
            forall|j: int| 0 <= j < i ==> type_model(r@[j]) == type_model(v@[j]),
        decreases v.len() - i,
    {
        let t = v[i].clone();
        r.push(t);
        i = i + 1;
    }
    assert(type_models(r@) =~= type_models(v@));
    r
}

/// A dense array of elements, as raw bytes.
#[derive(Debug, PartialEq, Eq)]
pub struct DenseElements {
    pub element_type: Type,
    pub shape: Vec<i64>,
    pub data: Vec<u8>,
}

/// A promise that values are divisible.
#[derive(Clone, Copy, Debug, PartialEq, Eq, Structural)]
pub struct DivBy {
    pub divisor: u64,
    pub every: Option<i64>,
    pub along: Option<i64>,
}

/// A promise that elements repeat.
#[derive(Debug, PartialEq, Eq)]
pub struct SameElements {
    pub values: Vec<i64>,
}

/// A promise that values lie between bounds.
#[derive(Clone, Copy, Debug, PartialEq, Eq, Structural)]
pub struct Bounded {
    pub lb: Option<i64>,
    pub ub: Option<i64>,
}

/// Hints for the compiler, by architecture.
#[derive(Debug, PartialEq, Eq)]
pub struct OptimizationHints {
    pub entries: Vec<(String, Vec<(String, Attribute)>)>,
}

/// An attribute of an operation.
///
/// A float is held as its bit pattern, in the format of its scalar type, or of a
/// double where the type is not a scalar.
#[derive(Debug, PartialEq, Eq)]
pub enum Attribute {
    Integer(i64, Type),
    Float(u64, Type),
    Bool(bool),
    Type(Type),
    String(String),
    Array(Vec<Attribute>),
    DenseElements(DenseElements),
    DenseI32Array(Vec<i32>),
    DivBy(DivBy),
    SameElements(SameElements),
    Dictionary(Vec<(String, Attribute)>),
    OptimizationHints(OptimizationHints),
    Bounded(Bounded),
}

/// The model of an attribute.
#[verifier::ext_equal]
pub enum AttributeModel {
    Integer(i64, TypeModel),
    Float(u64, TypeModel),
    Bool(bool),
    Type(TypeModel),
    String(Seq<char>),
    Array(Seq<AttributeModel>),
    DenseElements { element_type: TypeModel, shape: Seq<i64>, data: Seq<u8> },
    DenseI32Array(Seq<i32>),
    DivBy(DivBy),
    SameElements(Seq<i64>),
    Dictionary(Seq<(Seq<char>, AttributeModel)>),
    OptimizationHints(Seq<(Seq<char>, Seq<(Seq<char>, AttributeModel)>)>),
    Bounded(Bounded),
}

/// The model of an attribute.
pub open spec fn attribute_model(a: Attribute) -> AttributeModel
    decreases a, 0int,
{
    match a {
        Attribute::Integer(v, t) => AttributeModel::Integer(v, t@),
        Attribute::Float(v, t) => AttributeModel::Float(v, t@),
        Attribute::Bool(b) => AttributeModel::Bool(b),
        Attribute::Type(t) => AttributeModel::Type(t@),
        Attribute::String(s) => AttributeModel::String(s@),
        Attribute::Array(v) => AttributeModel::Array(attribute_models(v@)),
        Attribute::DenseElements(e) => AttributeModel::DenseElements {
            element_type: e.element_type@,
            shape: e.shape@,
            data: e.data@,
        },
        Attribute::DenseI32Array(v) => AttributeModel::DenseI32Array(v@),
        Attribute::DivBy(d) => AttributeModel::DivBy(d),
        Attribute::SameElements(e) => AttributeModel::SameElements(e.values@),
        Attribute::Dictionary(v) => AttributeModel::Dictionary(dictionary_model(v@)),
        Attribute::OptimizationHints(h) => AttributeModel::OptimizationHints(
            hints_model(h.entries@),
        ),
        Attribute::Bounded(b) => AttributeModel::Bounded(b),
    }
}

/// The models of a sequence of attributes.
pub open spec fn attribute_models(s: Seq<Attribute>) -> Seq<AttributeModel>
    decreases s, 1int,
{
    Seq::new(
        s.len(),
        |i: int|
            if 0 <= i < s.len() {
                attribute_model(s[i])
            } else {
                AttributeModel::Bool(false)
            },
    )
}

/// The model of a dictionary.
pub open spec fn dictionary_model(s: Seq<(String, Attribute)>) -> Seq<(Seq<char>, AttributeModel)>
    decreases s, 1int,
{
    Seq::new(
        s.len(),
        |i: int|
            if 0 <= i < s.len() {
                (s[i].0@, attribute_model(s[i].1))
            } else {
                (Seq::empty(), AttributeModel::Bool(false))
            },
    )
}

/// The model of optimization hints.
pub open spec fn hints_model(s: Seq<(String, Vec<(String, Attribute)>)>) -> Seq<
    (Seq<char>, Seq<(Seq<char>, AttributeModel)>),
>
    decreases s, 2int,
{
    Seq::new(
        s.len(),
        |i: int|
            if 0 <= i < s.len() {
                (s[i].0@, dictionary_model(s[i].1@))
            } else {
                (Seq::empty(), Seq::empty())
            },
    )
}

impl View for Attribute {
    type V = AttributeModel;

    open spec fn view(&self) -> AttributeModel {
        attribute_model(*self)
    }
}

/// The model of no types is none, and a type put behind others is the last of
/// their models.
pub broadcast proof fn type_models_push(s: Seq<Type>, t: Type)
    ensures
        #[trigger] type_models(s.push(t)) == type_models(s).push(t@),
{
    assert(type_models(s.push(t)) =~= type_models(s).push(t@));
}

/// An attribute put behind others is the last of their models.
pub broadcast proof fn attribute_models_push(s: Seq<Attribute>, a: Attribute)
    ensures
        #[trigger] attribute_models(s.push(a)) == attribute_models(s).push(a@),
{
    assert(attribute_models(s.push(a)) =~= attribute_models(s).push(a@));
}

/// An entry put behind others is the last of their models.
pub broadcast proof fn dictionary_model_push(s: Seq<(String, Attribute)>, e: (String, Attribute))
    ensures
        #[trigger] dictionary_model(s.push(e)) == dictionary_model(s).push((e.0@, e.1@)),
{
    assert(dictionary_model(s.push(e)) =~= dictionary_model(s).push((e.0@, e.1@)));
}

/// The number of an SSA value in its module.
#[derive(Clone, Copy, Debug, PartialEq, Eq, Structural)]
pub struct Value(pub usize);

/// The number of an operation in its module.
#[derive(Clone, Copy, Debug, PartialEq, Eq, Structural)]
pub struct OpId(pub usize);

/// The number of a block in its module.
#[derive(Clone, Copy, Debug, PartialEq, Eq, Structural)]
pub struct BlockId(pub usize);

/// The number of a region in its module.
#[derive(Clone, Copy, Debug, PartialEq, Eq, Structural)]
pub struct RegionId(pub usize);

/// Where a value comes from.
#[derive(Clone, Copy, Debug, PartialEq, Eq, Structural)]
pub enum ValueDef {
    OpResult { op: OpId, index: usize },
    BlockArgument { block: BlockId, index: usize },
}

/// A value: its type and where it comes from.
#[derive(Debug, PartialEq, Eq)]
pub struct ValueData {
    pub ty: Type,
    pub def: ValueDef,
}

/// An operation.
#[derive(Debug, PartialEq, Eq)]
pub struct Operation {
    pub opcode: Opcode,
    pub operands: Vec<Value>,
    pub results: Vec<Value>,
    pub attributes: Vec<(String, Attribute)>,
    pub regions: Vec<RegionId>,
}

/// A block: its arguments and its operations.
#[derive(Debug, PartialEq, Eq)]
pub struct Block {
    pub args: Vec<Value>,
    pub ops: Vec<OpId>,
}

/// A region: its blocks.
#[derive(Debug, PartialEq, Eq)]
pub struct Region {
    pub blocks: Vec<BlockId>,
}

/// A module. Operations, blocks, regions and values are held in tables and named
/// by their numbers in them.
#[derive(Debug, PartialEq, Eq)]
pub struct Module {
    pub name: String,
    pub ops: Vec<Operation>,
    pub blocks: Vec<Block>,
    pub regions: Vec<Region>,
    pub values: Vec<ValueData>,
    pub functions: Vec<OpId>,
}

/// The model of where a value comes from.
pub enum DefModel {
    OpResult { op: nat, index: nat },
    BlockArgument { block: nat, index: nat },
}

/// The model of a value.
pub struct ValueModel {
    pub ty: TypeModel,
    pub def: DefModel,
}

/// The model of an operation.
#[verifier::ext_equal]
pub struct OpModel {
    pub opcode: Opcode,
    pub operands: Seq<nat>,
    pub results: Seq<nat>,
    pub attributes: Seq<(Seq<char>, AttributeModel)>,
    pub regions: Seq<nat>,
}

/// The model of a block.
#[verifier::ext_equal]
pub struct BlockModel {
    pub args: Seq<nat>,
    pub ops: Seq<nat>,
}

/// The model of a module.
#[verifier::ext_equal]
pub struct ModuleModel {
    pub name: Seq<char>,
    pub ops: Seq<OpModel>,
    pub blocks: Seq<BlockModel>,
    pub regions: Seq<Seq<nat>>,
    pub values: Seq<ValueModel>,
    pub functions: Seq<nat>,
}

/// The numbers of values.
pub open spec fn value_ids(s: Seq<Value>) -> Seq<nat> {
    Seq::new(s.len(), |i: int| s[i].0 as nat)
}

/// The numbers of operations.
pub open spec fn op_ids(s: Seq<OpId>) -> Seq<nat> {
    Seq::new(s.len(), |i: int| s[i].0 as nat)
}

/// The numbers of blocks.
pub open spec fn block_ids(s: Seq<BlockId>) -> Seq<nat> {
    Seq::new(s.len(), |i: int| s[i].0 as nat)
}

/// The numbers of regions.
pub open spec fn region_ids(s: Seq<RegionId>) -> Seq<nat> {
    Seq::new(s.len(), |i: int| s[i].0 as nat)
}

impl View for ValueData {
    type V = ValueModel;

    open spec fn view(&self) -> ValueModel {
        ValueModel {
            ty: self.ty@,
            def: match self.def {
                ValueDef::OpResult { op, index } => DefModel::OpResult {
                    op: op.0 as nat,
                    index: index as nat,
                },
                ValueDef::BlockArgument { block, index } => DefModel::BlockArgument {
                    block: block.0 as nat,
                    index: index as nat,
                },
            },
        }
    }
}

impl View for Operation {
    type V = OpModel;

    open spec fn view(&self) -> OpModel {
        OpModel {
            opcode: self.opcode,
            operands: value_ids(self.operands@),
            results: value_ids(self.results@),
            attributes: dictionary_model(self.attributes@),
            regions: region_ids(self.regions@),
        }
    }
}

impl View for Block {
    type V = BlockModel;

    open spec fn view(&self) -> BlockModel {
        BlockModel { args: value_ids(self.args@), ops: op_ids(self.ops@) }
    }
}

impl View for Module {
    type V = ModuleModel;

    open spec fn view(&self) -> ModuleModel {
        ModuleModel {
            name: self.name@,
            ops: Seq::new(self.ops@.len(), |i: int| self.ops@[i]@),
            blocks: Seq::new(self.blocks@.len(), |i: int| self.blocks@[i]@),
            regions: Seq::new(self.regions@.len(), |i: int| block_ids(self.regions@[i].blocks@)),
            values: Seq::new(self.values@.len(), |i: int| self.values@[i]@),
            functions: op_ids(self.functions@),
        }
    }
}

impl ModuleModel {
    /// The empty module of a name.
    pub open spec fn empty(name: Seq<char>) -> ModuleModel {
        ModuleModel {
            name,
            ops: Seq::empty(),
            blocks: Seq::empty(),
            regions: Seq::empty(),
            values: Seq::empty(),
            functions: Seq::empty(),
        }
    }

    /// The numbers that the next `n` values get.
    pub open spec fn fresh_values(self, n: nat) -> Seq<nat> {
        Seq::new(n, |i: int| (self.values.len() + i) as nat)
    }

    /// The module with one more block, whose arguments are new values of the
    /// given types.
    pub open spec fn with_block(self, arg_types: Seq<TypeModel>) -> ModuleModel {
        let block = self.blocks.len();
        ModuleModel {
            blocks: self.blocks.push(
                BlockModel { args: self.fresh_values(arg_types.len()), ops: Seq::empty() },
            ),
            values: self.values + Seq::new(
                arg_types.len(),
                |i: int|
                    ValueModel {
                        ty: arg_types[i],
                        def: DefModel::BlockArgument { block, index: i as nat },
                    },
            ),
            ..self
        }
    }

    /// The module with one more region.
    pub open spec fn with_region(self, blocks: Seq<nat>) -> ModuleModel {
        ModuleModel { regions: self.regions.push(blocks), ..self }
    }

    /// The module with one more operation, whose results are new values of the
    /// given types.
    pub open spec fn with_op(
        self,
        opcode: Opcode,
        result_types: Seq<TypeModel>,
        operands: Seq<nat>,
        attributes: Seq<(Seq<char>, AttributeModel)>,
        regions: Seq<nat>,
    ) -> ModuleModel {
        let op = self.ops.len();
        ModuleModel {
            ops: self.ops.push(
                OpModel {
                    opcode,
                    operands,
                    results: self.fresh_values(result_types.len()),
                    attributes,
                    regions,
                },
            ),
            values: self.values + Seq::new(
                result_types.len(),
                |i: int|
                    ValueModel {
                        ty: result_types[i],
                        def: DefModel::OpResult { op, index: i as nat },
                    },
            ),
            ..self
        }
    }

    /// The module with an operation put at the end of a block.
    pub open spec fn with_appended(self, block: nat, op: nat) -> ModuleModel {
        ModuleModel {
            blocks: self.blocks.update(
                block as int,
                BlockModel {
                    ops: self.blocks[block as int].ops.push(op),
                    ..self.blocks[block as int]
                },
            ),
            ..self
        }
    }

    /// The module with one more function.
    pub open spec fn with_function(self, op: nat) -> ModuleModel {
        ModuleModel { functions: self.functions.push(op), ..self }
    }
}

impl Module {
    /// The empty module of a name.
    pub fn new(name: &str) -> (m: Module)
        ensures
            m@ == ModuleModel::empty(name@),
    {
        let m = Module {
            name: name.to_owned(),
            ops: Vec::new(),
            blocks: Vec::new(),
            regions: Vec::new(),
            values: Vec::new(),
            functions: Vec::new(),
        };
        assert(m@ =~= ModuleModel::empty(name@));
        m
    }

    /// Puts a region in and gives its number.
    pub fn alloc_region(&mut self, region: Region) -> (id: RegionId)
        ensures
            final(self)@ == old(self)@.with_region(block_ids(region.blocks@)),
            id.0 == old(self)@.regions.len(),
    {
        let id = RegionId(self.regions.len());
        self.regions.push(region);
        assert(self@ =~= old(self)@.with_region(block_ids(region.blocks@)));
        id
    }

    /// Puts new values of the given types in, as arguments of a block or as
    /// results of an operation, and gives their numbers.
    pub(crate) fn alloc_values(
        &mut self,
        types: &Vec<Type>,
        op: Option<OpId>,
        block: BlockId,
    ) -> (vs: Vec<Value>)
        ensures
            value_ids(vs@) == old(self)@.fresh_values(types@.len()),
            final(self)@ == (ModuleModel {
                values: old(self)@.values + Seq::new(
                    types@.len(),
                    |i: int|
                        ValueModel {
                            ty: type_models(types@)[i],
                            def: match op {
                                Some(op) => DefModel::OpResult {
                                    op: op.0 as nat,
                                    index: i as nat,
                                },
                                None => DefModel::BlockArgument {
                                    block: block.0 as nat,
                                    index: i as nat,
                                },
                            },
                        },
                ),
                ..old(self)@
            }),
    {
        let ghost before = self@;
        let ghost start = self.values@.len();
        let mut vs: Vec<Value> = Vec::new();
        let mut i: usize = 0;
        while i < types.len()
            invariant
                i <= types.len(),
                before == old(self)@,
                start == before.values.len(),
                vs@.len() == i,
                self.values@.len() == start + i,
                forall|j: int| 0 <= j < i ==> (#[trigger] vs@[j]).0 == start + j,
                self.name == old(self).name,
                self.ops == old(self).ops,
                self.blocks == old(self).blocks,
                self.regions == old(self).regions,
                self.functions == old(self).functions,
                forall|j: int| 0 <= j < start ==> (#[trigger] self.values@[j])@ == before.values[j],
                forall|j: int|
                    start <= j < start + i ==> (#[trigger] self.values@[j])@ == (ValueModel {
                        ty: type_models(types@)[j - start],
                        def: match op {
                            Some(op) => DefModel::OpResult {
                                op: op.0 as nat,
                                index: (j - start) as nat,
                            },
                            None => DefModel::BlockArgument {
                                block: block.0 as nat,
                                index: (j - start) as nat,
                            },
                        },
                    }),
            decreases types.len() - i,
        {
            let def = match op {
                Some(op) => ValueDef::OpResult { op, index: i },
                None => ValueDef::BlockArgument { block, index: i },
            };
            vs.push(Value(self.values.len()));
            self.values.push(ValueData { ty: types[i].clone(), def });
            i = i + 1;
        }
        assert(value_ids(vs@) =~= before.fresh_values(types@.len()));
        assert(self@ =~= (ModuleModel {
            values: before.values + Seq::new(
                types@.len(),
                |i: int|
                    ValueModel {
                        ty: type_models(types@)[i],
                        def: match op {
                            Some(op) => DefModel::OpResult { op: op.0 as nat, index: i as nat },
                            None => DefModel::BlockArgument {
                                block: block.0 as nat,
                                index: i as nat,
                            },
                        },
                    },
            ),
            ..before
        }));
        vs
    }
}
/// Each scalar type is shown under its own name.
pub proof fn scalars_have_their_names()
    ensures
        scalar_debug_text(ScalarType::I1) == "I1"@,
        scalar_debug_text(ScalarType::I4) == "I4"@,
        scalar_debug_text(ScalarType::I8) == "I8"@,
        scalar_debug_text(ScalarType::I16) == "I16"@,
        scalar_debug_text(ScalarType::I32) == "I32"@,
        scalar_debug_text(ScalarType::I64) == "I64"@,
        scalar_debug_text(ScalarType::F16) == "F16"@,
        scalar_debug_text(ScalarType::BF16) == "BF16"@,
        scalar_debug_text(ScalarType::F32) == "F32"@,
        scalar_debug_text(ScalarType::TF32) == "TF32"@,
        scalar_debug_text(ScalarType::F64) == "F64"@,
        scalar_debug_text(ScalarType::F8E4M3FN) == "F8E4M3FN"@,
        scalar_debug_text(ScalarType::F8E5M2) == "F8E5M2"@,
        scalar_debug_text(ScalarType::F8E8M0FNU) == "F8E8M0FNU"@,
        scalar_debug_text(ScalarType::F4E2M1FN) == "F4E2M1FN"@,
{
}

} // verus!
