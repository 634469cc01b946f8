//! Buffers are decoded, and written again byte for byte.

use cutile_ir::builder::{append_op, build_op, build_single_block_region};
use cutile_ir::bytecode::attributes::{read_self_contained_attribute, Tables};
use cutile_ir::bytecode::enums::{AttributeTag, Section, TypeTag, ALIGNMENT_BYTE, MAGIC};
use cutile_ir::bytecode::reader::Reader;
use cutile_ir::bytecode::types::decode_types_seq;
use cutile_ir::bytecode::{BytecodeVersion, Opcode};
use cutile_ir::ir::{
    Attribute, BlockId, Bounded, DivBy, FuncType, Module, OpId, OptimizationHints,
    PartitionViewType, PointerType, SameElements, ScalarType, TensorViewType, TileElementType,
    TileType, Type, Value, DYNAMIC,
};
use cutile_ir::{bytecode_version, decode_bytecode, decode_module, Error};

// ---- an encoder for the buffers of these tests ----

struct Encoder {
    buf: Vec<u8>,
}

impl Encoder {
    fn new() -> Self {
        Encoder { buf: Vec::new() }
    }
    fn byte(&mut self, b: u8) {
        self.buf.push(b);
    }
    fn bytes(&mut self, b: &[u8]) {
        self.buf.extend_from_slice(b);
    }
    fn varint(&mut self, mut v: u64) {
        while v >= 128 {
            self.buf.push((v % 128) as u8 | 0x80);
            v /= 128;
        }
        self.buf.push(v as u8);
    }
    fn signed_varint(&mut self, v: i64) {
        self.varint(((v << 1) ^ (v >> 63)) as u64);
    }
    fn align_to(&mut self, n: usize) {
        while self.buf.len() % n != 0 {
            self.buf.push(ALIGNMENT_BYTE);
        }
    }
    fn ap_float(&mut self, value: f64, scalar: ScalarType) {
        let bits = match scalar {
            ScalarType::F16 => half::f16::from_f64(value).to_bits() as u64,
            ScalarType::BF16 => half::bf16::from_f64(value).to_bits() as u64,
            ScalarType::F32 | ScalarType::TF32 => (value as f32).to_bits() as u64,
            _ => value.to_bits(),
        };
        self.signed_varint(bits as i64);
    }
    fn i64s(&mut self, v: &[i64]) {
        self.varint(v.len() as u64);
        for x in v {
            self.bytes(&x.to_le_bytes());
        }
    }
    fn i32s(&mut self, v: &[i32]) {
        self.varint(v.len() as u64);
        for x in v {
            self.bytes(&x.to_le_bytes());
        }
    }
}

/// The value of the bit pattern of a float.
fn float_of_bits(bits: u64, scalar: ScalarType) -> f64 {
    match scalar {
        ScalarType::F16 => half::f16::from_bits(bits as u16).to_f64(),
        ScalarType::BF16 => half::bf16::from_bits(bits as u16).to_f64(),
        ScalarType::F32 | ScalarType::TF32 => f32::from_bits(bits as u32) as f64,
        _ => f64::from_bits(bits),
    }
}

fn scalar_tag(s: ScalarType) -> TypeTag {
    match s {
        ScalarType::I1 => TypeTag::I1,
        ScalarType::I4 => TypeTag::I4,
        ScalarType::I8 => TypeTag::I8,
        ScalarType::I16 => TypeTag::I16,
        ScalarType::I32 => TypeTag::I32,
        ScalarType::I64 => TypeTag::I64,
        ScalarType::F16 => TypeTag::F16,
        ScalarType::BF16 => TypeTag::BF16,
        ScalarType::F32 => TypeTag::F32,
        ScalarType::TF32 => TypeTag::TF32,
        ScalarType::F64 => TypeTag::F64,
        ScalarType::F8E4M3FN => TypeTag::F8E4M3FN,
        ScalarType::F8E5M2 => TypeTag::F8E5M2,
        ScalarType::F8E8M0FNU => TypeTag::F8E8M0FNU,
        ScalarType::F4E2M1FN => TypeTag::F4E2M1FN,
    }
}

/// Strings, types and constants in the order in which they are first used.
struct Interner {
    strings: Vec<String>,
    types: Vec<Type>,
    constants: Vec<Vec<u8>>,
}

impl Interner {
    fn new() -> Self {
        Interner { strings: Vec::new(), types: Vec::new(), constants: Vec::new() }
    }
    fn string(&mut self, s: &str) -> u64 {
        if let Some(i) = self.strings.iter().position(|x| x == s) {
            return i as u64;
        }
        self.strings.push(s.to_string());
        self.strings.len() as u64 - 1
    }
    /// The types that a type refers to come before it.
    fn ty(&mut self, t: &Type) -> u64 {
        if let Some(i) = self.types.iter().position(|x| x == t) {
            return i as u64;
        }
        match t {
            Type::Pointer(p) => {
                self.ty(&Type::Scalar(p.pointee));
            }
            Type::Tile(tile) => match &tile.element_type {
                TileElementType::Scalar(s) => {
                    self.ty(&Type::Scalar(*s));
                }
                TileElementType::Pointer(p) => {
                    self.ty(&Type::Pointer(**p));
                }
            },
            Type::TensorView(v) => {
                self.ty(&Type::Scalar(v.element_type));
            }
            Type::PartitionView(v) => {
                self.ty(&Type::TensorView(copy_view(&v.tensor_view)));
            }
            Type::Func(f) => {
                for t in f.inputs.iter().chain(f.results.iter()) {
                    self.ty(t);
                }
            }
            _ => {}
        }
        self.types.push(t.clone());
        self.types.len() as u64 - 1
    }
    fn constant(&mut self, data: &[u8]) -> u64 {
        let mut w = Encoder::new();
        w.varint(data.len() as u64);
        w.bytes(data);
        if let Some(i) = self.constants.iter().position(|x| *x == w.buf) {
            return i as u64;
        }
        self.constants.push(w.buf);
        self.constants.len() as u64 - 1
    }
    fn index_of(&self, t: &Type) -> u64 {
        self.types.iter().position(|x| x == t).expect("type") as u64
    }
}

fn copy_view(v: &TensorViewType) -> TensorViewType {
    TensorViewType {
        element_type: v.element_type,
        shape: v.shape.clone(),
        strides: v.strides.clone(),
    }
}

fn write_type(t: &Type, tables: &Interner, w: &mut Encoder, version: BytecodeVersion) {
    match t {
        Type::Scalar(s) => w.varint(scalar_tag(*s).tag()),
        Type::Token => w.varint(TypeTag::Token.tag()),
        Type::Pointer(p) => {
            w.varint(TypeTag::Pointer.tag());
            w.varint(tables.index_of(&Type::Scalar(p.pointee)));
        }
        Type::Tile(tile) => {
            w.varint(TypeTag::Tile.tag());
            w.varint(match &tile.element_type {
                TileElementType::Scalar(s) => tables.index_of(&Type::Scalar(*s)),
                TileElementType::Pointer(p) => tables.index_of(&Type::Pointer(**p)),
            });
            w.i64s(&tile.shape);
        }
        Type::TensorView(v) => {
            w.varint(TypeTag::TensorView.tag());
            w.varint(tables.index_of(&Type::Scalar(v.element_type)));
            w.i64s(&v.shape);
            w.i64s(&v.strides);
        }
        Type::PartitionView(v) => {
            assert!(v.padding_value.is_none());
            w.varint(TypeTag::PartitionView.tag());
            if version >= BytecodeVersion::v13_3() {
                w.varint(0);
            }
            w.i32s(&v.tile_shape);
            w.varint(tables.index_of(&Type::TensorView(copy_view(&v.tensor_view))));
            w.i32s(&v.dim_map);
            if version < BytecodeVersion::v13_3() {
                w.byte(0);
            }
        }
        Type::Func(f) => {
            w.varint(TypeTag::Func.tag());
            w.varint(f.inputs.len() as u64);
            for t in &f.inputs {
                w.varint(tables.index_of(t));
            }
            w.varint(f.results.len() as u64);
            for t in &f.results {
                w.varint(tables.index_of(t));
            }
        }
        _ => panic!("not written in these tests"),
    }
}

fn write_attribute(a: &Attribute, w: &mut Encoder, tables: &mut Interner) {
    match a {
        Attribute::Integer(v, t) => {
            w.varint(AttributeTag::Integer.tag());
            w.varint(tables.ty(t));
            w.varint(*v as u64);
        }
        Attribute::Float(bits, t) => {
            w.varint(AttributeTag::Float.tag());
            w.varint(tables.ty(t));
            w.signed_varint(*bits as i64);
        }
        Attribute::Bool(b) => {
            w.varint(AttributeTag::Bool.tag());
            w.byte(*b as u8);
        }
        Attribute::Type(t) => {
            w.varint(AttributeTag::Type.tag());
            w.varint(tables.ty(t));
        }
        Attribute::String(s) => {
            w.varint(AttributeTag::String.tag());
            w.varint(tables.string(s));
        }
        Attribute::Array(v) => {
            w.varint(AttributeTag::Array.tag());
            w.varint(v.len() as u64);
            for a in v {
                write_attribute(a, w, tables);
            }
        }
        Attribute::DenseElements(e) => {
            w.varint(AttributeTag::DenseElements.tag());
            w.varint(tables.ty(&e.element_type));
            w.varint(tables.constant(&e.data));
        }
        Attribute::DivBy(v) => {
            w.varint(AttributeTag::DivBy.tag());
            w.varint(v.divisor);
            write_pair(v.every, v.along, w);
        }
        Attribute::SameElements(v) => {
            w.varint(AttributeTag::SameElements.tag());
            w.i64s(&v.values);
        }
        Attribute::Dictionary(v) => {
            w.varint(AttributeTag::Dictionary.tag());
            write_entries(v, w, tables);
        }
        Attribute::OptimizationHints(h) => {
            w.varint(AttributeTag::OptimizationHints.tag());
            w.varint(h.entries.len() as u64);
            for (arch, entries) in &h.entries {
                w.varint(tables.string(arch));
                w.varint(AttributeTag::Dictionary.tag());
                write_entries(entries, w, tables);
            }
        }
        Attribute::Bounded(v) => {
            w.varint(AttributeTag::Bounded.tag());
            write_pair(v.lb, v.ub, w);
        }
        Attribute::DenseI32Array(_) => panic!("has no tag"),
    }
}

fn write_pair(a: Option<i64>, b: Option<i64>, w: &mut Encoder) {
    w.byte(a.is_some() as u8 + 2 * b.is_some() as u8);
    for v in [a, b].iter().flatten() {
        w.signed_varint(*v);
    }
}

fn write_entries(v: &[(String, Attribute)], w: &mut Encoder, tables: &mut Interner) {
    w.varint(v.len() as u64);
    for (key, value) in v {
        w.varint(tables.string(key));
        write_attribute(value, w, tables);
    }
}

/// A table: a count, the gap, the offsets, and the entries.
fn table(entries: &[Vec<u8>], width: usize) -> Vec<u8> {
    let mut w = Encoder::new();
    w.varint(entries.len() as u64);
    if entries.is_empty() {
        return w.buf;
    }
    w.align_to(width);
    let mut at = 0u64;
    for e in entries {
        w.bytes(&at.to_le_bytes()[..width]);
        at += e.len() as u64;
    }
    for e in entries {
        w.bytes(e);
    }
    w.buf
}

fn push_section(buf: &mut Encoder, section: Section, payload: &[u8], align: u64) {
    buf.byte(section.id() | 0x80);
    buf.varint(payload.len() as u64);
    buf.varint(align);
    buf.align_to(align as usize);
    buf.bytes(payload);
}

fn header(version: BytecodeVersion) -> Encoder {
    let mut w = Encoder::new();
    w.bytes(&MAGIC);
    w.byte(version.major);
    w.byte(version.minor);
    w.bytes(&version.tag.to_le_bytes());
    w
}

fn attr<'a>(attrs: &'a [(String, Attribute)], name: &str) -> &'a Attribute {
    &attrs.iter().find(|(n, _)| n == name).expect("attribute").1
}

/// The operations of a straight-line block.
fn write_body(m: &Module, block: BlockId, tables: &mut Interner) -> Vec<u8> {
    let mut w = Encoder::new();
    let mut scope: Vec<Value> = m.blocks[block.0].args.clone();
    for id in &m.blocks[block.0].ops {
        let op = &m.ops[id.0];
        w.varint(op.opcode.code() as u64);
        if op.opcode.fixed_result_count().is_none() {
            w.varint(op.results.len() as u64);
        }
        for r in &op.results {
            w.varint(tables.ty(&m.values[r.0].ty));
        }
        match op.opcode {
            Opcode::AddF | Opcode::MulF => {
                w.varint(op.attributes.iter().any(|(n, _)| n == "flush_to_zero") as u64);
                match attr(&op.attributes, "rounding_mode") {
                    Attribute::Integer(v, _) => w.varint(*v as u64),
                    a => panic!("{a:?}"),
                }
            }
            Opcode::Return => {}
            other => panic!("{other:?} is not written in these tests"),
        }
        if op.opcode.fixed_operand_count().is_none() {
            w.varint(op.operands.len() as u64);
        }
        for v in &op.operands {
            w.varint(scope.iter().position(|x| x == v).expect("in scope") as u64);
        }
        scope.extend(op.results.iter().copied());
    }
    w.buf
}

fn write_bytecode_version(m: &Module, version: BytecodeVersion) -> Result<Vec<u8>, Error> {
    if !version.is_supported() {
        return Err(Error::BytecodeWrite("unsupported version".to_string()));
    }
    let mut tables = Interner::new();
    let mut funcs = Encoder::new();
    funcs.varint(m.functions.len() as u64);
    for f in &m.functions {
        let op = &m.ops[f.0];
        match attr(&op.attributes, "sym_name") {
            Attribute::String(s) => funcs.varint(tables.string(s)),
            a => panic!("{a:?}"),
        }
        match attr(&op.attributes, "function_type") {
            Attribute::Type(t) => funcs.varint(tables.ty(t)),
            a => panic!("{a:?}"),
        }
        funcs.byte(2);
        funcs.varint(0);
        let block = m.regions[op.regions[0].0].blocks[0];
        let body = write_body(m, block, &mut tables);
        funcs.varint(body.len() as u64);
        funcs.bytes(&body);
    }
    let mut types: Vec<Vec<u8>> = Vec::new();
    for t in &tables.types {
        let mut w = Encoder::new();
        write_type(t, &tables, &mut w, version);
        types.push(w.buf);
    }
    let strings: Vec<Vec<u8>> = tables.strings.iter().map(|s| s.as_bytes().to_vec()).collect();
    let mut w = header(version);
    push_section(&mut w, Section::Func, &funcs.buf, 8);
    push_section(&mut w, Section::Constant, &table(&tables.constants, 8), 8);
    push_section(&mut w, Section::Type, &table(&types, 4), 4);
    push_section(&mut w, Section::String, &table(&strings, 4), 4);
    w.byte(Section::EndOfBytecode.id());
    Ok(w.buf)
}

fn write_bytecode(m: &Module) -> Result<Vec<u8>, Error> {
    write_bytecode_version(m, BytecodeVersion::current())
}

// ---- kernels ----

fn entry(m: &mut Module, name: &str, inputs: Vec<Type>, region: cutile_ir::ir::RegionId) -> OpId {
    let func_type = Type::Func(FuncType { inputs, results: vec![] });
    let (entry, _) = build_op(
        m,
        Opcode::Entry,
        &vec![],
        vec![],
        vec![
            ("sym_name".to_string(), Attribute::String(name.to_string())),
            ("function_type".to_string(), Attribute::Type(func_type)),
        ],
        vec![region],
    );
    m.functions.push(entry);
    entry
}

/// A module with a single empty kernel.
fn build_kernel(name: &str) -> Module {
    let mut module = Module::new("version_test");
    let (region_id, block_id, _args) = build_single_block_region(&mut module, &vec![]);
    let (ret, _) = build_op(&mut module, Opcode::Return, &vec![], vec![], vec![], vec![]);
    append_op(&mut module, block_id, ret);
    entry(&mut module, name, vec![], region_id);
    module
}

// ---- versions ----

#[test]
fn current_version_roundtrip() {
    let module = build_kernel("ver_roundtrip");
    let bytecode = write_bytecode(&module).expect("write_bytecode failed");
    let decoded = decode_bytecode(&bytecode).expect("decode_bytecode failed");
    let expected = format!("TileIR bytecode v{}", BytecodeVersion::current().to_text());
    assert!(
        decoded.contains(&expected),
        "decoded output should contain '{expected}', got:\n{decoded}"
    );
}

#[test]
fn decoded_output_contains_version_prefix() {
    let module = build_kernel("ver_prefix");
    let bytecode = write_bytecode(&module).expect("write_bytecode failed");
    let decoded = decode_bytecode(&bytecode).expect("decode_bytecode failed");
    assert!(
        decoded.contains("TileIR bytecode v13."),
        "decoded output should contain 'TileIR bytecode v13.', got:\n{decoded}"
    );
    assert!(decoded.starts_with("TileIR bytecode v13."));
}

#[test]
fn write_with_explicit_version() {
    let module = build_kernel("ver_explicit");
    let bytecode =
        write_bytecode_version(&module, BytecodeVersion::current()).expect("write failed");
    let decoded = decode_bytecode(&bytecode).expect("decode failed");
    let expected = format!("TileIR bytecode v{}", BytecodeVersion::current().to_text());
    assert!(
        decoded.contains(&expected),
        "explicit version write should produce '{expected}' in output"
    );
}

#[test]
fn write_with_min_supported_version() {
    let module = build_kernel("ver_min");
    let bytecode =
        write_bytecode_version(&module, BytecodeVersion::min_supported()).expect("write failed");
    let decoded = decode_bytecode(&bytecode).expect("decode failed");
    let expected = format!("TileIR bytecode v{}", BytecodeVersion::min_supported().to_text());
    assert!(
        decoded.contains(&expected),
        "min supported version should produce '{expected}' in output"
    );
}

#[test]
fn reject_unsupported_version() {
    let module = build_kernel("ver_reject");
    let old_version = BytecodeVersion { major: 1, minor: 0, tag: 0 };
    let result = write_bytecode_version(&module, old_version);
    assert!(result.is_err(), "should reject version below MIN_SUPPORTED");
    assert!(!old_version.is_supported());
    assert!(BytecodeVersion::min_supported().is_supported());
    assert!(BytecodeVersion::current().is_supported());
}

#[test]
fn version_display_with_tag() {
    let v = BytecodeVersion { major: 13, minor: 2, tag: 5 };
    assert_eq!(v.to_text(), "13.2.5");
}

#[test]
fn version_display_without_tag() {
    let v = BytecodeVersion { major: 13, minor: 2, tag: 0 };
    assert_eq!(v.to_text(), "13.2");
}

#[test]
fn bytecode_version_reads_header() {
    let module = build_kernel("ver_read");
    let bytecode =
        write_bytecode_version(&module, BytecodeVersion::min_supported()).expect("write failed");
    assert_eq!(
        bytecode_version(&bytecode).expect("read version"),
        BytecodeVersion::min_supported()
    );
}

#[test]
fn version_faithful_roundtrip_is_byte_identical() {
    assert_ne!(BytecodeVersion::min_supported(), BytecodeVersion::current());

    let module = build_kernel("ver_faithful");
    let original =
        write_bytecode_version(&module, BytecodeVersion::min_supported()).expect("write failed");

    let decoded = decode_module(&original).expect("decode_module failed");
    let version = bytecode_version(&original).expect("read version");
    let faithful = write_bytecode_version(&decoded, version).expect("re-encode failed");
    assert_eq!(
        faithful, original,
        "faithful re-encode must be byte-identical"
    );

    let upgraded = write_bytecode(&decoded).expect("re-encode failed");
    assert_ne!(
        upgraded, original,
        "re-encoding at CURRENT should upgrade (not reproduce) an older buffer"
    );
}

#[test]
fn version_ordering() {
    let v1 = BytecodeVersion { major: 13, minor: 1, tag: 0 };
    let v2 = BytecodeVersion { major: 13, minor: 2, tag: 0 };
    let v3 = BytecodeVersion { major: 13, minor: 3, tag: 0 };
    assert!(v1 < v2);
    assert!(v2 < v3);
    assert!(v1 < v3);
}

// ---- floats, types, attributes ----

#[test]
fn ap_float_roundtrips() {
    let cases = [
        (ScalarType::F32, 3.14159_f64),
        (ScalarType::F64, 2.718281828459045_f64),
        (ScalarType::F16, 1.5_f64),
        (ScalarType::BF16, -3.5_f64),
        (ScalarType::TF32, 0.5_f64),
    ];
    for (scalar, value) in cases {
        let mut w = Encoder::new();
        w.ap_float(value, scalar);
        let bits = Reader::new(&w.buf).read_ap_float(scalar).unwrap();
        let got = float_of_bits(bits, scalar);
        let expected = match scalar {
            ScalarType::F16 => half::f16::from_f64(value).to_f64(),
            ScalarType::BF16 => half::bf16::from_f64(value).to_f64(),
            ScalarType::F32 | ScalarType::TF32 => (value as f32) as f64,
            _ => value,
        };
        assert_eq!(got, expected, "{scalar:?} ap_float roundtrip");
    }
}

#[test]
fn type_section_roundtrips() {
    let tv = TensorViewType {
        element_type: ScalarType::F32,
        shape: vec![DYNAMIC],
        strides: vec![DYNAMIC],
    };
    let want = [
        Type::Token,
        Type::Scalar(ScalarType::I32),
        Type::Pointer(PointerType { pointee: ScalarType::F32 }),
        Type::Tile(TileType {
            shape: vec![4, 4],
            element_type: TileElementType::Scalar(ScalarType::F32),
        }),
        Type::TensorView(copy_view(&tv)),
        Type::PartitionView(PartitionViewType {
            tile_shape: vec![4],
            tensor_view: copy_view(&tv),
            dim_map: vec![0],
            padding_value: None,
        }),
        Type::Func(FuncType {
            inputs: vec![Type::Pointer(PointerType { pointee: ScalarType::F32 })],
            results: vec![],
        }),
    ];

    let mut tables = Interner::new();
    for t in &want {
        tables.ty(t);
    }
    let mut w = Encoder::new();
    for t in &tables.types {
        write_type(t, &tables, &mut w, BytecodeVersion::v13_3());
    }
    let decoded =
        decode_types_seq(&w.buf, tables.types.len() as u64, BytecodeVersion::v13_3()).unwrap();
    assert_eq!(decoded, tables.types);
    assert_eq!(decoded.len(), 8);
}

#[test]
fn self_contained_attr_roundtrips() {
    let i32_attr = |v: i64| Attribute::Integer(v, Type::Scalar(ScalarType::I32));
    let attrs = vec![
        i32_attr(42),
        Attribute::Float(0.5_f32.to_bits() as u64, Type::Scalar(ScalarType::F32)),
        Attribute::Bool(true),
        Attribute::Type(Type::Scalar(ScalarType::F64)),
        Attribute::String("hello".to_string()),
        Attribute::Array(vec![i32_attr(1), i32_attr(2)]),
        Attribute::DivBy(DivBy { divisor: 8, every: Some(2), along: None }),
        Attribute::SameElements(SameElements { values: vec![1, 2, 3] }),
        Attribute::Dictionary(vec![("k".to_string(), i32_attr(7))]),
        Attribute::Bounded(Bounded { lb: Some(0), ub: Some(100) }),
        Attribute::OptimizationHints(OptimizationHints {
            entries: vec![(
                "sm_90".to_string(),
                vec![("num_cta".to_string(), i32_attr(2))],
            )],
        }),
    ];

    let mut tables = Interner::new();
    let mut w = Encoder::new();
    for a in &attrs {
        write_attribute(a, &mut w, &mut tables);
    }
    let t = Tables {
        strings: &tables.strings,
        types: &tables.types,
        constants: &tables.constants,
    };
    let mut r = Reader::new(&w.buf);
    for a in &attrs {
        assert_eq!(&read_self_contained_attribute(&mut r, &t).unwrap(), a);
    }
    assert_eq!(r.remaining(), 0);
}

// ---- whole buffers ----

#[test]
fn decode_module_roundtrips_straightline() {
    let tf = Type::Tile(TileType {
        shape: vec![4],
        element_type: TileElementType::Scalar(ScalarType::F32),
    });
    let mut m = Module::new("test");
    let (region, block, args) =
        build_single_block_region(&mut m, &vec![tf.clone(), tf.clone()]);
    let rounding = || {
        vec![(
            "rounding_mode".to_string(),
            Attribute::Integer(5, Type::Scalar(ScalarType::I32)),
        )]
    };
    let (addf, c) = build_op(
        &mut m,
        Opcode::AddF,
        &vec![tf.clone()],
        vec![args[0], args[1]],
        rounding(),
        vec![],
    );
    append_op(&mut m, block, addf);
    let (mulf, _) = build_op(
        &mut m,
        Opcode::MulF,
        &vec![tf.clone()],
        vec![c[0], args[1]],
        rounding(),
        vec![],
    );
    append_op(&mut m, block, mulf);
    let (ret, _) = build_op(&mut m, Opcode::Return, &vec![], vec![], vec![], vec![]);
    append_op(&mut m, block, ret);
    entry(&mut m, "k", vec![tf.clone(), tf], region);

    let bytes = write_bytecode(&m).unwrap();
    let decoded = decode_module(&bytes).unwrap();
    let reencoded = write_bytecode(&decoded).unwrap();
    assert_eq!(bytes, reencoded);
    // The decoded module is the written one but for its name.
    assert_eq!(decoded.name, "module");
    assert_eq!(decoded.ops, m.ops);
    assert_eq!(decoded.blocks, m.blocks);
    assert_eq!(decoded.regions, m.regions);
    assert_eq!(decoded.values, m.values);
    assert_eq!(decoded.functions, m.functions);
}

#[test]
fn text_shows_the_written_module() {
    let module = build_kernel("shown");
    let bytes = write_bytecode(&module).unwrap();
    assert_eq!(
        decode_bytecode(&bytes).unwrap(),
        "TileIR bytecode v13.3\n\n\
         === Strings (1) ===\n  [0] \"shown\"\n\n\
         === Types (1) ===\n  [0] () -> ()\n\n\
         === Functions (1) ===\n  entry @shown : () -> ()\n    body: 2 bytes, ~2 ops\n\n"
    );
}

#[test]
fn versions_have_their_own_bytes() {
    let module = build_kernel("versions");
    let mut all = Vec::new();
    for v in [BytecodeVersion::v13_1(), BytecodeVersion::v13_2(), BytecodeVersion::v13_3()] {
        let bytes = write_bytecode_version(&module, v).unwrap();
        assert_eq!(bytecode_version(&bytes).unwrap(), v);
        assert_eq!(decode_module(&bytes).unwrap().ops, module.ops);
        all.push(bytes);
    }
    all.dedup();
    assert_eq!(all.len(), 3);
}

/// A buffer with a header and the end marker, and no sections.
fn minimal_bytecode() -> Vec<u8> {
    let mut buf = Vec::new();
    buf.extend_from_slice(&MAGIC);
    buf.push(13);
    buf.push(1);
    buf.extend_from_slice(&0u16.to_le_bytes());
    buf.push(Section::EndOfBytecode.id());
    buf
}

#[test]
fn decode_minimal() {
    let data = minimal_bytecode();
    let out = decode_bytecode(&data).unwrap();
    assert!(out.contains("TileIR bytecode v13.1"));
    assert_eq!(out, "TileIR bytecode v13.1\n\n");
}

#[test]
fn decode_bad_magic() {
    let mut data = minimal_bytecode();
    data[1] = b'X';
    assert!(decode_bytecode(&data).is_err());
    assert!(decode_module(&data).is_err());
    assert!(bytecode_version(&data).is_err());
}

#[test]
fn roundtrip_string_section() {
    let mut buf = Vec::new();
    buf.extend_from_slice(&MAGIC);
    buf.push(13);
    buf.push(1);
    buf.extend_from_slice(&0u16.to_le_bytes());

    let mut section = Encoder::new();
    section.varint(2);
    section.align_to(4);
    section.bytes(&0u32.to_le_bytes());
    section.bytes(&5u32.to_le_bytes());
    section.bytes(b"hello");
    section.bytes(b"world");

    let mut head = Encoder::new();
    head.byte(Section::String.id() | 0x80);
    head.varint(section.buf.len() as u64);
    head.varint(4);
    head.align_to(4);
    buf.extend_from_slice(&head.buf);
    buf.extend_from_slice(&section.buf);
    buf.push(Section::EndOfBytecode.id());

    let out = decode_bytecode(&buf).unwrap();
    assert!(out.contains("\"hello\""));
    assert!(out.contains("\"world\""));
    assert_eq!(
        out,
        "TileIR bytecode v13.1\n\n=== Strings (2) ===\n  [0] \"hello\"\n  [1] \"world\"\n\n"
    );
}
