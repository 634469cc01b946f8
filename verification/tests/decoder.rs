//! Buffers put together byte by byte: what they decode to, and how they are refused.

use cutile_ir::bytecode::attributes::{read_self_contained_attribute, Tables};
use cutile_ir::bytecode::decoder::{dump_tables_fit, module_tables_fit, read_dump};
use cutile_ir::bytecode::dump::{decode_type_entry, parse_func_section};
use cutile_ir::bytecode::enums::{AttributeTag, FunctionFlag, Section, TypeTag, MAGIC};
use cutile_ir::bytecode::reader::Reader;
use cutile_ir::bytecode::types::{decode_types_seq, padding_from_u8, scalar_from_tag};
use cutile_ir::bytecode::{BytecodeVersion, Opcode};
use cutile_ir::error::{err, DecodeError};
use cutile_ir::ir::{
    Attribute, BlockId, Module, PaddingValue, RegionId, ScalarType, Type, Value,
};
use cutile_ir::{bytecode_version, decode_bytecode, decode_module, Error};

const HINTS: u64 = 11;
const DICTIONARY: u64 = 10;

fn varint(mut v: u64) -> Vec<u8> {
    let mut out = Vec::new();
    while v >= 128 {
        out.push((v % 128) as u8 | 0x80);
        v /= 128;
    }
    out.push(v as u8);
    out
}

fn signed(v: i64) -> Vec<u8> {
    varint(((v << 1) ^ (v >> 63)) as u64)
}

fn varints(v: &[u64]) -> Vec<u8> {
    v.iter().flat_map(|x| varint(*x)).collect()
}

fn i64s(v: &[i64]) -> Vec<u8> {
    let mut out = varint(v.len() as u64);
    for x in v {
        out.extend(x.to_le_bytes());
    }
    out
}

fn i32s(v: &[i32]) -> Vec<u8> {
    let mut out = varint(v.len() as u64);
    for x in v {
        out.extend(x.to_le_bytes());
    }
    out
}

fn cat(parts: &[&[u8]]) -> Vec<u8> {
    parts.concat()
}

fn table(entries: &[Vec<u8>], width: usize) -> Vec<u8> {
    let mut out = varint(entries.len() as u64);
    if entries.is_empty() {
        return out;
    }
    while out.len() % width != 0 {
        out.push(0xCB);
    }
    let mut at = 0u64;
    for e in entries {
        out.extend(&at.to_le_bytes()[..width]);
        at += e.len() as u64;
    }
    for e in entries {
        out.extend(e);
    }
    out
}

fn string_table(strings: &[&str]) -> Vec<u8> {
    table(&strings.iter().map(|s| s.as_bytes().to_vec()).collect::<Vec<_>>(), 4)
}

fn buffer(version: (u8, u8), sections: &[(Section, Vec<u8>)]) -> Vec<u8> {
    let mut out = MAGIC.to_vec();
    out.extend([version.0, version.1, 0, 0]);
    for (section, payload) in sections {
        out.push(section.id());
        out.extend(varint(payload.len() as u64));
        out.extend(payload);
    }
    out.push(0);
    out
}

fn function(name: u64, signature: u64, flags: u8, body: &[u8]) -> Vec<u8> {
    cat(&[&varints(&[name, signature]), &[flags, 0], &varint(body.len() as u64), body])
}

/// A function whose flags announce hints, with the bytes of the hints.
fn hinted_function(name: u64, signature: u64, flags: u8, hints: &[u8], body: &[u8]) -> Vec<u8> {
    let flags = flags | 4;
    cat(&[&varints(&[name, signature]), &[flags, 0], hints, &varint(body.len() as u64), body])
}

/// Types 0 to 3: `i32`, `f32`, a tile of four `f32`, and the signature with two inputs of
/// the tile and no results.
fn kernel_types() -> Vec<Vec<u8>> {
    vec![
        varint(TypeTag::I32.tag()),
        varint(TypeTag::F32.tag()),
        cat(&[&varints(&[TypeTag::Tile.tag(), 1]), &i64s(&[4])]),
        varints(&[TypeTag::Func.tag(), 2, 2, 2, 0]),
    ]
}

/// A buffer with one kernel named `k`, of the signature of `kernel_types`.
fn kernel(version: (u8, u8), body: &[u8]) -> Vec<u8> {
    buffer(
        version,
        &[
            (Section::String, string_table(&["k", "hint"])),
            (Section::Type, table(&kernel_types(), 4)),
            (Section::Constant, table(&[vec![4, 1, 2, 3, 4], vec![9, 1]], 8)),
            (Section::Func, cat(&[&[1], &function(0, 3, 2, body)])),
        ],
    )
}

fn op(code: Opcode, fields: &[u64]) -> Vec<u8> {
    cat(&[&varint(code.code() as u64), &varints(fields)])
}

fn refused<T>(r: Result<T, Error>) -> String {
    match r {
        Ok(_) => panic!("expected an error"),
        Err(Error::BytecodeWrite(m)) => m,
    }
}

fn body_error(version: (u8, u8), body: &[u8]) -> String {
    refused(decode_module(&kernel(version, body)))
}

fn body_module(version: (u8, u8), body: &[u8]) -> Module {
    decode_module(&kernel(version, body)).expect("decodes")
}

fn int_attr(v: i64) -> Attribute {
    Attribute::Integer(v, Type::Scalar(ScalarType::I32))
}

fn named(attrs: Vec<(&str, Attribute)>) -> Vec<(String, Attribute)> {
    attrs.into_iter().map(|(n, a)| (n.to_string(), a)).collect()
}

// ---- reader ----

#[test]
fn varints_are_read_back() {
    for v in [0u64, 1, 127, 128, 300, u32::MAX as u64, u64::MAX] {
        let bytes = varint(v);
        let mut r = Reader::new(&bytes);
        assert_eq!(r.read_varint(), Ok(v));
        assert_eq!(r.remaining(), 0);
    }
    for v in [0i64, -1, 1, -64, 64, i64::MIN, i64::MAX] {
        assert_eq!(Reader::new(&signed(v)).read_signed_varint(), Ok(v));
    }
    assert_eq!(Reader::new(&[0x80]).read_varint(), Err(DecodeError::UnexpectedEnd));
    assert_eq!(Reader::new(&[0x80; 10]).read_varint(), Err(DecodeError::VarintOverflow));
    // Of a tenth digit the low bit counts.
    let mut long = vec![0x80u8; 9];
    long.push(0x7F);
    assert_eq!(Reader::new(&long).read_varint(), Ok(1 << 63));
}

#[test]
fn fixed_widths_are_little_endian() {
    let bytes = [1u8, 2, 3, 4, 5, 6, 7, 0x88];
    assert_eq!(Reader::new(&bytes).read_le_u8(), Ok(1));
    assert_eq!(Reader::new(&bytes).read_le_u16(), Ok(0x0201));
    assert_eq!(Reader::new(&bytes).read_le_u32(), Ok(0x04030201));
    assert_eq!(Reader::new(&bytes).read_le_u64(), Ok(0x8807060504030201));
    assert_eq!(Reader::new(&bytes).read_le_i64(), Ok(0x8807060504030201u64 as i64));
    assert_eq!(Reader::new(&[0xFE, 0xFF, 0xFF, 0xFF]).read_le_i32(), Ok(-2));
    assert_eq!(Reader::new(&i64s(&[-1, 7])).read_var_size_i64(), Ok(vec![-1, 7]));
    assert_eq!(Reader::new(&i32s(&[-1, 7])).read_var_size_i32(), Ok(vec![-1, 7]));
    assert_eq!(Reader::new(&bytes).read_bytes(9), Err(DecodeError::UnexpectedEnd));
    assert_eq!(Reader::new(&bytes).read_bytes(u64::MAX), Err(DecodeError::UnexpectedEnd));
    assert_eq!(Reader::new(&[]).read_byte(), Err(DecodeError::UnexpectedEnd));
}

#[test]
fn padding_runs_up_to_the_alignment() {
    let bytes = [9, 0xCB, 0xCB, 0xCB, 5];
    let mut r = Reader::new(&bytes);
    assert_eq!(r.read_byte(), Ok(9));
    assert_eq!(r.skip_padding(4), Ok(()));
    assert_eq!(r.read_byte(), Ok(5));
    let mut r = Reader::new(&[9, 0xAB]);
    assert_eq!(r.read_byte(), Ok(9));
    assert_eq!(r.skip_padding(1), Ok(()));
    assert_eq!(r.skip_padding(2), Err(DecodeError::PaddingByte(0xAB)));
}

#[test]
fn floats_are_read_by_their_scalar() {
    let half = signed(half::f16::from_f64(1.5).to_bits() as i64);
    assert_eq!(Reader::new(&half).read_ap_float(ScalarType::F16), Ok(0x3E00));
    // Only the bits of the scalar count.
    assert_eq!(Reader::new(&signed(-1)).read_ap_float(ScalarType::BF16), Ok(0xFFFF));
    assert_eq!(Reader::new(&signed(-1)).read_ap_float(ScalarType::TF32), Ok(0xFFFF_FFFF));
    assert_eq!(Reader::new(&signed(-1)).read_ap_float(ScalarType::F64), Ok(u64::MAX));
    for s in [
        ScalarType::F8E4M3FN,
        ScalarType::F8E5M2,
        ScalarType::F8E8M0FNU,
        ScalarType::F4E2M1FN,
    ] {
        assert_eq!(Reader::new(&[0]).read_ap_float(s), Err(DecodeError::SubByteFloat));
        assert_eq!(Reader::new(&[]).read_ap_float(s), Err(DecodeError::UnexpectedEnd));
    }
    assert_eq!(
        Reader::new(&[0]).read_ap_float(ScalarType::I8),
        Err(DecodeError::NotAFloat(ScalarType::I8))
    );
}

// ---- messages ----

#[test]
fn messages_name_the_reason() {
    for (kind, text) in [
        (DecodeError::UnexpectedEnd, "decode: unexpected end of data"),
        (DecodeError::VarintOverflow, "decode: varint overflow"),
        (DecodeError::PaddingByte(0x0A), "decode: expected padding byte 0xCB, got 0x0A"),
        (DecodeError::NotAFloat(ScalarType::I32), "decode: I32 is not a float scalar"),
        (DecodeError::UnknownAttributeTag(99), "decode: unknown attribute tag 99"),
        (DecodeError::InvalidPaddingValue(7), "decode: invalid padding value 7"),
        (DecodeError::UnknownTypeTag(300), "decode: unknown type tag 300"),
        (
            DecodeError::UnhandledOp(Opcode::Entry),
            "decode: op Entry not yet handled by the bytecode reader",
        ),
    ] {
        assert_eq!(err(kind), Error::BytecodeWrite(text.to_string()));
    }
}

// ---- container ----

#[test]
fn short_buffers_are_refused() {
    let whole = buffer((13, 3), &[(Section::String, string_table(&["a"]))]);
    assert!(decode_bytecode(&whole).is_ok());
    for n in 0..whole.len() {
        assert_eq!(refused(decode_bytecode(&whole[..n])), "decode: unexpected end of data");
        assert_eq!(refused(decode_module(&whole[..n])), "decode: unexpected end of data");
    }
    for n in 0..12 {
        assert!(bytecode_version(&whole[..n]).is_err());
    }
    // The version is read from the header alone.
    assert_eq!(bytecode_version(&whole[..12]), Ok(BytecodeVersion::v13_3()));
}

#[test]
fn bytes_after_the_end_are_ignored() {
    let mut data = buffer((13, 2), &[]);
    let text = decode_bytecode(&data).unwrap();
    data.extend([1, 2, 3]);
    assert_eq!(decode_bytecode(&data).unwrap(), text);
    assert!(decode_module(&data).unwrap().functions.is_empty());
}

#[test]
fn magic_and_padding_are_checked() {
    let mut data = buffer((13, 1), &[]);
    data[0] = 0;
    assert_eq!(refused(bytecode_version(&data)), "decode: invalid magic number");
    let mut data = MAGIC.to_vec();
    data.extend([13, 1, 0, 0, Section::String.id() | 0x80, 1, 8, 0xCC]);
    assert_eq!(
        refused(decode_bytecode(&data)),
        "decode: expected padding byte 0xCB, got 0xCC"
    );
}

#[test]
fn the_last_section_of_an_id_counts() {
    let data = buffer(
        (13, 1),
        &[
            (Section::String, string_table(&["first"])),
            (Section::Debug, vec![1, 2, 3]),
            (Section::String, string_table(&["second"])),
        ],
    );
    let dump = read_dump(&data).unwrap();
    assert_eq!(dump.strings, vec!["second"]);
    assert_eq!(dump.debug, Some(3));
    // An unknown section is passed over.
    let mut odd = MAGIC.to_vec();
    odd.extend([13, 1, 0, 0, 100, 2, 7, 7, 0]);
    assert_eq!(decode_bytecode(&odd).unwrap(), "TileIR bytecode v13.1\n\n");
}

#[test]
fn string_offsets_are_checked() {
    let mut bad = string_table(&["ab", "c"]);
    // The second offset goes past the data.
    bad[8] = 9;
    let data = buffer((13, 1), &[(Section::String, bad)]);
    assert_eq!(refused(decode_bytecode(&data)), "decode: string offset out of range");
    assert_eq!(refused(decode_module(&data)), "decode: string offset out of range");
}

#[test]
fn invalid_utf8_is_marked() {
    let strings = table(&[vec![0xFF, 0xFE], "é".as_bytes().to_vec()], 4);
    let data = buffer((13, 1), &[(Section::String, strings)]);
    let dump = read_dump(&data).unwrap();
    assert_eq!(dump.strings, vec!["<invalid utf8>", "é"]);
}

#[test]
fn strings_are_quoted_with_escapes() {
    let data = buffer((13, 1), &[(Section::String, string_table(&["a\"b\n\\", ""]))]);
    assert_eq!(
        decode_bytecode(&data).unwrap(),
        "TileIR bytecode v13.1\n\n=== Strings (2) ===\n  [0] \"a\\\"b\\n\\\\\"\n  [1] \"\"\n\n"
    );
    // What is shown of the strings is what is handed in.
    let dump = read_dump(&data).unwrap();
    let text = dump.render(&vec!["x".to_string()]);
    assert_eq!(text, "TileIR bytecode v13.1\n\n=== Strings (1) ===\n  [0] x\n\n");
}

#[test]
fn tables_out_of_range_are_found() {
    let good = kernel((13, 3), &op(Opcode::Return, &[0]));
    assert!(dump_tables_fit(&good));
    assert!(module_tables_fit(&good));
    let mut types = table(&kernel_types(), 4);
    types[8] = 200;
    let bad = buffer((13, 3), &[(Section::Type, types)]);
    assert!(!dump_tables_fit(&bad));
    // The types of a module are read one after the other.
    assert!(module_tables_fit(&bad));
    let mut constants = table(&[vec![1, 1], vec![1, 2]], 8);
    constants[16] = 200;
    let bad = buffer((13, 3), &[(Section::Constant, constants)]);
    assert!(!dump_tables_fit(&bad));
    assert!(!module_tables_fit(&bad));
}

// ---- text of the sections ----

#[test]
fn whole_dump() {
    let data = buffer(
        (13, 3),
        &[
            (
                Section::Func,
                cat(&[
                    &[2],
                    &function(0, 3, 2, &[72, 0]),
                    &hinted_function(9, 9, 1, &varints(&[HINTS, 0]), &[]),
                ]),
            ),
            (Section::Global, cat(&[&[2], &varints(&[1, 1, 0, 16, 1, 1, 7, 0, 1, 8, 0, 0])])),
            (Section::Constant, table(&[vec![1, 2, 3], vec![]], 8)),
            (Section::Type, table(&kernel_types(), 4)),
            (Section::String, string_table(&["k", "g"])),
            (Section::Debug, vec![0; 5]),
        ],
    );
    assert_eq!(
        decode_bytecode(&data).unwrap(),
        "TileIR bytecode v13.3\n\n\
         === Strings (2) ===\n  [0] \"k\"\n  [1] \"g\"\n\n\
         === Types (4) ===\n  [0] i32\n  [1] f32\n  [2] tile<4xf32>\n  \
         [3] (tile<4xf32>, tile<4xf32>) -> ()\n\n\
         === Constants (2) ===\n  [0] 3 bytes\n  [1] 0 bytes\n\n\
         === Globals (2) ===\n  @g : f32 = const[0], align 16, private, constant=true\n  \
         @? : i32 = const[1], align 8, public, constant=false\n\n\
         === Functions (2) ===\n  entry @k : (tile<4xf32>, tile<4xf32>) -> ()\n    \
         body: 2 bytes, ~2 ops\n\n  func @? : ?\n    body: 0 bytes, ~0 ops\n    \
         [has optimization_hints]\n\n\
         === Debug (5 bytes) ===\n"
    );
}

#[test]
fn hints_are_passed_over() {
    let strings = vec!["k".to_string()];
    let types = vec!["() -> ()".to_string()];
    let show = |hints: &[u8]| {
        let data = cat(&[&[1], &hinted_function(0, 0, 2, hints, &[0xAA])]);
        parse_func_section(&data, &strings, &types)
    };
    let text = "  entry @k : () -> ()\n    body: 1 bytes, ~1 ops\n    [has optimization_hints]\n";
    assert_eq!(show(&varints(&[HINTS, 0])), Ok(vec![text.to_string()]));
    // Every kind of attribute is passed over, though its tables are not there.
    let integer = varints(&[AttributeTag::Integer.tag(), 90, 1 << 40]);
    let float = cat(&[&varints(&[AttributeTag::Float.tag(), 91]), &signed(-7)]);
    let flag = cat(&[&varint(AttributeTag::Bool.tag()), &[1]]);
    let ty = varints(&[AttributeTag::Type.tag(), 300]);
    let string = varints(&[AttributeTag::String.tag(), 301]);
    let dense = varints(&[AttributeTag::DenseElements.tag(), 3, 4]);
    let div = cat(&[&varints(&[AttributeTag::DivBy.tag(), 16]), &[3], &signed(-1), &signed(99)]);
    let same = cat(&[&varint(AttributeTag::SameElements.tag()), &i64s(&[1, -1])]);
    let bounded = cat(&[&varint(AttributeTag::Bounded.tag()), &[2], &signed(70)]);
    let array = cat(&[&varints(&[AttributeTag::Array.tag(), 2]), &integer, &flag]);
    let dictionary = cat(&[&varints(&[DICTIONARY, 2, 7]), &array, &varint(8), &float]);
    let hints = cat(&[
        &varints(&[HINTS, 2, 5, DICTIONARY, 1, 6]),
        &dictionary,
        &varints(&[5, DICTIONARY, 2, 6]),
        &integer,
        &varint(6),
        &same,
    ]);
    for a in [&integer, &float, &flag, &ty, &string, &dense, &div, &same, &bounded, &array] {
        assert_eq!(show(a), Ok(vec![text.to_string()]));
    }
    assert_eq!(show(&dictionary), Ok(vec![text.to_string()]));
    assert_eq!(show(&hints), Ok(vec![text.to_string()]));
    // What is no attribute is refused.
    assert_eq!(show(&varint(99)), Err(DecodeError::UnknownAttributeTag(99)));
    assert_eq!(show(&varints(&[HINTS, 1, 0, 1])), Err(DecodeError::HintsEntryTag));
    assert_eq!(show(&varints(&[AttributeTag::Array.tag(), 9])), Err(DecodeError::UnexpectedEnd));
}

#[test]
fn hints_of_a_kernel_are_read_and_shown() {
    let hints = cat(&[
        &varints(&[HINTS, 1, 1, DICTIONARY, 1, 1]),
        &varints(&[AttributeTag::Integer.tag(), 0, 4]),
    ]);
    let body = op(Opcode::Return, &[0]);
    let data = buffer(
        (13, 3),
        &[
            (Section::String, string_table(&["k", "hint"])),
            (Section::Type, table(&kernel_types(), 4)),
            (Section::Func, cat(&[&[1], &hinted_function(0, 3, 2, &hints, &body)])),
        ],
    );
    let text = decode_bytecode(&data).unwrap();
    assert!(text.contains("body: 2 bytes, ~2 ops\n    [has optimization_hints]\n"));
    assert_eq!(decode_module(&data).unwrap().functions.len(), 1);
}

// ---- sections ----

fn kernel_sections() -> Vec<(Section, Vec<u8>)> {
    vec![
        (Section::String, string_table(&["k", "hint"])),
        (Section::Type, table(&kernel_types(), 4)),
        (Section::Constant, table(&[vec![4, 1, 2, 3, 4], vec![9, 1]], 8)),
        (Section::Func, cat(&[&[1], &function(0, 3, 2, &op(Opcode::Return, &[0]))])),
    ]
}

#[test]
fn order_of_sections_does_not_matter() {
    let sections = kernel_sections();
    let text = decode_bytecode(&buffer((13, 3), &sections)).unwrap();
    let ops = decode_module(&buffer((13, 3), &sections)).unwrap().ops.len();
    let mut other = sections.clone();
    other.reverse();
    other.swap(0, 2);
    // A section that a later one takes the place of, and one with no assigned number.
    other.insert(0, (Section::Func, vec![0xFF, 0xFF]));
    let mut data = buffer((13, 3), &other);
    data.pop();
    data.extend(cat(&[&[100], &varint(3), &[1, 2, 3], &[0]]));
    // What stands behind the end marker.
    data.extend([9, 9, 9]);
    assert_eq!(decode_bytecode(&data).unwrap(), text);
    assert_eq!(decode_module(&data).unwrap().ops.len(), ops);
}

/// A number with one digit more than it needs.
fn long(v: u64) -> Vec<u8> {
    let mut out = varint(v);
    let last = out.len() - 1;
    out[last] |= 0x80;
    out.push(0);
    out
}

#[test]
fn framing_may_be_written_at_length() {
    let sections = kernel_sections();
    let plain = buffer((13, 3), &sections);
    let mut data = MAGIC.to_vec();
    data.extend([13, 3, 0, 0]);
    for (i, (section, payload)) in sections.iter().enumerate() {
        if i % 2 == 0 {
            data.push(section.id());
            data.extend(long(payload.len() as u64));
        } else {
            data.push(section.id() | 0x80);
            data.extend(long(payload.len() as u64));
            data.extend(long(8));
            while data.len() % 8 != 0 {
                data.push(0xCB);
            }
        }
        data.extend(payload);
    }
    data.push(0);
    assert_ne!(data, plain);
    assert_eq!(decode_bytecode(&data).unwrap(), decode_bytecode(&plain).unwrap());
    assert_eq!(decode_module(&data).unwrap(), decode_module(&plain).unwrap());
}

#[test]
fn no_prefix_is_accepted() {
    let data = buffer((13, 3), &kernel_sections());
    assert!(decode_bytecode(&data).is_ok());
    for k in 0..data.len() {
        assert!(dump_tables_fit(&data[..k]) && module_tables_fit(&data[..k]));
        assert!(decode_bytecode(&data[..k]).is_err());
        assert!(decode_module(&data[..k]).is_err());
    }
}

// ---- versions ----

#[test]
fn defaults_of_later_versions_decode_the_same() {
    // The type of the result, the added number where there is one, and the operands.
    let cases = [
        (Opcode::NegI, vec![2], 0, vec![0]),
        (Opcode::TanH, vec![2], 5, vec![0]),
        (Opcode::Exp, vec![2], 5, vec![0]),
        (Opcode::MmaF, vec![2], 0, vec![0, 1, 0]),
    ];
    let end = op(Opcode::Return, &[0]);
    for (code, results, default, operands) in cases {
        let mut plain: Vec<u64> = results.clone();
        plain.extend(&operands);
        let mut added: Vec<u64> = results;
        added.push(default);
        added.extend(&operands);
        let old_op = body_module((13, 1), &cat(&[&op(code, &plain), &end])).ops.remove(0);
        let new_op = body_module((13, 3), &cat(&[&op(code, &added), &end])).ops.remove(0);
        assert_eq!(old_op.opcode, new_op.opcode);
        assert_eq!(old_op.attributes, new_op.attributes);
        assert_eq!(old_op.operands, new_op.operands);
        assert!(old_op.attributes.is_empty());
        // Another value is kept.
        let mut other = added.clone();
        other[1] = default + 1;
        let kept = body_module((13, 3), &cat(&[&op(code, &other), &end])).ops.remove(0);
        assert_eq!(kept.attributes.len(), 1);
    }
}

#[test]
fn nested_defaults_may_be_written_at_length() {
    let code = |c: Opcode| long(c.code() as u64);
    // A loop over one region with one block: a negation, an exponential, a product, a
    // tangent and a text, none of whose numbers but the operands are as short as can be.
    let body = |newer: bool| {
        let added = |v: u64| if newer { long(v) } else { Vec::new() };
        cat(&[
            &code(Opcode::For),
            &long(0),
            &added(0),
            &long(3),
            &varints(&[0, 1, 0]),
            &long(1),
            &long(1),
            &long(0),
            &long(5),
            &code(Opcode::NegI),
            &long(2),
            &added(0),
            &long(0),
            &code(Opcode::Exp),
            &long(2),
            &added(5),
            &long(2),
            &code(Opcode::MmaF),
            &long(2),
            &added(0),
            &varints(&[0, 1, 3]),
            &code(Opcode::TanH),
            &long(2),
            &added(5),
            &long(4),
            &code(Opcode::Print),
            &added(0),
            &long(1),
            &long(1),
            &long(5),
            &op(Opcode::Return, &[0]),
        ])
    };
    let older = body_module((13, 1), &body(false));
    let newer = body_module((13, 3), &body(true));
    assert_eq!(older, newer);
    assert_eq!(older.ops.len(), 8);
    assert_eq!(older.ops[3].operands, vec![Value(4)]);
    // The same bytes in the other version are something else.
    assert!(decode_module(&kernel((13, 3), &body(false))).is_err());
}

#[test]
fn globals_of_older_versions_are_shorter() {
    let global = cat(&[&[1], &varints(&[0, 0, 0, 4])]);
    let sections = [(Section::Global, global)];
    let text = decode_bytecode(&buffer((13, 2), &sections)).unwrap();
    assert!(text.contains("=== Globals (1) ===\n  @? : ? = const[0], align 4\n\n"));
    assert_eq!(
        refused(decode_bytecode(&buffer((13, 3), &sections))),
        "decode: unexpected end of data"
    );
}

#[test]
fn type_entry_texts() {
    let prev: Vec<String> =
        ["f32", "tv"].iter().map(|s| s.to_string()).collect();
    let v1 = BytecodeVersion::v13_1();
    let v3 = BytecodeVersion::v13_3();
    let show = |bytes: &[u8], version| decode_type_entry(bytes, &prev, version);
    assert_eq!(show(&[], v3), "<read error>");
    assert_eq!(show(&varint(99), v3), "<unknown type tag 99>");
    assert_eq!(show(&varint(256 + 99), v3), "<unknown type tag 99>");
    assert_eq!(show(&varint(TypeTag::Token.tag()), v3), "token");
    assert_eq!(show(&varints(&[TypeTag::Pointer.tag(), 0]), v3), "ptr<f32>");
    assert_eq!(show(&varints(&[TypeTag::Pointer.tag(), 5]), v3), "ptr<?>");
    assert_eq!(show(&varints(&[TypeTag::Tile.tag(), 0, 0]), v3), "tile<f32>");
    assert_eq!(
        show(&cat(&[&varints(&[TypeTag::Tile.tag(), 0]), &i64s(&[4, -8])]), v3),
        "tile<4x-8xf32>"
    );
    // What is missing counts as zero.
    assert_eq!(show(&varints(&[TypeTag::Tile.tag(), 0, 2]), v3), "tile<0x0xf32>");
    assert_eq!(
        show(
            &cat(&[
                &varints(&[TypeTag::TensorView.tag(), 0]),
                &i64s(&[i64::MIN, 8]),
                &i64s(&[i64::MIN, 1]),
            ]),
            v3
        ),
        "tensor_view<?x8xf32, strides=[?,1]>"
    );
    let partition = cat(&[&i32s(&[4, 4]), &[1], &i32s(&[0, 1])]);
    let tag = varint(TypeTag::PartitionView.tag());
    assert_eq!(
        show(&cat(&[&tag, &[1], &partition, &[2]]), v3),
        "partition_view<tile=(4x4), tv=tv, padding=2>"
    );
    assert_eq!(
        show(&cat(&[&tag, &[0], &partition]), v3),
        "partition_view<tile=(4x4), tv=tv>"
    );
    assert_eq!(
        show(&cat(&[&tag, &partition, &[1], &varint(300)]), v1),
        "partition_view<tile=(4x4), tv=tv, padding=300>"
    );
    assert_eq!(
        show(&cat(&[&tag, &partition, &[0]]), v1),
        "partition_view<tile=(4x4), tv=tv>"
    );
    assert_eq!(
        show(
            &cat(&[
                &varints(&[TypeTag::GatherScatterView.tag(), 1]),
                &i32s(&[4]),
                &[1, 0, 3],
            ]),
            v3
        ),
        "gather_scatter_view<tile=(4), tv=tv, sparse_dim=0, padding=3>"
    );
    assert_eq!(
        show(
            &cat(&[
                &varints(&[TypeTag::StridedView.tag(), 0]),
                &i32s(&[4]),
                &i32s(&[2]),
                &[1],
                &i32s(&[0]),
            ]),
            v3
        ),
        "strided_view<tile=(4), traversal_strides=[2], tv=tv, dim_map=[0]>"
    );
    assert_eq!(
        show(&varints(&[TypeTag::Func.tag(), 2, 0, 7, 1, 1]), v3),
        "(f32, ?) -> (tv)"
    );
}

// ---- types ----

fn one_type_error(entries: &[Vec<u8>], version: BytecodeVersion) -> DecodeError {
    decode_types_seq(&entries.concat(), entries.len() as u64, version).unwrap_err()
}

#[test]
fn type_errors() {
    let v3 = BytecodeVersion::v13_3();
    let f32_entry = varint(TypeTag::F32.tag());
    let token = varint(TypeTag::Token.tag());
    let tile = |elem| cat(&[&varints(&[TypeTag::Tile.tag(), elem]), &i64s(&[4])]);
    let view = |elem| {
        cat(&[&varints(&[TypeTag::TensorView.tag(), elem]), &i64s(&[4]), &i64s(&[1])])
    };
    let partition = |tv: u64, padding: u8| {
        cat(&[
            &varints(&[TypeTag::PartitionView.tag(), 1]),
            &i32s(&[4]),
            &varint(tv),
            &i32s(&[0]),
            &[padding],
        ])
    };
    assert_eq!(one_type_error(&[varint(23)], v3), DecodeError::UnknownTypeTag(23));
    assert_eq!(
        one_type_error(&[token.clone(), varints(&[TypeTag::Pointer.tag(), 0])], v3),
        DecodeError::PointeeNotScalar
    );
    assert_eq!(one_type_error(&[token.clone(), tile(0)], v3), DecodeError::TileElement);
    assert_eq!(one_type_error(&[tile(0)], v3), DecodeError::TileElement);
    assert_eq!(one_type_error(&[token.clone(), view(0)], v3), DecodeError::TensorViewElement);
    assert_eq!(
        one_type_error(&[f32_entry.clone(), partition(0, 0)], v3),
        DecodeError::NotATensorView
    );
    assert_eq!(
        one_type_error(&[f32_entry.clone(), view(0), partition(1, 5)], v3),
        DecodeError::InvalidPaddingValue(5)
    );
    assert_eq!(
        one_type_error(&[varints(&[TypeTag::Func.tag(), 1, 0, 0])], v3),
        DecodeError::FuncInputIndex
    );
    assert_eq!(
        one_type_error(&[varints(&[TypeTag::Func.tag(), 0, 1, 0])], v3),
        DecodeError::FuncResultIndex
    );
    assert_eq!(one_type_error(&[vec![]], v3), DecodeError::UnexpectedEnd);

    let types = decode_types_seq(
        &[f32_entry, view(0), partition(1, 4)].concat(),
        3,
        v3,
    )
    .unwrap();
    match &types[2] {
        Type::PartitionView(p) => {
            assert_eq!(p.padding_value, Some(PaddingValue::NegInf));
            assert_eq!((p.tile_shape.clone(), p.dim_map.clone()), (vec![4], vec![0]));
            assert_eq!(p.tensor_view.element_type, ScalarType::F32);
        }
        other => panic!("{other:?}"),
    }
}

#[test]
fn older_partition_views_have_their_padding_behind() {
    let entries = cat(&[
        &varint(TypeTag::F32.tag()),
        &varints(&[TypeTag::TensorView.tag(), 0]),
        &i64s(&[4]),
        &i64s(&[1]),
        &varint(TypeTag::PartitionView.tag()),
        &i32s(&[4]),
        &[1],
        &i32s(&[0]),
        &[1, 2],
    ]);
    let types = decode_types_seq(&entries, 3, BytecodeVersion::v13_2()).unwrap();
    match &types[2] {
        Type::PartitionView(p) => assert_eq!(p.padding_value, Some(PaddingValue::Nan)),
        other => panic!("{other:?}"),
    }
}

#[test]
fn tags_of_scalars_and_paddings() {
    for tag in 0..30 {
        match (TypeTag::from_tag(tag), scalar_from_tag(tag)) {
            (Some(t), _) => assert_eq!(t.tag(), tag),
            (None, s) => assert_eq!(s, None),
        }
        if let Some(a) = AttributeTag::from_tag(tag) {
            assert_eq!(a.tag(), tag);
        }
    }
    assert_eq!(scalar_from_tag(TypeTag::I4.tag()), Some(ScalarType::I4));
    assert_eq!(scalar_from_tag(TypeTag::Token.tag()), None);
    let all = [
        PaddingValue::Zero,
        PaddingValue::NegZero,
        PaddingValue::Nan,
        PaddingValue::PosInf,
        PaddingValue::NegInf,
    ];
    for (i, p) in all.iter().enumerate() {
        assert_eq!(padding_from_u8(i as u8), Ok(*p));
    }
    assert!(FunctionFlag::KindKernel.is_set(2));
    assert!(!FunctionFlag::KindKernel.is_set(5));
    assert!(FunctionFlag::VisibilityPrivate.is_set(5));
    assert!(FunctionFlag::HasOptimizationHints.is_set(5));
}

#[test]
fn opcodes_are_found_again() {
    let mut n = 0;
    for code in 0..200 {
        if let Some(op) = Opcode::from_u16(code) {
            assert_eq!(op.code(), code);
            n += 1;
        }
    }
    assert_eq!(n, 98);
}

// ---- attributes ----

#[test]
fn attribute_errors() {
    let strings = vec!["s".to_string()];
    let types = vec![Type::Scalar(ScalarType::F32), Type::Scalar(ScalarType::I32), Type::Token];
    let constants = vec![vec![2u8, 7, 8], vec![5u8, 7]];
    let t = Tables { strings: &strings, types: &types, constants: &constants };
    let read = |bytes: &[u8]| read_self_contained_attribute(&mut Reader::new(bytes), &t);
    let tag = |a: AttributeTag, rest: &[u64]| cat(&[&varint(a.tag()), &varints(rest)]);
    assert_eq!(read(&varint(77)), Err(DecodeError::UnknownAttributeTag(77)));
    assert_eq!(read(&tag(AttributeTag::Integer, &[9])), Err(DecodeError::AttrTypeIndex));
    assert_eq!(read(&tag(AttributeTag::String, &[9])), Err(DecodeError::AttrStringIndex));
    assert_eq!(
        read(&tag(AttributeTag::Float, &[1, 0])),
        Err(DecodeError::NotAFloat(ScalarType::I32))
    );
    assert_eq!(
        read(&tag(AttributeTag::DenseElements, &[0, 9])),
        Err(DecodeError::DenseConstIndex)
    );
    assert_eq!(
        read(&tag(AttributeTag::DenseElements, &[0, 1])),
        Err(DecodeError::UnexpectedEnd)
    );
    assert_eq!(read(&tag(AttributeTag::Dictionary, &[1, 9])), Err(DecodeError::DictKeyIndex));
    assert_eq!(
        read(&tag(AttributeTag::OptimizationHints, &[1, 0, AttributeTag::Array.tag()])),
        Err(DecodeError::HintsEntryTag)
    );
    assert_eq!(
        read(&tag(AttributeTag::OptimizationHints, &[1, 9])),
        Err(DecodeError::AttrStringIndex)
    );
    match read(&tag(AttributeTag::DenseElements, &[0, 0])) {
        Ok(Attribute::DenseElements(e)) => {
            assert_eq!(e.data, vec![7, 8]);
            assert_eq!(e.element_type, Type::Scalar(ScalarType::F32));
            assert!(e.shape.is_empty());
        }
        other => panic!("{other:?}"),
    }
    // A float of a type that is no scalar is as wide as the widest.
    let wide = cat(&[&varints(&[AttributeTag::Float.tag(), 2]), &signed(-5)]);
    assert_eq!(read(&wide), Ok(Attribute::Float(-5i64 as u64, Type::Token)));
    // An integer keeps its 64 bits.
    assert_eq!(
        read(&tag(AttributeTag::Integer, &[1, u64::MAX])),
        Ok(Attribute::Integer(-1, Type::Scalar(ScalarType::I32)))
    );
}

// ---- operations ----

#[test]
fn body_errors() {
    let v3 = (13, 3);
    assert_eq!(body_error(v3, &varint(98)), "decode: unknown opcode in function body");
    assert_eq!(
        body_error(v3, &op(Opcode::NegF, &[9, 0])),
        "decode: result type index out of range"
    );
    assert_eq!(
        body_error(v3, &op(Opcode::NegF, &[2, 2])),
        "decode: operand value index out of range"
    );
    assert_eq!(
        body_error(v3, &op(Opcode::Assert, &[9, 0])),
        "decode: string index out of range"
    );
    assert_eq!(
        body_error(v3, &op(Opcode::Constant, &[2, 9])),
        "decode: constant index out of range"
    );
    // The second constant claims more bytes than it has.
    assert_eq!(body_error(v3, &op(Opcode::Constant, &[2, 1])), "decode: unexpected end of data");
    assert_eq!(
        body_error(v3, &op(Opcode::Entry, &[])),
        "decode: op Entry not yet handled by the bytecode reader"
    );
    // A loop with one region of one block, whose operation is unknown.
    assert_eq!(
        body_error(v3, &op(Opcode::Loop, &[0, 0, 1, 1, 0, 1, 99])),
        "decode: unknown opcode in block"
    );
    // A view load whose hints name an unknown string, and one whose hint is no dictionary.
    assert_eq!(
        body_error(v3, &op(Opcode::LoadViewTko, &[2, 2, 2, 0, 1, 9])),
        "decode: opt-hints arch index out of range"
    );
    assert_eq!(
        body_error(
            v3,
            &op(Opcode::LoadViewTko, &[2, 2, 2, 0, 1, 1, AttributeTag::Bool.tag(), 1])
        ),
        "decode: opt-hints entry value is not a dictionary"
    );
}

#[test]
fn function_errors() {
    let strings = (Section::String, string_table(&["k"]));
    let types = (Section::Type, table(&kernel_types(), 4));
    let with = |f: Vec<u8>| {
        refused(decode_module(&buffer(
            (13, 3),
            &[strings.clone(), types.clone(), (Section::Func, cat(&[&[1], &f]))],
        )))
    };
    assert_eq!(with(function(5, 3, 2, &[])), "decode: func name index out of range");
    assert_eq!(with(function(0, 9, 2, &[])), "decode: func sig index out of range");
    assert_eq!(with(function(0, 1, 2, &[])), "decode: function signature is not a func type");
}

#[test]
fn operations_take_their_fields_in_order() {
    let body = cat(&[
        &op(Opcode::Constant, &[2, 0]),
        &op(Opcode::AddF, &[2, 1, 3, 0, 2]),
        &op(Opcode::MaxF, &[2, 3, 3, 1]),
        &op(Opcode::Assert, &[1, 4]),
        &op(Opcode::Return, &[0]),
    ]);
    let m = body_module((13, 3), &body);
    assert_eq!(m.functions.len(), 1);
    let entry = &m.ops[m.functions[0].0];
    assert_eq!(entry.opcode, Opcode::Entry);
    assert_eq!(entry.attributes[0], ("sym_name".to_string(), Attribute::String("k".to_string())));
    let block = m.regions[entry.regions[0].0].blocks[0];
    let ops: Vec<_> = m.blocks[block.0].ops.iter().map(|id| &m.ops[id.0]).collect();
    assert_eq!(
        ops.iter().map(|o| o.opcode).collect::<Vec<_>>(),
        vec![Opcode::Constant, Opcode::AddF, Opcode::MaxF, Opcode::Assert, Opcode::Return]
    );
    match &ops[0].attributes[0] {
        (name, Attribute::DenseElements(e)) => {
            assert_eq!(name, "value");
            assert_eq!(e.data, vec![1, 2, 3, 4]);
            assert_eq!(e.element_type, Type::Scalar(ScalarType::F32));
        }
        other => panic!("{other:?}"),
    }
    assert_eq!(
        ops[1].attributes,
        named(vec![("rounding_mode", int_attr(3)), ("flush_to_zero", Attribute::Bool(true))])
    );
    assert_eq!(
        ops[2].attributes,
        named(vec![
            ("propagate_nan", Attribute::Bool(true)),
            ("flush_to_zero", Attribute::Bool(true)),
        ])
    );
    assert_eq!(ops[3].attributes, named(vec![("message", Attribute::String("hint".to_string()))]));
    assert_eq!(ops[0].results, vec![Value(2)]);
    assert_eq!(ops[1].operands, vec![Value(0), Value(2)]);
    assert_eq!(ops[2].operands, vec![Value(3), Value(1)]);
    assert!(ops[3].results.is_empty());
}

#[test]
fn fields_follow_the_version() {
    let attributes = |version, body: &[u8]| {
        let m = body_module(version, body);
        let block = m.regions[m.ops[m.functions[0].0].regions[0].0].blocks[0];
        m.ops[m.blocks[block.0].ops[0].0].attributes.iter().map(|(n, _)| n.clone()).collect::<Vec<_>>()
    };
    // The overflow of a negation came with 13.2, and zero is left out.
    assert_eq!(attributes((13, 2), &op(Opcode::NegI, &[2, 1, 0])), vec!["overflow"]);
    assert!(attributes((13, 2), &op(Opcode::NegI, &[2, 0, 0])).is_empty());
    assert!(attributes((13, 1), &op(Opcode::NegI, &[2, 0])).is_empty());
    // The rounding mode of the hyperbolic tangent came with 13.2, of the exponential with
    // 13.3; five is left out.
    assert_eq!(attributes((13, 2), &op(Opcode::TanH, &[2, 1, 0])), vec!["rounding_mode"]);
    assert!(attributes((13, 2), &op(Opcode::TanH, &[2, 5, 0])).is_empty());
    assert!(attributes((13, 2), &op(Opcode::Exp, &[2, 0])).is_empty());
    assert_eq!(attributes((13, 3), &op(Opcode::Exp, &[2, 1, 0])), vec!["rounding_mode"]);
    assert!(attributes((13, 2), &op(Opcode::MmaF, &[2, 0, 0, 1])).is_empty());
    assert_eq!(attributes((13, 3), &op(Opcode::MmaF, &[2, 1, 0, 0, 1])), vec!["fast_acc"]);
    assert_eq!(attributes((13, 1), &op(Opcode::Print, &[1, 0])), vec!["str"]);
    assert_eq!(attributes((13, 2), &op(Opcode::Print, &[0, 1, 0])), vec!["str"]);
}

#[test]
fn grouped_operands_keep_their_sizes() {
    // A pointer store with a mask and no token.
    let body = op(Opcode::StorePtrTko, &[0, 5, 2, 7, 0, 1, 0]);
    let m = body_module((13, 3), &body);
    let store = &m.ops[0];
    assert_eq!(store.opcode, Opcode::StorePtrTko);
    assert_eq!(store.operands, vec![Value(0), Value(1), Value(0)]);
    assert_eq!(
        store.attributes,
        named(vec![
            ("memory_ordering_semantics", int_attr(2)),
            ("memory_scope", int_attr(7)),
            ("operandSegmentSizes", Attribute::Array(vec![int_attr(1), int_attr(1), int_attr(1), int_attr(0)])),
        ])
    );
    // A tensor view of a base, one extent and two strides.
    let m = body_module((13, 3), &op(Opcode::MakeTensorView, &[2, 0, 1, 1, 2, 0, 1]));
    assert_eq!(m.ops[0].operands, vec![Value(0), Value(1), Value(0), Value(1)]);
    assert_eq!(
        m.ops[0].attributes,
        named(vec![(
            "operandSegmentSizes",
            Attribute::Array(vec![int_attr(1), int_attr(1), int_attr(2)])
        )])
    );
}

#[test]
fn values_of_a_block_end_with_it() {
    // An if with two regions. The first block has an argument and negates it; the values of
    // the block are gone in the second block, where place 2 is out of range.
    let first = cat(&[&[1, 1, 2, 2], &op(Opcode::NegF, &[2, 2]), &op(Opcode::Yield, &[1, 3])]);
    let second = cat(&[&[1, 0, 1], &op(Opcode::Yield, &[1, 1])]);
    let head = op(Opcode::If, &[1, 2, 0, 2]);
    let m = body_module(
        (13, 3),
        &cat(&[&head, &first, &second, &op(Opcode::NegF, &[2, 2])]),
    );
    let block = m.regions[m.ops[m.functions[0].0].regions[0].0].blocks[0];
    let ops: Vec<_> = m.blocks[block.0].ops.iter().map(|id| &m.ops[id.0]).collect();
    assert_eq!(ops[0].opcode, Opcode::If);
    assert_eq!(ops[0].regions, vec![RegionId(1), RegionId(2)]);
    assert_eq!(m.regions[1].blocks, vec![BlockId(1)]);
    assert_eq!(m.blocks[1].args, vec![Value(2)]);
    // The result of the if takes the place of the argument of the block.
    assert_eq!(ops[1].operands, ops[0].results);
    let second = cat(&[&[1, 0, 1], &op(Opcode::Yield, &[1, 2])]);
    assert_eq!(
        body_error((13, 3), &cat(&[&head, &first, &second])),
        "decode: operand value index out of range"
    );
}

#[test]
fn hints_of_a_function_are_kept() {
    let hints = cat(&[
        &varints(&[AttributeTag::OptimizationHints.tag(), 1, 1]),
        &varints(&[AttributeTag::Dictionary.tag(), 1, 0]),
        &[AttributeTag::Bool.tag() as u8, 1],
    ]);
    let body = op(Opcode::Return, &[0]);
    let f = cat(&[&varints(&[0, 3]), &[6, 0], &hints, &varint(body.len() as u64), &body]);
    let data = buffer(
        (13, 3),
        &[
            (Section::String, string_table(&["k", "sm_90"])),
            (Section::Type, table(&kernel_types(), 4)),
            (Section::Func, cat(&[&[1], &f])),
        ],
    );
    let m = decode_module(&data).unwrap();
    let (name, value) = &m.ops[m.functions[0].0].attributes[2];
    assert_eq!(name, "optimization_hints");
    match value {
        Attribute::OptimizationHints(h) => {
            assert_eq!(h.entries[0].0, "sm_90");
            assert_eq!(h.entries[0].1, named(vec![("k", Attribute::Bool(true))]));
        }
        other => panic!("{other:?}"),
    }
}

#[test]
fn decoded_modules_are_closed() {
    let body = cat(&[
        &op(Opcode::Constant, &[2, 0]),
        &op(Opcode::AddF, &[2, 0, 3, 0, 2]),
        &op(Opcode::Return, &[0]),
    ]);
    let m = body_module((13, 3), &body);
    for o in &m.ops {
        assert!(o.operands.iter().chain(&o.results).all(|v| v.0 < m.values.len()));
        assert!(o.regions.iter().all(|r| r.0 < m.regions.len()));
    }
    for b in &m.blocks {
        assert!(b.args.iter().all(|v| v.0 < m.values.len()));
        assert!(b.ops.iter().all(|o| o.0 < m.ops.len()));
    }
    for r in &m.regions {
        assert!(r.blocks.iter().all(|b| b.0 < m.blocks.len()));
    }
    assert!(m.functions.iter().all(|f| f.0 < m.ops.len()));
}
