//! The sections of a buffer as text.
//!
//! The text of a type entry is made from whatever can be read of it: a number that
//! cannot be read counts as zero, and reading goes on from where it failed.

use vstd::prelude::*;
use vstd::string::StringExecFns;

use crate::bytecode::enums;
use crate::bytecode::enums::{BytecodeVersion, FunctionFlag, TypeTag};
use crate::bytecode::reader;
use crate::bytecode::reader::{Reader, Step};
use crate::bytecode::sections;
use crate::bytecode::sections::{entry_slice, read_offset_table};
use crate::bytecode::skip;
use crate::error::DecodeError;
use crate::ir::DYNAMIC;
use crate::text;
use crate::text::{push_bool, push_dec, push_int};

verus! {

/// A variable-length integer and the position behind it; zero where it cannot be
/// read.
pub open spec fn varint_or_zero(d: Seq<u8>, p: int) -> (u64, int) {
    match reader::varint_at(d, p) {
        (Ok(v), q) => (v, q),
        (Err(_), q) => (0, q),
    }
}

/// A byte and the position behind it; zero where it cannot be read.
pub open spec fn byte_or_zero(d: Seq<u8>, p: int) -> (u8, int) {
    match reader::byte_at(d, p) {
        (Ok(v), q) => (v, q),
        (Err(_), q) => (0, q),
    }
}

/// `n` little-endian `i64`s behind those in `acc`, zero where they cannot be read.
pub open spec fn i64s_or_zero(d: Seq<u8>, p: int, n: nat, acc: Seq<i64>) -> (Seq<i64>, int)
    decreases n,
{
    if n == 0 {
        (acc, p)
    } else {
        match reader::le_i64_at(d, p) {
            (Ok(v), q) => i64s_or_zero(d, q, (n - 1) as nat, acc.push(v)),
            (Err(_), q) => i64s_or_zero(d, q, (n - 1) as nat, acc.push(0)),
        }
    }
}

/// `n` little-endian `i32`s behind those in `acc`, zero where they cannot be read.
pub open spec fn i32s_or_zero(d: Seq<u8>, p: int, n: nat, acc: Seq<i32>) -> (Seq<i32>, int)
    decreases n,
{
    if n == 0 {
        (acc, p)
    } else {
        match reader::le_i32_at(d, p) {
            (Ok(v), q) => i32s_or_zero(d, q, (n - 1) as nat, acc.push(v)),
            (Err(_), q) => i32s_or_zero(d, q, (n - 1) as nat, acc.push(0)),
        }
    }
}

/// A count and as many `i64`s.
pub open spec fn var_i64s_or_zero(d: Seq<u8>, p: int) -> (Seq<i64>, int) {
    let (n, q) = varint_or_zero(d, p);
    i64s_or_zero(d, q, n as nat, Seq::empty())
}

/// A count and as many `i32`s.
pub open spec fn var_i32s_or_zero(d: Seq<u8>, p: int) -> (Seq<i32>, int) {
    let (n, q) = varint_or_zero(d, p);
    i32s_or_zero(d, q, n as nat, Seq::empty())
}

/// The text at an index, or a question mark.
pub open spec fn name_at(names: Seq<Seq<char>>, i: u64) -> Seq<char> {
    if i < names.len() {
        names[i as int]
    } else {
        "?"@
    }
}

/// An index and the text it names.
pub open spec fn name_ref_at(d: Seq<u8>, p: int, names: Seq<Seq<char>>) -> (Seq<char>, int) {
    let (i, q) = varint_or_zero(d, p);
    (name_at(names, i), q)
}

/// `n` indices and the texts they name, behind those in `acc`.
pub open spec fn name_refs_at(
    d: Seq<u8>,
    p: int,
    names: Seq<Seq<char>>,
    n: nat,
    acc: Seq<Seq<char>>,
) -> (Seq<Seq<char>>, int)
    decreases n,
{
    if n == 0 {
        (acc, p)
    } else {
        let (name, q) = name_ref_at(d, p, names);
        name_refs_at(d, q, names, (n - 1) as nat, acc.push(name))
    }
}

/// A count and as many indices, as the texts they name.
pub open spec fn var_name_refs_at(d: Seq<u8>, p: int, names: Seq<Seq<char>>) -> (
    Seq<Seq<char>>,
    int,
) {
    let (n, q) = varint_or_zero(d, p);
    name_refs_at(d, q, names, n as nat, Seq::empty())
}

/// Texts one behind the other, with a separator between them.
pub open spec fn join(parts: Seq<Seq<char>>, sep: Seq<char>) -> Seq<char>
    decreases parts.len(),
{
    if parts.len() == 0 {
        Seq::empty()
    } else if parts.len() == 1 {
        parts[0]
    } else {
        join(parts.drop_last(), sep) + sep + parts.last()
    }
}

/// The decimal notations of `i64`s.
pub open spec fn i64_texts(s: Seq<i64>) -> Seq<Seq<char>> {
    Seq::new(s.len(), |i: int| text::int_text(s[i] as int))
}

/// The decimal notations of `i32`s.
pub open spec fn i32_texts(s: Seq<i32>) -> Seq<Seq<char>> {
    Seq::new(s.len(), |i: int| text::int_text(s[i] as int))
}

/// An extent or stride, a question mark where it is known only at run time.
pub open spec fn extent_text(v: i64) -> Seq<char> {
    if v == DYNAMIC {
        "?"@
    } else {
        text::int_text(v as int)
    }
}

/// Extents or strides as text.
pub open spec fn extent_texts(s: Seq<i64>) -> Seq<Seq<char>> {
    Seq::new(s.len(), |i: int| extent_text(s[i]))
}

/// The padding value behind a type entry, as text.
pub open spec fn padding_text(d: Seq<u8>, p: int, present: bool) -> Seq<char> {
    if present {
        ", padding="@ + text::dec_text(byte_or_zero(d, p).0 as nat)
    } else {
        Seq::empty()
    }
}

/// The text of a tile type behind its tag.
pub open spec fn tile_text(d: Seq<u8>, p: int, prev: Seq<Seq<char>>) -> Seq<char> {
    let (elem, q) = name_ref_at(d, p, prev);
    let shape = join(i64_texts(var_i64s_or_zero(d, q).0), "x"@);
    if shape.len() == 0 {
        "tile<"@ + elem + ">"@
    } else {
        "tile<"@ + shape + "x"@ + elem + ">"@
    }
}

/// The text of a tensor view behind its tag.
pub open spec fn tensor_view_text(d: Seq<u8>, p: int, prev: Seq<Seq<char>>) -> Seq<char> {
    let (elem, q) = name_ref_at(d, p, prev);
    let (shape, q) = var_i64s_or_zero(d, q);
    let (strides, _) = var_i64s_or_zero(d, q);
    "tensor_view<"@ + join(extent_texts(shape), "x"@) + "x"@ + elem + ", strides=["@ + join(
        extent_texts(strides),
        ","@,
    ) + "]>"@
}

/// The padding of a partition view, as text: announced by the flags from version
/// 13.3 on, by a byte of its own before.
pub open spec fn partition_padding_text(d: Seq<u8>, p: int, flags: Option<u64>) -> Seq<char> {
    match flags {
        Some(flags) => padding_text(d, p, flags % 2 == 1),
        None => {
            let (present, q) = byte_or_zero(d, p);
            if present != 0 {
                ", padding="@ + text::dec_text(varint_or_zero(d, q).0 as nat)
            } else {
                Seq::empty()
            }
        },
    }
}

/// The text of a partition view behind its tag and its flags.
pub open spec fn partition_body_text(
    d: Seq<u8>,
    p: int,
    prev: Seq<Seq<char>>,
    flags: Option<u64>,
) -> Seq<char> {
    let (shape, q) = var_i32s_or_zero(d, p);
    let (view, q) = name_ref_at(d, q, prev);
    let (_, q) = var_i32s_or_zero(d, q);
    "partition_view<tile=("@ + join(i32_texts(shape), "x"@) + "), tv="@ + view
        + partition_padding_text(d, q, flags) + ">"@
}

/// The text of a partition view behind its tag.
pub open spec fn partition_view_text(
    d: Seq<u8>,
    p: int,
    prev: Seq<Seq<char>>,
    version: BytecodeVersion,
) -> Seq<char> {
    if version.rank() >= BytecodeVersion::v13_3().rank() {
        let (flags, q) = varint_or_zero(d, p);
        partition_body_text(d, q, prev, Some(flags))
    } else {
        partition_body_text(d, p, prev, None)
    }
}

/// The text of a gather/scatter view behind its tag.
pub open spec fn gather_scatter_text(d: Seq<u8>, p: int, prev: Seq<Seq<char>>) -> Seq<char> {
    let (flags, q) = varint_or_zero(d, p);
    let (shape, q) = var_i32s_or_zero(d, q);
    let (view, q) = name_ref_at(d, q, prev);
    let (dim, q) = varint_or_zero(d, q);
    "gather_scatter_view<tile=("@ + join(i32_texts(shape), "x"@) + "), tv="@ + view
        + ", sparse_dim="@ + text::dec_text(dim as nat) + padding_text(d, q, flags % 2 == 1)
        + ">"@
}

/// The text of a strided view behind its tag.
pub open spec fn strided_view_text(d: Seq<u8>, p: int, prev: Seq<Seq<char>>) -> Seq<char> {
    let (flags, q) = varint_or_zero(d, p);
    let (shape, q) = var_i32s_or_zero(d, q);
    let (strides, q) = var_i32s_or_zero(d, q);
    let (view, q) = name_ref_at(d, q, prev);
    let (dim_map, q) = var_i32s_or_zero(d, q);
    "strided_view<tile=("@ + join(i32_texts(shape), "x"@) + "), traversal_strides=["@ + join(
        i32_texts(strides),
        ","@,
    ) + "], tv="@ + view + ", dim_map=["@ + join(i32_texts(dim_map), ","@) + "]"@ + padding_text(
        d,
        q,
        flags % 2 == 1,
    ) + ">"@
}

/// The text of a function type behind its tag.
pub open spec fn func_text(d: Seq<u8>, p: int, prev: Seq<Seq<char>>) -> Seq<char> {
    let (inputs, q) = var_name_refs_at(d, p, prev);
    let (results, _) = var_name_refs_at(d, q, prev);
    "("@ + join(inputs, ", "@) + ") -> ("@ + join(results, ", "@) + ")"@
}

/// The text of a type entry; `prev` are the texts of the entries before it. Of the
/// tag the low eight bits count.
pub open spec fn type_text(d: Seq<u8>, prev: Seq<Seq<char>>, version: BytecodeVersion) -> Seq<
    char,
> {
    match reader::varint_at(d, 0) {
        (Err(_), _) => "<read error>"@,
        (Ok(v), q) => match enums::type_tag_of(v % 256) {
            Some(TypeTag::I1) => "i1"@,
            Some(TypeTag::I4) => "i4"@,
            Some(TypeTag::I8) => "i8"@,
            Some(TypeTag::I16) => "i16"@,
            Some(TypeTag::I32) => "i32"@,
            Some(TypeTag::I64) => "i64"@,
            Some(TypeTag::F16) => "f16"@,
            Some(TypeTag::BF16) => "bf16"@,
            Some(TypeTag::F32) => "f32"@,
            Some(TypeTag::TF32) => "tf32"@,
            Some(TypeTag::F64) => "f64"@,
            Some(TypeTag::F8E4M3FN) => "f8e4m3fn"@,
            Some(TypeTag::F8E5M2) => "f8e5m2"@,
            Some(TypeTag::F8E8M0FNU) => "f8e8m0fnu"@,
            Some(TypeTag::F4E2M1FN) => "f4e2m1fn"@,
            Some(TypeTag::Token) => "token"@,
            Some(TypeTag::Pointer) => "ptr<"@ + name_ref_at(d, q, prev).0 + ">"@,
            Some(TypeTag::Tile) => tile_text(d, q, prev),
            Some(TypeTag::TensorView) => tensor_view_text(d, q, prev),
            Some(TypeTag::PartitionView) => partition_view_text(d, q, prev, version),
            Some(TypeTag::GatherScatterView) => gather_scatter_text(d, q, prev),
            Some(TypeTag::StridedView) => strided_view_text(d, q, prev),
            Some(TypeTag::Func) => func_text(d, q, prev),
            None => "<unknown type tag "@ + text::dec_text((v % 256) as nat) + ">"@,
        },
    }
}

/// The texts of the first `n` entries of a type table.
pub open spec fn type_texts(
    offsets: Seq<nat>,
    data: Seq<u8>,
    version: BytecodeVersion,
    n: nat,
) -> Seq<Seq<char>>
    decreases n,
{
    if n == 0 {
        Seq::empty()
    } else {
        let prev = type_texts(offsets, data, version, (n - 1) as nat);
        prev.push(type_text(sections::entry_bytes(offsets, data, n - 1), prev, version))
    }
}

/// The texts of the entries of a type section: a table with offsets of four bytes.
pub open spec fn type_section_texts(
    payload: Option<Seq<u8>>,
    version: BytecodeVersion,
) -> Result<Seq<Seq<char>>, DecodeError> {
    match payload {
        None => Ok(Seq::empty()),
        Some(d) => match sections::offset_table(d, 4) {
            Err(e) => Err(e),
            Ok((offsets, data)) => Ok(type_texts(offsets, data, version, offsets.len())),
        },
    }
}

/// Reads a variable-length integer, zero where it cannot be read.
fn read_varint_or_zero(r: &mut Reader) -> (v: u64)
    requires
        old(r).wf(),
    ensures
        final(r).wf(),
        final(r).data == old(r).data,
        (v, final(r).pos as int) == varint_or_zero(old(r).data@, old(r).pos as int),
{
    match r.read_varint() {
        Ok(v) => v,
        Err(_) => 0,
    }
}

/// Reads a byte, zero where it cannot be read.
fn read_byte_or_zero(r: &mut Reader) -> (v: u8)
    requires
        old(r).wf(),
    ensures
        final(r).wf(),
        final(r).data == old(r).data,
        (v, final(r).pos as int) == byte_or_zero(old(r).data@, old(r).pos as int),
{
    match r.read_byte() {
        Ok(v) => v,
        Err(_) => 0,
    }
}

/// Reads a count and as many `i64`s, zero where they cannot be read.
fn read_i64s_or_zero(r: &mut Reader) -> (v: Vec<i64>)
    requires
        old(r).wf(),
    ensures
        final(r).wf(),
        final(r).data == old(r).data,
        (v@, final(r).pos as int) == var_i64s_or_zero(old(r).data@, old(r).pos as int),
{
    let n: u64 = read_varint_or_zero(r);
    let mut out: Vec<i64> = Vec::new();
    let mut i: u64 = 0;
    while i < n
        invariant
            i <= n,
            r.wf(),
            r.data == old(r).data,
            var_i64s_or_zero(old(r).data@, old(r).pos as int) == i64s_or_zero(
                r.data@,
                r.pos as int,
                (n - i) as nat,
                out@,
            ),
        decreases n - i,
    {
        let v: i64 = match r.read_le_i64() {
            Ok(v) => v,
            Err(_) => 0,
        };
        out.push(v);
        i = i + 1;
    }
    out
}

/// Reads a count and as many `i32`s, zero where they cannot be read.
fn read_i32s_or_zero(r: &mut Reader) -> (v: Vec<i32>)
    requires
        old(r).wf(),
    ensures
        final(r).wf(),
        final(r).data == old(r).data,
        (v@, final(r).pos as int) == var_i32s_or_zero(old(r).data@, old(r).pos as int),
{
    let n: u64 = read_varint_or_zero(r);
    let mut out: Vec<i32> = Vec::new();
    let mut i: u64 = 0;
    while i < n
        invariant
            i <= n,
            r.wf(),
            r.data == old(r).data,
            var_i32s_or_zero(old(r).data@, old(r).pos as int) == i32s_or_zero(
                r.data@,
                r.pos as int,
                (n - i) as nat,
                out@,
            ),
        decreases n - i,
    {
        let v: i32 = match r.read_le_i32() {
            Ok(v) => v,
            Err(_) => 0,
        };
        out.push(v);
        i = i + 1;
    }
    out
}

/// The text at an index, or a question mark.
fn name_or_mark(names: &Vec<String>, i: u64) -> (s: String)
    ensures
        s@ == name_at(text::texts(names@), i),
{
    if i < names.len() as u64 {
        names[i as usize].clone()
    } else {
        "?".to_owned()
    }
}

/// Reads an index and gives the text it names.
fn read_name(r: &mut Reader, names: &Vec<String>) -> (s: String)
    requires
        old(r).wf(),
    ensures
        final(r).wf(),
        final(r).data == old(r).data,
        (s@, final(r).pos as int) == name_ref_at(
            old(r).data@,
            old(r).pos as int,
            text::texts(names@),
        ),
{
    let i: u64 = read_varint_or_zero(r);
    name_or_mark(names, i)
}

/// Reads a count and as many indices, and gives the texts they name.
fn read_names(r: &mut Reader, names: &Vec<String>) -> (v: Vec<String>)
    requires
        old(r).wf(),
    ensures
        final(r).wf(),
        final(r).data == old(r).data,
        (text::texts(v@), final(r).pos as int) == var_name_refs_at(
            old(r).data@,
            old(r).pos as int,
            text::texts(names@),
        ),
{
    let n: u64 = read_varint_or_zero(r);
    let mut out: Vec<String> = Vec::new();
    let mut i: u64 = 0;
    assert(text::texts(out@) =~= Seq::empty());
    while i < n
        invariant
            i <= n,
            r.wf(),
            r.data == old(r).data,
            var_name_refs_at(old(r).data@, old(r).pos as int, text::texts(names@))
                == name_refs_at(
                r.data@,
                r.pos as int,
                text::texts(names@),
                (n - i) as nat,
                text::texts(out@),
            ),
        decreases n - i,
    {
        let name = read_name(r, names);
        let ghost before = out@;
        out.push(name);
        assert(text::texts(out@) =~= text::texts(before).push(name@));
        i = i + 1;
    }
    out
}

/// Appends texts with a separator between them.
fn push_joined(out: &mut String, parts: &Vec<String>, sep: &str)
    ensures
        final(out)@ == old(out)@ + join(text::texts(parts@), sep@),
{
    let ghost all = text::texts(parts@);
    let mut i: usize = 0;
    assert(all.take(0) =~= Seq::empty());
    assert(out@ =~= old(out)@ + join(all.take(0), sep@));
    while i < parts.len()
        invariant
            i <= parts.len(),
            all == text::texts(parts@),
            out@ == old(out)@ + join(all.take(i as int), sep@),
        decreases parts.len() - i,
    {
        let ghost before = out@;
        if i > 0 {
            out.append(sep);
        }
        out.append(parts[i].as_str());
        proof {
            let next = all.take(i + 1);
            assert(next.drop_last() =~= all.take(i as int));
            assert(next.last() == parts@[i as int]@);
            if i == 0 {
                assert(out@ =~= old(out)@ + join(next, sep@));
            } else {
                assert(out@ =~= old(out)@ + (join(all.take(i as int), sep@) + sep@ + next.last()));
            }
        }
        i = i + 1;
    }
    assert(all.take(parts@.len() as int) =~= all);
}

/// The decimal notations of `i64`s.
fn i64s_as_text(s: &Vec<i64>) -> (v: Vec<String>)
    ensures
        text::texts(v@) == i64_texts(s@),
{
    let mut out: Vec<String> = Vec::new();
    let mut i: usize = 0;
    while i < s.len()
        invariant
            i <= s.len(),
            out@.len() == i,
            forall|j: int| 0 <= j < i ==> (#[trigger] out@[j])@ == text::int_text(s@[j] as int),
        decreases s.len() - i,
    {
        let mut t = String::new();
        push_int(&mut t, s[i]);
        assert(t@ =~= text::int_text(s@[i as int] as int));
        out.push(t);
        i = i + 1;
    }
    assert(text::texts(out@) =~= i64_texts(s@));
    out
}

/// The decimal notations of `i32`s.
fn i32s_as_text(s: &Vec<i32>) -> (v: Vec<String>)
    ensures
        text::texts(v@) == i32_texts(s@),
{
    let mut out: Vec<String> = Vec::new();
    let mut i: usize = 0;
    while i < s.len()
        invariant
            i <= s.len(),
            out@.len() == i,
            forall|j: int| 0 <= j < i ==> (#[trigger] out@[j])@ == text::int_text(s@[j] as int),
        decreases s.len() - i,
    {
        let mut t = String::new();
        push_int(&mut t, s[i] as i64);
        assert(t@ =~= text::int_text(s@[i as int] as int));
        out.push(t);
        i = i + 1;
    }
    assert(text::texts(out@) =~= i32_texts(s@));
    out
}

/// Extents or strides as text.
fn extents_as_text(s: &Vec<i64>) -> (v: Vec<String>)
    ensures
        text::texts(v@) == extent_texts(s@),
{
    let mut out: Vec<String> = Vec::new();
    let mut i: usize = 0;
    while i < s.len()
        invariant
            i <= s.len(),
            out@.len() == i,
            forall|j: int| 0 <= j < i ==> (#[trigger] out@[j])@ == extent_text(s@[j]),
        decreases s.len() - i,
    {
        let mut t = String::new();
        if s[i] == DYNAMIC {
            t.append("?");
        } else {
            push_int(&mut t, s[i]);
        }
        assert(t@ =~= extent_text(s@[i as int]));
        out.push(t);
        i = i + 1;
    }
    assert(text::texts(out@) =~= extent_texts(s@));
    out
}

/// Appends the padding value behind a type entry.
fn push_padding(out: &mut String, r: &mut Reader, present: bool)
    requires
        old(r).wf(),
    ensures
        final(out)@ == old(out)@ + padding_text(old(r).data@, old(r).pos as int, present),
{
    if present {
        let p: u8 = read_byte_or_zero(r);
        out.append(", padding=");
        push_dec(out, p as u64);
    }
    assert(out@ =~= old(out)@ + padding_text(old(r).data@, old(r).pos as int, present));
}

/// The text of a tile type behind its tag.
fn tile_as_text(r: &mut Reader, prev: &Vec<String>) -> (s: String)
    requires
        old(r).wf(),
    ensures
        s@ == tile_text(old(r).data@, old(r).pos as int, text::texts(prev@)),
{
    let elem = read_name(r, prev);
    let dims = read_i64s_or_zero(r);
    let mut shape = String::new();
    push_joined(&mut shape, &i64s_as_text(&dims), "x");
    assert(shape@ =~= join(i64_texts(dims@), "x"@));
    let mut out = "tile<".to_owned();
    if !shape.as_str().is_empty() {
        out.append(shape.as_str());
        out.append("x");
    }
    out.append(elem.as_str());
    out.append(">");
    out
}

/// The text of a tensor view behind its tag.
fn tensor_view_as_text(r: &mut Reader, prev: &Vec<String>) -> (s: String)
    requires
        old(r).wf(),
    ensures
        s@ == tensor_view_text(old(r).data@, old(r).pos as int, text::texts(prev@)),
{
    let elem = read_name(r, prev);
    let shape = read_i64s_or_zero(r);
    let strides = read_i64s_or_zero(r);
    let mut out = "tensor_view<".to_owned();
    push_joined(&mut out, &extents_as_text(&shape), "x");
    out.append("x");
    out.append(elem.as_str());
    out.append(", strides=[");
    push_joined(&mut out, &extents_as_text(&strides), ",");
    out.append("]>");
    out
}

/// Appends the padding of a partition view.
fn push_partition_padding(out: &mut String, r: &mut Reader, flags: Option<u64>)
    requires
        old(r).wf(),
    ensures
        final(out)@ == old(out)@ + partition_padding_text(old(r).data@, old(r).pos as int, flags),
{
    match flags {
        Some(flags) => push_padding(out, r, flags % 2 == 1),
        None => {
            let present: u8 = read_byte_or_zero(r);
            if present != 0 {
                let p: u64 = read_varint_or_zero(r);
                out.append(", padding=");
                push_dec(out, p);
            }
            assert(out@ =~= old(out)@ + partition_padding_text(
                old(r).data@,
                old(r).pos as int,
                flags,
            ));
        },
    }
}

/// The text of a partition view behind its tag.
fn partition_view_as_text(r: &mut Reader, prev: &Vec<String>, version: BytecodeVersion) -> (s:
    String)
    requires
        old(r).wf(),
    ensures
        s@ == partition_view_text(
            old(r).data@,
            old(r).pos as int,
            text::texts(prev@),
            version,
        ),
{
    let flags = if version >= BytecodeVersion::v13_3() {
        Some(read_varint_or_zero(r))
    } else {
        None
    };
    let shape = read_i32s_or_zero(r);
    let view = read_name(r, prev);
    let _dim_map = read_i32s_or_zero(r);
    let mut out = "partition_view<tile=(".to_owned();
    push_joined(&mut out, &i32s_as_text(&shape), "x");
    out.append("), tv=");
    out.append(view.as_str());
    push_partition_padding(&mut out, r, flags);
    out.append(">");
    out
}

/// The text of a gather/scatter view behind its tag.
fn gather_scatter_as_text(r: &mut Reader, prev: &Vec<String>) -> (s: String)
    requires
        old(r).wf(),
    ensures
        s@ == gather_scatter_text(old(r).data@, old(r).pos as int, text::texts(prev@)),
{
    let flags: u64 = read_varint_or_zero(r);
    let shape = read_i32s_or_zero(r);
    let view = read_name(r, prev);
    let dim: u64 = read_varint_or_zero(r);
    let mut out = "gather_scatter_view<tile=(".to_owned();
    push_joined(&mut out, &i32s_as_text(&shape), "x");
    out.append("), tv=");
    out.append(view.as_str());
    out.append(", sparse_dim=");
    push_dec(&mut out, dim);
    push_padding(&mut out, r, flags % 2 == 1);
    out.append(">");
    out
}

/// The text of a strided view behind its tag.
fn strided_view_as_text(r: &mut Reader, prev: &Vec<String>) -> (s: String)
    requires
        old(r).wf(),
    ensures
        s@ == strided_view_text(old(r).data@, old(r).pos as int, text::texts(prev@)),
{
    let flags: u64 = read_varint_or_zero(r);
    let shape = read_i32s_or_zero(r);
    let strides = read_i32s_or_zero(r);
    let view = read_name(r, prev);
    let dim_map = read_i32s_or_zero(r);
    let mut out = "strided_view<tile=(".to_owned();
    push_joined(&mut out, &i32s_as_text(&shape), "x");
    out.append("), traversal_strides=[");
    push_joined(&mut out, &i32s_as_text(&strides), ",");
    out.append("], tv=");
    out.append(view.as_str());
    out.append(", dim_map=[");
    push_joined(&mut out, &i32s_as_text(&dim_map), ",");
    out.append("]");
    push_padding(&mut out, r, flags % 2 == 1);
    out.append(">");
    out
}

/// The text of a function type behind its tag.
fn func_as_text(r: &mut Reader, prev: &Vec<String>) -> (s: String)
    requires
        old(r).wf(),
    ensures
        s@ == func_text(old(r).data@, old(r).pos as int, text::texts(prev@)),
{
    let inputs = read_names(r, prev);
    let results = read_names(r, prev);
    let mut out = "(".to_owned();
    push_joined(&mut out, &inputs, ", ");
    out.append(") -> (");
    push_joined(&mut out, &results, ", ");
    out.append(")");
    out
}

/// The text of a type entry; `prev` are the texts of the entries before it.
pub fn decode_type_entry(data: &[u8], prev: &Vec<String>, version: BytecodeVersion) -> (s: String)
    ensures
        s@ == type_text(data@, text::texts(prev@), version),
{
    let mut r = Reader::new(data);
    let tag: u64 = match r.read_varint() {
        Ok(tag) => tag,
        Err(_) => {
            return "<read error>".to_owned();
        },
    };
    match TypeTag::from_tag(tag % 256) {
        Some(TypeTag::I1) => "i1".to_owned(),
        Some(TypeTag::I4) => "i4".to_owned(),
        Some(TypeTag::I8) => "i8".to_owned(),
        Some(TypeTag::I16) => "i16".to_owned(),
        Some(TypeTag::I32) => "i32".to_owned(),
        Some(TypeTag::I64) => "i64".to_owned(),
        Some(TypeTag::F16) => "f16".to_owned(),
        Some(TypeTag::BF16) => "bf16".to_owned(),
        Some(TypeTag::F32) => "f32".to_owned(),
        Some(TypeTag::TF32) => "tf32".to_owned(),
        Some(TypeTag::F64) => "f64".to_owned(),
        Some(TypeTag::F8E4M3FN) => "f8e4m3fn".to_owned(),
        Some(TypeTag::F8E5M2) => "f8e5m2".to_owned(),
        Some(TypeTag::F8E8M0FNU) => "f8e8m0fnu".to_owned(),
        Some(TypeTag::F4E2M1FN) => "f4e2m1fn".to_owned(),
        Some(TypeTag::Token) => "token".to_owned(),
        Some(TypeTag::Pointer) => {
            let elem = read_name(&mut r, prev);
            let mut out = "ptr<".to_owned();
            out.append(elem.as_str());
            out.append(">");
            out
        },
        Some(TypeTag::Tile) => tile_as_text(&mut r, prev),
        Some(TypeTag::TensorView) => tensor_view_as_text(&mut r, prev),
        Some(TypeTag::PartitionView) => partition_view_as_text(&mut r, prev, version),
        Some(TypeTag::GatherScatterView) => gather_scatter_as_text(&mut r, prev),
        Some(TypeTag::StridedView) => strided_view_as_text(&mut r, prev),
        Some(TypeTag::Func) => func_as_text(&mut r, prev),
        None => {
            let mut out = "<unknown type tag ".to_owned();
            push_dec(&mut out, tag % 256);
            out.append(">");
            out
        },
    }
}

/// Reads the texts of the entries of a type section.
pub fn parse_type_section(payload: Option<&[u8]>, version: BytecodeVersion) -> (r: Result<
    Vec<String>,
    DecodeError,
>)
    requires
        sections::table_in_range(reader::payload_bytes(payload), 4),
    ensures
        match (r, type_section_texts(reader::payload_bytes(payload), version)) {
            (Ok(v), Ok(m)) => text::texts(v@) == m,
            (Err(e), Err(f)) => e == f,
            _ => false,
        },
{
    let mut types: Vec<String> = Vec::new();
    assert(text::texts(types@) =~= Seq::empty());
    let d = match payload {
        None => {
            return Ok(types);
        },
        Some(d) => d,
    };
    let (offsets, data) = read_offset_table(d, false)?;
    let ghost model = sections::naturals(offsets@);
    let mut i: usize = 0;
    while i < offsets.len()
        invariant
            i <= offsets.len(),
            model == sections::naturals(offsets@),
            sections::entries_in_range(model, data@.len()),
            text::texts(types@) == type_texts(model, data@, version, i as nat),
        decreases offsets.len() - i,
    {
        assert(sections::entry_in_range(model, i as int, data@.len()));
        let entry = entry_slice(&offsets, data, i);
        let t = decode_type_entry(entry, &types, version);
        let ghost before = types@;
        types.push(t);
        assert(text::texts(types@) =~= text::texts(before).push(t@));
        i = i + 1;
    }
    Ok(types)
}

/// The visibility of a global, as text.
pub open spec fn visibility_text(b: u8) -> Seq<char> {
    match b {
        0 => "public"@,
        1 => "private"@,
        _ => "unknown"@,
    }
}

/// What stands behind a global from version 13.3 on: its visibility and whether it
/// is constant.
pub open spec fn global_suffix_at(d: Seq<u8>, p: int, version: BytecodeVersion) -> Step<
    Seq<char>,
> {
    if version.rank() >= BytecodeVersion::v13_3().rank() {
        match reader::byte_at(d, p) {
            (Err(e), q) => (Err(e), q),
            (Ok(vis), q) => match reader::varint_at(d, q) {
                (Err(e), q) => (Err(e), q),
                (Ok(c), q) => (
                    Ok(
                        ", "@ + visibility_text(vis) + ", constant="@ + text::bool_text(c != 0),
                    ),
                    q,
                ),
            },
        }
    } else {
        (Ok(Seq::empty()), p)
    }
}

/// One global: the indices of its name, its type and its constant, its alignment,
/// and its suffix.
pub open spec fn global_at(
    d: Seq<u8>,
    p: int,
    strings: Seq<Seq<char>>,
    types: Seq<Seq<char>>,
    version: BytecodeVersion,
) -> Step<Seq<char>> {
    match reader::varint_at(d, p) {
        (Err(e), q) => (Err(e), q),
        (Ok(name), q) => match reader::varint_at(d, q) {
            (Err(e), q) => (Err(e), q),
            (Ok(ty), q) => match reader::varint_at(d, q) {
                (Err(e), q) => (Err(e), q),
                (Ok(constant), q) => match reader::varint_at(d, q) {
                    (Err(e), q) => (Err(e), q),
                    (Ok(alignment), q) => match global_suffix_at(d, q, version) {
                        (Err(e), q) => (Err(e), q),
                        (Ok(suffix), q) => (
                            Ok(
                                "@"@ + name_at(strings, name) + " : "@ + name_at(types, ty)
                                    + " = const["@ + text::dec_text(constant as nat)
                                    + "], align "@ + text::dec_text(alignment as nat) + suffix,
                            ),
                            q,
                        ),
                    },
                },
            },
        },
    }
}

/// `n` globals behind those in `acc`.
pub open spec fn globals_at(
    d: Seq<u8>,
    p: int,
    strings: Seq<Seq<char>>,
    types: Seq<Seq<char>>,
    version: BytecodeVersion,
    n: nat,
    acc: Seq<Seq<char>>,
) -> Result<Seq<Seq<char>>, DecodeError>
    decreases n,
{
    if n == 0 {
        Ok(acc)
    } else {
        match global_at(d, p, strings, types, version) {
            (Err(e), _) => Err(e),
            (Ok(g), q) => globals_at(d, q, strings, types, version, (n - 1) as nat, acc.push(g)),
        }
    }
}

/// The texts of a global section: a count and as many globals.
pub open spec fn global_section_texts(
    d: Seq<u8>,
    strings: Seq<Seq<char>>,
    types: Seq<Seq<char>>,
    version: BytecodeVersion,
) -> Result<Seq<Seq<char>>, DecodeError> {
    match reader::varint_at(d, 0) {
        (Err(e), _) => Err(e),
        (Ok(n), q) => globals_at(d, q, strings, types, version, n as nat, Seq::empty()),
    }
}

/// The hints of a function where its flags announce them.
pub open spec fn passed_hints_at(d: Seq<u8>, p: int, flags: u8) -> Step<()> {
    if FunctionFlag::HasOptimizationHints.spec_is_set(flags) {
        skip::passed_attribute_at(d, p)
    } else {
        (Ok(()), p)
    }
}

/// One function: the indices of its name and its signature, its flags, its
/// location, the hints that the flags announce, and its body. The hints are passed over
/// and noted. The number of operations is given as the number of bytes of the body.
pub open spec fn function_text_at(
    d: Seq<u8>,
    p: int,
    strings: Seq<Seq<char>>,
    types: Seq<Seq<char>>,
) -> Step<Seq<char>> {
    match reader::varint_at(d, p) {
        (Err(e), q) => (Err(e), q),
        (Ok(name), q) => match reader::varint_at(d, q) {
            (Err(e), q) => (Err(e), q),
            (Ok(sig), q) => match reader::byte_at(d, q) {
                (Err(e), q) => (Err(e), q),
                (Ok(flags), q) => match reader::varint_at(d, q) {
                    (Err(e), q) => (Err(e), q),
                    (Ok(_), q) => match passed_hints_at(d, q, flags) {
                        (Err(e), q) => (Err(e), q),
                        (Ok(_), q) => match reader::varint_at(d, q) {
                            (Err(e), q) => (Err(e), q),
                            (Ok(len), q) => match reader::bytes_at(d, q, len as int) {
                                (Err(e), q) => (Err(e), q),
                                (Ok(_), q) => (
                                    Ok(
                                        function_text(
                                            name_at(strings, name),
                                            name_at(types, sig),
                                            flags,
                                            len,
                                        ),
                                    ),
                                    q,
                                ),
                            },
                        },
                    },
                },
            },
        },
    }
}

/// The text of a function.
pub open spec fn function_text(name: Seq<char>, sig: Seq<char>, flags: u8, len: u64) -> Seq<char> {
    let lines = "  "@ + (if FunctionFlag::KindKernel.spec_is_set(flags) {
        "entry"@
    } else {
        "func"@
    }) + " @"@ + name + " : "@ + sig + "\n"@ + "    body: "@ + text::dec_text(len as nat)
        + " bytes, ~"@ + text::dec_text(len as nat) + " ops\n"@;
    if FunctionFlag::HasOptimizationHints.spec_is_set(flags) {
        lines + "    [has optimization_hints]\n"@
    } else {
        lines
    }
}

/// `n` functions behind those in `acc`.
pub open spec fn function_texts_at(
    d: Seq<u8>,
    p: int,
    strings: Seq<Seq<char>>,
    types: Seq<Seq<char>>,
    n: nat,
    acc: Seq<Seq<char>>,
) -> Result<Seq<Seq<char>>, DecodeError>
    decreases n,
{
    if n == 0 {
        Ok(acc)
    } else {
        match function_text_at(d, p, strings, types) {
            (Err(e), _) => Err(e),
            (Ok(f), q) => function_texts_at(d, q, strings, types, (n - 1) as nat, acc.push(f)),
        }
    }
}

/// The texts of a function section: a count and as many functions.
pub open spec fn function_section_texts(
    d: Seq<u8>,
    strings: Seq<Seq<char>>,
    types: Seq<Seq<char>>,
) -> Result<Seq<Seq<char>>, DecodeError> {
    match reader::varint_at(d, 0) {
        (Err(e), _) => Err(e),
        (Ok(n), q) => function_texts_at(d, q, strings, types, n as nat, Seq::empty()),
    }
}

/// Reads what stands behind a global from version 13.3 on.
fn read_global_suffix(r: &mut Reader, version: BytecodeVersion) -> (s: Result<String, DecodeError>)
    requires
        old(r).wf(),
    ensures
        Reader::reads_view(
            *old(r),
            *final(r),
            s,
            global_suffix_at(old(r).data@, old(r).pos as int, version),
        ),
{
    if version >= BytecodeVersion::v13_3() {
        let vis: u8 = r.read_byte()?;
        let c: u64 = r.read_varint()?;
        let mut out = ", ".to_owned();
        match vis {
            0 => out.append("public"),
            1 => out.append("private"),
            _ => out.append("unknown"),
        }
        out.append(", constant=");
        push_bool(&mut out, c != 0);
        Ok(out)
    } else {
        Ok(String::new())
    }
}

/// Reads one global as text.
fn read_global(
    r: &mut Reader,
    strings: &Vec<String>,
    types: &Vec<String>,
    version: BytecodeVersion,
) -> (s: Result<String, DecodeError>)
    requires
        old(r).wf(),
    ensures
        Reader::reads_view(
            *old(r),
            *final(r),
            s,
            global_at(
                old(r).data@,
                old(r).pos as int,
                text::texts(strings@),
                text::texts(types@),
                version,
            ),
        ),
{
    let name: u64 = r.read_varint()?;
    let ty: u64 = r.read_varint()?;
    let constant: u64 = r.read_varint()?;
    let alignment: u64 = r.read_varint()?;
    let suffix = read_global_suffix(r, version)?;
    let mut out = "@".to_owned();
    out.append(name_or_mark(strings, name).as_str());
    out.append(" : ");
    out.append(name_or_mark(types, ty).as_str());
    out.append(" = const[");
    push_dec(&mut out, constant);
    out.append("], align ");
    push_dec(&mut out, alignment);
    out.append(suffix.as_str());
    Ok(out)
}

/// Reads the texts of a global section.
pub fn parse_global_section(
    data: &[u8],
    strings: &Vec<String>,
    types: &Vec<String>,
    version: BytecodeVersion,
) -> (r: Result<Vec<String>, DecodeError>)
    ensures
        match (
            r,
            global_section_texts(
                data@,
                text::texts(strings@),
                text::texts(types@),
                version,
            ),
        ) {
            (Ok(v), Ok(m)) => text::texts(v@) == m,
            (Err(e), Err(f)) => e == f,
            _ => false,
        },
{
    let mut r = Reader::new(data);
    let n: u64 = r.read_varint()?;
    let mut globals: Vec<String> = Vec::new();
    let mut i: u64 = 0;
    assert(text::texts(globals@) =~= Seq::empty());
    while i < n
        invariant
            i <= n,
            r.wf(),
            r.data@ == data@,
            global_section_texts(
                data@,
                text::texts(strings@),
                text::texts(types@),
                version,
            ) == globals_at(
                data@,
                r.pos as int,
                text::texts(strings@),
                text::texts(types@),
                version,
                (n - i) as nat,
                text::texts(globals@),
            ),
        decreases n - i,
    {
        let g = read_global(&mut r, strings, types, version)?;
        let ghost before = globals@;
        globals.push(g);
        assert(text::texts(globals@) =~= text::texts(before).push(g@));
        i = i + 1;
    }
    Ok(globals)
}

/// The number of operations that is given for a body: the number of its bytes, an
/// upper bound.
pub fn count_ops_in_body(data: &[u8]) -> (n: usize)
    ensures
        n == data@.len(),
{
    data.len()
}

/// Reads one function as text.
fn read_function_text(r: &mut Reader, strings: &Vec<String>, types: &Vec<String>) -> (s: Result<
    String,
    DecodeError,
>)
    requires
        old(r).wf(),
    ensures
        Reader::reads_view(
            *old(r),
            *final(r),
            s,
            function_text_at(
                old(r).data@,
                old(r).pos as int,
                text::texts(strings@),
                text::texts(types@),
            ),
        ),
{
    let name: u64 = r.read_varint()?;
    let sig: u64 = r.read_varint()?;
    let flags: u8 = r.read_byte()?;
    let _location: u64 = r.read_varint()?;
    if FunctionFlag::HasOptimizationHints.is_set(flags) {
        skip::pass_attribute(r)?;
    }
    let len: u64 = r.read_varint()?;
    let body = r.read_bytes(len)?;
    let ops: usize = count_ops_in_body(body);
    let mut out = "  ".to_owned();
    if FunctionFlag::KindKernel.is_set(flags) {
        out.append("entry");
    } else {
        out.append("func");
    }
    out.append(" @");
    out.append(name_or_mark(strings, name).as_str());
    out.append(" : ");
    out.append(name_or_mark(types, sig).as_str());
    out.append("\n");
    out.append("    body: ");
    push_dec(&mut out, len);
    out.append(" bytes, ~");
    push_dec(&mut out, ops as u64);
    out.append(" ops\n");
    if FunctionFlag::HasOptimizationHints.is_set(flags) {
        out.append("    [has optimization_hints]\n");
    }
    Ok(out)
}

/// Reads the texts of a function section.
pub fn parse_func_section(data: &[u8], strings: &Vec<String>, types: &Vec<String>) -> (r: Result<
    Vec<String>,
    DecodeError,
>)
    ensures
        match (
            r,
            function_section_texts(
                data@,
                text::texts(strings@),
                text::texts(types@),
            ),
        ) {
            (Ok(v), Ok(m)) => text::texts(v@) == m,
            (Err(e), Err(f)) => e == f,
            _ => false,
        },
{
    let mut r = Reader::new(data);
    let n: u64 = r.read_varint()?;
    let mut funcs: Vec<String> = Vec::new();
    let mut i: u64 = 0;
    assert(text::texts(funcs@) =~= Seq::empty());
    while i < n
        invariant
            i <= n,
            r.wf(),
            r.data@ == data@,
            function_section_texts(
                data@,
                text::texts(strings@),
                text::texts(types@),
            ) == function_texts_at(
                data@,
                r.pos as int,
                text::texts(strings@),
                text::texts(types@),
                (n - i) as nat,
                text::texts(funcs@),
            ),
        decreases n - i,
    {
        let f = read_function_text(&mut r, strings, types)?;
        let ghost before = funcs@;
        funcs.push(f);
        assert(text::texts(funcs@) =~= text::texts(before).push(f@));
        i = i + 1;
    }
    Ok(funcs)
}

} // verus!
