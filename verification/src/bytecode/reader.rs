//! The low-level bytecode reader.
//!
//! Every read is described by a function on the bytes of the buffer and a
//! position in it. It gives the value or the error, and the position that the
//! reader is left at in either case.

use vstd::arithmetic::power2::*;
use vstd::bits::*;
use vstd::prelude::*;

use crate::bytecode::enums::{BytecodeVersion, Section, ALIGNMENT_BYTE, MAGIC};
use crate::error::DecodeError;
use crate::ir::ScalarType;

verus! {

/// A value or an error, and the position behind what was read.
pub type Step<T> = (Result<T, DecodeError>, int);

/// One byte.
pub open spec fn byte_at(d: Seq<u8>, p: int) -> Step<u8> {
    if p < d.len() {
        (Ok(d[p]), p + 1)
    } else {
        (Err(DecodeError::UnexpectedEnd), p)
    }
}

/// `n` bytes.
pub open spec fn bytes_at(d: Seq<u8>, p: int, n: int) -> Step<Seq<u8>> {
    if p + n <= d.len() {
        (Ok(d.subrange(p, p + n)), p + n)
    } else {
        (Err(DecodeError::UnexpectedEnd), p)
    }
}

/// A little-endian base-128 number of at most `more + 1` digits; every digit but
/// the last has its high bit set.
pub open spec fn base128_at(d: Seq<u8>, p: int, more: nat) -> Step<nat>
    decreases more,
{
    match byte_at(d, p) {
        (Err(e), q) => (Err(e), q),
        (Ok(b), q) => if b < 128 {
            (Ok(b as nat), q)
        } else if more == 0 {
            (Err(DecodeError::VarintOverflow), q)
        } else {
            match base128_at(d, q, (more - 1) as nat) {
                (Err(e), r) => (Err(e), r),
                (Ok(rest), r) => (Ok((b - 128 + 128 * rest) as nat), r),
            }
        },
    }
}

/// The low 64 bits of a natural number.
pub open spec fn low64(n: nat) -> u64 {
    (n % 0x1_0000_0000_0000_0000) as u64
}

/// A variable-length unsigned integer: a base-128 number of at most ten digits,
/// of which the low 64 bits count.
pub open spec fn varint_at(d: Seq<u8>, p: int) -> Step<u64> {
    match base128_at(d, p, 9) {
        (Err(e), q) => (Err(e), q),
        (Ok(n), q) => (Ok(low64(n)), q),
    }
}

/// The signed value of an unsigned one in which signs alternate:
/// 0, -1, 1, -2, 2 and so on.
pub open spec fn zigzag(v: u64) -> i64 {
    if v % 2 == 0 {
        (v / 2) as i64
    } else {
        (-1 - (v / 2)) as i64
    }
}

/// A variable-length signed integer.
pub open spec fn signed_varint_at(d: Seq<u8>, p: int) -> Step<i64> {
    match varint_at(d, p) {
        (Err(e), q) => (Err(e), q),
        (Ok(v), q) => (Ok(zigzag(v)), q),
    }
}

/// The value of a little-endian byte string.
pub open spec fn le_value(s: Seq<u8>) -> nat
    decreases s.len(),
{
    if s.len() == 0 {
        0
    } else {
        s[0] as nat + 256 * le_value(s.skip(1))
    }
}

/// A little-endian unsigned integer of `n` bytes.
pub open spec fn le_at(d: Seq<u8>, p: int, n: int) -> Step<nat> {
    match bytes_at(d, p, n) {
        (Err(e), q) => (Err(e), q),
        (Ok(s), q) => (Ok(le_value(s)), q),
    }
}

/// The two's complement reading of 64 bits.
pub open spec fn signed64(n: nat) -> i64 {
    if n < 0x8000_0000_0000_0000 {
        n as i64
    } else {
        (n - 0x1_0000_0000_0000_0000) as i64
    }
}

/// The two's complement reading of 32 bits.
pub open spec fn signed32(n: nat) -> i32 {
    if n < 0x8000_0000 {
        n as i32
    } else {
        (n - 0x1_0000_0000) as i32
    }
}

/// A little-endian signed integer of eight bytes.
pub open spec fn le_i64_at(d: Seq<u8>, p: int) -> Step<i64> {
    match le_at(d, p, 8) {
        (Err(e), q) => (Err(e), q),
        (Ok(n), q) => (Ok(signed64(n)), q),
    }
}

/// A little-endian signed integer of four bytes.
pub open spec fn le_i32_at(d: Seq<u8>, p: int) -> Step<i32> {
    match le_at(d, p, 4) {
        (Err(e), q) => (Err(e), q),
        (Ok(n), q) => (Ok(signed32(n)), q),
    }
}

/// `n` little-endian `i64`s behind those in `acc`.
pub open spec fn i64s_at(d: Seq<u8>, p: int, n: nat, acc: Seq<i64>) -> Step<Seq<i64>>
    decreases n,
{
    if n == 0 {
        (Ok(acc), p)
    } else {
        match le_i64_at(d, p) {
            (Err(e), q) => (Err(e), q),
            (Ok(v), q) => i64s_at(d, q, (n - 1) as nat, acc.push(v)),
        }
    }
}

/// `n` little-endian `i32`s behind those in `acc`.
pub open spec fn i32s_at(d: Seq<u8>, p: int, n: nat, acc: Seq<i32>) -> Step<Seq<i32>>
    decreases n,
{
    if n == 0 {
        (Ok(acc), p)
    } else {
        match le_i32_at(d, p) {
            (Err(e), q) => (Err(e), q),
            (Ok(v), q) => i32s_at(d, q, (n - 1) as nat, acc.push(v)),
        }
    }
}

/// A count and as many little-endian `i64`s.
pub open spec fn var_i64s_at(d: Seq<u8>, p: int) -> Step<Seq<i64>> {
    match varint_at(d, p) {
        (Err(e), q) => (Err(e), q),
        (Ok(n), q) => i64s_at(d, q, n as nat, Seq::empty()),
    }
}

/// A count and as many little-endian `i32`s.
pub open spec fn var_i32s_at(d: Seq<u8>, p: int) -> Step<Seq<i32>> {
    match varint_at(d, p) {
        (Err(e), q) => (Err(e), q),
        (Ok(n), q) => i32s_at(d, q, n as nat, Seq::empty()),
    }
}

/// The bit pattern of a float attribute of the given scalar type: a signed
/// variable-length integer cut to the width of the type. The byte-sized formats
/// occupy one byte and are not decoded.
pub open spec fn float_bits_at(d: Seq<u8>, p: int, scalar: ScalarType) -> Step<u64> {
    match scalar {
        ScalarType::F16 | ScalarType::BF16 => match signed_varint_at(d, p) {
            (Err(e), q) => (Err(e), q),
            (Ok(v), q) => (Ok((v as int % 0x1_0000) as u64), q),
        },
        ScalarType::F32 | ScalarType::TF32 => match signed_varint_at(d, p) {
            (Err(e), q) => (Err(e), q),
            (Ok(v), q) => (Ok((v as int % 0x1_0000_0000) as u64), q),
        },
        ScalarType::F64 => wide_float_bits_at(d, p),
        ScalarType::F8E4M3FN
        | ScalarType::F8E5M2
        | ScalarType::F8E8M0FNU
        | ScalarType::F4E2M1FN => match byte_at(d, p) {
            (Err(e), q) => (Err(e), q),
            (Ok(_), q) => (Err(DecodeError::SubByteFloat), q),
        },
        _ => (Err(DecodeError::NotAFloat(scalar)), p),
    }
}

/// The bit pattern of a double: a signed variable-length integer.
pub open spec fn wide_float_bits_at(d: Seq<u8>, p: int) -> Step<u64> {
    match signed_varint_at(d, p) {
        (Err(e), q) => (Err(e), q),
        (Ok(v), q) => (Ok((v as int % 0x1_0000_0000_0000_0000) as u64), q),
    }
}

/// The number of bytes from a position to the next multiple of `alignment`.
pub open spec fn gap(p: int, alignment: u64) -> int {
    if alignment < 2 {
        0
    } else {
        (alignment - p % (alignment as int)) % (alignment as int)
    }
}

/// `n` alignment bytes.
pub open spec fn fill_at(d: Seq<u8>, p: int, n: nat) -> Step<()>
    decreases n,
{
    if n == 0 {
        (Ok(()), p)
    } else {
        match byte_at(d, p) {
            (Err(e), q) => (Err(e), q),
            (Ok(b), q) => if b != ALIGNMENT_BYTE {
                (Err(DecodeError::PaddingByte(b)), q)
            } else {
                fill_at(d, q, (n - 1) as nat)
            },
        }
    }
}

/// The alignment bytes up to the next multiple of `alignment`.
pub open spec fn padding_at(d: Seq<u8>, p: int, alignment: u64) -> Step<()> {
    fill_at(d, p, gap(p, alignment) as nat)
}

/// The magic number and the version.
pub open spec fn header_at(d: Seq<u8>, p: int) -> Step<BytecodeVersion> {
    match bytes_at(d, p, 8) {
        (Err(e), q) => (Err(e), q),
        (Ok(magic), q) => if magic != MAGIC@ {
            (Err(DecodeError::InvalidMagic), q)
        } else {
            match byte_at(d, q) {
                (Err(e), q) => (Err(e), q),
                (Ok(major), q) => match byte_at(d, q) {
                    (Err(e), q) => (Err(e), q),
                    (Ok(minor), q) => match le_at(d, q, 2) {
                        (Err(e), q) => (Err(e), q),
                        (Ok(tag), q) => (
                            Ok(BytecodeVersion { major, minor, tag: tag as u16 }),
                            q,
                        ),
                    },
                },
            }
        },
    }
}

/// The bytes of a payload that may be missing.
pub open spec fn payload_bytes(payload: Option<&[u8]>) -> Option<Seq<u8>> {
    match payload {
        Some(s) => Some(s@),
        None => None,
    }
}

/// The header of a section: its number and the length of its payload.
#[derive(Clone, Copy, Debug, PartialEq, Eq, Structural)]
pub struct SectionHeader {
    pub id: u8,
    pub data_len: u64,
}

/// A section header: the number in the low seven bits of the first byte, then,
/// except for the end marker, the length of the payload, and, where the high bit
/// is set, an alignment and the gap up to it.
pub open spec fn section_header_at(d: Seq<u8>, p: int) -> Step<SectionHeader> {
    match byte_at(d, p) {
        (Err(e), q) => (Err(e), q),
        (Ok(b), q) => if b % 128 == 0 {
            (Ok(SectionHeader { id: 0, data_len: 0 }), q)
        } else {
            match varint_at(d, q) {
                (Err(e), q) => (Err(e), q),
                (Ok(len), q) => if b < 128 {
                    (Ok(SectionHeader { id: b, data_len: len }), q)
                } else {
                    match varint_at(d, q) {
                        (Err(e), q) => (Err(e), q),
                        (Ok(alignment), q) => match padding_at(d, q, alignment) {
                            (Err(e), q) => (Err(e), q),
                            (Ok(_), q) => (
                                Ok(SectionHeader { id: (b % 128) as u8, data_len: len }),
                                q,
                            ),
                        },
                    }
                },
            }
        },
    }
}

/// The value of two little-endian bytes, spelt out.
proof fn le_value_2(s: Seq<u8>)
    requires
        s.len() == 2,
    ensures
        le_value(s) == s[0] + 256 * s[1],
{
    reveal_with_fuel(le_value, 3);
}

/// The value of four little-endian bytes, spelt out.
proof fn le_value_4(s: Seq<u8>)
    requires
        s.len() == 4,
    ensures
        le_value(s) == s[0] + 256 * s[1] + 65536 * s[2] + 16777216 * s[3],
{
    reveal_with_fuel(le_value, 5);
}

/// The value of eight little-endian bytes, by halves.
proof fn le_value_8(s: Seq<u8>)
    requires
        s.len() == 8,
    ensures
        le_value(s) == le_value(s.subrange(0, 4)) + 4294967296 * le_value(s.subrange(4, 8)),
{
    reveal_with_fuel(le_value, 5);
    assert(s.skip(1).skip(1).skip(1).skip(1) =~= s.subrange(4, 8));
    le_value_4(s.subrange(0, 4));
}

/// A base-128 number ends inside the buffer, and takes at least one byte.
pub proof fn base128_advances(d: Seq<u8>, p: int, more: nat)
    requires
        0 <= p <= d.len(),
    ensures
        p <= base128_at(d, p, more).1 <= d.len(),
        base128_at(d, p, more).0 is Ok ==> p < base128_at(d, p, more).1,
    decreases more,
{
    if p < d.len() && d[p] >= 128 && more > 0 {
        base128_advances(d, p + 1, (more - 1) as nat);
    }
}

/// A variable-length integer ends inside the buffer, and takes at least one byte.
pub proof fn varint_advances(d: Seq<u8>, p: int)
    requires
        0 <= p <= d.len(),
    ensures
        p <= varint_at(d, p).1 <= d.len(),
        varint_at(d, p).0 is Ok ==> p < varint_at(d, p).1,
{
    base128_advances(d, p, 9);
}

/// A list of `i64`s ends inside the buffer.
pub proof fn i64s_advance(d: Seq<u8>, p: int, n: nat, acc: Seq<i64>)
    requires
        0 <= p <= d.len(),
    ensures
        p <= i64s_at(d, p, n, acc).1 <= d.len(),
    decreases n,
{
    if n > 0 && p + 8 <= d.len() {
        i64s_advance(d, p + 8, (n - 1) as nat, acc.push(le_i64_at(d, p).0->Ok_0));
    }
}

/// A list of `i32`s ends inside the buffer.
pub proof fn i32s_advance(d: Seq<u8>, p: int, n: nat, acc: Seq<i32>)
    requires
        0 <= p <= d.len(),
    ensures
        p <= i32s_at(d, p, n, acc).1 <= d.len(),
    decreases n,
{
    if n > 0 && p + 4 <= d.len() {
        i32s_advance(d, p + 4, (n - 1) as nat, acc.push(le_i32_at(d, p).0->Ok_0));
    }
}

/// A counted list of `i64`s ends inside the buffer.
pub proof fn var_i64s_advance(d: Seq<u8>, p: int)
    requires
        0 <= p <= d.len(),
    ensures
        p <= var_i64s_at(d, p).1 <= d.len(),
{
    varint_advances(d, p);
    if let (Ok(n), q) = varint_at(d, p) {
        i64s_advance(d, q, n as nat, Seq::empty());
    }
}

/// A counted list of `i32`s ends inside the buffer.
pub proof fn var_i32s_advance(d: Seq<u8>, p: int)
    requires
        0 <= p <= d.len(),
    ensures
        p <= var_i32s_at(d, p).1 <= d.len(),
{
    varint_advances(d, p);
    if let (Ok(n), q) = varint_at(d, p) {
        i32s_advance(d, q, n as nat, Seq::empty());
    }
}

/// Adding a base-128 digit above `7 * i` bits of a number that fits in them.
proof fn digit_step(acc: u64, x: u64, i: u64)
    requires
        i <= 9,
        acc < pow2((7 * i) as nat),
        x < 128,
    ensures
        (acc | (x << ((7 * i) as u64))) as int == (acc + x * pow2((7 * i) as nat))
            % 0x1_0000_0000_0000_0000,
        i < 9 ==> acc + x * pow2((7 * i) as nat) < pow2((7 * (i + 1)) as nat),
        i < 9 ==> pow2((7 * (i + 1)) as nat) <= pow2(63),
{
    lemma2_to64();
    lemma2_to64_rest();
    let s: u64 = (7 * i) as u64;
    let top: u64 = pow2(s as nat) as u64;
    lemma_u64_shl_is_mul(1, s);
    assert(top == 1u64 << s);
    assert((acc | (x << s)) == acc + (x << s)) by (bit_vector)
        requires
            acc < 1u64 << s,
            s <= 63,
    ;
    if i < 9 {
        lemma_pow2_adds(s as nat, 7);
        assert(x * top < 128 * top) by (nonlinear_arith)
            requires
                x < 128,
                top > 0,
        ;
        assert(128 * top <= 0x8000_0000_0000_0000);
        lemma_u64_shl_is_mul(x, s);
        assert(acc + x * top < 128 * top) by (nonlinear_arith)
            requires
                acc < top,
                x <= 127,
        ;
    } else {
        assert(x << 63u64 == (x % 2) * 0x8000_0000_0000_0000) by (bit_vector);
        assert(top == 0x8000_0000_0000_0000);
    }
}

/// A reader of a buffer.
pub struct Reader<'a> {
    pub data: &'a [u8],
    pub pos: usize,
}

impl<'a> Reader<'a> {
    /// The position lies in the buffer or at its end.
    pub open spec fn wf(&self) -> bool {
        self.pos <= self.data@.len()
    }

    /// A reader at the start of `data`.
    pub fn new(data: &'a [u8]) -> (r: Self)
        ensures
            r.wf(),
            r.data@ == data@,
            r.pos == 0,
    {
        Reader { data, pos: 0 }
    }

    /// The number of bytes that are left.
    pub fn remaining(&self) -> (n: usize)
        requires
            self.wf(),
        ensures
            n == self.data@.len() - self.pos,
    {
        self.data.len() - self.pos
    }

    /// What a read does: it keeps the buffer, never goes back, and ends as `step`
    /// says.
    pub open spec fn reads<T>(before: Self, after: Self, r: Result<T, DecodeError>, step: Step<T>) -> bool {
        &&& after.wf()
        &&& before.pos <= after.pos
        &&& after.data == before.data
        &&& (r, after.pos as int) == step
    }

    /// What a read of a value with a model does: it keeps the buffer, never goes
    /// back, and ends as `step` says of the model.
    pub open spec fn reads_view<T: View>(
        before: Self,
        after: Self,
        r: Result<T, DecodeError>,
        step: Step<T::V>,
    ) -> bool {
        &&& after.wf()
        &&& before.pos <= after.pos
        &&& after.data == before.data
        &&& match (r, step) {
            (Ok(v), (Ok(m), q)) => v@ == m && after.pos == q,
            (Err(e), (Err(f), q)) => e == f && after.pos == q,
            _ => false,
        }
    }

    /// Reads one byte.
    pub fn read_byte(&mut self) -> (r: Result<u8, DecodeError>)
        requires
            old(self).wf(),
        ensures
            Self::reads(*old(self), *final(self), r, byte_at(old(self).data@, old(self).pos as int)),
    {
        if self.pos >= self.data.len() {
            return Err(DecodeError::UnexpectedEnd);
        }
        let b: u8 = self.data[self.pos];
        self.pos = self.pos + 1;
        Ok(b)
    }

    /// Reads `n` bytes.
    pub fn read_bytes(&mut self, n: u64) -> (r: Result<&'a [u8], DecodeError>)
        requires
            old(self).wf(),
        ensures
            final(self).wf(),
            old(self).pos <= final(self).pos,
            final(self).data == old(self).data,
            match (r, bytes_at(old(self).data@, old(self).pos as int, n as int)) {
                (Ok(s), (Ok(t), q)) => s@ == t && final(self).pos == q,
                (Err(e), (Err(f), q)) => e == f && final(self).pos == q,
                _ => false,
            },
    {
        let left: usize = self.data.len() - self.pos;
        if n > left as u64 {
            return Err(DecodeError::UnexpectedEnd);
        }
        let end: usize = self.pos + n as usize;
        let slice = vstd::slice::slice_subrange(self.data, self.pos, end);
        self.pos = end;
        Ok(slice)
    }

    /// Reads a variable-length unsigned integer.
    pub fn read_varint(&mut self) -> (r: Result<u64, DecodeError>)
        requires
            old(self).wf(),
        ensures
            Self::reads(
                *old(self),
                *final(self),
                r,
                varint_at(old(self).data@, old(self).pos as int),
            ),
            r is Ok ==> old(self).pos < final(self).pos,
    {
        let ghost d = self.data@;
        let ghost start = self.pos as int;
        let mut result: u64 = 0;
        let mut i: u64 = 0;
        proof {
            lemma2_to64();
            assert forall|rest: nat| #[trigger] (pow2(0) * rest) == rest by {
                assert(pow2(0) == 1);
            }
        }
        loop
            invariant
                self.wf(),
                old(self).pos <= self.pos,
                self.data == old(self).data,
                d == self.data@,
                start == old(self).pos,
                i <= 9,
                result < pow2((7 * i) as nat),
                match base128_at(d, self.pos as int, (9 - i) as nat) {
                    (Err(e), q) => base128_at(d, start, 9) == (Err::<nat, DecodeError>(e), q),
                    (Ok(rest), q) => base128_at(d, start, 9) == (
                        Ok::<nat, DecodeError>((result + pow2((7 * i) as nat) * rest) as nat),
                        q,
                    ),
                },
            decreases 10 - i,
        {
            let b: u8 = match self.read_byte() {
                Ok(b) => b,
                Err(e) => {
                    return Err(e);
                },
            };
            let low: u64 = (b % 128) as u64;
            let ghost acc = result;
            let ghost scale = pow2((7 * i) as nat);
            proof {
                digit_step(result, low, i);
            }
            result = result | (low << (7 * i));
            assert(scale * low == low * scale) by (nonlinear_arith);
            if b < 128 {
                return Ok(result);
            }
            if i == 9 {
                return Err(DecodeError::VarintOverflow);
            }
            proof {
                let total = acc + low * scale;
                lemma2_to64();
                lemma2_to64_rest();
                lemma_pow2_adds((7 * i) as nat, 7);
                assert(result == total) by {
                    vstd::arithmetic::div_mod::lemma_small_mod(
                        total as nat,
                        0x1_0000_0000_0000_0000,
                    );
                }
                assert forall|rest: nat| #[trigger]
                    (scale * ((b - 128 + 128 * rest) as nat)) + acc == result + pow2(
                    (7 * (i + 1)) as nat,
                ) * rest by {
                    assert(scale * (low + 128 * rest) == low * scale + (scale * 128) * rest)
                        by (nonlinear_arith);
                }
            }
            i = i + 1;
        }
    }

    /// Reads a variable-length signed integer.
    pub fn read_signed_varint(&mut self) -> (r: Result<i64, DecodeError>)
        requires
            old(self).wf(),
        ensures
            Self::reads(
                *old(self),
                *final(self),
                r,
                signed_varint_at(old(self).data@, old(self).pos as int),
            ),
    {
        let v: u64 = self.read_varint()?;
        if v % 2 == 0 {
            Ok((v / 2) as i64)
        } else {
            Ok(-1 - (v / 2) as i64)
        }
    }

    /// Reads one byte as an integer.
    pub fn read_le_u8(&mut self) -> (r: Result<u8, DecodeError>)
        requires
            old(self).wf(),
        ensures
            Self::reads(*old(self), *final(self), r, byte_at(old(self).data@, old(self).pos as int)),
    {
        self.read_byte()
    }

    /// Reads a little-endian `u16`.
    pub fn read_le_u16(&mut self) -> (r: Result<u16, DecodeError>)
        requires
            old(self).wf(),
        ensures
            final(self).wf(),
            old(self).pos <= final(self).pos,
            final(self).data == old(self).data,
            match (r, le_at(old(self).data@, old(self).pos as int, 2)) {
                (Ok(v), (Ok(n), q)) => v == n && final(self).pos == q,
                (Err(e), (Err(f), q)) => e == f && final(self).pos == q,
                _ => false,
            },
    {
        let s = self.read_bytes(2)?;
        proof {
            le_value_2(s@);
        }
        Ok(s[0] as u16 + 256 * s[1] as u16)
    }

    /// Reads a little-endian `u32`.
    pub fn read_le_u32(&mut self) -> (r: Result<u32, DecodeError>)
        requires
            old(self).wf(),
        ensures
            final(self).wf(),
            old(self).pos <= final(self).pos,
            final(self).data == old(self).data,
            match (r, le_at(old(self).data@, old(self).pos as int, 4)) {
                (Ok(v), (Ok(n), q)) => v == n && final(self).pos == q,
                (Err(e), (Err(f), q)) => e == f && final(self).pos == q,
                _ => false,
            },
    {
        let s = self.read_bytes(4)?;
        proof {
            le_value_4(s@);
        }
        Ok(s[0] as u32 + 256 * s[1] as u32 + 65536 * s[2] as u32 + 16777216 * s[3] as u32)
    }

    /// Reads a little-endian `u64`.
    pub fn read_le_u64(&mut self) -> (r: Result<u64, DecodeError>)
        requires
            old(self).wf(),
        ensures
            final(self).wf(),
            old(self).pos <= final(self).pos,
            final(self).data == old(self).data,
            match (r, le_at(old(self).data@, old(self).pos as int, 8)) {
                (Ok(v), (Ok(n), q)) => v == n && final(self).pos == q,
                (Err(e), (Err(f), q)) => e == f && final(self).pos == q,
                _ => false,
            },
    {
        let s = self.read_bytes(8)?;
        proof {
            le_value_8(s@);
            le_value_4(s@.subrange(0, 4));
            le_value_4(s@.subrange(4, 8));
        }
        let low: u64 = s[0] as u64 + 256 * s[1] as u64 + 65536 * s[2] as u64 + 16777216
            * s[3] as u64;
        let high: u64 = s[4] as u64 + 256 * s[5] as u64 + 65536 * s[6] as u64 + 16777216
            * s[7] as u64;
        Ok(low + 4294967296 * high)
    }

    /// Reads a little-endian `i64`.
    pub fn read_le_i64(&mut self) -> (r: Result<i64, DecodeError>)
        requires
            old(self).wf(),
        ensures
            Self::reads(
                *old(self),
                *final(self),
                r,
                le_i64_at(old(self).data@, old(self).pos as int),
            ),
    {
        let v: u64 = self.read_le_u64()?;
        Ok(to_signed64(v))
    }

    /// Reads a little-endian `i32`.
    pub fn read_le_i32(&mut self) -> (r: Result<i32, DecodeError>)
        requires
            old(self).wf(),
        ensures
            Self::reads(
                *old(self),
                *final(self),
                r,
                le_i32_at(old(self).data@, old(self).pos as int),
            ),
    {
        let v: u32 = self.read_le_u32()?;
        Ok(to_signed32(v))
    }

    /// Reads a count and as many little-endian `i64`s.
    pub fn read_var_size_i64(&mut self) -> (r: Result<Vec<i64>, DecodeError>)
        requires
            old(self).wf(),
        ensures
            Self::reads_view(
                *old(self),
                *final(self),
                r,
                var_i64s_at(old(self).data@, old(self).pos as int),
            ),
    {
        let n: u64 = self.read_varint()?;
        let mut out: Vec<i64> = Vec::new();
        let mut i: u64 = 0;
        while i < n
            invariant
                i <= n,
                self.wf(),
                old(self).pos <= self.pos,
                self.data == old(self).data,
                var_i64s_at(old(self).data@, old(self).pos as int) == i64s_at(
                    self.data@,
                    self.pos as int,
                    (n - i) as nat,
                    out@,
                ),
            decreases n - i,
        {
            let v: i64 = self.read_le_i64()?;
            out.push(v);
            i = i + 1;
        }
        Ok(out)
    }

    /// Reads a count and as many little-endian `i32`s.
    pub fn read_var_size_i32(&mut self) -> (r: Result<Vec<i32>, DecodeError>)
        requires
            old(self).wf(),
        ensures
            Self::reads_view(
                *old(self),
                *final(self),
                r,
                var_i32s_at(old(self).data@, old(self).pos as int),
            ),
    {
        let n: u64 = self.read_varint()?;
        let mut out: Vec<i32> = Vec::new();
        let mut i: u64 = 0;
        while i < n
            invariant
                i <= n,
                self.wf(),
                old(self).pos <= self.pos,
                self.data == old(self).data,
                var_i32s_at(old(self).data@, old(self).pos as int) == i32s_at(
                    self.data@,
                    self.pos as int,
                    (n - i) as nat,
                    out@,
                ),
            decreases n - i,
        {
            let v: i32 = self.read_le_i32()?;
            out.push(v);
            i = i + 1;
        }
        Ok(out)
    }

    /// Reads the bit pattern of a float of the given scalar type.
    pub fn read_ap_float(&mut self, scalar: ScalarType) -> (r: Result<u64, DecodeError>)
        requires
            old(self).wf(),
        ensures
            Self::reads(
                *old(self),
                *final(self),
                r,
                float_bits_at(old(self).data@, old(self).pos as int, scalar),
            ),
    {
        match scalar {
            ScalarType::F16 | ScalarType::BF16 => {
                let v: u64 = self.read_wide_float()?;
                Ok(v % 0x1_0000)
            },
            ScalarType::F32 | ScalarType::TF32 => {
                let v: u64 = self.read_wide_float()?;
                Ok(v % 0x1_0000_0000)
            },
            ScalarType::F64 => self.read_wide_float(),
            ScalarType::F8E4M3FN
            | ScalarType::F8E5M2
            | ScalarType::F8E8M0FNU
            | ScalarType::F4E2M1FN => {
                let _b: u8 = self.read_byte()?;
                Err(DecodeError::SubByteFloat)
            },
            _ => Err(DecodeError::NotAFloat(scalar)),
        }
    }

    /// Reads the bit pattern of a double.
    pub fn read_wide_float(&mut self) -> (r: Result<u64, DecodeError>)
        requires
            old(self).wf(),
        ensures
            Self::reads(
                *old(self),
                *final(self),
                r,
                wide_float_bits_at(old(self).data@, old(self).pos as int),
            ),
    {
        let v: u64 = self.read_varint()?;
        if v % 2 == 0 {
            Ok(v / 2)
        } else {
            Ok(u64::MAX - v / 2)
        }
    }

    /// Skips the alignment bytes up to the next multiple of `alignment`.
    pub fn skip_padding(&mut self, alignment: u64) -> (r: Result<(), DecodeError>)
        requires
            old(self).wf(),
        ensures
            Self::reads(
                *old(self),
                *final(self),
                r,
                padding_at(old(self).data@, old(self).pos as int, alignment),
            ),
    {
        if alignment < 2 {
            return Ok(());
        }
        let n: u64 = (alignment - (self.pos as u64 % alignment)) % alignment;
        let mut i: u64 = 0;
        while i < n
            invariant
                i <= n,
                self.wf(),
                old(self).pos <= self.pos,
                self.data == old(self).data,
                padding_at(old(self).data@, old(self).pos as int, alignment) == fill_at(
                    self.data@,
                    self.pos as int,
                    (n - i) as nat,
                ),
            decreases n - i,
        {
            let b: u8 = self.read_byte()?;
            if b != ALIGNMENT_BYTE {
                return Err(DecodeError::PaddingByte(b));
            }
            i = i + 1;
        }
        Ok(())
    }

    /// Reads the magic number and the version.
    pub fn read_header(&mut self) -> (r: Result<BytecodeVersion, DecodeError>)
        requires
            old(self).wf(),
        ensures
            Self::reads(
                *old(self),
                *final(self),
                r,
                header_at(old(self).data@, old(self).pos as int),
            ),
    {
        let magic = self.read_bytes(8)?;
        if !is_magic(magic) {
            return Err(DecodeError::InvalidMagic);
        }
        let major: u8 = self.read_le_u8()?;
        let minor: u8 = self.read_le_u8()?;
        let tag: u16 = self.read_le_u16()?;
        Ok(BytecodeVersion { major, minor, tag })
    }

    /// Reads a section header.
    pub fn read_section_header(&mut self) -> (r: Result<SectionHeader, DecodeError>)
        requires
            old(self).wf(),
        ensures
            Self::reads(
                *old(self),
                *final(self),
                r,
                section_header_at(old(self).data@, old(self).pos as int),
            ),
    {
        let id_and_align: u8 = self.read_byte()?;
        let id: u8 = id_and_align % 128;
        let has_alignment = id_and_align >= 128;
        if id == Section::EndOfBytecode.id() {
            return Ok(SectionHeader { id, data_len: 0 });
        }
        let data_len: u64 = self.read_varint()?;
        if has_alignment {
            let alignment: u64 = self.read_varint()?;
            self.skip_padding(alignment)?;
        }
        Ok(SectionHeader { id, data_len })
    }
}

/// Whether eight bytes are the magic number.
fn is_magic(s: &[u8]) -> (b: bool)
    requires
        s@.len() == 8,
    ensures
        b == (s@ == MAGIC@),
{
    let magic: [u8; 8] = MAGIC;
    let mut i: usize = 0;
    while i < 8
        invariant
            i <= 8,
            s@.len() == 8,
            magic == MAGIC,
            forall|j: int| 0 <= j < i ==> s@[j] == magic@[j],
        decreases 8 - i,
    {
        if s[i] != magic[i] {
            return false;
        }
        i = i + 1;
    }
    assert(s@ =~= MAGIC@);
    true
}

/// The two's complement reading of 64 bits.
pub fn to_signed64(v: u64) -> (r: i64)
    ensures
        r == signed64(v as nat),
{
    if v < 0x8000_0000_0000_0000 {
        v as i64
    } else {
        -1 - (u64::MAX - v) as i64
    }
}

/// The two's complement reading of 32 bits.
pub fn to_signed32(v: u32) -> (r: i32)
    ensures
        r == signed32(v as nat),
{
    if v < 0x8000_0000 {
        v as i32
    } else {
        -1 - (u32::MAX - v) as i32
    }
}

} // verus!
