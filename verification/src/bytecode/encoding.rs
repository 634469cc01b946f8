//! The byte forms of values, and what the reader gives back of them.
//!
//! A form says which bytes stand for a value. The laws say that wherever a buffer
//! holds the form of a value, the reader gives back that value and stops behind it.

use vstd::arithmetic::power::*;
use vstd::prelude::*;

use crate::bytecode::reader;
use crate::bytecode::reader::Step;
use crate::error::DecodeError;
use crate::ir::ScalarType;

verus! {

/// A buffer holds the bytes `s` at `p`.
pub open spec fn holds(d: Seq<u8>, p: int, s: Seq<u8>) -> bool {
    0 <= p && p + s.len() <= d.len() && d.subrange(p, p + s.len()) == s
}

/// The result of a read that succeeds.
pub open spec fn read_ok<T>(v: T, q: int) -> Step<T> {
    (Ok(v), q)
}

/// A buffer that holds two byte strings one behind the other holds each of them.
pub proof fn holds_split(d: Seq<u8>, p: int, a: Seq<u8>, b: Seq<u8>)
    requires
        holds(d, p, a + b),
    ensures
        holds(d, p, a),
        holds(d, p + a.len(), b),
{
    assert(d.subrange(p, p + a.len()) =~= a) by {
        assert forall|i: int| 0 <= i < a.len() implies d[p + i] == a[i] by {
            assert((a + b)[i] == d.subrange(p, p + (a + b).len())[i]);
        }
    }
    assert(d.subrange(p + a.len(), p + a.len() + b.len()) =~= b) by {
        assert forall|i: int| 0 <= i < b.len() implies d[p + a.len() + i] == b[i] by {
            assert((a + b)[a.len() + i] == d.subrange(p, p + (a + b).len())[a.len() + i]);
        }
    }
}

/// The form of a variable-length unsigned integer.
pub open spec fn varint_form(v: nat) -> Seq<u8>
    decreases v,
{
    if v < 128 {
        seq![v as u8]
    } else {
        seq![(v % 128 + 128) as u8] + varint_form(v / 128)
    }
}

/// A base-128 number that fits into its digits is read back.
proof fn base128_round_trip(d: Seq<u8>, p: int, v: nat, more: nat)
    requires
        holds(d, p, varint_form(v)),
        v < pow(128, more + 1),
    ensures
        reader::base128_at(d, p, more) == read_ok(v, p + varint_form(v).len()),
    decreases v,
{
    if v < 128 {
        assert(d.subrange(p, p + 1)[0] == d[p]);
    } else {
        let first = seq![(v % 128 + 128) as u8];
        holds_split(d, p, first, varint_form(v / 128));
        assert(d.subrange(p, p + 1)[0] == d[p]);
        if more == 0 {
            lemma_pow1(128);
        } else {
            lemma_pow_adds(128, 1, more);
            lemma_pow1(128);
            assert(v / 128 < pow(128, more)) by (nonlinear_arith)
                requires
                    v < 128 * pow(128, more),
            ;
            base128_round_trip(d, p + 1, v / 128, (more - 1) as nat);
        }
    }
}

/// A variable-length unsigned integer is read back.
pub proof fn varint_round_trip(d: Seq<u8>, p: int, v: u64)
    requires
        holds(d, p, varint_form(v as nat)),
    ensures
        reader::varint_at(d, p) == read_ok(v, p + varint_form(v as nat).len()),
{
    assert(pow(128, 10) >= 0x1_0000_0000_0000_0000) by {
        reveal_with_fuel(pow, 11);
    }
    base128_round_trip(d, p, v as nat, 9);
}

/// The unsigned number that stands for a signed one: signs alternate.
pub open spec fn unzigzag(v: i64) -> nat {
    if v >= 0 {
        (2 * v) as nat
    } else {
        (-2 * v - 1) as nat
    }
}

/// The form of a variable-length signed integer.
pub open spec fn signed_varint_form(v: i64) -> Seq<u8> {
    varint_form(unzigzag(v))
}

/// A variable-length signed integer is read back.
pub proof fn signed_varint_round_trip(d: Seq<u8>, p: int, v: i64)
    requires
        holds(d, p, signed_varint_form(v)),
    ensures
        reader::signed_varint_at(d, p) == read_ok(v, p + signed_varint_form(v).len()),
{
    varint_round_trip(d, p, unzigzag(v) as u64);
}

/// The form of a little-endian integer of `width` bytes.
pub open spec fn le_form(n: nat, width: nat) -> Seq<u8>
    decreases width,
{
    if width == 0 {
        Seq::empty()
    } else {
        seq![(n % 256) as u8] + le_form(n / 256, (width - 1) as nat)
    }
}

/// A little-endian form has its width, and the value of the number where it fits.
pub proof fn le_form_value(n: nat, width: nat)
    requires
        n < pow(256, width),
    ensures
        le_form(n, width).len() == width,
        reader::le_value(le_form(n, width)) == n,
    decreases width,
{
    if width == 0 {
        lemma_pow0(256);
    } else {
        lemma_pow_adds(256, 1, (width - 1) as nat);
        lemma_pow1(256);
        assert(n / 256 < pow(256, (width - 1) as nat)) by (nonlinear_arith)
            requires
                n < 256 * pow(256, (width - 1) as nat),
        ;
        le_form_value(n / 256, (width - 1) as nat);
        let rest = le_form(n / 256, (width - 1) as nat);
        assert(le_form(n, width).skip(1) =~= rest);
    }
}

/// A little-endian integer is read back.
pub proof fn le_round_trip(d: Seq<u8>, p: int, n: nat, width: nat)
    requires
        holds(d, p, le_form(n, width)),
        n < pow(256, width),
    ensures
        reader::le_at(d, p, width as int) == read_ok(n, p + width),
{
    le_form_value(n, width);
}

/// What two, four and eight bytes can hold.
pub proof fn byte_widths()
    ensures
        pow(256, 2) == 0x1_0000,
        pow(256, 4) == 0x1_0000_0000,
        pow(256, 8) == 0x1_0000_0000_0000_0000,
{
    reveal_with_fuel(pow, 9);
}

/// The 64 bits of a signed integer.
pub open spec fn bits64(v: i64) -> nat {
    if v >= 0 {
        v as nat
    } else {
        (v + 0x1_0000_0000_0000_0000) as nat
    }
}

/// The 32 bits of a signed integer.
pub open spec fn bits32(v: i32) -> nat {
    if v >= 0 {
        v as nat
    } else {
        (v + 0x1_0000_0000) as nat
    }
}

/// A little-endian `i64` is read back.
pub proof fn le_i64_round_trip(d: Seq<u8>, p: int, v: i64)
    requires
        holds(d, p, le_form(bits64(v), 8)),
    ensures
        reader::le_i64_at(d, p) == read_ok(v, p + 8),
{
    byte_widths();
    le_round_trip(d, p, bits64(v), 8);
}

/// A little-endian `i32` is read back.
pub proof fn le_i32_round_trip(d: Seq<u8>, p: int, v: i32)
    requires
        holds(d, p, le_form(bits32(v), 4)),
    ensures
        reader::le_i32_at(d, p) == read_ok(v, p + 4),
{
    byte_widths();
    le_round_trip(d, p, bits32(v), 4);
}

/// The form of a list of `i64`s.
pub open spec fn i64s_form(s: Seq<i64>) -> Seq<u8>
    decreases s.len(),
{
    if s.len() == 0 {
        Seq::empty()
    } else {
        le_form(bits64(s[0]), 8) + i64s_form(s.skip(1))
    }
}

/// The form of a list of `i32`s.
pub open spec fn i32s_form(s: Seq<i32>) -> Seq<u8>
    decreases s.len(),
{
    if s.len() == 0 {
        Seq::empty()
    } else {
        le_form(bits32(s[0]), 4) + i32s_form(s.skip(1))
    }
}

/// A list of `i64`s is read back, behind those read before it.
proof fn i64s_round_trip(d: Seq<u8>, p: int, s: Seq<i64>, acc: Seq<i64>)
    requires
        holds(d, p, i64s_form(s)),
    ensures
        reader::i64s_at(d, p, s.len(), acc) == read_ok(acc + s, p + i64s_form(s).len()),
    decreases s.len(),
{
    if s.len() == 0 {
        assert(acc + s =~= acc);
    } else {
        let first = le_form(bits64(s[0]), 8);
        holds_split(d, p, first, i64s_form(s.skip(1)));
        byte_widths();
        le_form_value(bits64(s[0]), 8);
        le_i64_round_trip(d, p, s[0]);
        i64s_round_trip(d, p + 8, s.skip(1), acc.push(s[0]));
        assert(acc.push(s[0]) + s.skip(1) =~= acc + s);
    }
}

/// A list of `i32`s is read back, behind those read before it.
proof fn i32s_round_trip(d: Seq<u8>, p: int, s: Seq<i32>, acc: Seq<i32>)
    requires
        holds(d, p, i32s_form(s)),
    ensures
        reader::i32s_at(d, p, s.len(), acc) == read_ok(acc + s, p + i32s_form(s).len()),
    decreases s.len(),
{
    if s.len() == 0 {
        assert(acc + s =~= acc);
    } else {
        let first = le_form(bits32(s[0]), 4);
        holds_split(d, p, first, i32s_form(s.skip(1)));
        byte_widths();
        le_form_value(bits32(s[0]), 4);
        le_i32_round_trip(d, p, s[0]);
        i32s_round_trip(d, p + 4, s.skip(1), acc.push(s[0]));
        assert(acc.push(s[0]) + s.skip(1) =~= acc + s);
    }
}

/// The form of a counted list of `i64`s.
pub open spec fn var_i64s_form(s: Seq<i64>) -> Seq<u8> {
    varint_form(s.len()) + i64s_form(s)
}

/// The form of a counted list of `i32`s.
pub open spec fn var_i32s_form(s: Seq<i32>) -> Seq<u8> {
    varint_form(s.len()) + i32s_form(s)
}

/// A counted list of `i64`s is read back.
pub proof fn var_i64s_round_trip(d: Seq<u8>, p: int, s: Seq<i64>)
    requires
        holds(d, p, var_i64s_form(s)),
        s.len() <= u64::MAX,
    ensures
        reader::var_i64s_at(d, p) == read_ok(s, p + var_i64s_form(s).len()),
{
    holds_split(d, p, varint_form(s.len()), i64s_form(s));
    varint_round_trip(d, p, s.len() as u64);
    i64s_round_trip(d, p + varint_form(s.len()).len(), s, Seq::empty());
    assert(Seq::<i64>::empty() + s =~= s);
}

/// A counted list of `i32`s is read back.
pub proof fn var_i32s_round_trip(d: Seq<u8>, p: int, s: Seq<i32>)
    requires
        holds(d, p, var_i32s_form(s)),
        s.len() <= u64::MAX,
    ensures
        reader::var_i32s_at(d, p) == read_ok(s, p + var_i32s_form(s).len()),
{
    holds_split(d, p, varint_form(s.len()), i32s_form(s));
    varint_round_trip(d, p, s.len() as u64);
    i32s_round_trip(d, p + varint_form(s.len()).len(), s, Seq::empty());
    assert(Seq::<i32>::empty() + s =~= s);
}

/// The width in bits of a float type, where its values are read.
pub open spec fn float_width(scalar: ScalarType) -> Option<nat> {
    match scalar {
        ScalarType::F16 | ScalarType::BF16 => Some(0x1_0000),
        ScalarType::F32 | ScalarType::TF32 => Some(0x1_0000_0000),
        ScalarType::F64 => Some(0x1_0000_0000_0000_0000),
        _ => None,
    }
}

/// The form of the bit pattern of a float: a signed variable-length integer with
/// these bits.
pub open spec fn float_form(bits: u64) -> Seq<u8> {
    signed_varint_form(reader::signed64(bits as nat))
}

/// The bit pattern of a double is read back.
pub proof fn wide_float_round_trip(d: Seq<u8>, p: int, bits: u64)
    requires
        holds(d, p, float_form(bits)),
    ensures
        reader::wide_float_bits_at(d, p) == read_ok(bits, p + float_form(bits).len()),
{
    signed_varint_round_trip(d, p, reader::signed64(bits as nat));
}

/// The bit pattern of a float is read back, where it fits into the type.
pub proof fn float_round_trip(d: Seq<u8>, p: int, bits: u64, scalar: ScalarType)
    requires
        holds(d, p, float_form(bits)),
        float_width(scalar) is Some,
        bits < float_width(scalar)->Some_0,
    ensures
        reader::float_bits_at(d, p, scalar) == read_ok(bits, p + float_form(bits).len()),
{
    signed_varint_round_trip(d, p, reader::signed64(bits as nat));
}

} // verus!
