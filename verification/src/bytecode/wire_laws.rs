//! What single bytes and numbers of a buffer mean.
//!
//! The laws speak of the bytes themselves: which of them make up a number, what the tags, the
//! flags and the codes are, and what stands in the headers.

use vstd::arithmetic::div_mod::*;
use vstd::arithmetic::mul::*;
use vstd::arithmetic::power::*;
use vstd::prelude::*;

use crate::bytecode::enums;
use crate::bytecode::enums::{
    AttributeTag, BytecodeVersion, FunctionFlag, Section, TypeTag,
};
use crate::bytecode::opcode;
use crate::bytecode::opcode::Opcode;
use crate::bytecode::op_laws;
use crate::bytecode::reader;
use crate::bytecode::sections;
use crate::bytecode::types;
use crate::error::DecodeError;
use crate::ir::{PaddingValue, ScalarType};
use crate::text;

verus! {

// ---- numbers ----

/// The number that the low seven bits of `n` bytes make up, the lowest first.
pub open spec fn sevens(d: Seq<u8>, p: int, n: nat) -> int
    decreases n,
{
    if n == 0 {
        0
    } else {
        sevens(d, p, (n - 1) as nat) + (d[p + n - 1] as int % 128) * pow(128, (n - 1) as nat)
    }
}

proof fn lowest_first(d: Seq<u8>, p: int, n: nat)
    requires
        n > 0,
    ensures
        sevens(d, p, n) == d[p] as int % 128 + 128 * sevens(d, p + 1, (n - 1) as nat),
    decreases n,
{
    reveal(pow);
    if n == 1 {
        assert(sevens(d, p, 0) == 0);
        assert(sevens(d, p + 1, 0) == 0);
        lemma_pow0(128);
    } else {
        lowest_first(d, p, (n - 1) as nat);
        let a = sevens(d, p + 1, (n - 2) as nat);
        let digit = d[p + n - 1] as int % 128;
        let w = pow(128, (n - 2) as nat);
        assert(pow(128, (n - 1) as nat) == 128 * w);
        assert(sevens(d, p + 1, (n - 1) as nat) == a + digit * w) by {
            assert(d[(p + 1) + (n - 1) - 1] == d[p + n - 1]);
        }
        assert(128 * (a + digit * w) == 128 * a + digit * (128 * w)) by (nonlinear_arith);
    }
}

proof fn base128_is_sevens(d: Seq<u8>, p: int, n: nat, more: nat)
    requires
        n <= more,
        p + n < d.len(),
        forall|i: int| p <= i < p + n ==> d[i] >= 128,
        d[p + n] < 128,
    ensures
        reader::base128_at(d, p, more) == (
            Ok::<nat, DecodeError>(sevens(d, p, n + 1) as nat),
            p + n + 1,
        ),
        sevens(d, p, n + 1) >= 0,
    decreases n,
{
    lowest_first(d, p, n + 1);
    if n == 0 {
        assert(sevens(d, p + 1, 0) == 0);
    } else {
        assert(d[p] >= 128);
        base128_is_sevens(d, p + 1, (n - 1) as nat, (more - 1) as nat);
    }
}

proof fn base128_goes_on(d: Seq<u8>, p: int, n: nat, more: nat)
    requires
        p + n <= d.len(),
        n <= more + 1,
        forall|i: int| p <= i < p + n ==> d[i] >= 128,
        n == more + 1 || p + n == d.len(),
    ensures
        reader::base128_at(d, p, more).0 == Err::<nat, DecodeError>(
            if n == more + 1 {
                DecodeError::VarintOverflow
            } else {
                DecodeError::UnexpectedEnd
            },
        ),
    decreases n,
{
    if n > 0 {
        assert(d[p] >= 128);
        if more > 0 {
            base128_goes_on(d, p + 1, (n - 1) as nat, (more - 1) as nat);
        }
    }
}

/// A number is the low seven bits of its bytes, the lowest first, cut to 64 bits. All of its
/// bytes but the last are 128 or more, and there are at most ten. Ten that are not the last
/// are too many, and fewer at the end of the buffer too few.
pub proof fn numbers_are_made_of_seven_bits(d: Seq<u8>, p: int, n: nat)
    requires
        0 <= p,
        p + n <= d.len(),
        n <= 10,
        forall|i: int| p <= i < p + n ==> d[i] >= 128,
    ensures
        n < 10 && p + n < d.len() && d[p + n] < 128 ==> reader::varint_at(d, p) == (
            Ok::<u64, DecodeError>((sevens(d, p, n + 1) % 0x1_0000_0000_0000_0000) as u64),
            p + n + 1,
        ),
        n == 10 ==> reader::varint_at(d, p).0 == Err::<u64, DecodeError>(
            DecodeError::VarintOverflow,
        ),
        n < 10 && p + n == d.len() ==> reader::varint_at(d, p).0 == Err::<u64, DecodeError>(
            DecodeError::UnexpectedEnd,
        ),
{
    if n < 10 && p + n < d.len() && d[p + n] < 128 {
        base128_is_sevens(d, p, n, 9);
    }
    if n == 10 || p + n == d.len() {
        base128_goes_on(d, p, n, 9);
    }
}

/// A signed number is an unsigned one in which the signs alternate: twice the number where it
/// is not negative, and one less than twice its absolute value where it is.
pub proof fn signs_alternate(v: u64)
    ensures
        reader::zigzag(v) >= 0 ==> v == 2 * reader::zigzag(v),
        reader::zigzag(v) < 0 ==> v == -2 * reader::zigzag(v) - 1,
{
}

/// The numbers of a fixed width have their lowest byte first, and the signed ones are the
/// unsigned ones less the number of all, where the highest bit is set.
pub proof fn fixed_widths_are_lowest_first(d: Seq<u8>, p: int)
    requires
        0 <= p,
    ensures
        p + 2 <= d.len() ==> reader::le_at(d, p, 2) == (
            Ok::<nat, DecodeError>((d[p] + 256 * d[p + 1]) as nat),
            p + 2,
        ),
        p + 4 <= d.len() ==> {
            let n = d[p] + 0x100 * d[p + 1] + 0x1_0000 * d[p + 2] + 0x100_0000 * d[p + 3];
            &&& reader::le_at(d, p, 4) == (Ok::<nat, DecodeError>(n as nat), p + 4)
            &&& reader::le_i32_at(d, p).0 matches Ok(v) && v == (if d[p + 3] < 128 {
                n
            } else {
                n - 0x1_0000_0000
            })
        },
        p + 8 <= d.len() ==> {
            let n = d[p] + 0x100 * d[p + 1] + 0x1_0000 * d[p + 2] + 0x100_0000 * d[p + 3]
                + 0x1_0000_0000 * d[p + 4] + 0x100_0000_0000 * d[p + 5] + 0x1_0000_0000_0000 * d[p
                + 6] + 0x100_0000_0000_0000 * d[p + 7];
            &&& reader::le_at(d, p, 8) == (Ok::<nat, DecodeError>(n as nat), p + 8)
            &&& reader::le_i64_at(d, p).0 matches Ok(v) && v == (if d[p + 7] < 128 {
                n
            } else {
                n - 0x1_0000_0000_0000_0000
            })
        },
        p + 2 > d.len() ==> reader::le_at(d, p, 2).0 is Err,
        p + 4 > d.len() ==> reader::le_at(d, p, 4).0 is Err,
        p + 8 > d.len() ==> reader::le_at(d, p, 8).0 is Err,
{
    if p + 2 <= d.len() {
        bytes_have_their_weight(d.subrange(p, p + 2));
    }
    if p + 4 <= d.len() {
        bytes_have_their_weight(d.subrange(p, p + 4));
    }
    if p + 8 <= d.len() {
        bytes_have_their_weight(d.subrange(p, p + 8));
    }
}

#[verifier::rlimit(40)]
proof fn bytes_have_their_weight(s: Seq<u8>)
    requires
        s.len() == 2 || s.len() == 4 || s.len() == 8,
    ensures
        s.len() == 2 ==> reader::le_value(s) == s[0] + 256 * s[1],
        s.len() == 4 ==> reader::le_value(s) == s[0] + 0x100 * s[1] + 0x1_0000 * s[2] + 0x100_0000
            * s[3],
        s.len() == 8 ==> reader::le_value(s) == s[0] + 0x100 * s[1] + 0x1_0000 * s[2] + 0x100_0000
            * s[3] + 0x1_0000_0000 * s[4] + 0x100_0000_0000 * s[5] + 0x1_0000_0000_0000 * s[6]
            + 0x100_0000_0000_0000 * s[7],
{
    let s1 = s.skip(1);
    let s2 = s1.skip(1);
    assert(reader::le_value(s) == s[0] + 256 * reader::le_value(s1));
    assert(reader::le_value(s1) == s[1] + 256 * reader::le_value(s2));
    if s.len() == 2 {
        assert(reader::le_value(s2) == 0);
    } else {
        let s3 = s2.skip(1);
        let s4 = s3.skip(1);
        assert(reader::le_value(s2) == s[2] + 256 * reader::le_value(s3));
        assert(reader::le_value(s3) == s[3] + 256 * reader::le_value(s4));
        if s.len() == 4 {
            assert(reader::le_value(s4) == 0);
        } else {
            let s5 = s4.skip(1);
            let s6 = s5.skip(1);
            let s7 = s6.skip(1);
            let s8 = s7.skip(1);
            assert(reader::le_value(s4) == s[4] + 256 * reader::le_value(s5));
            assert(reader::le_value(s5) == s[5] + 256 * reader::le_value(s6));
            assert(reader::le_value(s6) == s[6] + 256 * reader::le_value(s7));
            assert(reader::le_value(s7) == s[7] + 256 * reader::le_value(s8));
            assert(reader::le_value(s8) == 0);
        }
    }
}

proof fn i64s_have_their_places(d: Seq<u8>, p: int, n: nat, acc: Seq<i64>)
    requires
        0 <= p,
    ensures
        reader::i64s_at(d, p, n, acc).0 is Ok <==> n == 0 || p + 8 * n <= d.len(),
        reader::i64s_at(d, p, n, acc).0 matches Ok(v) ==> {
            &&& reader::i64s_at(d, p, n, acc).1 == p + 8 * n
            &&& v.len() == acc.len() + n
            &&& forall|i: int| 0 <= i < acc.len() ==> v[i] == acc[i]
            &&& forall|i: int|
                acc.len() <= i < v.len() ==> Ok::<i64, DecodeError>(#[trigger] v[i])
                    == reader::le_i64_at(d, p + 8 * (i - acc.len())).0
        },
    decreases n,
{
    if n > 0 {
        if let (Ok(x), q) = reader::le_i64_at(d, p) {
            i64s_have_their_places(d, q, (n - 1) as nat, acc.push(x));
        }
    }
}

proof fn i32s_have_their_places(d: Seq<u8>, p: int, n: nat, acc: Seq<i32>)
    requires
        0 <= p,
    ensures
        reader::i32s_at(d, p, n, acc).0 is Ok <==> n == 0 || p + 4 * n <= d.len(),
        reader::i32s_at(d, p, n, acc).0 matches Ok(v) ==> {
            &&& reader::i32s_at(d, p, n, acc).1 == p + 4 * n
            &&& v.len() == acc.len() + n
            &&& forall|i: int| 0 <= i < acc.len() ==> v[i] == acc[i]
            &&& forall|i: int|
                acc.len() <= i < v.len() ==> Ok::<i32, DecodeError>(#[trigger] v[i])
                    == reader::le_i32_at(d, p + 4 * (i - acc.len())).0
        },
    decreases n,
{
    if n > 0 {
        if let (Ok(x), q) = reader::le_i32_at(d, p) {
            i32s_have_their_places(d, q, (n - 1) as nat, acc.push(x));
        }
    }
}

/// A list of integers is a count and as many integers of eight bytes, or of four, one behind
/// the other.
pub proof fn lists_are_counted(d: Seq<u8>, p: int)
    requires
        0 <= p <= d.len(),
    ensures
        ({
            let q = op_laws::behind(d, p, 1);
            let n = op_laws::number(d, p, 0);
            &&& reader::var_i64s_at(d, p).0 is Ok <==> q is Some && (n == 0 || q->0 + 8 * n
                <= d.len())
            &&& reader::var_i32s_at(d, p).0 is Ok <==> q is Some && (n == 0 || q->0 + 4 * n
                <= d.len())
            &&& reader::var_i64s_at(d, p).0 matches Ok(v) ==> {
                &&& v.len() == n
                &&& reader::var_i64s_at(d, p).1 == q->0 + 8 * n
                &&& forall|i: int|
                    0 <= i < n ==> Ok::<i64, DecodeError>(#[trigger] v[i]) == reader::le_i64_at(
                        d,
                        q->0 + 8 * i,
                    ).0
            }
            &&& reader::var_i32s_at(d, p).0 matches Ok(v) ==> {
                &&& v.len() == n
                &&& reader::var_i32s_at(d, p).1 == q->0 + 4 * n
                &&& forall|i: int|
                    0 <= i < n ==> Ok::<i32, DecodeError>(#[trigger] v[i]) == reader::le_i32_at(
                        d,
                        q->0 + 4 * i,
                    ).0
            }
        }),
{
    reader::varint_advances(d, p);
    let q = reader::varint_at(d, p).1;
    assert(op_laws::behind(d, q, 0) == Some(q));
    if let (Ok(n), q) = reader::varint_at(d, p) {
        i64s_have_their_places(d, q, n as nat, Seq::empty());
        i32s_have_their_places(d, q, n as nat, Seq::empty());
    }
}

/// The bits of a float are the low bits of a signed number: 16, 32 or 64 of them, as its type
/// has. The formats of a byte take a byte and are refused, and what is no float is refused.
pub proof fn floats_are_the_low_bits(d: Seq<u8>, p: int, scalar: ScalarType)
    ensures
        ({
            let width = match scalar {
                ScalarType::F16 | ScalarType::BF16 => 0x1_0000int,
                ScalarType::F32 | ScalarType::TF32 => 0x1_0000_0000int,
                ScalarType::F64 => 0x1_0000_0000_0000_0000int,
                _ => 0int,
            };
            let read = reader::float_bits_at(d, p, scalar);
            let signed = reader::signed_varint_at(d, p);
            &&& width > 0 ==> (read.0 is Ok <==> signed.0 is Ok) && read.1 == signed.1
            &&& width > 0 && signed.0 is Ok ==> read.0->Ok_0 < width && (signed.0->Ok_0
                - read.0->Ok_0) % width == 0
            &&& width == 0 ==> read.0 is Err
            &&& scalar is I1 || scalar is I4 || scalar is I8 || scalar is I16 || scalar is I32
                || scalar is I64 ==> read == (
                Err::<u64, DecodeError>(DecodeError::NotAFloat(scalar)),
                p,
            )
            &&& (scalar is F8E4M3FN || scalar is F8E5M2 || scalar is F8E8M0FNU
                || scalar is F4E2M1FN) && p < d.len() ==> read == (
                Err::<u64, DecodeError>(DecodeError::SubByteFloat),
                p + 1,
            )
        }),
{
    if let (Ok(v), _) = reader::signed_varint_at(d, p) {
        let v = v as int;
        lemma_fundamental_div_mod(v, 0x1_0000);
        lemma_fundamental_div_mod(v, 0x1_0000_0000);
        lemma_fundamental_div_mod(v, 0x1_0000_0000_0000_0000);
        lemma_mod_multiples_basic(v / 0x1_0000, 0x1_0000);
        lemma_mod_multiples_basic(v / 0x1_0000_0000, 0x1_0000_0000);
        lemma_mod_multiples_basic(v / 0x1_0000_0000_0000_0000, 0x1_0000_0000_0000_0000);
    }
}

// ---- padding and headers ----

proof fn fills_are_alike(d: Seq<u8>, p: int, n: nat)
    requires
        0 <= p,
    ensures
        reader::fill_at(d, p, n).0 is Ok <==> (n == 0 || p + n <= d.len()) && forall|i: int|
            p <= i < p + n ==> d[i] == 0xCB,
        reader::fill_at(d, p, n).0 is Ok ==> reader::fill_at(d, p, n).1 == p + n,
    decreases n,
{
    if n > 0 {
        if p < d.len() && d[p] == 0xCB {
            fills_are_alike(d, p + 1, (n - 1) as nat);
        }
    }
}

/// Padding runs up to the next multiple of the alignment, is shorter than the alignment, and
/// consists of one byte, 0xCB. There is none where the alignment is less than two.
pub proof fn padding_reaches_the_alignment(d: Seq<u8>, p: int, alignment: u64)
    requires
        0 <= p,
    ensures
        ({
            let q = reader::padding_at(d, p, alignment).1;
            &&& alignment < 2 ==> reader::padding_at(d, p, alignment) == (
                Ok::<(), DecodeError>(()),
                p,
            )
            &&& reader::padding_at(d, p, alignment).0 is Ok ==> {
                &&& p <= q
                &&& alignment >= 2 ==> q % alignment as int == 0 && q < p + alignment
                &&& forall|i: int| p <= i < q ==> d[i] == 0xCB
            }
        }),
{
    let gap = reader::gap(p, alignment);
    if alignment >= 2 {
        let a = alignment as int;
        lemma_fundamental_div_mod(p, a);
        lemma_mod_bound(p, a);
        lemma_mod_bound(a - p % a, a);
        if p % a == 0 {
            lemma_mod_self_0(a);
            assert(gap == 0);
        } else {
            lemma_small_mod((a - p % a) as nat, a as nat);
            assert(p + gap == a * (p / a) + a);
            lemma_mul_is_distributive_add(a, p / a, 1);
            lemma_mul_is_commutative(a, p / a + 1);
            lemma_mod_multiples_basic(p / a + 1, a);
        }
    }
    fills_are_alike(d, p, gap as nat);
}

proof fn first_other_byte(d: Seq<u8>, p: int, n: nat, k: int)
    requires
        0 <= p <= k < p + n,
        k <= d.len(),
        forall|i: int| p <= i < k ==> d[i] == 0xCB,
        k < d.len() ==> d[k] != 0xCB,
    ensures
        reader::fill_at(d, p, n).0 == Err::<(), DecodeError>(
            if k < d.len() {
                DecodeError::PaddingByte(d[k])
            } else {
                DecodeError::UnexpectedEnd
            },
        ),
    decreases n,
{
    if p < k {
        first_other_byte(d, p + 1, (n - 1) as nat, k);
    }
}

/// Padding is read wherever its bytes are there: up to the place `q` that is the next multiple
/// of the alignment. The first byte before it that is another one is refused by its value, and
/// where the bytes end before it, they end too early.
pub proof fn padding_is_read_where_it_stands(d: Seq<u8>, p: int, alignment: u64, q: int, k: int)
    requires
        0 <= p <= q < p + alignment,
        2 <= alignment,
        q % alignment as int == 0,
    ensures
        ({
            let read = reader::padding_at(d, p, alignment);
            &&& q <= d.len() && (forall|i: int| p <= i < q ==> d[i] == 0xCB) ==> read.0 is Ok
                && read.1 == q
            &&& p <= k < q && k < d.len() && d[k] != 0xCB && (forall|i: int|
                p <= i < k ==> d[i] == 0xCB) ==> read.0 == Err::<(), DecodeError>(
                DecodeError::PaddingByte(d[k]),
            )
            &&& p <= d.len() < q && (forall|i: int| p <= i < d.len() ==> d[i] == 0xCB) ==> read.0
                == Err::<(), DecodeError>(DecodeError::UnexpectedEnd)
        }),
{
    let a = alignment as int;
    let gap = reader::gap(p, alignment);
    lemma_fundamental_div_mod(p, a);
    lemma_mod_bound(p, a);
    lemma_mod_bound(a - p % a, a);
    if p % a == 0 {
        lemma_mod_self_0(a);
        assert(gap == 0);
    } else {
        lemma_small_mod((a - p % a) as nat, a as nat);
        assert(p + gap == a * (p / a) + a);
        lemma_mul_is_distributive_add(a, p / a, 1);
        lemma_mul_is_commutative(a, p / a + 1);
        lemma_mod_multiples_basic(p / a + 1, a);
    }
    let e = p + gap;
    lemma_fundamental_div_mod(q, a);
    lemma_fundamental_div_mod(e, a);
    let x = q / a;
    let y = e / a;
    assert(q == e) by (nonlinear_arith)
        requires
            q == a * x,
            e == a * y,
            0 < a,
            q - e < a,
            e - q < a,
    ;
    fills_are_alike(d, p, gap as nat);
    if p <= k < q && k < d.len() && d[k] != 0xCB && (forall|i: int| p <= i < k ==> d[i] == 0xCB) {
        first_other_byte(d, p, gap as nat, k);
    }
    if p <= d.len() < q && (forall|i: int| p <= i < d.len() ==> d[i] == 0xCB) {
        first_other_byte(d, p, gap as nat, d.len() as int);
    }
}

/// A header is the eight bytes 0x7F, `TileIR` and 0, the two parts of the version, and a tag
/// of two bytes.
pub proof fn headers_name_the_format(d: Seq<u8>, p: int)
    requires
        0 <= p,
    ensures
        ({
            let magic = p + 8 <= d.len() && d[p] == 0x7F && d[p + 1] == 'T' as u8 && d[p + 2]
                == 'i' as u8 && d[p + 3] == 'l' as u8 && d[p + 4] == 'e' as u8 && d[p + 5]
                == 'I' as u8 && d[p + 6] == 'R' as u8 && d[p + 7] == 0;
            let read = reader::header_at(d, p);
            &&& read.0 is Ok <==> magic && p + 12 <= d.len()
            &&& read.0 matches Ok(v) ==> {
                &&& read.1 == p + 12
                &&& v.major == d[p + 8]
                &&& v.minor == d[p + 9]
                &&& v.tag == d[p + 10] + 256 * d[p + 11]
            }
            &&& p + 8 <= d.len() && !magic ==> read.0 == Err::<BytecodeVersion, DecodeError>(
                DecodeError::InvalidMagic,
            )
        }),
{
    if p + 8 <= d.len() {
        let m = d.subrange(p, p + 8);
        assert(m[0] == d[p] && m[1] == d[p + 1] && m[2] == d[p + 2] && m[3] == d[p + 3] && m[4]
            == d[p + 4] && m[5] == d[p + 5] && m[6] == d[p + 6] && m[7] == d[p + 7]);
        let magic = enums::MAGIC@;
        assert(magic[0] == 0x7F && magic[1] == 0x54 && magic[2] == 0x69 && magic[3] == 0x6C
            && magic[4] == 0x65 && magic[5] == 0x49 && magic[6] == 0x52 && magic[7] == 0);
        assert('T' as u8 == 0x54 && 'i' as u8 == 0x69 && 'l' as u8 == 0x6C && 'e' as u8 == 0x65
            && 'I' as u8 == 0x49 && 'R' as u8 == 0x52);
        if m == magic {
        } else if d[p] == 0x7F && d[p + 1] == 0x54 && d[p + 2] == 0x69 && d[p + 3] == 0x6C && d[p
            + 4] == 0x65 && d[p + 5] == 0x49 && d[p + 6] == 0x52 && d[p + 7] == 0 {
            assert(m =~= magic);
        }
        fixed_widths_are_lowest_first(d, p + 10);
    }
}

/// The header of a section is a byte, whose low seven bits are the number of the section and
/// whose high bit says that an alignment follows the length; the length; and the alignment
/// with its padding. A number of zero ends the sections, whatever the high bit is.
pub proof fn section_headers_have_their_parts(d: Seq<u8>, p: int)
    requires
        0 <= p < d.len(),
    ensures
        ({
            let read = reader::section_header_at(d, p);
            let id = d[p] as int % 128;
            let q = op_laws::behind(d, p + 1, 1);
            let r = op_laws::behind(d, p + 1, 2);
            let alignment = op_laws::number(d, p + 1, 1);
            &&& id == 0 ==> (read.0 matches Ok(h) && h.id == 0 && h.data_len == 0) && read.1 == p
                + 1
            &&& read.0 matches Ok(h) ==> h.id == id
            &&& id != 0 && read.0 is Ok ==> read.0->Ok_0.data_len == op_laws::number(d, p + 1, 0)
            &&& id != 0 && d[p] < 128 ==> (read.0 is Ok <==> q is Some) && (read.0 is Ok ==> read.1
                == q->0)
            &&& id != 0 && d[p] >= 128 ==> (read.0 is Ok <==> r is Some && reader::padding_at(
                d,
                r->0,
                alignment,
            ).0 is Ok) && (read.0 is Ok ==> read.1 == reader::padding_at(d, r->0, alignment).1)
        }),
{
    let q = reader::varint_at(d, p + 1).1;
    let r = reader::varint_at(d, q).1;
    assert(op_laws::behind(d, q, 0) == Some(q));
    assert(op_laws::behind(d, r, 0) == Some(r));
    assert(op_laws::behind(d, q, 1) is Some <==> reader::varint_at(d, q).0 is Ok);
    assert(op_laws::number(d, p + 1, 1) == op_laws::number(d, q, 0));
}

/// A section is kept under its number where it is one of the assigned ones, up to 6; the last
/// of a number counts, and the others stay as they are.
pub proof fn sections_are_kept_by_number(
    s: Map<u8, Seq<u8>>,
    id: u8,
    payload: Seq<u8>,
    other: u8,
)
    ensures
        id <= 6 ==> sections::section_of(sections::with_section(s, id, payload), id) == Some(
            payload,
        ),
        id > 6 ==> sections::with_section(s, id, payload) == s,
        other != id ==> sections::section_of(sections::with_section(s, id, payload), other)
            == sections::section_of(s, other),
        sections::section_of(Map::empty(), id) is None,
{
}

// ---- tags, flags and codes ----

/// The numbers of the sections.
pub proof fn sections_have_their_numbers()
    ensures
        Section::EndOfBytecode.spec_id() == 0,
        Section::String.spec_id() == 1,
        Section::Func.spec_id() == 2,
        Section::Debug.spec_id() == 3,
        Section::Constant.spec_id() == 4,
        Section::Type.spec_id() == 5,
        Section::Global.spec_id() == 6,
{
}

/// The flags of a function: the lowest bit for private ones, the next for kernels, and the
/// third for those with hints.
pub proof fn function_flags_are_single_bits(flags: u8)
    ensures
        FunctionFlag::VisibilityPrivate.spec_is_set(flags) <==> flags & 1 != 0,
        FunctionFlag::KindKernel.spec_is_set(flags) <==> flags & 2 != 0,
        FunctionFlag::HasOptimizationHints.spec_is_set(flags) <==> flags & 4 != 0,
{
    assert((flags % 2 == 1) <==> (flags & 1 != 0)) by (bit_vector);
    assert(((flags / 2) % 2 == 1) <==> (flags & 2 != 0)) by (bit_vector);
    assert(((flags / 4) % 2 == 1) <==> (flags & 4 != 0)) by (bit_vector);
}

/// The tags of the scalar types, and the types of the tags.
pub proof fn scalars_have_their_tags(tag: u64)
    ensures
        types::scalar_of(tag) == (if tag == 0 {
            Some(ScalarType::I1)
        } else if tag == 1 {
            Some(ScalarType::I8)
        } else if tag == 2 {
            Some(ScalarType::I16)
        } else if tag == 3 {
            Some(ScalarType::I32)
        } else if tag == 4 {
            Some(ScalarType::I64)
        } else if tag == 5 {
            Some(ScalarType::F16)
        } else if tag == 6 {
            Some(ScalarType::BF16)
        } else if tag == 7 {
            Some(ScalarType::F32)
        } else if tag == 8 {
            Some(ScalarType::TF32)
        } else if tag == 9 {
            Some(ScalarType::F64)
        } else if tag == 10 {
            Some(ScalarType::F8E4M3FN)
        } else if tag == 11 {
            Some(ScalarType::F8E5M2)
        } else if tag == 18 {
            Some(ScalarType::F8E8M0FNU)
        } else if tag == 19 {
            Some(ScalarType::I4)
        } else if tag == 20 {
            Some(ScalarType::F4E2M1FN)
        } else {
            None
        }),
{
}

/// The tags of the types that are no scalars.
pub proof fn types_have_their_tags()
    ensures
        TypeTag::Pointer.spec_tag() == 12,
        TypeTag::Tile.spec_tag() == 13,
        TypeTag::TensorView.spec_tag() == 14,
        TypeTag::PartitionView.spec_tag() == 15,
        TypeTag::Func.spec_tag() == 16,
        TypeTag::Token.spec_tag() == 17,
        TypeTag::GatherScatterView.spec_tag() == 21,
        TypeTag::StridedView.spec_tag() == 22,
{
}

/// The numbers of the padding values; others are refused.
pub proof fn paddings_have_their_numbers(b: u8)
    ensures
        types::padding_of(0) == Ok::<PaddingValue, DecodeError>(PaddingValue::Zero),
        types::padding_of(1) == Ok::<PaddingValue, DecodeError>(PaddingValue::NegZero),
        types::padding_of(2) == Ok::<PaddingValue, DecodeError>(PaddingValue::Nan),
        types::padding_of(3) == Ok::<PaddingValue, DecodeError>(PaddingValue::PosInf),
        types::padding_of(4) == Ok::<PaddingValue, DecodeError>(PaddingValue::NegInf),
        b > 4 ==> types::padding_of(b) is Err,
{
}

/// The tags of the attributes, from 1 to 12.
pub proof fn attributes_have_their_tags(tag: u64)
    ensures
        AttributeTag::Integer.spec_tag() == 1,
        AttributeTag::Float.spec_tag() == 2,
        AttributeTag::Bool.spec_tag() == 3,
        AttributeTag::Type.spec_tag() == 4,
        AttributeTag::String.spec_tag() == 5,
        AttributeTag::Array.spec_tag() == 6,
        AttributeTag::DenseElements.spec_tag() == 7,
        AttributeTag::DivBy.spec_tag() == 8,
        AttributeTag::SameElements.spec_tag() == 9,
        AttributeTag::Dictionary.spec_tag() == 10,
        AttributeTag::OptimizationHints.spec_tag() == 11,
        AttributeTag::Bounded.spec_tag() == 12,
        enums::attribute_tag_of(tag) is Some <==> 1 <= tag <= 12,
        enums::attribute_tag_of(tag) matches Some(a) ==> a.spec_tag() == tag,
        enums::type_tag_of(tag) is Some <==> tag <= 22,
        enums::type_tag_of(tag) matches Some(a) ==> a.spec_tag() == tag,
{
}

/// The codes of the operations.
pub proof fn operations_have_their_codes(code: u16)
    ensures
        Opcode::AbsF.spec_code() == 0,
        Opcode::AbsI.spec_code() == 1,
        Opcode::AddF.spec_code() == 2,
        Opcode::AddI.spec_code() == 3,
        Opcode::AndI.spec_code() == 4,
        Opcode::Assert.spec_code() == 5,
        Opcode::Assume.spec_code() == 6,
        Opcode::AtomicCAS.spec_code() == 7,
        Opcode::AtomicRMW.spec_code() == 8,
        Opcode::Bitcast.spec_code() == 9,
        Opcode::Break.spec_code() == 10,
        Opcode::Broadcast.spec_code() == 11,
        Opcode::Cat.spec_code() == 12,
        Opcode::Ceil.spec_code() == 13,
        Opcode::CmpF.spec_code() == 14,
        Opcode::CmpI.spec_code() == 15,
        Opcode::Constant.spec_code() == 16,
        Opcode::Continue.spec_code() == 17,
        Opcode::Cos.spec_code() == 18,
        Opcode::CosH.spec_code() == 19,
        Opcode::DivF.spec_code() == 20,
        Opcode::DivI.spec_code() == 21,
        Opcode::Entry.spec_code() == 22,
        Opcode::Exp.spec_code() == 23,
        Opcode::Exp2.spec_code() == 24,
        Opcode::ExtI.spec_code() == 25,
        Opcode::Extract.spec_code() == 26,
        Opcode::Floor.spec_code() == 27,
        Opcode::Fma.spec_code() == 28,
        Opcode::For.spec_code() == 29,
        Opcode::FToF.spec_code() == 30,
        Opcode::FToI.spec_code() == 31,
        Opcode::GetGlobal.spec_code() == 32,
        Opcode::GetIndexSpaceShape.spec_code() == 33,
        Opcode::GetNumTileBlocks.spec_code() == 34,
        Opcode::GetTensorShape.spec_code() == 35,
        Opcode::GetTileBlockId.spec_code() == 36,
        Opcode::If.spec_code() == 37,
        Opcode::IntToPtr.spec_code() == 38,
        Opcode::Iota.spec_code() == 39,
        Opcode::IToF.spec_code() == 40,
        Opcode::JoinTokens.spec_code() == 41,
        Opcode::LoadPtrTko.spec_code() == 42,
        Opcode::LoadViewTko.spec_code() == 43,
        Opcode::Log.spec_code() == 44,
        Opcode::Log2.spec_code() == 45,
        Opcode::Loop.spec_code() == 46,
        Opcode::MakePartitionView.spec_code() == 47,
        Opcode::MakeTensorView.spec_code() == 48,
        Opcode::MakeToken.spec_code() == 49,
        Opcode::MaxF.spec_code() == 50,
        Opcode::MaxI.spec_code() == 51,
        Opcode::MinF.spec_code() == 52,
        Opcode::MinI.spec_code() == 53,
        Opcode::MmaF.spec_code() == 54,
        Opcode::MmaI.spec_code() == 55,
        Opcode::MulF.spec_code() == 56,
        Opcode::MulhiI.spec_code() == 57,
        Opcode::MulI.spec_code() == 58,
        Opcode::NegF.spec_code() == 59,
        Opcode::NegI.spec_code() == 60,
        Opcode::Offset.spec_code() == 61,
        Opcode::OrI.spec_code() == 62,
        Opcode::Permute.spec_code() == 63,
        Opcode::Pow.spec_code() == 64,
        Opcode::Print.spec_code() == 65,
        Opcode::PtrToInt.spec_code() == 66,
        Opcode::PtrToPtr.spec_code() == 67,
        Opcode::Reduce.spec_code() == 68,
        Opcode::RemF.spec_code() == 69,
        Opcode::RemI.spec_code() == 70,
        Opcode::Reshape.spec_code() == 71,
        Opcode::Return.spec_code() == 72,
        Opcode::Rsqrt.spec_code() == 73,
        Opcode::Scan.spec_code() == 74,
        Opcode::Select.spec_code() == 75,
        Opcode::ShLI.spec_code() == 76,
        Opcode::ShRI.spec_code() == 77,
        Opcode::Sin.spec_code() == 78,
        Opcode::SinH.spec_code() == 79,
        Opcode::Sqrt.spec_code() == 80,
        Opcode::StorePtrTko.spec_code() == 81,
        Opcode::StoreViewTko.spec_code() == 82,
        Opcode::SubF.spec_code() == 83,
        Opcode::SubI.spec_code() == 84,
        Opcode::Tan.spec_code() == 85,
        Opcode::TanH.spec_code() == 86,
        Opcode::TruncI.spec_code() == 87,
        Opcode::XOrI.spec_code() == 88,
        Opcode::Yield.spec_code() == 89,
        Opcode::Atan2.spec_code() == 90,
        Opcode::Alloca.spec_code() == 91,
        Opcode::AtomicRedViewTko.spec_code() == 92,
        Opcode::MakeGatherScatterView.spec_code() == 93,
        Opcode::MakeStridedView.spec_code() == 94,
        Opcode::MmaFScaled.spec_code() == 95,
        Opcode::Pack.spec_code() == 96,
        Opcode::Unpack.spec_code() == 97,
        opcode::opcode_of(code) is Some <==> code < 98,
        opcode::opcode_of(code) matches Some(op) ==> op.spec_code() == code,
{
}

// ---- versions ----

/// The versions that are known, and which are supported: 13.1 and all later ones.
pub proof fn versions_are_supported_from_13_1(v: BytecodeVersion)
    ensures
        v.rank() >= BytecodeVersion::spec_v13_1().rank() <==> v.major > 13 || v.major == 13
            && v.minor >= 1,
        v.rank() >= BytecodeVersion::spec_v13_2().rank() <==> v.major > 13 || v.major == 13
            && v.minor >= 2,
        v.rank() >= BytecodeVersion::spec_v13_3().rank() <==> v.major > 13 || v.major == 13
            && v.minor >= 3,
{
}

/// The text of a version: its two parts with a dot between them, and its tag behind another
/// dot where it has one.
pub proof fn versions_are_written_with_dots(v: BytecodeVersion)
    ensures
        v.tag == 0 ==> v.text() == text::dec_text(v.major as nat) + seq!['.'] + text::dec_text(
            v.minor as nat,
        ),
        v.tag != 0 ==> v.text() == text::dec_text(v.major as nat) + seq!['.'] + text::dec_text(
            v.minor as nat,
        ) + seq!['.'] + text::dec_text(v.tag as nat),
{
    reveal_strlit(".");
    assert("."@ =~= seq!['.']);
}

} // verus!
