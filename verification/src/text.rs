//! Numbers and flags as text.

use vstd::prelude::*;
use vstd::string::StringExecFns;

verus! {

/// The decimal digit of a value below ten.
pub open spec fn digit_char(d: nat) -> char {
    (48 + d) as char
}

/// The decimal notation of a natural number.
pub open spec fn dec_text(n: nat) -> Seq<char>
    decreases n,
{
    if n < 10 {
        seq![digit_char(n)]
    } else {
        dec_text(n / 10).push(digit_char(n % 10))
    }
}

/// The decimal notation of an integer, with a leading minus where it is negative.
pub open spec fn int_text(n: int) -> Seq<char> {
    if n < 0 {
        "-"@ + dec_text((-n) as nat)
    } else {
        dec_text(n as nat)
    }
}

/// The upper-case hexadecimal digit of a value below sixteen.
pub open spec fn hex_char(d: nat) -> char {
    if d < 10 {
        (48 + d) as char
    } else {
        (55 + d) as char
    }
}

/// A byte as two upper-case hexadecimal digits.
pub open spec fn hex_byte_text(b: u8) -> Seq<char> {
    seq![hex_char((b / 16) as nat), hex_char((b % 16) as nat)]
}

/// `true` or `false`.
pub open spec fn bool_text(b: bool) -> Seq<char> {
    if b {
        "true"@
    } else {
        "false"@
    }
}

/// The hexadecimal digit of a value below sixteen, as a string.
fn hex_digit_str(d: u8) -> (s: &'static str)
    requires
        d < 16,
    ensures
        s@ == seq![hex_char(d as nat)],
{
    proof {
        reveal_strlit("0");
        reveal_strlit("1");
        reveal_strlit("2");
        reveal_strlit("3");
        reveal_strlit("4");
        reveal_strlit("5");
        reveal_strlit("6");
        reveal_strlit("7");
        reveal_strlit("8");
        reveal_strlit("9");
        reveal_strlit("A");
        reveal_strlit("B");
        reveal_strlit("C");
        reveal_strlit("D");
        reveal_strlit("E");
        reveal_strlit("F");
    }
    match d {
        0 => "0",
        1 => "1",
        2 => "2",
        3 => "3",
        4 => "4",
        5 => "5",
        6 => "6",
        7 => "7",
        8 => "8",
        9 => "9",
        10 => "A",
        11 => "B",
        12 => "C",
        13 => "D",
        14 => "E",
        _ => "F",
    }
}

/// The texts of a sequence of strings.
pub open spec fn texts(s: Seq<String>) -> Seq<Seq<char>> {
    Seq::new(s.len(), |i: int| s[i]@)
}

/// Appends the decimal notation of `n`.
pub fn push_dec(out: &mut String, n: u64)
    ensures
        final(out)@ == old(out)@ + dec_text(n as nat),
    decreases n,
{
    if n >= 10 {
        push_dec(out, n / 10);
    }
    out.append(hex_digit_str((n % 10) as u8));
}

/// Appends the decimal notation of `n`, signed.
pub fn push_int(out: &mut String, n: i64)
    ensures
        final(out)@ == old(out)@ + int_text(n as int),
{
    if n < 0 {
        let magnitude: u64 = (-(n + 1)) as u64 + 1;
        out.append("-");
        push_dec(out, magnitude);
        assert(old(out)@ + "-"@ + dec_text(magnitude as nat) =~= old(out)@ + ("-"@ + dec_text(
            magnitude as nat,
        )));
    } else {
        push_dec(out, n as u64);
    }
}

/// Appends a byte as two hexadecimal digits.
pub fn push_hex_byte(out: &mut String, b: u8)
    ensures
        final(out)@ == old(out)@ + hex_byte_text(b),
{
    out.append(hex_digit_str(b / 16));
    out.append(hex_digit_str(b % 16));
    assert(out@ =~= old(out)@ + hex_byte_text(b));
}

/// Appends `true` or `false`.
pub fn push_bool(out: &mut String, b: bool)
    ensures
        final(out)@ == old(out)@ + bool_text(b),
{
    if b {
        out.append("true");
    } else {
        out.append("false");
    }
}

/// The decimal notation of `n`.
pub fn dec_string(n: u64) -> (s: String)
    ensures
        s@ == dec_text(n as nat),
{
    let mut s = String::new();
    push_dec(&mut s, n);
    assert(s@ =~= dec_text(n as nat));
    s
}

/// The decimal notation of `n`, signed.
pub fn int_string(n: i64) -> (s: String)
    ensures
        s@ == int_text(n as int),
{
    let mut s = String::new();
    push_int(&mut s, n);
    assert(s@ =~= int_text(n as int));
    s
}

/// Whether two texts are the same.
pub fn same_text(a: &str, b: &str) -> (r: bool)
    ensures
        r == (a@ == b@),
{
    a.to_owned() == b.to_owned()
}

/// A decimal notation is not empty, and holds digits only.
pub proof fn dec_text_digits(n: nat)
    ensures
        dec_text(n).len() > 0,
        forall|i: int| 0 <= i < dec_text(n).len() ==> '0' <= #[trigger] dec_text(n)[i] <= '9',
    decreases n,
{
    if n >= 10 {
        dec_text_digits(n / 10);
    }
}

/// Different numbers have different decimal notations.
pub proof fn dec_text_is_one_to_one(a: nat, b: nat)
    requires
        dec_text(a) == dec_text(b),
    ensures
        a == b,
    decreases a,
{
    let ta = dec_text(a);
    let tb = dec_text(b);
    dec_text_digits(a / 10);
    dec_text_digits(b / 10);
    assert(ta.last() == digit_char(a % 10));
    assert(tb.last() == digit_char(b % 10));
    assert(digit_char(a % 10) as int == 48 + a % 10);
    assert(digit_char(b % 10) as int == 48 + b % 10);
    if a >= 10 && b >= 10 {
        assert(dec_text(a / 10) =~= ta.drop_last());
        assert(dec_text(b / 10) =~= tb.drop_last());
        dec_text_is_one_to_one(a / 10, b / 10);
    }
}

/// The notation of an integer holds digits only, but for a leading minus.
pub proof fn int_text_digits(n: int)
    ensures
        int_text(n).len() > 0,
        forall|i: int|
            0 <= i < int_text(n).len() ==> '0' <= #[trigger] int_text(n)[i] <= '9' || int_text(n)[i]
                == '-',
        int_text(n)[0] == '-' <==> n < 0,
{
    reveal_strlit("-");
    if n < 0 {
        dec_text_digits((-n) as nat);
    } else {
        dec_text_digits(n as nat);
    }
}

/// Different integers have different notations.
pub proof fn int_text_is_one_to_one(a: int, b: int)
    requires
        int_text(a) == int_text(b),
    ensures
        a == b,
{
    reveal_strlit("-");
    int_text_digits(a);
    int_text_digits(b);
    if a < 0 {
        assert(int_text(a).skip(1) =~= dec_text((-a) as nat));
        assert(int_text(b).skip(1) =~= dec_text((-b) as nat));
        dec_text_is_one_to_one((-a) as nat, (-b) as nat);
    } else {
        dec_text_is_one_to_one(a as nat, b as nat);
    }
}

/// The number that decimal digits stand for.
pub open spec fn digits_value(s: Seq<char>) -> int
    decreases s.len(),
{
    if s.len() == 0 {
        0
    } else {
        10 * digits_value(s.drop_last()) + (s.last() as int - '0' as int)
    }
}

/// The decimal notation of a number has its value, and begins with a zero only where it is
/// nothing else.
pub proof fn decimal_notation_has_its_value(n: nat)
    ensures
        digits_value(dec_text(n)) == n,
        dec_text(n)[0] == '0' <==> n == 0,
        n == 0 ==> dec_text(n).len() == 1,
    decreases n,
{
    dec_text_digits(n);
    let t = dec_text(n);
    if n < 10 {
        assert(t.drop_last() =~= Seq::empty());
        assert(digits_value(t.drop_last()) == 0);
    } else {
        decimal_notation_has_its_value(n / 10);
        assert(t.drop_last() =~= dec_text(n / 10));
    }
}

/// The notation of a negative number is a minus and that of its absolute value, and that of
/// another is its decimal notation.
pub proof fn signs_stand_before_the_digits(n: int)
    ensures
        n >= 0 ==> int_text(n) == dec_text(n as nat),
        n < 0 ==> int_text(n) == seq!['-'] + dec_text((-n) as nat),
{
    reveal_strlit("-");
    assert("-"@ =~= seq!['-']);
}

/// The value of a hexadecimal digit.
pub open spec fn hex_value(c: char) -> int {
    if '0' <= c <= '9' {
        c as int - '0' as int
    } else {
        c as int - 'A' as int + 10
    }
}

/// The hexadecimal notation of a byte has two digits, the upper first, and its value.
pub proof fn hexadecimal_notation_has_its_value(b: u8)
    ensures
        ({
            let t = hex_byte_text(b);
            &&& t.len() == 2
            &&& '0' <= t[0] <= '9' || 'A' <= t[0] <= 'F'
            &&& '0' <= t[1] <= '9' || 'A' <= t[1] <= 'F'
            &&& 16 * hex_value(t[0]) + hex_value(t[1]) == b
        }),
{
}

/// The words of a flag.
pub proof fn flags_have_their_words()
    ensures
        bool_text(true) == "true"@,
        bool_text(false) == "false"@,
{
}

} // verus!
