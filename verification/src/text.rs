//! Text rendering used in diagnostics: hexadecimal and decimal numbers, hex dumps.

use vstd::prelude::*;

verus! {

/// The lowercase digit for `n` (0 to 15).
pub open spec fn digit_char(n: int) -> char {
    if n < 10 {
        (48 + n) as char
    } else {
        (87 + n) as char
    }
}

/// The digits of `n` in base `base` (2 to 16), most significant first, without leading zeros.
pub open spec fn radix_digits(n: nat, base: nat) -> Seq<char>
    decreases n,
{
    if base < 2 || n < base {
        seq![digit_char(n as int)]
    } else {
        proof {
            vstd::arithmetic::div_mod::lemma_div_decreases(n as int, base as int);
        }
        radix_digits(n / base, base).push(digit_char((n % base) as int))
    }
}

/// `n` in decimal, as `{}` renders it.
pub open spec fn decimal(n: nat) -> Seq<char> {
    radix_digits(n, 10)
}

/// `n` in lowercase hexadecimal without prefix, as `{:x}` renders it.
pub open spec fn hex_number(n: nat) -> Seq<char> {
    radix_digits(n, 16)
}

/// A signed integer in decimal, with a leading `-` when negative.
pub open spec fn signed_decimal(n: int) -> Seq<char> {
    if n < 0 {
        seq!['-'] + decimal((-n) as nat)
    } else {
        decimal(n as nat)
    }
}

/// One byte as two lowercase hex digits, as `{:02x}` renders it.
pub open spec fn byte_hex(b: u8) -> Seq<char> {
    seq![digit_char(b as int / 16), digit_char(b as int % 16)]
}

/// Every byte of `s` as two lowercase hex digits, concatenated.
pub open spec fn hex_bytes(s: Seq<u8>) -> Seq<char>
    decreases s.len(),
{
    if s.len() == 0 {
        seq![]
    } else {
        hex_bytes(s.drop_last()) + byte_hex(s.last())
    }
}

/// The value of a lowercase hexadecimal or decimal digit, or -1 for any other character.
pub open spec fn char_value(c: char) -> int {
    if '0' <= c && c <= '9' {
        c as int - 48
    } else if 'a' <= c && c <= 'f' {
        c as int - 87
    } else {
        -1
    }
}

/// The number that the digits `s` denote in base `base`, most significant first.
pub open spec fn digits_value(s: Seq<char>, base: int) -> int
    decreases s.len(),
{
    if s.len() == 0 {
        0
    } else {
        digits_value(s.drop_last(), base) * base + char_value(s.last())
    }
}

/// `n` rendered in base `base` (2 to 16) is a nonempty string of digits below `base`,
/// without a leading zero unless `n` is zero, that denotes `n`.
pub proof fn lemma_radix_digits_denote(n: nat, base: nat)
    requires
        2 <= base <= 16,
    ensures
        radix_digits(n, base).len() >= 1,
        forall|i: int|
            0 <= i < radix_digits(n, base).len() ==> 0 <= #[trigger] char_value(radix_digits(n, base)[i])
                < base,
        digits_value(radix_digits(n, base), base as int) == n,
        n != 0 ==> radix_digits(n, base)[0] != '0',
    decreases n,
{
    let s = radix_digits(n, base);
    if n < base {
        assert(s.drop_last() =~= Seq::<char>::empty());
        assert(char_value(digit_char(n as int)) == n);
        assert(digits_value(s.drop_last(), base as int) == 0);
        assert(s.last() == digit_char(n as int));
        assert(digits_value(s, base as int) == 0 * (base as int) + n);
    } else {
        vstd::arithmetic::div_mod::lemma_div_decreases(n as int, base as int);
        vstd::arithmetic::div_mod::lemma_fundamental_div_mod(n as int, base as int);
        vstd::arithmetic::div_mod::lemma_mod_bound(n as int, base as int);
        let q = (n / base) as nat;
        lemma_radix_digits_denote(q, base);
        let t = radix_digits(q, base);
        assert(s == t.push(digit_char((n % base) as int)));
        assert(s.drop_last() =~= t);
        assert(q != 0) by {
            if q == 0 {
                vstd::arithmetic::div_mod::lemma_fundamental_div_mod(n as int, base as int);
            }
        }
        assert forall|i: int| 0 <= i < s.len() implies 0 <= #[trigger] char_value(s[i]) < base by {
            if i < t.len() {
                assert(s[i] == t[i]);
            }
        }
        assert(s[0] == t[0]);
        let m = (n % base) as int;
        assert(char_value(digit_char(m)) == m);
        vstd::arithmetic::mul::lemma_mul_is_commutative(q as int, base as int);
        assert(digits_value(s, base as int) == digits_value(t, base as int) * base + m);
        assert(digits_value(t, base as int) == q);
        assert(q == (n as int) / (base as int));
        assert(m == (n as int) % (base as int));
        assert((n as int) == (base as int) * ((n as int) / (base as int)) + (n as int) % (base as int));
        assert(q * base == (base as int) * q);
    }
}

/// A byte rendered as two lowercase hex digits denotes the byte.
pub proof fn lemma_byte_hex_denotes(b: u8)
    ensures
        byte_hex(b).len() == 2,
        0 <= char_value(byte_hex(b)[0]) < 16,
        0 <= char_value(byte_hex(b)[1]) < 16,
        char_value(byte_hex(b)[0]) * 16 + char_value(byte_hex(b)[1]) == b,
{
}

/// A hex dump holds two digits per byte, byte `i` at positions `2i` and `2i + 1`.
pub proof fn lemma_hex_bytes_layout(s: Seq<u8>)
    ensures
        hex_bytes(s).len() == 2 * s.len(),
        forall|i: int|
            0 <= i < s.len() ==> char_value(#[trigger] hex_bytes(s)[2 * i]) * 16 + char_value(
                hex_bytes(s)[2 * i + 1],
            ) == s[i],
    decreases s.len(),
{
    if s.len() > 0 {
        let t = s.drop_last();
        lemma_hex_bytes_layout(t);
        lemma_byte_hex_denotes(s.last());
        assert forall|i: int| 0 <= i < s.len() implies char_value(#[trigger] hex_bytes(s)[2 * i]) * 16
            + char_value(hex_bytes(s)[2 * i + 1]) == s[i] by {
            if i < t.len() {
                assert(hex_bytes(s)[2 * i] == hex_bytes(t)[2 * i]);
                assert(hex_bytes(s)[2 * i + 1] == hex_bytes(t)[2 * i + 1]);
                assert(s[i] == t[i]);
            }
        }
    }
}

/// Appends `c` to `s` (std's `String::push`).
#[verifier::external_body]
pub(crate) fn push_char(s: &mut String, c: char)
    ensures
        final(s)@ == old(s)@.push(c),
{
    s.push(c)
}

/// The lowercase digit for `n`.
fn digit(n: u64) -> (c: char)
    requires
        n < 16,
    ensures
        c == digit_char(n as int),
{
    let b = n as u8;
    if b < 10 {
        (48 + b) as char
    } else {
        (87 + b) as char
    }
}

/// Appends the digits of `n` in base `base`.
pub fn push_radix(s: &mut String, n: u64, base: u64)
    requires
        2 <= base <= 16,
    ensures
        final(s)@ == old(s)@ + radix_digits(n as nat, base as nat),
    decreases n,
{
    if n >= base {
        proof {
            vstd::arithmetic::div_mod::lemma_div_decreases(n as int, base as int);
        }
        push_radix(s, n / base, base);
    }
    let c = digit(n % base);
    push_char(s, c);
    proof {
        if n >= base {
            assert(s@ =~= old(s)@ + radix_digits(n as nat, base as nat));
        } else {
            vstd::arithmetic::div_mod::lemma_small_mod(n as nat, base as nat);
            assert(s@ =~= old(s)@ + radix_digits(n as nat, base as nat));
        }
    }
}

/// Appends `n` in decimal.
pub fn push_decimal(s: &mut String, n: u64)
    ensures
        final(s)@ == old(s)@ + decimal(n as nat),
{
    push_radix(s, n, 10)
}

/// Appends `n` in lowercase hexadecimal.
pub fn push_hex_number(s: &mut String, n: u64)
    ensures
        final(s)@ == old(s)@ + hex_number(n as nat),
{
    push_radix(s, n, 16)
}

/// Appends `n` in decimal, with a leading `-` when negative.
pub fn push_signed_decimal(s: &mut String, n: i64)
    ensures
        final(s)@ == old(s)@ + signed_decimal(n as int),
{
    if n < 0 {
        push_char(s, '-');
        let magnitude: u64 = (0i128 - n as i128) as u64;
        push_decimal(s, magnitude);
        assert(s@ =~= old(s)@ + signed_decimal(n as int));
    } else {
        push_decimal(s, n as u64);
    }
}

/// Appends every byte of `bytes` as two lowercase hex digits.
pub fn push_hex_bytes(s: &mut String, bytes: &[u8])
    ensures
        final(s)@ == old(s)@ + hex_bytes(bytes@),
{
    let ghost start = s@;
    let mut i: usize = 0;
    assert(bytes@.take(0) =~= Seq::<u8>::empty());
    assert(s@ =~= start + hex_bytes(bytes@.take(0)));
    while i < bytes.len()
        invariant
            i <= bytes@.len(),
            s@ == start + hex_bytes(bytes@.take(i as int)),
        decreases bytes@.len() - i,
    {
        let b = bytes[i];
        push_char(s, digit((b / 16) as u64));
        push_char(s, digit((b % 16) as u64));
        assert(bytes@.take(i + 1).drop_last() =~= bytes@.take(i as int));
        assert(s@ =~= start + hex_bytes(bytes@.take(i + 1)));
        i = i + 1;
    }
    assert(bytes@.take(i as int) =~= bytes@);
}

/// The bytes as a lowercase hex string, two digits per byte.
pub fn hex_fmt(bytes: &[u8]) -> (r: String)
    ensures
        r@ == hex_bytes(bytes@),
{
    let mut s = String::new();
    push_hex_bytes(&mut s, bytes);
    assert(s@ =~= hex_bytes(bytes@));
    s
}

/// The message as an owned string.
pub fn err_msg(msg: &str) -> (r: String)
    ensures
        r@ == msg@,
{
    String::from_str(msg)
}

} // verus!
