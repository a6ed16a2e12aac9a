//! Human-readable file sizes: the size in bytes, read as the nearest binary
//! double, scaled by powers of 1024 up to terabytes and printed with two
//! decimals.
use vstd::prelude::*;
use crate::text::{decimal, digit_char, push_decimal};

verus! {

/// `2` raised to `e`.
pub open spec fn two_pow(e: nat) -> nat
    decreases e,
{
    if e == 0 {
        1
    } else {
        2 * two_pow((e - 1) as nat)
    }
}

/// The number of binary digits of `n` (zero for zero).
pub open spec fn bit_len(n: nat) -> nat
    decreases n,
{
    if n == 0 {
        0
    } else {
        1 + bit_len(n / 2)
    }
}

/// `a / d` rounded to the nearest integer, ties to the even one.
pub open spec fn div_round_half_even(a: nat, d: nat) -> nat {
    let q = a / d;
    let r = a % d;
    if 2 * r > d || (2 * r == d && q % 2 == 1) {
        q + 1
    } else {
        q
    }
}

/// The value of the double nearest to `n` (ties to even), as an integer:
/// `n` itself when it has at most 53 significant bits, otherwise `n`
/// rounded to a multiple of `2^(bit_len(n) - 53)`.
pub open spec fn nearest_double(n: nat) -> nat {
    if bit_len(n) <= 53 {
        n
    } else {
        let p = two_pow((bit_len(n) - 53) as nat);
        div_round_half_even(n, p) * p
    }
}

/// How many times a value `f` is divided by 1024 before it drops below
/// 1024, at most four times.
pub open spec fn unit_index(f: nat) -> nat {
    if f >= 1099511627776 {
        4
    } else if f >= 1073741824 {
        3
    } else if f >= 1048576 {
        2
    } else if f >= 1024 {
        1
    } else {
        0
    }
}

/// `1024` raised to `k`.
pub open spec fn unit_scale(k: nat) -> nat {
    if k == 0 {
        1
    } else if k == 1 {
        1024
    } else if k == 2 {
        1048576
    } else if k == 3 {
        1073741824
    } else {
        1099511627776
    }
}

/// The name of unit `k`: B, KB, MB, GB, TB.
pub open spec fn unit_name(k: nat) -> Seq<char> {
    if k == 0 {
        seq!['B']
    } else if k == 1 {
        seq!['K', 'B']
    } else if k == 2 {
        seq!['M', 'B']
    } else if k == 3 {
        seq!['G', 'B']
    } else {
        seq!['T', 'B']
    }
}

/// The scaled size in hundredths, rounded half to even.
pub open spec fn size_hundredths(n: nat) -> nat {
    let f = nearest_double(n);
    div_round_half_even(f * 100, unit_scale(unit_index(f)))
}

/// The text of a size: the scaled value with two decimals, a space and the
/// unit.
pub open spec fn size_text(n: nat) -> Seq<char> {
    let h = size_hundredths(n);
    decimal(h / 100) + seq!['.', digit_char(h % 100 / 10), digit_char(h % 10), ' '] + unit_name(
        unit_index(nearest_double(n)),
    )
}

/// The powers of two that bound a 64-bit size.
proof fn lemma_two_pow_values()
    ensures
        two_pow(53) == 0x20_0000_0000_0000nat,
        two_pow(64) == 0x1_0000_0000_0000_0000nat,
{
    reveal_with_fuel(two_pow, 65);
}

/// The unit chosen for a value is the largest one it reaches: the value
/// is at least one such unit (unless it is zero) and, below terabytes,
/// less than 1024 of them.
pub proof fn lemma_unit_is_largest_reached(f: nat)
    ensures
        unit_index(f) <= 4,
        f >= 1 ==> f >= unit_scale(unit_index(f)),
        unit_index(f) < 4 ==> f < 1024 * unit_scale(unit_index(f)),
{
}

proof fn lemma_two_pow_pos(e: nat)
    ensures
        two_pow(e) >= 1,
    decreases e,
{
    if e > 0 {
        lemma_two_pow_pos((e - 1) as nat);
    }
}

/// `n` lies between `2^(bit_len(n) - 1)` and `2^bit_len(n)`.
proof fn lemma_bit_len_bounds(n: nat)
    ensures
        n < two_pow(bit_len(n)),
        n > 0 ==> two_pow((bit_len(n) - 1) as nat) <= n,
    decreases n,
{
    if n > 0 {
        lemma_bit_len_bounds(n / 2);
        if n / 2 > 0 {
            assert(bit_len(n / 2) >= 1);
        } else {
            assert(bit_len(n / 2) == 0);
        }
    }
}

proof fn lemma_bit_len_monotone(a: nat, b: nat)
    requires
        a <= b,
    ensures
        bit_len(a) <= bit_len(b),
    decreases b,
{
    if a > 0 {
        lemma_bit_len_monotone(a / 2, b / 2);
    }
}

/// The number of binary digits of `n`.
fn bit_length(n: u64) -> (r: u32)
    ensures
        r as nat == bit_len(n as nat),
        r <= 64,
{
    let mut m = n;
    let mut count: u32 = 0;
    proof {
        lemma_bit_len_bounds(n as nat);
        lemma_two_pow_values();
        if bit_len(n as nat) > 64 {
            lemma_two_pow_monotone(64, (bit_len(n as nat) - 1) as nat);
        }
    }
    while m > 0
        invariant
            count as nat + bit_len(m as nat) == bit_len(n as nat),
            bit_len(n as nat) <= 64,
        decreases m,
    {
        m = m / 2;
        count = count + 1;
    }
    count
}

/// `2^e` for a small exponent.
fn power_of_two(e: u32) -> (r: u128)
    requires
        e <= 64,
    ensures
        r as nat == two_pow(e as nat),
{
    let mut r: u128 = 1;
    let mut i: u32 = 0;
    while i < e
        invariant
            i <= e <= 64,
            r as nat == two_pow(i as nat),
            r <= 0x1_0000_0000_0000_0000u128,
        decreases e - i,
    {
        proof {
            lemma_two_pow_monotone(i as nat + 1, 64);
            lemma_two_pow_values();
        }
        r = r * 2;
        i = i + 1;
    }
    r
}

proof fn lemma_two_pow_monotone(a: nat, b: nat)
    requires
        a <= b,
    ensures
        two_pow(a) <= two_pow(b),
    decreases b,
{
    if a < b {
        lemma_two_pow_monotone(a, (b - 1) as nat);
    }
}

/// `a / d` rounded half to even.
fn round_half_even(a: u128, d: u128) -> (r: u128)
    requires
        d > 0,
        a / d < 0xffff_ffff_ffff_ffff_ffff_ffff,
    ensures
        r as nat == div_round_half_even(a as nat, d as nat),
{
    let q = a / d;
    let r = a % d;
    if (r > d - r) || (r == d - r && q % 2 == 1) {
        q + 1
    } else {
        q
    }
}

/// The value of the double nearest to `n`.
fn nearest_double_value(n: u64) -> (r: u128)
    ensures
        r as nat == nearest_double(n as nat),
        r <= 0x1_0000_0000_0000_0000u128,
{
    let bl = bit_length(n);
    if bl <= 53 {
        n as u128
    } else {
        let p = power_of_two(bl - 53);
        proof {
            lemma_two_pow_pos((bl - 53) as nat);
            lemma_bit_len_bounds(n as nat);
            lemma_round_multiple_bound(n as nat, (bl - 53) as nat, bl as nat);
        }
        let q = round_half_even(n as u128, p);
        q * p
    }
}

/// Rounding `n < 2^b` to a multiple of `2^s` stays at most `2^b` when
/// `b - s` is the number of kept bits.
proof fn lemma_round_multiple_bound(n: nat, s: nat, b: nat)
    requires
        s + 53 == b,
        b <= 64,
        n < two_pow(b),
    ensures
        two_pow(s) > 0,
        n / two_pow(s) < 0xffff_ffff_ffff_ffff_ffff_ffff,
        div_round_half_even(n, two_pow(s)) * two_pow(s) <= 0x1_0000_0000_0000_0000,
{
    lemma_two_pow_pos(s);
    lemma_two_pow_adds(s, 53);
    lemma_two_pow_values();
    lemma_two_pow_monotone(b, 64);
    let p = two_pow(s);
    let q = n / p;
    assert(p * 0x20_0000_0000_0000nat == two_pow(b));
    assert(q < 0x20_0000_0000_0000nat) by (nonlinear_arith)
        requires
            q == n / p,
            n < p * 0x20_0000_0000_0000nat,
            p > 0,
    ;
    assert((q + 1) * p <= 0x20_0000_0000_0000nat * p) by (nonlinear_arith)
        requires
            q < 0x20_0000_0000_0000nat,
            p > 0,
    ;
    assert(q * p <= (q + 1) * p) by (nonlinear_arith)
        requires
            p > 0,
    ;
}

proof fn lemma_two_pow_adds(a: nat, b: nat)
    ensures
        two_pow(a) * two_pow(b) == two_pow(a + b),
    decreases a,
{
    if a == 0 {
        assert(two_pow(0) == 1);
        assert(a + b == b);
    } else {
        let x = two_pow((a - 1) as nat);
        let y = two_pow(b);
        lemma_two_pow_adds((a - 1) as nat, b);
        assert(((a - 1) as nat + b) as nat == (a + b - 1) as nat);
        assert(two_pow(a + b) == 2 * two_pow((a + b - 1) as nat));
        assert(two_pow(a) == 2 * x);
        assert((2 * x) * y == 2 * (x * y)) by (nonlinear_arith);
    }
}

/// Formats a size in bytes as a human-readable text: the size is divided
/// by 1024 while it is at least 1024, at most four times, and printed with
/// two decimals followed by its unit (B, KB, MB, GB or TB).
pub fn format_size(size: u64) -> (r: String)
    ensures
        r@ == size_text(size as nat),
{
    let f = nearest_double_value(size);
    let (k, scale): (u8, u128) = if f >= 1099511627776 {
        (4, 1099511627776)
    } else if f >= 1073741824 {
        (3, 1073741824)
    } else if f >= 1048576 {
        (2, 1048576)
    } else if f >= 1024 {
        (1, 1024)
    } else {
        (0, 1)
    };
    assert(k as nat == unit_index(f as nat));
    assert(scale as nat == unit_scale(k as nat));
    assert(((f * 100) as u128) / scale < 0xffff_ffff_ffff_ffff_ffff_ffffu128) by (nonlinear_arith)
        requires
            f <= 0x1_0000_0000_0000_0000u128,
            scale >= 1,
    ;
    let h = round_half_even(f * 100, scale);
    assert(h / 100 <= 0xffff_ffff_ffff_ffff) by (nonlinear_arith)
        requires
            h as nat == div_round_half_even((f * 100) as nat, scale as nat),
            f <= 0x1_0000_0000_0000_0000u128,
            scale >= 1,
            scale == 1 ==> f < 1024,
            scale == 1024 ==> f < 1048576,
            scale == 1048576 ==> f < 1073741824,
            scale == 1073741824 ==> f < 1099511627776,
            scale == 1 || scale == 1024 || scale == 1048576 || scale == 1073741824 || scale == 1099511627776,
    ;
    let whole: u64 = (h / 100) as u64;
    let frac: u64 = (h % 100) as u64;
    let mut r = String::new();
    push_decimal(&mut r, whole);
    r.push('.');
    r.push(crate::text::digit(frac / 10));
    r.push(crate::text::digit(frac % 10));
    r.push(' ');
    if k == 0 {
        r.push('B');
    } else {
        if k == 1 {
            r.push('K');
        } else if k == 2 {
            r.push('M');
        } else if k == 3 {
            r.push('G');
        } else {
            r.push('T');
        }
        r.push('B');
    }
    assert(r@ =~= size_text(size as nat));
    r
}

} // verus!
