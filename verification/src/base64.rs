//! Standard base64 encoding (RFC 4648 alphabet, `=` padding).
use vstd::prelude::*;

verus! {

/// The symbol of the 6-bit value `v` in the standard alphabet
/// `A-Z a-z 0-9 + /`.
pub open spec fn symbol(v: nat) -> char {
    if v < 26 {
        ((65 + v) as u32) as char
    } else if v < 52 {
        ((71 + v) as u32) as char
    } else if v < 62 {
        ((v - 4) as u32) as char
    } else if v == 62 {
        '+'
    } else {
        '/'
    }
}

/// `c` belongs to the standard base64 alphabet.
pub open spec fn is_symbol(c: char) -> bool {
    exists|v: nat| v < 64 && symbol(v) == c
}

/// The four characters that encode one group of `n` bytes (`1 <= n <= 3`),
/// the missing bytes read as zero.
pub open spec fn group(b0: nat, b1: nat, b2: nat, n: nat) -> Seq<char> {
    let w = b0 * 65536 + b1 * 256 + b2;
    seq![
        symbol(w / 262144 % 64),
        symbol(w / 4096 % 64),
        if n > 1 { symbol(w / 64 % 64) } else { '=' },
        if n > 2 { symbol(w % 64) } else { '=' },
    ]
}

/// The base64 encoding of `d`: each group of three bytes becomes four
/// symbols, and a final group of one or two bytes is padded with `=`.
pub open spec fn base64(d: Seq<u8>) -> Seq<char>
    decreases d.len(),
{
    if d.len() == 0 {
        seq![]
    } else if d.len() == 1 {
        group(d[0] as nat, 0, 0, 1)
    } else if d.len() == 2 {
        group(d[0] as nat, d[1] as nat, 0, 2)
    } else {
        group(d[0] as nat, d[1] as nat, d[2] as nat, 3) + base64(d.skip(3))
    }
}

/// The symbol of a 6-bit value.
fn symbol_of(v: u32) -> (c: char)
    requires
        v < 64,
    ensures
        c == symbol(v as nat),
{
    let b: u8 = v as u8;
    if b < 26 {
        (65u8 + b) as char
    } else if b < 52 {
        (71u8 + b) as char
    } else if b < 62 {
        (b - 4u8) as char
    } else if b == 62 {
        '+'
    } else {
        '/'
    }
}

/// The number of bytes in the group that starts a non-empty `s`.
pub open spec fn group_len(s: Seq<u8>) -> nat {
    if s.len() >= 3 { 3 } else { s.len() }
}

/// Byte `k` of `s`, or zero past its end.
pub open spec fn byte_or_zero(s: Seq<u8>, k: int) -> nat {
    if k < s.len() { s[k] as nat } else { 0 }
}

/// The encoding of a non-empty sequence starts with the encoding of its
/// first group.
proof fn lemma_base64_step(s: Seq<u8>)
    requires
        s.len() > 0,
    ensures
        s.len() > 3 ==> base64(s) == group(s[0] as nat, s[1] as nat, s[2] as nat, 3) + base64(
            s.skip(3),
        ),
        s.len() <= 3 ==> base64(s) == group(
            s[0] as nat,
            byte_or_zero(s, 1),
            byte_or_zero(s, 2),
            s.len(),
        ),
{
    if s.len() == 3 {
        assert(s.skip(3) =~= Seq::<u8>::empty());
        assert(base64(s.skip(3)) =~= Seq::<char>::empty());
        assert(base64(s) =~= group(s[0] as nat, s[1] as nat, s[2] as nat, 3));
    }
}

/// Appends the four characters that encode a group of `n` bytes.
fn push_group(result: &mut String, b0: u32, b1: u32, b2: u32, n: usize)
    requires
        b0 < 256,
        b1 < 256,
        b2 < 256,
        1 <= n <= 3,
    ensures
        final(result)@ == old(result)@ + group(b0 as nat, b1 as nat, b2 as nat, n as nat),
{
    let w: u32 = b0 * 65536 + b1 * 256 + b2;
    result.push(symbol_of(w / 262144 % 64));
    result.push(symbol_of(w / 4096 % 64));
    if n > 1 {
        result.push(symbol_of(w / 64 % 64));
    } else {
        result.push('=');
    }
    if n > 2 {
        result.push(symbol_of(w % 64));
    } else {
        result.push('=');
    }
    assert(result@ =~= old(result)@ + group(b0 as nat, b1 as nat, b2 as nat, n as nat));
}

/// Encodes `data` in base64.
pub fn encode(data: &[u8]) -> (r: String)
    ensures
        r@ == base64(data@),
{
    let mut result = String::new();
    let n = data.len();
    let mut i: usize = 0;
    assert(data@.skip(0) =~= data@);
    while i < n
        invariant
            n == data@.len(),
            i <= n,
            base64(data@) == result@ + base64(data@.skip(i as int)),
        decreases n - i,
    {
        let rest = n - i;
        let b0: u32 = data[i] as u32;
        let b1: u32 = if rest > 1 { data[i + 1] as u32 } else { 0 };
        let b2: u32 = if rest > 2 { data[i + 2] as u32 } else { 0 };
        let cnt: usize = if rest > 3 { 3 } else { rest };
        let ghost s = data@.skip(i as int);
        let ghost before = result@;
        proof {
            lemma_base64_step(s);
        }
        push_group(&mut result, b0, b1, b2, cnt);
        if rest > 3 {
            assert(s.skip(3) =~= data@.skip(i + 3));
            i = i + 3;
        } else {
            assert(data@.skip(n as int) =~= Seq::<u8>::empty());
            assert(result@ =~= result@ + base64(data@.skip(n as int)));
            i = n;
        }
    }
    assert(data@.skip(n as int) =~= Seq::<u8>::empty());
    assert(result@ + Seq::<char>::empty() =~= result@);
    result
}

/// The encoding of `d` has four characters for each started group of three
/// bytes.
pub proof fn lemma_base64_len(d: Seq<u8>)
    ensures
        base64(d).len() == 4 * ((d.len() + 2) / 3),
    decreases d.len(),
{
    if d.len() > 2 {
        lemma_base64_len(d.skip(3));
    }
}

/// Encoding is compatible with concatenation at group boundaries: when the
/// first part holds a whole number of groups, the encoding of the whole is
/// the encoding of the first part followed by that of the second.
pub proof fn lemma_base64_concat(a: Seq<u8>, b: Seq<u8>)
    requires
        a.len() % 3 == 0,
    ensures
        base64(a + b) == base64(a) + base64(b),
    decreases a.len(),
{
    if a.len() == 0 {
        assert(a + b =~= b);
        assert(base64(a) + base64(b) =~= base64(b));
    } else {
        lemma_base64_concat(a.skip(3), b);
        assert((a + b).skip(3) =~= a.skip(3) + b);
        assert(base64(a + b) =~= base64(a) + base64(b));
    }
}

/// Every character of an encoding is an alphabet symbol or the padding
/// `=`, and padding appears only among the last two characters.
pub proof fn lemma_base64_charset(d: Seq<u8>)
    ensures
        forall|i: int| 0 <= i < base64(d).len() ==> is_symbol(#[trigger] base64(d)[i]) || base64(
            d,
        )[i] == '=',
        forall|i: int| 0 <= i < base64(d).len() - 2 ==> is_symbol(#[trigger] base64(d)[i]),
    decreases d.len(),
{
    let e = base64(d);
    if d.len() > 0 {
        let b0 = d[0] as nat;
        let b1 = if d.len() > 1 { d[1] as nat } else { 0 };
        let b2 = if d.len() > 2 { d[2] as nat } else { 0 };
        let w = b0 * 65536 + b1 * 256 + b2;
        assert(is_symbol(symbol(w / 262144 % 64)));
        assert(is_symbol(symbol(w / 4096 % 64)));
        assert(is_symbol(symbol(w / 64 % 64)));
        assert(is_symbol(symbol(w % 64)));
        if d.len() > 2 {
            lemma_base64_charset(d.skip(3));
            let g = group(b0, b1, b2, 3);
            let t = base64(d.skip(3));
            assert(e == g + t);
            assert forall|i: int| 0 <= i < e.len() implies is_symbol(#[trigger] e[i]) || e[i]
                == '=' by {
                if i >= 4 {
                    assert(e[i] == t[i - 4]);
                }
            }
            assert forall|i: int| 0 <= i < e.len() - 2 implies is_symbol(#[trigger] e[i]) by {
                if i >= 4 {
                    assert(e[i] == t[i - 4]);
                }
            }
        }
    }
}

/// The 6-bit value of a symbol of the standard alphabet; other characters,
/// the padding `=` among them, count as zero.
pub open spec fn symbol_value(c: char) -> nat {
    let k = c as u32;
    if 65 <= k <= 90 {
        (k - 65) as nat
    } else if 97 <= k <= 122 {
        (k - 71) as nat
    } else if 48 <= k <= 57 {
        (k + 4) as nat
    } else if c == '+' {
        62
    } else if c == '/' {
        63
    } else {
        0
    }
}

/// The bytes that a group of four characters stands for: three, or one or
/// two when the group ends in padding.
pub open spec fn decode_group(g: Seq<char>) -> Seq<u8> {
    let w = symbol_value(g[0]) * 262144 + symbol_value(g[1]) * 4096 + symbol_value(g[2]) * 64
        + symbol_value(g[3]);
    let bytes = seq![(w / 65536) as u8, (w / 256 % 256) as u8, (w % 256) as u8];
    if g[2] == '=' {
        bytes.take(1)
    } else if g[3] == '=' {
        bytes.take(2)
    } else {
        bytes
    }
}

/// Base64 decoding: each group of four characters gives back its bytes.
pub open spec fn base64_decoded(s: Seq<char>) -> Seq<u8>
    decreases s.len(),
{
    if s.len() < 4 {
        seq![]
    } else {
        decode_group(s.take(4)) + base64_decoded(s.skip(4))
    }
}

/// Every 6-bit value is read back from its symbol, which is never the
/// padding character.
proof fn lemma_symbol_value(v: nat)
    requires
        v < 64,
    ensures
        symbol_value(symbol(v)) == v,
        symbol(v) != '=',
{
}

/// A 24-bit word is the sum of its four 6-bit digits, and of its three
/// bytes.
proof fn lemma_word_digits(b0: u32, b1: u32, b2: u32)
    requires
        b0 < 256,
        b1 < 256,
        b2 < 256,
    ensures
        ({
            let w = b0 * 65536 + b1 * 256 + b2;
            &&& (w / 262144 % 64) * 262144 + (w / 4096 % 64) * 4096 + (w / 64 % 64) * 64 + w % 64 == w
            &&& w / 65536 == b0
            &&& w / 256 % 256 == b1
            &&& w % 256 == b2
            &&& (b2 == 0 ==> w % 64 == 0)
            &&& (b1 == 0 && b2 == 0 ==> w / 64 % 64 == 0)
        }),
{
    assert({
        let w = b0 * 65536 + b1 * 256 + b2;
        &&& (w / 262144 % 64) * 262144 + (w / 4096 % 64) * 4096 + (w / 64 % 64) * 64 + w % 64 == w
        &&& w / 65536 == b0
        &&& w / 256 % 256 == b1
        &&& w % 256 == b2
        &&& (b2 == 0 ==> w % 64 == 0)
        &&& (b1 == 0 && b2 == 0 ==> w / 64 % 64 == 0)
    }) by (bit_vector)
        requires
            b0 < 256,
            b1 < 256,
            b2 < 256,
    ;
}

/// Decoding the four characters of a group gives back its bytes.
proof fn lemma_decode_group(b0: u8, b1: u8, b2: u8, n: nat)
    requires
        1 <= n <= 3,
        n < 3 ==> b2 == 0,
        n < 2 ==> b1 == 0,
    ensures
        decode_group(group(b0 as nat, b1 as nat, b2 as nat, n)) == seq![b0, b1, b2].take(n as int),
{
    let w: nat = (b0 * 65536 + b1 * 256 + b2) as nat;
    lemma_word_digits(b0 as u32, b1 as u32, b2 as u32);
    lemma_symbol_value(w / 262144 % 64);
    lemma_symbol_value(w / 4096 % 64);
    lemma_symbol_value(w / 64 % 64);
    lemma_symbol_value(w % 64);
    let g = group(b0 as nat, b1 as nat, b2 as nat, n);
    assert(decode_group(g) =~= seq![b0, b1, b2].take(n as int));
}

/// Decoding undoes encoding.
pub proof fn lemma_base64_round_trip(d: Seq<u8>)
    ensures
        base64_decoded(base64(d)) == d,
    decreases d.len(),
{
    if d.len() > 0 {
        let n: nat = if d.len() >= 3 { 3 } else { d.len() };
        let b1: u8 = if d.len() > 1 { d[1] } else { 0 };
        let b2: u8 = if d.len() > 2 { d[2] } else { 0 };
        let g = group(d[0] as nat, b1 as nat, b2 as nat, n);
        lemma_decode_group(d[0], b1, b2, n);
        let e = base64(d);
        let rest = d.skip(3);
        if d.len() > 3 {
            lemma_base64_round_trip(rest);
            assert(e.take(4) =~= g);
            assert(e.skip(4) =~= base64(rest));
            assert(d =~= seq![d[0], b1, b2].take(3) + rest);
        } else {
            lemma_base64_step(d);
            assert(e.take(4) =~= g);
            assert(e.skip(4) =~= Seq::<char>::empty());
            assert(base64_decoded(e.skip(4)) =~= Seq::<u8>::empty());
            assert(d =~= seq![d[0], b1, b2].take(n as int));
        }
    }
}

/// Different byte sequences have different encodings.
pub proof fn lemma_base64_injective(a: Seq<u8>, b: Seq<u8>)
    requires
        base64(a) == base64(b),
    ensures
        a == b,
{
    lemma_base64_round_trip(a);
    lemma_base64_round_trip(b);
}

} // verus!
