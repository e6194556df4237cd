//! Byte and string helpers: copying, hex encoding, random nonces, and the
//! comma-separated private-key format.

use vstd::prelude::*;
use rand::Rng;

verus! {

/// Copies a byte slice into a vector.
pub fn to_uint_array(value: &[u8]) -> (r: Vec<u8>)
    ensures
        r@ == value@,
{
    let mut r: Vec<u8> = Vec::new();
    let mut i: usize = 0;
    while i < value.len()
        invariant
            i <= value@.len(),
            r@ == value@.subrange(0, i as int),
        decreases value@.len() - i,
    {
        r.push(value[i]);
        i = i + 1;
        assert(value@.subrange(0, i as int) == value@.subrange(0, i - 1) + seq![value@[i - 1]]);
    }
    assert(value@.subrange(0, value@.len() as int) == value@);
    r
}

/// The lowercase hex digit of `n < 16`.
pub open spec fn hex_digit(n: int) -> char {
    seq!['0', '1', '2', '3', '4', '5', '6', '7', '8', '9', 'a', 'b', 'c', 'd', 'e', 'f'][n]
}

/// Two lowercase hex digits for each byte, high half first.
pub open spec fn hex_of(b: Seq<u8>) -> Seq<char>
    decreases b.len(),
{
    if b.len() == 0 {
        Seq::empty()
    } else {
        seq![hex_digit(b[0] as int / 16), hex_digit(b[0] as int % 16)] + hex_of(b.drop_first())
    }
}

/// Relies on `hex::encode`: each byte becomes two digits from
/// "0123456789abcdef", the high four bits first.
#[verifier::external_body]
fn encode_hex_lower(bytes: &[u8]) -> (r: String)
    ensures
        r@ == hex_of(bytes@),
{
    hex::encode(bytes)
}

/// The bytes as a lowercase hex string.
pub fn to_hex_string(bytes: &[u8]) -> (r: String)
    ensures
        r@ == hex_of(bytes@),
{
    encode_hex_lower(bytes)
}

/// A 256-bit unsigned integer, as 32 big-endian bytes.
#[derive(Debug, Clone, Copy)]
pub struct U256 {
    pub bytes: [u8; 32],
}

/// `s` without its leading zeros, keeping at least one character.
pub open spec fn strip_leading_zeros(s: Seq<char>) -> Seq<char>
    decreases s.len(),
{
    if s.len() > 1 && s[0] == '0' { strip_leading_zeros(s.drop_first()) } else { s }
}

/// `s` padded on the left with `'0'` up to `width` characters.
pub open spec fn pad_left_zeros(s: Seq<char>, width: nat) -> Seq<char> {
    if s.len() >= width { s } else { Seq::new((width - s.len()) as nat, |i: int| '0') + s }
}

/// The number in lowercase hex without leading zeros, after `0x`, the whole
/// then padded on the left with `'0'` to `2 * length + 2` characters.
pub open spec fn fixed_hex(number: U256, length: nat) -> Seq<char> {
    pad_left_zeros(seq!['0', 'x'] + strip_leading_zeros(hex_of(number.bytes@)), 2 * length + 2)
}

proof fn lemma_hex_of_len(b: Seq<u8>)
    ensures
        hex_of(b).len() == 2 * b.len(),
    decreases b.len(),
{
    if b.len() > 0 {
        lemma_hex_of_len(b.drop_first());
    }
}

/// Index of the first character of `strip_leading_zeros(s)` in `s`.
fn leading_zeros_end(s: &str) -> (k: usize)
    requires
        s@.len() >= 1,
    ensures
        k < s@.len(),
        strip_leading_zeros(s@) == s@.subrange(k as int, s@.len() as int),
{
    let n = s.unicode_len();
    let mut k: usize = 0;
    assert(s@.subrange(0, n as int) =~= s@);
    while k + 1 < n && s.get_char(k) == '0'
        invariant
            n == s@.len(),
            k < n,
            strip_leading_zeros(s@) == strip_leading_zeros(s@.subrange(k as int, n as int)),
        decreases n - k,
    {
        let ghost t = s@.subrange(k as int, n as int);
        assert(t.drop_first() =~= s@.subrange(k + 1, n as int));
        k = k + 1;
    }
    k
}

/// The number as `0x` and its lowercase hex digits without leading zeros,
/// padded on the left with `'0'` to `2 * length + 2` characters.
pub fn to_fixed_hex(number: &U256, length: usize) -> (r: String)
    requires
        length <= (usize::MAX - 2) / 2,
    ensures
        r@ == fixed_hex(*number, length as nat),
{
    let bytes = number.bytes;
    let hex = to_hex_string(bytes.as_slice());
    proof {
        lemma_hex_of_len(bytes@);
    }
    let k = leading_zeros_end(hex.as_str());
    let n = hex.as_str().unicode_len();
    let digits = hex.as_str().substring_char(k, n);
    let width = 2 * length + 2;
    let body_len = 2 + (n - k);
    let mut r = String::new();
    let mut i: usize = body_len;
    while i < width
        invariant
            body_len <= i <= width || (width < body_len && i == body_len),
            r@ == Seq::new((i - body_len) as nat, |j: int| '0'),
        decreases width - i,
    {
        proof {
            reveal_strlit("0");
        }
        r.append("0");
        assert(r@ =~= Seq::new((i + 1 - body_len) as nat, |j: int| '0'));
        i = i + 1;
    }
    proof {
        reveal_strlit("0x");
    }
    r.append("0x");
    r.append(digits);
    proof {
        let body = seq!['0', 'x'] + strip_leading_zeros(hex_of(bytes@));
        assert(body.len() == body_len);
        if body_len >= width {
            assert(r@ =~= body);
        } else {
            assert(r@ =~= Seq::new((width - body.len()) as nat, |j: int| '0') + body);
        }
    }
    r
}

/// An ASCII letter or digit.
pub open spec fn is_alphanumeric(b: u8) -> bool {
    (48 <= b <= 57) || (65 <= b <= 90) || (97 <= b <= 122)
}

/// Relies on rand's `thread_rng` sampled through `Alphanumeric`: `length`
/// bytes, each drawn from A-Z, a-z and 0-9.
#[verifier::external_body]
fn random_alphanumeric(length: usize) -> (r: Vec<u8>)
    ensures
        r@.len() == length,
        forall|i: int| 0 <= i < r@.len() ==> is_alphanumeric(#[trigger] r@[i]),
{
    rand::thread_rng().sample_iter(&rand::distributions::Alphanumeric).take(length).collect()
}

/// A random nonce of `length` ASCII letters and digits.
pub fn new_nonce(length: usize) -> (r: Vec<u8>)
    ensures
        r@.len() == length,
        forall|i: int| 0 <= i < r@.len() ==> is_alphanumeric(#[trigger] r@[i]),
{
    random_alphanumeric(length)
}

pub open spec fn is_digit(c: char) -> bool {
    '0' <= c && c <= '9'
}

pub open spec fn digit_value(c: char) -> nat {
    (c as u32 - '0' as u32) as nat
}

/// The number that a run of decimal digits writes.
pub open spec fn decimal_value(d: Seq<char>) -> nat
    decreases d.len(),
{
    if d.len() == 0 {
        0
    } else {
        decimal_value(d.drop_last()) * 10 + digit_value(d.last())
    }
}

/// The digits of a number, past an optional leading `+`.
pub open spec fn digits_of(p: Seq<char>) -> Seq<char> {
    if p.len() > 0 && p[0] == '+' { p.drop_first() } else { p }
}

/// `p` read as a byte the way `u8::from_str` reads it: an optional `+`, then
/// one or more decimal digits writing a number up to 255.
pub open spec fn parse_u8(p: Seq<char>) -> Option<u8> {
    let d = digits_of(p);
    if d.len() > 0 && (forall|i: int| 0 <= i < d.len() ==> is_digit(#[trigger] d[i]))
        && decimal_value(d) <= 255 {
        Some(decimal_value(d) as u8)
    } else {
        None
    }
}

/// `p` read as a byte, or 0 where it is no byte.
pub open spec fn parse_or_zero(p: Seq<char>) -> u8 {
    match parse_u8(p) {
        Some(v) => v,
        None => 0,
    }
}

/// The pieces of `s` between commas, in order; `s` with `k` commas has
/// `k + 1` pieces.
pub open spec fn split_commas(s: Seq<char>) -> Seq<Seq<char>>
    decreases s.len(),
{
    if s.len() == 0 {
        seq![Seq::empty()]
    } else {
        let init = split_commas(s.drop_last());
        if s.last() == ',' {
            init.push(Seq::empty())
        } else {
            init.update(init.len() - 1, init.last().push(s.last()))
        }
    }
}

proof fn lemma_split_nonempty(s: Seq<char>)
    ensures
        split_commas(s).len() >= 1,
    decreases s.len(),
{
    if s.len() > 0 {
        lemma_split_nonempty(s.drop_last());
    }
}

/// A run of digits writes at least what any of its prefixes writes.
proof fn lemma_decimal_prefix(d: Seq<char>, k: int)
    requires
        0 <= k <= d.len(),
    ensures
        decimal_value(d) >= decimal_value(d.take(k)),
    decreases d.len(),
{
    if k < d.len() {
        lemma_decimal_prefix(d.drop_last(), k);
        assert(d.drop_last().take(k) =~= d.take(k));
    } else {
        assert(d.take(k) =~= d);
    }
}

/// Reads `p` as a byte the way `u8::from_str` does, giving 0 where it is no
/// byte.
pub fn parse_u8_or_zero(p: &Vec<char>) -> (r: u8)
    ensures
        r == parse_or_zero(p@),
{
    let len = p.len();
    let start: usize = if len > 0 && p[0] == '+' { 1 } else { 0 };
    let ghost d = digits_of(p@);
    assert(d =~= p@.subrange(start as int, len as int));
    if start == len {
        return 0;
    }
    let mut acc: u32 = 0;
    let mut i: usize = start;
    while i < len
        invariant
            start <= i <= len == p@.len(),
            d == p@.subrange(start as int, len as int),
            d == digits_of(p@),
            forall|j: int| 0 <= j < i - start ==> is_digit(#[trigger] d[j]),
            acc as nat == decimal_value(d.take(i - start)),
            acc <= 255,
        decreases len - i,
    {
        let c = p[i];
        assert(c == d[i - start]);
        if !(c >= '0' && c <= '9') {
            assert(!is_digit(d[i - start]));
            return 0;
        }
        let ghost t = d.take(i + 1 - start);
        assert(t.drop_last() =~= d.take(i - start));
        assert(t.last() == c);
        assert(decimal_value(t) == decimal_value(t.drop_last()) * 10 + digit_value(c));
        acc = acc * 10 + (c as u32 - '0' as u32);
        i = i + 1;
        assert(acc as nat == decimal_value(d.take(i - start)));
        if acc > 255 {
            proof {
                if forall|j: int| 0 <= j < d.len() ==> is_digit(#[trigger] d[j]) {
                    lemma_decimal_prefix(d, i - start);
                }
            }
            return 0;
        }
    }
    assert(d.take(len - start) =~= d);
    acc as u8
}

/// Reads a private key written as comma-separated decimal bytes; a piece
/// that is no byte gives 0.
pub fn decoded_privkey(privkey_bytes: &str) -> (r: Vec<u8>)
    ensures
        r@ == split_commas(privkey_bytes@).map_values(|p: Seq<char>| parse_or_zero(p)),
{
    let n = privkey_bytes.unicode_len();
    let ghost s = privkey_bytes@;
    let mut r: Vec<u8> = Vec::new();
    let mut piece: Vec<char> = Vec::new();
    let mut i: usize = 0;
    proof {
        assert(s.take(0) =~= Seq::<char>::empty());
    }
    while i < n
        invariant
            n == s.len(),
            s == privkey_bytes@,
            i <= n,
            split_commas(s.take(i as int)).len() >= 1,
            piece@ == split_commas(s.take(i as int)).last(),
            r@ == split_commas(s.take(i as int)).drop_last().map_values(|p: Seq<char>| parse_or_zero(p)),
        decreases n - i,
    {
        let c = privkey_bytes.get_char(i);
        let ghost before = split_commas(s.take(i as int));
        proof {
            assert(s.take(i + 1).drop_last() =~= s.take(i as int));
            assert(s.take(i + 1).last() == c);
        }
        if c == ',' {
            let v = parse_u8_or_zero(&piece);
            r.push(v);
            piece = Vec::new();
            proof {
                let after = split_commas(s.take(i + 1));
                assert(after == before.push(Seq::empty()));
                assert(after.drop_last() =~= before);
                assert(before =~= before.drop_last().push(before.last()));
                assert(r@ =~= after.drop_last().map_values(|p: Seq<char>| parse_or_zero(p)));
            }
        } else {
            piece.push(c);
            proof {
                let after = split_commas(s.take(i + 1));
                assert(after == before.update(before.len() - 1, before.last().push(c)));
                assert(after.drop_last() =~= before.drop_last());
            }
        }
        i = i + 1;
        proof {
            lemma_split_nonempty(s.take(i as int));
        }
    }
    let v = parse_u8_or_zero(&piece);
    r.push(v);
    proof {
        let all = split_commas(s.take(n as int));
        assert(s.take(n as int) =~= s);
        assert(all =~= all.drop_last().push(all.last()));
        assert(r@ =~= all.map_values(|p: Seq<char>| parse_or_zero(p)));
    }
    r
}

} // verus!
