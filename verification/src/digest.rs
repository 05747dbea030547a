//! SHA-256, lowercase hexadecimal and length-prefixed byte fields.

use sha2::Digest;
use vstd::prelude::*;
use vstd::string::*;

verus! {

/// The SHA-256 digest of a byte string.
pub uninterp spec fn sha256(data: Seq<u8>) -> Seq<u8>;

/// Calls `sha2::Sha256::digest`, whose output is a function of the bytes and is
/// 32 bytes long.
#[verifier::external_body]
pub(crate) fn sha256_bytes(data: &Vec<u8>) -> (r: Vec<u8>)
    ensures
        r@ == sha256(data@),
        r@.len() == 32,
{
    sha2::Sha256::digest(data).to_vec()
}

/// The lowercase hexadecimal digit of a value below sixteen.
pub open spec fn hex_digit(d: int) -> char {
    if d < 10 {
        (48 + d) as char
    } else {
        (87 + d) as char
    }
}

/// Two lowercase hexadecimal digits for each byte.
pub open spec fn hex(bytes: Seq<u8>) -> Seq<char> {
    Seq::new(
        2 * bytes.len(),
        |i: int|
            if i % 2 == 0 {
                hex_digit(bytes[i / 2] as int / 16)
            } else {
                hex_digit(bytes[i / 2] as int % 16)
            },
    )
}

/// The hash tells two byte strings apart, if they differ. Nobody knows two that it does
/// not tell apart, and nothing rules them out.
pub open spec fn told_apart(x: Seq<u8>, y: Seq<u8>) -> bool {
    sha256(x) == sha256(y) ==> x == y
}

/// The digits determine the bytes.
pub proof fn lemma_hex_injective(x: Seq<u8>, y: Seq<u8>)
    requires
        hex(x) == hex(y),
    ensures
        x == y,
{
    assert(hex(x).len() == 2 * x.len());
    assert(hex(y).len() == 2 * y.len());
    assert forall|i: int| 0 <= i < x.len() implies x[i] == y[i] by {
        assert(hex(x)[2 * i] == hex_digit(x[i] as int / 16));
        assert(hex(y)[2 * i] == hex_digit(y[i] as int / 16));
        assert(hex(x)[2 * i + 1] == hex_digit(x[i] as int % 16));
        assert(hex(y)[2 * i + 1] == hex_digit(y[i] as int % 16));
        lemma_hex_digit_injective(x[i] as int / 16, y[i] as int / 16);
        lemma_hex_digit_injective(x[i] as int % 16, y[i] as int % 16);
    }
    assert(x =~= y);
}

proof fn lemma_hex_digit_injective(d: int, e: int)
    requires
        0 <= d < 16,
        0 <= e < 16,
        hex_digit(d) == hex_digit(e),
    ensures
        d == e,
{
    assert(hex_digit(d) as u32 == if d < 10 {
        48 + d
    } else {
        87 + d
    });
    assert(hex_digit(e) as u32 == if e < 10 {
        48 + e
    } else {
        87 + e
    });
}

/// `0`-`9`, `a`-`f` or `A`-`F`.
pub open spec fn is_hex_digit(c: char) -> bool {
    48 <= c as u32 <= 57 || 97 <= c as u32 <= 102 || 65 <= c as u32 <= 70
}

/// Sixty-four hexadecimal digits of either case.
pub open spec fn is_full_hex(s: Seq<char>) -> bool {
    s.len() == 64 && forall|i: int| 0 <= i < s.len() ==> is_hex_digit(#[trigger] s[i])
}

/// `0`-`9` or `a`-`f`.
pub open spec fn is_lower_hex_digit(c: char) -> bool {
    48 <= c as u32 <= 57 || 97 <= c as u32 <= 102
}

/// Sixty-four lowercase hexadecimal digits.
pub open spec fn is_full_lower_hex(s: Seq<char>) -> bool {
    s.len() == 64 && forall|i: int| 0 <= i < s.len() ==> is_lower_hex_digit(#[trigger] s[i])
}

/// Thirty-two bytes render as sixty-four lowercase hexadecimal digits.
pub proof fn lemma_hex_is_full(bytes: Seq<u8>)
    requires
        bytes.len() == 32,
    ensures
        is_full_lower_hex(hex(bytes)),
        is_full_hex(hex(bytes)),
{
    let s = hex(bytes);
    assert forall|i: int| 0 <= i < s.len() implies is_lower_hex_digit(#[trigger] s[i])
        && is_hex_digit(s[i]) by {
        let b = bytes[i / 2] as int;
        assert(0 <= b < 256);
    }
}

/// Renders bytes as lowercase hexadecimal.
pub fn hex_lower(bytes: &Vec<u8>) -> (r: String)
    ensures
        r@ == hex(bytes@),
{
    let mut out = String::new();
    let mut i: usize = 0;
    while i < bytes.len()
        invariant
            i <= bytes@.len(),
            out@ =~= hex(bytes@.take(i as int)),
        decreases bytes@.len() - i,
    {
        let b: u8 = bytes[i];
        let hi: u8 = b / 16;
        let lo: u8 = b % 16;
        let first: char = if hi < 10 {
            (48 + hi) as char
        } else {
            (87 + hi) as char
        };
        let second: char = if lo < 10 {
            (48 + lo) as char
        } else {
            (87 + lo) as char
        };
        out.push(first);
        out.push(second);
        proof {
            let before = bytes@.take(i as int);
            let after = bytes@.take(i + 1);
            assert forall|k: int| 0 <= k < hex(after).len() implies out@[k] == #[trigger] hex(
                after,
            )[k] by {
                if k < 2 * i {
                    assert(hex(before)[k] == hex(after)[k]);
                }
            }
            assert(out@ =~= hex(after));
        }
        i = i + 1;
    }
    assert(bytes@.take(bytes@.len() as int) =~= bytes@);
    out
}

/// Reports whether the text is sixty-four hexadecimal digits.
pub fn full_hex(s: &str) -> (r: bool)
    ensures
        r == is_full_hex(s@),
{
    let chars = crate::text::chars_of(s);
    if chars.len() != 64 {
        return false;
    }
    let mut i: usize = 0;
    while i < chars.len()
        invariant
            i <= chars@.len(),
            chars@ == s@,
            forall|j: int| 0 <= j < i ==> is_hex_digit(#[trigger] s@[j]),
        decreases chars@.len() - i,
    {
        let n: u32 = chars[i] as u32;
        if !((48 <= n && n <= 57) || (97 <= n && n <= 102) || (65 <= n && n <= 70)) {
            assert(!is_hex_digit(s@[i as int]));
            return false;
        }
        i = i + 1;
    }
    true
}

/// Reports whether the text is sixty-four lowercase hexadecimal digits.
pub fn full_lower_hex(s: &str) -> (r: bool)
    ensures
        r == is_full_lower_hex(s@),
{
    let chars = crate::text::chars_of(s);
    if chars.len() != 64 {
        return false;
    }
    let mut i: usize = 0;
    while i < chars.len()
        invariant
            i <= chars@.len(),
            chars@ == s@,
            forall|j: int| 0 <= j < i ==> is_lower_hex_digit(#[trigger] s@[j]),
        decreases chars@.len() - i,
    {
        let n: u32 = chars[i] as u32;
        if !((48 <= n && n <= 57) || (97 <= n && n <= 102)) {
            assert(!is_lower_hex_digit(s@[i as int]));
            return false;
        }
        i = i + 1;
    }
    true
}

/// The byte of `n` with weight 256 to the power `k`.
pub open spec fn byte_of(n: nat, k: nat) -> u8
    decreases k,
{
    if k == 0 {
        (n % 256) as u8
    } else {
        byte_of(n / 256, (k - 1) as nat)
    }
}

/// A number below 2^64 as eight little-endian bytes.
pub open spec fn u64_le(n: nat) -> Seq<u8> {
    Seq::new(8, |i: int| byte_of(n, i as nat))
}

/// A number below 2^64 as eight big-endian bytes.
pub open spec fn u64_be(n: nat) -> Seq<u8> {
    Seq::new(8, |i: int| byte_of(n, (7 - i) as nat))
}

/// A byte string behind its little-endian length.
pub open spec fn field(bytes: Seq<u8>) -> Seq<u8> {
    u64_le(bytes.len()) + bytes
}

/// A byte string behind its big-endian length.
pub open spec fn field_be(bytes: Seq<u8>) -> Seq<u8> {
    u64_be(bytes.len()) + bytes
}

proof fn lemma_bytes_determine(n: nat, m: nat, k: nat)
    requires
        forall|i: nat| i <= k ==> #[trigger] byte_of(n, i) == byte_of(m, i),
        k <= 7,
    ensures
        k == 0 ==> n % 0x100 == m % 0x100,
        k == 7 ==> n % 0x1_0000_0000_0000_0000 == m % 0x1_0000_0000_0000_0000,
{
    reveal_with_fuel(byte_of, 9);
    assert(byte_of(n, 0) == byte_of(m, 0));
    if k == 7 {
        assert(byte_of(n, 1) == byte_of(m, 1));
        assert(byte_of(n, 2) == byte_of(m, 2));
        assert(byte_of(n, 3) == byte_of(m, 3));
        assert(byte_of(n, 4) == byte_of(m, 4));
        assert(byte_of(n, 5) == byte_of(m, 5));
        assert(byte_of(n, 6) == byte_of(m, 6));
        assert(byte_of(n, 7) == byte_of(m, 7));
    }
}

/// Eight little-endian bytes determine the number.
pub proof fn lemma_u64_le_injective(n: nat, m: nat)
    requires
        n <= u64::MAX,
        m <= u64::MAX,
        u64_le(n) == u64_le(m),
    ensures
        n == m,
{
    assert forall|i: nat| i <= 7 implies #[trigger] byte_of(n, i) == byte_of(m, i) by {
        assert(u64_le(n)[i as int] == byte_of(n, i));
        assert(u64_le(m)[i as int] == byte_of(m, i));
    }
    lemma_bytes_determine(n, m, 7);
}

/// Eight big-endian bytes determine the number.
pub proof fn lemma_u64_be_injective(n: nat, m: nat)
    requires
        n <= u64::MAX,
        m <= u64::MAX,
        u64_be(n) == u64_be(m),
    ensures
        n == m,
{
    assert forall|i: nat| i <= 7 implies #[trigger] byte_of(n, i) == byte_of(m, i) by {
        assert(u64_be(n)[7 - i as int] == byte_of(n, i));
        assert(u64_be(m)[7 - i as int] == byte_of(m, i));
    }
    lemma_bytes_determine(n, m, 7);
}

/// A number in front of a byte string can be read back.
pub proof fn lemma_u64_le_prefix(n: nat, s: Seq<u8>, m: nat, t: Seq<u8>)
    requires
        n <= u64::MAX,
        m <= u64::MAX,
        u64_le(n) + s == u64_le(m) + t,
    ensures
        n == m,
        s == t,
{
    assert(u64_le(n) =~= (u64_le(n) + s).subrange(0, 8));
    assert(u64_le(m) =~= (u64_le(m) + t).subrange(0, 8));
    lemma_u64_le_injective(n, m);
    assert(s =~= (u64_le(n) + s).subrange(8, 8 + s.len() as int));
    assert(t =~= (u64_le(m) + t).subrange(8, 8 + t.len() as int));
    assert((u64_le(n) + s).len() == 8 + s.len());
    assert((u64_le(m) + t).len() == 8 + t.len());
}

/// A length-prefixed field in front of a byte string can be read back.
pub proof fn lemma_field_prefix(x: Seq<u8>, s: Seq<u8>, y: Seq<u8>, t: Seq<u8>)
    requires
        x.len() <= u64::MAX,
        y.len() <= u64::MAX,
        field(x) + s == field(y) + t,
    ensures
        x == y,
        s == t,
{
    assert(field(x) + s =~= u64_le(x.len()) + (x + s));
    assert(field(y) + t =~= u64_le(y.len()) + (y + t));
    lemma_u64_le_prefix(x.len(), x + s, y.len(), y + t);
    assert(x =~= (x + s).subrange(0, x.len() as int));
    assert(y =~= (y + t).subrange(0, y.len() as int));
    assert(s =~= (x + s).subrange(x.len() as int, (x + s).len() as int));
    assert(t =~= (y + t).subrange(y.len() as int, (y + t).len() as int));
}

/// A big-endian length-prefixed field in front of a byte string can be read back.
pub proof fn lemma_field_be_prefix(x: Seq<u8>, s: Seq<u8>, y: Seq<u8>, t: Seq<u8>)
    requires
        x.len() <= u64::MAX,
        y.len() <= u64::MAX,
        field_be(x) + s == field_be(y) + t,
    ensures
        x == y,
        s == t,
{
    let a = field_be(x) + s;
    let b = field_be(y) + t;
    assert(u64_be(x.len()) =~= a.subrange(0, 8));
    assert(u64_be(y.len()) =~= b.subrange(0, 8));
    lemma_u64_be_injective(x.len(), y.len());
    assert(x =~= a.subrange(8, 8 + x.len() as int));
    assert(y =~= b.subrange(8, 8 + y.len() as int));
    assert(s =~= a.subrange(8 + x.len() as int, a.len() as int));
    assert(t =~= b.subrange(8 + y.len() as int, b.len() as int));
}

/// Concatenation is associative.
pub proof fn lemma_assoc(x: Seq<u8>, y: Seq<u8>, z: Seq<u8>)
    ensures
        (x + y) + z == x + (y + z),
{
    assert((x + y) + z =~= x + (y + z));
}

/// Texts with the same UTF-8 bytes are the same text.
pub proof fn lemma_utf8_injective(a: Seq<char>, b: Seq<char>)
    requires
        vstd::utf8::encode_utf8(a) == vstd::utf8::encode_utf8(b),
    ensures
        a == b,
{
    vstd::utf8::encode_utf8_decode_utf8(a);
    vstd::utf8::encode_utf8_decode_utf8(b);
}

/// Appends a number as eight little-endian bytes.
pub fn push_u64(out: &mut Vec<u8>, value: u64)
    ensures
        final(out)@ == old(out)@ + u64_le(value as nat),
{
    let mut rest: u64 = value;
    let mut k: usize = 0;
    while k < 8
        invariant
            k <= 8,
            out@ =~= old(out)@ + u64_le(value as nat).take(k as int),
            forall|j: nat| #[trigger] byte_of(rest as nat, j) == byte_of(value as nat, j + k as nat),
        decreases 8 - k,
    {
        let ghost prior = rest as nat;
        let low: u8 = (rest % 256) as u8;
        proof {
            assert(byte_of(prior, 0) == byte_of(value as nat, k as nat));
            assert(u64_le(value as nat).take(k + 1) =~= u64_le(value as nat).take(k as int).push(
                byte_of(value as nat, k as nat),
            ));
        }
        out.push(low);
        rest = rest / 256;
        proof {
            assert forall|j: nat| #[trigger] byte_of(rest as nat, j) == byte_of(
                value as nat,
                j + (k + 1) as nat,
            ) by {
                assert(byte_of(prior, j + 1) == byte_of(prior / 256, j));
                assert(byte_of(prior, j + 1) == byte_of(value as nat, j + 1 + k as nat));
            }
        }
        k = k + 1;
    }
    assert(u64_le(value as nat).take(8) =~= u64_le(value as nat));
}

/// Appends a number as eight big-endian bytes.
pub fn push_u64_be(out: &mut Vec<u8>, value: u64)
    ensures
        final(out)@ == old(out)@ + u64_be(value as nat),
{
    let mut little: Vec<u8> = Vec::new();
    push_u64(&mut little, value);
    assert(little@ =~= u64_le(value as nat));
    let mut k: usize = 8;
    while k > 0
        invariant
            k <= 8,
            little@ == u64_le(value as nat),
            out@ =~= old(out)@ + u64_be(value as nat).take(8 - k),
        decreases k,
    {
        k = k - 1;
        out.push(little[k]);
        assert(u64_be(value as nat).take(8 - k) =~= u64_be(value as nat).take(7 - k).push(
            u64_be(value as nat)[7 - k],
        ));
    }
    assert(u64_be(value as nat).take(8) =~= u64_be(value as nat));
}

/// Appends the bytes.
pub fn push_bytes(out: &mut Vec<u8>, bytes: &[u8])
    ensures
        final(out)@ == old(out)@ + bytes@,
{
    let mut i: usize = 0;
    while i < bytes.len()
        invariant
            i <= bytes@.len(),
            out@ =~= old(out)@ + bytes@.take(i as int),
        decreases bytes@.len() - i,
    {
        out.push(bytes[i]);
        assert(bytes@.take(i + 1) =~= bytes@.take(i as int).push(bytes@[i as int]));
        i = i + 1;
    }
    assert(bytes@.take(bytes@.len() as int) =~= bytes@);
}

/// Appends an eight-byte little-endian length followed by the bytes themselves.
pub fn push_field(out: &mut Vec<u8>, bytes: &[u8])
    ensures
        final(out)@ == old(out)@ + field(bytes@),
{
    push_u64(out, bytes.len() as u64);
    push_bytes(out, bytes);
    assert(out@ =~= old(out)@ + field(bytes@));
}

/// Appends an eight-byte big-endian length followed by the bytes themselves.
pub fn push_field_be(out: &mut Vec<u8>, bytes: &[u8])
    ensures
        final(out)@ == old(out)@ + field_be(bytes@),
{
    push_u64_be(out, bytes.len() as u64);
    push_bytes(out, bytes);
    assert(out@ =~= old(out)@ + field_be(bytes@));
}

} // verus!
