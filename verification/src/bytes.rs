use vstd::prelude::*;

verus! {

// ---------------------------------------------------------------------------
// Big-endian integer encodings
// ---------------------------------------------------------------------------

/// The eight big-endian bytes of a 64-bit integer.
pub open spec fn u64_be_bytes(n: u64) -> Seq<u8> {
    seq![
        ((n >> 56) & 0xff) as u8,
        ((n >> 48) & 0xff) as u8,
        ((n >> 40) & 0xff) as u8,
        ((n >> 32) & 0xff) as u8,
        ((n >> 24) & 0xff) as u8,
        ((n >> 16) & 0xff) as u8,
        ((n >> 8) & 0xff) as u8,
        (n & 0xff) as u8,
    ]
}

pub fn u64_be(n: u64) -> (r: Vec<u8>)
    ensures
        r@ == u64_be_bytes(n),
{
    let mut v: Vec<u8> = Vec::new();
    v.push(((n >> 56) & 0xff) as u8);
    v.push(((n >> 48) & 0xff) as u8);
    v.push(((n >> 40) & 0xff) as u8);
    v.push(((n >> 32) & 0xff) as u8);
    v.push(((n >> 24) & 0xff) as u8);
    v.push(((n >> 16) & 0xff) as u8);
    v.push(((n >> 8) & 0xff) as u8);
    v.push((n & 0xff) as u8);
    proof {
        assert(v@ =~= u64_be_bytes(n));
    }
    v
}

pub proof fn lemma_u64_be_injective(a: u64, b: u64)
    requires
        u64_be_bytes(a) == u64_be_bytes(b),
    ensures
        a == b,
{
    assert(u64_be_bytes(a)[0] == u64_be_bytes(b)[0]);
    assert(u64_be_bytes(a)[1] == u64_be_bytes(b)[1]);
    assert(u64_be_bytes(a)[2] == u64_be_bytes(b)[2]);
    assert(u64_be_bytes(a)[3] == u64_be_bytes(b)[3]);
    assert(u64_be_bytes(a)[4] == u64_be_bytes(b)[4]);
    assert(u64_be_bytes(a)[5] == u64_be_bytes(b)[5]);
    assert(u64_be_bytes(a)[6] == u64_be_bytes(b)[6]);
    assert(u64_be_bytes(a)[7] == u64_be_bytes(b)[7]);
    assert((((a >> 56) & 0xff) as u8 == ((b >> 56) & 0xff) as u8 && ((a >> 48) & 0xff) as u8 == ((
    b >> 48) & 0xff) as u8 && ((a >> 40) & 0xff) as u8 == ((b >> 40) & 0xff) as u8 && ((a >> 32)
        & 0xff) as u8 == ((b >> 32) & 0xff) as u8 && ((a >> 24) & 0xff) as u8 == ((b >> 24)
        & 0xff) as u8 && ((a >> 16) & 0xff) as u8 == ((b >> 16) & 0xff) as u8 && ((a >> 8)
        & 0xff) as u8 == ((b >> 8) & 0xff) as u8 && (a & 0xff) as u8 == (b & 0xff) as u8) ==> a
        == b) by (bit_vector);
}

/// Timestamps are hashed through their two's-complement bit pattern.
pub proof fn lemma_i64_cast_injective(a: i64, b: i64)
    requires
        a as u64 == b as u64,
    ensures
        a == b,
{
    assert(a as u64 == b as u64 ==> a == b) by (bit_vector);
}

// ---------------------------------------------------------------------------
// Lowercase hexadecimal encoding
// ---------------------------------------------------------------------------

/// The ASCII byte for one hex digit value below 16 (lowercase letters).
pub open spec fn hex_digit(d: u8) -> u8
    recommends
        d < 16,
{
    if d < 10 {
        (0x30 + d) as u8
    } else {
        (0x57 + d) as u8
    }
}

/// The lowercase hex encoding of a byte string, two ASCII bytes per input byte.
pub open spec fn hex_bytes(s: Seq<u8>) -> Seq<u8>
    decreases s.len(),
{
    if s.len() == 0 {
        Seq::empty()
    } else {
        hex_bytes(s.drop_last()) + seq![
            hex_digit((s.last() / 16) as u8),
            hex_digit((s.last() % 16) as u8),
        ]
    }
}

pub proof fn lemma_hex_bytes_len(s: Seq<u8>)
    ensures
        hex_bytes(s).len() == 2 * s.len(),
    decreases s.len(),
{
    if s.len() > 0 {
        lemma_hex_bytes_len(s.drop_last());
    }
}

/// Whether a byte is a lowercase hex digit.
pub open spec fn is_hex_digit_byte(c: u8) -> bool {
    (0x30 <= c && c <= 0x39) || (0x61 <= c && c <= 0x66)
}

pub proof fn lemma_hex_bytes_digits(s: Seq<u8>)
    ensures
        forall|i: int| 0 <= i < hex_bytes(s).len() ==> is_hex_digit_byte(#[trigger] hex_bytes(s)[i]),
    decreases s.len(),
{
    if s.len() > 0 {
        lemma_hex_bytes_digits(s.drop_last());
        lemma_hex_bytes_len(s.drop_last());
    }
}

proof fn lemma_hex_digit_injective(d1: u8, d2: u8)
    requires
        d1 < 16,
        d2 < 16,
        hex_digit(d1) == hex_digit(d2),
    ensures
        d1 == d2,
{
}

/// Two equally long byte strings with the same hex encoding are equal.
pub proof fn lemma_hex_bytes_injective(s1: Seq<u8>, s2: Seq<u8>)
    requires
        s1.len() == s2.len(),
        hex_bytes(s1) == hex_bytes(s2),
    ensures
        s1 == s2,
    decreases s1.len(),
{
    if s1.len() == 0 {
        assert(s1 =~= s2);
    } else {
        let h1 = hex_bytes(s1);
        let h2 = hex_bytes(s2);
        lemma_hex_bytes_len(s1.drop_last());
        lemma_hex_bytes_len(s2.drop_last());
        assert(hex_bytes(s1.drop_last()) =~= h1.subrange(0, h1.len() - 2));
        assert(hex_bytes(s2.drop_last()) =~= h2.subrange(0, h2.len() - 2));
        lemma_hex_bytes_injective(s1.drop_last(), s2.drop_last());
        assert(h1[h1.len() - 2] == h2[h2.len() - 2]);
        assert(h1[h1.len() - 1] == h2[h2.len() - 1]);
        lemma_hex_digit_injective((s1.last() / 16) as u8, (s2.last() / 16) as u8);
        lemma_hex_digit_injective((s1.last() % 16) as u8, (s2.last() % 16) as u8);
        assert(s1.last() == 16 * (s1.last() / 16) + s1.last() % 16);
        assert(s2.last() == 16 * (s2.last() / 16) + s2.last() % 16);
        assert(s1 =~= s1.drop_last().push(s1.last()));
        assert(s2 =~= s2.drop_last().push(s2.last()));
    }
}

fn hex_digit_exec(d: u8) -> (r: u8)
    requires
        d < 16,
    ensures
        r == hex_digit(d),
{
    if d < 10 {
        0x30 + d
    } else {
        0x57 + d
    }
}

/// Encode a byte string as lowercase ASCII hex.
pub fn hex_encode(data: &[u8]) -> (r: Vec<u8>)
    ensures
        r@ == hex_bytes(data@),
{
    let mut out: Vec<u8> = Vec::new();
    let mut i: usize = 0;
    while i < data.len()
        invariant
            i <= data.len(),
            out@ == hex_bytes(data@.take(i as int)),
        decreases data.len() - i,
    {
        let b = data[i];
        out.push(hex_digit_exec(b / 16));
        out.push(hex_digit_exec(b % 16));
        proof {
            let t = data@.take(i + 1);
            assert(t.drop_last() =~= data@.take(i as int));
            assert(t.last() == data@[i as int]);
            assert(out@ =~= hex_bytes(data@.take(i + 1)));
        }
        i = i + 1;
    }
    proof {
        assert(data@.take(data@.len() as int) =~= data@);
    }
    out
}

// ---------------------------------------------------------------------------
// Hexadecimal decoding (accepts both letter cases)
// ---------------------------------------------------------------------------

/// The value of one ASCII hex digit, or -1 when the byte is no hex digit.
pub open spec fn hex_val(c: u8) -> int {
    if 0x30 <= c && c <= 0x39 {
        c - 0x30
    } else if 0x61 <= c && c <= 0x66 {
        c - 0x57
    } else if 0x41 <= c && c <= 0x46 {
        c - 0x37
    } else {
        -1
    }
}

/// Whether a byte string is well-formed hex input: even length, digits only.
pub open spec fn is_hex_input(s: Seq<u8>) -> bool {
    s.len() % 2 == 0 && forall|i: int| 0 <= i < s.len() ==> hex_val(#[trigger] s[i]) >= 0
}

/// The byte string encoded by well-formed hex input.
pub open spec fn hex_decoded(s: Seq<u8>) -> Seq<u8>
    recommends
        is_hex_input(s),
{
    Seq::new(s.len() / 2, |i: int| (16 * hex_val(s[2 * i]) + hex_val(s[2 * i + 1])) as u8)
}

fn hex_val_exec(c: u8) -> (r: i8)
    ensures
        r as int == hex_val(c),
{
    if 0x30 <= c && c <= 0x39 {
        (c - 0x30) as i8
    } else if 0x61 <= c && c <= 0x66 {
        (c - 0x57) as i8
    } else if 0x41 <= c && c <= 0x46 {
        (c - 0x37) as i8
    } else {
        -1
    }
}

/// Decode ASCII hex; rejects odd lengths and non-digits.
pub fn hex_decode(s: &[u8]) -> (r: Result<Vec<u8>, ()>)
    ensures
        r is Ok <==> is_hex_input(s@),
        r matches Ok(v) ==> v@ == hex_decoded(s@),
{
    if s.len() % 2 != 0 {
        return Err(());
    }
    let mut out: Vec<u8> = Vec::new();
    let mut i: usize = 0;
    while i < s.len()
        invariant
            i <= s.len(),
            i % 2 == 0,
            s.len() % 2 == 0,
            forall|j: int| 0 <= j < i ==> hex_val(#[trigger] s@[j]) >= 0,
            out@.len() == i / 2,
            forall|j: int|
                0 <= j < i / 2 ==> #[trigger] out@[j] == (16 * hex_val(s@[2 * j]) + hex_val(
                s@[2 * j + 1])) as u8,
        decreases s.len() - i,
    {
        let hi = hex_val_exec(s[i]);
        let lo = hex_val_exec(s[i + 1]);
        if hi < 0 || lo < 0 {
            return Err(());
        }
        out.push(16 * (hi as u8) + (lo as u8));
        i = i + 2;
    }
    proof {
        assert(out@ =~= hex_decoded(s@));
    }
    Ok(out)
}

// ---------------------------------------------------------------------------
// Decimal encoding
// ---------------------------------------------------------------------------

/// The ASCII decimal digits of a number, most significant first, no leading zeros.
pub open spec fn dec_bytes_spec(n: nat) -> Seq<u8>
    decreases n,
{
    if n < 10 {
        seq![(0x30 + n) as u8]
    } else {
        dec_bytes_spec(n / 10) + seq![(0x30 + n % 10) as u8]
    }
}

pub proof fn lemma_dec_bytes_digits(n: nat)
    ensures
        dec_bytes_spec(n).len() >= 1,
        n >= 10 ==> dec_bytes_spec(n).len() >= 2,
        forall|i: int|
            0 <= i < dec_bytes_spec(n).len() ==> (0x30 <= #[trigger] dec_bytes_spec(n)[i]
                && dec_bytes_spec(n)[i] <= 0x39),
    decreases n,
{
    if n >= 10 {
        lemma_dec_bytes_digits(n / 10);
    }
}

pub proof fn lemma_dec_bytes_injective(a: nat, b: nat)
    requires
        dec_bytes_spec(a) == dec_bytes_spec(b),
    ensures
        a == b,
    decreases a,
{
    lemma_dec_bytes_digits(a);
    lemma_dec_bytes_digits(b);
    assert(dec_bytes_spec(a).len() == dec_bytes_spec(b).len());
    if a < 10 && b < 10 {
        assert(dec_bytes_spec(a)[0] == dec_bytes_spec(b)[0]);
        assert(dec_bytes_spec(a)[0] == (0x30 + a) as u8);
        assert(dec_bytes_spec(b)[0] == (0x30 + b) as u8);
        assert((0x30 + a) as u8 as int == 0x30 + a);
        assert((0x30 + b) as u8 as int == 0x30 + b);
        assert(a == b);
    } else if a < 10 {
        assert(dec_bytes_spec(a).len() == 1);
        assert(dec_bytes_spec(b).len() >= 2);
        assert(false);
    } else if b < 10 {
        assert(dec_bytes_spec(b).len() == 1);
        assert(dec_bytes_spec(a).len() >= 2);
        assert(false);
    } else {
        let da = dec_bytes_spec(a);
        let db = dec_bytes_spec(b);
        assert(dec_bytes_spec(a / 10) =~= da.subrange(0, da.len() - 1));
        assert(dec_bytes_spec(b / 10) =~= db.subrange(0, db.len() - 1));
        lemma_dec_bytes_injective(a / 10, b / 10);
        assert(da.last() == db.last());
        assert(a % 10 == b % 10);
        assert(a == 10 * (a / 10) + a % 10);
        assert(b == 10 * (b / 10) + b % 10);
        assert(a == b);
    }
}

/// Decimal digits of a 64-bit number as ASCII bytes.
pub fn dec_bytes_u64(n: u64) -> (r: Vec<u8>)
    ensures
        r@ == dec_bytes_spec(n as nat),
    decreases n,
{
    if n < 10 {
        let mut v: Vec<u8> = Vec::new();
        v.push(0x30 + n as u8);
        proof {
            assert(v@ =~= dec_bytes_spec(n as nat));
        }
        v
    } else {
        let mut v = dec_bytes_u64(n / 10);
        v.push(0x30 + (n % 10) as u8);
        proof {
            assert(v@ =~= dec_bytes_spec(n as nat));
        }
        v
    }
}

// ---------------------------------------------------------------------------
// Small byte helpers
// ---------------------------------------------------------------------------

/// Byte-wise equality of two 32-byte arrays.
pub fn bytes32_eq(a: &[u8; 32], b: &[u8; 32]) -> (r: bool)
    ensures
        r <==> a@ == b@,
{
    let mut i: usize = 0;
    while i < 32
        invariant
            i <= 32,
            forall|j: int| 0 <= j < i ==> a@[j] == b@[j],
        decreases 32 - i,
    {
        if a[i] != b[i] {
            return false;
        }
        i = i + 1;
    }
    proof {
        assert(a@ =~= b@);
    }
    true
}

/// Byte-wise equality of two byte vectors.
pub fn bytes_eq(a: &Vec<u8>, b: &Vec<u8>) -> (r: bool)
    ensures
        r <==> a@ == b@,
{
    if a.len() != b.len() {
        return false;
    }
    let mut i: usize = 0;
    while i < a.len()
        invariant
            i <= a.len(),
            a@.len() == b@.len(),
            forall|j: int| 0 <= j < i ==> a@[j] == b@[j],
        decreases a.len() - i,
    {
        if a[i] != b[i] {
            return false;
        }
        i = i + 1;
    }
    proof {
        assert(a@ =~= b@);
    }
    true
}


/// Append a byte slice to a vector.
pub fn extend_bytes(dst: &mut Vec<u8>, src: &[u8])
    ensures
        final(dst)@ == old(dst)@ + src@,
{
    let mut i: usize = 0;
    while i < src.len()
        invariant
            i <= src.len(),
            dst@ == old(dst)@ + src@.take(i as int),
        decreases src.len() - i,
    {
        dst.push(src[i]);
        proof {
            assert(dst@ =~= old(dst)@ + src@.take(i + 1));
        }
        i = i + 1;
    }
    proof {
        assert(old(dst)@ + src@.take(src@.len() as int) =~= old(dst)@ + src@);
    }
}

/// A copy of a byte vector.
pub fn copy_bytes(src: &Vec<u8>) -> (r: Vec<u8>)
    ensures
        r@ == src@,
{
    let mut out: Vec<u8> = Vec::new();
    extend_bytes(&mut out, src.as_slice());
    out
}

/// Relies on String::from_utf8: ASCII bytes decode to the string whose
/// characters carry the same code points.
#[verifier::external_body]
pub fn ascii_string(bytes: &[u8]) -> (r: String)
    requires
        forall|i: int| 0 <= i < bytes@.len() ==> bytes@[i] < 128,
    ensures
        r@ == Seq::new(bytes@.len(), |i: int| bytes@[i] as char),
{
    String::from_utf8(bytes.to_vec()).unwrap_or_default()
}

/// Relies on TryFrom for arrays: a 32-byte slice converts to the array
/// holding the same bytes.
#[verifier::external_body]
pub fn bytes32_of(v: &[u8]) -> (r: [u8; 32])
    requires
        v@.len() == 32,
    ensures
        r@ == v@,
{
    <[u8; 32]>::try_from(v).unwrap_or([0u8; 32])
}

} // verus!
