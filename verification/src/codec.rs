//! Byte-level primitives of the container format: little-endian integer
//! encodings, zero padding, trailing-NUL trimming, and the bounds-checked
//! sequential readers and writers the parser and serializer are built on.

use vstd::prelude::*;

use crate::errors::ParseError;

verus! {

// ------------------------------------------------------------------
// Little-endian integer encodings
// ------------------------------------------------------------------

/// The unsigned value of four little-endian bytes.
pub open spec fn le32(b: Seq<u8>) -> int
    recommends
        b.len() == 4,
{
    b[0] + 0x100 * b[1] + 0x10000 * b[2] + 0x1000000 * b[3]
}

/// The unsigned value of eight little-endian bytes.
pub open spec fn le64(b: Seq<u8>) -> int
    recommends
        b.len() == 8,
{
    le32(b.subrange(0, 4)) + 0x1_0000_0000 * le32(b.subrange(4, 8))
}

/// The four little-endian bytes of an unsigned 32-bit value.
pub open spec fn le32_bytes(v: int) -> Seq<u8>
    recommends
        0 <= v < 0x1_0000_0000,
{
    seq![
        (v % 0x100) as u8,
        ((v / 0x100) % 0x100) as u8,
        ((v / 0x10000) % 0x100) as u8,
        ((v / 0x1000000) % 0x100) as u8,
    ]
}

/// The eight little-endian bytes of an unsigned 64-bit value.
pub open spec fn le64_bytes(v: int) -> Seq<u8>
    recommends
        0 <= v < 0x1_0000_0000_0000_0000,
{
    le32_bytes(v % 0x1_0000_0000) + le32_bytes(v / 0x1_0000_0000)
}

/// Reinterprets an unsigned 32-bit value as two's-complement signed.
pub open spec fn as_i32(u: int) -> int
    recommends
        0 <= u < 0x1_0000_0000,
{
    if u < 0x8000_0000 {
        u
    } else {
        u - 0x1_0000_0000
    }
}

/// The two's-complement unsigned 32-bit image of a signed value.
pub open spec fn i32_bits(n: int) -> int
    recommends
        -0x8000_0000 <= n < 0x8000_0000,
{
    if n < 0 {
        n + 0x1_0000_0000
    } else {
        n
    }
}

/// The four little-endian bytes of a signed 32-bit value.
pub open spec fn le32i(n: i32) -> Seq<u8> {
    le32_bytes(i32_bits(n as int))
}

/// `n` zero bytes.
pub open spec fn zeros(n: int) -> Seq<u8> {
    Seq::new(n as nat, |i| 0u8)
}

/// `s` with all trailing zero bytes removed.
pub open spec fn trim_zeros(s: Seq<u8>) -> Seq<u8>
    decreases s.len(),
{
    if s.len() > 0 && s[s.len() - 1] == 0 {
        trim_zeros(s.drop_last())
    } else {
        s
    }
}

// ------------------------------------------------------------------
// Codec lemmas
// ------------------------------------------------------------------

/// Decoding the four little-endian bytes of a 32-bit value gives it back.
pub proof fn lemma_le32_round(v: int)
    requires
        0 <= v < 0x1_0000_0000,
    ensures
        le32_bytes(v).len() == 4,
        le32(le32_bytes(v)) == v,
{
    vstd::arithmetic::div_mod::lemma_fundamental_div_mod(v, 0x100);
    vstd::arithmetic::div_mod::lemma_fundamental_div_mod(v / 0x100, 0x100);
    vstd::arithmetic::div_mod::lemma_fundamental_div_mod(v / 0x10000, 0x100);
    vstd::arithmetic::div_mod::lemma_div_denominator(v, 0x100, 0x100);
    vstd::arithmetic::div_mod::lemma_div_denominator(v, 0x10000, 0x100);
    assert(v / 0x1000000 < 0x100);
    vstd::arithmetic::div_mod::lemma_small_mod((v / 0x1000000) as nat, 0x100);
}

/// Decoding the eight little-endian bytes of a 64-bit value gives it back.
pub proof fn lemma_le64_round(v: int)
    requires
        0 <= v < 0x1_0000_0000_0000_0000,
    ensures
        le64_bytes(v).len() == 8,
        le64(le64_bytes(v)) == v,
{
    let lo = v % 0x1_0000_0000;
    let hi = v / 0x1_0000_0000;
    vstd::arithmetic::div_mod::lemma_fundamental_div_mod(v, 0x1_0000_0000);
    lemma_le32_round(lo);
    lemma_le32_round(hi);
    assert(le64_bytes(v).subrange(0, 4) =~= le32_bytes(lo));
    assert(le64_bytes(v).subrange(4, 8) =~= le32_bytes(hi));
}

/// Reading back the two's-complement image of a signed 32-bit value gives it back.
pub proof fn lemma_i32_round(n: int)
    requires
        -0x8000_0000 <= n < 0x8000_0000,
    ensures
        0 <= i32_bits(n) < 0x1_0000_0000,
        as_i32(i32_bits(n)) == n,
{
}

/// Trimming does nothing to a sequence that does not end in a zero byte.
pub proof fn lemma_trim_zeros_id(s: Seq<u8>)
    requires
        s.len() == 0 || s[s.len() - 1] != 0,
    ensures
        trim_zeros(s) == s,
{
}

/// Trailing zero padding is exactly what trimming removes.
pub proof fn lemma_trim_zeros_pad(s: Seq<u8>, n: int)
    requires
        n >= 0,
    ensures
        trim_zeros(s + zeros(n)) == trim_zeros(s),
    decreases n,
{
    if n == 0 {
        assert(s + zeros(0) =~= s);
    } else {
        let t = s + zeros(n);
        assert(t[t.len() - 1] == 0);
        assert(t.drop_last() =~= s + zeros(n - 1));
        lemma_trim_zeros_pad(s, n - 1);
    }
}

// ------------------------------------------------------------------
// Bounds-checked sequential readers
// ------------------------------------------------------------------

/// What reading `n` raw bytes at `pos` yields: the bytes and the next
/// position, or `Truncated` when the source is too short.
pub open spec fn sp_bytes(s: Seq<u8>, pos: int, n: int) -> Result<(Seq<u8>, int), ParseError> {
    if 0 <= pos && 0 <= n && pos + n <= s.len() {
        Ok((s.subrange(pos, pos + n), pos + n))
    } else {
        Err(ParseError::Truncated)
    }
}

/// What reading a little-endian u32 at `pos` yields.
pub open spec fn sp_u32(s: Seq<u8>, pos: int) -> Result<(u32, int), ParseError> {
    if 0 <= pos && pos + 4 <= s.len() {
        Ok((le32(s.subrange(pos, pos + 4)) as u32, pos + 4))
    } else {
        Err(ParseError::Truncated)
    }
}

/// What reading a little-endian u64 at `pos` yields.
pub open spec fn sp_u64(s: Seq<u8>, pos: int) -> Result<(u64, int), ParseError> {
    if 0 <= pos && pos + 8 <= s.len() {
        Ok((le64(s.subrange(pos, pos + 8)) as u64, pos + 8))
    } else {
        Err(ParseError::Truncated)
    }
}

/// What reading a little-endian i32 at `pos` yields.
pub open spec fn sp_i32(s: Seq<u8>, pos: int) -> Result<(i32, int), ParseError> {
    if 0 <= pos && pos + 4 <= s.len() {
        Ok((as_i32(le32(s.subrange(pos, pos + 4))) as i32, pos + 4))
    } else {
        Err(ParseError::Truncated)
    }
}

/// An executable read step agrees with its specification.
pub open spec fn step_matches<T>(r: Result<(T, usize), ParseError>, s: Result<(T, int), ParseError>) -> bool {
    match (r, s) {
        (Ok((v, p)), Ok((sv, sp))) => v == sv && p as int == sp,
        (Err(e), Err(se)) => e == se,
        _ => false,
    }
}

/// An executable byte read agrees with its specification.
pub open spec fn bytes_step_matches(
    r: Result<(Vec<u8>, usize), ParseError>,
    s: Result<(Seq<u8>, int), ParseError>,
) -> bool {
    match (r, s) {
        (Ok((v, p)), Ok((sv, sp))) => v@ == sv && p as int == sp,
        (Err(e), Err(se)) => e == se,
        _ => false,
    }
}

/// Copies `n` bytes starting at `pos` out of the source, or fails with
/// `Truncated` when fewer than `n` bytes remain.
pub fn read_bytes(s: &[u8], pos: usize, n: usize) -> (r: Result<(Vec<u8>, usize), ParseError>)
    ensures
        bytes_step_matches(r, sp_bytes(s@, pos as int, n as int)),
{
    if pos <= s.len() && n <= s.len() - pos {
        let piece = vstd::slice::slice_subrange(s, pos, pos + n);
        let out = vstd::slice::slice_to_vec(piece);
        Ok((out, pos + n))
    } else {
        Err(ParseError::Truncated)
    }
}

/// Reads a little-endian u32.
pub fn read_u32_le(s: &[u8], pos: usize) -> (r: Result<(u32, usize), ParseError>)
    ensures
        step_matches(r, sp_u32(s@, pos as int)),
{
    if pos <= s.len() && 4 <= s.len() - pos {
        let b0 = s[pos] as u32;
        let b1 = s[pos + 1] as u32;
        let b2 = s[pos + 2] as u32;
        let b3 = s[pos + 3] as u32;
        let v = b0 + 0x100 * b1 + 0x10000 * b2 + 0x1000000 * b3;
        proof {
            let piece = s@.subrange(pos as int, pos as int + 4);
            assert(piece[0] == s@[pos as int]);
            assert(piece[1] == s@[pos as int + 1]);
            assert(piece[2] == s@[pos as int + 2]);
            assert(piece[3] == s@[pos as int + 3]);
        }
        Ok((v, pos + 4))
    } else {
        Err(ParseError::Truncated)
    }
}

/// Reads a little-endian u64.
pub fn read_u64_le(s: &[u8], pos: usize) -> (r: Result<(u64, usize), ParseError>)
    ensures
        step_matches(r, sp_u64(s@, pos as int)),
{
    if pos <= s.len() && 8 <= s.len() - pos {
        let lo = match read_u32_le(s, pos) {
            Ok((v, _)) => v,
            Err(e) => { return Err(e) },
        };
        let hi = match read_u32_le(s, pos + 4) {
            Ok((v, _)) => v,
            Err(e) => { return Err(e) },
        };
        let v = lo as u64 + 0x1_0000_0000u64 * hi as u64;
        proof {
            let piece = s@.subrange(pos as int, pos as int + 8);
            assert(piece.subrange(0, 4) =~= s@.subrange(pos as int, pos as int + 4));
            assert(piece.subrange(4, 8) =~= s@.subrange(pos as int + 4, pos as int + 8));
        }
        Ok((v, pos + 8))
    } else {
        Err(ParseError::Truncated)
    }
}

/// Reads a little-endian i32 (two's complement).
pub fn read_i32_le(s: &[u8], pos: usize) -> (r: Result<(i32, usize), ParseError>)
    ensures
        step_matches(r, sp_i32(s@, pos as int)),
{
    match read_u32_le(s, pos) {
        Ok((u, p)) => {
            let v: i32 = if u >= 0x8000_0000u32 {
                -((0xFFFF_FFFFu32 - u) as i32) - 1
            } else {
                u as i32
            };
            Ok((v, p))
        },
        Err(e) => Err(e),
    }
}

// ------------------------------------------------------------------
// Sequential writers
// ------------------------------------------------------------------

/// Appends the four little-endian bytes of `v`.
pub fn write_u32_le(out: &mut Vec<u8>, v: u32)
    ensures
        final(out)@ == old(out)@ + le32_bytes(v as int),
{
    out.push((v % 0x100) as u8);
    out.push(((v / 0x100) % 0x100) as u8);
    out.push(((v / 0x10000) % 0x100) as u8);
    out.push(((v / 0x1000000) % 0x100) as u8);
    assert(out@ =~= old(out)@ + le32_bytes(v as int));
}

/// Appends the eight little-endian bytes of `v`.
pub fn write_u64_le(out: &mut Vec<u8>, v: u64)
    ensures
        final(out)@ == old(out)@ + le64_bytes(v as int),
{
    write_u32_le(out, (v % 0x1_0000_0000u64) as u32);
    write_u32_le(out, (v / 0x1_0000_0000u64) as u32);
    assert(out@ =~= old(out)@ + le64_bytes(v as int));
}

/// Appends the four little-endian bytes of a signed 32-bit value.
pub fn write_i32_le(out: &mut Vec<u8>, n: i32)
    ensures
        final(out)@ == old(out)@ + le32i(n),
{
    let u: u32 = if n >= 0 {
        n as u32
    } else {
        0xFFFF_FFFFu32 - ((-(n + 1)) as u32)
    };
    proof {
        lemma_i32_round(n as int);
    }
    write_u32_le(out, u);
}

/// Removes all trailing zero bytes.
pub fn trim_trailing_zeros(v: Vec<u8>) -> (r: Vec<u8>)
    ensures
        r@ == trim_zeros(v@),
{
    let mut v = v;
    let ghost orig = v@;
    loop
        invariant
            trim_zeros(v@) == trim_zeros(orig),
        ensures
            trim_zeros(v@) == trim_zeros(orig),
            v@.len() == 0 || v@[v@.len() - 1] != 0,
        decreases v.len(),
    {
        if v.len() > 0 && v[v.len() - 1] == 0 {
            let ghost prev = v@;
            v.pop();
            proof {
                assert(v@ =~= prev.drop_last());
            }
        } else {
            break;
        }
    }
    proof {
        lemma_trim_zeros_id(v@);
    }
    v
}

} // verus!
