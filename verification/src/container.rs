//! Ghost model of the container format.
//!
//! `spec_parse` says, byte for byte, what any input denotes: either a
//! [`ModelSpec`] or the precise error the parser must report. `spec_serialize`
//! says what the documented layout of a model is. The executable parser and
//! serializer are verified against these two functions, and the format laws
//! (round trip, rejection rules) are proved about them in `proofs`.

use vstd::prelude::*;

use crate::codec::{as_i32, i32_bits, le32, le32_bytes, le32i, le64, le64_bytes, sp_bytes, sp_i32,
    sp_u32, sp_u64, trim_zeros, zeros};
use crate::errors::{ParamField, ParseError};
use vstd::utf8::valid_utf8;

verus! {

/// The eight-byte `APRILMDL` tag every container starts with.
pub open spec fn magic_bytes() -> Seq<u8> {
    seq![65u8, 80u8, 82u8, 73u8, 76u8, 77u8, 68u8, 76u8]
}

/// Highest number of embedded networks a container may declare.
pub open spec fn max_networks() -> int {
    8
}

/// The raw signed 32-bit fields of the parameter block, in file order.
pub ghost struct RawParams {
    pub batch_size: i32,
    pub segment_size: i32,
    pub segment_step: i32,
    pub mel_features: i32,
    pub sample_rate: i32,
    pub frame_shift_ms: i32,
    pub frame_length_ms: i32,
    pub round_pow2: i32,
    pub mel_low: i32,
    pub mel_high: i32,
    pub snip_edges: i32,
    pub token_count: i32,
    pub blank_id: i32,
}

/// Byte-level denotation of a parsed container: string fields are kept as
/// their (trimmed) UTF-8 bytes, networks as their raw blob bytes.
#[verifier::ext_equal]
pub ghost struct ModelSpec {
    pub version: u32,
    pub language: Seq<u8>,
    pub name: Seq<u8>,
    pub description: Seq<u8>,
    pub model_type_tag: u32,
    pub raw: RawParams,
    pub tokens: Seq<Seq<u8>>,
    pub networks: Seq<Seq<u8>>,
}

// ------------------------------------------------------------------
// Validation
// ------------------------------------------------------------------

/// The first parameter-block field that violates its documented bound, if
/// any, in the order the checks are made.
pub open spec fn spec_validate(p: RawParams) -> Option<ParamField> {
    if p.batch_size != 1 {
        Some(ParamField::BatchSize)
    } else if !(0 < p.segment_size < 100) {
        Some(ParamField::SegmentSize)
    } else if !(0 < p.segment_step < 100 && p.segment_step <= p.segment_size) {
        Some(ParamField::SegmentStep)
    } else if !(0 < p.mel_features < 256) {
        Some(ParamField::MelFeatures)
    } else if !(0 < p.sample_rate < 144000) {
        Some(ParamField::SampleRate)
    } else if !(0 < p.token_count < 16384) {
        Some(ParamField::TokenCount)
    } else if !(0 <= p.blank_id < p.token_count) {
        Some(ParamField::BlankId)
    } else if !(0 < p.frame_shift_ms && p.frame_shift_ms <= p.frame_length_ms) {
        Some(ParamField::FrameShiftMs)
    } else if !(0 < p.frame_length_ms <= 5000) {
        Some(ParamField::FrameLengthMs)
    } else if !(0 < p.mel_low < p.sample_rate) {
        Some(ParamField::MelLow)
    } else if !(p.mel_high == 0 || p.mel_high > p.mel_low) {
        Some(ParamField::MelHigh)
    } else {
        None
    }
}

// ------------------------------------------------------------------
// Parsing, field by field
// ------------------------------------------------------------------

/// Reads and verifies the container header: the eight-byte tag (checked
/// before anything else is read), the format version, and the declared
/// header size.
pub open spec fn sp_header(s: Seq<u8>, pos: int) -> Result<((Seq<u8>, u32, u64), int), ParseError> {
    match sp_bytes(s, pos, 8) {
        Err(e) => Err(e),
        Ok((magic, p0)) => if magic != magic_bytes() {
            Err(ParseError::BadMagic)
        } else {
            match sp_u32(s, p0) {
                Err(e) => Err(e),
                Ok((version, p1)) => match sp_u64(s, p1) {
                    Err(e) => Err(e),
                    Ok((header_size, p2)) => Ok(((magic, version, header_size), p2)),
                },
            }
        },
    }
}

/// Reads the eight-byte language tag and strips its NUL padding; what
/// remains must be valid UTF-8.
pub open spec fn sp_lang(s: Seq<u8>, pos: int) -> Result<(Seq<u8>, int), ParseError> {
    match sp_bytes(s, pos, 8) {
        Err(e) => Err(e),
        Ok((raw, p0)) => if valid_utf8(trim_zeros(raw)) {
            Ok((trim_zeros(raw), p0))
        } else {
            Err(ParseError::InvalidEncoding)
        },
    }
}

/// Reads the parameter metadata descriptor: `(offset, size, num_networks)`.
pub open spec fn sp_meta(s: Seq<u8>, pos: int) -> Result<((u64, u64, u64), int), ParseError> {
    match sp_u64(s, pos) {
        Err(e) => Err(e),
        Ok((off, p0)) => match sp_u64(s, p0) {
            Err(e) => Err(e),
            Ok((size, p1)) => match sp_u64(s, p1) {
                Err(e) => Err(e),
                Ok((num_networks, p2)) => Ok(((off, size, num_networks), p2)),
            },
        },
    }
}

/// Reads a u64 byte length followed by that many bytes, which must be valid
/// UTF-8. Returns the raw bytes.
pub open spec fn sp_string(s: Seq<u8>, pos: int) -> Result<(Seq<u8>, int), ParseError> {
    match sp_u64(s, pos) {
        Err(e) => Err(e),
        Ok((len, p1)) => match sp_bytes(s, p1, len as int) {
            Err(e) => Err(e),
            Ok((b, p2)) => if valid_utf8(b) {
                Ok((b, p2))
            } else {
                Err(ParseError::InvalidEncoding)
            },
        },
    }
}

/// Reads `n` network descriptors: pairs of u64 `(offset, size)`.
pub open spec fn sp_descs(s: Seq<u8>, pos: int, n: int) -> Result<(Seq<(u64, u64)>, int), ParseError>
    decreases n,
{
    if n <= 0 {
        Ok((Seq::empty(), pos))
    } else {
        match sp_u64(s, pos) {
            Err(e) => Err(e),
            Ok((off, p1)) => match sp_u64(s, p1) {
                Err(e) => Err(e),
                Ok((sz, p2)) => match sp_descs(s, p2, n - 1) {
                    Err(e) => Err(e),
                    Ok((rest, p3)) => Ok((seq![(off, sz)] + rest, p3)),
                },
            },
        }
    }
}

/// Reads the thirteen signed fields of the parameter block, after skipping
/// its eight-byte reserved prefix.
pub open spec fn sp_raw_params(s: Seq<u8>, pos: int) -> Result<(RawParams, int), ParseError> {
    match sp_bytes(s, pos, 8) {
        Err(e) => Err(e),
        Ok((_reserved, p0)) => match sp_i32(s, p0) {
            Err(e) => Err(e),
            Ok((batch_size, p1)) => match sp_i32(s, p1) {
                Err(e) => Err(e),
                Ok((segment_size, p2)) => match sp_i32(s, p2) {
                    Err(e) => Err(e),
                    Ok((segment_step, p3)) => match sp_i32(s, p3) {
                        Err(e) => Err(e),
                        Ok((mel_features, p4)) => match sp_i32(s, p4) {
                            Err(e) => Err(e),
                            Ok((sample_rate, p5)) => match sp_i32(s, p5) {
                                Err(e) => Err(e),
                                Ok((frame_shift_ms, p6)) => match sp_i32(s, p6) {
                                    Err(e) => Err(e),
                                    Ok((frame_length_ms, p7)) => match sp_i32(s, p7) {
                                        Err(e) => Err(e),
                                        Ok((round_pow2, p8)) => match sp_i32(s, p8) {
                                            Err(e) => Err(e),
                                            Ok((mel_low, p9)) => match sp_i32(s, p9) {
                                                Err(e) => Err(e),
                                                Ok((mel_high, p10)) => match sp_i32(s, p10) {
                                                    Err(e) => Err(e),
                                                    Ok((snip_edges, p11)) => match sp_i32(s, p11) {
                                                        Err(e) => Err(e),
                                                        Ok((token_count, p12)) => match sp_i32(s, p12) {
                                                            Err(e) => Err(e),
                                                            Ok((blank_id, p13)) => Ok((
                                                                RawParams {
                                                                    batch_size,
                                                                    segment_size,
                                                                    segment_step,
                                                                    mel_features,
                                                                    sample_rate,
                                                                    frame_shift_ms,
                                                                    frame_length_ms,
                                                                    round_pow2,
                                                                    mel_low,
                                                                    mel_high,
                                                                    snip_edges,
                                                                    token_count,
                                                                    blank_id,
                                                                },
                                                                p13,
                                                            )),
                                                        },
                                                    },
                                                },
                                            },
                                        },
                                    },
                                },
                            },
                        },
                    },
                },
            },
        },
    }
}

/// Reads `n` vocabulary tokens: an i32 byte length, then that many bytes,
/// which after removal of trailing NUL padding must be valid UTF-8.
pub open spec fn sp_tokens(s: Seq<u8>, pos: int, n: int) -> Result<(Seq<Seq<u8>>, int), ParseError>
    decreases n,
{
    if n <= 0 {
        Ok((Seq::empty(), pos))
    } else {
        match sp_i32(s, pos) {
            Err(e) => Err(e),
            Ok((len, p1)) => if len < 0 {
                Err(ParseError::Truncated)
            } else {
                match sp_bytes(s, p1, len as int) {
                    Err(e) => Err(e),
                    Ok((b, p2)) => if !valid_utf8(trim_zeros(b)) {
                        Err(ParseError::InvalidEncoding)
                    } else {
                        match sp_tokens(s, p2, n - 1) {
                            Err(e) => Err(e),
                            Ok((rest, p3)) => Ok((seq![trim_zeros(b)] + rest, p3)),
                        }
                    },
                }
            },
        }
    }
}

/// Extracts one blob per descriptor, in descriptor order, each by its own
/// `(offset, size)` range; fails with `Truncated` on any out-of-range pair.
pub open spec fn sp_blobs(s: Seq<u8>, descs: Seq<(u64, u64)>) -> Result<Seq<Seq<u8>>, ParseError>
    decreases descs.len(),
{
    if descs.len() == 0 {
        Ok(Seq::empty())
    } else {
        let off = descs[0].0 as int;
        let sz = descs[0].1 as int;
        if off + sz <= s.len() {
            match sp_blobs(s, descs.drop_first()) {
                Err(e) => Err(e),
                Ok(rest) => Ok(seq![s.subrange(off, off + sz)] + rest),
            }
        } else {
            Err(ParseError::Truncated)
        }
    }
}

/// Everything that follows the parameter metadata descriptor: network
/// descriptors, the parameter block (reached by seeking to `offset`), the
/// vocabulary, and the blobs. `meta` is `(offset, size, num_networks)`.
pub open spec fn sp_params_tail(s: Seq<u8>, pos: int, meta: (u64, u64, u64)) -> Result<
    (RawParams, Seq<Seq<u8>>, Seq<Seq<u8>>),
    ParseError,
> {
    if meta.2 > max_networks() {
        Err(ParseError::TooManyNetworks)
    } else {
        match sp_descs(s, pos, meta.2 as int) {
            Err(e) => Err(e),
            Ok((descs, _after_descs)) => match sp_raw_params(s, meta.0 as int) {
                Err(e) => Err(e),
                Ok((raw, p1)) => match spec_validate(raw) {
                    Some(f) => Err(ParseError::ParameterOutOfRange(f)),
                    None => match sp_tokens(s, p1, raw.token_count as int) {
                        Err(e) => Err(e),
                        Ok((tokens, _p2)) => match sp_blobs(s, descs) {
                            Err(e) => Err(e),
                            Ok(blobs) => Ok((raw, tokens, blobs)),
                        },
                    },
                },
            },
        }
    }
}

/// What any byte source denotes: the parsed model, or the first error the
/// parser must report, in strict file order.
pub open spec fn spec_parse(s: Seq<u8>) -> Result<ModelSpec, ParseError> {
    match sp_header(s, 0) {
        Err(e) => Err(e),
        Ok((hdr, p0)) => match sp_lang(s, p0) {
            Err(e) => Err(e),
            Ok((language, p1)) => match sp_string(s, p1) {
                Err(e) => Err(e),
                Ok((name, p2)) => match sp_string(s, p2) {
                    Err(e) => Err(e),
                    Ok((description, p3)) => match sp_u32(s, p3) {
                        Err(e) => Err(e),
                        Ok((tag, p4)) => match sp_meta(s, p4) {
                            Err(e) => Err(e),
                            Ok((meta, p5)) => match sp_params_tail(s, p5, meta) {
                                Err(e) => Err(e),
                                Ok((raw, tokens, blobs)) => Ok(
                                    ModelSpec {
                                        version: hdr.1,
                                        language,
                                        name,
                                        description,
                                        model_type_tag: tag,
                                        raw,
                                        tokens,
                                        networks: blobs,
                                    },
                                ),
                            },
                        },
                    },
                },
            },
        },
    }
}

// ------------------------------------------------------------------
// Serialization
// ------------------------------------------------------------------

/// A u64 byte length followed by the bytes themselves.
pub open spec fn ser_lp64(b: Seq<u8>) -> Seq<u8> {
    le64_bytes(b.len() as int) + b
}

/// One vocabulary token: an i32 byte length followed by the bytes.
pub open spec fn ser_token(t: Seq<u8>) -> Seq<u8> {
    le32_bytes(t.len() as int) + t
}

/// The vocabulary, token records in order.
pub open spec fn ser_tokens(toks: Seq<Seq<u8>>) -> Seq<u8>
    decreases toks.len(),
{
    if toks.len() == 0 {
        Seq::empty()
    } else {
        ser_token(toks[0]) + ser_tokens(toks.drop_first())
    }
}

/// All blobs, concatenated in order.
pub open spec fn cat(bs: Seq<Seq<u8>>) -> Seq<u8>
    decreases bs.len(),
{
    if bs.len() == 0 {
        Seq::empty()
    } else {
        bs[0] + cat(bs.drop_first())
    }
}

/// The thirteen signed parameter fields, in file order.
pub open spec fn ser_raw(p: RawParams) -> Seq<u8> {
    le32i(p.batch_size) + le32i(p.segment_size) + le32i(p.segment_step) + le32i(p.mel_features)
        + le32i(p.sample_rate) + le32i(p.frame_shift_ms) + le32i(p.frame_length_ms)
        + le32i(p.round_pow2) + le32i(p.mel_low) + le32i(p.mel_high) + le32i(p.snip_edges)
        + le32i(p.token_count) + le32i(p.blank_id)
}

/// Where the parameter block starts: right after the header, language tag,
/// the two length-prefixed strings, the model type, the parameter metadata
/// and the network descriptors.
pub open spec fn param_offset(m: ModelSpec) -> int {
    72 + m.name.len() as int + m.description.len() as int + 16 * m.networks.len() as int
}

/// Length of the parameter block: reserved prefix, thirteen fields, vocabulary.
pub open spec fn param_block_len(m: ModelSpec) -> int {
    60 + ser_tokens(m.tokens).len() as int
}

/// Where blob `i` starts: after the parameter block and the preceding blobs.
pub open spec fn blob_offset(m: ModelSpec, i: int) -> int {
    param_offset(m) + param_block_len(m) + cat(m.networks.take(i)).len()
}

/// The network descriptor table from entry `i` on.
pub open spec fn ser_descs(m: ModelSpec, i: int) -> Seq<u8>
    decreases m.networks.len() - i,
{
    if i < 0 || i >= m.networks.len() {
        Seq::empty()
    } else {
        le64_bytes(blob_offset(m, i)) + le64_bytes(m.networks[i].len() as int) + ser_descs(
            m,
            i + 1,
        )
    }
}

/// The descriptor pairs the parser will recover from the descriptor table.
pub open spec fn desc_pairs(m: ModelSpec) -> Seq<(u64, u64)> {
    Seq::new(m.networks.len(), |i: int| (blob_offset(m, i) as u64, m.networks[i].len() as u64))
}

/// The documented byte layout of a model, exactly.
#[verifier::opaque]
pub open spec fn spec_serialize(m: ModelSpec) -> Seq<u8> {
    magic_bytes() + le32_bytes(m.version as int) + le64_bytes(20) + m.language + zeros(
        8 - m.language.len(),
    ) + ser_lp64(m.name) + ser_lp64(m.description) + le32_bytes(m.model_type_tag as int)
        + le64_bytes(param_offset(m)) + le64_bytes(param_block_len(m)) + le64_bytes(
        m.networks.len() as int,
    ) + ser_descs(m, 0) + zeros(8) + ser_raw(m.raw) + ser_tokens(m.tokens) + cat(m.networks)
}

// ------------------------------------------------------------------
// Serialization lemmas
// ------------------------------------------------------------------

/// Appending one token to the vocabulary appends its record.
pub proof fn lemma_ser_tokens_snoc(ts: Seq<Seq<u8>>, t: Seq<u8>)
    ensures
        ser_tokens(ts.push(t)) == ser_tokens(ts) + ser_token(t),
    decreases ts.len(),
{
    if ts.len() == 0 {
        reveal_with_fuel(ser_tokens, 3);
        assert(ts.push(t)[0] == t);
        assert(ts.push(t).drop_first() =~= Seq::<Seq<u8>>::empty());
        assert(ser_token(t) + Seq::<u8>::empty() =~= ser_token(t));
        assert(Seq::<u8>::empty() + ser_token(t) =~= ser_token(t));
    } else {
        assert(ts.push(t)[0] == ts[0]);
        assert(ts.push(t).drop_first() =~= ts.drop_first().push(t));
        lemma_ser_tokens_snoc(ts.drop_first(), t);
        assert(ser_token(ts[0]) + (ser_tokens(ts.drop_first()) + ser_token(t)) =~= (ser_token(
            ts[0],
        ) + ser_tokens(ts.drop_first())) + ser_token(t));
    }
}

/// Appending one blob appends its bytes.
pub proof fn lemma_cat_snoc(bs: Seq<Seq<u8>>, b: Seq<u8>)
    ensures
        cat(bs.push(b)) == cat(bs) + b,
    decreases bs.len(),
{
    if bs.len() == 0 {
        reveal_with_fuel(cat, 3);
        assert(bs.push(b)[0] == b);
        assert(bs.push(b).drop_first() =~= Seq::<Seq<u8>>::empty());
        assert(b + Seq::<u8>::empty() =~= b);
        assert(Seq::<u8>::empty() + b =~= b);
    } else {
        assert(bs.push(b)[0] == bs[0]);
        assert(bs.push(b).drop_first() =~= bs.drop_first().push(b));
        lemma_cat_snoc(bs.drop_first(), b);
        assert(bs[0] + (cat(bs.drop_first()) + b) =~= (bs[0] + cat(bs.drop_first())) + b);
    }
}

/// Blob bytes split as the blobs do.
pub proof fn lemma_cat_split(bs: Seq<Seq<u8>>, i: int)
    requires
        0 <= i <= bs.len(),
    ensures
        cat(bs) == cat(bs.take(i)) + cat(bs.skip(i)),
    decreases i,
{
    if i == 0 {
        assert(bs.take(0) =~= Seq::<Seq<u8>>::empty());
        assert(bs.skip(0) =~= bs);
        assert(Seq::<u8>::empty() + cat(bs) =~= cat(bs));
    } else {
        let df = bs.drop_first();
        lemma_cat_split(df, i - 1);
        assert(bs.take(i)[0] == bs[0]);
        assert(bs.take(i).drop_first() =~= df.take(i - 1));
        assert(bs.skip(i) =~= df.skip(i - 1));
        assert(bs[0] + (cat(df.take(i - 1)) + cat(df.skip(i - 1))) =~= (bs[0] + cat(
            df.take(i - 1),
        )) + cat(df.skip(i - 1)));
    }
}

/// Each descriptor record is sixteen bytes.
pub proof fn lemma_ser_descs_len(m: ModelSpec, i: int)
    requires
        0 <= i <= m.networks.len(),
    ensures
        ser_descs(m, i).len() == 16 * (m.networks.len() - i),
    decreases m.networks.len() - i,
{
    if i < m.networks.len() {
        lemma_ser_descs_len(m, i + 1);
    }
}

/// The serialized image is the parameter offset, the parameter block, and
/// the blobs, end to end.
/// The thirteen parameter fields occupy 52 bytes.
#[verifier::spinoff_prover]
pub proof fn lemma_ser_raw_len(p: RawParams)
    ensures
        ser_raw(p).len() == 52,
{
    assert(le32i(p.batch_size).len() == 4);
    assert(le32i(p.segment_size).len() == 4);
    assert(le32i(p.segment_step).len() == 4);
    assert(le32i(p.mel_features).len() == 4);
    assert(le32i(p.sample_rate).len() == 4);
    assert(le32i(p.frame_shift_ms).len() == 4);
    assert(le32i(p.frame_length_ms).len() == 4);
    assert(le32i(p.round_pow2).len() == 4);
    assert(le32i(p.mel_low).len() == 4);
    assert(le32i(p.mel_high).len() == 4);
    assert(le32i(p.snip_edges).len() == 4);
    assert(le32i(p.token_count).len() == 4);
    assert(le32i(p.blank_id).len() == 4);
}

#[verifier::rlimit(100)]
#[verifier::spinoff_prover]
pub proof fn lemma_spec_serialize_len(m: ModelSpec)
    requires
        m.language.len() <= 8,
    ensures
        spec_serialize(m).len() == param_offset(m) + param_block_len(m) + cat(m.networks).len(),
{
    reveal(spec_serialize);
    lemma_ser_descs_len(m, 0);
    lemma_ser_raw_len(m.raw);
    assert(magic_bytes().len() == 8);
    assert(le32_bytes(m.version as int).len() == 4);
    assert(le64_bytes(20).len() == 8);
    assert(zeros(8 - m.language.len()).len() == 8 - m.language.len());
    assert(ser_lp64(m.name).len() == 8 + m.name.len());
    assert(ser_lp64(m.description).len() == 8 + m.description.len());
    assert(le32_bytes(m.model_type_tag as int).len() == 4);
    assert(le64_bytes(param_offset(m)).len() == 8);
    assert(le64_bytes(param_block_len(m)).len() == 8);
    assert(le64_bytes(m.networks.len() as int).len() == 8);
    assert(zeros(8).len() == 8);
}

/// Reassociation of the serialized image into the pieces a sequential
/// writer appends.
#[verifier::rlimit(100)]
#[verifier::spinoff_prover]
pub proof fn lemma_spec_serialize_parts(m: ModelSpec)
    ensures
        Seq::<u8>::empty() + magic_bytes() + le32_bytes(m.version as int) + le64_bytes(20)
            + m.language + zeros(8 - m.language.len()) + ser_lp64(m.name) + ser_lp64(
            m.description,
        ) + le32_bytes(m.model_type_tag as int) + le64_bytes(param_offset(m)) + le64_bytes(
            param_block_len(m),
        ) + le64_bytes(m.networks.len() as int) + ser_descs(m, 0) + zeros(8) + ser_raw(m.raw)
            + ser_tokens(m.tokens) + cat(m.networks) == spec_serialize(m),
{
    reveal(spec_serialize);
    assert(Seq::<u8>::empty() + magic_bytes() + le32_bytes(m.version as int) + le64_bytes(20)
        + m.language + zeros(8 - m.language.len()) + ser_lp64(m.name) + ser_lp64(m.description)
        + le32_bytes(m.model_type_tag as int) + le64_bytes(param_offset(m)) + le64_bytes(
        param_block_len(m),
    ) + le64_bytes(m.networks.len() as int) + ser_descs(m, 0) + zeros(8) + ser_raw(m.raw)
        + ser_tokens(m.tokens) + cat(m.networks) =~= spec_serialize(m));
}

/// The image as a list of its seventeen fields, in layout order.
pub open spec fn chunks(m: ModelSpec) -> Seq<Seq<u8>> {
    seq![
        magic_bytes(),
        le32_bytes(m.version as int),
        le64_bytes(20),
        m.language + zeros(8 - m.language.len()),
        le64_bytes(m.name.len() as int),
        m.name,
        le64_bytes(m.description.len() as int),
        m.description,
        le32_bytes(m.model_type_tag as int),
        le64_bytes(param_offset(m)),
        le64_bytes(param_block_len(m)),
        le64_bytes(m.networks.len() as int),
        ser_descs(m, 0),
        zeros(8),
        ser_raw(m.raw),
        ser_tokens(m.tokens),
        cat(m.networks),
    ]
}

/// Where field `i` starts inside a chunked image.
pub open spec fn chunk_off(bs: Seq<Seq<u8>>, i: int) -> int {
    cat(bs.take(i)).len() as int
}

/// Each field of a chunked image is recovered exactly by its subrange.
pub proof fn lemma_cat_chunk(bs: Seq<Seq<u8>>, i: int)
    requires
        0 <= i < bs.len(),
    ensures
        chunk_off(bs, i) + bs[i].len() <= cat(bs).len(),
        cat(bs).subrange(chunk_off(bs, i), chunk_off(bs, i) + bs[i].len() as int) == bs[i],
    decreases i,
{
    lemma_cat_split(bs, i);
    assert(bs.skip(i)[0] == bs[i]);
    assert(cat(bs.skip(i)) == bs[i] + cat(bs.skip(i).drop_first()));
    assert(cat(bs).subrange(chunk_off(bs, i), chunk_off(bs, i) + bs[i].len() as int) =~= bs[i]);
}

/// The serialized image is exactly its chunk list, end to end.
#[verifier::rlimit(100)]
#[verifier::spinoff_prover]
pub proof fn lemma_chunks(m: ModelSpec)
    ensures
        spec_serialize(m) == cat(chunks(m)),
{
    reveal(spec_serialize);
    let bs = chunks(m);
    assert(bs.take(0) =~= Seq::<Seq<u8>>::empty());
    assert(bs.take(1) =~= bs.take(0).push(bs[0]));
    lemma_cat_snoc(bs.take(0), bs[0]);
    assert(bs.take(2) =~= bs.take(1).push(bs[1]));
    lemma_cat_snoc(bs.take(1), bs[1]);
    assert(bs.take(3) =~= bs.take(2).push(bs[2]));
    lemma_cat_snoc(bs.take(2), bs[2]);
    assert(bs.take(4) =~= bs.take(3).push(bs[3]));
    lemma_cat_snoc(bs.take(3), bs[3]);
    assert(bs.take(5) =~= bs.take(4).push(bs[4]));
    lemma_cat_snoc(bs.take(4), bs[4]);
    assert(bs.take(6) =~= bs.take(5).push(bs[5]));
    lemma_cat_snoc(bs.take(5), bs[5]);
    assert(bs.take(7) =~= bs.take(6).push(bs[6]));
    lemma_cat_snoc(bs.take(6), bs[6]);
    assert(bs.take(8) =~= bs.take(7).push(bs[7]));
    lemma_cat_snoc(bs.take(7), bs[7]);
    assert(bs.take(9) =~= bs.take(8).push(bs[8]));
    lemma_cat_snoc(bs.take(8), bs[8]);
    assert(bs.take(10) =~= bs.take(9).push(bs[9]));
    lemma_cat_snoc(bs.take(9), bs[9]);
    assert(bs.take(11) =~= bs.take(10).push(bs[10]));
    lemma_cat_snoc(bs.take(10), bs[10]);
    assert(bs.take(12) =~= bs.take(11).push(bs[11]));
    lemma_cat_snoc(bs.take(11), bs[11]);
    assert(bs.take(13) =~= bs.take(12).push(bs[12]));
    lemma_cat_snoc(bs.take(12), bs[12]);
    assert(bs.take(14) =~= bs.take(13).push(bs[13]));
    lemma_cat_snoc(bs.take(13), bs[13]);
    assert(bs.take(15) =~= bs.take(14).push(bs[14]));
    lemma_cat_snoc(bs.take(14), bs[14]);
    assert(bs.take(16) =~= bs.take(15).push(bs[15]));
    lemma_cat_snoc(bs.take(15), bs[15]);
    assert(bs.take(17) =~= bs.take(16).push(bs[16]));
    lemma_cat_snoc(bs.take(16), bs[16]);
    assert(bs.take(17) =~= bs);
    assert(cat(bs.take(0)) =~= Seq::<u8>::empty());
    assert(Seq::<u8>::empty() + magic_bytes() =~= magic_bytes());
}

/// The numeric start of every field of the image.
#[verifier::rlimit(100)]
#[verifier::spinoff_prover]
pub proof fn lemma_chunk_offsets(m: ModelSpec)
    requires
        m.language.len() <= 8,
    ensures
        ({
            let bs = chunks(m);
            let nl = m.name.len() as int;
            let dl = m.description.len() as int;
            let po = param_offset(m);
            &&& chunk_off(bs, 0) == 0
            &&& chunk_off(bs, 1) == 8
            &&& chunk_off(bs, 2) == 12
            &&& chunk_off(bs, 3) == 20
            &&& chunk_off(bs, 4) == 28
            &&& chunk_off(bs, 5) == 36
            &&& chunk_off(bs, 6) == 36 + nl
            &&& chunk_off(bs, 7) == 44 + nl
            &&& chunk_off(bs, 8) == 44 + nl + dl
            &&& chunk_off(bs, 9) == 48 + nl + dl
            &&& chunk_off(bs, 10) == 56 + nl + dl
            &&& chunk_off(bs, 11) == 64 + nl + dl
            &&& chunk_off(bs, 12) == 72 + nl + dl
            &&& chunk_off(bs, 13) == po
            &&& chunk_off(bs, 14) == po + 8
            &&& chunk_off(bs, 15) == po + 60
            &&& chunk_off(bs, 16) == po + param_block_len(m)
            &&& cat(bs).len() == po + param_block_len(m) + cat(m.networks).len()
        }),
{
    let bs = chunks(m);
    lemma_ser_descs_len(m, 0);
    lemma_ser_raw_len(m.raw);
    assert(bs.take(0) =~= Seq::<Seq<u8>>::empty());
    assert(bs.take(1) =~= bs.take(0).push(bs[0]));
    lemma_cat_snoc(bs.take(0), bs[0]);
    assert(bs.take(2) =~= bs.take(1).push(bs[1]));
    lemma_cat_snoc(bs.take(1), bs[1]);
    assert(bs.take(3) =~= bs.take(2).push(bs[2]));
    lemma_cat_snoc(bs.take(2), bs[2]);
    assert(bs.take(4) =~= bs.take(3).push(bs[3]));
    lemma_cat_snoc(bs.take(3), bs[3]);
    assert(bs.take(5) =~= bs.take(4).push(bs[4]));
    lemma_cat_snoc(bs.take(4), bs[4]);
    assert(bs.take(6) =~= bs.take(5).push(bs[5]));
    lemma_cat_snoc(bs.take(5), bs[5]);
    assert(bs.take(7) =~= bs.take(6).push(bs[6]));
    lemma_cat_snoc(bs.take(6), bs[6]);
    assert(bs.take(8) =~= bs.take(7).push(bs[7]));
    lemma_cat_snoc(bs.take(7), bs[7]);
    assert(bs.take(9) =~= bs.take(8).push(bs[8]));
    lemma_cat_snoc(bs.take(8), bs[8]);
    assert(bs.take(10) =~= bs.take(9).push(bs[9]));
    lemma_cat_snoc(bs.take(9), bs[9]);
    assert(bs.take(11) =~= bs.take(10).push(bs[10]));
    lemma_cat_snoc(bs.take(10), bs[10]);
    assert(bs.take(12) =~= bs.take(11).push(bs[11]));
    lemma_cat_snoc(bs.take(11), bs[11]);
    assert(bs.take(13) =~= bs.take(12).push(bs[12]));
    lemma_cat_snoc(bs.take(12), bs[12]);
    assert(bs.take(14) =~= bs.take(13).push(bs[13]));
    lemma_cat_snoc(bs.take(13), bs[13]);
    assert(bs.take(15) =~= bs.take(14).push(bs[14]));
    lemma_cat_snoc(bs.take(14), bs[14]);
    assert(bs.take(16) =~= bs.take(15).push(bs[15]));
    lemma_cat_snoc(bs.take(15), bs[15]);
    assert(bs.take(17) =~= bs.take(16).push(bs[16]));
    lemma_cat_snoc(bs.take(16), bs[16]);
    assert(bs.take(17) =~= bs);
}

// ------------------------------------------------------------------
// What the serializer can represent
// ------------------------------------------------------------------

/// A token record the layout can carry: its length fits the i32 length
/// prefix, it carries no trailing NUL (that is padding, which parsing
/// strips), and it is valid UTF-8.
pub open spec fn wf_token(t: Seq<u8>) -> bool {
    t.len() < 0x8000_0000 && (t.len() == 0 || t[t.len() - 1] != 0) && valid_utf8(t)
}

/// A model the documented layout can carry faithfully. Bounds on the string
/// and count fields come from their fixed-width length prefixes; the overall
/// size must fit the u64 offsets of the descriptor table.
pub open spec fn encodable(m: ModelSpec) -> bool {
    &&& m.language.len() <= 8
    &&& (m.language.len() == 0 || m.language[m.language.len() - 1] != 0)
    &&& valid_utf8(m.language)
    &&& valid_utf8(m.name)
    &&& valid_utf8(m.description)
    &&& forall|i: int| 0 <= i < m.tokens.len() ==> wf_token(#[trigger] m.tokens[i])
    &&& m.raw.token_count as int == m.tokens.len()
    &&& spec_serialize(m).len() < 0x1_0000_0000_0000_0000
}

} // verus!
