//! Format laws, proved over the ghost model: the round trip between
//! `spec_serialize` and `spec_parse`, and the documented rejection rules.

use vstd::prelude::*;

use crate::codec::{as_i32, i32_bits, le32, le32_bytes, le32i, le64, le64_bytes,
    lemma_i32_round, lemma_le32_round, lemma_le64_round, lemma_trim_zeros_id,
    lemma_trim_zeros_pad, sp_bytes, sp_i32, sp_u32, sp_u64, trim_zeros, zeros};
use crate::container::{blob_offset, cat, chunk_off, chunks, desc_pairs, encodable,
    lemma_cat_chunk, lemma_cat_snoc, lemma_cat_split, lemma_chunk_offsets, lemma_chunks,
    lemma_ser_descs_len, lemma_ser_raw_len, lemma_ser_tokens_snoc, lemma_spec_serialize_len,
    magic_bytes, max_networks, param_block_len, param_offset, ser_descs, ser_lp64, ser_raw,
    ser_token, ser_tokens, sp_descs, sp_header, sp_lang, sp_meta, sp_params_tail, sp_raw_params,
    sp_string, sp_tokens, sp_blobs, spec_parse, spec_serialize, spec_validate, wf_token,
    ModelSpec, RawParams};
use crate::errors::{ParamField, ParseError};
use vstd::utf8::valid_utf8;

verus! {

// ------------------------------------------------------------------
// Where each field lies in the serialized image
// ------------------------------------------------------------------

/// Subrange facts for the fixed-position fields of the image, up to the
/// descriptor table.
#[verifier::rlimit(100)]
#[verifier::spinoff_prover]
pub proof fn lemma_image_head(m: ModelSpec)
    requires
        m.language.len() <= 8,
    ensures
        ({
            let s = spec_serialize(m);
            let nl = m.name.len() as int;
            let dl = m.description.len() as int;
            &&& s.len() == param_offset(m) + param_block_len(m) + cat(m.networks).len()
            &&& s.subrange(0, 8) == magic_bytes()
            &&& s.subrange(8, 12) == le32_bytes(m.version as int)
            &&& s.subrange(12, 20) == le64_bytes(20)
            &&& s.subrange(20, 28) == m.language + zeros(8 - m.language.len())
            &&& s.subrange(28, 36) == le64_bytes(nl)
            &&& s.subrange(36, 36 + nl) == m.name
            &&& s.subrange(36 + nl, 44 + nl) == le64_bytes(dl)
            &&& s.subrange(44 + nl, 44 + nl + dl) == m.description
            &&& s.subrange(44 + nl + dl, 48 + nl + dl) == le32_bytes(m.model_type_tag as int)
            &&& s.subrange(48 + nl + dl, 56 + nl + dl) == le64_bytes(param_offset(m))
            &&& s.subrange(56 + nl + dl, 64 + nl + dl) == le64_bytes(param_block_len(m))
            &&& s.subrange(64 + nl + dl, 72 + nl + dl) == le64_bytes(m.networks.len() as int)
        }),
{
    let bs = chunks(m);
    lemma_chunks(m);
    lemma_chunk_offsets(m);
    lemma_ser_descs_len(m, 0);
    lemma_ser_raw_len(m.raw);
    lemma_cat_chunk(bs, 0);
    lemma_cat_chunk(bs, 1);
    lemma_cat_chunk(bs, 2);
    lemma_cat_chunk(bs, 3);
    lemma_cat_chunk(bs, 4);
    lemma_cat_chunk(bs, 5);
    lemma_cat_chunk(bs, 6);
    lemma_cat_chunk(bs, 7);
    lemma_cat_chunk(bs, 8);
    lemma_cat_chunk(bs, 9);
    lemma_cat_chunk(bs, 10);
    lemma_cat_chunk(bs, 11);
}

/// Subrange facts for the descriptor table, the parameter block, the
/// vocabulary and the blob area.
#[verifier::rlimit(100)]
#[verifier::spinoff_prover]
pub proof fn lemma_image_tail(m: ModelSpec)
    requires
        m.language.len() <= 8,
    ensures
        ({
            let s = spec_serialize(m);
            let po = param_offset(m);
            &&& s.len() == po + param_block_len(m) + cat(m.networks).len()
            &&& s.subrange(po - 16 * m.networks.len() as int, po) == ser_descs(m, 0)
            &&& s.subrange(po, po + 8) == zeros(8)
            &&& s.subrange(po + 8, po + 60) == ser_raw(m.raw)
            &&& s.subrange(po + 60, po + param_block_len(m)) == ser_tokens(m.tokens)
            &&& s.subrange(po + param_block_len(m), s.len() as int) == cat(m.networks)
        }),
{
    let bs = chunks(m);
    lemma_chunks(m);
    lemma_chunk_offsets(m);
    lemma_ser_descs_len(m, 0);
    lemma_ser_raw_len(m.raw);
    lemma_cat_chunk(bs, 12);
    lemma_cat_chunk(bs, 13);
    lemma_cat_chunk(bs, 14);
    lemma_cat_chunk(bs, 15);
    lemma_cat_chunk(bs, 16);
}

// ------------------------------------------------------------------
// Reading a field back from a known subrange
// ------------------------------------------------------------------

/// A u32 read at a position whose four bytes encode `v` yields `v`.
pub proof fn lemma_u32_from(s: Seq<u8>, pos: int, v: u32)
    requires
        0 <= pos,
        pos + 4 <= s.len(),
        s.subrange(pos, pos + 4) == le32_bytes(v as int),
    ensures
        sp_u32(s, pos) == Ok::<(u32, int), ParseError>((v, pos + 4)),
{
    lemma_le32_round(v as int);
}

/// A u64 read at a position whose eight bytes encode `v` yields `v`.
pub proof fn lemma_u64_from(s: Seq<u8>, pos: int, v: int)
    requires
        0 <= pos,
        pos + 8 <= s.len(),
        0 <= v < 0x1_0000_0000_0000_0000,
        s.subrange(pos, pos + 8) == le64_bytes(v),
    ensures
        sp_u64(s, pos) == Ok::<(u64, int), ParseError>((v as u64, pos + 8)),
{
    lemma_le64_round(v);
}

/// An i32 read at a position whose four bytes encode `v` yields `v`.
pub proof fn lemma_i32_from(s: Seq<u8>, pos: int, v: i32)
    requires
        0 <= pos,
        pos + 4 <= s.len(),
        s.subrange(pos, pos + 4) == le32i(v),
    ensures
        sp_i32(s, pos) == Ok::<(i32, int), ParseError>((v, pos + 4)),
{
    lemma_i32_round(v as int);
    lemma_le32_round(i32_bits(v as int));
}

/// A length-prefixed string read over a region holding `ser_lp64(b)`.
pub proof fn lemma_string_from(s: Seq<u8>, pos: int, b: Seq<u8>)
    requires
        0 <= pos,
        pos + 8 + b.len() <= s.len(),
        b.len() < 0x1_0000_0000_0000_0000,
        s.subrange(pos, pos + 8) == le64_bytes(b.len() as int),
        s.subrange(pos + 8, pos + 8 + b.len()) == b,
        valid_utf8(b),
    ensures
        sp_string(s, pos) == Ok::<(Seq<u8>, int), ParseError>((b, pos + 8 + b.len())),
{
    lemma_u64_from(s, pos, b.len() as int);
}

// ------------------------------------------------------------------
// The three repeated regions, by induction
// ------------------------------------------------------------------

/// The descriptor table parses back to the pairs the serializer computed.
#[verifier::rlimit(100)]
#[verifier::spinoff_prover]
pub proof fn lemma_descs_from(m: ModelSpec, i: int)
    requires
        spec_serialize(m).len() < 0x1_0000_0000_0000_0000,
        spec_serialize(m).len() == param_offset(m) + param_block_len(m) + cat(m.networks).len(),
        0 <= i <= m.networks.len(),
        spec_serialize(m).subrange(
            param_offset(m) - 16 * (m.networks.len() - i),
            param_offset(m),
        ) == ser_descs(m, i),
    ensures
        sp_descs(
            spec_serialize(m),
            param_offset(m) - 16 * (m.networks.len() - i),
            m.networks.len() - i,
        ) == Ok::<(Seq<(u64, u64)>, int), ParseError>((desc_pairs(m).skip(i), param_offset(m))),
    decreases m.networks.len() - i,
{
    let s = spec_serialize(m);
    let po = param_offset(m);
    let n = m.networks.len() as int;
    lemma_ser_descs_len(m, i);
    if i == n {
        assert(desc_pairs(m).skip(i) =~= Seq::<(u64, u64)>::empty());
    } else {
        let pos = po - 16 * (n - i);
        let region = ser_descs(m, i);
        lemma_ser_descs_len(m, i + 1);
        assert(s.subrange(pos, pos + 8) =~= region.subrange(0, 8));
        assert(region.subrange(0, 8) =~= le64_bytes(blob_offset(m, i)));
        assert(s.subrange(pos + 8, pos + 16) =~= region.subrange(8, 16));
        assert(region.subrange(8, 16) =~= le64_bytes(m.networks[i].len() as int));
        lemma_cat_split(m.networks, i);
        assert(blob_offset(m, i) + m.networks[i].len() <= s.len());
        lemma_u64_from(s, pos, blob_offset(m, i));
        lemma_u64_from(s, pos + 8, m.networks[i].len() as int);
        assert(s.subrange(pos + 16, po) =~= s.subrange(pos, po).subrange(16, po - pos));
        assert(s.subrange(pos, po).subrange(16, po - pos) =~= ser_descs(m, i + 1));
        lemma_descs_from(m, i + 1);
        assert(desc_pairs(m).skip(i) =~= seq![
            (blob_offset(m, i) as u64, m.networks[i].len() as u64),
        ] + desc_pairs(m).skip(i + 1));
    }
}

/// The four-byte encodings of the first seven parameter fields.
#[verifier::rlimit(100)]
#[verifier::spinoff_prover]
proof fn lemma_raw_fields_a(m: ModelSpec)
    requires
        param_offset(m) + 60 <= spec_serialize(m).len(),
        spec_serialize(m).subrange(param_offset(m) + 8, param_offset(m) + 60) == ser_raw(m.raw),
    ensures
        ({
            let s = spec_serialize(m);
            let po = param_offset(m);
            &&& s.subrange(po + 8, po + 12) == le32i(m.raw.batch_size)
            &&& s.subrange(po + 12, po + 16) == le32i(m.raw.segment_size)
            &&& s.subrange(po + 16, po + 20) == le32i(m.raw.segment_step)
            &&& s.subrange(po + 20, po + 24) == le32i(m.raw.mel_features)
            &&& s.subrange(po + 24, po + 28) == le32i(m.raw.sample_rate)
            &&& s.subrange(po + 28, po + 32) == le32i(m.raw.frame_shift_ms)
            &&& s.subrange(po + 32, po + 36) == le32i(m.raw.frame_length_ms)
        }),
{
    let s = spec_serialize(m);
    let po = param_offset(m);
    let r = ser_raw(m.raw);
    lemma_ser_raw_len(m.raw);
    assert(s.subrange(po + 8, po + 12) =~= r.subrange(0, 4));
    assert(r.subrange(0, 4) =~= le32i(m.raw.batch_size));
    assert(s.subrange(po + 12, po + 16) =~= r.subrange(4, 8));
    assert(r.subrange(4, 8) =~= le32i(m.raw.segment_size));
    assert(s.subrange(po + 16, po + 20) =~= r.subrange(8, 12));
    assert(r.subrange(8, 12) =~= le32i(m.raw.segment_step));
    assert(s.subrange(po + 20, po + 24) =~= r.subrange(12, 16));
    assert(r.subrange(12, 16) =~= le32i(m.raw.mel_features));
    assert(s.subrange(po + 24, po + 28) =~= r.subrange(16, 20));
    assert(r.subrange(16, 20) =~= le32i(m.raw.sample_rate));
    assert(s.subrange(po + 28, po + 32) =~= r.subrange(20, 24));
    assert(r.subrange(20, 24) =~= le32i(m.raw.frame_shift_ms));
    assert(s.subrange(po + 32, po + 36) =~= r.subrange(24, 28));
    assert(r.subrange(24, 28) =~= le32i(m.raw.frame_length_ms));
}

/// The four-byte encodings of the next three parameter fields.
#[verifier::rlimit(100)]
#[verifier::spinoff_prover]
proof fn lemma_raw_fields_b(m: ModelSpec)
    requires
        param_offset(m) + 60 <= spec_serialize(m).len(),
        spec_serialize(m).subrange(param_offset(m) + 8, param_offset(m) + 60) == ser_raw(m.raw),
    ensures
        ({
            let s = spec_serialize(m);
            let po = param_offset(m);
            &&& s.subrange(po + 36, po + 40) == le32i(m.raw.round_pow2)
            &&& s.subrange(po + 40, po + 44) == le32i(m.raw.mel_low)
            &&& s.subrange(po + 44, po + 48) == le32i(m.raw.mel_high)
        }),
{
    let s = spec_serialize(m);
    let po = param_offset(m);
    let r = ser_raw(m.raw);
    lemma_ser_raw_len(m.raw);
    assert(s.subrange(po + 36, po + 40) =~= r.subrange(28, 32));
    assert(r.subrange(28, 32) =~= le32i(m.raw.round_pow2));
    assert(s.subrange(po + 40, po + 44) =~= r.subrange(32, 36));
    assert(r.subrange(32, 36) =~= le32i(m.raw.mel_low));
    assert(s.subrange(po + 44, po + 48) =~= r.subrange(36, 40));
    assert(r.subrange(36, 40) =~= le32i(m.raw.mel_high));
}

/// The four-byte encodings of the last three parameter fields.
#[verifier::rlimit(100)]
#[verifier::spinoff_prover]
proof fn lemma_raw_fields_c(m: ModelSpec)
    requires
        param_offset(m) + 60 <= spec_serialize(m).len(),
        spec_serialize(m).subrange(param_offset(m) + 8, param_offset(m) + 60) == ser_raw(m.raw),
    ensures
        ({
            let s = spec_serialize(m);
            let po = param_offset(m);
            &&& s.subrange(po + 48, po + 52) == le32i(m.raw.snip_edges)
            &&& s.subrange(po + 52, po + 56) == le32i(m.raw.token_count)
            &&& s.subrange(po + 56, po + 60) == le32i(m.raw.blank_id)
        }),
{
    let s = spec_serialize(m);
    let po = param_offset(m);
    let r = ser_raw(m.raw);
    lemma_ser_raw_len(m.raw);
    assert(s.subrange(po + 48, po + 52) =~= r.subrange(40, 44));
    assert(r.subrange(40, 44) =~= le32i(m.raw.snip_edges));
    assert(s.subrange(po + 52, po + 56) =~= r.subrange(44, 48));
    assert(r.subrange(44, 48) =~= le32i(m.raw.token_count));
    assert(s.subrange(po + 56, po + 60) =~= r.subrange(48, 52));
    assert(r.subrange(48, 52) =~= le32i(m.raw.blank_id));
}

/// The parameter block parses back to the raw fields the serializer wrote.
#[verifier::rlimit(100)]
#[verifier::spinoff_prover]
pub proof fn lemma_raw_params_from(m: ModelSpec)
    requires
        param_offset(m) + 60 <= spec_serialize(m).len(),
        spec_serialize(m).subrange(param_offset(m) + 8, param_offset(m) + 60) == ser_raw(m.raw),
    ensures
        sp_raw_params(spec_serialize(m), param_offset(m)) == Ok::<(RawParams, int), ParseError>(
            (m.raw, param_offset(m) + 60),
        ),
{
    let s = spec_serialize(m);
    let po = param_offset(m);
    lemma_raw_fields_a(m);
    lemma_raw_fields_b(m);
    lemma_raw_fields_c(m);
    lemma_i32_from(s, po + 8, m.raw.batch_size);
    lemma_i32_from(s, po + 12, m.raw.segment_size);
    lemma_i32_from(s, po + 16, m.raw.segment_step);
    lemma_i32_from(s, po + 20, m.raw.mel_features);
    lemma_i32_from(s, po + 24, m.raw.sample_rate);
    lemma_i32_from(s, po + 28, m.raw.frame_shift_ms);
    lemma_i32_from(s, po + 32, m.raw.frame_length_ms);
    lemma_i32_from(s, po + 36, m.raw.round_pow2);
    lemma_i32_from(s, po + 40, m.raw.mel_low);
    lemma_i32_from(s, po + 44, m.raw.mel_high);
    lemma_i32_from(s, po + 48, m.raw.snip_edges);
    lemma_i32_from(s, po + 52, m.raw.token_count);
    lemma_i32_from(s, po + 56, m.raw.blank_id);
    assert(sp_bytes(s, po, 8) == Ok::<(Seq<u8>, int), ParseError>((
        s.subrange(po, po + 8),
        po + 8,
    )));
}

/// The vocabulary parses back token by token.
#[verifier::rlimit(100)]
#[verifier::spinoff_prover]
pub proof fn lemma_tokens_from(m: ModelSpec, i: int, pos: int)
    requires
        forall|k: int| 0 <= k < m.tokens.len() ==> wf_token(#[trigger] m.tokens[k]),
        0 <= i <= m.tokens.len(),
        0 <= pos,
        pos + ser_tokens(m.tokens.skip(i)).len() == param_offset(m) + param_block_len(m),
        param_offset(m) + param_block_len(m) <= spec_serialize(m).len(),
        spec_serialize(m).subrange(pos, param_offset(m) + param_block_len(m)) == ser_tokens(
            m.tokens.skip(i),
        ),
    ensures
        sp_tokens(spec_serialize(m), pos, m.tokens.len() - i) == Ok::<
            (Seq<Seq<u8>>, int),
            ParseError,
        >((m.tokens.skip(i), param_offset(m) + param_block_len(m))),
    decreases m.tokens.len() - i,
{
    let s = spec_serialize(m);
    let pe = param_offset(m) + param_block_len(m);
    if i == m.tokens.len() {
        assert(m.tokens.skip(i) =~= Seq::<Seq<u8>>::empty());
    } else {
        let t = m.tokens[i];
        let rest = ser_tokens(m.tokens.skip(i));
        assert(m.tokens.skip(i)[0] == t);
        assert(m.tokens.skip(i).drop_first() =~= m.tokens.skip(i + 1));
        // rest == ser_token(t) + ser_tokens(skip(i + 1))
        assert(s.subrange(pos, pos + 4) =~= rest.subrange(0, 4));
        assert(rest.subrange(0, 4) =~= le32_bytes(t.len() as int));
        assert(s.subrange(pos + 4, pos + 4 + t.len() as int) =~= rest.subrange(
            4,
            4 + t.len() as int,
        ));
        assert(rest.subrange(4, 4 + t.len() as int) =~= t);
        assert(le32_bytes(t.len() as int) =~= le32i(t.len() as i32));
        lemma_i32_from(s, pos, t.len() as i32);
        lemma_trim_zeros_id(t);
        let pos2 = pos + 4 + t.len() as int;
        assert(s.subrange(pos2, pe) =~= s.subrange(pos, pe).subrange(
            4 + t.len() as int,
            pe - pos,
        ));
        assert(s.subrange(pos, pe).subrange(4 + t.len() as int, pe - pos) =~= ser_tokens(
            m.tokens.skip(i + 1),
        ));
        lemma_tokens_from(m, i + 1, pos2);
        assert(m.tokens.skip(i) =~= seq![t] + m.tokens.skip(i + 1));
    }
}

/// The blob area parses back blob by blob, each by its own descriptor.
#[verifier::rlimit(100)]
#[verifier::spinoff_prover]
pub proof fn lemma_blobs_from(m: ModelSpec, i: int)
    requires
        spec_serialize(m).len() == param_offset(m) + param_block_len(m) + cat(m.networks).len(),
        spec_serialize(m).subrange(
            param_offset(m) + param_block_len(m),
            spec_serialize(m).len() as int,
        ) == cat(m.networks),
        spec_serialize(m).len() < 0x1_0000_0000_0000_0000,
        0 <= i <= m.networks.len(),
    ensures
        sp_blobs(spec_serialize(m), desc_pairs(m).skip(i)) == Ok::<Seq<Seq<u8>>, ParseError>(
            m.networks.skip(i),
        ),
    decreases m.networks.len() - i,
{
    let s = spec_serialize(m);
    let base = param_offset(m) + param_block_len(m);
    if i == m.networks.len() {
        assert(desc_pairs(m).skip(i) =~= Seq::<(u64, u64)>::empty());
        assert(m.networks.skip(i) =~= Seq::<Seq<u8>>::empty());
    } else {
        let b = m.networks[i];
        lemma_cat_split(m.networks, i);
        assert(m.networks.skip(i)[0] == b);
        assert(m.networks.skip(i).drop_first() =~= m.networks.skip(i + 1));
        let off = blob_offset(m, i);
        assert(desc_pairs(m).skip(i)[0] == (off as u64, b.len() as u64));
        assert(0 <= off < 0x1_0000_0000_0000_0000);
        assert((off as u64) as int == off);
        assert((b.len() as u64) as int == b.len() as int);
        assert(desc_pairs(m).skip(i).drop_first() =~= desc_pairs(m).skip(i + 1));
        assert(off + b.len() as int <= s.len());
        assert(s.subrange(off, off + b.len() as int) =~= s.subrange(
            base,
            s.len() as int,
        ).subrange(
            cat(m.networks.take(i)).len() as int,
            cat(m.networks.take(i)).len() + b.len() as int,
        ));
        assert(cat(m.networks).subrange(
            cat(m.networks.take(i)).len() as int,
            cat(m.networks.take(i)).len() + b.len() as int,
        ) =~= b) by {
            assert(cat(m.networks.skip(i)) =~= b + cat(m.networks.skip(i + 1)));
        }
        lemma_blobs_from(m, i + 1);
        assert(m.networks.skip(i) =~= seq![b] + m.networks.skip(i + 1));
    }
}


// ------------------------------------------------------------------
// The format laws
// ------------------------------------------------------------------

/// Parsing a serialized model reproduces it exactly, or reports precisely
/// the rejection the model's own fields dictate: too many networks, or the
/// first out-of-range parameter.
#[verifier::rlimit(100)]
#[verifier::spinoff_prover]
pub proof fn lemma_parse_of_serialized(m: ModelSpec)
    requires
        encodable(m),
    ensures
        spec_parse(spec_serialize(m)) == (if m.networks.len() > max_networks() {
            Err::<ModelSpec, ParseError>(ParseError::TooManyNetworks)
        } else {
            match spec_validate(m.raw) {
                Some(f) => Err::<ModelSpec, ParseError>(ParseError::ParameterOutOfRange(f)),
                None => Ok::<ModelSpec, ParseError>(m),
            }
        }),
{
    let s = spec_serialize(m);
    let nl = m.name.len() as int;
    let dl = m.description.len() as int;
    let po = param_offset(m);
    let n = m.networks.len() as int;
    lemma_image_head(m);
    lemma_image_tail(m);
    lemma_u32_from(s, 8, m.version);
    lemma_u64_from(s, 12, 20);
    lemma_trim_zeros_pad(m.language, 8 - m.language.len() as int);
    lemma_trim_zeros_id(m.language);
    lemma_string_from(s, 28, m.name);
    lemma_string_from(s, 36 + nl, m.description);
    lemma_u32_from(s, 44 + nl + dl, m.model_type_tag);
    lemma_u64_from(s, 48 + nl + dl, po);
    lemma_u64_from(s, 56 + nl + dl, param_block_len(m));
    lemma_u64_from(s, 64 + nl + dl, n);
    assert((n as u64) as int == n);
    if n > 8 {
    } else {
        lemma_descs_from(m, 0);
        assert(desc_pairs(m).skip(0) =~= desc_pairs(m));
        lemma_raw_params_from(m);
        if spec_validate(m.raw) is None {
            assert(m.tokens.skip(0) =~= m.tokens);
            lemma_tokens_from(m, 0, po + 60);
            lemma_blobs_from(m, 0);
            assert(m.networks.skip(0) =~= m.networks);
            assert(spec_parse(s) == Ok::<ModelSpec, ParseError>(m)) by {
                match spec_parse(s) {
                    Ok(r) => {
                        assert(r =~= m);
                    },
                    Err(_) => {},
                }
            }
        }
    }
}

/// Round trip: parsing the serialized form of any representable, in-range
/// model gives the model back, field for field.
pub proof fn lemma_round_trip(m: ModelSpec)
    requires
        encodable(m),
        m.networks.len() <= max_networks(),
        spec_validate(m.raw) is None,
    ensures
        spec_parse(spec_serialize(m)) == Ok::<ModelSpec, ParseError>(m),
{
    lemma_parse_of_serialized(m);
}

/// A source whose first eight bytes are not the magic tag is rejected with
/// `BadMagic`, whatever the rest holds.
pub proof fn lemma_bad_magic(s: Seq<u8>)
    requires
        s.len() >= 8,
        s.subrange(0, 8) != magic_bytes(),
    ensures
        spec_parse(s) == Err::<ModelSpec, ParseError>(ParseError::BadMagic),
{
}

/// More than eight declared networks are rejected with `TooManyNetworks`,
/// even when everything else is well-formed.
pub proof fn lemma_too_many_networks(m: ModelSpec)
    requires
        encodable(m),
        m.networks.len() > max_networks(),
    ensures
        spec_parse(spec_serialize(m)) == Err::<ModelSpec, ParseError>(ParseError::TooManyNetworks),
{
    lemma_parse_of_serialized(m);
}

/// A segment step larger than the segment size is rejected naming
/// `segment_step`, never silently clamped, whenever the checks before it
/// pass.
pub proof fn lemma_segment_step_rejected(m: ModelSpec)
    requires
        encodable(m),
        m.networks.len() <= max_networks(),
        m.raw.batch_size == 1,
        0 < m.raw.segment_size < 100,
        m.raw.segment_step > m.raw.segment_size,
    ensures
        spec_parse(spec_serialize(m)) == Err::<ModelSpec, ParseError>(
            ParseError::ParameterOutOfRange(ParamField::SegmentStep),
        ),
{
    lemma_parse_of_serialized(m);
}

/// A blank id equal to the token count always fails parsing: it can never
/// index the vocabulary.
pub proof fn lemma_blank_id_rejected(m: ModelSpec)
    requires
        encodable(m),
        m.networks.len() <= max_networks(),
        m.raw.blank_id == m.raw.token_count,
    ensures
        spec_parse(spec_serialize(m)) matches Err(e) && e matches
            ParseError::ParameterOutOfRange(_),
{
    lemma_parse_of_serialized(m);
}

/// A zero `mel_high` means "unspecified" and passes validation whatever
/// `mel_low` is, all other fields being in range.
pub proof fn lemma_mel_high_zero_accepted(p: RawParams)
    requires
        p.mel_high == 0,
        p.batch_size == 1,
        0 < p.segment_size < 100,
        0 < p.segment_step < 100 && p.segment_step <= p.segment_size,
        0 < p.mel_features < 256,
        0 < p.sample_rate < 144000,
        0 < p.token_count < 16384,
        0 <= p.blank_id < p.token_count,
        0 < p.frame_shift_ms && p.frame_shift_ms <= p.frame_length_ms,
        0 < p.frame_length_ms <= 5000,
        0 < p.mel_low < p.sample_rate,
    ensures
        spec_validate(p) is None,
{
}

/// A `mel_high` equal to `mel_low` always fails validation: when nonzero it
/// must lie strictly above `mel_low`.
pub proof fn lemma_mel_high_equal_rejected(m: ModelSpec)
    requires
        encodable(m),
        m.networks.len() <= max_networks(),
        m.raw.mel_high == m.raw.mel_low,
        m.raw.mel_high != 0,
    ensures
        spec_parse(spec_serialize(m)) matches Err(e) && e matches
            ParseError::ParameterOutOfRange(_),
{
    lemma_parse_of_serialized(m);
}

/// A vocabulary entry whose declared length exceeds the remaining bytes
/// stops token reading with `Truncated`.
pub proof fn lemma_token_truncated(s: Seq<u8>, pos: int, n: int, l: i32, p1: int)
    requires
        n > 0,
        sp_i32(s, pos) == Ok::<(i32, int), ParseError>((l, p1)),
        l >= 0,
        p1 + l > s.len(),
    ensures
        sp_tokens(s, pos, n) == Err::<(Seq<Seq<u8>>, int), ParseError>(ParseError::Truncated),
{
}

/// Blobs are extracted by their own descriptors alone: whenever every
/// descriptor's range lies inside the source, each blob is exactly its
/// range's bytes, in descriptor order, whatever order the ranges sit in the
/// file.
pub proof fn lemma_blobs_by_descriptor(s: Seq<u8>, descs: Seq<(u64, u64)>)
    requires
        forall|j: int| 0 <= j < descs.len() ==> (#[trigger] descs[j]).0 + descs[j].1 <= s.len(),
    ensures
        sp_blobs(s, descs) == Ok::<Seq<Seq<u8>>, ParseError>(
            Seq::new(descs.len(), |j: int| s.subrange(
                descs[j].0 as int,
                descs[j].0 + descs[j].1,
            )),
        ),
    decreases descs.len(),
{
    if descs.len() == 0 {
        assert(Seq::new(0, |j: int| s.subrange(descs[j].0 as int, descs[j].0 + descs[j].1))
            =~= Seq::<Seq<u8>>::empty());
    } else {
        lemma_blobs_by_descriptor(s, descs.drop_first());
        assert(seq![s.subrange(descs[0].0 as int, descs[0].0 + descs[0].1)] + Seq::new(
            descs.drop_first().len(),
            |j: int| s.subrange(
                descs.drop_first()[j].0 as int,
                descs.drop_first()[j].0 + descs.drop_first()[j].1,
            ),
        ) =~= Seq::new(descs.len(), |j: int| s.subrange(
            descs[j].0 as int,
            descs[j].0 + descs[j].1,
        )));
    }
}

} // verus!
