//! Executable container structures and the verified parser.
//!
//! Every reader here is proved to agree, result and error alike, with the
//! ghost parser in `container`; `ModelFile::new` is proved to agree with
//! `spec_parse` on every input.

use vstd::prelude::*;

use crate::codec::{i32_bits, le32_bytes, le32i, le64_bytes, read_bytes, read_i32_le, read_u32_le,
    read_u64_le, sp_bytes, sp_i32, sp_u32, sp_u64, trim_trailing_zeros, trim_zeros, write_i32_le,
    write_u32_le, write_u64_le, zeros};
use crate::container::{blob_offset, cat, lemma_cat_snoc, lemma_cat_split, lemma_ser_descs_len,
    lemma_ser_tokens_snoc, lemma_spec_serialize_len, lemma_spec_serialize_parts, magic_bytes, max_networks, param_block_len, param_offset, ser_descs,
    ser_lp64, ser_raw, ser_token, ser_tokens, sp_descs, sp_header, sp_lang, sp_meta,
    sp_params_tail, sp_raw_params, sp_string, sp_tokens, sp_blobs, spec_parse, spec_serialize,
    spec_validate, ModelSpec, RawParams};
use crate::errors::{ParamField, ParseError};
use vstd::string::StringSliceAdditionalSpecFns;
use vstd::utf8::{decode_utf8, encode_utf8, valid_utf8};

verus! {

// ------------------------------------------------------------------
// Trusted bridge to std's UTF-8 decoder
// ------------------------------------------------------------------

/// Relies on `String::from_utf8`: it returns the string decoded from the
/// bytes exactly when they are valid UTF-8, and rejects them otherwise.
/// vstd's `valid_utf8` / `decode_utf8` state the same encoding std documents.
#[verifier::external_body]
fn string_from_utf8(bytes: Vec<u8>) -> (r: Result<String, ParseError>)
    ensures
        r is Ok <==> valid_utf8(bytes@),
        r matches Ok(s) ==> s@ == decode_utf8(bytes@),
        r matches Err(e) ==> e == ParseError::InvalidEncoding,
{
    match String::from_utf8(bytes) {
        Ok(s) => Ok(s),
        Err(_) => Err(ParseError::InvalidEncoding),
    }
}

// ------------------------------------------------------------------
// Container structures
// ------------------------------------------------------------------

/// The fixed container header.
#[derive(Debug, Clone)]
pub struct ModelFileHeader {
    /// The eight magic bytes, always `APRILMDL` once `read` succeeds.
    pub aprilmdl: [u8; 8],
    /// Format version.
    pub version: u32,
    /// Declared size of the header region (informational).
    pub header_size: u64,
}

/// The eight-byte NUL-padded language tag.
#[derive(Debug, Clone)]
pub struct LanguageHeader {
    pub language: [u8; 8],
}

/// The model-type tag. Parsing never rejects a tag; only
/// `LstmTransducerStateless` is meaningful to the downstream runtime, and
/// callers are expected to check with `ensure_supported` before use.
#[derive(Debug, Clone, Copy, PartialEq, Eq, Structural)]
pub enum ModelType {
    ModelUnknown,
    ModelLstmTransducerStateless,
    ModelMax,
}

/// The model type a tag denotes: unrecognized future values decode to
/// `ModelUnknown`, the explicit unsupported arm.
pub open spec fn tag_model_type(tag: u32) -> ModelType {
    if tag == 1 {
        ModelType::ModelLstmTransducerStateless
    } else if tag == 2 {
        ModelType::ModelMax
    } else {
        ModelType::ModelUnknown
    }
}

/// The canonical tag of each model type.
pub open spec fn type_tag(t: ModelType) -> u32 {
    match t {
        ModelType::ModelUnknown => 0,
        ModelType::ModelLstmTransducerStateless => 1,
        ModelType::ModelMax => 2,
    }
}

impl ModelType {
    /// Decodes a 32-bit tag.
    pub fn from_tag(tag: u32) -> (r: ModelType)
        ensures
            r == tag_model_type(tag),
    {
        if tag == 1 {
            ModelType::ModelLstmTransducerStateless
        } else if tag == 2 {
            ModelType::ModelMax
        } else {
            ModelType::ModelUnknown
        }
    }

    /// The canonical tag written for this model type; decoding it gives the
    /// type back.
    pub fn tag(&self) -> (r: u32)
        ensures
            r == type_tag(*self),
            tag_model_type(r) == *self,
    {
        match self {
            ModelType::ModelUnknown => 0,
            ModelType::ModelLstmTransducerStateless => 1,
            ModelType::ModelMax => 2,
        }
    }

    /// The caller-level support check: only `LstmTransducerStateless` may be
    /// handed to the inference runtime.
    pub fn ensure_supported(&self) -> (r: Result<(), ParseError>)
        ensures
            r is Ok <==> *self == ModelType::ModelLstmTransducerStateless,
            r matches Err(e) ==> e == ParseError::UnsupportedModelType,
    {
        match self {
            ModelType::ModelLstmTransducerStateless => Ok(()),
            _ => Err(ParseError::UnsupportedModelType),
        }
    }
}

/// The parameter metadata descriptor: where the parameter block lives and
/// how many networks are embedded.
#[derive(Debug, Clone, Copy)]
pub struct ParamMetadata {
    pub offset: u64,
    pub size: u64,
    pub num_networks: u64,
}

/// The raw, not yet validated parameter block, exactly as read.
#[derive(Debug, Clone, Copy)]
pub struct PartialParams {
    /// The eight reserved bytes at the head of the parameter block.
    pub magic: [u8; 8],
    pub batch_size: i32,
    pub segment_size: i32,
    pub segment_step: i32,
    pub mel_features: i32,
    pub sample_rate: i32,
    pub frame_shift_ms: i32,
    pub frame_length_ms: i32,
    pub round_pow2: i32,
    pub mel_low: i32,
    pub mel_high: i32,
    pub snip_edges: i32,
    pub token_count: i32,
    pub blank_id: i32,
}

/// The ghost image of the raw fields.
pub open spec fn raw_of(p: PartialParams) -> RawParams {
    RawParams {
        batch_size: p.batch_size,
        segment_size: p.segment_size,
        segment_step: p.segment_step,
        mel_features: p.mel_features,
        sample_rate: p.sample_rate,
        frame_shift_ms: p.frame_shift_ms,
        frame_length_ms: p.frame_length_ms,
        round_pow2: p.round_pow2,
        mel_low: p.mel_low,
        mel_high: p.mel_high,
        snip_edges: p.snip_edges,
        token_count: p.token_count,
        blank_id: p.blank_id,
    }
}

/// One network descriptor: the byte range of an embedded blob.
#[derive(Debug, Clone, Copy)]
pub struct NetworkDefinition {
    pub offset: u64,
    pub size: u64,
}

/// The raw bytes of one embedded network.
pub type Network = Vec<u8>;

/// The validated runtime configuration, owning the vocabulary and the
/// network blobs.
#[derive(Debug)]
pub struct Params {
    pub batch_size: i32,
    pub segment_size: i32,
    pub segment_step: i32,
    pub mel_features: i32,
    pub sample_rate: i32,
    pub frame_shift_ms: i32,
    pub frame_length_ms: i32,
    pub round_pow2: bool,
    pub mel_low: i32,
    pub mel_high: i32,
    pub snip_edges: bool,
    pub blank_id: i32,
    pub networks: Vec<Network>,
    pub tokens: Vec<String>,
}

/// The fully parsed, validated container.
#[derive(Debug)]
pub struct ModelFile {
    pub version: u32,
    pub language: String,
    pub name: String,
    pub description: String,
    pub model_type: ModelType,
    pub params: Params,
}

// ------------------------------------------------------------------
// Correspondence between executable values and the ghost model
// ------------------------------------------------------------------

/// The executable parameter record carries exactly what the ghost parse
/// denotes: the validated fields, the decoded tokens, the raw blobs.
pub open spec fn params_matches(p: Params, raw: RawParams, toks: Seq<Seq<u8>>, blobs: Seq<Seq<u8>>) -> bool {
    &&& p.batch_size == raw.batch_size
    &&& p.segment_size == raw.segment_size
    &&& p.segment_step == raw.segment_step
    &&& p.mel_features == raw.mel_features
    &&& p.sample_rate == raw.sample_rate
    &&& p.frame_shift_ms == raw.frame_shift_ms
    &&& p.frame_length_ms == raw.frame_length_ms
    &&& p.round_pow2 == (raw.round_pow2 != 0)
    &&& p.mel_low == raw.mel_low
    &&& p.mel_high == raw.mel_high
    &&& p.snip_edges == (raw.snip_edges != 0)
    &&& p.blank_id == raw.blank_id
    &&& p.tokens@.len() == toks.len()
    &&& forall|i: int| 0 <= i < toks.len() ==> (#[trigger] p.tokens@[i])@ == decode_utf8(toks[i])
    &&& p.networks@.len() == blobs.len()
    &&& forall|i: int| 0 <= i < blobs.len() ==> (#[trigger] p.networks@[i])@ == blobs[i]
}

/// The parsed container carries exactly what the ghost parse denotes.
pub open spec fn file_matches(m: ModelFile, sm: ModelSpec) -> bool {
    &&& m.version == sm.version
    &&& m.language@ == decode_utf8(sm.language)
    &&& m.name@ == decode_utf8(sm.name)
    &&& m.description@ == decode_utf8(sm.description)
    &&& m.model_type == tag_model_type(sm.model_type_tag)
    &&& params_matches(m.params, sm.raw, sm.tokens, sm.networks)
}

// ------------------------------------------------------------------
// Readers
// ------------------------------------------------------------------

/// Reads a u64 byte length, then that many bytes, decoded strictly as UTF-8.
pub fn read_string(s: &[u8], pos: usize) -> (r: Result<(String, usize), ParseError>)
    ensures
        match (r, sp_string(s@, pos as int)) {
            (Ok((st, p)), Ok((b, sp))) => st@ == decode_utf8(b) && p as int == sp,
            (Err(e), Err(se)) => e == se,
            _ => false,
        },
{
    let (len, p1) = match read_u64_le(s, pos) {
        Ok(x) => x,
        Err(e) => { return Err(e) },
    };
    if len > (s.len() - p1) as u64 {
        return Err(ParseError::Truncated);
    }
    let (bytes, p2) = match read_bytes(s, p1, len as usize) {
        Ok(x) => x,
        Err(e) => { return Err(e) },
    };
    match string_from_utf8(bytes) {
        Ok(st) => Ok((st, p2)),
        Err(e) => Err(e),
    }
}

impl ModelFileHeader {
    /// Reads the container header, verifying the magic tag before anything
    /// else is consumed.
    pub fn read(s: &[u8], pos: usize) -> (r: Result<(ModelFileHeader, usize), ParseError>)
        ensures
            match (r, sp_header(s@, pos as int)) {
                (Ok((h, p)), Ok((sh, sp))) => h.aprilmdl@ == sh.0 && h.version == sh.1
                    && h.header_size == sh.2 && p as int == sp,
                (Err(e), Err(se)) => e == se,
                _ => false,
            },
    {
        let (magic, p0) = match read_bytes(s, pos, 8) {
            Ok(x) => x,
            Err(e) => { return Err(e) },
        };
        if !(magic[0] == 65 && magic[1] == 80 && magic[2] == 82 && magic[3] == 73 && magic[4] == 76
            && magic[5] == 77 && magic[6] == 68 && magic[7] == 76) {
            proof {
                assert(magic@ != crate::container::magic_bytes());
            }
            return Err(ParseError::BadMagic);
        }
        proof {
            assert(magic@ =~= crate::container::magic_bytes());
        }
        let (version, p1) = match read_u32_le(s, p0) {
            Ok(x) => x,
            Err(e) => { return Err(e) },
        };
        let (header_size, p2) = match read_u64_le(s, p1) {
            Ok(x) => x,
            Err(e) => { return Err(e) },
        };
        let aprilmdl = [magic[0], magic[1], magic[2], magic[3], magic[4], magic[5], magic[6], magic[7]];
        proof {
            assert(aprilmdl@ =~= magic@);
        }
        Ok((ModelFileHeader { aprilmdl, version, header_size }, p2))
    }
}

impl LanguageHeader {
    /// Reads the eight-byte language tag.
    pub fn read(s: &[u8], pos: usize) -> (r: Result<(LanguageHeader, usize), ParseError>)
        ensures
            match (r, sp_bytes(s@, pos as int, 8)) {
                (Ok((h, p)), Ok((b, sp))) => h.language@ == b && p as int == sp,
                (Err(e), Err(se)) => e == se,
                _ => false,
            },
    {
        let (raw, p0) = match read_bytes(s, pos, 8) {
            Ok(x) => x,
            Err(e) => { return Err(e) },
        };
        let language = [raw[0], raw[1], raw[2], raw[3], raw[4], raw[5], raw[6], raw[7]];
        proof {
            assert(language@ =~= raw@);
        }
        Ok((LanguageHeader { language }, p0))
    }

    /// Strips the NUL padding and decodes the tag as UTF-8.
    pub fn decode(&self) -> (r: Result<String, ParseError>)
        ensures
            match r {
                Ok(st) => valid_utf8(trim_zeros(self.language@)) && st@ == decode_utf8(
                    trim_zeros(self.language@),
                ),
                Err(e) => e == ParseError::InvalidEncoding && !valid_utf8(
                    trim_zeros(self.language@),
                ),
            },
    {
        let v = vstd::slice::slice_to_vec(self.language.as_slice());
        let trimmed = trim_trailing_zeros(v);
        string_from_utf8(trimmed)
    }
}

impl ParamMetadata {
    /// Reads the parameter metadata descriptor.
    pub fn read(s: &[u8], pos: usize) -> (r: Result<(ParamMetadata, usize), ParseError>)
        ensures
            match (r, sp_meta(s@, pos as int)) {
                (Ok((m, p)), Ok((sm, sp))) => m.offset == sm.0 && m.size == sm.1
                    && m.num_networks == sm.2 && p as int == sp,
                (Err(e), Err(se)) => e == se,
                _ => false,
            },
    {
        let (offset, p0) = match read_u64_le(s, pos) {
            Ok(x) => x,
            Err(e) => { return Err(e) },
        };
        let (size, p1) = match read_u64_le(s, p0) {
            Ok(x) => x,
            Err(e) => { return Err(e) },
        };
        let (num_networks, p2) = match read_u64_le(s, p1) {
            Ok(x) => x,
            Err(e) => { return Err(e) },
        };
        Ok((ParamMetadata { offset, size, num_networks }, p2))
    }
}

impl PartialParams {
    /// Reads the raw parameter block: the reserved prefix and the thirteen
    /// signed fields, unvalidated.
    pub fn read(s: &[u8], pos: usize) -> (r: Result<(PartialParams, usize), ParseError>)
        ensures
            match (r, sp_raw_params(s@, pos as int)) {
                (Ok((pp, p)), Ok((raw, sp))) => raw_of(pp) == raw && p as int == sp,
                (Err(e), Err(se)) => e == se,
                _ => false,
            },
    {
        let (reserved, p0) = match read_bytes(s, pos, 8) {
            Ok(x) => x,
            Err(e) => { return Err(e) },
        };
        let magic = [reserved[0], reserved[1], reserved[2], reserved[3], reserved[4], reserved[5],
            reserved[6], reserved[7]];
        let (batch_size, p1) = match read_i32_le(s, p0) {
            Ok(x) => x,
            Err(e) => { return Err(e) },
        };
        let (segment_size, p2) = match read_i32_le(s, p1) {
            Ok(x) => x,
            Err(e) => { return Err(e) },
        };
        let (segment_step, p3) = match read_i32_le(s, p2) {
            Ok(x) => x,
            Err(e) => { return Err(e) },
        };
        let (mel_features, p4) = match read_i32_le(s, p3) {
            Ok(x) => x,
            Err(e) => { return Err(e) },
        };
        let (sample_rate, p5) = match read_i32_le(s, p4) {
            Ok(x) => x,
            Err(e) => { return Err(e) },
        };
        let (frame_shift_ms, p6) = match read_i32_le(s, p5) {
            Ok(x) => x,
            Err(e) => { return Err(e) },
        };
        let (frame_length_ms, p7) = match read_i32_le(s, p6) {
            Ok(x) => x,
            Err(e) => { return Err(e) },
        };
        let (round_pow2, p8) = match read_i32_le(s, p7) {
            Ok(x) => x,
            Err(e) => { return Err(e) },
        };
        let (mel_low, p9) = match read_i32_le(s, p8) {
            Ok(x) => x,
            Err(e) => { return Err(e) },
        };
        let (mel_high, p10) = match read_i32_le(s, p9) {
            Ok(x) => x,
            Err(e) => { return Err(e) },
        };
        let (snip_edges, p11) = match read_i32_le(s, p10) {
            Ok(x) => x,
            Err(e) => { return Err(e) },
        };
        let (token_count, p12) = match read_i32_le(s, p11) {
            Ok(x) => x,
            Err(e) => { return Err(e) },
        };
        let (blank_id, p13) = match read_i32_le(s, p12) {
            Ok(x) => x,
            Err(e) => { return Err(e) },
        };
        Ok((
            PartialParams {
                magic,
                batch_size,
                segment_size,
                segment_step,
                mel_features,
                sample_rate,
                frame_shift_ms,
                frame_length_ms,
                round_pow2,
                mel_low,
                mel_high,
                snip_edges,
                token_count,
                blank_id,
            },
            p13,
        ))
    }

    /// The first field that violates its documented bound, if any, in the
    /// order the bounds are documented.
    pub fn validate(&self) -> (r: Option<ParamField>)
        ensures
            r == spec_validate(raw_of(*self)),
    {
        if self.batch_size != 1 {
            Some(ParamField::BatchSize)
        } else if !(0 < self.segment_size && self.segment_size < 100) {
            Some(ParamField::SegmentSize)
        } else if !(0 < self.segment_step && self.segment_step < 100
            && self.segment_step <= self.segment_size) {
            Some(ParamField::SegmentStep)
        } else if !(0 < self.mel_features && self.mel_features < 256) {
            Some(ParamField::MelFeatures)
        } else if !(0 < self.sample_rate && self.sample_rate < 144000) {
            Some(ParamField::SampleRate)
        } else if !(0 < self.token_count && self.token_count < 16384) {
            Some(ParamField::TokenCount)
        } else if !(0 <= self.blank_id && self.blank_id < self.token_count) {
            Some(ParamField::BlankId)
        } else if !(0 < self.frame_shift_ms && self.frame_shift_ms <= self.frame_length_ms) {
            Some(ParamField::FrameShiftMs)
        } else if !(0 < self.frame_length_ms && self.frame_length_ms <= 5000) {
            Some(ParamField::FrameLengthMs)
        } else if !(0 < self.mel_low && self.mel_low < self.sample_rate) {
            Some(ParamField::MelLow)
        } else if !(self.mel_high == 0 || self.mel_high > self.mel_low) {
            Some(ParamField::MelHigh)
        } else {
            None
        }
    }
}

/// The descriptor pairs a descriptor vector denotes.
pub open spec fn desc_views(ds: Seq<NetworkDefinition>) -> Seq<(u64, u64)> {
    ds.map_values(|d: NetworkDefinition| (d.offset, d.size))
}

/// The byte sequences a vector of byte vectors denotes.
pub open spec fn byte_views(bs: Seq<Vec<u8>>) -> Seq<Seq<u8>> {
    bs.map_values(|b: Vec<u8>| b@)
}

impl ParamMetadata {
    /// Parses everything the metadata descriptor governs: the network
    /// descriptor table (read in place), the parameter block (reached by
    /// seeking to `offset`), the vocabulary, and finally each network blob
    /// by its own descriptor. `pos` is the position right after the
    /// metadata descriptor itself.
    #[verifier::loop_isolation(false)]
    #[verifier::rlimit(80)]
    pub fn parse(self, s: &[u8], pos: usize) -> (r: Result<Params, ParseError>)
        ensures
            match (r, sp_params_tail(s@, pos as int, (self.offset, self.size, self.num_networks))) {
                (Ok(p), Ok((raw, toks, blobs))) => params_matches(p, raw, toks, blobs),
                (Err(e), Err(se)) => e == se,
                _ => false,
            },
    {
        if self.num_networks > 8 {
            return Err(ParseError::TooManyNetworks);
        }
        let n = self.num_networks as usize;
        let ghost n_int = self.num_networks as int;

        // Network descriptors, contiguous right after the metadata.
        let mut descs: Vec<NetworkDefinition> = Vec::new();
        let mut p = pos;
        let mut i: usize = 0;
        proof {
            assert(desc_views(descs@) =~= Seq::<(u64, u64)>::empty());
            if let Ok((rest, pe)) = sp_descs(s@, pos as int, n_int) {
                assert(desc_views(descs@) + rest =~= rest);
            }
        }
        while i < n
            invariant
                i <= n,
                n == self.num_networks as int,
                n_int == n as int,
                descs@.len() == i,
                match sp_descs(s@, p as int, n_int - i) {
                    Ok((rest, pe)) => sp_descs(s@, pos as int, n_int) == Ok::<
                        (Seq<(u64, u64)>, int),
                        ParseError,
                    >((desc_views(descs@) + rest, pe)),
                    Err(e) => sp_descs(s@, pos as int, n_int) == Err::<
                        (Seq<(u64, u64)>, int),
                        ParseError,
                    >(e),
                },
            decreases n - i,
        {
            let ghost descs_old = descs@;
            let (off, p1) = match read_u64_le(s, p) {
                Ok(x) => x,
                Err(e) => { return Err(e) },
            };
            let (sz, p2) = match read_u64_le(s, p1) {
                Ok(x) => x,
                Err(e) => { return Err(e) },
            };
            descs.push(NetworkDefinition { offset: off, size: sz });
            proof {
                assert(desc_views(descs@) =~= desc_views(descs_old).push((off, sz)));
                if let Ok((rest2, pe2)) = sp_descs(s@, p2 as int, n_int - i - 1) {
                    assert(desc_views(descs_old) + (seq![(off, sz)] + rest2) =~= desc_views(
                        descs@,
                    ) + rest2);
                }
            }
            p = p2;
            i = i + 1;
        }
        proof {
            assert(desc_views(descs@) + Seq::<(u64, u64)>::empty() =~= desc_views(descs@));
        }
        let ghost descs_spec = desc_views(descs@);

        // Seek to the parameter block.
        if self.offset > s.len() as u64 {
            return Err(ParseError::Truncated);
        }
        let (pp, q0) = match PartialParams::read(s, self.offset as usize) {
            Ok(x) => x,
            Err(e) => { return Err(e) },
        };
        if let Some(f) = pp.validate() {
            return Err(ParseError::ParameterOutOfRange(f));
        }

        // Vocabulary: exactly token_count length-prefixed tokens.
        let ntok = pp.token_count;
        let ntok_us = ntok as usize;
        let mut tokens: Vec<String> = Vec::new();
        let ghost mut toks_g: Seq<Seq<u8>> = Seq::empty();
        let mut q = q0;
        let mut j: usize = 0;
        proof {
            if let Ok((rest, pe)) = sp_tokens(s@, q0 as int, pp.token_count as int) {
                assert(toks_g + rest =~= rest);
            }
        }
        while j < ntok_us
            invariant
                j <= ntok_us,
                0 < pp.token_count < 16384,
                ntok_us == pp.token_count as int,
                tokens@.len() == j,
                toks_g.len() == j,
                forall|k: int| 0 <= k < j ==> (#[trigger] tokens@[k])@ == decode_utf8(toks_g[k]),
                match sp_tokens(s@, q as int, pp.token_count - j) {
                    Ok((rest, pe)) => sp_tokens(s@, q0 as int, pp.token_count as int) == Ok::<
                        (Seq<Seq<u8>>, int),
                        ParseError,
                    >((toks_g + rest, pe)),
                    Err(e) => sp_tokens(s@, q0 as int, pp.token_count as int) == Err::<
                        (Seq<Seq<u8>>, int),
                        ParseError,
                    >(e),
                },
            decreases ntok_us - j,
        {
            let (tl, q1) = match read_i32_le(s, q) {
                Ok(x) => x,
                Err(e) => { return Err(e) },
            };
            if tl < 0 {
                return Err(ParseError::Truncated);
            }
            if tl as u64 > (s.len() - q1) as u64 {
                return Err(ParseError::Truncated);
            }
            let (tb, q2) = match read_bytes(s, q1, tl as usize) {
                Ok(x) => x,
                Err(e) => { return Err(e) },
            };
            let trimmed = trim_trailing_zeros(tb);
            let tok = match string_from_utf8(trimmed) {
                Ok(x) => x,
                Err(e) => { return Err(e) },
            };
            tokens.push(tok);
            proof {
                let ghost toks_old = toks_g;
                toks_g = toks_g.push(trim_zeros(tb@));
                if let Ok((rest2, pe2)) = sp_tokens(s@, q2 as int, pp.token_count - j - 1) {
                    assert(toks_old + (seq![trim_zeros(tb@)] + rest2) =~= toks_g + rest2);
                }
            }
            q = q2;
            j = j + 1;
        }
        proof {
            assert(toks_g + Seq::<Seq<u8>>::empty() =~= toks_g);
        }

        // Network blobs, each by its own descriptor, in descriptor order.
        let mut networks: Vec<Network> = Vec::new();
        let mut bi: usize = 0;
        proof {
            assert(byte_views(networks@) =~= Seq::<Seq<u8>>::empty());
            assert(descs_spec.skip(0) =~= descs_spec);
            if let Ok(rest) = sp_blobs(s@, descs_spec) {
                assert(byte_views(networks@) + rest =~= rest);
            }
        }
        while bi < n
            invariant
                bi <= n,
                n == self.num_networks as int,
                descs@.len() == n,
                descs_spec == desc_views(descs@),
                descs_spec.len() == n,
                networks@.len() == bi,
                match sp_blobs(s@, descs_spec.skip(bi as int)) {
                    Ok(rest) => sp_blobs(s@, descs_spec) == Ok::<Seq<Seq<u8>>, ParseError>(
                        byte_views(networks@) + rest,
                    ),
                    Err(e) => sp_blobs(s@, descs_spec) == Err::<Seq<Seq<u8>>, ParseError>(e),
                },
            decreases n - bi,
        {
            let d = descs[bi];
            proof {
                assert(descs_spec.skip(bi as int)[0] == (d.offset, d.size));
            }
            let ghost networks_old = networks@;
            let blob = match d.read(s) {
                Ok(x) => x,
                Err(e) => { return Err(e) },
            };
            networks.push(blob);
            proof {
                assert(descs_spec.skip(bi as int).drop_first() =~= descs_spec.skip(bi as int + 1));
                assert(byte_views(networks@) =~= byte_views(networks_old).push(blob@));
                if let Ok(rest2) = sp_blobs(s@, descs_spec.skip(bi as int + 1)) {
                    assert(byte_views(networks_old) + (seq![blob@] + rest2) =~= byte_views(
                        networks@,
                    ) + rest2);
                }
            }
            bi = bi + 1;
        }
        proof {
            assert(descs_spec.skip(n as int) =~= Seq::<(u64, u64)>::empty());
            assert(byte_views(networks@) + Seq::<Seq<u8>>::empty() =~= byte_views(networks@));
        }

        Ok(
            Params {
                batch_size: pp.batch_size,
                segment_size: pp.segment_size,
                segment_step: pp.segment_step,
                mel_features: pp.mel_features,
                sample_rate: pp.sample_rate,
                frame_shift_ms: pp.frame_shift_ms,
                frame_length_ms: pp.frame_length_ms,
                round_pow2: pp.round_pow2 != 0,
                mel_low: pp.mel_low,
                mel_high: pp.mel_high,
                snip_edges: pp.snip_edges != 0,
                blank_id: pp.blank_id,
                networks,
                tokens,
            },
        )
    }
}

impl ModelFile {
    /// Parses a complete container from an in-memory byte source. Agrees
    /// with the ghost parser on every input: the same model on success, the
    /// same error otherwise.
    pub fn new(s: &[u8]) -> (r: Result<ModelFile, ParseError>)
        ensures
            match (r, spec_parse(s@)) {
                (Ok(m), Ok(sm)) => file_matches(m, sm),
                (Err(e), Err(se)) => e == se,
                _ => false,
            },
    {
        let (header, p0) = match ModelFileHeader::read(s, 0) {
            Ok(x) => x,
            Err(e) => { return Err(e) },
        };
        let (lang_header, p1) = match LanguageHeader::read(s, p0) {
            Ok(x) => x,
            Err(e) => { return Err(e) },
        };
        let language = match lang_header.decode() {
            Ok(x) => x,
            Err(e) => { return Err(e) },
        };
        let (name, p2) = match read_string(s, p1) {
            Ok(x) => x,
            Err(e) => { return Err(e) },
        };
        let (description, p3) = match read_string(s, p2) {
            Ok(x) => x,
            Err(e) => { return Err(e) },
        };
        let (tag, p4) = match read_u32_le(s, p3) {
            Ok(x) => x,
            Err(e) => { return Err(e) },
        };
        let model_type = ModelType::from_tag(tag);
        let (meta, p5) = match ParamMetadata::read(s, p4) {
            Ok(x) => x,
            Err(e) => { return Err(e) },
        };
        let params = match meta.parse(s, p5) {
            Ok(x) => x,
            Err(e) => { return Err(e) },
        };
        Ok(
            ModelFile {
                version: header.version,
                language,
                name,
                description,
                model_type,
                params,
            },
        )
    }
}

/// The ghost image of the validated parameter record: the raw fields with
/// the boolean flags re-encoded as 1 or 0 and the token count restored from
/// the vocabulary length.
pub open spec fn abs_raw(p: Params) -> RawParams {
    RawParams {
        batch_size: p.batch_size,
        segment_size: p.segment_size,
        segment_step: p.segment_step,
        mel_features: p.mel_features,
        sample_rate: p.sample_rate,
        frame_shift_ms: p.frame_shift_ms,
        frame_length_ms: p.frame_length_ms,
        round_pow2: if p.round_pow2 { 1 } else { 0 },
        mel_low: p.mel_low,
        mel_high: p.mel_high,
        snip_edges: if p.snip_edges { 1 } else { 0 },
        token_count: p.tokens@.len() as i32,
        blank_id: p.blank_id,
    }
}

/// The ghost model a container value denotes, every string taken as its
/// UTF-8 bytes.
pub open spec fn abs_model(m: ModelFile) -> ModelSpec {
    ModelSpec {
        version: m.version,
        language: encode_utf8(m.language@),
        name: encode_utf8(m.name@),
        description: encode_utf8(m.description@),
        model_type_tag: type_tag(m.model_type),
        raw: abs_raw(m.params),
        tokens: m.params.tokens@.map_values(|t: String| encode_utf8(t@)),
        networks: byte_views(m.params.networks@),
    }
}

/// What `serialize` can emit: the language tag must fit its eight bytes,
/// the vocabulary its i32 length prefixes, and the whole image must fit in
/// one in-memory buffer.
pub open spec fn serializable(m: ModelFile) -> bool {
    &&& encode_utf8(m.language@).len() <= 8
    &&& m.params.tokens@.len() < 0x8000_0000
    &&& (forall|i: int|
        0 <= i < m.params.tokens@.len() ==> encode_utf8(
            (#[trigger] m.params.tokens@[i])@,
        ).len() < 0x8000_0000)
    &&& spec_serialize(abs_model(m)).len() <= usize::MAX as int
}

// ------------------------------------------------------------------
// Serializer helpers
// ------------------------------------------------------------------

/// Writes the header, the padded language tag, the two length-prefixed
/// strings, the model-type tag and the parameter metadata descriptor.
#[verifier::loop_isolation(false)]
fn write_preamble(
    out: &mut Vec<u8>,
    version: u32,
    lang_b: &Vec<u8>,
    name_b: &Vec<u8>,
    desc_b: &Vec<u8>,
    tag: u32,
    param_off: u64,
    pblock: u64,
    nnet: u64,
)
    requires
        lang_b@.len() <= 8,
    ensures
        final(out)@ == old(out)@ + magic_bytes() + le32_bytes(version as int) + le64_bytes(20)
            + lang_b@ + zeros(8 - lang_b@.len()) + ser_lp64(name_b@) + ser_lp64(desc_b@)
            + le32_bytes(tag as int) + le64_bytes(param_off as int) + le64_bytes(pblock as int)
            + le64_bytes(nnet as int),
{
    let ghost base = out@;
    out.push(65);
    out.push(80);
    out.push(82);
    out.push(73);
    out.push(76);
    out.push(77);
    out.push(68);
    out.push(76);
    proof {
        assert(out@ =~= base + magic_bytes());
    }
    write_u32_le(out, version);
    write_u64_le(out, 20);
    out.extend_from_slice(lang_b.as_slice());
    let ghost after_header = base + magic_bytes() + le32_bytes(version as int) + le64_bytes(20);
    proof {
        assert(out@ =~= after_header + lang_b@ + zeros(0));
    }
    let mut pad = lang_b.len();
    while pad < 8
        invariant
            lang_b@.len() <= pad <= 8,
            out@ == after_header + lang_b@ + zeros(pad - lang_b@.len()),
        decreases 8 - pad,
    {
        out.push(0);
        pad = pad + 1;
        proof {
            assert((after_header + lang_b@ + zeros(pad - 1 - lang_b@.len())).push(0u8)
                =~= after_header + lang_b@ + zeros(pad - lang_b@.len()));
        }
    }
    write_u64_le(out, name_b.len() as u64);
    out.extend_from_slice(name_b.as_slice());
    write_u64_le(out, desc_b.len() as u64);
    out.extend_from_slice(desc_b.as_slice());
    write_u32_le(out, tag);
    write_u64_le(out, param_off);
    write_u64_le(out, pblock);
    write_u64_le(out, nnet);
    proof {
        assert(out@ =~= after_header + lang_b@ + zeros(8 - lang_b@.len()) + ser_lp64(name_b@)
            + ser_lp64(desc_b@) + le32_bytes(tag as int) + le64_bytes(param_off as int)
            + le64_bytes(pblock as int) + le64_bytes(nnet as int));
    }
}

/// Writes the network descriptor table: for each blob, its computed offset
/// after the parameter block, then its size.
#[verifier::loop_isolation(false)]
fn write_desc_table(out: &mut Vec<u8>, networks: &Vec<Network>, Ghost(m): Ghost<ModelSpec>, base: u128)
    requires
        m.networks == byte_views(networks@),
        base == param_offset(m) + param_block_len(m),
        base + cat(m.networks).len() <= usize::MAX,
    ensures
        final(out)@ == old(out)@ + ser_descs(m, 0),
{
    let ghost start = out@;
    let nnet = networks.len();
    let mut cum: u128 = 0;
    let mut di: usize = 0;
    proof {
        assert(out@ + ser_descs(m, 0) == start + ser_descs(m, 0));
    }
    while di < nnet
        invariant
            di <= nnet,
            cum == cat(m.networks.take(di as int)).len(),
            out@ + ser_descs(m, di as int) == start + ser_descs(m, 0),
        decreases nnet - di,
    {
        proof {
            lemma_cat_split(m.networks, di as int);
            assert(m.networks[di as int] == networks@[di as int]@);
        }
        let off64: u64 = (base + cum) as u64;
        proof {
            assert(off64 as int == blob_offset(m, di as int));
        }
        let sz64: u64 = networks[di].len() as u64;
        write_u64_le(out, off64);
        write_u64_le(out, sz64);
        proof {
            assert(out@ + ser_descs(m, di as int + 1) =~= start + ser_descs(m, 0));
            assert(m.networks.take(di as int + 1) =~= m.networks.take(di as int).push(
                m.networks[di as int],
            ));
            lemma_cat_snoc(m.networks.take(di as int), m.networks[di as int]);
        }
        cum = cum + networks[di].len() as u128;
        di = di + 1;
    }
    proof {
        assert(out@ + Seq::<u8>::empty() =~= out@);
    }
}

/// Writes the parameter block's reserved prefix and its thirteen fields.
#[verifier::loop_isolation(false)]
#[verifier::rlimit(100)]
#[verifier::spinoff_prover]
fn write_raw_params(out: &mut Vec<u8>, p: &Params, ntok: usize)
    requires
        ntok == p.tokens@.len(),
        ntok < 0x8000_0000,
    ensures
        final(out)@ == old(out)@ + zeros(8) + ser_raw(abs_raw(*p)),
{
    let ghost start = out@;
    let mut rz: usize = 0;
    while rz < 8
        invariant
            rz <= 8,
            out@ == start + zeros(rz as int),
        decreases 8 - rz,
    {
        out.push(0);
        rz = rz + 1;
        proof {
            assert((start + zeros(rz - 1)).push(0u8) =~= start + zeros(rz as int));
        }
    }
    write_i32_le(out, p.batch_size);
    write_i32_le(out, p.segment_size);
    write_i32_le(out, p.segment_step);
    write_i32_le(out, p.mel_features);
    write_i32_le(out, p.sample_rate);
    write_i32_le(out, p.frame_shift_ms);
    write_i32_le(out, p.frame_length_ms);
    write_i32_le(out, if p.round_pow2 { 1 } else { 0 });
    write_i32_le(out, p.mel_low);
    write_i32_le(out, p.mel_high);
    write_i32_le(out, if p.snip_edges { 1 } else { 0 });
    write_i32_le(out, ntok as i32);
    write_i32_le(out, p.blank_id);
    proof {
        let r = abs_raw(*p);
        assert(out@ =~= start + zeros(8) + le32i(r.batch_size) + le32i(r.segment_size) + le32i(
            r.segment_step,
        ) + le32i(r.mel_features) + le32i(r.sample_rate) + le32i(r.frame_shift_ms) + le32i(
            r.frame_length_ms,
        ) + le32i(r.round_pow2) + le32i(r.mel_low) + le32i(r.mel_high) + le32i(r.snip_edges)
            + le32i(r.token_count) + le32i(r.blank_id));
        assert(start + zeros(8) + le32i(r.batch_size) + le32i(r.segment_size) + le32i(
            r.segment_step,
        ) + le32i(r.mel_features) + le32i(r.sample_rate) + le32i(r.frame_shift_ms) + le32i(
            r.frame_length_ms,
        ) + le32i(r.round_pow2) + le32i(r.mel_low) + le32i(r.mel_high) + le32i(r.snip_edges)
            + le32i(r.token_count) + le32i(r.blank_id) =~= start + zeros(8) + ser_raw(r));
    }
}

/// Writes the vocabulary: each token's i32 byte length, then its bytes.
#[verifier::loop_isolation(false)]
fn write_vocab(out: &mut Vec<u8>, tok_bytes: &Vec<Vec<u8>>, Ghost(toks): Ghost<Seq<Seq<u8>>>)
    requires
        toks == byte_views(tok_bytes@),
        forall|k: int| 0 <= k < toks.len() ==> #[trigger] toks[k].len() < 0x8000_0000,
    ensures
        final(out)@ == old(out)@ + ser_tokens(toks),
{
    let ghost start = out@;
    let ntok = tok_bytes.len();
    let mut wi: usize = 0;
    proof {
        assert(toks.skip(0) =~= toks);
    }
    while wi < ntok
        invariant
            wi <= ntok,
            out@ + ser_tokens(toks.skip(wi as int)) == start + ser_tokens(toks),
        decreases ntok - wi,
    {
        proof {
            assert(tok_bytes@[wi as int]@ == toks[wi as int]);
        }
        let tb_len = tok_bytes[wi].len();
        write_i32_le(out, tb_len as i32);
        out.extend_from_slice(tok_bytes[wi].as_slice());
        proof {
            assert(toks.skip(wi as int)[0] == toks[wi as int]);
            assert(toks.skip(wi as int).drop_first() =~= toks.skip(wi as int + 1));
            assert(le32i(tb_len as i32) =~= le32_bytes(toks[wi as int].len() as int));
            assert(out@ + ser_tokens(toks.skip(wi as int + 1)) =~= start + ser_tokens(toks));
        }
        wi = wi + 1;
    }
    proof {
        assert(out@ + Seq::<u8>::empty() =~= out@);
    }
}

/// Writes every blob's raw bytes, in order.
#[verifier::loop_isolation(false)]
fn write_blobs(out: &mut Vec<u8>, networks: &Vec<Network>)
    ensures
        final(out)@ == old(out)@ + cat(byte_views(networks@)),
{
    let ghost start = out@;
    let ghost bs = byte_views(networks@);
    let nnet = networks.len();
    let mut zi: usize = 0;
    proof {
        assert(bs.skip(0) =~= bs);
    }
    while zi < nnet
        invariant
            zi <= nnet,
            out@ + cat(bs.skip(zi as int)) == start + cat(bs),
        decreases nnet - zi,
    {
        proof {
            assert(bs[zi as int] == networks@[zi as int]@);
        }
        out.extend_from_slice(networks[zi].as_slice());
        proof {
            assert(bs.skip(zi as int)[0] == bs[zi as int]);
            assert(bs.skip(zi as int).drop_first() =~= bs.skip(zi as int + 1));
            assert(out@ + cat(bs.skip(zi as int + 1)) =~= start + cat(bs));
        }
        zi = zi + 1;
    }
    proof {
        assert(out@ + Seq::<u8>::empty() =~= out@);
    }
}

/// Encodes every token to its UTF-8 bytes and totals the vocabulary
/// records, refusing a token that outgrows its i32 length prefix.
#[verifier::loop_isolation(false)]
#[verifier::rlimit(50)]
fn encode_tokens(tokens: &Vec<String>, Ghost(toks): Ghost<Seq<Seq<u8>>>) -> (r: Option<
    (Vec<Vec<u8>>, u128),
>)
    requires
        toks == tokens@.map_values(|t: String| encode_utf8(t@)),
        tokens@.len() < 0x8000_0000,
    ensures
        match r {
            Some((tb, vl)) => byte_views(tb@) == toks && vl == ser_tokens(toks).len() as int
                && vl <= 0x8000_0004 * tokens@.len()
                && (forall|k: int| 0 <= k < toks.len() ==> #[trigger] toks[k].len() < 0x8000_0000),
            None => !(forall|k: int|
                0 <= k < toks.len() ==> #[trigger] toks[k].len() < 0x8000_0000),
        },
{
    let ntok = tokens.len();
    let mut tok_bytes: Vec<Vec<u8>> = Vec::new();
    let mut vocab_len: u128 = 0;
    let mut ti: usize = 0;
    while ti < ntok
        invariant
            ti <= ntok,
            tok_bytes@.len() == ti,
            forall|k: int| 0 <= k < ti ==> (#[trigger] tok_bytes@[k])@ == toks[k],
            forall|k: int| 0 <= k < ti ==> #[trigger] toks[k].len() < 0x8000_0000,
            vocab_len == ser_tokens(toks.take(ti as int)).len(),
            vocab_len <= 0x8000_0004u128 * ti,
        decreases ntok - ti,
    {
        let tb = vstd::slice::slice_to_vec(tokens[ti].as_str().as_bytes());
        proof {
            assert(tb@ == toks[ti as int]);
        }
        if tb.len() as u64 >= 0x8000_0000u64 {
            return None;
        }
        proof {
            assert(toks.take(ti as int + 1) =~= toks.take(ti as int).push(toks[ti as int]));
            lemma_ser_tokens_snoc(toks.take(ti as int), toks[ti as int]);
        }
        vocab_len = vocab_len + 4 + tb.len() as u128;
        tok_bytes.push(tb);
        ti = ti + 1;
    }
    proof {
        assert(toks.take(ntok as int) =~= toks);
        assert(byte_views(tok_bytes@) =~= toks);
    }
    Some((tok_bytes, vocab_len))
}

/// Totals the blob bytes.
#[verifier::loop_isolation(false)]
#[verifier::rlimit(50)]
fn blobs_total(networks: &Vec<Network>) -> (r: u128)
    ensures
        r == cat(byte_views(networks@)).len() as int,
{
    let ghost bs = byte_views(networks@);
    let nnet = networks.len();
    let mut blob_len: u128 = 0;
    let mut bj: usize = 0;
    while bj < nnet
        invariant
            bj <= nnet,
            blob_len == cat(bs.take(bj as int)).len(),
            blob_len <= 0x1_0000_0000_0000_0000u128 * bj,
        decreases nnet - bj,
    {
        proof {
            assert(bs[bj as int] == networks@[bj as int]@);
            assert(bs.take(bj as int + 1) =~= bs.take(bj as int).push(bs[bj as int]));
            lemma_cat_snoc(bs.take(bj as int), bs[bj as int]);
        }
        blob_len = blob_len + networks[bj].len() as u128;
        bj = bj + 1;
    }
    proof {
        assert(bs.take(nnet as int) =~= bs);
    }
    blob_len
}

/// Writes the whole image, in layout order.
#[verifier::rlimit(100)]
#[verifier::spinoff_prover]
fn write_image(
    mf: &ModelFile,
    lang_b: &Vec<u8>,
    name_b: &Vec<u8>,
    desc_b: &Vec<u8>,
    tok_bytes: &Vec<Vec<u8>>,
    Ghost(m): Ghost<ModelSpec>,
    param_off: u128,
    pblock: u128,
)
 -> (out: Vec<u8>)
    requires
        m == abs_model(*mf),
        lang_b@ == m.language,
        lang_b@.len() <= 8,
        name_b@ == m.name,
        desc_b@ == m.description,
        byte_views(tok_bytes@) == m.tokens,
        forall|k: int| 0 <= k < m.tokens.len() ==> #[trigger] m.tokens[k].len() < 0x8000_0000,
        mf.params.tokens@.len() < 0x8000_0000,
        param_off == param_offset(m),
        pblock == param_block_len(m),
        param_off + pblock + cat(m.networks).len() <= usize::MAX,
    ensures
        out@ == spec_serialize(m),
{
    let nnet = mf.params.networks.len();
    let mut out: Vec<u8> = Vec::new();
        let mut out: Vec<u8> = Vec::new();
        write_preamble(
            &mut out,
            mf.version,
            &lang_b,
            &name_b,
            &desc_b,
            mf.model_type.tag(),
            param_off as u64,
            pblock as u64,
            nnet as u64,
        );
        write_desc_table(&mut out, &mf.params.networks, Ghost(m), param_off + pblock);
        write_raw_params(&mut out, &mf.params, mf.params.tokens.len());
        write_vocab(&mut out, &tok_bytes, Ghost(m.tokens));
        write_blobs(&mut out, &mf.params.networks);
        proof {
            lemma_spec_serialize_parts(m);
        }
    out
}

impl ModelFile {
    /// Emits the documented byte layout of this model, exactly as the ghost
    /// serializer states it, or `None` exactly when the model cannot be
    /// carried by the layout (a field outgrows its fixed-width length
    /// prefix, or the image would not fit in memory).
    #[verifier::loop_isolation(false)]
    #[verifier::rlimit(100)]
    #[verifier::spinoff_prover]
    pub fn serialize(&self) -> (r: Option<Vec<u8>>)
        ensures
            r matches Some(v) ==> v@ == spec_serialize(abs_model(*self)) && serializable(*self),
            r is None ==> !serializable(*self),
    {
        let ghost m = abs_model(*self);
        let lang_b = vstd::slice::slice_to_vec(self.language.as_str().as_bytes());
        proof {
            assert(lang_b@ == m.language);
        }
        if lang_b.len() > 8 {
            return None;
        }
        let name_b = vstd::slice::slice_to_vec(self.name.as_str().as_bytes());
        let desc_b = vstd::slice::slice_to_vec(self.description.as_str().as_bytes());
        let ntok = self.params.tokens.len();
        if ntok as u64 >= 0x8000_0000u64 {
            return None;
        }
        let nnet = self.params.networks.len();
        let (tok_bytes, vocab_len) = match encode_tokens(&self.params.tokens, Ghost(m.tokens)) {
            Some(x) => x,
            None => { return None },
        };
        let blob_len = blobs_total(&self.params.networks);
        if blob_len > usize::MAX as u128 {
            proof {
                lemma_spec_serialize_len(m);
            }
            return None;
        }

        // Where the parameter block will start, and the total image size.
        let param_off: u128 = 72 + name_b.len() as u128 + desc_b.len() as u128
            + 16 * nnet as u128;
        let pblock: u128 = 60 + vocab_len;
        let total: u128 = param_off + pblock + blob_len;
        proof {
            lemma_spec_serialize_len(m);
            assert(param_off == param_offset(m));
            assert(pblock == param_block_len(m));
            assert(total == spec_serialize(m).len());
        }
        if total > usize::MAX as u128 {
            return None;
        }

        proof {
            assert(name_b@ == m.name);
            assert(desc_b@ == m.description);
            assert forall|i: int| 0 <= i < self.params.tokens@.len() implies encode_utf8(
                (#[trigger] self.params.tokens@[i])@,
            ).len() < 0x8000_0000 by {
                assert(m.tokens[i] == encode_utf8(self.params.tokens@[i]@));
            }
            assert(serializable(*self));
        }
        let out = write_image(
            self,
            &lang_b,
            &name_b,
            &desc_b,
            &tok_bytes,
            Ghost(m),
            param_off,
            pblock,
        );
        Some(out)
    }
}

impl NetworkDefinition {
    /// Extracts this descriptor's blob: exactly `size` bytes at `offset`,
    /// bounds-checked against the source.
    pub fn read(self, s: &[u8]) -> (r: Result<Vec<u8>, ParseError>)
        ensures
            match r {
                Ok(v) => self.offset + self.size <= s@.len() && v@ == s@.subrange(
                    self.offset as int,
                    self.offset + self.size,
                ),
                Err(e) => e == ParseError::Truncated && self.offset + self.size > s@.len(),
            },
    {
        if self.offset <= s.len() as u64 && self.size <= s.len() as u64 - self.offset {
            match read_bytes(s, self.offset as usize, self.size as usize) {
                Ok((v, _)) => Ok(v),
                Err(e) => Err(e),
            }
        } else {
            Err(ParseError::Truncated)
        }
    }
}

} // verus!
