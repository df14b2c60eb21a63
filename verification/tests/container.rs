use april_model::errors::{ParamField, ParseError};
use april_model::model_file::{ModelFile, ModelType, NetworkDefinition, Params, PartialParams};

fn push_u32(out: &mut Vec<u8>, v: u32) {
    out.extend_from_slice(&v.to_le_bytes());
}

fn push_u64(out: &mut Vec<u8>, v: u64) {
    out.extend_from_slice(&v.to_le_bytes());
}

fn push_i32(out: &mut Vec<u8>, v: i32) {
    out.extend_from_slice(&v.to_le_bytes());
}

fn sample_params(tokens: Vec<&str>, networks: Vec<Vec<u8>>) -> Params {
    Params {
        batch_size: 1,
        segment_size: 1,
        segment_step: 1,
        mel_features: 1,
        sample_rate: 2,
        frame_shift_ms: 1,
        frame_length_ms: 1,
        round_pow2: false,
        mel_low: 1,
        mel_high: 0,
        snip_edges: false,
        blank_id: 0,
        networks,
        tokens: tokens.into_iter().map(|t| t.to_string()).collect(),
    }
}

fn sample_model() -> ModelFile {
    ModelFile {
        version: 1,
        language: "en".to_string(),
        name: "tiny".to_string(),
        description: "a tiny model".to_string(),
        model_type: ModelType::ModelLstmTransducerStateless,
        params: sample_params(vec!["<blank>", "a"], vec![vec![1, 2, 3, 4]]),
    }
}

fn assert_same(a: &ModelFile, b: &ModelFile) {
    assert_eq!(a.version, b.version);
    assert_eq!(a.language, b.language);
    assert_eq!(a.name, b.name);
    assert_eq!(a.description, b.description);
    assert_eq!(a.model_type, b.model_type);
    assert_eq!(a.params.batch_size, b.params.batch_size);
    assert_eq!(a.params.segment_size, b.params.segment_size);
    assert_eq!(a.params.segment_step, b.params.segment_step);
    assert_eq!(a.params.mel_features, b.params.mel_features);
    assert_eq!(a.params.sample_rate, b.params.sample_rate);
    assert_eq!(a.params.frame_shift_ms, b.params.frame_shift_ms);
    assert_eq!(a.params.frame_length_ms, b.params.frame_length_ms);
    assert_eq!(a.params.round_pow2, b.params.round_pow2);
    assert_eq!(a.params.mel_low, b.params.mel_low);
    assert_eq!(a.params.mel_high, b.params.mel_high);
    assert_eq!(a.params.snip_edges, b.params.snip_edges);
    assert_eq!(a.params.blank_id, b.params.blank_id);
    assert_eq!(a.params.tokens, b.params.tokens);
    assert_eq!(a.params.networks, b.params.networks);
}

#[test]
fn round_trip_sample_model() {
    let m = sample_model();
    let bytes = m.serialize().expect("representable model serializes");
    let parsed = ModelFile::new(&bytes).expect("serialized model parses");
    assert_same(&m, &parsed);
}

#[test]
fn round_trip_non_ascii_token() {
    let mut m = sample_model();
    m.params.tokens = vec!["é".to_string(), "日本".to_string()];
    m.language = "ja".to_string();
    let bytes = m.serialize().unwrap();
    let parsed = ModelFile::new(&bytes).unwrap();
    assert_eq!(parsed.params.tokens, vec!["é".to_string(), "日本".to_string()]);
    assert_eq!(parsed.language, "ja");
}

#[test]
fn bad_magic_always_rejected() {
    let m = sample_model();
    let mut bytes = m.serialize().unwrap();
    bytes[0] = b'X';
    assert_eq!(ModelFile::new(&bytes).unwrap_err(), ParseError::BadMagic);
    // Regardless of remaining content.
    let mut short = bytes.clone();
    short.truncate(30);
    assert_eq!(ModelFile::new(&short).unwrap_err(), ParseError::BadMagic);
}

#[test]
fn nine_networks_rejected_eight_accepted() {
    let mut m = sample_model();
    m.params.networks = (0..9).map(|i| vec![i as u8]).collect();
    let bytes = m.serialize().unwrap();
    assert_eq!(ModelFile::new(&bytes).unwrap_err(), ParseError::TooManyNetworks);

    m.params.networks = (0..8).map(|i| vec![i as u8]).collect();
    let bytes = m.serialize().unwrap();
    let parsed = ModelFile::new(&bytes).unwrap();
    assert_eq!(parsed.params.networks.len(), 8);
}

#[test]
fn segment_step_above_size_names_segment_step() {
    let mut m = sample_model();
    m.params.segment_size = 10;
    m.params.segment_step = 11;
    let bytes = m.serialize().unwrap();
    assert_eq!(
        ModelFile::new(&bytes).unwrap_err(),
        ParseError::ParameterOutOfRange(ParamField::SegmentStep)
    );
}

#[test]
fn blank_id_bounds() {
    // blank_id == token_count always fails.
    let mut m = sample_model();
    m.params.blank_id = 2;
    let bytes = m.serialize().unwrap();
    assert_eq!(
        ModelFile::new(&bytes).unwrap_err(),
        ParseError::ParameterOutOfRange(ParamField::BlankId)
    );
    // blank_id == token_count - 1 succeeds.
    m.params.blank_id = 1;
    let bytes = m.serialize().unwrap();
    assert_eq!(ModelFile::new(&bytes).unwrap().params.blank_id, 1);
}

#[test]
fn mel_high_zero_unspecified_mel_high_equal_rejected() {
    let mut m = sample_model();
    m.params.mel_low = 1;
    m.params.mel_high = 0;
    let bytes = m.serialize().unwrap();
    assert_eq!(ModelFile::new(&bytes).unwrap().params.mel_high, 0);

    m.params.mel_high = 1; // == mel_low
    let bytes = m.serialize().unwrap();
    assert_eq!(
        ModelFile::new(&bytes).unwrap_err(),
        ParseError::ParameterOutOfRange(ParamField::MelHigh)
    );
}

#[test]
fn truncated_vocabulary_is_truncated_not_panic() {
    let m = sample_model();
    let bytes = m.serialize().unwrap();
    // Cut inside the vocabulary region: keep everything up to the middle of
    // the first token's bytes.
    let blob_bytes: usize = m.params.networks.iter().map(|n| n.len()).sum();
    let vocab_bytes = (4 + "<blank>".len()) + (4 + "a".len());
    let cut = bytes.len() - blob_bytes - vocab_bytes + 6;
    let mut short = bytes.clone();
    short.truncate(cut);
    assert_eq!(ModelFile::new(&short).unwrap_err(), ParseError::Truncated);
}

#[test]
fn vocabulary_entry_longer_than_file_is_truncated() {
    // Hand-built container whose only token declares more bytes than remain.
    let bytes = build_minimal_container(|vocab: &mut Vec<u8>| {
        push_i32(vocab, 100_000); // declared length far beyond the file
        vocab.extend_from_slice(b"ab");
    });
    assert_eq!(ModelFile::new(&bytes).unwrap_err(), ParseError::Truncated);
}

#[test]
fn invalid_utf8_token_rejected() {
    let bytes = build_minimal_container(|vocab: &mut Vec<u8>| {
        push_i32(vocab, 2);
        vocab.extend_from_slice(&[0xFF, 0xFE]);
        push_i32(vocab, 1);
        vocab.extend_from_slice(b"a");
    });
    assert_eq!(ModelFile::new(&bytes).unwrap_err(), ParseError::InvalidEncoding);
}

/// Builds a container with two tokens (the vocabulary region is delegated to
/// the caller), one network blob, and all numeric fields at their minimum
/// valid values. Field layout mirrors the documented format exactly.
fn build_minimal_container(write_vocab: impl Fn(&mut Vec<u8>)) -> Vec<u8> {
    let name = b"tiny";
    let desc = b"d";
    let blob = [9u8, 8, 7];
    let mut vocab: Vec<u8> = Vec::new();
    write_vocab(&mut vocab);

    let param_offset = 72 + name.len() + desc.len() + 16;
    let param_block_len = 60 + vocab.len();
    let blob_offset = param_offset + param_block_len;

    let mut out: Vec<u8> = Vec::new();
    out.extend_from_slice(b"APRILMDL");
    push_u32(&mut out, 1); // version
    push_u64(&mut out, 20); // header_size
    out.extend_from_slice(b"en\0\0\0\0\0\0"); // language tag
    push_u64(&mut out, name.len() as u64);
    out.extend_from_slice(name);
    push_u64(&mut out, desc.len() as u64);
    out.extend_from_slice(desc);
    push_u32(&mut out, 1); // model type: LstmTransducerStateless
    push_u64(&mut out, param_offset as u64);
    push_u64(&mut out, param_block_len as u64);
    push_u64(&mut out, 1); // num_networks
    push_u64(&mut out, blob_offset as u64);
    push_u64(&mut out, blob.len() as u64);
    out.extend_from_slice(&[0u8; 8]); // reserved
    for v in [1, 1, 1, 1, 2, 1, 1, 0, 1, 0, 0, 2, 0] {
        push_i32(&mut out, v);
    }
    out.extend_from_slice(&vocab);
    out.extend_from_slice(&blob);
    out
}

#[test]
fn minimal_container_end_to_end() {
    let bytes = build_minimal_container(|vocab: &mut Vec<u8>| {
        push_i32(vocab, 7);
        vocab.extend_from_slice(b"<blank>");
        push_i32(vocab, 1);
        vocab.extend_from_slice(b"a");
    });
    let parsed = ModelFile::new(&bytes).unwrap();
    assert_eq!(parsed.version, 1);
    assert_eq!(parsed.language, "en");
    assert_eq!(parsed.name, "tiny");
    assert_eq!(parsed.description, "d");
    assert_eq!(parsed.model_type, ModelType::ModelLstmTransducerStateless);
    assert_eq!(parsed.params.blank_id, 0);
    assert_eq!(
        parsed.params.tokens,
        vec!["<blank>".to_string(), "a".to_string()]
    );
    assert_eq!(parsed.params.networks, vec![vec![9u8, 8, 7]]);
}

#[test]
fn token_padding_is_stripped() {
    let bytes = build_minimal_container(|vocab: &mut Vec<u8>| {
        push_i32(vocab, 7);
        vocab.extend_from_slice(b"ab\0\0\0\0\0");
        push_i32(vocab, 1);
        vocab.extend_from_slice(b"a");
    });
    let parsed = ModelFile::new(&bytes).unwrap();
    assert_eq!(parsed.params.tokens[0], "ab");
}

#[test]
fn blobs_extracted_by_descriptor_out_of_order() {
    // Descriptors out of monotonic file order: each blob must still come
    // from its own range.
    let mut buf = vec![0u8; 200];
    for (i, b) in buf.iter_mut().enumerate() {
        *b = (i % 251) as u8;
    }
    let descs = [(100u64, 50u64), (150, 30), (10, 20)];
    for (off, size) in descs {
        let d = NetworkDefinition { offset: off, size };
        let blob = d.read(&buf).unwrap();
        assert_eq!(blob, buf[off as usize..(off + size) as usize].to_vec());
    }
    // Out-of-range descriptor fails with Truncated instead of reading wild.
    let bad = NetworkDefinition { offset: 190, size: 20 };
    assert_eq!(bad.read(&buf), Err(ParseError::Truncated));
}

#[test]
fn unsupported_model_type_is_callers_check() {
    let mut m = sample_model();
    m.model_type = ModelType::ModelUnknown;
    let bytes = m.serialize().unwrap();
    // Parsing succeeds: the tag is not validated by the parser.
    let parsed = ModelFile::new(&bytes).unwrap();
    assert_eq!(parsed.model_type, ModelType::ModelUnknown);
    assert_eq!(
        parsed.model_type.ensure_supported(),
        Err(ParseError::UnsupportedModelType)
    );
    assert_eq!(
        ModelType::ModelLstmTransducerStateless.ensure_supported(),
        Ok(())
    );
}

#[test]
fn validate_names_first_violation() {
    let pp = PartialParams {
        magic: [0; 8],
        batch_size: 1,
        segment_size: 50,
        segment_step: 10,
        mel_features: 80,
        sample_rate: 16000,
        frame_shift_ms: 10,
        frame_length_ms: 25,
        round_pow2: 1,
        mel_low: 20,
        mel_high: 8000,
        snip_edges: 0,
        token_count: 500,
        blank_id: 0,
    };
    assert_eq!(pp.validate(), None);
    let bad = PartialParams { batch_size: 2, ..pp };
    assert_eq!(bad.validate(), Some(ParamField::BatchSize));
    let bad = PartialParams { sample_rate: 144000, ..pp };
    assert_eq!(bad.validate(), Some(ParamField::SampleRate));
    assert_eq!(bad.validate().unwrap().name(), "sample_rate");
}

#[test]
fn read_string_reads_length_prefixed_utf8() {
    let mut bytes = vec![0u8; 0];
    push_u64(&mut bytes, 3);
    bytes.extend_from_slice(b"abc");
    let (s, next) = april_model::model_file::read_string(&bytes, 0).unwrap();
    assert_eq!(s, "abc");
    assert_eq!(next, 11);
    // A length beyond the source is Truncated.
    let mut short = vec![0u8; 0];
    push_u64(&mut short, 10);
    short.extend_from_slice(b"abc");
    assert_eq!(
        april_model::model_file::read_string(&short, 0),
        Err(ParseError::Truncated)
    );
}

#[test]
fn error_messages_name_the_problem() {
    assert!(ParseError::BadMagic.message().contains("APRILMDL"));
    assert!(ParseError::Truncated.message().contains("exhausted"));
    assert_eq!(ParamField::MelHigh.name(), "mel_high");
}
