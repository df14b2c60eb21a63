//! Error taxonomy of the container parser. Every failure is terminal for the
//! parse attempt and carries enough context to say which invariant broke.

use vstd::prelude::*;

verus! {

/// Names the parameter-block field whose range check failed first.
#[derive(Clone, Copy, Debug, PartialEq, Eq, Structural)]
pub enum ParamField {
    BatchSize,
    SegmentSize,
    SegmentStep,
    MelFeatures,
    SampleRate,
    TokenCount,
    BlankId,
    FrameShiftMs,
    FrameLengthMs,
    MelLow,
    MelHigh,
}

/// Why a container was rejected.
#[derive(Clone, Copy, Debug, PartialEq, Eq, Structural)]
pub enum ParseError {
    /// The byte source ended (or a declared offset/length pointed outside it)
    /// before an expected field could be read.
    Truncated,
    /// Bytes were not valid UTF-8 where a string was expected.
    InvalidEncoding,
    /// The first eight bytes of the file are not the `APRILMDL` tag.
    BadMagic,
    /// The declared network count exceeds the fixed maximum of eight.
    TooManyNetworks,
    /// A parameter-block field violates its documented bound.
    ParameterOutOfRange(ParamField),
    /// The model type is not one the downstream runtime supports. This is a
    /// caller-level check; parsing itself never returns it.
    UnsupportedModelType,
}

impl ParamField {
    /// The field's name as it appears in the parameter block.
    pub fn name(&self) -> &'static str {
        match self {
            ParamField::BatchSize => "batch_size",
            ParamField::SegmentSize => "segment_size",
            ParamField::SegmentStep => "segment_step",
            ParamField::MelFeatures => "mel_features",
            ParamField::SampleRate => "sample_rate",
            ParamField::TokenCount => "token_count",
            ParamField::BlankId => "blank_id",
            ParamField::FrameShiftMs => "frame_shift_ms",
            ParamField::FrameLengthMs => "frame_length_ms",
            ParamField::MelLow => "mel_low",
            ParamField::MelHigh => "mel_high",
        }
    }
}

impl ParseError {
    /// A short human-readable description of the error.
    pub fn message(&self) -> &'static str {
        match self {
            ParseError::Truncated => "byte source exhausted before an expected field",
            ParseError::InvalidEncoding => "bytes are not valid UTF-8 where a string was expected",
            ParseError::BadMagic => "file does not start with the APRILMDL tag",
            ParseError::TooManyNetworks => "declared network count exceeds the maximum of 8",
            ParseError::ParameterOutOfRange(_) => "a parameter field violates its documented bound",
            ParseError::UnsupportedModelType => "model type is not supported by the runtime",
        }
    }
}

} // verus!
