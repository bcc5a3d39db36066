//! The static speech-to-text model registry: a constant lookup table mapping
//! model identifiers to file names, download URLs, and byte sizes.

use vstd::prelude::*;

verus! {

#[derive(Debug, Eq, Hash, PartialEq, Clone, Copy, Structural)]
pub enum SupportedModel {
    QuantizedTiny,
    QuantizedTinyEn,
    QuantizedBase,
    QuantizedBaseEn,
    QuantizedSmall,
    QuantizedSmallEn,
    QuantizedLargeTurbo,
}

impl SupportedModel {
    /// The on-disk file name of the model.
    pub fn file_name(&self) -> (r: &'static str)
        ensures
            r@ == self.spec_file_name(),
    {
        match self {
            SupportedModel::QuantizedTiny => "ggml-tiny-q8_0.bin",
            SupportedModel::QuantizedTinyEn => "ggml-tiny.en-q8_0.bin",
            SupportedModel::QuantizedBase => "ggml-base-q8_0.bin",
            SupportedModel::QuantizedBaseEn => "ggml-base.en-q8_0.bin",
            SupportedModel::QuantizedSmall => "ggml-small-q8_0.bin",
            SupportedModel::QuantizedSmallEn => "ggml-small.en-q8_0.bin",
            SupportedModel::QuantizedLargeTurbo => "ggml-large-v3-turbo-q8_0.bin",
        }
    }

    pub open spec fn spec_file_name(&self) -> Seq<char> {
        match self {
            SupportedModel::QuantizedTiny => "ggml-tiny-q8_0.bin"@,
            SupportedModel::QuantizedTinyEn => "ggml-tiny.en-q8_0.bin"@,
            SupportedModel::QuantizedBase => "ggml-base-q8_0.bin"@,
            SupportedModel::QuantizedBaseEn => "ggml-base.en-q8_0.bin"@,
            SupportedModel::QuantizedSmall => "ggml-small-q8_0.bin"@,
            SupportedModel::QuantizedSmallEn => "ggml-small.en-q8_0.bin"@,
            SupportedModel::QuantizedLargeTurbo => "ggml-large-v3-turbo-q8_0.bin"@,
        }
    }

    /// The URL the model can be downloaded from.
    pub fn model_url(&self) -> (r: &'static str)
        ensures
            r@ == self.spec_model_url(),
    {
        match self {
            SupportedModel::QuantizedTiny => "https://storage2.hyprnote.com/v0/ggerganov/whisper.cpp/main/ggml-tiny-q8_0.bin",
            SupportedModel::QuantizedTinyEn => "https://storage2.hyprnote.com/v0/ggerganov/whisper.cpp/main/ggml-tiny.en-q8_0.bin",
            SupportedModel::QuantizedBase => "https://storage2.hyprnote.com/v0/ggerganov/whisper.cpp/main/ggml-base-q8_0.bin",
            SupportedModel::QuantizedBaseEn => "https://storage2.hyprnote.com/v0/ggerganov/whisper.cpp/main/ggml-base.en-q8_0.bin",
            SupportedModel::QuantizedSmall => "https://storage2.hyprnote.com/v0/ggerganov/whisper.cpp/main/ggml-small-q8_0.bin",
            SupportedModel::QuantizedSmallEn => "https://storage2.hyprnote.com/v0/ggerganov/whisper.cpp/main/ggml-small.en-q8_0.bin",
            SupportedModel::QuantizedLargeTurbo => "https://storage2.hyprnote.com/v0/ggerganov/whisper.cpp/main/ggml-large-v3-turbo-q8_0.bin",
        }
    }

    pub open spec fn spec_model_url(&self) -> Seq<char> {
        match self {
            SupportedModel::QuantizedTiny => "https://storage2.hyprnote.com/v0/ggerganov/whisper.cpp/main/ggml-tiny-q8_0.bin"@,
            SupportedModel::QuantizedTinyEn => "https://storage2.hyprnote.com/v0/ggerganov/whisper.cpp/main/ggml-tiny.en-q8_0.bin"@,
            SupportedModel::QuantizedBase => "https://storage2.hyprnote.com/v0/ggerganov/whisper.cpp/main/ggml-base-q8_0.bin"@,
            SupportedModel::QuantizedBaseEn => "https://storage2.hyprnote.com/v0/ggerganov/whisper.cpp/main/ggml-base.en-q8_0.bin"@,
            SupportedModel::QuantizedSmall => "https://storage2.hyprnote.com/v0/ggerganov/whisper.cpp/main/ggml-small-q8_0.bin"@,
            SupportedModel::QuantizedSmallEn => "https://storage2.hyprnote.com/v0/ggerganov/whisper.cpp/main/ggml-small.en-q8_0.bin"@,
            SupportedModel::QuantizedLargeTurbo => "https://storage2.hyprnote.com/v0/ggerganov/whisper.cpp/main/ggml-large-v3-turbo-q8_0.bin"@,
        }
    }

    /// The size of the model file in bytes.
    pub fn model_size(&self) -> (r: u64)
        ensures
            r == self.spec_model_size(),
    {
        match self {
            SupportedModel::QuantizedTiny => 43537433,
            SupportedModel::QuantizedTinyEn => 43550795,
            SupportedModel::QuantizedBase => 81768585,
            SupportedModel::QuantizedBaseEn => 81781811,
            SupportedModel::QuantizedSmall => 264464607,
            SupportedModel::QuantizedSmallEn => 264477561,
            SupportedModel::QuantizedLargeTurbo => 874188075,
        }
    }

    pub open spec fn spec_model_size(&self) -> u64 {
        match self {
            SupportedModel::QuantizedTiny => 43537433,
            SupportedModel::QuantizedTinyEn => 43550795,
            SupportedModel::QuantizedBase => 81768585,
            SupportedModel::QuantizedBaseEn => 81781811,
            SupportedModel::QuantizedSmall => 264464607,
            SupportedModel::QuantizedSmallEn => 264477561,
            SupportedModel::QuantizedLargeTurbo => 874188075,
        }
    }
}

} // verus!
