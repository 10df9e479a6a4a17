use vstd::prelude::*;

use crate::stop_condition::strings_of;

verus! {

/// How a request is served.
#[derive(Clone, Copy, Debug, PartialEq, Eq, Structural)]
pub enum GenerationMode {
    /// Streamed generation, cut at the first stop word.
    Standard,
    /// The engine's whole-result generation, returned untouched.
    NextEditSuggestion,
}

/// The mode that a mode name selects: any name other than
/// `next_edit_suggestion` selects the standard mode.
pub open spec fn mode_of(name: Seq<char>) -> GenerationMode {
    if name == "next_edit_suggestion"@ {
        GenerationMode::NextEditSuggestion
    } else {
        GenerationMode::Standard
    }
}

impl GenerationMode {
    /// Reads a mode name; unknown names fall back to the standard mode.
    pub fn from_name(name: &str) -> (r: Self)
        ensures
            r == mode_of(name@),
    {
        let given = name.to_owned();
        let nes = "next_edit_suggestion".to_owned();
        if given == nes {
            GenerationMode::NextEditSuggestion
        } else {
            GenerationMode::Standard
        }
    }
}

/// What a language contributes to the stop conditions of a request.
pub struct Language {
    pub name: String,
    pub stop_words: Vec<String>,
}

/// The per-request options of a generation.
pub struct CodeGenerationOptions {
    /// Budget in characters for the prompt; zero means unlimited.
    pub max_input_length: usize,
    pub max_decoding_tokens: i32,
    /// The sampling temperature as the bit pattern of an IEEE 754 single.
    pub sampling_temperature_bits: u32,
    pub seed: u64,
    pub language: Option<Language>,
    pub mode: GenerationMode,
}

/// Default input budget, in characters.
pub const DEFAULT_MAX_INPUT_LENGTH: usize = 1024;

/// Default number of tokens to decode.
pub const DEFAULT_MAX_DECODING_TOKENS: i32 = 256;

/// Bit pattern of the default sampling temperature, 0.1.
pub const DEFAULT_SAMPLING_TEMPERATURE_BITS: u32 = 0x3dcc_cccd;

impl CodeGenerationOptions {
    /// The default options for a request drawn with `seed`: standard mode, no
    /// language.
    pub fn with_seed(seed: u64) -> (r: Self)
        ensures
            r.max_input_length == DEFAULT_MAX_INPUT_LENGTH,
            r.max_decoding_tokens == DEFAULT_MAX_DECODING_TOKENS,
            r.sampling_temperature_bits == DEFAULT_SAMPLING_TEMPERATURE_BITS,
            r.seed == seed,
            r.language is None,
            r.mode == GenerationMode::Standard,
    {
        CodeGenerationOptions {
            max_input_length: DEFAULT_MAX_INPUT_LENGTH,
            max_decoding_tokens: DEFAULT_MAX_DECODING_TOKENS,
            sampling_temperature_bits: DEFAULT_SAMPLING_TEMPERATURE_BITS,
            seed,
            language: None,
            mode: GenerationMode::Standard,
        }
    }
}

/// The extra stop words a request's language brings: none without one.
pub open spec fn language_stop_words(language: Option<Language>) -> Seq<Seq<char>> {
    match language {
        Some(l) => strings_of(l.stop_words@),
        None => Seq::empty(),
    }
}

/// What is handed on to the engine: the decoding budget, the temperature and
/// the seed, nothing else.
#[derive(Clone, Copy, Debug, PartialEq, Eq, Structural)]
pub struct CompletionOptions {
    pub max_decoding_tokens: i32,
    pub sampling_temperature_bits: u32,
    pub seed: u64,
}

impl CompletionOptions {
    /// The engine options that `options` asks for.
    pub open spec fn spec_from(options: &CodeGenerationOptions) -> CompletionOptions {
        CompletionOptions {
            max_decoding_tokens: options.max_decoding_tokens,
            sampling_temperature_bits: options.sampling_temperature_bits,
            seed: options.seed,
        }
    }

    /// Picks the engine options out of the request's options.
    pub fn from_options(options: &CodeGenerationOptions) -> (r: Self)
        ensures
            r == Self::spec_from(options),
    {
        CompletionOptions {
            max_decoding_tokens: options.max_decoding_tokens,
            sampling_temperature_bits: options.sampling_temperature_bits,
            seed: options.seed,
        }
    }
}

/// Where the engine runs: locally or behind an HTTP endpoint. Either may list
/// stop words of its own.
pub enum ModelConfig {
    Local { additional_stop_words: Option<Vec<String>> },
    Http { additional_stop_words: Option<Vec<String>> },
}

/// The stop words a model configuration adds: none when it lists none.
pub open spec fn configured_stop_words(config: Option<ModelConfig>) -> Seq<Seq<char>> {
    match config {
        Some(ModelConfig::Local { additional_stop_words: Some(w) }) => strings_of(w@),
        Some(ModelConfig::Http { additional_stop_words: Some(w) }) => strings_of(w@),
        _ => Seq::empty(),
    }
}

} // verus!
