//! Orchestration of code generation: prompt clipping, mode dispatch and
//! incremental stop-word truncation over a streaming text producer.

mod clip;
mod generation;
mod options;
mod stop_condition;
mod text;

pub use clip::{clip_prompt, clipped, lemma_clip_idempotent, lemma_clip_is_suffix};
pub use generation::{
    after_chunk, apply_stop, cut, joined, lemma_chunking_irrelevant, run_chunks, CodeGeneration,
    GenerationSession, GenerationStep,
};
pub use options::{
    configured_stop_words, language_stop_words, mode_of, CodeGenerationOptions,
    CompletionOptions, GenerationMode, Language, ModelConfig, DEFAULT_MAX_DECODING_TOKENS,
    DEFAULT_MAX_INPUT_LENGTH, DEFAULT_SAMPLING_TEMPERATURE_BITS,
};
pub use stop_condition::{
    discard_len, first_stop, has_stop, is_first_stop, lemma_first_stop_exists_in,
    lemma_first_stop_is, lemma_first_stop_unique, occurs_at, stop_at, strings_of, words_of,
    StopCondition, StopConditionFactory,
};
