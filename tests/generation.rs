use tabby_codegen::{
    apply_stop, clip_prompt, CodeGeneration, CodeGenerationOptions, CompletionOptions,
    GenerationMode, GenerationSession, GenerationStep, Language, ModelConfig,
    StopConditionFactory, DEFAULT_MAX_DECODING_TOKENS, DEFAULT_MAX_INPUT_LENGTH,
    DEFAULT_SAMPLING_TEMPERATURE_BITS,
};

fn words(ws: &[&str]) -> Vec<String> {
    ws.iter().map(|w| w.to_string()).collect()
}

fn generation_with(stop: &[&str]) -> CodeGeneration {
    CodeGeneration::new(Some(ModelConfig::Local { additional_stop_words: Some(words(stop)) }))
}

fn stream_session(generation: &CodeGeneration, prompt: &str) -> GenerationSession {
    match generation.generate(prompt, CodeGenerationOptions::with_seed(7)) {
        GenerationStep::Stream { session, .. } => session,
        GenerationStep::Direct { .. } => panic!("standard mode must stream"),
    }
}

fn run(stop: &[&str], chunks: &[&str]) -> (String, usize) {
    let generation = generation_with(stop);
    let mut session = stream_session(&generation, "prompt");
    let consumed = session.push_chunks(&words(chunks));
    (session.into_text(), consumed)
}

#[test]
fn clip_keeps_trailing_characters() {
    let r = clip_prompt("abcdefgh", 3);
    assert_eq!(r, "fgh");
    assert!("abcdefgh".ends_with(r.as_str()));
    assert!(r.len() < "abcdefgh".len());
}

#[test]
fn clip_with_zero_budget_is_identity() {
    let long = "x".repeat(5000);
    assert_eq!(clip_prompt(&long, 0), long);
    assert_eq!(clip_prompt("", 0), "");
}

#[test]
fn clip_short_prompt_is_noop() {
    assert_eq!(clip_prompt("abc", 3), "abc");
    assert_eq!(clip_prompt("abc", 10), "abc");
    let once = clip_prompt("abcdefgh", 4);
    assert_eq!(clip_prompt(&once, 4), once);
}

#[test]
fn clip_respects_multibyte_characters() {
    assert_eq!(clip_prompt("añb€c", 3), "b€c");
    assert_eq!(clip_prompt("日本語テキスト", 2), "スト");
}

#[test]
fn mode_names() {
    assert_eq!(GenerationMode::from_name("next_edit_suggestion"), GenerationMode::NextEditSuggestion);
    assert_eq!(GenerationMode::from_name("standard"), GenerationMode::Standard);
    assert_eq!(GenerationMode::from_name("something_else"), GenerationMode::Standard);
    assert_eq!(GenerationMode::from_name(""), GenerationMode::Standard);
}

#[test]
fn default_options() {
    let o = CodeGenerationOptions::with_seed(42);
    assert_eq!(o.max_input_length, DEFAULT_MAX_INPUT_LENGTH);
    assert_eq!(o.max_input_length, 1024);
    assert_eq!(o.max_decoding_tokens, DEFAULT_MAX_DECODING_TOKENS);
    assert_eq!(o.max_decoding_tokens, 256);
    assert_eq!(o.sampling_temperature_bits, DEFAULT_SAMPLING_TEMPERATURE_BITS);
    assert_eq!(f32::from_bits(o.sampling_temperature_bits), 0.1f32);
    assert_eq!(o.seed, 42);
    assert!(o.language.is_none());
    assert_eq!(o.mode, GenerationMode::Standard);
}

#[test]
fn next_edit_suggestion_bypasses_stop_words() {
    let generation = generation_with(&["STOP"]);
    let mut options = CodeGenerationOptions::with_seed(3);
    options.mode = GenerationMode::NextEditSuggestion;
    options.max_input_length = 4;
    options.max_decoding_tokens = 12;
    match generation.generate("some STOP prompt", options) {
        GenerationStep::Direct { prompt, options } => {
            assert_eq!(prompt, "ompt");
            assert_eq!(
                options,
                CompletionOptions {
                    max_decoding_tokens: 12,
                    sampling_temperature_bits: DEFAULT_SAMPLING_TEMPERATURE_BITS,
                    seed: 3,
                }
            );
        }
        GenerationStep::Stream { .. } => panic!("next edit suggestion must not stream"),
    }
}

#[test]
fn standard_mode_streams_clipped_prompt() {
    let generation = generation_with(&[]);
    let mut options = CodeGenerationOptions::with_seed(9);
    options.max_input_length = 2;
    match generation.generate("abcd", options) {
        GenerationStep::Stream { prompt, options, session } => {
            assert_eq!(prompt, "cd");
            assert_eq!(options.seed, 9);
            assert!(!session.is_stopped());
            assert_eq!(session.text_so_far(), "");
        }
        GenerationStep::Direct { .. } => panic!("standard mode must stream"),
    }
}

#[test]
fn stop_word_in_single_chunk() {
    let (text, consumed) = run(&["STOP"], &["hello ", "worldSTOP", "more"]);
    assert_eq!(text, "hello world");
    assert_eq!(consumed, 2);
}

#[test]
fn stop_word_straddling_chunks() {
    let (text, consumed) = run(&["STOP"], &["hello worldS", "TOPmore"]);
    assert_eq!(text, "hello world");
    assert_eq!(consumed, 2);
}

#[test]
fn stop_word_over_three_chunks() {
    let (text, consumed) = run(&["STOP"], &["abS", "T", "OPx", "never"]);
    assert_eq!(text, "ab");
    assert_eq!(consumed, 3);
}

#[test]
fn no_stop_word_keeps_everything() {
    let (text, consumed) = run(&["STOP"], &["hello ", "world"]);
    assert_eq!(text, "hello world");
    assert_eq!(consumed, 2);
}

#[test]
fn zero_chunks_give_empty_text() {
    let (text, consumed) = run(&["STOP"], &[]);
    assert_eq!(text, "");
    assert_eq!(consumed, 0);
}

#[test]
fn earliest_stop_word_wins() {
    let (text, consumed) = run(&["ABCD", "C"], &["ABC", "D"]);
    assert_eq!(text, "AB");
    assert_eq!(consumed, 1);
    let (text, _) = run(&["xyz", "b"], &["axyzb"]);
    assert_eq!(text, "a");
}

#[test]
fn empty_stop_word_never_matches() {
    let (text, _) = run(&[""], &["abc"]);
    assert_eq!(text, "abc");
}

#[test]
fn stop_word_as_whole_output() {
    let (text, _) = run(&["STOP"], &["STOP"]);
    assert_eq!(text, "");
}

#[test]
fn multibyte_stop_word_discards_characters() {
    let (text, _) = run(&["é"], &["aé", "b"]);
    assert_eq!(text, "a");
    let (text, _) = run(&["→"], &["x€y→z"]);
    assert_eq!(text, "x€y");
}

#[test]
fn language_adds_stop_words() {
    let generation = generation_with(&["STOP"]);
    let mut options = CodeGenerationOptions::with_seed(1);
    options.language = Some(Language { name: "python".to_string(), stop_words: words(&["\ndef "]) });
    let mut session = match generation.generate("p", options) {
        GenerationStep::Stream { session, .. } => session,
        GenerationStep::Direct { .. } => panic!("standard mode must stream"),
    };
    assert!(!session.push_chunk("x = 1"));
    assert!(session.push_chunk("\ndef f():"));
    assert_eq!(session.into_text(), "x = 1");
}

#[test]
fn http_config_stop_words() {
    let generation =
        CodeGeneration::new(Some(ModelConfig::Http { additional_stop_words: Some(words(&["<END>"])) }));
    let mut session = stream_session(&generation, "p");
    assert!(session.push_chunk("done<END>tail"));
    assert_eq!(session.into_text(), "done");
}

#[test]
fn missing_config_has_no_stop_words() {
    for generation in [
        CodeGeneration::new(None),
        CodeGeneration::new(Some(ModelConfig::Local { additional_stop_words: None })),
        CodeGeneration::new(Some(ModelConfig::Http { additional_stop_words: None })),
    ] {
        let mut session = stream_session(&generation, "p");
        assert!(!session.push_chunk("STOP <END>"));
        assert_eq!(session.into_text(), "STOP <END>");
    }
}

#[test]
fn stopped_session_takes_no_more_chunks() {
    let generation = generation_with(&["STOP"]);
    let mut session = stream_session(&generation, "p");
    assert!(!session.push_chunk("ab"));
    assert!(session.push_chunk("cSTOPd"));
    assert!(session.is_stopped());
    assert!(session.push_chunk("more"));
    assert_eq!(session.push_chunks(&words(&["x", "y"])), 0);
    assert_eq!(session.into_text(), "abc");
}

#[test]
fn apply_stop_clamps_to_empty() {
    assert_eq!(apply_stop("abc", true, 10), "");
    assert_eq!(apply_stop("abc", true, 3), "");
    assert_eq!(apply_stop("abc", true, usize::MAX), "");
}

#[test]
fn apply_stop_cuts_characters() {
    assert_eq!(apply_stop("hello worldSTOP", true, 4), "hello world");
    assert_eq!(apply_stop("aé€", true, 1), "aé");
    assert_eq!(apply_stop("abc", true, 0), "abc");
    assert_eq!(apply_stop("abc", false, 2), "abc");
}

#[test]
fn evaluator_reports_discard_length() {
    let factory = StopConditionFactory::with_stop_words(words(&["STOP"]));
    let mut condition = factory.create("", &words(&["END"]));
    assert_eq!(condition.should_stop("hello "), (false, 0));
    assert_eq!(condition.should_stop("worldS"), (false, 0));
    assert_eq!(condition.should_stop("TOPmore"), (true, 8));
    let mut other = factory.create("", &Vec::new());
    assert_eq!(other.should_stop("xxENDyy"), (false, 0));
    let mut third = factory.create("", &words(&["END"]));
    assert_eq!(third.should_stop("xxENDyy"), (true, 5));
}

#[test]
fn evaluator_sees_prompt_context() {
    let factory = StopConditionFactory::with_stop_words(words(&["STOP"]));
    let mut straddling = factory.create("xxST", &Vec::new());
    assert_eq!(straddling.should_stop("OPab"), (true, 6));
    let mut inside_prompt = factory.create("a STOP b", &Vec::new());
    assert_eq!(inside_prompt.should_stop("more"), (false, 0));
    assert_eq!(inside_prompt.should_stop("STOP"), (true, 4));
}

fn run_with_prompt(prompt: &str, stop: &[&str], chunks: &[&str]) -> (String, usize) {
    let generation = generation_with(stop);
    let mut session = stream_session(&generation, prompt);
    let consumed = session.push_chunks(&words(chunks));
    (session.into_text(), consumed)
}

#[test]
fn stop_word_begun_in_prompt_clamps_to_empty() {
    let (text, consumed) = run_with_prompt("def fST", &["STOP"], &["OPabc", "never"]);
    assert_eq!(text, "");
    assert_eq!(consumed, 1);
}

#[test]
fn stop_word_inside_prompt_is_ignored() {
    let (text, consumed) = run_with_prompt("STOP", &["STOP"], &["ab", "cd"]);
    assert_eq!(text, "abcd");
    assert_eq!(consumed, 2);
}

#[test]
fn prompt_context_follows_clipping() {
    let generation = generation_with(&["STOP"]);
    let mut options = CodeGenerationOptions::with_seed(5);
    options.max_input_length = 2;
    let mut session = match generation.generate("xxxST", options) {
        GenerationStep::Stream { prompt, session, .. } => {
            assert_eq!(prompt, "ST");
            session
        }
        GenerationStep::Direct { .. } => panic!("standard mode must stream"),
    };
    assert!(session.push_chunk("OPz"));
    assert_eq!(session.into_text(), "");
}
