use vstd::prelude::*;

use crate::clip::{clip_prompt, clipped};
use crate::options::{
    configured_stop_words, language_stop_words, CodeGenerationOptions, CompletionOptions,
    GenerationMode, ModelConfig,
};
use crate::stop_condition::{
    first_stop, has_stop, is_first_stop, lemma_first_stop_exists_in, lemma_first_stop_unique,
    occurs_at, stop_at, strings_of, StopCondition, StopConditionFactory,
};
use crate::text::{chars_of, concat, string_of_range};

verus! {

/// The text kept once a stop has been reported: `t` without its last
/// `discard` characters, or nothing when it has fewer.
pub open spec fn cut(t: Seq<char>, discard: nat) -> Seq<char> {
    if discard <= t.len() {
        t.subrange(0, t.len() - discard)
    } else {
        Seq::empty()
    }
}

/// The generated text `t` of a request on prompt `p` once a chunk has been
/// appended: cut before the earliest stop word that ends in it (down to
/// nothing when that word begins in the prompt), whole when there is none.
pub open spec fn after_chunk(p: Seq<char>, t: Seq<char>, words: Seq<Seq<char>>) -> Seq<char> {
    let full = p + t;
    if has_stop(full, words, p.len() as int) {
        cut(t, (full.len() - first_stop(full, words, p.len() as int)) as nat)
    } else {
        t
    }
}

/// Consuming `chunks` in order, for a request on prompt `p`, on top of the
/// generated text `acc`: the resulting text, how many chunks were taken, and
/// whether a stop was met. No chunk after the one that completes a stop word
/// is taken.
pub open spec fn run_chunks(
    words: Seq<Seq<char>>,
    p: Seq<char>,
    acc: Seq<char>,
    chunks: Seq<Seq<char>>,
) -> (Seq<char>, nat, bool)
    decreases chunks.len(),
{
    if chunks.len() == 0 {
        (acc, 0, false)
    } else {
        let t = acc + chunks[0];
        if has_stop(p + t, words, p.len() as int) {
            (after_chunk(p, t, words), 1, true)
        } else {
            let r = run_chunks(words, p, t, chunks.drop_first());
            (r.0, r.1 + 1, r.2)
        }
    }
}

/// All of `chunks`, one after another.
pub open spec fn joined(chunks: Seq<Seq<char>>) -> Seq<char>
    decreases chunks.len(),
{
    if chunks.len() == 0 {
        Seq::empty()
    } else {
        chunks[0] + joined(chunks.drop_first())
    }
}

/// With a single stop word, once the generated text holds it, appending more
/// text keeps the same cut.
proof fn lemma_first_stop_kept(w: Seq<char>, p: Seq<char>, t: Seq<char>, r: Seq<char>)
    requires
        has_stop(p + t, seq![w], p.len() as int),
    ensures
        has_stop(p + (t + r), seq![w], p.len() as int),
        after_chunk(p, t + r, seq![w]) == after_chunk(p, t, seq![w]),
{
    let words = seq![w];
    let b = p.len() as int;
    let full = p + t;
    let fr = p + (t + r);
    assert(fr =~= full + r);
    lemma_first_stop_exists_in(full, words, b);
    let f = first_stop(full, words, b);
    assert(occurs_at(full, w, f) && f + w.len() > b) by {
        let k = choose|k: int|
            0 <= k < words.len() && #[trigger] occurs_at(full, words[k], f) && f + words[k].len()
                > b;
        assert(k == 0);
    }
    assert(fr.subrange(f, f + w.len()) =~= full.subrange(f, f + w.len()));
    assert(occurs_at(fr, words[0], f));
    assert(stop_at(fr, words, b, f));
    assert forall|j: int| 0 <= j < f implies !#[trigger] stop_at(fr, words, b, j) by {
        if stop_at(fr, words, b, j) {
            let k = choose|k: int|
                0 <= k < words.len() && #[trigger] occurs_at(fr, words[k], j) && j
                    + words[k].len() > b;
            assert(k == 0);
            assert(fr.subrange(j, j + w.len()) =~= full.subrange(j, j + w.len()));
            assert(occurs_at(full, words[0], j));
            assert(stop_at(full, words, b, j));
        }
    }
    assert(is_first_stop(fr, words, b, f));
    lemma_first_stop_exists_in(fr, words, b);
    lemma_first_stop_unique(fr, words, b, f, first_stop(fr, words, b));
    if f >= b {
        assert((t + r).subrange(0, f - b) =~= t.subrange(0, f - b));
    }
}

/// With a single stop word, how the stream is cut into chunks does not
/// matter: the text kept is the whole output cut before the earliest
/// occurrence of the word, even where the word straddles two chunks.
pub proof fn lemma_chunking_irrelevant(
    w: Seq<char>,
    p: Seq<char>,
    acc: Seq<char>,
    chunks: Seq<Seq<char>>,
)
    requires
        !has_stop(p + acc, seq![w], p.len() as int),
    ensures
        run_chunks(seq![w], p, acc, chunks).0 == after_chunk(p, acc + joined(chunks), seq![w]),
    decreases chunks.len(),
{
    let words = seq![w];
    if chunks.len() == 0 {
        assert(acc + joined(chunks) =~= acc);
    } else {
        let t = acc + chunks[0];
        let rest = chunks.drop_first();
        assert(acc + joined(chunks) =~= t + joined(rest));
        if has_stop(p + t, words, p.len() as int) {
            lemma_first_stop_kept(w, p, t, joined(rest));
        } else {
            lemma_chunking_irrelevant(w, p, t, rest);
        }
    }
}

/// The text kept after the evaluator answered `(stopped, discard_length)`:
/// unchanged when it did not stop, else shortened by `discard_length`
/// characters, down to nothing when the text is shorter than that.
pub fn apply_stop(text: &str, stopped: bool, discard_length: usize) -> (r: String)
    ensures
        !stopped ==> r@ == text@,
        stopped ==> r@ == cut(text@, discard_length as nat),
        stopped && discard_length >= text@.len() ==> r@.len() == 0,
{
    let cs = chars_of(text);
    if !stopped {
        string_of_range(&cs, 0, cs.len())
    } else {
        let keep: usize = if discard_length <= cs.len() {
            cs.len() - discard_length
        } else {
            0
        };
        string_of_range(&cs, 0, keep)
    }
}

/// The state of one streamed request: its evaluator, the text kept so far,
/// and whether a stop has been met.
pub struct GenerationSession {
    stop_condition: StopCondition,
    text: String,
    stopped: bool,
}

impl GenerationSession {
    /// The stop words this request looks for.
    pub closed spec fn words(&self) -> Seq<Seq<char>> {
        self.stop_condition.words()
    }

    /// The text kept so far.
    pub closed spec fn text(&self) -> Seq<char> {
        self.text@
    }

    /// Whether a stop has been met; no chunk is taken after that.
    pub closed spec fn stopped(&self) -> bool {
        self.stopped
    }

    /// The prompt of the request.
    pub closed spec fn prompt(&self) -> Seq<char> {
        self.stop_condition.context()
    }

    /// Until a stop, the evaluator has seen exactly the text kept.
    pub closed spec fn wf(&self) -> bool {
        &&& self.stop_condition.wf()
        &&& !self.stopped ==> self.stop_condition.seen() == self.text@
    }

    fn start(stop_condition: StopCondition) -> (r: Self)
        requires
            stop_condition.wf(),
            stop_condition.seen() == Seq::<char>::empty(),
        ensures
            r.wf(),
            r.words() == stop_condition.words(),
            r.prompt() == stop_condition.context(),
            r.text() == Seq::<char>::empty(),
            !r.stopped(),
    {
        GenerationSession { stop_condition, text: String::new(), stopped: false }
    }

    /// Whether a stop has been met.
    pub fn is_stopped(&self) -> (r: bool)
        ensures
            r == self.stopped(),
    {
        self.stopped
    }

    /// The text kept so far.
    pub fn text_so_far(&self) -> (r: &String)
        ensures
            r@ == self.text(),
    {
        &self.text
    }

    /// The final text of the request.
    pub fn into_text(self) -> (r: String)
        ensures
            r@ == self.text(),
    {
        self.text
    }

    /// Takes the next chunk of the stream. It is appended to the text and the
    /// evaluator is asked about it; on a stop the text is cut before the
    /// earliest stop word. Returns whether the stream must be left now. Once
    /// stopped, a session takes no more chunks.
    pub fn push_chunk(&mut self, chunk: &str) -> (stop: bool)
        requires
            old(self).wf(),
        ensures
            final(self).wf(),
            final(self).words() == old(self).words(),
            final(self).prompt() == old(self).prompt(),
            stop == final(self).stopped(),
            old(self).stopped() ==> final(self).stopped() && final(self).text() == old(self).text(),
            !old(self).stopped() ==> {
                let p = old(self).prompt();
                let t = old(self).text() + chunk@;
                &&& final(self).stopped() == has_stop(p + t, old(self).words(), p.len() as int)
                &&& final(self).text() == after_chunk(p, t, old(self).words())
            },
    {
        if self.stopped {
            return true;
        }
        let (should_stop, stop_length) = self.stop_condition.should_stop(chunk);
        let joined = concat(self.text.as_str(), chunk);
        let kept = apply_stop(joined.as_str(), should_stop, stop_length);
        proof {
            let p = self.stop_condition.context();
            let t = self.text@ + chunk@;
            if should_stop {
                lemma_first_stop_exists_in(p + t, self.words(), p.len() as int);
            }
        }
        self.text = kept;
        self.stopped = should_stop;
        should_stop
    }

    /// Feeds `chunks` in order until a stop is met or they run out, and
    /// returns how many were taken: none after the one that completed a stop
    /// word, none at all once stopped.
    pub fn push_chunks(&mut self, chunks: &Vec<String>) -> (consumed: usize)
        requires
            old(self).wf(),
        ensures
            final(self).wf(),
            final(self).words() == old(self).words(),
            final(self).prompt() == old(self).prompt(),
            consumed <= chunks@.len(),
            old(self).stopped() ==> consumed == 0 && final(self).stopped() && final(self).text()
                == old(self).text(),
            !old(self).stopped() ==> (final(self).text(), consumed as nat, final(self).stopped())
                == run_chunks(
                old(self).words(),
                old(self).prompt(),
                old(self).text(),
                strings_of(chunks@),
            ),
    {
        if self.stopped {
            return 0;
        }
        let ghost all = strings_of(chunks@);
        assert(all.subrange(0, all.len() as int) =~= all);
        let mut i: usize = 0;
        while i < chunks.len()
            invariant
                self.wf(),
                !self.stopped(),
                !old(self).stopped(),
                self.words() == old(self).words(),
                self.prompt() == old(self).prompt(),
                i <= chunks@.len(),
                all == strings_of(chunks@),
                run_chunks(self.words(), self.prompt(), old(self).text(), all) == ({
                    let r = run_chunks(
                        self.words(),
                        self.prompt(),
                        self.text(),
                        all.subrange(i as int, all.len() as int),
                    );
                    (r.0, (r.1 + i) as nat, r.2)
                }),
            decreases chunks@.len() - i,
        {
            let ghost rest = all.subrange(i as int, all.len() as int);
            assert(rest.drop_first() =~= all.subrange(i + 1, all.len() as int));
            let stop = self.push_chunk(chunks[i].as_str());
            i = i + 1;
            if stop {
                return i;
            }
        }
        assert(all.subrange(i as int, all.len() as int).len() == 0);
        i
    }
}

/// What a request asks of the engine, once its prompt has been clipped.
pub enum GenerationStep {
    /// Call the engine's whole-result generation and return its output
    /// unmodified; no stop condition is involved.
    Direct { prompt: String, options: CompletionOptions },
    /// Call the engine's streamed generation and feed each chunk, in order, to
    /// `session` until it reports a stop or the stream ends; the request's
    /// text is then the session's text.
    Stream { prompt: String, options: CompletionOptions, session: GenerationSession },
}

/// Serves code generation requests: holds the stop words configured for the
/// model and turns each request into the engine call it needs.
pub struct CodeGeneration {
    stop_condition_factory: StopConditionFactory,
}

impl CodeGeneration {
    /// The stop words configured for the model.
    pub closed spec fn stop_words(&self) -> Seq<Seq<char>> {
        self.stop_condition_factory.words()
    }

    /// Takes the stop words that the model's configuration adds, if any.
    pub fn new(config: Option<ModelConfig>) -> (r: Self)
        ensures
            r.stop_words() == configured_stop_words(config),
    {
        let additional_stop_words: Vec<String> = match config {
            Some(ModelConfig::Local { additional_stop_words: Some(w) }) => w,
            Some(ModelConfig::Http { additional_stop_words: Some(w) }) => w,
            _ => Vec::new(),
        };
        let stop_condition_factory = StopConditionFactory::with_stop_words(additional_stop_words);
        CodeGeneration { stop_condition_factory }
    }

    /// Plans a request: the prompt is clipped to the input budget, and the
    /// next-edit-suggestion mode goes to the engine's whole-result call while
    /// every other request is streamed through a fresh session that looks for
    /// the model's stop words and those of the request's language.
    pub fn generate(&self, prompt: &str, options: CodeGenerationOptions) -> (r: GenerationStep)
        ensures
            match r {
                GenerationStep::Direct { prompt: p, options: o } => {
                    &&& options.mode == GenerationMode::NextEditSuggestion
                    &&& p@ == clipped(prompt@, options.max_input_length as nat)
                    &&& o == CompletionOptions::spec_from(&options)
                },
                GenerationStep::Stream { prompt: p, options: o, session } => {
                    &&& options.mode != GenerationMode::NextEditSuggestion
                    &&& p@ == clipped(prompt@, options.max_input_length as nat)
                    &&& o == CompletionOptions::spec_from(&options)
                    &&& session.wf()
                    &&& session.prompt() == p@
                    &&& !session.stopped()
                    &&& session.text() == Seq::<char>::empty()
                    &&& session.words() == self.stop_words() + language_stop_words(
                        options.language,
                    )
                },
            },
    {
        let clipped_prompt = clip_prompt(prompt, options.max_input_length);
        let completion_options = CompletionOptions::from_options(&options);
        match options.mode {
            GenerationMode::NextEditSuggestion => GenerationStep::Direct {
                prompt: clipped_prompt,
                options: completion_options,
            },
            GenerationMode::Standard => {
                let extra: Vec<String> = match options.language {
                    Some(l) => l.stop_words,
                    None => Vec::new(),
                };
                proof {
                    assert(strings_of(extra@) =~= language_stop_words(options.language));
                }
                let stop_condition = self.stop_condition_factory.create(
                    clipped_prompt.as_str(),
                    &extra,
                );
                GenerationStep::Stream {
                    prompt: clipped_prompt,
                    options: completion_options,
                    session: GenerationSession::start(stop_condition),
                }
            },
        }
    }
}

} // verus!
