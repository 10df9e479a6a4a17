use vstd::prelude::*;

use crate::text::chars_of;

verus! {

/// Word `w` is non-empty and stands in `t` starting at index `i`.
pub open spec fn occurs_at(t: Seq<char>, w: Seq<char>, i: int) -> bool {
    &&& w.len() > 0
    &&& 0 <= i
    &&& i + w.len() <= t.len()
    &&& t.subrange(i, i + w.len()) == w
}

/// Some word of `words` starts in `t` at index `i` and ends past index
/// `start`, where the generated part of `t` begins.
pub open spec fn stop_at(t: Seq<char>, words: Seq<Seq<char>>, start: int, i: int) -> bool {
    exists|k: int|
        0 <= k < words.len() && #[trigger] occurs_at(t, words[k], i) && i + words[k].len() > start
}

/// Some word of `words` occurs in `t` and ends past index `start`.
pub open spec fn has_stop(t: Seq<char>, words: Seq<Seq<char>>, start: int) -> bool {
    exists|i: int| #[trigger] stop_at(t, words, start, i)
}

/// `i` is where the earliest such occurrence starts.
pub open spec fn is_first_stop(t: Seq<char>, words: Seq<Seq<char>>, start: int, i: int) -> bool {
    &&& stop_at(t, words, start, i)
    &&& forall|j: int| 0 <= j < i ==> !#[trigger] stop_at(t, words, start, j)
}

/// The start of the earliest occurrence of a word of `words` in `t` that
/// ends past `start` (meaningful when `has_stop(t, words, start)`).
pub open spec fn first_stop(t: Seq<char>, words: Seq<Seq<char>>, start: int) -> int {
    choose|i: int| is_first_stop(t, words, start, i)
}

/// How many trailing characters of `t` must go so that `t` ends just before
/// that earliest occurrence; zero when there is none.
pub open spec fn discard_len(t: Seq<char>, words: Seq<Seq<char>>, start: int) -> int {
    if has_stop(t, words, start) {
        t.len() - first_stop(t, words, start)
    } else {
        0
    }
}

/// Two earliest occurrences are the same index.
pub proof fn lemma_first_stop_unique(
    t: Seq<char>,
    words: Seq<Seq<char>>,
    start: int,
    i: int,
    j: int,
)
    requires
        is_first_stop(t, words, start, i),
        is_first_stop(t, words, start, j),
    ensures
        i == j,
{
    if i < j {
        assert(!stop_at(t, words, start, i));
    } else if j < i {
        assert(!stop_at(t, words, start, j));
    }
}

/// Below any occurrence at `i` there is an earliest one.
proof fn lemma_first_stop_below(t: Seq<char>, words: Seq<Seq<char>>, start: int, i: int)
    requires
        stop_at(t, words, start, i),
    ensures
        is_first_stop(t, words, start, first_stop(t, words, start)),
    decreases i,
{
    if exists|j: int| 0 <= j < i && #[trigger] stop_at(t, words, start, j) {
        let j = choose|j: int| 0 <= j < i && #[trigger] stop_at(t, words, start, j);
        let k = choose|k: int|
            0 <= k < words.len() && #[trigger] occurs_at(t, words[k], j) && j + words[k].len()
                > start;
        lemma_first_stop_below(t, words, start, j);
    } else {
        assert(is_first_stop(t, words, start, i));
    }
}

/// When a stop word occurs in `t` past `start`, `first_stop` is where the
/// earliest one starts, and dropping `discard_len` characters leaves what
/// precedes it.
pub proof fn lemma_first_stop_exists_in(t: Seq<char>, words: Seq<Seq<char>>, start: int)
    requires
        has_stop(t, words, start),
    ensures
        is_first_stop(t, words, start, first_stop(t, words, start)),
        0 <= first_stop(t, words, start) < t.len(),
        discard_len(t, words, start) == t.len() - first_stop(t, words, start),
{
    let i = choose|i: int| #[trigger] stop_at(t, words, start, i);
    lemma_first_stop_below(t, words, start, i);
    let f = first_stop(t, words, start);
    let k = choose|k: int|
        0 <= k < words.len() && #[trigger] occurs_at(t, words[k], f) && f + words[k].len() > start;
}

/// Where an earliest occurrence is known, `first_stop` names it.
pub proof fn lemma_first_stop_is(t: Seq<char>, words: Seq<Seq<char>>, start: int, i: int)
    requires
        is_first_stop(t, words, start, i),
    ensures
        has_stop(t, words, start),
        first_stop(t, words, start) == i,
        discard_len(t, words, start) == t.len() - i,
{
    assert(stop_at(t, words, start, i));
    lemma_first_stop_unique(t, words, start, i, first_stop(t, words, start));
}

/// The words as character sequences.
pub open spec fn words_of(v: Seq<Vec<char>>) -> Seq<Seq<char>> {
    v.map_values(|w: Vec<char>| w@)
}

/// The strings as character sequences.
pub open spec fn strings_of(v: Seq<String>) -> Seq<Seq<char>> {
    v.map_values(|w: String| w@)
}

/// Whether `w` is non-empty and stands in `t` starting at `i`.
fn matches_at(t: &Vec<char>, w: &Vec<char>, i: usize) -> (r: bool)
    requires
        i <= t@.len(),
    ensures
        r == occurs_at(t@, w@, i as int),
{
    if w.len() == 0 || w.len() > t.len() - i {
        return false;
    }
    let mut j: usize = 0;
    while j < w.len()
        invariant
            i <= t@.len() <= usize::MAX,
            0 < w@.len() <= t@.len() - i,
            j <= w@.len(),
            forall|m: int| 0 <= m < j ==> t@[i + m] == w@[m],
        decreases w@.len() - j,
    {
        if t[i + j] != w[j] {
            assert(t@.subrange(i as int, i + w@.len())[j as int] != w@[j as int]);
            return false;
        }
        j = j + 1;
    }
    assert(t@.subrange(i as int, i + w@.len()) =~= w@);
    true
}

/// Whether some word of `words` starts in `t` at `i` and ends past `start`.
fn stop_word_at(t: &Vec<char>, words: &Vec<Vec<char>>, start: usize, i: usize) -> (r: bool)
    requires
        i <= t@.len(),
    ensures
        r == stop_at(t@, words_of(words@), start as int, i as int),
{
    let mut k: usize = 0;
    while k < words.len()
        invariant
            k <= words@.len(),
            i <= t@.len(),
            forall|m: int|
                0 <= m < k ==> !(#[trigger] occurs_at(t@, words_of(words@)[m], i as int) && i
                    + words_of(words@)[m].len() > start),
        decreases words@.len() - k,
    {
        if matches_at(t, &words[k], i) && (start < i || words[k].len() > start - i) {
            assert(occurs_at(t@, words_of(words@)[k as int], i as int));
            return true;
        }
        proof {
            if occurs_at(t@, words_of(words@)[k as int], i as int) {
                assert(words_of(words@)[k as int] == words@[k as int]@);
            }
        }
        k = k + 1;
    }
    false
}

/// Per-request evaluator: the prompt and the generated text seen so far,
/// checked after every new chunk for a stop word that ends in the generated
/// part (it may begin in the prompt).
pub struct StopCondition {
    stop_words: Vec<Vec<char>>,
    text: Vec<char>,
    start: usize,
}

impl StopCondition {
    /// The stop words this evaluator looks for.
    pub closed spec fn words(&self) -> Seq<Seq<char>> {
        words_of(self.stop_words@)
    }

    /// The prompt that precedes the generated text.
    pub closed spec fn context(&self) -> Seq<char> {
        self.text@.subrange(0, self.start as int)
    }

    /// The generated text handed to it so far.
    pub closed spec fn seen(&self) -> Seq<char> {
        self.text@.subrange(self.start as int, self.text@.len() as int)
    }

    /// The prompt is a prefix of the text held.
    pub closed spec fn wf(&self) -> bool {
        self.start <= self.text@.len()
    }

    /// Appends `new_text` to the generated text and reports whether a stop
    /// word now occurs in prompt and generated text together, ending in the
    /// generated part, with the number of trailing characters to drop so that
    /// the text ends just before the earliest such occurrence. That number
    /// exceeds the generated length when the occurrence begins in the prompt.
    pub fn should_stop(&mut self, new_text: &str) -> (r: (bool, usize))
        requires
            old(self).wf(),
        ensures
            final(self).wf(),
            final(self).words() == old(self).words(),
            final(self).context() == old(self).context(),
            final(self).seen() == old(self).seen() + new_text@,
            r.0 == has_stop(
                final(self).context() + final(self).seen(),
                final(self).words(),
                final(self).context().len() as int,
            ),
            r.1 == discard_len(
                final(self).context() + final(self).seen(),
                final(self).words(),
                final(self).context().len() as int,
            ),
    {
        let cs = chars_of(new_text);
        let mut j: usize = 0;
        while j < cs.len()
            invariant
                j <= cs@.len(),
                self.stop_words == old(self).stop_words,
                self.start == old(self).start,
                self.text@ == old(self).text@ + cs@.subrange(0, j as int),
            decreases cs@.len() - j,
        {
            self.text.push(cs[j]);
            assert(cs@.subrange(0, j + 1) == cs@.subrange(0, j as int).push(cs@[j as int]));
            j = j + 1;
        }
        assert(cs@.subrange(0, cs@.len() as int) =~= cs@);
        assert(self.context() =~= old(self).context());
        assert(self.seen() =~= old(self).seen() + new_text@);
        assert(self.context() + self.seen() =~= self.text@);
        let n = self.text.len();
        let start = self.start;
        let mut i: usize = 0;
        while i < n
            invariant
                i <= n,
                n == self.text@.len(),
                start == self.start,
                self.stop_words == old(self).stop_words,
                self.start == old(self).start,
                self.text@ == old(self).text@ + new_text@,
                self.context() == old(self).context(),
                self.seen() == old(self).seen() + new_text@,
                self.context() + self.seen() == self.text@,
                forall|m: int|
                    0 <= m < i ==> !#[trigger] stop_at(self.text@, self.words(), start as int, m),
            decreases n - i,
        {
            if stop_word_at(&self.text, &self.stop_words, start, i) {
                proof {
                    lemma_first_stop_is(self.text@, self.words(), start as int, i as int);
                }
                return (true, n - i);
            }
            i = i + 1;
        }
        assert forall|m: int| !#[trigger] stop_at(self.text@, self.words(), start as int, m) by {
            if 0 <= m < i {
            } else if stop_at(self.text@, self.words(), start as int, m) {
                let k = choose|k: int|
                    0 <= k < self.words().len() && #[trigger] occurs_at(
                        self.text@,
                        self.words()[k],
                        m,
                    ) && m + self.words()[k].len() > start;
                assert(occurs_at(self.text@, self.words()[k], m));
            }
        }
        (false, 0)
    }
}

/// The stop words configured for a model, shared read-only by every request.
pub struct StopConditionFactory {
    stop_words: Vec<String>,
}

impl StopConditionFactory {
    /// The configured stop words.
    pub closed spec fn words(&self) -> Seq<Seq<char>> {
        strings_of(self.stop_words@)
    }

    /// A factory for the given stop words.
    pub fn with_stop_words(stop_words: Vec<String>) -> (r: Self)
        ensures
            r.words() == strings_of(stop_words@),
    {
        StopConditionFactory { stop_words }
    }

    /// A fresh evaluator for a request on `prompt` that looks for the
    /// configured stop words followed by `extra`, and has seen no generated
    /// text yet.
    pub fn create(&self, prompt: &str, extra: &Vec<String>) -> (r: StopCondition)
        ensures
            r.wf(),
            r.words() == self.words() + strings_of(extra@),
            r.context() == prompt@,
            r.seen() == Seq::<char>::empty(),
    {
        let mut stop_words: Vec<Vec<char>> = Vec::new();
        let mut k: usize = 0;
        while k < self.stop_words.len()
            invariant
                k <= self.stop_words@.len(),
                stop_words@.len() == k,
                words_of(stop_words@) == strings_of(self.stop_words@).subrange(0, k as int),
            decreases self.stop_words@.len() - k,
        {
            let w = chars_of(self.stop_words[k].as_str());
            assert(w@ == strings_of(self.stop_words@)[k as int]);
            let ghost before = stop_words@;
            stop_words.push(w);
            assert(stop_words@ == before.push(w));
            assert(words_of(stop_words@) =~= words_of(before).push(w@));
            assert(words_of(stop_words@) =~= strings_of(self.stop_words@).subrange(0, k + 1));
            k = k + 1;
        }
        assert(strings_of(self.stop_words@).subrange(0, k as int) =~= self.words());
        let mut e: usize = 0;
        while e < extra.len()
            invariant
                e <= extra@.len(),
                stop_words@.len() == self.stop_words@.len() + e,
                words_of(stop_words@) == self.words() + strings_of(extra@).subrange(0, e as int),
            decreases extra@.len() - e,
        {
            let w = chars_of(extra[e].as_str());
            assert(w@ == strings_of(extra@)[e as int]);
            let ghost before = stop_words@;
            stop_words.push(w);
            assert(stop_words@ == before.push(w));
            assert(words_of(stop_words@) =~= words_of(before).push(w@));
            assert(words_of(stop_words@) =~= self.words() + strings_of(extra@).subrange(0, e + 1));
            e = e + 1;
        }
        assert(strings_of(extra@).subrange(0, e as int) =~= strings_of(extra@));
        let text = chars_of(prompt);
        let start = text.len();
        let r = StopCondition { stop_words, text, start };
        assert(r.context() =~= prompt@);
        assert(r.seen() =~= Seq::<char>::empty());
        r
    }
}

} // verus!
