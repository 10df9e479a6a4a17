use vstd::prelude::*;

use crate::text::{chars_of, string_of_range};

verus! {

/// The prompt kept under an input budget of `max` characters: the last `max`
/// characters when the prompt is longer, the whole prompt otherwise. A budget
/// of zero keeps every prompt whole.
pub open spec fn clipped(p: Seq<char>, max: nat) -> Seq<char> {
    if max > 0 && p.len() > max {
        p.subrange(p.len() - max, p.len() as int)
    } else {
        p
    }
}

/// Clips `prompt` to its trailing `max_input_length` characters, dropping
/// the earliest ones; a budget of zero means no clipping.
pub fn clip_prompt(prompt: &str, max_input_length: usize) -> (r: String)
    ensures
        r@ == clipped(prompt@, max_input_length as nat),
        max_input_length > 0 && prompt@.len() > max_input_length ==> {
            &&& r@.len() == max_input_length
            &&& r@ =~= prompt@.subrange(prompt@.len() - max_input_length, prompt@.len() as int)
        },
        max_input_length == 0 || prompt@.len() <= max_input_length ==> r@ == prompt@,
{
    let cs = chars_of(prompt);
    let n = cs.len();
    if max_input_length > 0 && n > max_input_length {
        string_of_range(&cs, n - max_input_length, n)
    } else {
        string_of_range(&cs, 0, n)
    }
}

/// A clipped prompt is a suffix of the original; when clipping removed
/// anything, it is a strict suffix.
pub proof fn lemma_clip_is_suffix(p: Seq<char>, max: nat)
    ensures
        clipped(p, max).len() <= p.len(),
        clipped(p, max) == p.subrange(p.len() - clipped(p, max).len(), p.len() as int),
        max > 0 && p.len() > max ==> clipped(p, max).len() == max && clipped(p, max).len() < p.len(),
{
    assert(p.subrange(0, p.len() as int) =~= p);
}

/// Clipping a prompt that already fits the budget changes nothing, so
/// clipping twice gives what clipping once gave.
pub proof fn lemma_clip_idempotent(p: Seq<char>, max: nat)
    ensures
        p.len() <= max ==> clipped(p, max) == p,
        clipped(clipped(p, max), max) == clipped(p, max),
{
}

} // verus!
