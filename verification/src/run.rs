//! Runs of calls into a language, and what holds of every run: the words of
//! a run are fixed by the language at its start and by the calls.

use crate::lang::{compound_draw, language_of, word_draw, LangView};
use crate::render::{collapse, lemma_collapse_idempotent, no_triple};
use crate::word::{word_text, WordView};
use vstd::prelude::*;

verus! {

/// A call into a language: to draw a word, or to compound two of the words
/// that the run has given so far, named by their places in the run.
pub enum Call {
    Word,
    Compound { left: nat, right: nat },
}

/// Whether the calls name only words that the run has given before them.
pub open spec fn calls_in_order(calls: Seq<Call>) -> bool {
    forall|i: int|
        0 <= i < calls.len() ==> match #[trigger] calls[i] {
            Call::Word => true,
            Call::Compound { left, right } => left < i && right < i,
        }
}

/// The word that a call gives after the words so far, and the language
/// after the call.
pub open spec fn after_call(lang: LangView, words: Seq<WordView>, call: Call) -> (
    WordView,
    LangView,
) {
    match call {
        Call::Word => {
            let (word, stream) = word_draw(lang, lang.stream);
            (word, lang.at(stream))
        },
        Call::Compound { left, right } => {
            let (word, stream) = compound_draw(lang.stream, words[left as int], words[right as int]);
            (word, lang.at(stream))
        },
    }
}

/// The words that a run of calls gives, in order, and the language after
/// the run.
pub open spec fn after_calls(lang: LangView, calls: Seq<Call>) -> (Seq<WordView>, LangView)
    decreases calls.len(),
{
    if calls.len() == 0 {
        (Seq::empty(), lang)
    } else {
        let (words, before) = after_calls(lang, calls.drop_last());
        let (word, after) = after_call(before, words, calls.last());
        (words.push(word), after)
    }
}

/// The texts of the words of a run, as they are rendered.
pub open spec fn rendered(words: Seq<WordView>) -> Seq<Seq<char>> {
    Seq::new(words.len(), |i: int| collapse(word_text(words[i].parts)))
}

/// Two languages of one seed, taken through the same calls, give the same
/// words and the same rendered texts, and are the same language afterwards.
pub proof fn lemma_same_seed_same_words(seed: u64, first: LangView, second: LangView, calls: Seq<Call>)
    requires
        first == language_of(seed),
        second == language_of(seed),
    ensures
        after_calls(first, calls).0 == after_calls(second, calls).0,
        rendered(after_calls(first, calls).0) == rendered(after_calls(second, calls).0),
        after_calls(first, calls).1 == after_calls(second, calls).1,
{
}

/// A run gives one word for each call and changes nothing of the language
/// but the place in its stream.
pub proof fn lemma_run_keeps_language(lang: LangView, calls: Seq<Call>)
    ensures
        after_calls(lang, calls).0.len() == calls.len(),
        after_calls(lang, calls).1 == lang.at(after_calls(lang, calls).1.stream),
    decreases calls.len(),
{
    if calls.len() > 0 {
        lemma_run_keeps_language(lang, calls.drop_last());
    }
}

/// A run that is taken further gives the words it gave before, and then
/// those of the further calls: what a call gives does not depend on the
/// calls after it.
pub proof fn lemma_run_extends(lang: LangView, calls: Seq<Call>, n: int)
    requires
        0 <= n <= calls.len(),
    ensures
        after_calls(lang, calls.take(n)).0 == after_calls(lang, calls).0.take(n),
    decreases calls.len(),
{
    lemma_run_keeps_language(lang, calls);
    lemma_run_keeps_language(lang, calls.take(n));
    if n == calls.len() {
        assert(calls.take(n) =~= calls);
        assert(after_calls(lang, calls).0.take(n) =~= after_calls(lang, calls).0);
    } else {
        lemma_run_extends(lang, calls.drop_last(), n);
        lemma_run_keeps_language(lang, calls.drop_last());
        assert(calls.drop_last().take(n) =~= calls.take(n));
        assert(after_calls(lang, calls).0.take(n) =~= after_calls(lang, calls.drop_last()).0.take(
            n,
        ));
    }
}

/// Every rendered text of a run is its own collapse and holds no three
/// equal neighbours.
pub proof fn lemma_rendered_stable(words: Seq<WordView>)
    ensures
        forall|i: int|
            0 <= i < words.len() ==> collapse(#[trigger] rendered(words)[i]) == rendered(words)[i]
                && no_triple(rendered(words)[i]),
{
    assert forall|i: int| 0 <= i < words.len() implies collapse(#[trigger] rendered(words)[i])
        == rendered(words)[i] && no_triple(rendered(words)[i]) by {
        lemma_collapse_idempotent(word_text(words[i].parts));
    }
}

} // verus!
