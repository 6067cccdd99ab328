use vstd::prelude::*;

use crate::word::{WordType, WordView};

verus! {

/// How many words of one kind the store holds.
#[derive(Debug, Clone, Copy, PartialEq, Eq, Structural)]
pub struct WordTypeCount {
    pub kind: WordType,
    pub count: u64,
}

/// Aggregated usage numbers, derived on read and never stored: total word
/// count, words per kind, and the number of recorded quiz results.
#[derive(Debug, Clone)]
pub struct UserStatistics {
    pub word_count: u64,
    pub word_types: Vec<WordTypeCount>,
    pub quiz_count: u64,
}

/// The canonical order in which per-kind counts are reported.
pub open spec fn kind_at(i: int) -> WordType {
    if i == 0 {
        WordType::NONE
    } else if i == 1 {
        WordType::NOUN
    } else if i == 2 {
        WordType::PRONOUN
    } else if i == 3 {
        WordType::VERB
    } else if i == 4 {
        WordType::ADJECTIVE
    } else if i == 5 {
        WordType::ADVERB
    } else if i == 6 {
        WordType::PREPOSITION
    } else if i == 7 {
        WordType::CONJUNCTION
    } else if i == 8 {
        WordType::INTERJECTION
    } else if i == 9 {
        WordType::DETERMINER
    } else {
        WordType::OTHER
    }
}

/// How many words of the sequence have the given kind.
pub open spec fn count_kind(ws: Seq<WordView>, k: WordType) -> nat
    decreases ws.len(),
{
    if ws.len() == 0 {
        0
    } else {
        count_kind(ws.drop_last(), k) + if ws.last().kind == k {
            1nat
        } else {
            0nat
        }
    }
}

pub proof fn lemma_count_kind_le_len(ws: Seq<WordView>, k: WordType)
    ensures
        count_kind(ws, k) <= ws.len(),
    decreases ws.len(),
{
    if ws.len() > 0 {
        lemma_count_kind_le_len(ws.drop_last(), k);
    }
}

/// What correct statistics over a store with `words` and `n_results` quiz
/// results look like.
pub open spec fn stats_ok(s: UserStatistics, words: Seq<WordView>, n_results: int) -> bool {
    &&& s.word_count == words.len()
    &&& s.quiz_count == n_results
    &&& s.word_types@.len() == 11
    &&& forall|i: int|
        0 <= i < 11 ==> (#[trigger] s.word_types@[i]).kind == kind_at(i)
            && s.word_types@[i].count == count_kind(words, kind_at(i))
}

} // verus!
