use vstd::prelude::*;

use crate::clock::{now, Timestamp};
use crate::ident::{fresh_id, Id};
use crate::folder::clone_ids;
use crate::word::{Word, WordView};

verus! {

/// How a quiz is run; it does not change which words are drawn.
#[derive(Debug, Clone, Copy, PartialEq, Eq, Structural)]
pub enum QuizMode {
    Normal,
    Endless,
}

pub struct QuizWordOptionView {
    pub folders: Option<Seq<Id>>,
    pub count: Option<u32>,
}

/// How the words of a quiz are chosen: from the given folders, or randomly
/// (`count` of them, 16 when unspecified).
#[derive(Debug)]
pub struct QuizWordOption {
    pub folders: Option<Vec<Id>>,
    pub count: Option<u32>,
}

impl View for QuizWordOption {
    type V = QuizWordOptionView;

    open spec fn view(&self) -> QuizWordOptionView {
        QuizWordOptionView {
            folders: match self.folders {
                Some(f) => Some(f@),
                None => None,
            },
            count: self.count,
        }
    }
}

impl Clone for QuizWordOption {
    fn clone(&self) -> (r: Self)
        ensures
            r@ == self@,
    {
        QuizWordOption {
            folders: match &self.folders {
                Some(f) => Some(clone_ids(f)),
                None => None,
            },
            count: self.count,
        }
    }
}

pub struct QuizOptionsView {
    pub mode: QuizMode,
    pub words: QuizWordOptionView,
}

/// The request that shapes a quiz.
#[derive(Debug)]
pub struct QuizOptions {
    pub mode: QuizMode,
    pub words: QuizWordOption,
}

impl View for QuizOptions {
    type V = QuizOptionsView;

    open spec fn view(&self) -> QuizOptionsView {
        QuizOptionsView { mode: self.mode, words: self.words@ }
    }
}

impl Clone for QuizOptions {
    fn clone(&self) -> (r: Self)
        ensures
            r@ == self@,
    {
        QuizOptions { mode: self.mode, words: self.words.clone() }
    }
}

pub struct QuizView {
    pub id: Id,
    pub words: Seq<WordView>,
    pub options: QuizOptionsView,
}

/// An ephemeral practice session: a resolved set of words under the options
/// that produced it. Computed per request and never persisted.
#[derive(Debug)]
pub struct Quiz {
    pub id: Id,
    pub words: Vec<Word>,
    pub options: QuizOptions,
}

impl View for Quiz {
    type V = QuizView;

    open spec fn view(&self) -> QuizView {
        QuizView {
            id: self.id,
            words: self.words@.map_values(|w: Word| w@),
            options: self.options@,
        }
    }
}

/// Per-word tally carried inside a running quiz.
#[derive(Debug, Clone, Copy, PartialEq, Eq, Structural)]
pub struct QuizWord {
    pub word_id: Id,
    pub num_success: usize,
    pub num_mistakes: usize,
}

/// Per-word outcome of a completed quiz.
#[derive(Debug, Clone, Copy, PartialEq, Eq, Structural)]
pub struct QuizQuestionResult {
    pub word_id: Id,
    pub num_corrects: u64,
    pub num_incorrects: u64,
}

pub struct QuizResultView {
    pub id: Id,
    pub questions: Seq<QuizQuestionResult>,
    pub created_at: int,
}

/// The persisted record of a completed quiz; immutable once inserted.
#[derive(Debug)]
pub struct QuizResult {
    pub id: Id,
    pub questions: Vec<QuizQuestionResult>,
    pub created_at: Timestamp,
}

impl View for QuizResult {
    type V = QuizResultView;

    open spec fn view(&self) -> QuizResultView {
        QuizResultView {
            id: self.id,
            questions: self.questions@,
            created_at: self.created_at.millis as int,
        }
    }
}

pub fn clone_questions(v: &Vec<QuizQuestionResult>) -> (r: Vec<QuizQuestionResult>)
    ensures
        r@ == v@,
{
    let mut r: Vec<QuizQuestionResult> = Vec::new();
    let mut i: usize = 0;
    while i < v.len()
        invariant
            i <= v@.len(),
            r@ == v@.subrange(0, i as int),
        decreases v@.len() - i,
    {
        r.push(v[i]);
        i = i + 1;
        proof {
            assert(r@ =~= v@.subrange(0, i as int));
        }
    }
    proof {
        assert(r@ =~= v@);
    }
    r
}

impl Clone for QuizResult {
    fn clone(&self) -> (r: Self)
        ensures
            r@ == self@,
    {
        QuizResult {
            id: self.id,
            questions: clone_questions(&self.questions),
            created_at: self.created_at,
        }
    }
}

impl QuizResult {
    /// A fresh result over the given per-word tallies.
    pub fn new(questions: Vec<QuizQuestionResult>) -> (r: QuizResult)
        ensures
            r@.questions == questions@,
    {
        QuizResult { id: fresh_id(), questions, created_at: now() }
    }
}

} // verus!
