use vstd::prelude::*;

use crate::clock::{now, Timestamp};
use crate::errors::WordBankError;
use crate::ident::{fresh_id, Id};
use crate::text::{
    capitalize_str, contains_ci, eq_ci, eq_ignore_case, spec_capitalize, spec_trim,
    str_contains_ci, trim_str,
};

verus! {

// ---------------------------------------------------------------------------
// Word kinds
// ---------------------------------------------------------------------------

/// Grammatical category of a word, with a canonical upper-case string
/// encoding.
#[derive(Debug, Clone, Copy, PartialEq, Eq, Hash, Structural)]
#[allow(non_camel_case_types)]
pub enum WordType {
    NONE,
    NOUN,
    PRONOUN,
    VERB,
    ADJECTIVE,
    ADVERB,
    PREPOSITION,
    CONJUNCTION,
    INTERJECTION,
    DETERMINER,
    OTHER,
}

impl WordType {
    pub open spec fn spec_name(&self) -> Seq<char> {
        match self {
            WordType::NONE => "NONE"@,
            WordType::NOUN => "NOUN"@,
            WordType::PRONOUN => "PRONOUN"@,
            WordType::VERB => "VERB"@,
            WordType::ADJECTIVE => "ADJECTIVE"@,
            WordType::ADVERB => "ADVERB"@,
            WordType::PREPOSITION => "PREPOSITION"@,
            WordType::CONJUNCTION => "CONJUNCTION"@,
            WordType::INTERJECTION => "INTERJECTION"@,
            WordType::DETERMINER => "DETERMINER"@,
            WordType::OTHER => "OTHER"@,
        }
    }

    /// The canonical upper-case encoding of this kind.
    pub fn name(&self) -> (r: &'static str)
        ensures
            r@ == self.spec_name(),
    {
        match self {
            WordType::NONE => "NONE",
            WordType::NOUN => "NOUN",
            WordType::PRONOUN => "PRONOUN",
            WordType::VERB => "VERB",
            WordType::ADJECTIVE => "ADJECTIVE",
            WordType::ADVERB => "ADVERB",
            WordType::PREPOSITION => "PREPOSITION",
            WordType::CONJUNCTION => "CONJUNCTION",
            WordType::INTERJECTION => "INTERJECTION",
            WordType::DETERMINER => "DETERMINER",
            WordType::OTHER => "OTHER",
        }
    }

    /// Which kind, if any, a string names, compared without regard to ASCII
    /// case.
    pub open spec fn spec_parse(s: Seq<char>) -> Option<WordType> {
        if eq_ci(s, "NONE"@) {
            Some(WordType::NONE)
        } else if eq_ci(s, "NOUN"@) {
            Some(WordType::NOUN)
        } else if eq_ci(s, "PRONOUN"@) {
            Some(WordType::PRONOUN)
        } else if eq_ci(s, "VERB"@) {
            Some(WordType::VERB)
        } else if eq_ci(s, "ADJECTIVE"@) {
            Some(WordType::ADJECTIVE)
        } else if eq_ci(s, "ADVERB"@) {
            Some(WordType::ADVERB)
        } else if eq_ci(s, "PREPOSITION"@) {
            Some(WordType::PREPOSITION)
        } else if eq_ci(s, "CONJUNCTION"@) {
            Some(WordType::CONJUNCTION)
        } else if eq_ci(s, "INTERJECTION"@) {
            Some(WordType::INTERJECTION)
        } else if eq_ci(s, "DETERMINER"@) {
            Some(WordType::DETERMINER)
        } else if eq_ci(s, "OTHER"@) {
            Some(WordType::OTHER)
        } else {
            None
        }
    }

    /// Parses a kind from its name, case-insensitively; an unrecognized token
    /// is a validation error.
    pub fn from_str(input: &str) -> (r: Result<WordType, WordBankError>)
        ensures
            match WordType::spec_parse(input@) {
                Some(k) => r == Ok::<WordType, WordBankError>(k),
                None => r == Err::<WordType, WordBankError>(WordBankError::Validation),
            },
    {
        if eq_ignore_case(input, "NONE") {
            Ok(WordType::NONE)
        } else if eq_ignore_case(input, "NOUN") {
            Ok(WordType::NOUN)
        } else if eq_ignore_case(input, "PRONOUN") {
            Ok(WordType::PRONOUN)
        } else if eq_ignore_case(input, "VERB") {
            Ok(WordType::VERB)
        } else if eq_ignore_case(input, "ADJECTIVE") {
            Ok(WordType::ADJECTIVE)
        } else if eq_ignore_case(input, "ADVERB") {
            Ok(WordType::ADVERB)
        } else if eq_ignore_case(input, "PREPOSITION") {
            Ok(WordType::PREPOSITION)
        } else if eq_ignore_case(input, "CONJUNCTION") {
            Ok(WordType::CONJUNCTION)
        } else if eq_ignore_case(input, "INTERJECTION") {
            Ok(WordType::INTERJECTION)
        } else if eq_ignore_case(input, "DETERMINER") {
            Ok(WordType::DETERMINER)
        } else if eq_ignore_case(input, "OTHER") {
            Ok(WordType::OTHER)
        } else {
            Err(WordBankError::Validation)
        }
    }
}

// ---------------------------------------------------------------------------
// Translations
// ---------------------------------------------------------------------------

pub struct TranslationView {
    pub id: Id,
    pub value: Seq<char>,
}

/// One target-language rendering of a word's meaning; owned by exactly one
/// word.
#[derive(Debug)]
pub struct Translation {
    pub id: Id,
    pub value: String,
}

impl View for Translation {
    type V = TranslationView;

    open spec fn view(&self) -> TranslationView {
        TranslationView { id: self.id, value: self.value@ }
    }
}

impl Clone for Translation {
    fn clone(&self) -> (r: Self)
        ensures
            r@ == self@,
    {
        Translation { id: self.id, value: self.value.clone() }
    }
}

impl Translation {
    /// A fresh translation whose value is the raw input with its first
    /// character upper-cased.
    pub fn from_value(value: &str) -> (r: Translation)
        ensures
            r@.value == spec_capitalize(value@),
    {
        Translation { id: fresh_id(), value: capitalize_str(value) }
    }
}

// ---------------------------------------------------------------------------
// Words
// ---------------------------------------------------------------------------

pub struct WordView {
    pub id: Id,
    pub value: Seq<char>,
    pub kind: WordType,
    pub tags: Seq<Seq<char>>,
    pub translations: Seq<TranslationView>,
    pub created_at: int,
    pub updated_at: int,
}

/// A vocabulary entry: a value with a kind, free-form tags and one or more
/// translations. A word must carry at least one translation when it is
/// inserted into the store.
#[derive(Debug)]
pub struct Word {
    pub id: Id,
    pub value: String,
    pub kind: WordType,
    pub tags: Vec<String>,
    pub translations: Vec<Translation>,
    pub created_at: Timestamp,
    pub updated_at: Timestamp,
}

pub open spec fn strings_view(v: Vec<String>) -> Seq<Seq<char>> {
    v@.map_values(|s: String| s@)
}

pub open spec fn translations_view(v: Vec<Translation>) -> Seq<TranslationView> {
    v@.map_values(|t: Translation| t@)
}

impl View for Word {
    type V = WordView;

    open spec fn view(&self) -> WordView {
        WordView {
            id: self.id,
            value: self.value@,
            kind: self.kind,
            tags: strings_view(self.tags),
            translations: translations_view(self.translations),
            created_at: self.created_at.millis as int,
            updated_at: self.updated_at.millis as int,
        }
    }
}

pub fn clone_strings(v: &Vec<String>) -> (r: Vec<String>)
    ensures
        strings_view(r) == strings_view(*v),
        r@.len() == v@.len(),
{
    let mut r: Vec<String> = Vec::new();
    let mut i: usize = 0;
    while i < v.len()
        invariant
            i <= v@.len(),
            r@.len() == i,
            forall|k: int| 0 <= k < i ==> r@[k]@ == #[trigger] v@[k]@,
        decreases v@.len() - i,
    {
        r.push(v[i].clone());
        i = i + 1;
    }
    proof {
        assert(strings_view(r) =~= strings_view(*v));
    }
    r
}

pub fn clone_translations(v: &Vec<Translation>) -> (r: Vec<Translation>)
    ensures
        translations_view(r) == translations_view(*v),
        r@.len() == v@.len(),
{
    let mut r: Vec<Translation> = Vec::new();
    let mut i: usize = 0;
    while i < v.len()
        invariant
            i <= v@.len(),
            r@.len() == i,
            forall|k: int| 0 <= k < i ==> r@[k]@ == #[trigger] v@[k]@,
        decreases v@.len() - i,
    {
        r.push(v[i].clone());
        i = i + 1;
    }
    proof {
        assert(translations_view(r) =~= translations_view(*v));
    }
    r
}

impl Clone for Word {
    fn clone(&self) -> (r: Self)
        ensures
            r@ == self@,
    {
        Word {
            id: self.id,
            value: self.value.clone(),
            kind: self.kind,
            tags: clone_strings(&self.tags),
            translations: clone_translations(&self.translations),
            created_at: self.created_at,
            updated_at: self.updated_at,
        }
    }
}

impl Word {
    /// A fresh word: trimmed value, kind NONE, no tags and no translations
    /// yet, and a newly generated identifier.
    pub fn from_value(value: &str) -> (r: Word)
        ensures
            r@.value == spec_trim(value@),
            r@.kind == WordType::NONE,
            r@.tags == Seq::<Seq<char>>::empty(),
            r@.translations == Seq::<TranslationView>::empty(),
    {
        let r = Word {
            id: fresh_id(),
            value: trim_str(value),
            kind: WordType::NONE,
            tags: Vec::new(),
            translations: Vec::new(),
            created_at: now(),
            updated_at: now(),
        };
        proof {
            assert(r@.tags =~= Seq::<Seq<char>>::empty());
            assert(r@.translations =~= Seq::<TranslationView>::empty());
        }
        r
    }

    /// Stamps both timestamps to the same instant; used at creation so that
    /// a record is born with `created_at == updated_at`.
    pub fn update_time(&mut self, time: Timestamp)
        ensures
            final(self)@ == (WordView {
                created_at: time.millis as int,
                updated_at: time.millis as int,
                ..old(self)@
            }),
    {
        self.created_at = time;
        self.updated_at = time;
    }
}

// ---------------------------------------------------------------------------
// Word queries
// ---------------------------------------------------------------------------

pub struct WordQueryView {
    pub query: Option<Seq<char>>,
    pub word: Option<Seq<char>>,
    pub kind: Option<WordType>,
    pub tags: Option<Seq<Seq<char>>>,
}

/// A filter over words: `query` is a case-insensitive substring match against
/// the value or any translation, `word` an exact value match, `kind` an exact
/// kind match, and `tags` requires every listed tag to be present. Absent
/// fields do not filter.
#[derive(Debug)]
pub struct WordQueryOptions {
    pub query: Option<String>,
    pub word: Option<String>,
    pub kind: Option<WordType>,
    pub tags: Option<Vec<String>>,
}

impl View for WordQueryOptions {
    type V = WordQueryView;

    open spec fn view(&self) -> WordQueryView {
        WordQueryView {
            query: match self.query {
                Some(s) => Some(s@),
                None => None,
            },
            word: match self.word {
                Some(s) => Some(s@),
                None => None,
            },
            kind: self.kind,
            tags: match self.tags {
                Some(ts) => Some(strings_view(ts)),
                None => None,
            },
        }
    }
}

impl WordQueryOptions {
    pub fn empty() -> (r: WordQueryOptions)
        ensures
            r@.query is None,
            r@.word is None,
            r@.kind is None,
            r@.tags is None,
    {
        WordQueryOptions { query: None, word: None, kind: None, tags: None }
    }
}

impl Default for WordQueryOptions {
    fn default() -> (r: WordQueryOptions)
        ensures
            r@.query is None,
            r@.word is None,
            r@.kind is None,
            r@.tags is None,
    {
        WordQueryOptions::empty()
    }
}

/// Whether some translation of the list contains `s`, case-insensitively.
pub open spec fn some_translation_hits(ts: Seq<TranslationView>, s: Seq<char>) -> bool {
    exists|i: int| 0 <= i < ts.len() && contains_ci(#[trigger] ts[i].value, s)
}

/// Whether the free-text query hits the word: a case-insensitive substring
/// of its value or of any of its translations.
pub open spec fn query_hits(w: WordView, s: Seq<char>) -> bool {
    contains_ci(w.value, s) || some_translation_hits(w.translations, s)
}

/// Whether every sequence of `want` occurs in `have`.
pub open spec fn tags_all_in(have: Seq<Seq<char>>, want: Seq<Seq<char>>) -> bool {
    forall|i: int| 0 <= i < want.len() ==> have.contains(#[trigger] want[i])
}

/// Whether a word satisfies every present field of the filter.
pub open spec fn word_matches(w: WordView, q: WordQueryView) -> bool {
    &&& match q.query {
        Some(s) => query_hits(w, s),
        None => true,
    }
    &&& match q.word {
        Some(s) => w.value == s,
        None => true,
    }
    &&& match q.kind {
        Some(k) => w.kind == k,
        None => true,
    }
    &&& match q.tags {
        Some(ts) => tags_all_in(w.tags, ts),
        None => true,
    }
}

fn tags_contain(tags: &Vec<String>, t: &String) -> (r: bool)
    ensures
        r == strings_view(*tags).contains(t@),
{
    let mut i: usize = 0;
    while i < tags.len()
        invariant
            i <= tags@.len(),
            forall|k: int| 0 <= k < i ==> #[trigger] tags@[k]@ != t@,
        decreases tags@.len() - i,
    {
        if tags[i] == *t {
            proof {
                assert(strings_view(*tags)[i as int] == t@);
            }
            return true;
        }
        i = i + 1;
    }
    proof {
        assert forall|j: int| 0 <= j < strings_view(*tags).len() implies strings_view(*tags)[j]
            != t@ by {
            assert(tags@[j]@ != t@);
        }
    }
    false
}

fn tags_all_present(have: &Vec<String>, want: &Vec<String>) -> (r: bool)
    ensures
        r == tags_all_in(strings_view(*have), strings_view(*want)),
{
    let mut i: usize = 0;
    while i < want.len()
        invariant
            i <= want@.len(),
            forall|k: int|
                0 <= k < i ==> strings_view(*have).contains(#[trigger] strings_view(*want)[k]),
        decreases want@.len() - i,
    {
        if !tags_contain(have, &want[i]) {
            proof {
                assert(!strings_view(*have).contains(strings_view(*want)[i as int]));
            }
            return false;
        }
        i = i + 1;
    }
    true
}

fn any_translation_contains(ts: &Vec<Translation>, s: &String) -> (r: bool)
    ensures
        r == some_translation_hits(translations_view(*ts), s@),
{

    let mut i: usize = 0;
    while i < ts.len()
        invariant
            i <= ts@.len(),
            forall|k: int|
                0 <= k < i ==> !contains_ci(#[trigger] translations_view(*ts)[k].value, s@),
        decreases ts@.len() - i,
    {
        if str_contains_ci(ts[i].value.as_str(), s.as_str()) {
            proof {
                assert(contains_ci(translations_view(*ts)[i as int].value, s@));
            }
            return true;
        }
        i = i + 1;
    }
    false
}

fn word_query_hits(w: &Word, s: &String) -> (r: bool)
    ensures
        r == query_hits(w@, s@),
{
    str_contains_ci(w.value.as_str(), s.as_str()) || any_translation_contains(&w.translations, s)
}

/// Whether a word matches the given filter.
pub fn word_matches_exec(w: &Word, q: &WordQueryOptions) -> (r: bool)
    ensures
        r == word_matches(w@, q@),
{
    let ok_query: bool = match &q.query {
        Some(s) => word_query_hits(w, s),
        None => true,
    };
    let ok_word: bool = match &q.word {
        Some(s) => w.value == *s,
        None => true,
    };
    let ok_kind: bool = match &q.kind {
        Some(k) => w.kind == *k,
        None => true,
    };
    let ok_tags: bool = match &q.tags {
        Some(ts) => tags_all_present(&w.tags, ts),
        None => true,
    };
    ok_query && ok_word && ok_kind && ok_tags
}

// ---------------------------------------------------------------------------
// Word updates
// ---------------------------------------------------------------------------

pub struct WordUpdateView {
    pub id: Id,
    pub word: Option<Seq<char>>,
    pub kind: Option<WordType>,
    pub tags: Option<Seq<Seq<char>>>,
    pub translations: Option<Seq<TranslationView>>,
}

/// A partial update of one word: only the present fields are changed.
#[derive(Debug)]
pub struct WordUpdateOptions {
    pub id: Id,
    pub word: Option<String>,
    pub kind: Option<WordType>,
    pub tags: Option<Vec<String>>,
    pub translations: Option<Vec<Translation>>,
}

impl View for WordUpdateOptions {
    type V = WordUpdateView;

    open spec fn view(&self) -> WordUpdateView {
        WordUpdateView {
            id: self.id,
            word: match self.word {
                Some(s) => Some(s@),
                None => None,
            },
            kind: self.kind,
            tags: match self.tags {
                Some(ts) => Some(strings_view(ts)),
                None => None,
            },
            translations: match self.translations {
                Some(ts) => Some(translations_view(ts)),
                None => None,
            },
        }
    }
}

/// The word as it stands after a partial update stamped at time `t`:
/// supplied fields replace the old ones, the rest are kept, and only
/// `updated_at` moves.
pub open spec fn apply_word_update(w: WordView, u: WordUpdateView, t: int) -> WordView {
    WordView {
        id: w.id,
        value: match u.word {
            Some(s) => s,
            None => w.value,
        },
        kind: match u.kind {
            Some(k) => k,
            None => w.kind,
        },
        tags: match u.tags {
            Some(ts) => ts,
            None => w.tags,
        },
        translations: match u.translations {
            Some(ts) => ts,
            None => w.translations,
        },
        created_at: w.created_at,
        updated_at: t,
    }
}

} // verus!
