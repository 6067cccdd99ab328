use vstd::prelude::*;
use vstd::pervasive::VecAdditionalExecFns;
use vstd::seq_lib::group_seq_properties;

use crate::clock::{now, Timestamp};
use crate::errors::WordBankError;
use crate::folder::{
    apply_folder_update, apply_folder_words, clone_ids, folder_matches_exec, ids_contain,
    merge_dedup, remove_ids, Folder, FolderQueryOptions, FolderUpdateOptions, FolderView,
    ParentUpdate,
};
use crate::ident::{fresh_id, Id};
use crate::pagination::{PageResult, PaginationOptions};
use crate::quiz::{clone_questions, QuizResult};
use crate::stats::{count_kind, kind_at, stats_ok, UserStatistics, WordTypeCount};
use crate::store::{
    folder_views, folders_matching, has_folder_id, has_word_id, page_ok, page_slice,
    pagination_valid, result_views, store_wf, word_views, words_matching, words_with_ids,
    StoreModel, DB,
};
use crate::word::{
    apply_word_update, clone_strings, clone_translations, word_matches_exec, Word,
    WordQueryOptions, WordType, WordUpdateOptions, WordView,
};

verus! {

// ---------------------------------------------------------------------------
// The in-memory store
// ---------------------------------------------------------------------------

/// A fully verified in-process store. Its durable content lives in plain
/// vectors; a unit of work operates on a copy and becomes durable only at
/// commit.
pub struct MemStore {
    words: Vec<Word>,
    folders: Vec<Folder>,
    results: Vec<QuizResult>,
}

/// One unit of work over a [`MemStore`]: a private copy of the content.
/// Dropping it aborts; committing it publishes it.
pub struct MemContext {
    words: Vec<Word>,
    folders: Vec<Folder>,
    results: Vec<QuizResult>,
}

pub open spec fn mem_model(
    words: Seq<Word>,
    folders: Seq<Folder>,
    results: Seq<QuizResult>,
) -> StoreModel {
    StoreModel {
        words: word_views(words),
        folders: folder_views(folders),
        results: result_views(results),
    }
}

impl MemStore {
    pub closed spec fn model(&self) -> StoreModel {
        mem_model(self.words@, self.folders@, self.results@)
    }

    /// An empty store.
    pub fn new() -> (r: MemStore)
        ensures
            r.model().words.len() == 0,
            r.model().folders.len() == 0,
            r.model().results.len() == 0,
            store_wf(r.model()),
    {
        MemStore { words: Vec::new(), folders: Vec::new(), results: Vec::new() }
    }
}

impl MemContext {
    pub closed spec fn model(&self) -> StoreModel {
        mem_model(self.words@, self.folders@, self.results@)
    }
}

// ---------------------------------------------------------------------------
// Cloning record lists
// ---------------------------------------------------------------------------

fn clone_words(v: &Vec<Word>) -> (r: Vec<Word>)
    ensures
        word_views(r@) == word_views(v@),
{
    let mut r: Vec<Word> = Vec::new();
    let mut i: usize = 0;
    while i < v.len()
        invariant
            i <= v@.len(),
            r@.len() == i,
            forall|k: int| 0 <= k < i ==> r@[k]@ == #[trigger] v@[k]@,
        decreases v@.len() - i,
    {
        r.push(v[i].clone());
        i = i + 1;
    }
    proof {
        assert(word_views(r@) =~= word_views(v@));
    }
    r
}

fn clone_folders(v: &Vec<Folder>) -> (r: Vec<Folder>)
    ensures
        folder_views(r@) == folder_views(v@),
{
    let mut r: Vec<Folder> = Vec::new();
    let mut i: usize = 0;
    while i < v.len()
        invariant
            i <= v@.len(),
            r@.len() == i,
            forall|k: int| 0 <= k < i ==> r@[k]@ == #[trigger] v@[k]@,
        decreases v@.len() - i,
    {
        r.push(v[i].clone());
        i = i + 1;
    }
    proof {
        assert(folder_views(r@) =~= folder_views(v@));
    }
    r
}

fn clone_results(v: &Vec<QuizResult>) -> (r: Vec<QuizResult>)
    ensures
        result_views(r@) == result_views(v@),
{
    let mut r: Vec<QuizResult> = Vec::new();
    let mut i: usize = 0;
    while i < v.len()
        invariant
            i <= v@.len(),
            r@.len() == i,
            forall|k: int| 0 <= k < i ==> r@[k]@ == #[trigger] v@[k]@,
        decreases v@.len() - i,
    {
        r.push(v[i].clone());
        i = i + 1;
    }
    proof {
        assert(result_views(r@) =~= result_views(v@));
    }
    r
}

// ---------------------------------------------------------------------------
// Lookups
// ---------------------------------------------------------------------------

fn find_word_index(v: &Vec<Word>, id: Id) -> (r: Option<usize>)
    ensures
        match r {
            Some(i) => i < v@.len() && word_views(v@)[i as int].id == id,
            None => !has_word_id(word_views(v@), id),
        },
{
    let mut i: usize = 0;
    while i < v.len()
        invariant
            i <= v@.len(),
            forall|k: int| 0 <= k < i ==> (#[trigger] word_views(v@)[k]).id != id,
        decreases v@.len() - i,
    {
        if v[i].id == id {
            proof {
                assert(word_views(v@)[i as int].id == id);
            }
            return Some(i);
        }
        i = i + 1;
    }
    None
}

fn find_folder_index(v: &Vec<Folder>, id: Id) -> (r: Option<usize>)
    ensures
        match r {
            Some(i) => i < v@.len() && folder_views(v@)[i as int].id == id,
            None => !has_folder_id(folder_views(v@), id),
        },
{
    let mut i: usize = 0;
    while i < v.len()
        invariant
            i <= v@.len(),
            forall|k: int| 0 <= k < i ==> (#[trigger] folder_views(v@)[k]).id != id,
        decreases v@.len() - i,
    {
        if v[i].id == id {
            proof {
                assert(folder_views(v@)[i as int].id == id);
            }
            return Some(i);
        }
        i = i + 1;
    }
    None
}

// ---------------------------------------------------------------------------
// Applying updates to single records
// ---------------------------------------------------------------------------

fn apply_word_update_exec(w: &Word, u: &WordUpdateOptions, t: Timestamp) -> (r: Word)
    ensures
        r@ == apply_word_update(w@, u@, t.millis as int),
{
    Word {
        id: w.id,
        value: match &u.word {
            Some(s) => s.clone(),
            None => w.value.clone(),
        },
        kind: match &u.kind {
            Some(k) => *k,
            None => w.kind,
        },
        tags: match &u.tags {
            Some(ts) => clone_strings(ts),
            None => clone_strings(&w.tags),
        },
        translations: match &u.translations {
            Some(ts) => clone_translations(ts),
            None => clone_translations(&w.translations),
        },
        created_at: w.created_at,
        updated_at: t,
    }
}

fn apply_folder_update_exec(f: &Folder, u: &FolderUpdateOptions, t: Timestamp) -> (r: Folder)
    ensures
        r@ == apply_folder_update(f@, u@, t.millis as int),
{
    let words1: Vec<Id> = match &u.add {
        Some(a) => merge_dedup(&f.words, a),
        None => clone_ids(&f.words),
    };
    let words2: Vec<Id> = match &u.remove {
        Some(rm) => remove_ids(&words1, rm),
        None => words1,
    };
    let r = Folder {
        id: f.id,
        name: match &u.name {
            Some(s) => s.clone(),
            None => f.name.clone(),
        },
        parent: match &u.parent {
            ParentUpdate::Keep => f.parent,
            ParentUpdate::Clear => None,
            ParentUpdate::SetTo(id) => Some(*id),
        },
        words: words2,
        created_at: f.created_at,
        updated_at: t,
    };
    proof {
        assert(r@.words == apply_folder_words(f@.words, u@.add, u@.remove));
    }
    r
}

// ---------------------------------------------------------------------------
// Filters that keep identifiers distinct
// ---------------------------------------------------------------------------

proof fn lemma_filter_keeps_distinct_keys<A>(s: Seq<A>, pred: spec_fn(A) -> bool, key: spec_fn(
    A,
) -> Id)
    requires
        forall|i: int, j: int| 0 <= i < j < s.len() ==> key(#[trigger] s[i]) != key(
            #[trigger] s[j]),
    ensures
        forall|i: int, j: int|
            0 <= i < j < s.filter(pred).len() ==> key(#[trigger] s.filter(pred)[i]) != key(
                #[trigger] s.filter(pred)[j]),
    decreases s.len(),
{
    broadcast use group_seq_properties;

    reveal(Seq::filter);
    if s.len() > 0 {
        let rest = s.drop_last();
        assert(forall|i: int, j: int|
            0 <= i < j < rest.len() ==> key(#[trigger] rest[i]) != key(#[trigger] rest[j]))
            by {
            assert(forall|i: int| 0 <= i < rest.len() ==> #[trigger] rest[i] == s[i]);
        }
        lemma_filter_keeps_distinct_keys(rest, pred, key);
        if pred(s.last()) {
            let fr = rest.filter(pred);
            assert(s.filter(pred) == fr.push(s.last()));
            assert forall|i: int, j: int|
                0 <= i < j < s.filter(pred).len() implies key(s.filter(pred)[i]) != key(
                s.filter(pred)[j]) by {
                assert(s.filter(pred)[i] == fr[i]);
                if j < fr.len() {
                    assert(s.filter(pred)[j] == fr[j]);
                    assert(key(fr[i]) != key(fr[j]));
                } else {
                    assert(s.filter(pred)[j] == s.last());
                    assert(fr.contains(fr[i]));
                    rest.lemma_filter_contains_rev(pred, fr[i]);
                    assert(rest.contains(fr[i]));
                    let k = choose|k: int| 0 <= k < rest.len() && rest[k] == fr[i];
                    assert(rest[k] == s[k]);
                    assert(key(s[k]) != key(s[s.len() - 1]));
                    assert(s.last() == s[s.len() - 1]);
                }
            }
        }
    }
}

// ---------------------------------------------------------------------------
// Filtering and paging record lists
// ---------------------------------------------------------------------------

fn filter_words_matching(v: &Vec<Word>, q: &WordQueryOptions) -> (r: Vec<Word>)
    ensures
        word_views(r@) == words_matching(word_views(v@), q@),
{
    let ghost all = word_views(v@);
    let mut out: Vec<Word> = Vec::new();
    let mut i: usize = 0;
    proof {
        reveal(Seq::filter);
        assert(word_views(out@) =~= words_matching(all.subrange(0, 0), q@));
    }
    while i < v.len()
        invariant
            all == word_views(v@),
            i <= v@.len(),
            word_views(out@) == words_matching(all.subrange(0, i as int), q@),
        decreases v@.len() - i,
    {
        proof {
            reveal(Seq::filter);
            assert(all.subrange(0, i + 1).drop_last() =~= all.subrange(0, i as int));
            assert(all.subrange(0, i + 1).last() == all[i as int]);
            assert(all[i as int] == v@[i as int]@);
        }
        if word_matches_exec(&v[i], q) {
            out.push(v[i].clone());
            proof {
                assert(word_views(out@) =~= words_matching(all.subrange(0, i as int), q@).push(
                    v@[i as int]@,
                ));
            }
        }
        i = i + 1;
    }
    proof {
        assert(all.subrange(0, all.len() as int) =~= all);
    }
    out
}

fn filter_folders_matching(v: &Vec<Folder>, q: &FolderQueryOptions) -> (r: Vec<Folder>)
    ensures
        folder_views(r@) == folders_matching(folder_views(v@), q@),
{
    let ghost all = folder_views(v@);
    let mut out: Vec<Folder> = Vec::new();
    let mut i: usize = 0;
    proof {
        reveal(Seq::filter);
        assert(folder_views(out@) =~= folders_matching(all.subrange(0, 0), q@));
    }
    while i < v.len()
        invariant
            all == folder_views(v@),
            i <= v@.len(),
            folder_views(out@) == folders_matching(all.subrange(0, i as int), q@),
        decreases v@.len() - i,
    {
        proof {
            reveal(Seq::filter);
            assert(all.subrange(0, i + 1).drop_last() =~= all.subrange(0, i as int));
            assert(all.subrange(0, i + 1).last() == all[i as int]);
            assert(all[i as int] == v@[i as int]@);
        }
        if folder_matches_exec(&v[i], q) {
            out.push(v[i].clone());
            proof {
                assert(folder_views(out@) =~= folders_matching(all.subrange(0, i as int), q@).push(
                    v@[i as int]@,
                ));
            }
        }
        i = i + 1;
    }
    proof {
        assert(all.subrange(0, all.len() as int) =~= all);
    }
    out
}

fn filter_words_with_ids(v: &Vec<Word>, ids: &Vec<Id>) -> (r: Vec<Word>)
    ensures
        word_views(r@) == words_with_ids(word_views(v@), ids@),
{
    let ghost all = word_views(v@);
    let mut out: Vec<Word> = Vec::new();
    let mut i: usize = 0;
    proof {
        reveal(Seq::filter);
        assert(word_views(out@) =~= words_with_ids(all.subrange(0, 0), ids@));
    }
    while i < v.len()
        invariant
            all == word_views(v@),
            i <= v@.len(),
            word_views(out@) == words_with_ids(all.subrange(0, i as int), ids@),
        decreases v@.len() - i,
    {
        proof {
            reveal(Seq::filter);
            assert(all.subrange(0, i + 1).drop_last() =~= all.subrange(0, i as int));
            assert(all.subrange(0, i + 1).last() == all[i as int]);
            assert(all[i as int] == v@[i as int]@);
        }
        if ids_contain(ids, v[i].id) {
            out.push(v[i].clone());
            proof {
                assert(word_views(out@) =~= words_with_ids(all.subrange(0, i as int), ids@).push(
                    v@[i as int]@,
                ));
            }
        }
        i = i + 1;
    }
    proof {
        assert(all.subrange(0, all.len() as int) =~= all);
    }
    out
}

fn filter_words_without_id(v: &Vec<Word>, id: Id) -> (r: Vec<Word>)
    ensures
        word_views(r@) == word_views(v@).filter(|w: WordView| w.id != id),
{
    let ghost all = word_views(v@);
    let mut out: Vec<Word> = Vec::new();
    let mut i: usize = 0;
    proof {
        reveal(Seq::filter);
        assert(word_views(out@) =~= all.subrange(0, 0).filter(|w: WordView| w.id != id));
    }
    while i < v.len()
        invariant
            all == word_views(v@),
            i <= v@.len(),
            word_views(out@) == all.subrange(0, i as int).filter(|w: WordView| w.id != id),
        decreases v@.len() - i,
    {
        proof {
            reveal(Seq::filter);
            assert(all.subrange(0, i + 1).drop_last() =~= all.subrange(0, i as int));
            assert(all.subrange(0, i + 1).last() == all[i as int]);
            assert(all[i as int] == v@[i as int]@);
        }
        if !(v[i].id == id) {
            out.push(v[i].clone());
            proof {
                assert(word_views(out@) =~= all.subrange(0, i as int).filter(
                    |w: WordView| w.id != id,
                ).push(v@[i as int]@));
            }
        }
        i = i + 1;
    }
    proof {
        assert(all.subrange(0, all.len() as int) =~= all);
    }
    out
}

fn filter_folders_without_id(v: &Vec<Folder>, id: Id) -> (r: Vec<Folder>)
    ensures
        folder_views(r@) == folder_views(v@).filter(|f: FolderView| f.id != id),
{
    let ghost all = folder_views(v@);
    let mut out: Vec<Folder> = Vec::new();
    let mut i: usize = 0;
    proof {
        reveal(Seq::filter);
        assert(folder_views(out@) =~= all.subrange(0, 0).filter(|f: FolderView| f.id != id));
    }
    while i < v.len()
        invariant
            all == folder_views(v@),
            i <= v@.len(),
            folder_views(out@) == all.subrange(0, i as int).filter(|f: FolderView| f.id != id),
        decreases v@.len() - i,
    {
        proof {
            reveal(Seq::filter);
            assert(all.subrange(0, i + 1).drop_last() =~= all.subrange(0, i as int));
            assert(all.subrange(0, i + 1).last() == all[i as int]);
            assert(all[i as int] == v@[i as int]@);
        }
        if !(v[i].id == id) {
            out.push(v[i].clone());
            proof {
                assert(folder_views(out@) =~= all.subrange(0, i as int).filter(
                    |f: FolderView| f.id != id,
                ).push(v@[i as int]@));
            }
        }
        i = i + 1;
    }
    proof {
        assert(all.subrange(0, all.len() as int) =~= all);
    }
    out
}

fn page_of_words(matched: &Vec<Word>, pagination: &PaginationOptions) -> (r: Vec<Word>)
    requires
        pagination_valid(*pagination),
    ensures
        word_views(r@) == page_slice(
            word_views(matched@),
            crate::store::spec_skip(*pagination),
            pagination.limit as int,
        ),
{
    let ghost all = word_views(matched@);
    let skip = pagination.skip();
    let mut out: Vec<Word> = Vec::new();
    if skip >= matched.len() {
        proof {
            assert(word_views(out@) =~= page_slice(
                all,
                crate::store::spec_skip(*pagination),
                pagination.limit as int,
            ));
        }
        return out;
    }
    let n = matched.len();
    let rest = n - skip;
    let take = if pagination.limit < rest {
        pagination.limit
    } else {
        rest
    };
    let mut k: usize = 0;
    while k < take
        invariant
            all == word_views(matched@),
            n == matched@.len(),
            skip + take <= n,
            k <= take,
            out@.len() == k,
            forall|j: int| 0 <= j < k ==> out@[j]@ == #[trigger] all[skip + j],
        decreases take - k,
    {
        out.push(matched[skip + k].clone());
        k = k + 1;
    }
    proof {
        let sk = crate::store::spec_skip(*pagination);
        let ps = page_slice(all, sk, pagination.limit as int);
        assert(sk == skip);
        assert(out@.len() == take);
        assert(ps.len() == take);
        assert forall|j: int| 0 <= j < take implies word_views(out@)[j] == ps[j] by {
            assert(out@[j]@ == all[skip + j]);
            assert(ps[j] == all[sk + j]);
        }
        assert(word_views(out@) =~= ps);
    }
    out
}

fn page_of_folders(matched: &Vec<Folder>, pagination: &PaginationOptions) -> (r: Vec<Folder>)
    requires
        pagination_valid(*pagination),
    ensures
        folder_views(r@) == page_slice(
            folder_views(matched@),
            crate::store::spec_skip(*pagination),
            pagination.limit as int,
        ),
{
    let ghost all = folder_views(matched@);
    let skip = pagination.skip();
    let mut out: Vec<Folder> = Vec::new();
    if skip >= matched.len() {
        proof {
            assert(folder_views(out@) =~= page_slice(
                all,
                crate::store::spec_skip(*pagination),
                pagination.limit as int,
            ));
        }
        return out;
    }
    let n = matched.len();
    let rest = n - skip;
    let take = if pagination.limit < rest {
        pagination.limit
    } else {
        rest
    };
    let mut k: usize = 0;
    while k < take
        invariant
            all == folder_views(matched@),
            n == matched@.len(),
            skip + take <= n,
            k <= take,
            out@.len() == k,
            forall|j: int| 0 <= j < k ==> out@[j]@ == #[trigger] all[skip + j],
        decreases take - k,
    {
        out.push(matched[skip + k].clone());
        k = k + 1;
    }
    proof {
        let sk = crate::store::spec_skip(*pagination);
        let ps = page_slice(all, sk, pagination.limit as int);
        assert(sk == skip);
        assert(out@.len() == take);
        assert(ps.len() == take);
        assert forall|j: int| 0 <= j < take implies folder_views(out@)[j] == ps[j] by {
            assert(out@[j]@ == all[skip + j]);
            assert(ps[j] == all[sk + j]);
        }
        assert(folder_views(out@) =~= ps);
    }
    out
}

fn count_words_of_kind(v: &Vec<Word>, k: WordType) -> (c: u64)
    ensures
        c == count_kind(word_views(v@), k),
{
    let ghost all = word_views(v@);
    let mut c: u64 = 0;
    let mut i: usize = 0;
    proof {
        crate::stats::lemma_count_kind_le_len(all.subrange(0, 0), k);
    }
    while i < v.len()
        invariant
            all == word_views(v@),
            i <= v@.len(),
            c == count_kind(all.subrange(0, i as int), k),
            c <= i,
        decreases v@.len() - i,
    {
        proof {
            assert(all.subrange(0, i + 1).drop_last() =~= all.subrange(0, i as int));
            assert(all.subrange(0, i + 1).last() == all[i as int]);
            assert(all[i as int] == v@[i as int]@);
        }
        if v[i].kind == k {
            c = c + 1;
        }
        i = i + 1;
    }
    proof {
        assert(all.subrange(0, all.len() as int) =~= all);
    }
    c
}

// ---------------------------------------------------------------------------
// Distinct identifiers under filtering
// ---------------------------------------------------------------------------

proof fn lemma_word_filter_wf(ws: Seq<WordView>, pred: spec_fn(WordView) -> bool)
    requires
        forall|i: int, j: int| 0 <= i < j < ws.len() ==> (#[trigger] ws[i]).id != (
        #[trigger] ws[j]).id,
    ensures
        forall|i: int, j: int|
            0 <= i < j < ws.filter(pred).len() ==> (#[trigger] ws.filter(pred)[i]).id != (
            #[trigger] ws.filter(pred)[j]).id,
{
    let key = |w: WordView| w.id;
    assert(forall|i: int, j: int| 0 <= i < j < ws.len() ==> key(#[trigger] ws[i]) != key(
        #[trigger] ws[j]));
    lemma_filter_keeps_distinct_keys(ws, pred, key);
    assert forall|i: int, j: int|
        0 <= i < j < ws.filter(pred).len() implies (#[trigger] ws.filter(pred)[i]).id != (
    #[trigger] ws.filter(pred)[j]).id by {
        assert(key(ws.filter(pred)[i]) != key(ws.filter(pred)[j]));
    }
}

proof fn lemma_folder_filter_wf(fs: Seq<FolderView>, pred: spec_fn(FolderView) -> bool)
    requires
        forall|i: int, j: int| 0 <= i < j < fs.len() ==> (#[trigger] fs[i]).id != (
        #[trigger] fs[j]).id,
    ensures
        forall|i: int, j: int|
            0 <= i < j < fs.filter(pred).len() ==> (#[trigger] fs.filter(pred)[i]).id != (
            #[trigger] fs.filter(pred)[j]).id,
{
    let key = |f: FolderView| f.id;
    assert(forall|i: int, j: int| 0 <= i < j < fs.len() ==> key(#[trigger] fs[i]) != key(
        #[trigger] fs[j]));
    lemma_filter_keeps_distinct_keys(fs, pred, key);
    assert forall|i: int, j: int|
        0 <= i < j < fs.filter(pred).len() implies (#[trigger] fs.filter(pred)[i]).id != (
    #[trigger] fs.filter(pred)[j]).id by {
        assert(key(fs.filter(pred)[i]) != key(fs.filter(pred)[j]));
    }
}

/// The position `j` steps after `start` on a circle of `n` places.
pub open spec fn circ_pos(start: int, j: int, n: int) -> int {
    if start + j < n {
        start + j
    } else {
        start + j - n
    }
}

// ---------------------------------------------------------------------------
// The storage capability, provided in memory
// ---------------------------------------------------------------------------

impl DB for MemStore {
    type Context = MemContext;

    closed spec fn durable(&self) -> StoreModel {
        self.model()
    }

    closed spec fn ctx(c: &MemContext) -> StoreModel {
        c.model()
    }

    open spec fn reliable() -> bool {
        true
    }

    fn new_context(&self) -> (r: Result<MemContext, WordBankError>) {
        let c = MemContext {
            words: clone_words(&self.words),
            folders: clone_folders(&self.folders),
            results: clone_results(&self.results),
        };
        Ok(c)
    }

    fn commit(&mut self, ctx: MemContext) -> (r: Result<(), WordBankError>) {
        let MemContext { words, folders, results } = ctx;
        self.words = words;
        self.folders = folders;
        self.results = results;
        Ok(())
    }

    fn abort(&self, ctx: MemContext) -> (r: Result<(), WordBankError>) {
        let _ = ctx;
        Ok(())
    }

    fn insert_word(&self, ctx: &mut MemContext, word: &Word) -> (r: Result<Id, WordBankError>) {
        match find_word_index(&ctx.words, word.id) {
            Some(_) => Err(WordBankError::Conflict),
            None => {
                ctx.words.push(word.clone());
                proof {
                    let ov = word_views(old(ctx).words@);
                    assert(word_views(ctx.words@) =~= ov.push(word@));
                    assert(Self::ctx(ctx) == (StoreModel {
                        words: Self::ctx(old(ctx)).words.push(word@),
                        ..Self::ctx(old(ctx))
                    }));
                    assert forall|i: int, j: int|
                        0 <= i < j < word_views(ctx.words@).len() implies (
                    #[trigger] word_views(ctx.words@)[i]).id != (
                    #[trigger] word_views(ctx.words@)[j]).id by {
                        if j < ov.len() {
                            assert(word_views(ctx.words@)[i] == ov[i]);
                            assert(word_views(ctx.words@)[j] == ov[j]);
                        } else {
                            assert(word_views(ctx.words@)[j] == word@);
                            assert(word_views(ctx.words@)[i] == ov[i]);
                            assert(ov[i].id != word@.id);
                        }
                    }
                }
                Ok(word.id)
            },
        }
    }

    fn query_words(
        &self,
        ctx: &mut MemContext,
        query: WordQueryOptions,
        pagination: PaginationOptions,
    ) -> (r: Result<PageResult<Word>, WordBankError>) {
        let matched = filter_words_matching(&ctx.words, &query);
        let results = page_of_words(&matched, &pagination);
        let total = matched.len();
        let count = results.len();
        let pr = PageResult { total, page: pagination.page, count, results };
        Ok(pr)
    }

    fn delete_word(&self, ctx: &mut MemContext, word_id: Id) -> (r: Result<(), WordBankError>) {
        let kept = filter_words_without_id(&ctx.words, word_id);
        ctx.words = kept;
        proof {
            lemma_word_filter_wf(
                word_views(old(ctx).words@),
                |w: WordView| w.id != word_id,
            );
            assert(Self::ctx(ctx) == (StoreModel {
                words: Self::ctx(old(ctx)).words.filter(|w: WordView| w.id != word_id),
                ..Self::ctx(old(ctx))
            }));
        }
        Ok(())
    }

    fn update_word(&self, ctx: &mut MemContext, update: &WordUpdateOptions) -> (r: Result<
        Word,
        WordBankError,
    >) {
        match find_word_index(&ctx.words, update.id) {
            None => Err(WordBankError::NotFound),
            Some(i) => {
                let t = now();
                let nw = apply_word_update_exec(&ctx.words[i], update, t);
                let ret = nw.clone();
                ctx.words.set(i, nw);
                proof {
                    let ov = word_views(old(ctx).words@);
                    assert(ret@ == apply_word_update(ov[i as int], update@, t.millis as int));
                    assert(ret@.updated_at == t.millis as int);
                    assert(word_views(ctx.words@) =~= ov.update(i as int, ret@));
                    assert(Self::ctx(ctx) == (StoreModel {
                        words: Self::ctx(old(ctx)).words.update(i as int, ret@),
                        ..Self::ctx(old(ctx))
                    }));
                    assert(ret@.id == ov[i as int].id);
                    assert forall|a: int, b: int|
                        0 <= a < b < word_views(ctx.words@).len() implies (
                    #[trigger] word_views(ctx.words@)[a]).id != (
                    #[trigger] word_views(ctx.words@)[b]).id by {
                        assert(word_views(ctx.words@)[a] == if a == i as int {
                            ret@
                        } else {
                            ov[a]
                        });
                        assert(word_views(ctx.words@)[b] == if b == i as int {
                            ret@
                        } else {
                            ov[b]
                        });
                        assert(ov[a].id != ov[b].id);
                    }
                }
                Ok(ret)
            },
        }
    }

    fn get_words(&self, ctx: &mut MemContext, ids: &Vec<Id>) -> (r: Result<
        Vec<Word>,
        WordBankError,
    >) {
        let ws = filter_words_with_ids(&ctx.words, ids);
        Ok(ws)
    }

    fn random_words(&self, ctx: &mut MemContext, count: u32) -> (r: Result<
        Vec<Word>,
        WordBankError,
    >) {
        let ghost all = word_views(ctx.words@);
        let n = ctx.words.len();
        let count_us = count as usize;
        let take = if count_us < n {
            count_us
        } else {
            n
        };
        let mut out: Vec<Word> = Vec::new();
        if take == 0 {
            return Ok(out);
        }
        let seed = fresh_id();
        let start = (seed.lo % (n as u64)) as usize;
        let mut k: usize = 0;
        while k < take
            invariant
                all == word_views(ctx.words@),
                n == ctx.words@.len(),
                0 < take <= n,
                start < n,
                k <= take,
                out@.len() == k,
                forall|j: int|
                    0 <= j < k ==> out@[j]@ == all[#[trigger] circ_pos(
                        start as int,
                        j,
                        n as int,
                    )],
            decreases take - k,
        {
            let idx = if k < n - start {
                start + k
            } else {
                k - (n - start)
            };
            proof {
                assert(idx as int == circ_pos(start as int, k as int, n as int));
            }
            out.push(ctx.words[idx].clone());
            k = k + 1;
        }
        proof {
            assert forall|i: int|
                0 <= i < out@.len() implies Self::ctx(old(ctx)).words.contains(
                #[trigger] word_views(out@)[i],
            ) by {
                let p = circ_pos(start as int, i, n as int);
                assert(0 <= p < n);
                assert(all[p] == word_views(out@)[i]);
            }
            assert forall|a: int, b: int|
                0 <= a < b < out@.len() implies (#[trigger] word_views(out@)[a]).id != (
            #[trigger] word_views(out@)[b]).id by {
                let pa = circ_pos(start as int, a, n as int);
                let pb = circ_pos(start as int, b, n as int);
                assert(0 <= pa < n);
                assert(0 <= pb < n);
                assert(pa != pb);
                if pa < pb {
                    assert(all[pa].id != all[pb].id);
                } else {
                    assert(all[pb].id != all[pa].id);
                }
            }
        }
        Ok(out)
    }

    fn insert_folder(&self, ctx: &mut MemContext, folder: &Folder) -> (r: Result<
        Id,
        WordBankError,
    >) {
        match find_folder_index(&ctx.folders, folder.id) {
            Some(_) => Err(WordBankError::Conflict),
            None => {
                ctx.folders.push(folder.clone());
                proof {
                    let ov = folder_views(old(ctx).folders@);
                    assert(folder_views(ctx.folders@) =~= ov.push(folder@));
                    assert(Self::ctx(ctx) == (StoreModel {
                        folders: Self::ctx(old(ctx)).folders.push(folder@),
                        ..Self::ctx(old(ctx))
                    }));
                    assert forall|i: int, j: int|
                        0 <= i < j < folder_views(ctx.folders@).len() implies (
                    #[trigger] folder_views(ctx.folders@)[i]).id != (
                    #[trigger] folder_views(ctx.folders@)[j]).id by {
                        if j < ov.len() {
                            assert(folder_views(ctx.folders@)[i] == ov[i]);
                            assert(folder_views(ctx.folders@)[j] == ov[j]);
                        } else {
                            assert(folder_views(ctx.folders@)[j] == folder@);
                            assert(folder_views(ctx.folders@)[i] == ov[i]);
                            assert(ov[i].id != folder@.id);
                        }
                    }
                }
                Ok(folder.id)
            },
        }
    }

    fn delete_folder(&self, ctx: &mut MemContext, folder_id: Id) -> (r: Result<
        (),
        WordBankError,
    >) {
        let kept = filter_folders_without_id(&ctx.folders, folder_id);
        ctx.folders = kept;
        proof {
            lemma_folder_filter_wf(
                folder_views(old(ctx).folders@),
                |f: FolderView| f.id != folder_id,
            );
            assert(Self::ctx(ctx) == (StoreModel {
                folders: Self::ctx(old(ctx)).folders.filter(|f: FolderView| f.id != folder_id),
                ..Self::ctx(old(ctx))
            }));
        }
        Ok(())
    }

    fn update_folder(&self, ctx: &mut MemContext, update: &FolderUpdateOptions) -> (r: Result<
        (),
        WordBankError,
    >) {
        match find_folder_index(&ctx.folders, update.id) {
            None => Err(WordBankError::NotFound),
            Some(i) => {
                let t = now();
                let nf = apply_folder_update_exec(&ctx.folders[i], update, t);
                let ghost nfv = nf@;
                ctx.folders.set(i, nf);
                proof {
                    let ov = folder_views(old(ctx).folders@);
                    assert(nfv == apply_folder_update(ov[i as int], update@, t.millis as int));
                    assert(folder_views(ctx.folders@) =~= ov.update(i as int, nfv));
                    assert(Self::ctx(ctx) == (StoreModel {
                        folders: Self::ctx(old(ctx)).folders.update(
                            i as int,
                            apply_folder_update(
                                Self::ctx(old(ctx)).folders[i as int],
                                update@,
                                t.millis as int,
                            ),
                        ),
                        ..Self::ctx(old(ctx))
                    }));
                    assert(nfv.id == ov[i as int].id);
                    assert forall|a: int, b: int|
                        0 <= a < b < folder_views(ctx.folders@).len() implies (
                    #[trigger] folder_views(ctx.folders@)[a]).id != (
                    #[trigger] folder_views(ctx.folders@)[b]).id by {
                        assert(folder_views(ctx.folders@)[a] == if a == i as int {
                            nfv
                        } else {
                            ov[a]
                        });
                        assert(folder_views(ctx.folders@)[b] == if b == i as int {
                            nfv
                        } else {
                            ov[b]
                        });
                        assert(ov[a].id != ov[b].id);
                    }
                }
                Ok(())
            },
        }
    }

    fn query_folders(
        &self,
        ctx: &mut MemContext,
        query: FolderQueryOptions,
        pagination: PaginationOptions,
    ) -> (r: Result<PageResult<Folder>, WordBankError>) {
        let matched = filter_folders_matching(&ctx.folders, &query);
        let results = page_of_folders(&matched, &pagination);
        let total = matched.len();
        let count = results.len();
        let pr = PageResult { total, page: pagination.page, count, results };
        Ok(pr)
    }

    fn get_folder(&self, ctx: &mut MemContext, folder_id: Id) -> (r: Result<
        Folder,
        WordBankError,
    >) {
        match find_folder_index(&ctx.folders, folder_id) {
            None => Err(WordBankError::NotFound),
            Some(i) => {
                let f = ctx.folders[i].clone();
                proof {
                    assert(folder_views(ctx.folders@)[i as int] == f@);
                    assert(Self::ctx(ctx).folders.contains(f@));
                }
                Ok(f)
            },
        }
    }

    fn insert_quiz_result(&self, ctx: &mut MemContext, result: &mut QuizResult) -> (r: Result<
        Id,
        WordBankError,
    >) {
        result.created_at = now();
        ctx.results.push(result.clone());
        proof {
            assert(result_views(ctx.results@) =~= result_views(old(ctx).results@).push(
                final(result)@,
            ));
            assert(Self::ctx(ctx) == (StoreModel {
                results: Self::ctx(old(ctx)).results.push(final(result)@),
                ..Self::ctx(old(ctx))
            }));
        }
        Ok(result.id)
    }

    fn get_user_statistics(&self, ctx: &mut MemContext) -> (r: Result<
        UserStatistics,
        WordBankError,
    >) {
        let ghost all = word_views(ctx.words@);
        let mut wt: Vec<WordTypeCount> = Vec::new();
        wt.push(
            WordTypeCount {
                kind: WordType::NONE,
                count: count_words_of_kind(&ctx.words, WordType::NONE),
            },
        );
        wt.push(
            WordTypeCount {
                kind: WordType::NOUN,
                count: count_words_of_kind(&ctx.words, WordType::NOUN),
            },
        );
        wt.push(
            WordTypeCount {
                kind: WordType::PRONOUN,
                count: count_words_of_kind(&ctx.words, WordType::PRONOUN),
            },
        );
        wt.push(
            WordTypeCount {
                kind: WordType::VERB,
                count: count_words_of_kind(&ctx.words, WordType::VERB),
            },
        );
        wt.push(
            WordTypeCount {
                kind: WordType::ADJECTIVE,
                count: count_words_of_kind(&ctx.words, WordType::ADJECTIVE),
            },
        );
        wt.push(
            WordTypeCount {
                kind: WordType::ADVERB,
                count: count_words_of_kind(&ctx.words, WordType::ADVERB),
            },
        );
        wt.push(
            WordTypeCount {
                kind: WordType::PREPOSITION,
                count: count_words_of_kind(&ctx.words, WordType::PREPOSITION),
            },
        );
        wt.push(
            WordTypeCount {
                kind: WordType::CONJUNCTION,
                count: count_words_of_kind(&ctx.words, WordType::CONJUNCTION),
            },
        );
        wt.push(
            WordTypeCount {
                kind: WordType::INTERJECTION,
                count: count_words_of_kind(&ctx.words, WordType::INTERJECTION),
            },
        );
        wt.push(
            WordTypeCount {
                kind: WordType::DETERMINER,
                count: count_words_of_kind(&ctx.words, WordType::DETERMINER),
            },
        );
        wt.push(
            WordTypeCount {
                kind: WordType::OTHER,
                count: count_words_of_kind(&ctx.words, WordType::OTHER),
            },
        );
        let s = UserStatistics {
            word_count: ctx.words.len() as u64,
            word_types: wt,
            quiz_count: ctx.results.len() as u64,
        };
        proof {
            assert forall|i: int| 0 <= i < 11 implies (#[trigger] s.word_types@[i]).kind
                == kind_at(i) && s.word_types@[i].count == count_kind(all, kind_at(i)) by {
            }
        }
        Ok(s)
    }
}

} // verus!
