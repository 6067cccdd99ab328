use vstd::prelude::*;

use crate::errors::WordBankError;
use crate::folder::{
    apply_folder_update, folder_matches, Folder, FolderQueryOptions, FolderQueryView, FolderView,
    FolderUpdateOptions,
};
use crate::ident::Id;
use crate::pagination::{PageResult, PaginationOptions};
use crate::quiz::{QuizResult, QuizResultView};
use crate::stats::{stats_ok, UserStatistics};
use crate::word::{
    apply_word_update, word_matches, Word, WordQueryOptions, WordQueryView, WordUpdateOptions,
    WordView,
};

verus! {

// ---------------------------------------------------------------------------
// The abstract store
// ---------------------------------------------------------------------------

/// The mathematical content of the store: every word, folder and quiz result,
/// in store order.
pub struct StoreModel {
    pub words: Seq<WordView>,
    pub folders: Seq<FolderView>,
    pub results: Seq<QuizResultView>,
}

pub open spec fn word_views(s: Seq<Word>) -> Seq<WordView> {
    s.map_values(|w: Word| w@)
}

pub open spec fn folder_views(s: Seq<Folder>) -> Seq<FolderView> {
    s.map_values(|f: Folder| f@)
}

pub open spec fn result_views(s: Seq<QuizResult>) -> Seq<QuizResultView> {
    s.map_values(|r: QuizResult| r@)
}

pub open spec fn has_word_id(ws: Seq<WordView>, id: Id) -> bool {
    exists|i: int| 0 <= i < ws.len() && (#[trigger] ws[i]).id == id
}

pub open spec fn has_folder_id(fs: Seq<FolderView>, id: Id) -> bool {
    exists|i: int| 0 <= i < fs.len() && (#[trigger] fs[i]).id == id
}

/// Identifiers are unique within each collection.
pub open spec fn store_wf(m: StoreModel) -> bool {
    &&& forall|i: int, j: int|
        0 <= i < j < m.words.len() ==> (#[trigger] m.words[i]).id != (#[trigger] m.words[j]).id
    &&& forall|i: int, j: int|
        0 <= i < j < m.folders.len() ==> (#[trigger] m.folders[i]).id != (
        #[trigger] m.folders[j]).id
}

/// The words that satisfy a filter, in store order.
pub open spec fn words_matching(ws: Seq<WordView>, q: WordQueryView) -> Seq<WordView> {
    ws.filter(|w: WordView| word_matches(w, q))
}

/// The folders that satisfy a filter, in store order.
pub open spec fn folders_matching(fs: Seq<FolderView>, q: FolderQueryView) -> Seq<FolderView> {
    fs.filter(|f: FolderView| folder_matches(f, q))
}

/// The words whose id stands in `ids`, in store order.
pub open spec fn words_with_ids(ws: Seq<WordView>, ids: Seq<Id>) -> Seq<WordView> {
    ws.filter(|w: WordView| ids.contains(w.id))
}

/// One page of a result list: the items from `skip` on, at most `limit` of
/// them.
pub open spec fn page_slice<A>(s: Seq<A>, skip: int, limit: int) -> Seq<A> {
    let lo = vstd::math::min(skip, s.len() as int);
    let hi = vstd::math::min(skip + limit, s.len() as int);
    s.subrange(lo, hi)
}

/// A page request the machine can compute an offset for.
pub open spec fn pagination_valid(p: PaginationOptions) -> bool {
    &&& p.page >= 1
    &&& p.limit * (p.page - 1) <= usize::MAX
}

pub open spec fn spec_skip(p: PaginationOptions) -> int {
    p.limit * (p.page - 1)
}

/// What a correct page of results looks like: `results` is the requested
/// slice of `all`, `total` counts every match, and `count` the items
/// actually returned.
pub open spec fn page_ok<A, B>(
    pr: PageResult<A>,
    views: Seq<B>,
    all: Seq<B>,
    p: PaginationOptions,
) -> bool {
    &&& pr.total == all.len()
    &&& pr.page == p.page
    &&& pr.count == pr.results@.len()
    &&& views == page_slice(all, spec_skip(p), p.limit as int)
}

// ---------------------------------------------------------------------------
// The storage capability
// ---------------------------------------------------------------------------

/// The capability every backing store must provide. A `Context` is one unit
/// of work: every operation acts on the context's state, and nothing reaches
/// the durable store before `commit`.
///
/// Each operation either performs exactly the described change or fails with
/// an error and changes nothing. A store for which `reliable()` holds never
/// fails for reasons of its own (connections, conflicts): its operations
/// fail only where a record is genuinely missing.
pub trait DB: Sized {
    type Context;

    /// The store's durable content.
    spec fn durable(&self) -> StoreModel;

    /// The content as the unit of work sees it.
    spec fn ctx(ctx: &Self::Context) -> StoreModel;

    /// Whether operations of this store can fail spuriously.
    spec fn reliable() -> bool;

    /// Opens a unit of work on the current durable content.
    fn new_context(&self) -> (r: Result<Self::Context, WordBankError>)
        requires
            store_wf(self.durable()),
        ensures
            match r {
                Ok(c) => Self::ctx(&c) == self.durable(),
                Err(e) => e == WordBankError::Store,
            },
            Self::reliable() ==> r is Ok,
    ;

    /// Makes the context's state durable and ends the unit of work.
    fn commit(&mut self, ctx: Self::Context) -> (r: Result<(), WordBankError>)
        ensures
            match r {
                Ok(_) => final(self).durable() == Self::ctx(&ctx),
                Err(e) => final(self).durable() == old(self).durable() && e
                    == WordBankError::Store,
            },
            Self::reliable() ==> r is Ok,
    ;

    /// Discards the unit of work; the durable content is untouched.
    fn abort(&self, ctx: Self::Context) -> (r: Result<(), WordBankError>)
        ensures
            Self::reliable() ==> r is Ok,
    ;

    fn insert_word(&self, ctx: &mut Self::Context, word: &Word) -> (r: Result<
        Id,
        WordBankError,
    >)
        requires
            store_wf(Self::ctx(old(ctx))),
        ensures
            store_wf(Self::ctx(final(ctx))),
            match r {
                Ok(id) => {
                    &&& id == word@.id
                    &&& !has_word_id(Self::ctx(old(ctx)).words, word@.id)
                    &&& Self::ctx(final(ctx)) == (StoreModel {
                        words: Self::ctx(old(ctx)).words.push(word@),
                        ..Self::ctx(old(ctx))
                    })
                },
                Err(_) => Self::ctx(final(ctx)) == Self::ctx(old(ctx)),
            },
            Self::reliable() && !has_word_id(Self::ctx(old(ctx)).words, word@.id) ==> r is Ok,
    ;

    fn query_words(
        &self,
        ctx: &mut Self::Context,
        query: WordQueryOptions,
        pagination: PaginationOptions,
    ) -> (r: Result<PageResult<Word>, WordBankError>)
        requires
            store_wf(Self::ctx(old(ctx))),
            pagination_valid(pagination),
        ensures
            Self::ctx(final(ctx)) == Self::ctx(old(ctx)),
            match r {
                Ok(pr) => page_ok(
                    pr,
                    word_views(pr.results@),
                    words_matching(Self::ctx(old(ctx)).words, query@),
                    pagination,
                ),
                Err(e) => e == WordBankError::Store,
            },
            Self::reliable() ==> r is Ok,
    ;

    /// Deletes the word row alone; detaching it from folders is the
    /// client's work.
    fn delete_word(&self, ctx: &mut Self::Context, word_id: Id) -> (r: Result<
        (),
        WordBankError,
    >)
        requires
            store_wf(Self::ctx(old(ctx))),
        ensures
            store_wf(Self::ctx(final(ctx))),
            match r {
                Ok(_) => Self::ctx(final(ctx)) == (StoreModel {
                    words: Self::ctx(old(ctx)).words.filter(|w: WordView| w.id != word_id),
                    ..Self::ctx(old(ctx))
                }),
                Err(e) => Self::ctx(final(ctx)) == Self::ctx(old(ctx)) && e
                    == WordBankError::Store,
            },
            Self::reliable() ==> r is Ok,
    ;

    fn update_word(&self, ctx: &mut Self::Context, update: &WordUpdateOptions) -> (r: Result<
        Word,
        WordBankError,
    >)
        requires
            store_wf(Self::ctx(old(ctx))),
        ensures
            store_wf(Self::ctx(final(ctx))),
            match r {
                Ok(w) => exists|i: int|
                    {
                        &&& 0 <= i < Self::ctx(old(ctx)).words.len()
                        &&& (#[trigger] Self::ctx(old(ctx)).words[i]).id == update@.id
                        &&& w@ == apply_word_update(
                            Self::ctx(old(ctx)).words[i],
                            update@,
                            w@.updated_at,
                        )
                        &&& Self::ctx(final(ctx)) == (StoreModel {
                            words: Self::ctx(old(ctx)).words.update(i, w@),
                            ..Self::ctx(old(ctx))
                        })
                    },
                Err(e) => Self::ctx(final(ctx)) == Self::ctx(old(ctx)) && (e
                    == WordBankError::NotFound ==> !has_word_id(
                    Self::ctx(old(ctx)).words,
                    update@.id,
                )),
            },
            Self::reliable() ==> (r is Ok <==> has_word_id(
                Self::ctx(old(ctx)).words,
                update@.id,
            )) && (r is Err ==> r == Err::<Word, WordBankError>(WordBankError::NotFound)),
    ;

    fn get_words(&self, ctx: &mut Self::Context, ids: &Vec<Id>) -> (r: Result<
        Vec<Word>,
        WordBankError,
    >)
        requires
            store_wf(Self::ctx(old(ctx))),
        ensures
            Self::ctx(final(ctx)) == Self::ctx(old(ctx)),
            match r {
                Ok(ws) => word_views(ws@) == words_with_ids(Self::ctx(old(ctx)).words, ids@),
                Err(e) => e == WordBankError::Store,
            },
            Self::reliable() ==> r is Ok,
    ;

    /// Up to `count` distinct words, chosen by the store.
    fn random_words(&self, ctx: &mut Self::Context, count: u32) -> (r: Result<
        Vec<Word>,
        WordBankError,
    >)
        requires
            store_wf(Self::ctx(old(ctx))),
        ensures
            Self::ctx(final(ctx)) == Self::ctx(old(ctx)),
            match r {
                Ok(ws) => {
                    &&& ws@.len() == vstd::math::min(
                        count as int,
                        Self::ctx(old(ctx)).words.len() as int,
                    )
                    &&& forall|i: int|
                        0 <= i < ws@.len() ==> Self::ctx(old(ctx)).words.contains(
                            #[trigger] word_views(ws@)[i],
                        )
                    &&& forall|i: int, j: int|
                        0 <= i < j < ws@.len() ==> (#[trigger] word_views(ws@)[i]).id != (
                        #[trigger] word_views(ws@)[j]).id
                },
                Err(e) => e == WordBankError::Store,
            },
            Self::reliable() ==> r is Ok,
    ;

    fn insert_folder(&self, ctx: &mut Self::Context, folder: &Folder) -> (r: Result<
        Id,
        WordBankError,
    >)
        requires
            store_wf(Self::ctx(old(ctx))),
        ensures
            store_wf(Self::ctx(final(ctx))),
            match r {
                Ok(id) => {
                    &&& id == folder@.id
                    &&& !has_folder_id(Self::ctx(old(ctx)).folders, folder@.id)
                    &&& Self::ctx(final(ctx)) == (StoreModel {
                        folders: Self::ctx(old(ctx)).folders.push(folder@),
                        ..Self::ctx(old(ctx))
                    })
                },
                Err(_) => Self::ctx(final(ctx)) == Self::ctx(old(ctx)),
            },
            Self::reliable() && !has_folder_id(Self::ctx(old(ctx)).folders, folder@.id) ==> r
                is Ok,
    ;

    fn delete_folder(&self, ctx: &mut Self::Context, folder_id: Id) -> (r: Result<
        (),
        WordBankError,
    >)
        requires
            store_wf(Self::ctx(old(ctx))),
        ensures
            store_wf(Self::ctx(final(ctx))),
            match r {
                Ok(_) => Self::ctx(final(ctx)) == (StoreModel {
                    folders: Self::ctx(old(ctx)).folders.filter(
                        |f: FolderView| f.id != folder_id,
                    ),
                    ..Self::ctx(old(ctx))
                }),
                Err(e) => Self::ctx(final(ctx)) == Self::ctx(old(ctx)) && e
                    == WordBankError::Store,
            },
            Self::reliable() ==> r is Ok,
    ;

    fn update_folder(&self, ctx: &mut Self::Context, update: &FolderUpdateOptions) -> (r: Result<
        (),
        WordBankError,
    >)
        requires
            store_wf(Self::ctx(old(ctx))),
        ensures
            store_wf(Self::ctx(final(ctx))),
            match r {
                Ok(_) => exists|i: int, t: int|
                    {
                        &&& 0 <= i < Self::ctx(old(ctx)).folders.len()
                        &&& Self::ctx(old(ctx)).folders[i].id == update@.id
                        &&& Self::ctx(final(ctx)) == (StoreModel {
                            folders: Self::ctx(old(ctx)).folders.update(
                                i,
                                #[trigger] apply_folder_update(
                                    Self::ctx(old(ctx)).folders[i],
                                    update@,
                                    t,
                                ),
                            ),
                            ..Self::ctx(old(ctx))
                        })
                    },
                Err(e) => Self::ctx(final(ctx)) == Self::ctx(old(ctx)) && (e
                    == WordBankError::NotFound ==> !has_folder_id(
                    Self::ctx(old(ctx)).folders,
                    update@.id,
                )),
            },
            Self::reliable() ==> (r is Ok <==> has_folder_id(
                Self::ctx(old(ctx)).folders,
                update@.id,
            )) && (r is Err ==> r == Err::<(), WordBankError>(WordBankError::NotFound)),
    ;

    fn query_folders(
        &self,
        ctx: &mut Self::Context,
        query: FolderQueryOptions,
        pagination: PaginationOptions,
    ) -> (r: Result<PageResult<Folder>, WordBankError>)
        requires
            store_wf(Self::ctx(old(ctx))),
            pagination_valid(pagination),
        ensures
            Self::ctx(final(ctx)) == Self::ctx(old(ctx)),
            match r {
                Ok(pr) => page_ok(
                    pr,
                    folder_views(pr.results@),
                    folders_matching(Self::ctx(old(ctx)).folders, query@),
                    pagination,
                ),
                Err(e) => e == WordBankError::Store,
            },
            Self::reliable() ==> r is Ok,
    ;

    fn get_folder(&self, ctx: &mut Self::Context, folder_id: Id) -> (r: Result<
        Folder,
        WordBankError,
    >)
        requires
            store_wf(Self::ctx(old(ctx))),
        ensures
            Self::ctx(final(ctx)) == Self::ctx(old(ctx)),
            match r {
                Ok(f) => f@.id == folder_id && Self::ctx(old(ctx)).folders.contains(f@),
                Err(e) => e == WordBankError::NotFound ==> !has_folder_id(
                    Self::ctx(old(ctx)).folders,
                    folder_id,
                ),
            },
            Self::reliable() ==> (r is Ok <==> has_folder_id(
                Self::ctx(old(ctx)).folders,
                folder_id,
            )) && (r is Err ==> r == Err::<Folder, WordBankError>(WordBankError::NotFound)),
    ;

    /// Stamps the result's creation time and persists it.
    fn insert_quiz_result(&self, ctx: &mut Self::Context, result: &mut QuizResult) -> (r: Result<
        Id,
        WordBankError,
    >)
        requires
            store_wf(Self::ctx(old(ctx))),
        ensures
            store_wf(Self::ctx(final(ctx))),
            final(result)@.id == old(result)@.id,
            final(result)@.questions == old(result)@.questions,
            match r {
                Ok(id) => {
                    &&& id == old(result)@.id
                    &&& Self::ctx(final(ctx)) == (StoreModel {
                        results: Self::ctx(old(ctx)).results.push(final(result)@),
                        ..Self::ctx(old(ctx))
                    })
                },
                Err(e) => Self::ctx(final(ctx)) == Self::ctx(old(ctx)) && e
                    == WordBankError::Store,
            },
            Self::reliable() ==> r is Ok,
    ;

    fn get_user_statistics(&self, ctx: &mut Self::Context) -> (r: Result<
        UserStatistics,
        WordBankError,
    >)
        requires
            store_wf(Self::ctx(old(ctx))),
        ensures
            Self::ctx(final(ctx)) == Self::ctx(old(ctx)),
            match r {
                Ok(s) => stats_ok(
                    s,
                    Self::ctx(old(ctx)).words,
                    Self::ctx(old(ctx)).results.len() as int,
                ),
                Err(e) => e == WordBankError::Store,
            },
            Self::reliable() ==> r is Ok,
    ;
}

// ---------------------------------------------------------------------------
// Laws
// ---------------------------------------------------------------------------

/// Law: round trip through the store. A word whose id is fresh, once
/// inserted, is returned alone and unchanged by a fetch-by-ids of its id.
pub proof fn lemma_insert_then_get(words: Seq<WordView>, w: WordView)
    requires
        !has_word_id(words, w.id),
    ensures
        words_with_ids(words.push(w), seq![w.id]) == seq![w],
{
    reveal(Seq::filter);
    let p = |x: WordView| seq![w.id].contains(x.id);
    assert(seq![w.id][0] == w.id);
    assert(p(w));
    assert(words.push(w).drop_last() =~= words);
    assert(words.push(w).last() == w);
    if words.filter(p).len() > 0 {
        words.lemma_filter_pred(p, 0);
        words.lemma_filter_contains_rev(p, words.filter(p)[0]);
        let i = choose|i: int| 0 <= i < words.len() && words[i] == words.filter(p)[0];
        let j = choose|j: int|
            0 <= j < seq![w.id].len() && seq![w.id][j] == words.filter(p)[0].id;
        assert(words[i].id == w.id);
    }
    assert(words.filter(p).len() == 0);
    assert(words_with_ids(words.push(w), seq![w.id]) =~= seq![w]);
}

} // verus!
