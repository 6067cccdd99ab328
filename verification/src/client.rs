use vstd::prelude::*;

use crate::clock::now;
use crate::errors::WordBankError;
use crate::folder::{clone_ids, folder_matches, ParentUpdate, Folder, FolderContent, FolderQueryOptions, FolderQueryView, FolderUpdateOptions, FolderView, ParentFilter};
use crate::ident::{fresh_id, Id};
use crate::pagination::{PageResult, PaginationOptions};
use crate::quiz::{Quiz, QuizOptions, QuizResult};
use crate::stats::{stats_ok, UserStatistics};
use crate::store::{
    folder_views, folders_matching, has_folder_id, has_word_id, page_ok, page_slice,
    pagination_valid, spec_skip, store_wf, word_views, words_matching, words_with_ids, StoreModel,
    DB,
};
use crate::word::{Word, WordQueryOptions, WordUpdateOptions, WordView, apply_word_update};

verus! {

/// Internal "fetch everything" calls are bounded by this page size rather
/// than an unbounded scan; it is a hard limit on folder fan-out.
pub const PAGINATION_LIMIT: usize = 10000;

/// The orchestration layer: composes storage calls into atomic,
/// invariant-preserving operations over any store that provides [`DB`].
pub struct WordBankClient<T: DB> {
    db: T,
}

impl<T: DB> WordBankClient<T> {
    /// The durable content behind this client.
    pub closed spec fn durable(&self) -> StoreModel {
        self.db.durable()
    }

    pub fn new(db: T) -> (r: WordBankClient<T>)
        ensures
            r.durable() == db.durable(),
    {
        WordBankClient { db }
    }

    /// Opens a unit of work; every operation of one logical request runs in
    /// it, and nothing becomes durable before [`Self::commit`].
    pub fn new_context(&self) -> (r: Result<T::Context, WordBankError>)
        requires
            store_wf(self.durable()),
        ensures
            match r {
                Ok(c) => T::ctx(&c) == self.durable(),
                Err(e) => e == WordBankError::Store,
            },
            T::reliable() ==> r is Ok,
    {
        self.db.new_context()
    }

    /// Makes the unit of work durable. Taking the context by value, a unit
    /// of work can be committed at most once.
    pub fn commit(&mut self, ctx: T::Context) -> (r: Result<(), WordBankError>)
        ensures
            match r {
                Ok(_) => final(self).durable() == T::ctx(&ctx),
                Err(e) => final(self).durable() == old(self).durable() && e
                    == WordBankError::Store,
            },
            T::reliable() ==> r is Ok,
    {
        self.db.commit(ctx)
    }

    /// Discards the unit of work; the durable content is untouched.
    pub fn abort(&self, ctx: T::Context) -> (r: Result<(), WordBankError>)
        ensures
            T::reliable() ==> r is Ok,
    {
        self.db.abort(ctx)
    }

    /// Validates that the word carries at least one translation, stamps both
    /// timestamps to the same instant, and inserts it. A word without
    /// translations is rejected with a validation error and nothing is
    /// written.
    pub fn insert_word(&self, ctx: &mut T::Context, word: &mut Word) -> (r: Result<
        Id,
        WordBankError,
    >)
        requires
            store_wf(T::ctx(old(ctx))),
        ensures
            store_wf(T::ctx(final(ctx))),
            final(word)@ == (WordView {
                created_at: final(word)@.created_at,
                updated_at: final(word)@.updated_at,
                ..old(word)@
            }),
            final(word)@.created_at == final(word)@.updated_at,
            match r {
                Ok(id) => {
                    &&& id == old(word)@.id
                    &&& old(word)@.translations.len() > 0
                    &&& !has_word_id(T::ctx(old(ctx)).words, old(word)@.id)
                    &&& T::ctx(final(ctx)) == (StoreModel {
                        words: T::ctx(old(ctx)).words.push(final(word)@),
                        ..T::ctx(old(ctx))
                    })
                },
                Err(_) => T::ctx(final(ctx)) == T::ctx(old(ctx)),
            },
            old(word)@.translations.len() == 0 ==> r == Err::<Id, WordBankError>(
                WordBankError::Validation,
            ),
            T::reliable() && old(word)@.translations.len() > 0 && !has_word_id(
                T::ctx(old(ctx)).words,
                old(word)@.id,
            ) ==> r is Ok,
    {
        let t = now();
        word.update_time(t);
        if word.translations.len() == 0 {
            return Err(WordBankError::Validation);
        }
        self.db.insert_word(ctx, word)
    }

    /// One page of the words that match a filter.
    pub fn query_words(
        &self,
        ctx: &mut T::Context,
        filter: WordQueryOptions,
        pagination: PaginationOptions,
    ) -> (r: Result<PageResult<Word>, WordBankError>)
        requires
            store_wf(T::ctx(old(ctx))),
            pagination_valid(pagination),
        ensures
            T::ctx(final(ctx)) == T::ctx(old(ctx)),
            match r {
                Ok(pr) => page_ok(
                    pr,
                    word_views(pr.results@),
                    words_matching(T::ctx(old(ctx)).words, filter@),
                    pagination,
                ),
                Err(e) => e == WordBankError::Store,
            },
            T::reliable() ==> r is Ok,
    {
        self.db.query_words(ctx, filter, pagination)
    }

    /// Applies a partial update to one word and returns it as updated.
    pub fn update_word(&self, ctx: &mut T::Context, update_options: WordUpdateOptions) -> (r:
        Result<Word, WordBankError>)
        requires
            store_wf(T::ctx(old(ctx))),
        ensures
            store_wf(T::ctx(final(ctx))),
            match r {
                Ok(w) => exists|i: int|
                    {
                        &&& 0 <= i < T::ctx(old(ctx)).words.len()
                        &&& (#[trigger] T::ctx(old(ctx)).words[i]).id == update_options@.id
                        &&& w@ == apply_word_update(
                            T::ctx(old(ctx)).words[i],
                            update_options@,
                            w@.updated_at,
                        )
                        &&& T::ctx(final(ctx)) == (StoreModel {
                            words: T::ctx(old(ctx)).words.update(i, w@),
                            ..T::ctx(old(ctx))
                        })
                    },
                Err(e) => T::ctx(final(ctx)) == T::ctx(old(ctx)) && (e == WordBankError::NotFound
                    ==> !has_word_id(T::ctx(old(ctx)).words, update_options@.id)),
            },
            T::reliable() ==> (r is Ok <==> has_word_id(
                T::ctx(old(ctx)).words,
                update_options@.id,
            )),
    {
        self.db.update_word(ctx, &update_options)
    }

    /// Up to `count` distinct words, chosen by the store; all of them when
    /// the store holds fewer.
    pub fn get_random_words(&self, ctx: &mut T::Context, count: u32) -> (r: Result<
        Vec<Word>,
        WordBankError,
    >)
        requires
            store_wf(T::ctx(old(ctx))),
        ensures
            T::ctx(final(ctx)) == T::ctx(old(ctx)),
            match r {
                Ok(ws) => {
                    &&& ws@.len() == vstd::math::min(
                        count as int,
                        T::ctx(old(ctx)).words.len() as int,
                    )
                    &&& forall|i: int|
                        0 <= i < ws@.len() ==> T::ctx(old(ctx)).words.contains(
                            #[trigger] word_views(ws@)[i],
                        )
                    &&& forall|i: int, j: int|
                        0 <= i < j < ws@.len() ==> (#[trigger] word_views(ws@)[i]).id != (
                        #[trigger] word_views(ws@)[j]).id
                },
                Err(e) => e == WordBankError::Store,
            },
            T::reliable() ==> r is Ok,
    {
        self.db.random_words(ctx, count)
    }

    /// Stamps both timestamps to the same instant and inserts the folder.
    /// Whether a given parent exists is the caller's responsibility.
    pub fn insert_folder(&self, ctx: &mut T::Context, folder: &mut Folder) -> (r: Result<
        Id,
        WordBankError,
    >)
        requires
            store_wf(T::ctx(old(ctx))),
        ensures
            store_wf(T::ctx(final(ctx))),
            final(folder)@ == (FolderView {
                created_at: final(folder)@.created_at,
                updated_at: final(folder)@.updated_at,
                ..old(folder)@
            }),
            final(folder)@.created_at == final(folder)@.updated_at,
            match r {
                Ok(id) => {
                    &&& id == old(folder)@.id
                    &&& !has_folder_id(T::ctx(old(ctx)).folders, old(folder)@.id)
                    &&& T::ctx(final(ctx)) == (StoreModel {
                        folders: T::ctx(old(ctx)).folders.push(final(folder)@),
                        ..T::ctx(old(ctx))
                    })
                },
                Err(_) => T::ctx(final(ctx)) == T::ctx(old(ctx)),
            },
            T::reliable() && !has_folder_id(T::ctx(old(ctx)).folders, old(folder)@.id) ==> r
                is Ok,
    {
        let t = now();
        folder.update_time(t);
        self.db.insert_folder(ctx, folder)
    }

    /// One page of the folders that match a filter.
    pub fn query_folders(
        &self,
        ctx: &mut T::Context,
        filter: FolderQueryOptions,
        pagination: PaginationOptions,
    ) -> (r: Result<PageResult<Folder>, WordBankError>)
        requires
            store_wf(T::ctx(old(ctx))),
            pagination_valid(pagination),
        ensures
            T::ctx(final(ctx)) == T::ctx(old(ctx)),
            match r {
                Ok(pr) => page_ok(
                    pr,
                    folder_views(pr.results@),
                    folders_matching(T::ctx(old(ctx)).folders, filter@),
                    pagination,
                ),
                Err(e) => e == WordBankError::Store,
            },
            T::reliable() ==> r is Ok,
    {
        self.db.query_folders(ctx, filter, pagination)
    }

    /// Applies a partial update to one folder.
    pub fn update_folder(&self, ctx: &mut T::Context, update_options: FolderUpdateOptions) -> (r:
        Result<(), WordBankError>)
        requires
            store_wf(T::ctx(old(ctx))),
        ensures
            store_wf(T::ctx(final(ctx))),
            match r {
                Ok(_) => exists|i: int, t: int|
                    {
                        &&& 0 <= i < T::ctx(old(ctx)).folders.len()
                        &&& T::ctx(old(ctx)).folders[i].id == update_options@.id
                        &&& T::ctx(final(ctx)) == (StoreModel {
                            folders: T::ctx(old(ctx)).folders.update(
                                i,
                                #[trigger] crate::folder::apply_folder_update(
                                    T::ctx(old(ctx)).folders[i],
                                    update_options@,
                                    t,
                                ),
                            ),
                            ..T::ctx(old(ctx))
                        })
                    },
                Err(e) => T::ctx(final(ctx)) == T::ctx(old(ctx)) && (e == WordBankError::NotFound
                    ==> !has_folder_id(T::ctx(old(ctx)).folders, update_options@.id)),
            },
            T::reliable() ==> (r is Ok <==> has_folder_id(
                T::ctx(old(ctx)).folders,
                update_options@.id,
            )),
    {
        self.db.update_folder(ctx, &update_options)
    }

    /// Fetches one folder by id.
    pub fn get_folder(&self, ctx: &mut T::Context, folder_id: Id) -> (r: Result<
        Folder,
        WordBankError,
    >)
        requires
            store_wf(T::ctx(old(ctx))),
        ensures
            T::ctx(final(ctx)) == T::ctx(old(ctx)),
            match r {
                Ok(f) => f@.id == folder_id && T::ctx(old(ctx)).folders.contains(f@),
                Err(e) => e == WordBankError::NotFound ==> !has_folder_id(
                    T::ctx(old(ctx)).folders,
                    folder_id,
                ),
            },
            T::reliable() ==> (r is Ok <==> has_folder_id(T::ctx(old(ctx)).folders, folder_id)),
    {
        self.db.get_folder(ctx, folder_id)
    }

    /// Stamps the result's creation time and persists it.
    pub fn insert_quiz_result(&self, ctx: &mut T::Context, result: &mut QuizResult) -> (r: Result<
        Id,
        WordBankError,
    >)
        requires
            store_wf(T::ctx(old(ctx))),
        ensures
            store_wf(T::ctx(final(ctx))),
            final(result)@.id == old(result)@.id,
            final(result)@.questions == old(result)@.questions,
            match r {
                Ok(id) => {
                    &&& id == old(result)@.id
                    &&& T::ctx(final(ctx)) == (StoreModel {
                        results: T::ctx(old(ctx)).results.push(final(result)@),
                        ..T::ctx(old(ctx))
                    })
                },
                Err(e) => T::ctx(final(ctx)) == T::ctx(old(ctx)) && e == WordBankError::Store,
            },
            T::reliable() ==> r is Ok,
    {
        self.db.insert_quiz_result(ctx, result)
    }

    /// Aggregated counts over the store's current content.
    pub fn get_user_statistics(&self, ctx: &mut T::Context) -> (r: Result<
        UserStatistics,
        WordBankError,
    >)
        requires
            store_wf(T::ctx(old(ctx))),
        ensures
            T::ctx(final(ctx)) == T::ctx(old(ctx)),
            match r {
                Ok(s) => stats_ok(
                    s,
                    T::ctx(old(ctx)).words,
                    T::ctx(old(ctx)).results.len() as int,
                ),
                Err(e) => e == WordBankError::Store,
            },
            T::reliable() ==> r is Ok,
    {
        self.db.get_user_statistics(ctx)
    }
}

// ---------------------------------------------------------------------------
// Composite queries, named
// ---------------------------------------------------------------------------

/// The direct children of the folder with the given id.
pub open spec fn children_of(fs: Seq<FolderView>, id: Id) -> Seq<FolderView> {
    fs.filter(|f: FolderView| f.parent == Some(id))
}

/// Whether any folder names the given folder as its parent.
pub open spec fn has_child(fs: Seq<FolderView>, id: Id) -> bool {
    exists|j: int| 0 <= j < fs.len() && (#[trigger] fs[j]).parent == Some(id)
}

/// The folders whose id stands in `ids`.
pub open spec fn folders_with_ids(fs: Seq<FolderView>, ids: Seq<Id>) -> Seq<FolderView> {
    fs.filter(|f: FolderView| ids.contains(f.id))
}

/// The word-id lists of the folders, concatenated in order.
pub open spec fn flatten_folder_words(fs: Seq<FolderView>) -> Seq<Id>
    decreases fs.len(),
{
    if fs.len() == 0 {
        Seq::empty()
    } else {
        flatten_folder_words(fs.drop_last()) + fs.last().words
    }
}

/// The filter that keeps exactly the children of one folder.
pub open spec fn child_query(id: Id) -> FolderQueryView {
    FolderQueryView { query: None, words: None, parent: ParentFilter::Of(id), ids: None }
}

/// The filter that keeps exactly the folders of an id set.
pub open spec fn ids_query(ids: Seq<Id>) -> FolderQueryView {
    FolderQueryView { query: None, words: None, parent: ParentFilter::Any, ids: Some(ids) }
}

/// How many words a quiz asks for: the requested count, or 16.
pub open spec fn requested_count(o: crate::quiz::QuizOptionsView) -> int {
    match o.words.count {
        Some(c) => c as int,
        None => 16,
    }
}

proof fn lemma_filter_equiv<A>(s: Seq<A>, p1: spec_fn(A) -> bool, p2: spec_fn(A) -> bool)
    requires
        forall|x: A| #[trigger] p1(x) == p2(x),
    ensures
        s.filter(p1) == s.filter(p2),
    decreases s.len(),
{
    reveal(Seq::filter);
    if s.len() > 0 {
        lemma_filter_equiv(s.drop_last(), p1, p2);
        assert(p1(s.last()) == p2(s.last()));
    }
}

proof fn lemma_children_query(fs: Seq<FolderView>, id: Id)
    ensures
        folders_matching(fs, child_query(id)) == children_of(fs, id),
{
    let p1 = |f: FolderView| folder_matches(f, child_query(id));
    let p2 = |f: FolderView| f.parent == Some(id);
    assert forall|f: FolderView| #[trigger] p1(f) == p2(f) by {
        assert(folder_matches(f, child_query(id)) == (f.parent == Some(id)));
    }
    lemma_filter_equiv(fs, p1, p2);
}

proof fn lemma_ids_query(fs: Seq<FolderView>, ids: Seq<Id>)
    ensures
        folders_matching(fs, ids_query(ids)) == folders_with_ids(fs, ids),
{
    let p1 = |f: FolderView| folder_matches(f, ids_query(ids));
    let p2 = |f: FolderView| ids.contains(f.id);
    assert forall|f: FolderView| #[trigger] p1(f) == p2(f) by {
        assert(folder_matches(f, ids_query(ids)) == ids.contains(f.id));
    }
    lemma_filter_equiv(fs, p1, p2);
}

proof fn lemma_children_nonempty(fs: Seq<FolderView>, id: Id)
    ensures
        children_of(fs, id).len() > 0 <==> has_child(fs, id),
{
    let p = |f: FolderView| f.parent == Some(id);
    if children_of(fs, id).len() > 0 {
        fs.lemma_filter_pred(p, 0);
        fs.lemma_filter_contains_rev(p, fs.filter(p)[0]);
        let j = choose|j: int| 0 <= j < fs.len() && fs[j] == fs.filter(p)[0];
        assert(fs[j].parent == Some(id));
    }
    if has_child(fs, id) {
        let j = choose|j: int| 0 <= j < fs.len() && (#[trigger] fs[j]).parent == Some(id);
        fs.lemma_filter_contains(p, j);
        let k = choose|k: int| 0 <= k < fs.filter(p).len() && fs.filter(p)[k] == fs[j];
    }
}

fn flatten_exec(fs: &Vec<Folder>) -> (r: Vec<Id>)
    ensures
        r@ == flatten_folder_words(folder_views(fs@)),
{
    let ghost all = folder_views(fs@);
    let mut out: Vec<Id> = Vec::new();
    let mut i: usize = 0;
    proof {
        assert(out@ =~= flatten_folder_words(all.subrange(0, 0)));
    }
    while i < fs.len()
        invariant
            all == folder_views(fs@),
            i <= fs@.len(),
            out@ == flatten_folder_words(all.subrange(0, i as int)),
        decreases fs@.len() - i,
    {
        let w = &fs[i].words;
        let mut j: usize = 0;
        while j < w.len()
            invariant
                all == folder_views(fs@),
                i < fs@.len(),
                w == &fs@[i as int].words,
                j <= w@.len(),
                out@ == flatten_folder_words(all.subrange(0, i as int)) + w@.subrange(
                    0,
                    j as int,
                ),
            decreases w@.len() - j,
        {
            out.push(w[j]);
            j = j + 1;
            proof {
                assert(out@ =~= flatten_folder_words(all.subrange(0, i as int)) + w@.subrange(
                    0,
                    j as int,
                ));
            }
        }
        i = i + 1;
        proof {
            assert(all.subrange(0, i as int).drop_last() =~= all.subrange(0, i - 1));
            assert(all.subrange(0, i as int).last() == all[i - 1]);
            assert(all[i - 1].words == fs@[i - 1]@.words);
            assert(w@.subrange(0, w@.len() as int) =~= w@);
            assert(out@ =~= flatten_folder_words(all.subrange(0, i as int)));
        }
    }
    proof {
        assert(all.subrange(0, all.len() as int) =~= all);
    }
    out
}

impl<T: DB> WordBankClient<T> {
    /// Deletes a folder, but only when it is both empty of words and has no
    /// child folders; either condition is a conflict, and a conflict leaves
    /// the store unchanged.
    pub fn delete_folder(&self, ctx: &mut T::Context, folder_id: Id) -> (r: Result<
        (),
        WordBankError,
    >)
        requires
            store_wf(T::ctx(old(ctx))),
        ensures
            store_wf(T::ctx(final(ctx))),
            match r {
                Ok(_) => {
                    &&& has_folder_id(T::ctx(old(ctx)).folders, folder_id)
                    &&& T::ctx(final(ctx)) == (StoreModel {
                        folders: T::ctx(old(ctx)).folders.filter(
                            |f: FolderView| f.id != folder_id,
                        ),
                        ..T::ctx(old(ctx))
                    })
                },
                Err(_) => T::ctx(final(ctx)) == T::ctx(old(ctx)),
            },
            (exists|i: int|
                0 <= i < T::ctx(old(ctx)).folders.len() && (#[trigger] T::ctx(
                    old(ctx),
                ).folders[i]).id == folder_id && T::ctx(old(ctx)).folders[i].words.len() > 0)
                ==> r is Err && (T::reliable() ==> r == Err::<(), WordBankError>(
                WordBankError::Conflict,
            )),
            has_folder_id(T::ctx(old(ctx)).folders, folder_id) && has_child(
                T::ctx(old(ctx)).folders,
                folder_id,
            ) ==> r is Err && (T::reliable() ==> r == Err::<(), WordBankError>(
                WordBankError::Conflict,
            )),
            T::reliable() && has_folder_id(T::ctx(old(ctx)).folders, folder_id) && (forall|
                i: int,
            |
                0 <= i < T::ctx(old(ctx)).folders.len() && (#[trigger] T::ctx(
                    old(ctx),
                ).folders[i]).id == folder_id ==> T::ctx(old(ctx)).folders[i].words.len() == 0)
                && !has_child(T::ctx(old(ctx)).folders, folder_id) ==> r is Ok,
    {
        let ghost fs0 = T::ctx(old(ctx)).folders;
        let folder = match self.db.get_folder(ctx, folder_id) {
            Ok(f) => f,
            Err(e) => {
                return Err(e);
            },
        };
        proof {
            let i0 = choose|i: int| 0 <= i < fs0.len() && fs0[i] == folder@;
            assert forall|i: int|
                0 <= i < fs0.len() && (#[trigger] fs0[i]).id == folder_id implies fs0[i]
                == folder@ by {
                if i < i0 {
                    assert(fs0[i].id != fs0[i0].id);
                } else if i0 < i {
                    assert(fs0[i0].id != fs0[i].id);
                }
            }
        }
        if folder.words.len() > 0 {
            proof {
                if has_folder_id(fs0, folder_id) {
                    let iw = choose|i: int|
                        0 <= i < fs0.len() && (#[trigger] fs0[i]).id == folder_id;
                    assert(fs0[iw] == folder@);
                    assert(fs0[iw].words.len() > 0);
                }
            }
            return Err(WordBankError::Conflict);
        }
        let children = match self.db.query_folders(
            ctx,
            FolderQueryOptions {
                query: None,
                words: None,
                parent: ParentFilter::Of(folder.id),
                ids: None,
            },
            PaginationOptions::new(PAGINATION_LIMIT, 1),
        ) {
            Ok(pr) => pr,
            Err(e) => {
                return Err(e);
            },
        };
        proof {
            lemma_children_query(fs0, folder_id);
            lemma_children_nonempty(fs0, folder_id);
        }
        if children.results.len() > 0 {
            proof {
                assert(folder_views(children.results@).len() > 0);
                assert(children_of(fs0, folder_id).len() > 0) by {
                    if children_of(fs0, folder_id).len() == 0 {
                        assert(folder_views(children.results@) == page_slice(
                            children_of(fs0, folder_id),
                            0,
                            PAGINATION_LIMIT as int,
                        ));
                        assert(false);
                    }
                }
                assert(has_child(fs0, folder_id));
            }
            return Err(WordBankError::Conflict);
        }
        proof {
            // An empty page of an unskipped query means no folder matched.
            assert(folder_views(children.results@).len() == 0);
            assert(children_of(fs0, folder_id).len() == 0) by {
                if children_of(fs0, folder_id).len() > 0 {
                    assert(folder_views(children.results@) == page_slice(
                        children_of(fs0, folder_id),
                        0,
                        PAGINATION_LIMIT as int,
                    ));
                    assert(page_slice(
                        children_of(fs0, folder_id),
                        0,
                        PAGINATION_LIMIT as int,
                    ).len() > 0);
                    assert(false);
                }
            }
            assert(!has_child(fs0, folder_id));
        }
        self.db.delete_folder(ctx, folder.id)
    }

    /// Resolves one page of a folder's direct children together with the
    /// hydrated words its word list refers to. A read; the store is
    /// unchanged.
    pub fn get_folder_content(&self, ctx: &mut T::Context, folder: &Folder) -> (r: Result<
        FolderContent,
        WordBankError,
    >)
        requires
            store_wf(T::ctx(old(ctx))),
        ensures
            T::ctx(final(ctx)) == T::ctx(old(ctx)),
            match r {
                Ok(c) => {
                    &&& folder_views(c.folders@) == page_slice(
                        children_of(T::ctx(old(ctx)).folders, folder@.id),
                        0,
                        PAGINATION_LIMIT as int,
                    )
                    &&& word_views(c.words@) == words_with_ids(
                        T::ctx(old(ctx)).words,
                        folder@.words,
                    )
                },
                Err(e) => e == WordBankError::Store,
            },
            T::reliable() ==> r is Ok,
    {
        let folders_page = match self.db.query_folders(
            ctx,
            FolderQueryOptions {
                query: None,
                words: None,
                parent: ParentFilter::Of(folder.id),
                ids: None,
            },
            PaginationOptions::new(PAGINATION_LIMIT, 1),
        ) {
            Ok(pr) => pr,
            Err(e) => {
                return Err(e);
            },
        };
        proof {
            lemma_children_query(T::ctx(old(ctx)).folders, folder@.id);
        }
        let words = match self.db.get_words(ctx, &folder.words) {
            Ok(ws) => ws,
            Err(e) => {
                return Err(e);
            },
        };
        Ok(FolderContent { words, folders: folders_page.results })
    }

    /// Assembles an ephemeral quiz: the words of the given folders, or up to
    /// the requested number of store-chosen words. Nothing is persisted.
    pub fn initialize_quiz(&self, ctx: &mut T::Context, options: &QuizOptions) -> (r: Result<
        Quiz,
        WordBankError,
    >)
        requires
            store_wf(T::ctx(old(ctx))),
        ensures
            T::ctx(final(ctx)) == T::ctx(old(ctx)),
            match r {
                Ok(q) => {
                    &&& q@.options == options@
                    &&& match options@.words.folders {
                        Some(fids) => q@.words == words_with_ids(
                            T::ctx(old(ctx)).words,
                            flatten_folder_words(
                                page_slice(
                                    folders_with_ids(T::ctx(old(ctx)).folders, fids),
                                    0,
                                    10,
                                ),
                            ),
                        ),
                        None => {
                            &&& q@.words.len() == vstd::math::min(
                                requested_count(options@),
                                T::ctx(old(ctx)).words.len() as int,
                            )
                            &&& forall|i: int|
                                0 <= i < q@.words.len() ==> T::ctx(old(ctx)).words.contains(
                                    #[trigger] q@.words[i],
                                )
                            &&& forall|i: int, j: int|
                                0 <= i < j < q@.words.len() ==> (#[trigger] q@.words[i]).id != (
                                #[trigger] q@.words[j]).id
                        },
                    }
                },
                Err(e) => e == WordBankError::Store,
            },
            T::reliable() ==> r is Ok,
    {
        let words: Vec<Word> = match &options.words.folders {
            Some(f_ids) => {
                let fs = match self.db.query_folders(
                    ctx,
                    FolderQueryOptions {
                        query: None,
                        words: None,
                        parent: ParentFilter::Any,
                        ids: Some(clone_ids(f_ids)),
                    },
                    PaginationOptions::new(10, 1),
                ) {
                    Ok(pr) => pr,
                    Err(e) => {
                        return Err(e);
                    },
                };
                proof {
                    lemma_ids_query(T::ctx(old(ctx)).folders, f_ids@);
                }
                let word_ids = flatten_exec(&fs.results);
                match self.db.get_words(ctx, &word_ids) {
                    Ok(ws) => ws,
                    Err(e) => {
                        return Err(e);
                    },
                }
            },
            None => {
                let count: u32 = match options.words.count {
                    Some(c) => c,
                    None => 16,
                };
                match self.db.random_words(ctx, count) {
                    Ok(ws) => ws,
                    Err(e) => {
                        return Err(e);
                    },
                }
            },
        };
        let quiz = Quiz { id: fresh_id(), words, options: options.clone() };
        proof {
            assert(quiz@.words =~= word_views(quiz.words@));
        }
        Ok(quiz)
    }
}

// ---------------------------------------------------------------------------
// Deleting a word, with its cascade
// ---------------------------------------------------------------------------

/// The folders whose word list holds the given word id.
pub open spec fn folders_with_word(fs: Seq<FolderView>, wid: Id) -> Seq<FolderView> {
    fs.filter(|f: FolderView| f.words.contains(wid))
}

/// The filter that keeps exactly the folders holding one word id.
pub open spec fn word_query(wid: Id) -> FolderQueryView {
    FolderQueryView { query: None, words: Some(seq![wid]), parent: ParentFilter::Any, ids: None }
}

/// The id list with every occurrence of one id removed, order kept.
pub open spec fn without_id(w: Seq<Id>, wid: Id) -> Seq<Id>
    decreases w.len(),
{
    if w.len() == 0 {
        w
    } else if w.last() == wid {
        without_id(w.drop_last(), wid)
    } else {
        without_id(w.drop_last(), wid).push(w.last())
    }
}

/// How deleting a word may touch a folder: everything but the word list and
/// the update stamp is kept, and the word list is either untouched or has
/// exactly the deleted id removed.
pub open spec fn folder_cleaned(fo: FolderView, fc: FolderView, wid: Id) -> bool {
    &&& fc.id == fo.id
    &&& fc.name == fo.name
    &&& fc.parent == fo.parent
    &&& fc.created_at == fo.created_at
    &&& (fc.words == fo.words || fc.words == without_id(fo.words, wid))
}

proof fn lemma_word_query(fs: Seq<FolderView>, wid: Id)
    ensures
        folders_matching(fs, word_query(wid)) == folders_with_word(fs, wid),
{
    let p1 = |f: FolderView| folder_matches(f, word_query(wid));
    let p2 = |f: FolderView| f.words.contains(wid);
    assert forall|f: FolderView| #[trigger] p1(f) == p2(f) by {
        if f.words.contains(wid) {
            assert(seq![wid][0] == wid);
            assert(crate::folder::any_word_in(f.words, seq![wid]));
        }
        if crate::folder::any_word_in(f.words, seq![wid]) {
            let i = choose|i: int|
                0 <= i < seq![wid].len() && f.words.contains(#[trigger] seq![wid][i]);
            assert(seq![wid][i] == wid);
        }
    }
    lemma_filter_equiv(fs, p1, p2);
}

proof fn lemma_remove_one(w: Seq<Id>, wid: Id)
    ensures
        crate::folder::apply_folder_words(w, None, Some(seq![wid])) == without_id(w, wid),
    decreases w.len(),
{
    reveal(Seq::filter);
    broadcast use vstd::seq_lib::group_seq_properties;

    if w.len() > 0 {
        lemma_remove_one(w.drop_last(), wid);
        assert(crate::folder::apply_folder_words(w.drop_last(), None, Some(seq![wid]))
            == without_id(w.drop_last(), wid));
        assert(seq![wid].contains(w.last()) <==> w.last() == wid) by {
            if seq![wid].contains(w.last()) {
                let i = choose|i: int| 0 <= i < seq![wid].len() && seq![wid][i] == w.last();
                assert(seq![wid][i] == wid);
            }
            if w.last() == wid {
                assert(seq![wid][0] == w.last());
            }
        }
    }
}

proof fn lemma_without_id(w: Seq<Id>, wid: Id)
    ensures
        !without_id(w, wid).contains(wid),
        without_id(without_id(w, wid), wid) == without_id(w, wid),
    decreases w.len(),
{
    broadcast use vstd::seq_lib::group_seq_properties;

    if w.len() > 0 {
        lemma_without_id(w.drop_last(), wid);
        let u = without_id(w.drop_last(), wid);
        if w.last() != wid {
            assert(without_id(w, wid) == u.push(w.last()));
            assert(!u.push(w.last()).contains(wid)) by {
                if u.push(w.last()).contains(wid) {
                    let i = choose|i: int|
                        0 <= i < u.push(w.last()).len() && u.push(w.last())[i] == wid;
                    if i < u.len() {
                        assert(u[i] == wid);
                        assert(u.contains(wid));
                    } else {
                        assert(w.last() == wid);
                    }
                }
            }
            assert(u.push(w.last()).drop_last() =~= u);
            assert(u.push(w.last()).last() == w.last());
            assert(without_id(u.push(w.last()), wid) == without_id(u, wid).push(w.last()));
            assert(without_id(u, wid) == u);
        }
    }
}

impl<T: DB> WordBankClient<T> {
    /// Deletes a word and detaches its id from every folder that holds it,
    /// all in one unit of work. When the folders referencing the word fit in
    /// one bounded page, no folder holds the id afterwards.
    pub fn delete_word(&self, ctx: &mut T::Context, word_id: Id) -> (r: Result<
        (),
        WordBankError,
    >)
        requires
            store_wf(T::ctx(old(ctx))),
        ensures
            store_wf(T::ctx(final(ctx))),
            T::ctx(final(ctx)).results == T::ctx(old(ctx)).results,
            T::ctx(final(ctx)).folders.len() == T::ctx(old(ctx)).folders.len(),
            forall|i: int|
                0 <= i < T::ctx(old(ctx)).folders.len() ==> folder_cleaned(
                    #[trigger] T::ctx(old(ctx)).folders[i],
                    T::ctx(final(ctx)).folders[i],
                    word_id,
                ),
            T::ctx(final(ctx)).words == T::ctx(old(ctx)).words || T::ctx(final(ctx)).words
                == T::ctx(old(ctx)).words.filter(|w: WordView| w.id != word_id),
            match r {
                Ok(_) => {
                    &&& T::ctx(final(ctx)).words == T::ctx(old(ctx)).words.filter(
                        |w: WordView| w.id != word_id,
                    )
                    &&& (folders_with_word(T::ctx(old(ctx)).folders, word_id).len()
                        <= PAGINATION_LIMIT ==> forall|i: int|
                        0 <= i < T::ctx(final(ctx)).folders.len() ==> !(#[trigger] T::ctx(
                            final(ctx),
                        ).folders[i]).words.contains(word_id))
                },
                Err(_) => true,
            },
            T::reliable() ==> r is Ok,
    {
        let ghost m0 = T::ctx(old(ctx));
        match self.db.delete_word(ctx, word_id) {
            Ok(_) => (),
            Err(e) => {
                return Err(e);
            },
        }
        let mut one: Vec<Id> = Vec::new();
        one.push(word_id);
        proof {
            assert(one@ =~= seq![word_id]);
        }
        let page = match self.db.query_folders(
            ctx,
            FolderQueryOptions {
                query: None,
                words: Some(one),
                parent: ParentFilter::Any,
                ids: None,
            },
            PaginationOptions::new(PAGINATION_LIMIT, 1),
        ) {
            Ok(pr) => pr,
            Err(e) => {
                return Err(e);
            },
        };
        proof {
            lemma_word_query(m0.folders, word_id);
        }
        let ghost matched = folders_with_word(m0.folders, word_id);
        let ghost pv = folder_views(page.results@);
        proof {
            assert(pv == page_slice(matched, 0, PAGINATION_LIMIT as int));
        }
        if page.results.len() == 0 {
            proof {
                assert forall|i: int|
                    0 <= i < T::ctx(ctx).folders.len() implies !(#[trigger] T::ctx(
                    ctx,
                ).folders[i]).words.contains(word_id) by {
                    if T::ctx(ctx).folders[i].words.contains(word_id) {
                        m0.folders.lemma_filter_contains(
                            |f: FolderView| f.words.contains(word_id),
                            i,
                        );
                        let j = choose|j: int|
                            0 <= j < matched.len() && matched[j] == m0.folders[i];
                        assert(matched.len() > 0);
                        assert(pv.len() == 0);
                    }
                }
            }
            return Ok(());
        }
        let mut k: usize = 0;
        while k < page.results.len()
            invariant
                store_wf(m0),
                m0 == T::ctx(old(ctx)),
                matched == folders_with_word(m0.folders, word_id),
                pv == folder_views(page.results@),
                pv == page_slice(matched, 0, PAGINATION_LIMIT as int),
                k <= page.results@.len(),
                store_wf(T::ctx(ctx)),
                T::ctx(ctx).words == m0.words.filter(|w: WordView| w.id != word_id),
                T::ctx(ctx).results == m0.results,
                T::ctx(ctx).folders.len() == m0.folders.len(),
                forall|i: int|
                    0 <= i < m0.folders.len() ==> folder_cleaned(
                        #[trigger] m0.folders[i],
                        T::ctx(ctx).folders[i],
                        word_id,
                    ),
                forall|j: int, i: int|
                    0 <= j < k && 0 <= i < m0.folders.len() && (#[trigger] pv[j]).id == (
                    #[trigger] T::ctx(ctx).folders[i]).id ==> !T::ctx(
                        ctx,
                    ).folders[i].words.contains(word_id),
            decreases page.results@.len() - k,
        {
            let fid = page.results[k].id;
            proof {
                assert(k < page.results@.len());
                assert(pv.len() == page.results@.len());
                assert(folder_views(page.results@)[k as int] == page.results@[k as int]@);
                assert(pv[k as int] == page.results@[k as int]@);
                assert(matched.len() >= pv.len());
                assert(pv[k as int] == matched[k as int]);
                assert(matched.contains(matched[k as int]));
                m0.folders.lemma_filter_contains_rev(
                    |f: FolderView| f.words.contains(word_id),
                    matched[k as int],
                );
                let i0 = choose|i: int|
                    0 <= i < m0.folders.len() && m0.folders[i] == matched[k as int];
                assert(T::ctx(ctx).folders[i0].id == fid);
                assert(has_folder_id(T::ctx(ctx).folders, fid));
            }
            let mut rm: Vec<Id> = Vec::new();
            rm.push(word_id);
            proof {
                assert(rm@ =~= seq![word_id]);
            }
            let upd = FolderUpdateOptions {
                id: fid,
                name: None,
                parent: ParentUpdate::Keep,
                add: None,
                remove: Some(rm),
            };
            let ghost before = T::ctx(ctx);
            match self.db.update_folder(ctx, &upd) {
                Ok(_) => (),
                Err(e) => {
                    return Err(e);
                },
            }
            proof {
                let (i, t): (int, int) = choose|i: int, t: int|
                    {
                        &&& 0 <= i < before.folders.len()
                        &&& before.folders[i].id == upd@.id
                        &&& T::ctx(ctx) == (StoreModel {
                            folders: before.folders.update(
                                i,
                                #[trigger] crate::folder::apply_folder_update(
                                    before.folders[i],
                                    upd@,
                                    t,
                                ),
                            ),
                            ..before
                        })
                    };
                let nf = crate::folder::apply_folder_update(before.folders[i], upd@, t);
                lemma_remove_one(before.folders[i].words, word_id);
                assert(nf.words == without_id(before.folders[i].words, word_id));
                lemma_without_id(before.folders[i].words, word_id);
                assert(!nf.words.contains(word_id));
                assert(folder_cleaned(m0.folders[i], before.folders[i], word_id));
                lemma_without_id(m0.folders[i].words, word_id);
                if before.folders[i].words == m0.folders[i].words {
                    assert(nf.words == without_id(m0.folders[i].words, word_id));
                } else {
                    assert(before.folders[i].words == without_id(m0.folders[i].words, word_id));
                    assert(nf.words == without_id(
                        without_id(m0.folders[i].words, word_id),
                        word_id,
                    ));
                    assert(nf.words == without_id(m0.folders[i].words, word_id));
                }
                assert(folder_cleaned(m0.folders[i], nf, word_id));
                assert forall|i2: int|
                    0 <= i2 < m0.folders.len() implies folder_cleaned(
                    #[trigger] m0.folders[i2],
                    T::ctx(ctx).folders[i2],
                    word_id,
                ) by {
                    if i2 != i {
                        assert(T::ctx(ctx).folders[i2] == before.folders[i2]);
                    }
                }
                assert forall|j: int, i2: int|
                    0 <= j < k + 1 && 0 <= i2 < m0.folders.len() && (#[trigger] pv[j]).id == (
                #[trigger] T::ctx(ctx).folders[i2]).id implies !T::ctx(
                    ctx,
                ).folders[i2].words.contains(word_id) by {
                    if i2 == i {
                        assert(!nf.words.contains(word_id));
                    } else {
                        assert(T::ctx(ctx).folders[i2] == before.folders[i2]);
                        if j < k {
                        } else {
                            assert(pv[j].id == fid);
                            assert(before.folders[i2].id != before.folders[i].id) by {
                                assert(T::ctx(ctx).folders[i2].id == before.folders[i2].id);
                                assert(folder_cleaned(
                                    m0.folders[i2],
                                    before.folders[i2],
                                    word_id,
                                ));
                                assert(folder_cleaned(m0.folders[i], before.folders[i], word_id));
                                if i2 < i {
                                    assert(m0.folders[i2].id != m0.folders[i].id);
                                } else {
                                    assert(m0.folders[i].id != m0.folders[i2].id);
                                }
                            }
                        }
                    }
                }
            }
            k = k + 1;
        }
        proof {
            if matched.len() <= PAGINATION_LIMIT {
                assert(pv =~= matched);
                assert forall|i: int|
                    0 <= i < T::ctx(ctx).folders.len() implies !(#[trigger] T::ctx(
                    ctx,
                ).folders[i]).words.contains(word_id) by {
                    if T::ctx(ctx).folders[i].words.contains(word_id) {
                        assert(folder_cleaned(m0.folders[i], T::ctx(ctx).folders[i], word_id));
                        lemma_without_id(m0.folders[i].words, word_id);
                        assert(T::ctx(ctx).folders[i].words == m0.folders[i].words);
                        assert(m0.folders[i].words.contains(word_id));
                        m0.folders.lemma_filter_contains(
                            |f: FolderView| f.words.contains(word_id),
                            i,
                        );
                        let j = choose|j: int|
                            0 <= j < matched.len() && matched[j] == m0.folders[i];
                        assert(pv[j].id == T::ctx(ctx).folders[i].id);
                        assert(!T::ctx(ctx).folders[i].words.contains(word_id));
                    }
                }
            }
        }
        Ok(())
    }
}


} // verus!
