use vstd::prelude::*;
use vstd::seq_lib::group_seq_properties;

use crate::clock::{now, Timestamp};
use crate::ident::{fresh_id, Id};
use crate::text::contains_ci;
use crate::word::Word;

verus! {

// ---------------------------------------------------------------------------
// Folders
// ---------------------------------------------------------------------------

pub struct FolderView {
    pub id: Id,
    pub name: Seq<char>,
    pub parent: Option<Id>,
    pub words: Seq<Id>,
    pub created_at: int,
    pub updated_at: int,
}

/// A named node of the folder tree. `parent` is absent at the root; `words`
/// lists the identifiers of the words grouped under this folder.
#[derive(Debug)]
pub struct Folder {
    pub id: Id,
    pub name: String,
    pub parent: Option<Id>,
    pub words: Vec<Id>,
    pub created_at: Timestamp,
    pub updated_at: Timestamp,
}

impl View for Folder {
    type V = FolderView;

    open spec fn view(&self) -> FolderView {
        FolderView {
            id: self.id,
            name: self.name@,
            parent: self.parent,
            words: self.words@,
            created_at: self.created_at.millis as int,
            updated_at: self.updated_at.millis as int,
        }
    }
}

pub fn clone_ids(v: &Vec<Id>) -> (r: Vec<Id>)
    ensures
        r@ == v@,
{
    let mut r: Vec<Id> = Vec::new();
    let mut i: usize = 0;
    while i < v.len()
        invariant
            i <= v@.len(),
            r@ == v@.subrange(0, i as int),
        decreases v@.len() - i,
    {
        r.push(v[i]);
        i = i + 1;
        proof {
            assert(r@ =~= v@.subrange(0, i as int));
        }
    }
    proof {
        assert(r@ =~= v@);
    }
    r
}

pub fn ids_contain(v: &Vec<Id>, id: Id) -> (r: bool)
    ensures
        r == v@.contains(id),
{
    let mut i: usize = 0;
    while i < v.len()
        invariant
            i <= v@.len(),
            forall|k: int| 0 <= k < i ==> v@[k] != id,
        decreases v@.len() - i,
    {
        if v[i] == id {
            return true;
        }
        i = i + 1;
    }
    false
}

impl Clone for Folder {
    fn clone(&self) -> (r: Self)
        ensures
            r@ == self@,
    {
        Folder {
            id: self.id,
            name: self.name.clone(),
            parent: self.parent,
            words: clone_ids(&self.words),
            created_at: self.created_at,
            updated_at: self.updated_at,
        }
    }
}

impl Folder {
    /// A fresh root folder with the given name, no parent and no words.
    pub fn new(name: &str) -> (r: Folder)
        ensures
            r@.name == name@,
            r@.parent is None,
            r@.words == Seq::<Id>::empty(),
    {
        let r = Folder {
            id: fresh_id(),
            name: name.to_owned(),
            parent: None,
            words: Vec::new(),
            created_at: now(),
            updated_at: now(),
        };
        proof {
            assert(r@.words =~= Seq::<Id>::empty());
        }
        r
    }

    /// Stamps both timestamps to the same instant; used at creation so that
    /// a record is born with `created_at == updated_at`.
    pub fn update_time(&mut self, time: Timestamp)
        ensures
            final(self)@ == (FolderView {
                created_at: time.millis as int,
                updated_at: time.millis as int,
                ..old(self)@
            }),
    {
        self.created_at = time;
        self.updated_at = time;
    }
}

/// The resolved contents of one folder: its direct child folders and the
/// hydrated words its `words` list refers to.
#[derive(Debug)]
pub struct FolderContent {
    pub words: Vec<Word>,
    pub folders: Vec<Folder>,
}

// ---------------------------------------------------------------------------
// Folder queries
// ---------------------------------------------------------------------------

/// A filter on the parent of a folder: no filter, only roots, or only the
/// children of one given folder. An explicit "no parent" is a distinct
/// queryable value, not the absence of a filter.
#[derive(Debug, Clone, Copy, PartialEq, Eq, Structural)]
pub enum ParentFilter {
    Any,
    Root,
    Of(Id),
}

pub struct FolderQueryView {
    pub query: Option<Seq<char>>,
    pub words: Option<Seq<Id>>,
    pub parent: ParentFilter,
    pub ids: Option<Seq<Id>>,
}

/// A filter over folders: `query` is a case-insensitive substring match on
/// the name, `words` keeps folders containing any of the given word ids,
/// `parent` matches the parent reference exactly, and `ids` restricts to an
/// explicit id set. Absent fields do not filter.
#[derive(Debug)]
pub struct FolderQueryOptions {
    pub query: Option<String>,
    pub words: Option<Vec<Id>>,
    pub parent: ParentFilter,
    pub ids: Option<Vec<Id>>,
}

impl View for FolderQueryOptions {
    type V = FolderQueryView;

    open spec fn view(&self) -> FolderQueryView {
        FolderQueryView {
            query: match self.query {
                Some(s) => Some(s@),
                None => None,
            },
            words: match self.words {
                Some(ws) => Some(ws@),
                None => None,
            },
            parent: self.parent,
            ids: match self.ids {
                Some(ids) => Some(ids@),
                None => None,
            },
        }
    }
}

impl FolderQueryOptions {
    pub fn empty() -> (r: FolderQueryOptions)
        ensures
            r@.query is None,
            r@.words is None,
            r@.parent is Any,
            r@.ids is None,
    {
        FolderQueryOptions { query: None, words: None, parent: ParentFilter::Any, ids: None }
    }

    /// Restricts the filter to an explicit id set.
    pub fn ids(self, ids: Vec<Id>) -> (r: FolderQueryOptions)
        ensures
            r@ == (FolderQueryView { ids: Some(ids@), ..self@ }),
    {
        FolderQueryOptions { ids: Some(ids), ..self }
    }
}

impl Default for FolderQueryOptions {
    fn default() -> (r: FolderQueryOptions)
        ensures
            r@.query is None,
            r@.words is None,
            r@.parent is Any,
            r@.ids is None,
    {
        FolderQueryOptions::empty()
    }
}

/// Whether some id of `ws` stands in the folder's word list.
pub open spec fn any_word_in(words: Seq<Id>, ws: Seq<Id>) -> bool {
    exists|i: int| 0 <= i < ws.len() && words.contains(#[trigger] ws[i])
}

/// Whether a folder satisfies every present field of the filter.
pub open spec fn folder_matches(f: FolderView, q: FolderQueryView) -> bool {
    &&& match q.query {
        Some(s) => contains_ci(f.name, s),
        None => true,
    }
    &&& match q.words {
        Some(ws) => any_word_in(f.words, ws),
        None => true,
    }
    &&& match q.parent {
        ParentFilter::Any => true,
        ParentFilter::Root => f.parent is None,
        ParentFilter::Of(id) => f.parent == Some(id),
    }
    &&& match q.ids {
        Some(ids) => ids.contains(f.id),
        None => true,
    }
}

fn any_id_common(words: &Vec<Id>, ws: &Vec<Id>) -> (r: bool)
    ensures
        r == any_word_in(words@, ws@),
{
    let mut i: usize = 0;
    while i < ws.len()
        invariant
            i <= ws@.len(),
            forall|k: int| 0 <= k < i ==> !words@.contains(#[trigger] ws@[k]),
        decreases ws@.len() - i,
    {
        if ids_contain(words, ws[i]) {
            return true;
        }
        i = i + 1;
    }
    false
}

/// Whether a folder matches the given filter.
pub fn folder_matches_exec(f: &Folder, q: &FolderQueryOptions) -> (r: bool)
    ensures
        r == folder_matches(f@, q@),
{
    let ok_query: bool = match &q.query {
        Some(s) => crate::text::str_contains_ci(f.name.as_str(), s.as_str()),
        None => true,
    };
    let ok_words: bool = match &q.words {
        Some(ws) => any_id_common(&f.words, ws),
        None => true,
    };
    let ok_parent: bool = match &q.parent {
        ParentFilter::Any => true,
        ParentFilter::Root => f.parent.is_none(),
        ParentFilter::Of(id) => match &f.parent {
            Some(p) => *p == *id,
            None => false,
        },
    };
    let ok_ids: bool = match &q.ids {
        Some(ids) => ids_contain(ids, f.id),
        None => true,
    };
    ok_query && ok_words && ok_parent && ok_ids
}

// ---------------------------------------------------------------------------
// Folder updates
// ---------------------------------------------------------------------------

/// What a partial update does to the parent reference: keep it as it is,
/// clear it (move the folder to the root), or set it to a given folder.
#[derive(Debug, Clone, Copy, PartialEq, Eq, Structural)]
pub enum ParentUpdate {
    Keep,
    Clear,
    SetTo(Id),
}

pub struct FolderUpdateView {
    pub id: Id,
    pub name: Option<Seq<char>>,
    pub parent: ParentUpdate,
    pub add: Option<Seq<Id>>,
    pub remove: Option<Seq<Id>>,
}

/// A partial update of one folder. `add` and `remove` change the word list;
/// `add` applies first, then `remove`, and the list is deduplicated after an
/// `add`.
#[derive(Debug)]
pub struct FolderUpdateOptions {
    pub id: Id,
    pub name: Option<String>,
    pub parent: ParentUpdate,
    pub add: Option<Vec<Id>>,
    pub remove: Option<Vec<Id>>,
}

impl View for FolderUpdateOptions {
    type V = FolderUpdateView;

    open spec fn view(&self) -> FolderUpdateView {
        FolderUpdateView {
            id: self.id,
            name: match self.name {
                Some(s) => Some(s@),
                None => None,
            },
            parent: self.parent,
            add: match self.add {
                Some(a) => Some(a@),
                None => None,
            },
            remove: match self.remove {
                Some(r) => Some(r@),
                None => None,
            },
        }
    }
}

/// The sequence with every later repetition of an id removed: each id keeps
/// its first occurrence only.
pub open spec fn dedup_ids(s: Seq<Id>) -> Seq<Id>
    decreases s.len(),
{
    if s.len() == 0 {
        s
    } else {
        let prefix = dedup_ids(s.drop_last());
        if s.drop_last().contains(s.last()) {
            prefix
        } else {
            prefix.push(s.last())
        }
    }
}

pub proof fn lemma_dedup_contains(s: Seq<Id>, x: Id)
    ensures
        dedup_ids(s).contains(x) <==> s.contains(x),
    decreases s.len(),
{
    broadcast use group_seq_properties;

    if s.len() > 0 {
        lemma_dedup_contains(s.drop_last(), x);
        assert(s.drop_last().push(s.last()) =~= s);
    }
}

pub proof fn lemma_dedup_no_duplicates(s: Seq<Id>)
    ensures
        dedup_ids(s).no_duplicates(),
    decreases s.len(),
{
    broadcast use group_seq_properties;

    if s.len() > 0 {
        lemma_dedup_no_duplicates(s.drop_last());
        lemma_dedup_contains(s.drop_last(), s.last());
    }
}

pub proof fn lemma_dedup_of_no_duplicates(s: Seq<Id>)
    requires
        s.no_duplicates(),
    ensures
        dedup_ids(s) == s,
    decreases s.len(),
{
    broadcast use group_seq_properties;

    if s.len() > 0 {
        lemma_dedup_of_no_duplicates(s.drop_last());
        assert(!s.drop_last().contains(s.last()));
        assert(dedup_ids(s) =~= s);
    }
}

/// The word list of a folder after an update: ids to add are appended and the
/// list deduplicated, then ids to remove are filtered out.
pub open spec fn apply_folder_words(
    words: Seq<Id>,
    add: Option<Seq<Id>>,
    remove: Option<Seq<Id>>,
) -> Seq<Id> {
    let merged = match add {
        Some(a) => dedup_ids(words + a),
        None => words,
    };
    match remove {
        Some(r) => merged.filter(|x: Id| !r.contains(x)),
        None => merged,
    }
}

/// The folder as it stands after a partial update stamped at time `t`.
pub open spec fn apply_folder_update(f: FolderView, u: FolderUpdateView, t: int) -> FolderView {
    FolderView {
        id: f.id,
        name: match u.name {
            Some(s) => s,
            None => f.name,
        },
        parent: match u.parent {
            ParentUpdate::Keep => f.parent,
            ParentUpdate::Clear => None,
            ParentUpdate::SetTo(id) => Some(id),
        },
        words: apply_folder_words(f.words, u.add, u.remove),
        created_at: f.created_at,
        updated_at: t,
    }
}

/// Appends `add` to `words` and removes every duplicate, keeping first
/// occurrences.
pub fn merge_dedup(words: &Vec<Id>, add: &Vec<Id>) -> (r: Vec<Id>)
    ensures
        r@ == dedup_ids(words@ + add@),
{
    let mut out: Vec<Id> = Vec::new();
    let ghost c: Seq<Id> = words@ + add@;
    let mut i: usize = 0;
    while i < words.len()
        invariant
            c == words@ + add@,
            i <= words@.len(),
            out@ == dedup_ids(c.subrange(0, i as int)),
        decreases words@.len() - i,
    {
        proof {
            assert(c.subrange(0, i + 1).drop_last() =~= c.subrange(0, i as int));
            assert(c.subrange(0, i + 1).last() == words@[i as int]);
            lemma_dedup_contains(c.subrange(0, i as int), words@[i as int]);
        }
        if !ids_contain(&out, words[i]) {
            out.push(words[i]);
        }
        i = i + 1;
    }
    let mut j: usize = 0;
    while j < add.len()
        invariant
            c == words@ + add@,
            j <= add@.len(),
            out@ == dedup_ids(c.subrange(0, words@.len() + j)),
        decreases add@.len() - j,
    {
        proof {
            assert(c.subrange(0, words@.len() + j + 1).drop_last() =~= c.subrange(
                0,
                words@.len() + j,
            ));
            assert(c.subrange(0, words@.len() + j + 1).last() == add@[j as int]);
            lemma_dedup_contains(c.subrange(0, words@.len() + j), add@[j as int]);
        }
        if !ids_contain(&out, add[j]) {
            out.push(add[j]);
        }
        j = j + 1;
    }
    proof {
        assert(c.subrange(0, c.len() as int) =~= c);
    }
    out
}

/// Keeps only the ids that are not listed in `remove`.
pub fn remove_ids(words: &Vec<Id>, remove: &Vec<Id>) -> (r: Vec<Id>)
    ensures
        r@ == words@.filter(|x: Id| !remove@.contains(x)),
{
    let ghost pred = |x: Id| !remove@.contains(x);
    let mut out: Vec<Id> = Vec::new();
    let mut i: usize = 0;
    proof {
        reveal(Seq::filter);
    }
    while i < words.len()
        invariant
            i <= words@.len(),
            out@ == words@.subrange(0, i as int).filter(|x: Id| !remove@.contains(x)),
        decreases words@.len() - i,
    {
        proof {
            reveal(Seq::filter);
            assert(words@.subrange(0, i + 1).drop_last() =~= words@.subrange(0, i as int));
            assert(words@.subrange(0, i + 1).last() == words@[i as int]);
        }
        if !ids_contain(remove, words[i]) {
            out.push(words[i]);
        }
        i = i + 1;
    }
    proof {
        assert(words@.subrange(0, words@.len() as int) =~= words@);
    }
    out
}

/// Law: adding a word id to a folder is idempotent. After one `add` of `id`
/// the id stands in the word list exactly once, and running the same `add`
/// again leaves the list unchanged.
pub proof fn lemma_folder_add_idempotent(words: Seq<Id>, id: Id)
    ensures
        apply_folder_words(words, Some(seq![id]), None).to_multiset().count(id) == 1,
        apply_folder_words(
            apply_folder_words(words, Some(seq![id]), None),
            Some(seq![id]),
            None,
        ) == apply_folder_words(words, Some(seq![id]), None),
{
    broadcast use group_seq_properties;
    broadcast use vstd::multiset::group_multiset_axioms;

    let once = dedup_ids(words + seq![id]);
    lemma_dedup_no_duplicates(words + seq![id]);
    lemma_dedup_contains(words + seq![id], id);
    assert((words + seq![id]).contains(id)) by {
        assert((words + seq![id])[words.len() as int] == id);
    }
    once.lemma_multiset_has_no_duplicates();
    once.to_multiset_ensures();
    assert(once.contains(id));
    assert(once.to_multiset().contains(id)) by {
        let k = choose|k: int| 0 <= k < once.len() && once[k] == id;
        assert(once.to_multiset().count(once[k]) > 0);
    }
    // Idempotence: the second merge adds nothing new and deduplication
    // leaves an already deduplicated list alone.
    assert(forall|x: Id| (once + seq![id]).contains(x) ==> once.contains(x)) by {
        assert forall|x: Id| (once + seq![id]).contains(x) implies once.contains(x) by {
            let k = choose|k: int| 0 <= k < (once + seq![id]).len() && (once + seq![id])[k] == x;
            if k < once.len() {
                assert(once[k] == x);
            } else {
                assert(x == id);
            }
        }
    }
    assert((once + seq![id]).drop_last() =~= once);
    lemma_dedup_of_no_duplicates(once);
    assert(dedup_ids(once + seq![id]) == once);
}

} // verus!
