//! The shortlist store's authoritative document: a versioned collection
//! of per-conversation shortlists, each bounded to ten entries with
//! unique ids. All mutations happen here, in memory; the durable
//! snapshot around each mutation is the codec's and the caller's part.

use vstd::prelude::*;
use vstd::pervasive::VecAdditionalExecFns;
use crate::model::{StoredMovie, MovieView};

verus! {

/// One conversation's shortlist.
#[derive(Debug, PartialEq, Eq)]
pub struct ChatList {
    pub chat_id: i64,
    pub movies: Vec<StoredMovie>,
}

/// Ghost image of one conversation's shortlist.
pub struct ChatView {
    pub chat_id: i64,
    pub movies: Seq<MovieView>,
}

/// The views of a sequence of stored entries.
pub open spec fn movie_views(s: Seq<StoredMovie>) -> Seq<MovieView> {
    s.map_values(|m: StoredMovie| m@)
}

impl View for ChatList {
    type V = ChatView;

    open spec fn view(&self) -> ChatView {
        ChatView { chat_id: self.chat_id, movies: movie_views(self.movies@) }
    }
}

/// The whole persisted document: a schema version and the map from
/// conversation to shortlist, kept as an insertion-ordered list of
/// entries with unique conversation ids.
#[derive(Debug, PartialEq, Eq)]
pub struct Document {
    pub version: u32,
    pub chats: Vec<ChatList>,
}

/// Ghost image of the document.
pub struct DocView {
    pub version: u32,
    pub chats: Seq<ChatView>,
}

impl View for Document {
    type V = DocView;

    open spec fn view(&self) -> DocView {
        DocView { version: self.version, chats: self.chats@.map_values(|c: ChatList| c@) }
    }
}

/// No two entries of the sequence share an id.
pub open spec fn unique_ids(ms: Seq<MovieView>) -> bool {
    forall|i: int, j: int| 0 <= i < j < ms.len() ==> ms[i].id != ms[j].id
}

/// A shortlist is well formed when it holds at most ten entries,
/// no two with one id.
pub open spec fn chat_wf(c: ChatView) -> bool {
    &&& c.movies.len() <= 10
    &&& unique_ids(c.movies)
}

/// The document is well formed when conversation ids are unique and
/// every shortlist is well formed.
pub open spec fn doc_wf(d: DocView) -> bool {
    &&& forall|i: int, j: int| 0 <= i < j < d.chats.len()
        ==> d.chats[i].chat_id != d.chats[j].chat_id
    &&& forall|i: int| 0 <= i < d.chats.len() ==> chat_wf(#[trigger] d.chats[i])
}

/// The shortlist recorded for a conversation, if one is recorded.
pub open spec fn spec_find(chats: Seq<ChatView>, chat_id: i64) -> Option<Seq<MovieView>>
    decreases chats.len(),
{
    if chats.len() == 0 {
        Option::None
    } else if chats[0].chat_id == chat_id {
        Option::Some(chats[0].movies)
    } else {
        spec_find(chats.drop_first(), chat_id)
    }
}

/// What `get` returns for a conversation: its recorded shortlist, or
/// the empty sequence if none is recorded.
pub open spec fn spec_get(d: DocView, chat_id: i64) -> Seq<MovieView> {
    match spec_find(d.chats, chat_id) {
        Option::Some(ms) => ms,
        Option::None => Seq::empty(),
    }
}

/// Some entry of the sequence has this id.
pub open spec fn has_id(ms: Seq<MovieView>, id: u64) -> bool {
    exists|i: int| 0 <= i < ms.len() && ms[i].id == id
}

/// A sequence truncated to its first ten elements.
pub open spec fn take_at_most_ten(ms: Seq<MovieView>) -> Seq<MovieView> {
    if ms.len() <= 10 {
        ms
    } else {
        ms.take(10)
    }
}

/// Keeps the entries whose id differs from `id`.
pub open spec fn keep_other(id: u64) -> spec_fn(MovieView) -> bool {
    |mv: MovieView| mv.id != id
}

/// All entries except those with the id, in their original order.
pub open spec fn without_id(ms: Seq<MovieView>, id: u64) -> Seq<MovieView> {
    ms.filter(keep_other(id))
}

/// Filtering a shortlist keeps ids unique, keeps only recorded ids,
/// and cannot grow it.
pub proof fn lemma_filter_unique(ms: Seq<MovieView>, pred: spec_fn(MovieView) -> bool)
    requires
        unique_ids(ms),
    ensures
        unique_ids(ms.filter(pred)),
        ms.filter(pred).len() <= ms.len(),
        forall|p: int|
            0 <= p < ms.filter(pred).len() ==> has_id(ms, #[trigger] ms.filter(pred)[p].id),
    decreases ms.len(),
{
    reveal(Seq::filter);
    if ms.len() > 0 {
        let d = ms.drop_last();
        assert(unique_ids(d)) by {
            assert forall|x: int, y: int| 0 <= x < y < d.len() implies d[x].id != d[y].id by {
                assert(d[x] == ms[x]);
                assert(d[y] == ms[y]);
            }
        }
        lemma_filter_unique(d, pred);
        let f = ms.filter(pred);
        let fd = d.filter(pred);
        assert forall|p: int| 0 <= p < fd.len() implies has_id(ms, #[trigger] fd[p].id) by {
            assert(has_id(d, fd[p].id));
            let q = choose|q: int| 0 <= q < d.len() && d[q].id == fd[p].id;
            assert(ms[q].id == fd[p].id);
        }
        if pred(ms.last()) {
            assert(f == fd.push(ms.last()));
            assert forall|x: int, y: int| 0 <= x < y < f.len() implies f[x].id != f[y].id by {
                if y < fd.len() {
                    assert(f[x] == fd[x]);
                    assert(f[y] == fd[y]);
                } else {
                    assert(f[y] == ms.last());
                    assert(f[x] == fd[x]);
                    assert(has_id(d, fd[x].id));
                    let q = choose|q: int| 0 <= q < d.len() && d[q].id == fd[x].id;
                    assert(ms[q].id == fd[x].id);
                    assert(ms[q].id != ms[ms.len() - 1].id);
                }
            }
            assert forall|p: int| 0 <= p < f.len() implies has_id(ms, #[trigger] f[p].id) by {
                if p < fd.len() {
                    assert(f[p] == fd[p]);
                    assert(has_id(ms, fd[p].id));
                } else {
                    assert(f[p] == ms.last());
                    assert(ms[ms.len() - 1].id == ms.last().id);
                }
            }
        }
    }
}

/// `spec_find` returns the shortlist of the first entry with the id.
pub proof fn lemma_find_at(chats: Seq<ChatView>, chat_id: i64, i: int)
    requires
        0 <= i < chats.len(),
        chats[i].chat_id == chat_id,
        forall|j: int| 0 <= j < i ==> chats[j].chat_id != chat_id,
    ensures
        spec_find(chats, chat_id) == Option::Some(chats[i].movies),
    decreases i,
{
    if i > 0 {
        lemma_find_at(chats.drop_first(), chat_id, i - 1);
    }
}

/// `spec_find` finds nothing when no entry has the id.
pub proof fn lemma_find_absent(chats: Seq<ChatView>, chat_id: i64)
    requires
        forall|j: int| 0 <= j < chats.len() ==> chats[j].chat_id != chat_id,
    ensures
        spec_find(chats, chat_id) is None,
    decreases chats.len(),
{
    if chats.len() > 0 {
        lemma_find_absent(chats.drop_first(), chat_id);
    }
}

/// Replacing one entry, keeping its conversation id, leaves every other
/// conversation's lookup unchanged.
pub proof fn lemma_find_update(chats: Seq<ChatView>, i: int, c: ChatView, other: i64)
    requires
        0 <= i < chats.len(),
        chats[i].chat_id == c.chat_id,
        other != c.chat_id,
    ensures
        spec_find(chats.update(i, c), other) == spec_find(chats, other),
    decreases chats.len(),
{
    if i == 0 {
        assert(chats.update(0, c).drop_first() =~= chats.drop_first());
    } else {
        assert(chats.update(i, c)[0] == chats[0]);
        assert(chats.update(i, c).drop_first() =~= chats.drop_first().update(i - 1, c));
        lemma_find_update(chats.drop_first(), i - 1, c, other);
    }
}

/// Appending an entry leaves every other conversation's lookup
/// unchanged, and resolves its own id if it was absent before.
pub proof fn lemma_find_push(chats: Seq<ChatView>, c: ChatView, id: i64)
    ensures
        spec_find(chats, id) is Some ==> spec_find(chats.push(c), id) == spec_find(chats, id),
        spec_find(chats, id) is None && id == c.chat_id
            ==> spec_find(chats.push(c), id) == Option::Some(c.movies),
        spec_find(chats, id) is None && id != c.chat_id
            ==> spec_find(chats.push(c), id) is None,
    decreases chats.len(),
{
    if chats.len() == 0 {
        assert(chats.push(c)[0] == c);
        assert(chats.push(c).drop_first() =~= Seq::<ChatView>::empty());
        assert(spec_find(Seq::<ChatView>::empty(), id) is None);
    } else {
        assert(chats.push(c)[0] == chats[0]);
        assert(chats.push(c).drop_first() =~= chats.drop_first().push(c));
        lemma_find_push(chats.drop_first(), c, id);
    }
}

/// Removing one entry leaves every other conversation's lookup
/// unchanged.
pub proof fn lemma_find_remove(chats: Seq<ChatView>, i: int, other: i64)
    requires
        0 <= i < chats.len(),
        other != chats[i].chat_id,
    ensures
        spec_find(chats.remove(i), other) == spec_find(chats, other),
    decreases chats.len(),
{
    if i == 0 {
        assert(chats.remove(0) =~= chats.drop_first());
    } else {
        assert(chats.remove(i)[0] == chats[0]);
        assert(chats.remove(i).drop_first() =~= chats.drop_first().remove(i - 1));
        lemma_find_remove(chats.drop_first(), i - 1, other);
    }
}

/// Whatever `spec_find` returns is one of the recorded entries.
pub proof fn lemma_find_is_entry(chats: Seq<ChatView>, id: i64)
    requires
        spec_find(chats, id) is Some,
    ensures
        exists|i: int|
            0 <= i < chats.len() && chats[i].chat_id == id
                && spec_find(chats, id) == Option::Some(chats[i].movies),
    decreases chats.len(),
{
    if chats.len() > 0 && chats[0].chat_id != id {
        lemma_find_is_entry(chats.drop_first(), id);
        let j = choose|j: int|
            0 <= j < chats.drop_first().len() && chats.drop_first()[j].chat_id == id
                && spec_find(chats.drop_first(), id) == Option::Some(
                chats.drop_first()[j].movies,
            );
        assert(chats[j + 1] == chats.drop_first()[j]);
    }
}

/// In a well-formed document, any conversation's shortlist holds at
/// most ten entries and never two with one id.
pub proof fn lemma_get_bounded_unique(d: DocView, chat_id: i64)
    requires
        doc_wf(d),
    ensures
        spec_get(d, chat_id).len() <= 10,
        unique_ids(spec_get(d, chat_id)),
{
    if spec_find(d.chats, chat_id) is Some {
        lemma_find_is_entry(d.chats, chat_id);
    }
}

/// The outcome of inserting one entry into a conversation's shortlist.
#[derive(Clone, Copy, Debug, PartialEq, Eq, Structural)]
pub enum InsertOutcome {
    Inserted,
    AlreadyPresent,
    Full,
}

/// The outcome of deleting one entry from a conversation's shortlist.
#[derive(Clone, Copy, Debug, PartialEq, Eq, Structural)]
pub enum DeleteOutcome {
    Removed,
    NotFound,
}

/// Clones a shortlist, keeping every entry's value.
pub fn clone_movies(v: &Vec<StoredMovie>) -> (r: Vec<StoredMovie>)
    ensures
        r@ == v@,
{
    let r = v.clone();
    proof {
        assert forall|i: int| 0 <= i < v@.len() implies r@[i] == v@[i] by {
            assert(vstd::pervasive::cloned::<StoredMovie>(v@[i as int], r@[i as int]));
        }
        assert(r@ =~= v@);
    }
    r
}

impl Document {
    /// The document's invariant.
    pub open spec fn wf(&self) -> bool {
        doc_wf(self@)
    }

    /// A fresh empty document at the current schema version.
    pub fn empty() -> (r: Document)
        ensures
            r.wf(),
            r@.version == 1,
            r@.chats.len() == 0,
    {
        Document { version: 1, chats: Vec::new() }
    }

    /// The index of the conversation's entry, scanning from the front.
    fn find_chat(&self, chat_id: i64) -> (r: Option<usize>)
        ensures
            match r {
                Option::Some(i) => 0 <= i < self.chats@.len()
                    && self.chats@[i as int].chat_id == chat_id && (forall|j: int|
                    0 <= j < i as int ==> self.chats@[j].chat_id != chat_id),
                Option::None => forall|j: int|
                    0 <= j < self.chats@.len() ==> self.chats@[j].chat_id != chat_id,
            },
    {
        let mut i: usize = 0;
        while i < self.chats.len()
            invariant
                i <= self.chats@.len(),
                forall|j: int| 0 <= j < i as int ==> self.chats@[j].chat_id != chat_id,
            decreases self.chats@.len() - i as int,
        {
            if self.chats[i].chat_id == chat_id {
                return Option::Some(i);
            }
            i += 1;
        }
        Option::None
    }

    /// The conversation's shortlist; the empty list if none is
    /// recorded. Never fails.
    pub fn get(&self, chat_id: i64) -> (r: Vec<StoredMovie>)
        ensures
            movie_views(r@) == spec_get(self@, chat_id),
    {
        match self.find_chat(chat_id) {
            Option::Some(i) => {
                proof {
                    assert forall|j: int| 0 <= j < i as int implies self@.chats[j].chat_id
                        != chat_id by {
                        assert(self@.chats[j] == self.chats@[j]@);
                    }
                    lemma_find_at(self@.chats, chat_id, i as int);
                }
                clone_movies(&self.chats[i].movies)
            },
            Option::None => {
                proof {
                    assert forall|j: int| 0 <= j < self@.chats.len() implies self@.chats[j].chat_id
                        != chat_id by {
                        assert(self@.chats[j] == self.chats@[j]@);
                    }
                    lemma_find_absent(self@.chats, chat_id);
                    assert(movie_views(Seq::<StoredMovie>::empty()) =~= Seq::<MovieView>::empty());
                }
                Vec::new()
            },
        }
    }

    /// Wholesale replace of a conversation's shortlist, silently
    /// truncated to the first ten entries if more are supplied.
    pub fn put(&mut self, chat_id: i64, movies: Vec<StoredMovie>)
        requires
            old(self).wf(),
        ensures
            final(self)@.version == old(self)@.version,
            spec_get(final(self)@, chat_id) == take_at_most_ten(movie_views(movies@)),
            forall|c: i64|
                c != chat_id ==> #[trigger] spec_find(final(self)@.chats, c) == spec_find(
                    old(self)@.chats,
                    c,
                ),
            unique_ids(take_at_most_ten(movie_views(movies@))) ==> final(self).wf(),
    {
        let mut ms = movies;
        if ms.len() > 10 {
            ms.truncate(10);
        }
        proof {
            assert(movie_views(ms@) =~= take_at_most_ten(movie_views(movies@)));
        }
        let found = self.find_chat(chat_id);
        match found {
            Option::Some(i) => {
                let cl = ChatList { chat_id, movies: ms };
                let ghost oldc = self@.chats;
                self.chats.set(i, cl);
                proof {
                    assert(self@.chats =~= oldc.update(i as int, cl@));
                    assert forall|j: int| 0 <= j < i as int implies oldc[j].chat_id != chat_id by {
                        assert(oldc[j] == old(self).chats@[j]@);
                    }
                    lemma_find_at(self@.chats, chat_id, i as int);
                    assert forall|c: i64| c != chat_id implies #[trigger] spec_find(
                        self@.chats,
                        c,
                    ) == spec_find(oldc, c) by {
                        assert(oldc[i as int] == old(self).chats@[i as int]@);
                        lemma_find_update(oldc, i as int, cl@, c);
                    }
                    if unique_ids(movie_views(ms@)) {
                        assert(oldc[i as int] == old(self).chats@[i as int]@);
                        assert(oldc[i as int].chat_id == chat_id);
                        assert forall|p: int, q: int|
                            0 <= p < q < self@.chats.len() implies self@.chats[p].chat_id
                            != self@.chats[q].chat_id by {
                            assert(self@.chats[p].chat_id == oldc[p].chat_id);
                            assert(self@.chats[q].chat_id == oldc[q].chat_id);
                            assert(oldc[p].chat_id != oldc[q].chat_id);
                        }
                        assert forall|p: int|
                            0 <= p < self@.chats.len() implies chat_wf(
                            #[trigger] self@.chats[p],
                        ) by {
                            if p != i as int {
                                assert(self@.chats[p] == oldc[p]);
                                assert(chat_wf(oldc[p]));
                            } else {
                                assert(self@.chats[p] == cl@);
                            }
                        }
                    }
                }
            },
            Option::None => {
                let cl = ChatList { chat_id, movies: ms };
                let ghost oldc = self@.chats;
                self.chats.push(cl);
                proof {
                    assert(self@.chats =~= oldc.push(cl@));
                    assert forall|j: int| 0 <= j < oldc.len() implies oldc[j].chat_id != chat_id by {
                        assert(oldc[j] == old(self).chats@[j]@);
                    }
                    lemma_find_at(self@.chats, chat_id, oldc.len() as int);
                    assert forall|c: i64| c != chat_id implies #[trigger] spec_find(
                        self@.chats,
                        c,
                    ) == spec_find(oldc, c) by {
                        lemma_find_push(oldc, cl@, c);
                    }
                    if unique_ids(movie_views(ms@)) {
                        assert forall|p: int, q: int|
                            0 <= p < q < self@.chats.len() implies self@.chats[p].chat_id
                            != self@.chats[q].chat_id by {
                            if q < oldc.len() {
                                assert(self@.chats[p] == oldc[p]);
                                assert(self@.chats[q] == oldc[q]);
                                assert(oldc[p].chat_id != oldc[q].chat_id);
                            } else {
                                assert(self@.chats[p] == oldc[p]);
                                assert(self@.chats[q] == cl@);
                                assert(oldc[p].chat_id != chat_id);
                            }
                        }
                        assert forall|p: int|
                            0 <= p < self@.chats.len() implies chat_wf(
                            #[trigger] self@.chats[p],
                        ) by {
                            if p < oldc.len() {
                                assert(self@.chats[p] == oldc[p]);
                                assert(chat_wf(oldc[p]));
                            } else {
                                assert(self@.chats[p] == cl@);
                            }
                        }
                    }
                }
            },
        }
    }

    /// Deletes a conversation's shortlist entirely. Other conversations
    /// are untouched.
    pub fn remove_chat(&mut self, chat_id: i64)
        requires
            old(self).wf(),
        ensures
            final(self).wf(),
            final(self)@.version == old(self)@.version,
            spec_find(final(self)@.chats, chat_id) is None,
            spec_get(final(self)@, chat_id) == Seq::<MovieView>::empty(),
            forall|c: i64|
                c != chat_id ==> #[trigger] spec_find(final(self)@.chats, c) == spec_find(
                    old(self)@.chats,
                    c,
                ),
    {
        let found = self.find_chat(chat_id);
        match found {
            Option::Some(i) => {
                let ghost oldc = self@.chats;
                self.chats.remove(i);
                proof {
                    assert(self@.chats =~= oldc.remove(i as int));
                    assert(oldc[i as int].chat_id == chat_id);
                    assert forall|j: int|
                        0 <= j < self@.chats.len() implies self@.chats[j].chat_id != chat_id by {
                        if j < i as int {
                            assert(self@.chats[j] == oldc[j]);
                        } else {
                            assert(self@.chats[j] == oldc[j + 1]);
                        }
                    }
                    lemma_find_absent(self@.chats, chat_id);
                    assert forall|c: i64| c != chat_id implies #[trigger] spec_find(
                        self@.chats,
                        c,
                    ) == spec_find(oldc, c) by {
                        lemma_find_remove(oldc, i as int, c);
                    }
                    assert forall|p: int, q: int|
                        0 <= p < q < self@.chats.len() implies self@.chats[p].chat_id
                        != self@.chats[q].chat_id by {
                        let p0: int = if p < i as int { p } else { p + 1 };
                        let q0: int = if q < i as int { q } else { q + 1 };
                        assert(self@.chats[p] == oldc[p0]);
                        assert(self@.chats[q] == oldc[q0]);
                        assert(oldc[p0].chat_id != oldc[q0].chat_id);
                    }
                    assert forall|p: int|
                        0 <= p < self@.chats.len() implies chat_wf(#[trigger] self@.chats[p]) by {
                        let p0: int = if p < i as int { p } else { p + 1 };
                        assert(self@.chats[p] == oldc[p0]);
                        assert(chat_wf(oldc[p0]));
                    }
                }
            },
            Option::None => {
                proof {
                    assert forall|j: int|
                        0 <= j < self@.chats.len() implies self@.chats[j].chat_id != chat_id by {
                        assert(self@.chats[j] == self.chats@[j]@);
                    }
                    lemma_find_absent(self@.chats, chat_id);
                }
            },
        }
    }

    /// Appends one entry to a conversation's shortlist, rejecting a
    /// duplicate id or an already full list. Only `Inserted` changes
    /// the document, so only `Inserted` calls for a durability write.
    pub fn add_movie(&mut self, chat_id: i64, m: StoredMovie) -> (r: InsertOutcome)
        requires
            old(self).wf(),
        ensures
            final(self).wf(),
            final(self)@.version == old(self)@.version,
            match r {
                InsertOutcome::AlreadyPresent => has_id(spec_get(old(self)@, chat_id), m.id)
                    && final(self)@ == old(self)@,
                InsertOutcome::Full => !has_id(spec_get(old(self)@, chat_id), m.id) && spec_get(
                    old(self)@,
                    chat_id,
                ).len() >= 10 && final(self)@ == old(self)@,
                InsertOutcome::Inserted => !has_id(spec_get(old(self)@, chat_id), m.id)
                    && spec_get(old(self)@, chat_id).len() < 10 && spec_get(final(self)@, chat_id)
                    == spec_get(old(self)@, chat_id).push(m@) && (forall|c: i64|
                    c != chat_id ==> #[trigger] spec_find(final(self)@.chats, c) == spec_find(
                        old(self)@.chats,
                        c,
                    )),
            },
    {
        let found = self.find_chat(chat_id);
        match found {
            Option::Some(i) => {
                proof {
                    assert forall|j: int| 0 <= j < i as int implies self@.chats[j].chat_id
                        != chat_id by {
                        assert(self@.chats[j] == self.chats@[j]@);
                    }
                    assert(self@.chats[i as int] == self.chats@[i as int]@);
                    lemma_find_at(self@.chats, chat_id, i as int);
                }
                let dup = index_of_movie(&self.chats[i].movies, m.id);
                match dup {
                    Option::Some(k) => {
                        proof {
                            let ms = spec_get(self@, chat_id);
                            assert(ms[k as int].id == m.id);
                        }
                        InsertOutcome::AlreadyPresent
                    },
                    Option::None => {
                        if self.chats[i].movies.len() >= 10 {
                            InsertOutcome::Full
                        } else {
                            let mut ms = clone_movies(&self.chats[i].movies);
                            ms.push(m);
                            let cl = ChatList { chat_id, movies: ms };
                            let ghost oldc = self@.chats;
                            let ghost before = spec_get(old(self)@, chat_id);
                            self.chats.set(i, cl);
                            proof {
                                assert(self@.chats =~= oldc.update(i as int, cl@));
                                assert(movie_views(ms@) =~= before.push(m@));
                                lemma_find_at(self@.chats, chat_id, i as int);
                                assert forall|c: i64| c != chat_id implies #[trigger] spec_find(
                                    self@.chats,
                                    c,
                                ) == spec_find(oldc, c) by {
                                    lemma_find_update(oldc, i as int, cl@, c);
                                }
                                assert(oldc[i as int] == old(self).chats@[i as int]@);
                                assert(oldc[i as int].chat_id == chat_id);
                                assert forall|p: int, q: int|
                                    0 <= p < q < self@.chats.len() implies self@.chats[p].chat_id
                                    != self@.chats[q].chat_id by {
                                    assert(self@.chats[p].chat_id == oldc[p].chat_id);
                                    assert(self@.chats[q].chat_id == oldc[q].chat_id);
                                    assert(oldc[p].chat_id != oldc[q].chat_id);
                                }
                                assert(unique_ids(before));
                                assert forall|p: int|
                                    0 <= p < self@.chats.len() implies chat_wf(
                                    #[trigger] self@.chats[p],
                                ) by {
                                    if p == i as int {
                                        assert(self@.chats[p] == cl@);
                                        assert forall|x: int, y: int|
                                            0 <= x < y < before.push(m@).len() implies before.push(
                                            m@,
                                        )[x].id != before.push(m@)[y].id by {
                                            if y < before.len() {
                                            } else {
                                                assert(before.push(m@)[y] == m@);
                                                if before.push(m@)[x].id == m.id {
                                                    assert(before[x].id == m.id);
                                                    assert(has_id(before, m.id));
                                                }
                                            }
                                        }
                                    } else {
                                        assert(self@.chats[p] == oldc[p]);
                                        assert(chat_wf(oldc[p]));
                                    }
                                }
                            }
                            InsertOutcome::Inserted
                        }
                    },
                }
            },
            Option::None => {
                proof {
                    assert forall|j: int|
                        0 <= j < self@.chats.len() implies self@.chats[j].chat_id != chat_id by {
                        assert(self@.chats[j] == self.chats@[j]@);
                    }
                    lemma_find_absent(self@.chats, chat_id);
                }
                let mut ms: Vec<StoredMovie> = Vec::new();
                ms.push(m);
                let cl = ChatList { chat_id, movies: ms };
                let ghost oldc = self@.chats;
                self.chats.push(cl);
                proof {
                    assert(self@.chats =~= oldc.push(cl@));
                    assert(movie_views(ms@) =~= Seq::<MovieView>::empty().push(m@));
                    assert(spec_get(old(self)@, chat_id) == Seq::<MovieView>::empty());
                    lemma_find_at(self@.chats, chat_id, oldc.len() as int);
                    assert(spec_get(self@, chat_id) =~= spec_get(old(self)@, chat_id).push(m@));
                    assert forall|c: i64| c != chat_id implies #[trigger] spec_find(
                        self@.chats,
                        c,
                    ) == spec_find(oldc, c) by {
                        lemma_find_push(oldc, cl@, c);
                    }
                    assert forall|p: int, q: int|
                        0 <= p < q < self@.chats.len() implies self@.chats[p].chat_id
                        != self@.chats[q].chat_id by {
                        if q < oldc.len() {
                            assert(self@.chats[p] == oldc[p]);
                            assert(self@.chats[q] == oldc[q]);
                            assert(oldc[p].chat_id != oldc[q].chat_id);
                        } else {
                            assert(self@.chats[p] == oldc[p]);
                            assert(self@.chats[q] == cl@);
                            assert(oldc[p].chat_id != chat_id);
                        }
                    }
                    assert forall|p: int|
                        0 <= p < self@.chats.len() implies chat_wf(#[trigger] self@.chats[p]) by {
                        if p < oldc.len() {
                            assert(self@.chats[p] == oldc[p]);
                            assert(chat_wf(oldc[p]));
                        } else {
                            assert(self@.chats[p] == cl@);
                        }
                    }
                }
                InsertOutcome::Inserted
            },
        }
    }

    /// Removes one entry by id from a conversation's shortlist, if it
    /// is there. Only `Removed` changes the document, so only `Removed`
    /// calls for a durability write.
    pub fn delete_movie(&mut self, chat_id: i64, movie_id: u64) -> (r: DeleteOutcome)
        requires
            old(self).wf(),
        ensures
            final(self).wf(),
            final(self)@.version == old(self)@.version,
            match r {
                DeleteOutcome::Removed => has_id(spec_get(old(self)@, chat_id), movie_id)
                    && spec_get(final(self)@, chat_id) == without_id(
                    spec_get(old(self)@, chat_id),
                    movie_id,
                ) && (forall|c: i64|
                    c != chat_id ==> #[trigger] spec_find(final(self)@.chats, c) == spec_find(
                        old(self)@.chats,
                        c,
                    )),
                DeleteOutcome::NotFound => !has_id(spec_get(old(self)@, chat_id), movie_id)
                    && final(self)@ == old(self)@,
            },
    {
        let found = self.find_chat(chat_id);
        match found {
            Option::None => {
                proof {
                    assert forall|j: int|
                        0 <= j < self@.chats.len() implies self@.chats[j].chat_id != chat_id by {
                        assert(self@.chats[j] == self.chats@[j]@);
                    }
                    lemma_find_absent(self@.chats, chat_id);
                }
                DeleteOutcome::NotFound
            },
            Option::Some(i) => {
                proof {
                    assert forall|j: int| 0 <= j < i as int implies self@.chats[j].chat_id
                        != chat_id by {
                        assert(self@.chats[j] == self.chats@[j]@);
                    }
                    assert(self@.chats[i as int] == self.chats@[i as int]@);
                    lemma_find_at(self@.chats, chat_id, i as int);
                }
                let list = clone_movies(&self.chats[i].movies);
                let ghost lv = movie_views(list@);
                let mut kept: Vec<StoredMovie> = Vec::new();
                let mut removed = false;
                let mut k: usize = 0;
                proof {
                    assert(lv.take(0) =~= Seq::<MovieView>::empty());
                    reveal(Seq::filter);
                    assert(movie_views(kept@) =~= lv.take(0).filter(keep_other(movie_id)));
                }
                while k < list.len()
                    invariant
                        k <= list@.len(),
                        lv == movie_views(list@),
                        movie_views(kept@) == lv.take(k as int).filter(keep_other(movie_id)),
                        removed == has_id(lv.take(k as int), movie_id),
                    decreases list@.len() - k as int,
                {
                    let ghost pre = lv.take(k as int);
                    let ghost post = lv.take(k as int + 1);
                    proof {
                        assert(post.drop_last() =~= pre);
                        assert(post.last() == lv[k as int]);
                    }
                    if list[k].id == movie_id {
                        removed = true;
                        proof {
                            reveal(Seq::filter);
                            assert(lv[k as int].id == movie_id);
                            assert(!keep_other(movie_id)(post.last()));
                            assert(post.filter(keep_other(movie_id)) == pre.filter(
                                keep_other(movie_id),
                            ));
                            assert(post[k as int].id == movie_id);
                            assert(has_id(post, movie_id));
                        }
                    } else {
                        let x = list[k].clone();
                        kept.push(x);
                        proof {
                            reveal(Seq::filter);
                            assert(keep_other(movie_id)(post.last()));
                            assert(post.filter(keep_other(movie_id)) == pre.filter(
                                keep_other(movie_id),
                            ).push(lv[k as int]));
                            assert(movie_views(kept@) =~= post.filter(keep_other(movie_id)));
                            if has_id(post, movie_id) {
                                let q = choose|q: int| 0 <= q < post.len() && post[q].id == movie_id;
                                assert(q != k as int);
                                assert(pre[q].id == movie_id);
                                assert(has_id(pre, movie_id));
                            }
                            if has_id(pre, movie_id) {
                                let q = choose|q: int| 0 <= q < pre.len() && pre[q].id == movie_id;
                                assert(post[q].id == movie_id);
                                assert(has_id(post, movie_id));
                            }
                        }
                    }
                    k += 1;
                }
                proof {
                    assert(lv.take(list@.len() as int) =~= lv);
                }
                if removed {
                    let cl = ChatList { chat_id, movies: kept };
                    let ghost oldc = self@.chats;
                    let ghost before = spec_get(old(self)@, chat_id);
                    self.chats.set(i, cl);
                    proof {
                        assert(self@.chats =~= oldc.update(i as int, cl@));
                        assert(before == lv);
                        lemma_find_at(self@.chats, chat_id, i as int);
                        assert forall|c: i64| c != chat_id implies #[trigger] spec_find(
                            self@.chats,
                            c,
                        ) == spec_find(oldc, c) by {
                            lemma_find_update(oldc, i as int, cl@, c);
                        }
                        assert(oldc[i as int] == old(self).chats@[i as int]@);
                        assert(oldc[i as int].chat_id == chat_id);
                        assert forall|p: int, q: int|
                            0 <= p < q < self@.chats.len() implies self@.chats[p].chat_id
                            != self@.chats[q].chat_id by {
                            assert(self@.chats[p].chat_id == oldc[p].chat_id);
                            assert(self@.chats[q].chat_id == oldc[q].chat_id);
                            assert(oldc[p].chat_id != oldc[q].chat_id);
                        }
                        assert(unique_ids(before));
                        lemma_filter_unique(before, keep_other(movie_id));
                        assert forall|p: int|
                            0 <= p < self@.chats.len() implies chat_wf(
                            #[trigger] self@.chats[p],
                        ) by {
                            if p == i as int {
                                assert(self@.chats[p] == cl@);
                                assert(cl@.movies == without_id(before, movie_id));
                            } else {
                                assert(self@.chats[p] == oldc[p]);
                                assert(chat_wf(oldc[p]));
                            }
                        }
                    }
                    DeleteOutcome::Removed
                } else {
                    DeleteOutcome::NotFound
                }
            },
        }
    }
}

/// Decides whether a shortlist's ids are unique.
fn check_unique_ids(movies: &Vec<StoredMovie>) -> (r: bool)
    ensures
        r == unique_ids(movie_views(movies@)),
{
    let ghost mv = movie_views(movies@);
    let mut x: usize = 0;
    while x < movies.len()
        invariant
            x <= movies@.len(),
            mv == movie_views(movies@),
            forall|i: int, j: int| 0 <= i < j < mv.len() && i < x as int ==> mv[i].id != mv[j].id,
        decreases movies@.len() - x as int,
    {
        let mut y: usize = x + 1;
        while y < movies.len()
            invariant
                x < movies@.len(),
                x as int + 1 <= y as int <= movies@.len(),
                mv == movie_views(movies@),
                forall|j: int| (x as int) < j < y as int ==> mv[x as int].id != mv[j].id,
            decreases movies@.len() - y as int,
        {
            if movies[x].id == movies[y].id {
                proof {
                    assert(mv[x as int].id == mv[y as int].id);
                }
                return false;
            }
            y += 1;
        }
        x += 1;
    }
    true
}

impl Document {
    /// Decides whether the whole document is well formed.
    pub fn check_wf(&self) -> (r: bool)
        ensures
            r == self.wf(),
    {
        let mut x: usize = 0;
        while x < self.chats.len()
            invariant
                x <= self.chats@.len(),
                forall|i: int, j: int|
                    0 <= i < j < self@.chats.len() && i < x as int ==> self@.chats[i].chat_id
                        != self@.chats[j].chat_id,
                forall|i: int| 0 <= i < x as int ==> chat_wf(#[trigger] self@.chats[i]),
            decreases self.chats@.len() - x as int,
        {
            if self.chats[x].movies.len() > 10 {
                proof {
                    assert(self@.chats[x as int] == self.chats@[x as int]@);
                    assert(!chat_wf(self@.chats[x as int]));
                }
                return false;
            }
            if !check_unique_ids(&self.chats[x].movies) {
                proof {
                    assert(self@.chats[x as int] == self.chats@[x as int]@);
                    assert(!chat_wf(self@.chats[x as int]));
                }
                return false;
            }
            let mut y: usize = x + 1;
            while y < self.chats.len()
                invariant
                    x < self.chats@.len(),
                    x as int + 1 <= y as int <= self.chats@.len(),
                    forall|j: int|
                        (x as int) < j < y as int ==> self@.chats[x as int].chat_id
                            != self@.chats[j].chat_id,
                decreases self.chats@.len() - y as int,
            {
                if self.chats[x].chat_id == self.chats[y].chat_id {
                    proof {
                        assert(self@.chats[x as int] == self.chats@[x as int]@);
                        assert(self@.chats[y as int] == self.chats@[y as int]@);
                    }
                    return false;
                }
                y += 1;
            }
            proof {
                assert(self@.chats[x as int] == self.chats@[x as int]@);
                assert(chat_wf(self@.chats[x as int]));
            }
            x += 1;
        }
        true
    }

    /// Startup recovery: nothing loaded (a missing file, or one that
    /// failed to parse) yields a fresh empty document, as does a loaded
    /// document that breaks the invariant; a legacy zero version marker
    /// is upgraded in place, with no field remapping.
    pub fn recover(loaded: Option<Document>) -> (r: Document)
        ensures
            r.wf(),
            match loaded {
                Option::None => r@.version == 1 && r@.chats.len() == 0,
                Option::Some(d) => if doc_wf(d@) {
                    r@.chats == d@.chats && r@.version == (if d@.version == 0 {
                        1u32
                    } else {
                        d@.version
                    })
                } else {
                    r@.version == 1 && r@.chats.len() == 0
                },
            },
    {
        match loaded {
            Option::None => Document::empty(),
            Option::Some(mut d) => {
                if d.check_wf() {
                    let ghost dv = d@;
                    if d.version == 0 {
                        d.version = 1;
                    }
                    proof {
                        assert(d@.chats == dv.chats);
                        assert forall|i: int, j: int|
                            0 <= i < j < d@.chats.len() implies d@.chats[i].chat_id
                            != d@.chats[j].chat_id by {
                            assert(dv.chats[i].chat_id != dv.chats[j].chat_id);
                        }
                        assert forall|i: int|
                            0 <= i < d@.chats.len() implies chat_wf(#[trigger] d@.chats[i]) by {
                            assert(chat_wf(dv.chats[i]));
                        }
                    }
                    d
                } else {
                    Document::empty()
                }
            },
        }
    }
}

/// The index of the first entry with the id, if any.
fn index_of_movie(movies: &Vec<StoredMovie>, id: u64) -> (r: Option<usize>)
    ensures
        match r {
            Option::Some(k) => 0 <= k < movies@.len() && movie_views(movies@)[k as int].id == id,
            Option::None => !has_id(movie_views(movies@), id),
        },
{
    let mut k: usize = 0;
    while k < movies.len()
        invariant
            k <= movies@.len(),
            forall|j: int| 0 <= j < k as int ==> movie_views(movies@)[j].id != id,
        decreases movies@.len() - k as int,
    {
        if movies[k].id == id {
            proof {
                assert(movie_views(movies@)[k as int].id == id);
            }
            return Option::Some(k);
        }
        k += 1;
    }
    Option::None
}

} // verus!

