//! The selection coordinator: a purely in-memory map from conversation
//! to its most recent search result set. Replaced wholesale on every
//! new search, never persisted; a stale callback simply fails to
//! resolve rather than adding wrong data.

use vstd::prelude::*;
use vstd::pervasive::VecAdditionalExecFns;
use crate::model::MultiNorm;

verus! {

/// One conversation's cached search results.
#[derive(Debug)]
pub struct CacheEntry {
    pub chat_id: i64,
    pub items: Vec<MultiNorm>,
}

/// The most recent search result set recorded for a conversation.
pub open spec fn spec_cache_find(es: Seq<CacheEntry>, chat_id: i64) -> Option<Seq<MultiNorm>>
    decreases es.len(),
{
    if es.len() == 0 {
        Option::None
    } else if es[0].chat_id == chat_id {
        Option::Some(es[0].items@)
    } else {
        spec_cache_find(es.drop_first(), chat_id)
    }
}

/// The first cached item carrying the id, if any.
pub open spec fn spec_first_with_id(items: Seq<MultiNorm>, id: u64) -> Option<MultiNorm>
    decreases items.len(),
{
    if items.len() == 0 {
        Option::None
    } else if items[0].id == id {
        Option::Some(items[0])
    } else {
        spec_first_with_id(items.drop_first(), id)
    }
}

/// What resolving an id against a conversation's last recorded search
/// yields. It reads that conversation's cache and nothing else.
pub open spec fn spec_resolve(es: Seq<CacheEntry>, chat_id: i64, id: u64) -> Option<MultiNorm> {
    match spec_cache_find(es, chat_id) {
        Option::None => Option::None,
        Option::Some(items) => spec_first_with_id(items, id),
    }
}

/// Resolution is local to one conversation: two cache states that
/// record the same result set for a conversation resolve every id
/// identically there, whatever any other conversation's cache holds.
pub proof fn lemma_resolve_is_conversation_local(
    es1: Seq<CacheEntry>,
    es2: Seq<CacheEntry>,
    chat_id: i64,
    id: u64,
)
    requires
        spec_cache_find(es1, chat_id) == spec_cache_find(es2, chat_id),
    ensures
        spec_resolve(es1, chat_id, id) == spec_resolve(es2, chat_id, id),
{
}

/// `spec_cache_find` returns the set of the first entry with the id.
proof fn lemma_cache_find_at(es: Seq<CacheEntry>, chat_id: i64, i: int)
    requires
        0 <= i < es.len(),
        es[i].chat_id == chat_id,
        forall|j: int| 0 <= j < i ==> es[j].chat_id != chat_id,
    ensures
        spec_cache_find(es, chat_id) == Option::Some(es[i].items@),
    decreases i,
{
    if i > 0 {
        lemma_cache_find_at(es.drop_first(), chat_id, i - 1);
    }
}

/// `spec_cache_find` finds nothing when no entry has the id.
proof fn lemma_cache_find_absent(es: Seq<CacheEntry>, chat_id: i64)
    requires
        forall|j: int| 0 <= j < es.len() ==> es[j].chat_id != chat_id,
    ensures
        spec_cache_find(es, chat_id) is None,
    decreases es.len(),
{
    if es.len() > 0 {
        lemma_cache_find_absent(es.drop_first(), chat_id);
    }
}

/// Replacing one entry, keeping its conversation id, leaves every
/// other conversation's cache unchanged.
proof fn lemma_cache_find_update(es: Seq<CacheEntry>, i: int, c: CacheEntry, other: i64)
    requires
        0 <= i < es.len(),
        es[i].chat_id == c.chat_id,
        other != c.chat_id,
    ensures
        spec_cache_find(es.update(i, c), other) == spec_cache_find(es, other),
    decreases es.len(),
{
    if i == 0 {
        assert(es.update(0, c).drop_first() =~= es.drop_first());
    } else {
        assert(es.update(i, c)[0] == es[0]);
        assert(es.update(i, c).drop_first() =~= es.drop_first().update(i - 1, c));
        lemma_cache_find_update(es.drop_first(), i - 1, c, other);
    }
}

/// Appending an entry leaves every other conversation's cache
/// unchanged.
proof fn lemma_cache_find_push(es: Seq<CacheEntry>, c: CacheEntry, id: i64)
    ensures
        spec_cache_find(es, id) is Some ==> spec_cache_find(es.push(c), id) == spec_cache_find(
            es,
            id,
        ),
        spec_cache_find(es, id) is None && id == c.chat_id ==> spec_cache_find(es.push(c), id)
            == Option::Some(c.items@),
        spec_cache_find(es, id) is None && id != c.chat_id ==> spec_cache_find(es.push(c), id)
            is None,
    decreases es.len(),
{
    if es.len() == 0 {
        assert(es.push(c)[0] == c);
        assert(es.push(c).drop_first() =~= Seq::<CacheEntry>::empty());
        assert(spec_cache_find(Seq::<CacheEntry>::empty(), id) is None);
    } else {
        assert(es.push(c)[0] == es[0]);
        assert(es.push(c).drop_first() =~= es.drop_first().push(c));
        lemma_cache_find_push(es.drop_first(), c, id);
    }
}

/// Removing one entry leaves every other conversation's cache
/// unchanged.
proof fn lemma_cache_find_remove(es: Seq<CacheEntry>, i: int, other: i64)
    requires
        0 <= i < es.len(),
        other != es[i].chat_id,
    ensures
        spec_cache_find(es.remove(i), other) == spec_cache_find(es, other),
    decreases es.len(),
{
    if i == 0 {
        assert(es.remove(0) =~= es.drop_first());
    } else {
        assert(es.remove(i)[0] == es[0]);
        assert(es.remove(i).drop_first() =~= es.drop_first().remove(i - 1));
        lemma_cache_find_remove(es.drop_first(), i - 1, other);
    }
}

/// The in-memory search cache.
#[derive(Debug)]
pub struct SearchCache {
    pub entries: Vec<CacheEntry>,
}

impl SearchCache {
    /// The cache's invariant: one entry per conversation.
    pub open spec fn wf(&self) -> bool {
        forall|i: int, j: int|
            0 <= i < j < self.entries@.len() ==> self.entries@[i].chat_id
                != self.entries@[j].chat_id
    }

    /// A fresh empty cache.
    pub fn new() -> (r: SearchCache)
        ensures
            r.wf(),
            r.entries@.len() == 0,
    {
        SearchCache { entries: Vec::new() }
    }

    /// The index of the conversation's entry.
    fn find_entry(&self, chat_id: i64) -> (r: Option<usize>)
        ensures
            match r {
                Option::Some(i) => i < self.entries@.len() && self.entries@[i as int].chat_id
                    == chat_id && (forall|j: int|
                    0 <= j < i as int ==> self.entries@[j].chat_id != chat_id),
                Option::None => forall|j: int|
                    0 <= j < self.entries@.len() ==> self.entries@[j].chat_id != chat_id,
            },
    {
        let mut i: usize = 0;
        while i < self.entries.len()
            invariant
                i <= self.entries@.len(),
                forall|j: int| 0 <= j < i as int ==> self.entries@[j].chat_id != chat_id,
            decreases self.entries@.len() - i as int,
        {
            if self.entries[i].chat_id == chat_id {
                return Option::Some(i);
            }
            i += 1;
        }
        Option::None
    }

    /// Records a conversation's newest search results, replacing the
    /// previous set wholesale.
    pub fn record_search(&mut self, chat_id: i64, items: Vec<MultiNorm>)
        requires
            old(self).wf(),
        ensures
            final(self).wf(),
            spec_cache_find(final(self).entries@, chat_id) == Option::Some(items@),
            forall|c: i64|
                c != chat_id ==> #[trigger] spec_cache_find(final(self).entries@, c)
                    == spec_cache_find(old(self).entries@, c),
    {
        let found = self.find_entry(chat_id);
        let ghost olde = self.entries@;
        match found {
            Option::Some(i) => {
                let ce = CacheEntry { chat_id, items };
                self.entries.set(i, ce);
                proof {
                    lemma_cache_find_at(self.entries@, chat_id, i as int);
                    assert forall|c: i64| c != chat_id implies #[trigger] spec_cache_find(
                        self.entries@,
                        c,
                    ) == spec_cache_find(olde, c) by {
                        lemma_cache_find_update(olde, i as int, ce, c);
                    }
                    assert forall|p: int, q: int|
                        0 <= p < q < self.entries@.len() implies self.entries@[p].chat_id
                        != self.entries@[q].chat_id by {
                        assert(self.entries@[p].chat_id == olde[p].chat_id);
                        assert(self.entries@[q].chat_id == olde[q].chat_id);
                    }
                }
            },
            Option::None => {
                let ce = CacheEntry { chat_id, items };
                self.entries.push(ce);
                proof {
                    assert(self.entries@ =~= olde.push(ce));
                    lemma_cache_find_at(self.entries@, chat_id, olde.len() as int);
                    assert forall|c: i64| c != chat_id implies #[trigger] spec_cache_find(
                        self.entries@,
                        c,
                    ) == spec_cache_find(olde, c) by {
                        lemma_cache_find_push(olde, ce, c);
                    }
                    assert forall|p: int, q: int|
                        0 <= p < q < self.entries@.len() implies self.entries@[p].chat_id
                        != self.entries@[q].chat_id by {
                        if q < olde.len() {
                            assert(self.entries@[p] == olde[p]);
                            assert(self.entries@[q] == olde[q]);
                        } else {
                            assert(self.entries@[p] == olde[p]);
                            assert(self.entries@[q] == ce);
                        }
                    }
                }
            },
        }
    }

    /// Resolves an id against this conversation's last recorded search
    /// only: the first cached item with the id, or nothing.
    pub fn resolve(&self, chat_id: i64, id: u64) -> (r: Option<MultiNorm>)
        ensures
            r == spec_resolve(self.entries@, chat_id, id),
    {
        let found = self.find_entry(chat_id);
        match found {
            Option::None => {
                proof {
                    lemma_cache_find_absent(self.entries@, chat_id);
                }
                Option::None
            },
            Option::Some(i) => {
                proof {
                    lemma_cache_find_at(self.entries@, chat_id, i as int);
                }
                let items = &self.entries[i].items;
                let mut k: usize = 0;
                proof {
                    assert(items@.skip(0) =~= items@);
                }
                while k < items.len()
                    invariant
                        k <= items@.len(),
                        spec_cache_find(self.entries@, chat_id) == Option::Some(items@),
                        forall|j: int| 0 <= j < k as int ==> items@[j].id != id,
                        spec_first_with_id(items@.skip(k as int), id) == spec_first_with_id(
                            items@,
                            id,
                        ),
                    decreases items@.len() - k as int,
                {
                    if items[k].id == id {
                        proof {
                            assert(items@.skip(k as int)[0] == items@[k as int]);
                            assert(spec_first_with_id(items@.skip(k as int), id)
                                == Option::Some(items@[k as int]));
                        }
                        return Option::Some(items[k].clone());
                    }
                    proof {
                        assert(items@.skip(k as int)[0] == items@[k as int]);
                        assert(items@.skip(k as int).drop_first() =~= items@.skip(k as int + 1));
                    }
                    k += 1;
                }
                proof {
                    assert(items@.skip(items@.len() as int).len() == 0);
                }
                Option::None
            },
        }
    }

    /// Forgets a conversation's recorded search entirely.
    pub fn clear(&mut self, chat_id: i64)
        requires
            old(self).wf(),
        ensures
            final(self).wf(),
            spec_cache_find(final(self).entries@, chat_id) is None,
            forall|c: i64|
                c != chat_id ==> #[trigger] spec_cache_find(final(self).entries@, c)
                    == spec_cache_find(old(self).entries@, c),
    {
        let found = self.find_entry(chat_id);
        let ghost olde = self.entries@;
        match found {
            Option::Some(i) => {
                self.entries.remove(i);
                proof {
                    assert(olde[i as int].chat_id == chat_id);
                    assert forall|j: int|
                        0 <= j < self.entries@.len() implies self.entries@[j].chat_id != chat_id by {
                        if j < i as int {
                            assert(self.entries@[j] == olde[j]);
                        } else {
                            assert(self.entries@[j] == olde[j + 1]);
                        }
                    }
                    lemma_cache_find_absent(self.entries@, chat_id);
                    assert forall|c: i64| c != chat_id implies #[trigger] spec_cache_find(
                        self.entries@,
                        c,
                    ) == spec_cache_find(olde, c) by {
                        lemma_cache_find_remove(olde, i as int, c);
                    }
                    assert forall|p: int, q: int|
                        0 <= p < q < self.entries@.len() implies self.entries@[p].chat_id
                        != self.entries@[q].chat_id by {
                        let p0: int = if p < i as int {
                            p
                        } else {
                            p + 1
                        };
                        let q0: int = if q < i as int {
                            q
                        } else {
                            q + 1
                        };
                        assert(self.entries@[p] == olde[p0]);
                        assert(self.entries@[q] == olde[q0]);
                        assert(olde[p0].chat_id != olde[q0].chat_id);
                    }
                }
            },
            Option::None => {
                proof {
                    lemma_cache_find_absent(self.entries@, chat_id);
                }
            },
        }
    }
}

} // verus!
