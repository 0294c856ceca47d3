//! Bookkeeping of the content-addressed cache: which keys are being fetched,
//! which are stored, and where. The fetching itself is done by the caller,
//! which performs the action each request hands back.
use vstd::prelude::*;
use crate::package::RegistryKey;
use crate::table::{
    keys_unique, lemma_table_at, lemma_table_domain, lemma_table_push, lemma_table_same,
    lemma_table_update, table_map,
};
use crate::text::{chars_of, push_all, push_char};

verus! {

impl View for RegistryKey {
    type V = (Seq<char>, Seq<char>);

    open spec fn view(&self) -> (Seq<char>, Seq<char>) {
        (self.name@, self.version@)
    }
}

/// The state of one cache entry.
#[derive(Debug, Clone, Copy, PartialEq, Eq, Structural)]
pub enum EntryState {
    /// A fetch is in flight; later requesters wait for it.
    Fetching,
    /// The content is stored and can be reused.
    Ready,
}

/// What a requester of a key must do.
#[derive(Debug, Clone)]
pub enum CacheAction {
    /// Fetch the content into the location, then report completion.
    Fetch(String),
    /// Another requester is fetching; wait for it, then reuse the location.
    Wait(String),
    /// The content is stored at the location.
    Reuse(String),
}

/// The stable location of a key's content, relative to the cache root:
/// `name@version`.
pub open spec fn location_of(k: (Seq<char>, Seq<char>)) -> Seq<char> {
    k.0 + seq!['@'] + k.1
}

/// Whether a request for `k` must fetch: the key has no entry.
pub open spec fn fetches(m: Map<(Seq<char>, Seq<char>), EntryState>, k: (Seq<char>, Seq<char>)) -> bool {
    !m.contains_key(k)
}

/// The index after a request for `k`: a key with no entry is marked in flight.
pub open spec fn after_request(
    m: Map<(Seq<char>, Seq<char>), EntryState>,
    k: (Seq<char>, Seq<char>),
) -> Map<(Seq<char>, Seq<char>), EntryState> {
    if fetches(m, k) {
        m.insert(k, EntryState::Fetching)
    } else {
        m
    }
}

/// The location an action points at.
pub open spec fn action_location(a: CacheAction) -> Seq<char> {
    match a {
        CacheAction::Fetch(l) => l@,
        CacheAction::Wait(l) => l@,
        CacheAction::Reuse(l) => l@,
    }
}

/// The index of the cache: one entry per key.
#[derive(Debug)]
pub struct PersistentCache {
    entries: Vec<(RegistryKey, EntryState)>,
}

impl View for PersistentCache {
    type V = Map<(Seq<char>, Seq<char>), EntryState>;

    closed spec fn view(&self) -> Map<(Seq<char>, Seq<char>), EntryState> {
        table_map(self.entries@)
    }
}

/// A key survives cleaning when it is referenced or still being fetched.
pub open spec fn survives(
    state: EntryState,
    k: (Seq<char>, Seq<char>),
    referenced: Seq<(Seq<char>, Seq<char>)>,
) -> bool {
    state == EntryState::Fetching || referenced.contains(k)
}

/// The index after cleaning against the referenced keys.
pub open spec fn cleaned(
    m: Map<(Seq<char>, Seq<char>), EntryState>,
    referenced: Seq<(Seq<char>, Seq<char>)>,
) -> Map<(Seq<char>, Seq<char>), EntryState> {
    m.restrict(m.dom().filter(|k: (Seq<char>, Seq<char>)| survives(m[k], k, referenced)))
}

pub open spec fn key_views(v: Seq<RegistryKey>) -> Seq<(Seq<char>, Seq<char>)> {
    v.map_values(|k: RegistryKey| k@)
}

/// The entries that survive cleaning, in order.
pub open spec fn surviving(
    v: Seq<(RegistryKey, EntryState)>,
    referenced: Seq<(Seq<char>, Seq<char>)>,
) -> Seq<(RegistryKey, EntryState)>
    decreases v.len(),
{
    if v.len() == 0 {
        v
    } else if survives(v.last().1, v.last().0@, referenced) {
        surviving(v.drop_last(), referenced).push(v.last())
    } else {
        surviving(v.drop_last(), referenced)
    }
}

proof fn lemma_surviving(v: Seq<(RegistryKey, EntryState)>, referenced: Seq<(Seq<char>, Seq<char>)>)
    requires
        keys_unique(v),
    ensures
        keys_unique(surviving(v, referenced)),
        table_map(surviving(v, referenced)) == cleaned(table_map(v), referenced),
    decreases v.len(),
{
    if v.len() == 0 {
        assert(cleaned(table_map(v), referenced) =~= table_map(v));
    } else {
        let w = v.drop_last();
        let p = v.last();
        assert(keys_unique(w));
        lemma_surviving(w, referenced);
        lemma_table_domain(w, p.0@);
        if survives(p.1, p.0@, referenced) {
            lemma_table_push(surviving(w, referenced), p);
        }
        assert(cleaned(table_map(v), referenced) =~= table_map(surviving(v, referenced)));
    }
}

/// The location of a key's content.
pub fn location(key: &RegistryKey) -> (r: String)
    ensures
        r@ == location_of(key@),
{
    let mut s = key.name.clone();
    push_char(&mut s, '@');
    let v = chars_of(key.version.as_str());
    push_all(&mut s, &v);
    s
}

impl PersistentCache {
    pub closed spec fn wf(&self) -> bool {
        keys_unique(self.entries@)
    }

    /// An index with no entries.
    pub fn new() -> (r: PersistentCache)
        ensures
            r.wf(),
            r@ == Map::<(Seq<char>, Seq<char>), EntryState>::empty(),
    {
        PersistentCache { entries: Vec::new() }
    }

    fn position(&self, key: &RegistryKey) -> (r: Option<usize>)
        ensures
            match r {
                Some(i) => i < self.entries@.len() && self.entries@[i as int].0@ == key@,
                None => forall|i: int| 0 <= i < self.entries@.len() ==> self.entries@[i].0@ != key@,
            },
    {
        let mut i: usize = 0;
        while i < self.entries.len()
            invariant
                i <= self.entries@.len(),
                forall|j: int| 0 <= j < i ==> self.entries@[j].0@ != key@,
            decreases self.entries@.len() - i,
        {
            if self.entries[i].0.same(key) {
                return Some(i);
            }
            i = i + 1;
        }
        None
    }

    /// The state of `key`, if it has an entry.
    pub fn state(&self, key: &RegistryKey) -> (r: Option<EntryState>)
        requires
            self.wf(),
        ensures
            r == (if self@.contains_key(key@) { Some(self@[key@]) } else { None }),
    {
        proof {
            lemma_table_domain(self.entries@, key@);
        }
        match self.position(key) {
            Some(i) => {
                proof {
                    lemma_table_at(self.entries@, i as int);
                }
                Some(self.entries[i].1)
            },
            None => None,
        }
    }

    fn set_state(&mut self, key: &RegistryKey, state: EntryState)
        requires
            old(self).wf(),
        ensures
            final(self).wf(),
            final(self)@ == old(self)@.insert(key@, state),
    {
        proof {
            lemma_table_domain(self.entries@, key@);
        }
        let ghost before = self.entries@;
        match self.position(key) {
            Some(i) => {
                let p = (key.duplicate(), state);
                proof {
                    lemma_table_update(before, i as int, p);
                }
                self.entries.set(i, p);
            },
            None => {
                let p = (key.duplicate(), state);
                proof {
                    lemma_table_push(before, p);
                }
                self.entries.push(p);
            },
        }
    }

    /// Asks for the content of `key`. Only the first requester of a key that
    /// has no entry is told to fetch; the key is then marked in flight.
    pub fn get_or_fetch(&mut self, key: &RegistryKey) -> (r: CacheAction)
        requires
            old(self).wf(),
        ensures
            final(self).wf(),
            final(self)@ == after_request(old(self)@, key@),
            (r is Fetch) == fetches(old(self)@, key@),
            action_location(r) == location_of(key@),
            match r {
                CacheAction::Fetch(loc) => !old(self)@.contains_key(key@) && final(self)@ == old(
                    self,
                )@.insert(key@, EntryState::Fetching) && loc@ == location_of(key@),
                CacheAction::Wait(loc) => old(self)@.contains_key(key@) && old(self)@[key@]
                    == EntryState::Fetching && final(self)@ == old(self)@ && loc@ == location_of(
                    key@,
                ),
                CacheAction::Reuse(loc) => old(self)@.contains_key(key@) && old(self)@[key@]
                    == EntryState::Ready && final(self)@ == old(self)@ && loc@ == location_of(key@),
            },
    {
        let loc = location(key);
        match self.state(key) {
            None => {
                self.set_state(key, EntryState::Fetching);
                CacheAction::Fetch(loc)
            },
            Some(EntryState::Fetching) => CacheAction::Wait(loc),
            Some(EntryState::Ready) => CacheAction::Reuse(loc),
        }
    }

    /// Records that the content of `key` is stored.
    pub fn complete(&mut self, key: &RegistryKey)
        requires
            old(self).wf(),
        ensures
            final(self).wf(),
            final(self)@ == old(self)@.insert(key@, EntryState::Ready),
    {
        self.set_state(key, EntryState::Ready);
    }

    /// Forgets a fetch of `key` that failed; stored content is kept.
    pub fn abandon(&mut self, key: &RegistryKey)
        requires
            old(self).wf(),
        ensures
            final(self).wf(),
            final(self)@ == (if old(self)@.contains_key(key@) && old(self)@[key@]
                == EntryState::Fetching {
                old(self)@.remove(key@)
            } else {
                old(self)@
            }),
    {
        let ghost m = self@;
        let ghost before = self.entries@;
        proof {
            lemma_table_domain(before, key@);
        }
        if let Some(i) = self.position(key) {
            if self.entries[i].1 == EntryState::Fetching {
                proof {
                    lemma_table_at(before, i as int);
                }
                self.entries.remove(i);
                proof {
                    assert forall|a: int, b: int| 0 <= a < b < self.entries@.len() implies self.entries@[a].0@
                        != self.entries@[b].0@ by {
                        let a0 = if a < i { a } else { a + 1 };
                        let b0 = if b < i { b } else { b + 1 };
                        assert(self.entries@[a] == before[a0]);
                        assert(self.entries@[b] == before[b0]);
                    }
                    assert forall|j: int| 0 <= j < self.entries@.len() implies m.remove(key@).contains_key(
                        #[trigger] self.entries@[j].0@,
                    ) && m.remove(key@)[self.entries@[j].0@] == self.entries@[j].1 by {
                        let j0 = if j < i { j } else { j + 1 };
                        assert(self.entries@[j] == before[j0]);
                        lemma_table_at(before, j0);
                    }
                    assert forall|k: (Seq<char>, Seq<char>)| #[trigger] m.remove(key@).contains_key(k)
                        implies exists|j: int| 0 <= j < self.entries@.len() && self.entries@[j].0@ == k by {
                        lemma_table_domain(before, k);
                        let j0 = choose|j: int| 0 <= j < before.len() && before[j].0@ == k;
                        let j = if j0 < i { j0 } else { j0 - 1 };
                        assert(self.entries@[j] == before[j0]);
                    }
                    lemma_table_same(self.entries@, m.remove(key@));
                }
            } else {
                proof {
                    lemma_table_at(before, i as int);
                }
            }
        }
    }

    /// Removes every stored entry whose key is not referenced; entries in
    /// flight stay. Returns the removed keys, whose content the caller deletes.
    pub fn clean(&mut self, referenced: &Vec<RegistryKey>) -> (removed: Vec<RegistryKey>)
        requires
            old(self).wf(),
        ensures
            final(self).wf(),
            final(self)@ == cleaned(old(self)@, key_views(referenced@)),
            forall|i: int| 0 <= i < removed@.len() ==> old(self)@.contains_key(#[trigger] removed@[i]@)
                && !final(self)@.contains_key(removed@[i]@),
            forall|k: (Seq<char>, Seq<char>)| #[trigger] old(self)@.contains_key(k)
                && !final(self)@.contains_key(k) ==> key_views(removed@).contains(k),
    {
        let ghost m = self@;
        let ghost refs = key_views(referenced@);
        let ghost before = self.entries@;
        let mut kept: Vec<(RegistryKey, EntryState)> = Vec::new();
        let mut removed: Vec<RegistryKey> = Vec::new();
        let mut i: usize = 0;
        while i < self.entries.len()
            invariant
                i <= self.entries@.len(),
                self.entries@ == before,
                keys_unique(before),
                m == table_map(before),
                refs == key_views(referenced@),
                kept@ == surviving(before.subrange(0, i as int), refs),
                forall|a: int| 0 <= a < removed@.len() ==> m.contains_key(#[trigger] removed@[a]@)
                    && !cleaned(m, refs).contains_key(removed@[a]@),
                forall|j: int| 0 <= j < i && !survives(before[j].1, before[j].0@, refs) ==> key_views(
                    removed@,
                ).contains(#[trigger] before[j].0@),
            decreases before.len() - i,
        {
            let is_ref = contains_key(referenced, &self.entries[i].0);
            if self.entries[i].1 == EntryState::Fetching || is_ref {
                let p = (self.entries[i].0.duplicate(), self.entries[i].1);
                kept.push(p);
            } else {
                proof {
                    lemma_table_at(before, i as int);
                }
                let ghost old_removed = removed@;
                removed.push(self.entries[i].0.duplicate());
                proof {
                    assert(key_views(removed@)[removed@.len() - 1] == before[i as int].0@);
                    assert forall|j: int| 0 <= j <= i && !survives(before[j].1, before[j].0@, refs) implies key_views(
                        removed@,
                    ).contains(#[trigger] before[j].0@) by {
                        if j < i {
                            let a = choose|a: int| 0 <= a < key_views(old_removed).len() && key_views(old_removed)[a] == before[j].0@;
                            assert(key_views(removed@)[a] == key_views(old_removed)[a]);
                        }
                    }
                }
            }
            proof {
                assert(before.subrange(0, i + 1).drop_last() =~= before.subrange(0, i as int));
            }
            i = i + 1;
        }
        proof {
            assert(before.subrange(0, i as int) =~= before);
            lemma_surviving(before, refs);
            assert forall|k: (Seq<char>, Seq<char>)| #[trigger] m.contains_key(k) && !cleaned(m, refs).contains_key(k)
                implies key_views(removed@).contains(k) by {
                lemma_table_domain(before, k);
                let j = choose|j: int| 0 <= j < before.len() && before[j].0@ == k;
                lemma_table_at(before, j);
            }
        }
        self.entries = kept;
        removed
    }
}

/// Whether `key` is among `keys`.
pub fn contains_key(keys: &Vec<RegistryKey>, key: &RegistryKey) -> (r: bool)
    ensures
        r == key_views(keys@).contains(key@),
{
    let mut i: usize = 0;
    while i < keys.len()
        invariant
            i <= keys@.len(),
            forall|j: int| 0 <= j < i ==> keys@[j]@ != key@,
        decreases keys@.len() - i,
    {
        if keys[i].same(key) {
            assert(key_views(keys@)[i as int] == key@);
            return true;
        }
        i = i + 1;
    }
    assert(!key_views(keys@).contains(key@)) by {
        if key_views(keys@).contains(key@) {
            let j = choose|j: int| 0 <= j < key_views(keys@).len() && key_views(keys@)[j] == key@;
            assert(keys@[j]@ == key@);
        }
    }
    false
}

} // verus!
