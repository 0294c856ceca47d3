//! The resolution table: resolved packages keyed by the text they were
//! resolved under, each key at most once.
use vstd::prelude::*;
use crate::package::{duplicate_keys, NpmPackage, PackageType, RegistryKey};
use crate::table::{keys_unique, lemma_table_at, lemma_table_domain, lemma_table_push, lemma_table_update, table_map};
use crate::text::{chars_of, push_all, push_char};

verus! {

/// A package record chosen for a requirement, with who required it.
#[derive(Debug, Clone)]
pub struct ResolvedItem {
    pub package: NpmPackage,
    pub parent: Option<Vec<RegistryKey>>,
    pub specifier: String,
    pub package_type: PackageType,
}

/// The specifier a resolved item keeps: `*` becomes a caret on the version
/// that was resolved, anything else stays as written.
pub open spec fn effective_specifier(specifier: Seq<char>, version: Seq<char>) -> Seq<char> {
    if specifier == seq!['*'] {
        seq!['^'] + version
    } else {
        specifier
    }
}

fn is_star(s: &String) -> (r: bool)
    ensures
        r == (s@ == seq!['*']),
{
    let v = chars_of(s.as_str());
    if v.len() == 1 && v[0] == '*' {
        assert(v@ =~= seq!['*']);
        true
    } else {
        assert(v@.len() == 1 ==> v@[0] != '*');
        assert(seq!['*'].len() == 1 && seq!['*'][0] == '*');
        false
    }
}

/// A copy of a list of parent keys.
pub fn duplicate_parent(p: &Option<Vec<RegistryKey>>) -> (r: Option<Vec<RegistryKey>>)
    ensures
        parent_view(r) == parent_view(*p),
{
    match p {
        Some(v) => Some(duplicate_keys(v)),
        None => None,
    }
}

/// The parent keys of an item, as a sequence.
pub open spec fn parent_view(p: Option<Vec<RegistryKey>>) -> Option<Seq<RegistryKey>> {
    match p {
        Some(v) => Some(v@),
        None => None,
    }
}

/// Two items hold the same record, specifier, kind and parent keys.
pub open spec fn same_item(a: ResolvedItem, b: ResolvedItem) -> bool {
    &&& a.package == b.package
    &&& a.specifier == b.specifier
    &&& a.package_type == b.package_type
    &&& parent_view(a.parent) == parent_view(b.parent)
}

impl ResolvedItem {
    pub fn new(
        package: NpmPackage,
        parent: Option<Vec<RegistryKey>>,
        specifier: String,
        package_type: PackageType,
    ) -> (r: ResolvedItem)
        ensures
            r.package == package,
            r.parent == parent,
            r.package_type == package_type,
            r.specifier@ == effective_specifier(specifier@, package.version@),
    {
        let specifier = if is_star(&specifier) {
            let mut s = String::new();
            push_char(&mut s, '^');
            let v = chars_of(package.version.as_str());
            push_all(&mut s, &v);
            assert(s@ =~= seq!['^'] + package.version@);
            s
        } else {
            specifier
        };
        ResolvedItem { package_type, package, parent, specifier }
    }

    /// An item required by nobody: a root of the tree.
    pub fn with_no_parent(package: NpmPackage, specifier: String, package_type: PackageType) -> (r:
        ResolvedItem)
        ensures
            r.package == package,
            r.parent is None,
            r.package_type == package_type,
            r.specifier@ == effective_specifier(specifier@, package.version@),
    {
        Self::new(package, None, specifier, package_type)
    }

    /// A copy of this item.
    pub fn duplicate(&self) -> (r: ResolvedItem)
        ensures
            same_item(r, *self),
    {
        ResolvedItem {
            package: self.package.duplicate(),
            parent: duplicate_parent(&self.parent),
            specifier: self.specifier.clone(),
            package_type: self.package_type.duplicate(),
        }
    }
}

/// Resolved items, keyed by text.
#[derive(Debug, Clone)]
pub struct ResolveArtifacts {
    packages: Vec<(String, ResolvedItem)>,
}

impl View for ResolveArtifacts {
    type V = Map<Seq<char>, ResolvedItem>;

    closed spec fn view(&self) -> Map<Seq<char>, ResolvedItem> {
        table_map(self.packages@)
    }
}

impl ResolveArtifacts {
    /// The table holds each key at most once.
    pub closed spec fn wf(&self) -> bool {
        keys_unique(self.packages@)
    }

    /// The key of the `i`-th entry, in storage order.
    pub closed spec fn key_at(&self, i: int) -> Seq<char> {
        self.packages@[i].0@
    }

    /// Number of entries.
    pub closed spec fn size(&self) -> nat {
        self.packages@.len()
    }

    pub fn new() -> (r: ResolveArtifacts)
        ensures
            r.wf(),
            r@ == Map::<Seq<char>, ResolvedItem>::empty(),
            r.size() == 0,
    {
        ResolveArtifacts { packages: Vec::new() }
    }

    fn position(&self, key: &str) -> (r: Option<usize>)
        requires
            self.wf(),
        ensures
            match r {
                Some(i) => i < self.packages@.len() && self.packages@[i as int].0@ == key@,
                None => forall|i: int| 0 <= i < self.packages@.len() ==> self.packages@[i].0@ != key@,
            },
    {
        let k = chars_of(key);
        let mut i: usize = 0;
        while i < self.packages.len()
            invariant
                i <= self.packages@.len(),
                k@ == key@,
                forall|j: int| 0 <= j < i ==> self.packages@[j].0@ != key@,
            decreases self.packages@.len() - i,
        {
            let c = chars_of(self.packages[i].0.as_str());
            if vec_eq(&c, &k) {
                return Some(i);
            }
            i = i + 1;
        }
        None
    }

    /// The item stored under `key`, if any.
    pub fn get(&self, key: &str) -> (r: Option<&ResolvedItem>)
        requires
            self.wf(),
        ensures
            match r {
                Some(item) => self@.contains_key(key@) && *item == self@[key@],
                None => !self@.contains_key(key@),
            },
    {
        proof {
            lemma_table_domain(self.packages@, key@);
        }
        match self.position(key) {
            Some(i) => {
                proof {
                    lemma_table_at(self.packages@, i as int);
                }
                Some(&self.packages[i].1)
            },
            None => None,
        }
    }

    /// Stores `value` under `key`, replacing what was there.
    pub fn insert(&mut self, key: String, value: ResolvedItem)
        requires
            old(self).wf(),
        ensures
            final(self).wf(),
            final(self)@ == old(self)@.insert(key@, value),
    {
        proof {
            lemma_table_domain(self.packages@, key@);
        }
        match self.position(key.as_str()) {
            Some(i) => {
                let ghost before = self.packages@;
                self.packages.set(i, (key, value));
                proof {
                    lemma_table_update(before, i as int, self.packages@[i as int]);
                    assert(self.packages@ =~= before.update(i as int, self.packages@[i as int]));
                }
            },
            None => {
                let ghost before = self.packages@;
                let p = (key, value);
                proof {
                    lemma_table_push(before, p);
                }
                self.packages.push(p);
            },
        }
    }

    /// Every stored item, in no particular order.
    pub fn get_artifacts(&self) -> (r: Vec<ResolvedItem>)
        requires
            self.wf(),
        ensures
            r@.len() == self.size(),
            forall|i: int| 0 <= i < r@.len() ==> #[trigger] self@.contains_key(self.key_at(i))
                && same_item(r@[i], self@[self.key_at(i)]),
            forall|i: int, j: int| 0 <= i < j < r@.len() ==> self.key_at(i) != self.key_at(j),
            forall|k: Seq<char>| #[trigger] self@.contains_key(k) ==> exists|i: int| 0 <= i < r@.len()
                && self.key_at(i) == k,
    {
        let mut out: Vec<ResolvedItem> = Vec::new();
        let mut i: usize = 0;
        while i < self.packages.len()
            invariant
                i <= self.packages@.len(),
                keys_unique(self.packages@),
                out@.len() == i,
                forall|j: int| 0 <= j < i ==> same_item(#[trigger] out@[j], self.packages@[j].1),
            decreases self.packages@.len() - i,
        {
            out.push(self.packages[i].1.duplicate());
            i = i + 1;
        }
        proof {
            assert forall|j: int| 0 <= j < out@.len() implies #[trigger] self@.contains_key(self.key_at(j))
                && same_item(out@[j], self@[self.key_at(j)]) by {
                lemma_table_at(self.packages@, j);
            }
            assert forall|k: Seq<char>| #[trigger] self@.contains_key(k) implies exists|i: int| 0 <= i < out@.len()
                && self.key_at(i) == k by {
                lemma_table_domain(self.packages@, k);
                let i = choose|i: int| 0 <= i < self.packages@.len() && self.packages@[i].0@ == k;
                assert(self.key_at(i) == k);
            }
        }
        out
    }
}

/// Whether two character vectors hold the same characters.
pub fn vec_eq(a: &Vec<char>, b: &Vec<char>) -> (r: bool)
    ensures
        r == (a@ == b@),
{
    if a.len() != b.len() {
        return false;
    }
    let mut i: usize = 0;
    while i < a.len()
        invariant
            a@.len() == b@.len(),
            i <= a@.len(),
            forall|j: int| 0 <= j < i ==> a@[j] == b@[j],
        decreases a@.len() - i,
    {
        if a[i] != b[i] {
            return false;
        }
        i = i + 1;
    }
    assert(a@ =~= b@);
    true
}

} // verus!
