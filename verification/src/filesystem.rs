//! The virtual file store: an in-memory backing plus cheap handles.
//!
//! A store handle carries nothing but a root prefix; the backing state
//! lives in one `FsStore` value that every handle derived from the same
//! run reads and writes. Deriving a subsystem or duplicating a handle
//! therefore shares the backing by construction.

use vstd::prelude::*;
use crate::paths::{is_absolute_path, join_view, has_prefix, path_join, str_has_prefix};
use vstd::string::StrSliceExecFns;
use vstd::string::StringExecFns;

verus! {

/// What a store holds: full paths and their contents, in insertion order.
pub open spec fn store_wf(s: Seq<(Seq<char>, Seq<u8>)>) -> bool {
    forall|i: int, j: int| #![trigger s[i], s[j]] 0 <= i < j < s.len() ==> s[i].0 != s[j].0
}

pub open spec fn store_has(s: Seq<(Seq<char>, Seq<u8>)>, k: Seq<char>) -> bool
    decreases s.len(),
{
    if s.len() == 0 {
        false
    } else if s[0].0 == k {
        true
    } else {
        store_has(s.drop_first(), k)
    }
}

pub open spec fn store_get(s: Seq<(Seq<char>, Seq<u8>)>, k: Seq<char>) -> Seq<u8>
    decreases s.len(),
{
    if s.len() == 0 {
        Seq::<u8>::empty()
    } else if s[0].0 == k {
        s[0].1
    } else {
        store_get(s.drop_first(), k)
    }
}

pub open spec fn store_put(s: Seq<(Seq<char>, Seq<u8>)>, k: Seq<char>, v: Seq<u8>) -> Seq<
    (Seq<char>, Seq<u8>),
>
    decreases s.len(),
{
    if s.len() == 0 {
        seq![(k, v)]
    } else if s[0].0 == k {
        seq![(k, v)] + s.drop_first()
    } else {
        seq![s[0]] + store_put(s.drop_first(), k, v)
    }
}

pub open spec fn store_del(s: Seq<(Seq<char>, Seq<u8>)>, k: Seq<char>) -> Seq<
    (Seq<char>, Seq<u8>),
>
    decreases s.len(),
{
    if s.len() == 0 {
        s
    } else if s[0].0 == k {
        s.drop_first()
    } else {
        seq![s[0]] + store_del(s.drop_first(), k)
    }
}

/// The prefix that keys under the root `root` start with.
pub open spec fn root_prefix(root: Seq<char>) -> Seq<char> {
    if root.len() > 0 && root[root.len() - 1] == '/' {
        root
    } else {
        root + seq!['/']
    }
}

/// The relative paths of everything stored under `root`, in store order.
pub open spec fn store_files_under(s: Seq<(Seq<char>, Seq<u8>)>, root: Seq<char>) -> Seq<
    Seq<char>,
>
    decreases s.len(),
{
    if s.len() == 0 {
        Seq::<Seq<char>>::empty()
    } else {
        let rest = store_files_under(s.drop_first(), root);
        if has_prefix(s[0].0, root_prefix(root)) {
            seq![s[0].0.skip(root_prefix(root).len() as int)] + rest
        } else {
            rest
        }
    }
}

/// A failed store operation, carried as a value.
#[derive(Debug, Clone, PartialEq)]
pub struct FsError {
    pub message: String,
}

/// The in-memory backing: one map from full path to contents.
pub struct FsStore {
    entries: Vec<(String, Vec<u8>)>,
}

impl View for FsStore {
    type V = Seq<(Seq<char>, Seq<u8>)>;

    closed spec fn view(&self) -> Seq<(Seq<char>, Seq<u8>)> {
        self.entries@.map_values(|e: (String, Vec<u8>)| (e.0@, e.1@))
    }
}

proof fn lemma_first_occurrence(s: Seq<(Seq<char>, Seq<u8>)>, k: Seq<char>, v: Seq<u8>, i: int)
    requires
        0 <= i < s.len(),
        s[i].0 == k,
        forall|j: int| #![trigger s[j]] 0 <= j < i ==> s[j].0 != k,
    ensures
        store_has(s, k),
        store_get(s, k) == s[i].1,
        store_put(s, k, v) == s.update(i, (k, v)),
        store_del(s, k) == s.remove(i),
    decreases i,
{
    if i == 0 {
        assert(store_put(s, k, v) =~= s.update(0, (k, v)));
        assert(store_del(s, k) =~= s.remove(0));
    } else {
        let rest = s.drop_first();
        lemma_first_occurrence(rest, k, v, i - 1);
        assert(seq![s[0]] + store_put(rest, k, v) =~= s.update(i, (k, v)));
        assert(seq![s[0]] + store_del(rest, k) =~= s.remove(i));
    }
}

proof fn lemma_no_occurrence(s: Seq<(Seq<char>, Seq<u8>)>, k: Seq<char>, v: Seq<u8>)
    requires
        forall|j: int| #![trigger s[j]] 0 <= j < s.len() ==> s[j].0 != k,
    ensures
        !store_has(s, k),
        store_put(s, k, v) == s.push((k, v)),
        store_del(s, k) == s,
    decreases s.len(),
{
    if s.len() == 0 {
        assert(store_put(s, k, v) =~= s.push((k, v)));
    } else {
        let rest = s.drop_first();
        lemma_no_occurrence(rest, k, v);
        assert(seq![s[0]] + store_put(rest, k, v) =~= s.push((k, v)));
        assert(seq![s[0]] + store_del(rest, k) =~= s);
    }
}

impl FsStore {
    pub open spec fn wf(&self) -> bool {
        store_wf(self@)
    }

    pub fn new() -> (r: FsStore)
        ensures
            r@ == Seq::<(Seq<char>, Seq<u8>)>::empty(),
            r.wf(),
    {
        let r = FsStore { entries: Vec::new() };
        proof {
            assert(r@ =~= Seq::<(Seq<char>, Seq<u8>)>::empty());
        }
        r
    }

    fn find(&self, key: &String) -> (r: Option<usize>)
        ensures
            match r {
                Some(i) => i < self@.len() && self@[i as int].0 == key@ && forall|j: int|
                    #![trigger self@[j]]
                    0 <= j < i ==> self@[j].0 != key@,
                None => forall|j: int|
                    #![trigger self@[j]]
                    0 <= j < self@.len() ==> self@[j].0 != key@,
            },
    {
        let n = self.entries.len();
        let mut i: usize = 0;
        while i < n
            invariant
                n == self.entries.len(),
                0 <= i <= n,
                forall|j: int| #![trigger self@[j]] 0 <= j < i ==> self@[j].0 != key@,
            decreases n - i,
        {
            let e = &self.entries[i];
            if e.0 == *key {
                return Some(i);
            }
            i = i + 1;
        }
        None
    }

    /// True when a file is stored at exactly the full path `key`.
    pub fn contains(&self, key: &String) -> (r: bool)
        ensures
            r == store_has(self@, key@),
    {
        match self.find(key) {
            Some(i) => {
                proof {
                    lemma_first_occurrence(self@, key@, Seq::<u8>::empty(), i as int);
                }
                true
            },
            None => {
                proof {
                    lemma_no_occurrence(self@, key@, Seq::<u8>::empty());
                }
                false
            },
        }
    }

    /// The contents stored at the full path `key`, or an error when the
    /// path holds nothing.
    pub fn read(&self, key: &String) -> (r: Result<Vec<u8>, FsError>)
        ensures
            store_has(self@, key@) ==> r is Ok && r->Ok_0@ == store_get(self@, key@),
            !store_has(self@, key@) ==> r is Err,
    {
        match self.find(key) {
            Some(i) => {
                proof {
                    lemma_first_occurrence(self@, key@, Seq::<u8>::empty(), i as int);
                }
                Ok(self.entries[i].1.clone())
            },
            None => {
                proof {
                    lemma_no_occurrence(self@, key@, Seq::<u8>::empty());
                }
                let mut m = key.clone();
                m.append(" does not exist");
                Err(FsError { message: m })
            },
        }
    }

    /// Stores `val` at the full path `key`, replacing what was there.
    pub fn put(&mut self, key: String, val: Vec<u8>)
        requires
            old(self).wf(),
        ensures
            final(self)@ == store_put(old(self)@, key@, val@),
            final(self).wf(),
    {
        let ghost s0 = self@;
        match self.find(&key) {
            Some(i) => {
                proof {
                    lemma_first_occurrence(s0, key@, val@, i as int);
                }
                self.entries.remove(i);
                self.entries.insert(i, (key, val));
                proof {
                    assert(self@ =~= s0.update(i as int, (key@, val@)));
                    assert forall|a: int, b: int| #![trigger self@[a], self@[b]]
                        0 <= a < b < self@.len() implies self@[a].0 != self@[b].0 by {
                        assert(s0[a].0 != s0[b].0);
                    }
                }
            },
            None => {
                proof {
                    lemma_no_occurrence(s0, key@, val@);
                }
                self.entries.push((key, val));
                proof {
                    assert(self@ =~= s0.push((key@, val@)));
                    assert forall|a: int, b: int| #![trigger self@[a], self@[b]]
                        0 <= a < b < self@.len() implies self@[a].0 != self@[b].0 by {
                        if b < s0.len() {
                            assert(s0[a].0 != s0[b].0);
                        } else {
                            assert(s0[a].0 != key@);
                        }
                    }
                }
            },
        }
    }

    /// Removes the entry at the full path `key`; removing an absent path
    /// changes nothing.
    pub fn del(&mut self, key: &String)
        requires
            old(self).wf(),
        ensures
            final(self)@ == store_del(old(self)@, key@),
            final(self).wf(),
    {
        let ghost s0 = self@;
        match self.find(key) {
            Some(i) => {
                proof {
                    lemma_first_occurrence(s0, key@, Seq::<u8>::empty(), i as int);
                }
                self.entries.remove(i);
                proof {
                    assert(self@ =~= s0.remove(i as int));
                    assert forall|a: int, b: int| #![trigger self@[a], self@[b]]
                        0 <= a < b < self@.len() implies self@[a].0 != self@[b].0 by {
                        let a0 = if a < i { a } else { a + 1 };
                        let b0 = if b < i { b } else { b + 1 };
                        assert(s0[a0].0 != s0[b0].0);
                    }
                }
            },
            None => {
                proof {
                    lemma_no_occurrence(s0, key@, Seq::<u8>::empty());
                }
            },
        }
    }
}

proof fn lemma_files_under_split(s: Seq<(Seq<char>, Seq<u8>)>, root: Seq<char>, i: int)
    requires
        0 <= i <= s.len(),
    ensures
        store_files_under(s, root) == store_files_under(s.take(i), root) + store_files_under(
            s.skip(i),
            root,
        ),
    decreases s.len(),
{
    if i == 0 {
        assert(s.take(0) =~= Seq::<(Seq<char>, Seq<u8>)>::empty());
        assert(s.skip(0) =~= s);
        assert(store_files_under(s, root) =~= store_files_under(s.take(0), root)
            + store_files_under(s.skip(0), root));
    } else {
        let rest = s.drop_first();
        lemma_files_under_split(rest, root, i - 1);
        assert(s.take(i).drop_first() =~= rest.take(i - 1));
        assert(s.skip(i) =~= rest.skip(i - 1));
        assert(store_files_under(s, root) =~= store_files_under(s.take(i), root)
            + store_files_under(s.skip(i), root));
    }
}

/// The capability a store handle offers apart from data access: deriving
/// scoped handles and resolving paths under its root.
pub trait FileSystem: Sized {
    spec fn root_view(&self) -> Seq<char>;

    /// An independent handle over the same backing and root.
    fn duplicate(&self) -> (r: Self)
        ensures
            r.root_view() == self.root_view(),
    ;

    /// A handle whose root is extended by the relative path `path`.
    fn subsystem(&self, path: &str) -> (r: Self)
        requires
            !is_absolute_path(path@),
        ensures
            r.root_view() == join_view(self.root_view(), path@),
    ;

    /// The full path that `path` resolves to under this handle's root.
    fn full_path_for(&self, path: &str) -> (r: String)
        ensures
            r@ == join_view(self.root_view(), path@),
    ;
}

/// A handle over the shared in-memory backing.
#[derive(Debug, Clone)]
pub struct FakeFileSystem {
    root: String,
}

/// A handle over an on-disk tree; data access belongs to the unverified
/// rim, which resolves paths through this handle.
#[derive(Debug, Clone)]
pub struct RealFileSystem {
    pub root: String,
}

impl FileSystem for FakeFileSystem {
    closed spec fn root_view(&self) -> Seq<char> {
        self.root@
    }

    fn duplicate(&self) -> (r: Self) {
        FakeFileSystem { root: self.root.clone() }
    }

    fn subsystem(&self, path: &str) -> (r: Self) {
        FakeFileSystem { root: path_join(self.root.as_str(), path) }
    }

    fn full_path_for(&self, path: &str) -> (r: String) {
        path_join(self.root.as_str(), path)
    }
}

impl FileSystem for RealFileSystem {
    open spec fn root_view(&self) -> Seq<char> {
        self.root@
    }

    fn duplicate(&self) -> (r: Self) {
        RealFileSystem { root: self.root.clone() }
    }

    fn subsystem(&self, path: &str) -> (r: Self) {
        RealFileSystem { root: path_join(self.root.as_str(), path) }
    }

    fn full_path_for(&self, path: &str) -> (r: String) {
        path_join(self.root.as_str(), path)
    }
}

impl FakeFileSystem {
    /// A handle rooted at the top of a fresh namespace.
    pub fn new() -> (r: FakeFileSystem)
        ensures
            r.root_view() == "/"@,
    {
        FakeFileSystem { root: "/".to_owned() }
    }

    /// True when `path`, resolved under this root, is stored.
    pub fn exists_at(&self, store: &FsStore, path: &str) -> (r: bool)
        ensures
            r == store_has(store@, join_view(self.root_view(), path@)),
    {
        store.contains(&self.full_path_for(path))
    }

    /// The contents at `path` resolved under this root.
    pub fn read(&self, store: &FsStore, path: &str) -> (r: Result<Vec<u8>, FsError>)
        ensures
            store_has(store@, join_view(self.root_view(), path@)) ==> r is Ok && r->Ok_0@
                == store_get(store@, join_view(self.root_view(), path@)),
            !store_has(store@, join_view(self.root_view(), path@)) ==> r is Err,
    {
        store.read(&self.full_path_for(path))
    }

    /// Stores `contents` at `path` resolved under this root, replacing
    /// any prior contents.
    pub fn write(&self, store: &mut FsStore, path: &str, contents: Vec<u8>)
        requires
            old(store).wf(),
        ensures
            final(store)@ == store_put(
                old(store)@,
                join_view(self.root_view(), path@),
                contents@,
            ),
            final(store).wf(),
    {
        store.put(self.full_path_for(path), contents)
    }

    /// Removes `path` resolved under this root.
    pub fn remove(&self, store: &mut FsStore, path: &str)
        requires
            old(store).wf(),
        ensures
            final(store)@ == store_del(old(store)@, join_view(self.root_view(), path@)),
            final(store).wf(),
    {
        store.del(&self.full_path_for(path))
    }

    /// Everything stored under this root, as relative paths in store order.
    pub fn files(&self, store: &FsStore) -> (r: Vec<String>)
        ensures
            r@.map_values(|p: String| p@) == store_files_under(store@, self.root_view()),
    {
        let root = self.root.as_str();
        let rlen = root.unicode_len();
        let pre: String = if rlen > 0 && root.get_char(rlen - 1) == '/' {
            root.to_owned()
        } else {
            let mut p = root.to_owned();
            p.append("/");
            proof {
                reveal_strlit("/");
                assert(p@ =~= root@ + seq!['/']);
            }
            p
        };
        assert(pre@ == root_prefix(self.root_view()));
        let plen = pre.as_str().unicode_len();
        let n = store.entry_count();
        let mut out: Vec<String> = Vec::new();
        let mut i: usize = 0;
        while i < n
            invariant
                n == store@.len(),
                0 <= i <= n,
                plen == pre@.len(),
                pre@ == root_prefix(self.root_view()),
                out@.map_values(|p: String| p@) == store_files_under(
                    store@.take(i as int),
                    self.root_view(),
                ),
            decreases n - i,
        {
            let key = store.key_at(i);
            let ghost pref = store_files_under(store@.take(i as int), self.root_view());
            if str_has_prefix(key, pre.as_str()) {
                let stripped = key.substring_char(plen, key.unicode_len()).to_owned();
                out.push(stripped);
            }
            proof {
                lemma_files_under_split(store@.take(i + 1), self.root_view(), i as int);
                assert(store@.take(i + 1).take(i as int) =~= store@.take(i as int));
                let single = store@.take(i + 1).skip(i as int);
                assert(single =~= seq![store@[i as int]]);
                assert(single.drop_first() =~= Seq::<(Seq<char>, Seq<u8>)>::empty());
                assert(store_files_under(
                    Seq::<(Seq<char>, Seq<u8>)>::empty(),
                    self.root_view(),
                ) =~= Seq::<Seq<char>>::empty());
                if has_prefix(store@[i as int].0, root_prefix(self.root_view())) {
                    assert(store_files_under(single, self.root_view()) =~= seq![
                        store@[i as int].0.skip(root_prefix(self.root_view()).len() as int),
                    ]);
                    assert(out@.map_values(|p: String| p@) =~= store_files_under(
                        store@.take(i + 1),
                        self.root_view(),
                    ));
                } else {
                    assert(store_files_under(single, self.root_view()) =~= Seq::<
                        Seq<char>,
                    >::empty());
                    assert(out@.map_values(|p: String| p@) =~= store_files_under(
                        store@.take(i + 1),
                        self.root_view(),
                    ));
                }
            }
            i = i + 1;
        }
        proof {
            assert(store@.take(n as int) =~= store@);
        }
        out
    }

    /// True when nothing at all is stored under this root.
    pub fn is_empty(&self, store: &FsStore) -> (r: bool)
        ensures
            r == (store_files_under(store@, self.root_view()).len() == 0),
    {
        let files = self.files(store);
        files.len() == 0
    }

    /// Reads `from` and writes its contents to `to`, both resolved under
    /// this root; fails if and only if `from` holds nothing.
    pub fn copy(&self, store: &mut FsStore, from: &str, to: &str) -> (r: Result<(), FsError>)
        requires
            old(store).wf(),
        ensures
            store_has(old(store)@, join_view(self.root_view(), from@)) ==> r is Ok
                && final(store)@ == store_put(
                old(store)@,
                join_view(self.root_view(), to@),
                store_get(old(store)@, join_view(self.root_view(), from@)),
            ),
            !store_has(old(store)@, join_view(self.root_view(), from@)) ==> r is Err
                && final(store)@ == old(store)@,
            final(store).wf(),
    {
        match self.read(store, from) {
            Ok(contents) => {
                self.write(store, to, contents);
                Ok(())
            },
            Err(e) => Err(e),
        }
    }
}

impl FsStore {
    /// How many entries the store holds.
    pub fn entry_count(&self) -> (r: usize)
        ensures
            r == self@.len(),
    {
        self.entries.len()
    }

    /// The full path of the entry at position `i`, in store order.
    pub fn key_at(&self, i: usize) -> (r: &str)
        requires
            i < self@.len(),
        ensures
            r@ == self@[i as int].0,
    {
        self.entries[i].0.as_str()
    }
}

/// Round trip: what was stored at a path is exactly what a read of that
/// path then yields, and the path exists — also when the contents are
/// empty, so that writing nothing still creates an artifact.
pub proof fn lemma_store_put_get(s: Seq<(Seq<char>, Seq<u8>)>, k: Seq<char>, v: Seq<u8>)
    ensures
        store_has(store_put(s, k, v), k),
        store_get(store_put(s, k, v), k) == v,
    decreases s.len(),
{
    if s.len() == 0 {
    } else if s[0].0 == k {
        let p = store_put(s, k, v);
        assert(p[0] == (k, v));
    } else {
        lemma_store_put_get(s.drop_first(), k, v);
        let p = store_put(s, k, v);
        assert(p[0] == s[0]);
        assert(p.drop_first() =~= store_put(s.drop_first(), k, v));
    }
}

/// A second path is untouched by a store at the first: reads at other
/// paths yield what they yielded before.
pub proof fn lemma_store_put_frame(
    s: Seq<(Seq<char>, Seq<u8>)>,
    k: Seq<char>,
    v: Seq<u8>,
    k2: Seq<char>,
)
    requires
        k2 != k,
    ensures
        store_has(store_put(s, k, v), k2) == store_has(s, k2),
        store_get(store_put(s, k, v), k2) == store_get(s, k2),
    decreases s.len(),
{
    if s.len() == 0 {
        let p = store_put(s, k, v);
        assert(p[0] == (k, v));
        assert(p.drop_first() =~= Seq::<(Seq<char>, Seq<u8>)>::empty());
        assert(!store_has(Seq::<(Seq<char>, Seq<u8>)>::empty(), k2));
        assert(store_get(Seq::<(Seq<char>, Seq<u8>)>::empty(), k2) == Seq::<u8>::empty());
    } else if s[0].0 == k {
        let p = store_put(s, k, v);
        assert(p[0] == (k, v));
        assert(p.drop_first() =~= s.drop_first());
    } else {
        lemma_store_put_frame(s.drop_first(), k, v, k2);
        let p = store_put(s, k, v);
        assert(p[0] == s[0]);
        assert(p.drop_first() =~= store_put(s.drop_first(), k, v));
    }
}

/// Storing preserves well-formedness: keys stay unique.
pub proof fn lemma_store_put_wf(s: Seq<(Seq<char>, Seq<u8>)>, k: Seq<char>, v: Seq<u8>)
    requires
        store_wf(s),
    ensures
        store_wf(store_put(s, k, v)),
{
    if exists|i: int| 0 <= i < s.len() && (#[trigger] s[i]).0 == k {
        lemma_first_key_index(s, k);
        let j = first_key_index(s, k);
        lemma_first_occurrence(s, k, v, j);
        let p = s.update(j, (k, v));
        assert forall|a: int, b: int| #![trigger p[a], p[b]] 0 <= a < b < p.len() implies p[a].0
            != p[b].0 by {
            assert(s[a].0 != s[b].0);
        }
    } else {
        assert(forall|i: int| 0 <= i < s.len() ==> (#[trigger] s[i]).0 != k);
        lemma_no_occurrence(s, k, v);
        let p = s.push((k, v));
        assert forall|a: int, b: int| #![trigger p[a], p[b]] 0 <= a < b < p.len() implies p[a].0
            != p[b].0 by {
            if b < s.len() {
                assert(s[a].0 != s[b].0);
            } else {
                assert(s[a].0 != k);
            }
        }
    }
}

/// The index of the first entry keyed `k`, where one exists.
spec fn first_key_index(s: Seq<(Seq<char>, Seq<u8>)>, k: Seq<char>) -> int
    decreases s.len(),
{
    if s.len() == 0 {
        0
    } else if s[0].0 == k {
        0
    } else {
        1 + first_key_index(s.drop_first(), k)
    }
}

proof fn lemma_first_key_index(s: Seq<(Seq<char>, Seq<u8>)>, k: Seq<char>)
    requires
        exists|i: int| 0 <= i < s.len() && (#[trigger] s[i]).0 == k,
    ensures
        0 <= first_key_index(s, k) < s.len(),
        s[first_key_index(s, k)].0 == k,
        forall|j: int| #![trigger s[j]] 0 <= j < first_key_index(s, k) ==> s[j].0 != k,
    decreases s.len(),
{
    if s.len() == 0 {
    } else if s[0].0 == k {
    } else {
        let i = choose|i: int| 0 <= i < s.len() && (#[trigger] s[i]).0 == k;
        assert(s.drop_first()[i - 1] == s[i]);
        lemma_first_key_index(s.drop_first(), k);
        assert forall|j: int| #![trigger s[j]] 0 <= j < first_key_index(s, k) implies s[j].0
            != k by {
            if j > 0 {
                assert(s.drop_first()[j - 1] == s[j]);
            }
        }
    }
}

proof fn lemma_files_under_member(s: Seq<(Seq<char>, Seq<u8>)>, root: Seq<char>, x: Seq<char>)
    requires
        store_files_under(s, root).contains(x),
    ensures
        store_has(s, root_prefix(root) + x),
    decreases s.len(),
{
    if s.len() != 0 {
        let pre = root_prefix(root);
        let rest = store_files_under(s.drop_first(), root);
        if has_prefix(s[0].0, pre) && x == s[0].0.skip(pre.len() as int) {
            assert(s[0].0.take(pre.len() as int) == pre);
            assert(pre + x =~= s[0].0);
        } else {
            assert(rest.contains(x));
            lemma_files_under_member(s.drop_first(), root, x);
            if (pre + x) != s[0].0 {
            } else {
            }
            assert(store_has(s, pre + x));
        }
    }
}

/// A well-formed store lists each file under a root once: the listing
/// has no duplicates.
pub proof fn lemma_files_under_unique(s: Seq<(Seq<char>, Seq<u8>)>, root: Seq<char>)
    requires
        store_wf(s),
    ensures
        store_files_under(s, root).no_duplicates(),
    decreases s.len(),
{
    if s.len() != 0 {
        let pre = root_prefix(root);
        let rest = s.drop_first();
        assert forall|a: int, b: int| #![trigger rest[a], rest[b]] 0 <= a < b < rest.len() implies
            rest[a].0 != rest[b].0 by {
            assert(rest[a] == s[a + 1]);
            assert(rest[b] == s[b + 1]);
        }
        lemma_files_under_unique(rest, root);
        let fs0 = store_files_under(s, root);
        if has_prefix(s[0].0, pre) {
            let x = s[0].0.skip(pre.len() as int);
            if store_files_under(rest, root).contains(x) {
                lemma_files_under_member(rest, root, x);
                lemma_has_key_index(rest, pre + x);
                assert(s[0].0.take(pre.len() as int) == pre);
                assert(pre + x =~= s[0].0);
                let i = choose|i: int|
                    0 <= i < rest.len() && (#[trigger] rest[i]).0 == pre + x;
                assert(rest[i] == s[i + 1]);
                assert(false);
            }
            assert(fs0 =~= seq![x] + store_files_under(rest, root));
            assert(fs0.drop_first() =~= store_files_under(rest, root));
        }
    }
}

proof fn lemma_has_key_index(s: Seq<(Seq<char>, Seq<u8>)>, k: Seq<char>)
    requires
        store_has(s, k),
    ensures
        exists|i: int| 0 <= i < s.len() && (#[trigger] s[i]).0 == k,
    decreases s.len(),
{
    if s.len() != 0 {
        if s[0].0 == k {
        } else {
            lemma_has_key_index(s.drop_first(), k);
            let i = choose|i: int|
                0 <= i < s.drop_first().len() && (#[trigger] s.drop_first()[i]).0 == k;
            assert(s[i + 1] == s.drop_first()[i]);
        }
    }
}

} // verus!
