//! The comparison registry: how a test declares artifacts.
//!
//! A `Provider` is a cheap handle carrying the store roots and the
//! current declared-path prefix; every registration lands in one shared
//! `Registry`, whichever derived handle it is made through. Registered
//! artifacts are produced through a deferred `Writer` that buffers bytes
//! and commits them to the store exactly once, when it is finished.

use vstd::prelude::*;
use crate::filesystem::{FakeFileSystem, FileSystem, FsStore, store_put};
use crate::paths::{is_absolute_path, join_view};

verus! {

/// How a registered artifact is compared against its baseline and how a
/// diff artifact is generated when the two differ.
#[derive(Debug, Clone, Copy, PartialEq, Eq, Structural)]
pub enum DiffMethod {
    /// Byte equality; the diff artifact lists both byte strings.
    Bytes,
    /// Byte equality; the diff artifact is a line diff of the decoded text.
    Text,
}

/// A pending registration: a declared path and its comparison method.
#[derive(Debug, Clone, PartialEq)]
pub struct Comparison {
    pub path: String,
    pub method: DiffMethod,
}

/// The mathematical value of a `Comparison`.
#[verifier::ext_equal]
pub struct ComparisonView {
    pub path: Seq<char>,
    pub method: DiffMethod,
}

impl View for Comparison {
    type V = ComparisonView;

    open spec fn view(&self) -> ComparisonView {
        ComparisonView { path: self.path@, method: self.method }
    }
}

/// The pending list shared by a provider and all its derived handles.
pub struct Registry {
    pending: Vec<Comparison>,
}

impl View for Registry {
    type V = Seq<ComparisonView>;

    closed spec fn view(&self) -> Seq<ComparisonView> {
        self.pending@.map_values(|c: Comparison| c@)
    }
}

impl Registry {
    pub fn new() -> (r: Registry)
        ensures
            r@ == Seq::<ComparisonView>::empty(),
    {
        let r = Registry { pending: Vec::new() };
        proof {
            assert(r@ =~= Seq::<ComparisonView>::empty());
        }
        r
    }
}

/// An artifact being produced: bytes buffered in memory, committed to
/// the store only when the writer is finished.
pub struct Writer {
    filesystem: FakeFileSystem,
    path: String,
    inner: Vec<u8>,
}

impl Writer {
    /// The root of the store handle this writer will commit under.
    pub closed spec fn root_view(&self) -> Seq<char> {
        self.filesystem.root_view()
    }

    /// The declared path this writer will commit to, under its root.
    pub closed spec fn path_view(&self) -> Seq<char> {
        self.path@
    }

    /// The bytes buffered so far.
    pub closed spec fn buffered(&self) -> Seq<u8> {
        self.inner@
    }

    pub fn new(filesystem: FakeFileSystem, path: String) -> (w: Writer)
        ensures
            w.root_view() == filesystem.root_view(),
            w.path_view() == path@,
            w.buffered() == Seq::<u8>::empty(),
    {
        let w = Writer { filesystem, path, inner: Vec::new() };
        proof {
            assert(w.buffered() =~= Seq::<u8>::empty());
        }
        w
    }

    /// Appends bytes to the buffer; nothing reaches the store yet.
    pub fn write_bytes(&mut self, data: &[u8])
        ensures
            final(self).buffered() == old(self).buffered() + data@,
            final(self).root_view() == old(self).root_view(),
            final(self).path_view() == old(self).path_view(),
    {
        self.inner.extend_from_slice(data);
    }

    /// Appends the bytes of `text` to the buffer.
    pub fn write_str(&mut self, text: &str)
        ensures
            final(self).buffered() == old(self).buffered() + vstd::utf8::encode_utf8(text@),
            final(self).root_view() == old(self).root_view(),
            final(self).path_view() == old(self).path_view(),
    {
        self.write_bytes(text.as_bytes());
    }

    /// Commits the buffer to the store: exactly once, on every exit path
    /// a caller takes, and an untouched buffer still creates an empty
    /// artifact.
    pub fn finish(self, store: &mut FsStore)
        requires
            old(store).wf(),
        ensures
            final(store)@ == store_put(
                old(store)@,
                join_view(self.root_view(), self.path_view()),
                self.buffered(),
            ),
            final(store).wf(),
    {
        let Writer { filesystem, path, inner } = self;
        filesystem.write(store, path.as_str(), inner);
    }
}

/// Accumulates the diff-artifact paths a diff generator chooses to
/// write, as a side effect of writing them.
pub struct WriteRequester {
    pub(crate) fs: FakeFileSystem,
    pub(crate) files: Vec<String>,
}

impl WriteRequester {
    /// The root of the store handle the requested artifacts land under.
    pub closed spec fn root_view(&self) -> Seq<char> {
        self.fs.root_view()
    }

    /// The full paths requested so far, in request order.
    pub closed spec fn files_view(&self) -> Seq<Seq<char>> {
        self.files@.map_values(|p: String| p@)
    }

    pub fn new(fs: FakeFileSystem) -> (r: WriteRequester)
        ensures
            r.root_view() == fs.root_view(),
            r.files_view() == Seq::<Seq<char>>::empty(),
    {
        let r = WriteRequester { fs, files: Vec::new() };
        proof {
            assert(r.files_view() =~= Seq::<Seq<char>>::empty());
        }
        r
    }

    /// Writes one diff artifact at `path` under the requester's root and
    /// records its full path.
    pub fn request(&mut self, store: &mut FsStore, path: &str, contents: Vec<u8>)
        requires
            old(store).wf(),
        ensures
            final(self).files_view() == old(self).files_view() + seq![
                join_view(old(self).root_view(), path@),
            ],
            final(self).root_view() == old(self).root_view(),
            final(store)@ == store_put(
                old(store)@,
                join_view(old(self).root_view(), path@),
                contents@,
            ),
            final(store).wf(),
    {
        let full = self.fs.full_path_for(path);
        self.files.push(full);
        self.fs.write(store, path, contents);
        proof {
            assert(self.files_view() =~= old(self).files_view() + seq![
                join_view(old(self).root_view(), path@),
            ]);
        }
    }

    /// Hands back the recorded full paths.
    pub fn into_files(self) -> (r: Vec<String>)
        ensures
            r@.map_values(|p: String| p@) == self.files_view(),
    {
        let WriteRequester { fs: _, files } = self;
        files
    }
}

/// The per-test-run registration handle.
#[derive(Debug, Clone)]
pub struct Provider {
    /// The handle rooted above the three sibling trees; kept so that a
    /// caller holding only the provider can reach the whole namespace.
    pub root_fs: FakeFileSystem,
    fs: FakeFileSystem,
    cur_offset: String,
}

impl Provider {
    /// The root of the handle above the three sibling trees.
    pub closed spec fn top_root(&self) -> Seq<char> {
        self.root_fs.root_view()
    }

    /// The root the produced artifacts are written under.
    pub closed spec fn fs_root(&self) -> Seq<char> {
        self.fs.root_view()
    }

    /// The declared-path prefix registrations made through this handle get.
    pub closed spec fn offset_view(&self) -> Seq<char> {
        self.cur_offset@
    }

    pub fn new(root_fs: FakeFileSystem, fs: FakeFileSystem) -> (r: Provider)
        ensures
            r.top_root() == root_fs.root_view(),
            r.fs_root() == fs.root_view(),
            r.offset_view() == Seq::<char>::empty(),
    {
        let r = Provider { root_fs, fs, cur_offset: String::new() };
        proof {
            assert(r.offset_view() =~= Seq::<char>::empty());
        }
        r
    }

    /// A derived handle whose declared-path prefix and store root are
    /// both extended by the relative path `path`; registrations made
    /// through it land in the same registry.
    pub fn subdir(&self, path: &str) -> (r: Provider)
        requires
            !is_absolute_path(path@),
        ensures
            r.top_root() == self.top_root(),
            r.fs_root() == join_view(self.fs_root(), path@),
            r.offset_view() == join_view(self.offset_view(), path@),
    {
        Provider {
            root_fs: self.root_fs.duplicate(),
            fs: self.fs.subsystem(path),
            cur_offset: crate::paths::path_join(self.cur_offset.as_str(), path),
        }
    }

    /// Records a pending comparison at the current prefix joined with
    /// `name` and returns the deferred writer for the artifact itself.
    pub fn custom_test(&self, registry: &mut Registry, name: &str, method: DiffMethod) -> (w:
        Writer)
        ensures
            final(registry)@ == old(registry)@.push(
                ComparisonView { path: join_view(self.offset_view(), name@), method },
            ),
            w.root_view() == self.fs_root(),
            w.path_view() == name@,
            w.buffered() == Seq::<u8>::empty(),
    {
        let path = crate::paths::path_join(self.cur_offset.as_str(), name);
        registry.pending.push(Comparison { path, method });
        proof {
            assert(registry@ =~= old(registry)@.push(
                ComparisonView { path: join_view(self.offset_view(), name@), method },
            ));
        }
        Writer::new(self.fs.duplicate(), name.to_owned())
    }

    /// Atomically empties the registry and hands back the pending list,
    /// in registration order.
    pub fn take_files(&self, registry: &mut Registry) -> (r: Vec<Comparison>)
        ensures
            r@.map_values(|c: Comparison| c@) == old(registry)@,
            final(registry)@ == Seq::<ComparisonView>::empty(),
    {
        let mut out: Vec<Comparison> = Vec::new();
        core::mem::swap(&mut out, &mut registry.pending);
        proof {
            assert(registry@ =~= Seq::<ComparisonView>::empty());
        }
        out
    }
}

} // verus!
