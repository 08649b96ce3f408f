//! An in-memory, path-keyed store of directories and source files, each file
//! with its content and metadata.

use vstd::prelude::*;
use crate::bytes::{bytes_eq, copy_bytes};

verus! {

pub const SLASH: u8 = 0x2f;

/// A reference to a native initializer, resolved through the embedder's
/// registry of initializer functions.
#[derive(Clone, Copy, PartialEq, Eq, Debug, Structural)]
pub struct Initializer {
    pub id: u64,
}

/// What is stored beside a file's content.
#[derive(Clone, Copy, PartialEq, Eq, Debug, Structural)]
pub struct Metadata {
    /// The native initializer that defines this file's items, if any.
    pub require: Option<Initializer>,
}

/// The metadata of a file that nothing has been attached to.
pub open spec fn empty_metadata() -> Metadata {
    Metadata { require: None }
}

impl Metadata {
    pub fn new() -> (r: Metadata)
        ensures
            r == empty_metadata(),
    {
        Metadata { require: None }
    }
}

/// A stored node.
#[derive(Debug)]
pub enum Node {
    Dir,
    File { contents: Vec<u8>, metadata: Metadata },
}

/// A stored node, as the contracts see it.
pub ghost enum Entry {
    Dir,
    File { contents: Seq<u8>, metadata: Metadata },
}

pub open spec fn entry_of(n: Node) -> Entry {
    match n {
        Node::Dir => Entry::Dir,
        Node::File { contents, metadata } => Entry::File { contents: contents@, metadata },
    }
}

/// The failures of the store.
#[derive(Clone, Copy, PartialEq, Eq, Debug, Structural)]
pub enum FsError {
    /// A path that must be a directory is a file.
    NotADirectory,
    /// A path that must be a file is a directory.
    IsADirectory,
    /// A path, or the directory that must hold it, does not exist.
    NotFound,
}

/// The store that a list of entries denotes: of two entries with one path,
/// the later wins.
pub open spec fn entries_map(s: Seq<(Vec<u8>, Node)>) -> Map<Seq<u8>, Entry>
    decreases s.len(),
{
    if s.len() == 0 {
        Map::empty()
    } else {
        entries_map(s.drop_last()).insert(s.last().0@, entry_of(s.last().1))
    }
}

/// Index `i` holds the last entry for path `k` in `s`.
pub open spec fn last_at(s: Seq<(Vec<u8>, Node)>, i: int, k: Seq<u8>) -> bool {
    &&& 0 <= i < s.len()
    &&& s[i].0@ == k
    &&& forall|j: int| i < j < s.len() ==> s[j].0@ != k
}

proof fn lemma_last_entry(s: Seq<(Vec<u8>, Node)>, i: int, k: Seq<u8>)
    requires
        last_at(s, i, k),
    ensures
        entries_map(s).contains_key(k),
        entries_map(s)[k] == entry_of(s[i].1),
    decreases s.len(),
{
    if i < s.len() - 1 {
        lemma_last_entry(s.drop_last(), i, k);
    }
}

proof fn lemma_no_entry(s: Seq<(Vec<u8>, Node)>, k: Seq<u8>)
    requires
        forall|j: int| 0 <= j < s.len() ==> s[j].0@ != k,
    ensures
        !entries_map(s).contains_key(k),
    decreases s.len(),
{
    if s.len() > 0 {
        lemma_no_entry(s.drop_last(), k);
    }
}

proof fn lemma_replace_last(s: Seq<(Vec<u8>, Node)>, j: int, p: (Vec<u8>, Node))
    requires
        last_at(s, j, p.0@),
    ensures
        entries_map(s.update(j, p)) == entries_map(s).insert(p.0@, entry_of(p.1)),
    decreases s.len(),
{
    let t = s.update(j, p);
    if j == s.len() - 1 {
        assert(t.drop_last() =~= s.drop_last());
        assert(entries_map(t) =~= entries_map(s).insert(p.0@, entry_of(p.1)));
    } else {
        assert(t.drop_last() =~= s.drop_last().update(j, p));
        lemma_replace_last(s.drop_last(), j, p);
        assert(entries_map(t) =~= entries_map(s).insert(p.0@, entry_of(p.1)));
    }
}

/// Whether the first `i` bytes of `p` end a path component: `i` is the
/// length of `p`, or a `/` follows them.
pub open spec fn boundary(p: Seq<u8>, i: int) -> bool {
    0 < i <= p.len() && (i == p.len() || p[i] == SLASH)
}

/// `q` is one of the directories leading to `d` whose path has at most `n`
/// bytes: a nonempty prefix of `d` that ends a component.
pub open spec fn on_chain(d: Seq<u8>, n: int, q: Seq<u8>) -> bool {
    &&& q.len() <= n
    &&& boundary(d, q.len() as int)
    &&& q == d.subrange(0, q.len() as int)
}

/// `m` with every directory of `d`'s chain up to `n` bytes added where it is
/// missing.
pub open spec fn with_dirs(m: Map<Seq<u8>, Entry>, d: Seq<u8>, n: int) -> Map<Seq<u8>, Entry> {
    Map::new(
        |q: Seq<u8>| m.contains_key(q) || on_chain(d, n, q),
        |q: Seq<u8>|
            if m.contains_key(q) {
                m[q]
            } else {
                Entry::Dir
            },
    )
}

/// No directory of `d`'s chain is a file in `m`.
pub open spec fn chain_clear(m: Map<Seq<u8>, Entry>, d: Seq<u8>) -> bool {
    forall|q: Seq<u8>| on_chain(d, d.len() as int, q) && m.contains_key(q) ==> m[q] is Dir
}

pub open spec fn is_file_in(m: Map<Seq<u8>, Entry>, p: Seq<u8>) -> bool {
    m.contains_key(p) && m[p] is File
}

pub open spec fn is_dir_in(m: Map<Seq<u8>, Entry>, p: Seq<u8>) -> bool {
    m.contains_key(p) && m[p] is Dir
}

/// The index of the last `/` among the first `n` bytes of `p`, or -1.
pub open spec fn last_slash(p: Seq<u8>, n: int) -> int
    decreases n,
{
    if n <= 0 {
        -1
    } else if p[n - 1] == SLASH {
        n - 1
    } else {
        last_slash(p, n - 1)
    }
}

/// The directory that holds `p`: what precedes its last `/`. A path whose
/// only `/` leads it lies in the root, which always exists.
pub open spec fn parent_of(p: Seq<u8>) -> Option<Seq<u8>> {
    let k = last_slash(p, p.len() as int);
    if k > 0 {
        Some(p.subrange(0, k))
    } else {
        None
    }
}

/// Whether the directory that must hold `p` exists in `m`.
pub open spec fn parent_exists(m: Map<Seq<u8>, Entry>, p: Seq<u8>) -> bool {
    match parent_of(p) {
        Some(q) => is_dir_in(m, q),
        None => true,
    }
}

pub proof fn lemma_last_slash_bounds(p: Seq<u8>, n: int)
    requires
        0 <= n <= p.len(),
    ensures
        -1 <= last_slash(p, n) < n,
    decreases n,
{
    if n > 0 {
        lemma_last_slash_bounds(p, n - 1);
    }
}

/// The bytes of `p` before the last `/` of its whole length, or `None`.
pub fn parent(p: &[u8]) -> (r: Option<Vec<u8>>)
    ensures
        r matches Some(q) ==> parent_of(p@) == Some(q@),
        r is None ==> parent_of(p@) is None,
{
    let mut n: usize = p.len();
    proof {
        lemma_last_slash_bounds(p@, p@.len() as int);
    }
    while n > 0 && p[n - 1] != SLASH
        invariant
            0 <= n <= p@.len(),
            last_slash(p@, n as int) == last_slash(p@, p@.len() as int),
        decreases n,
    {
        n = n - 1;
    }
    if n > 1 {
        let (head, _) = p.split_at(n - 1);
        Some(copy_bytes(head))
    } else {
        None
    }
}

/// The content of the file at `p` in `m`.
pub open spec fn contents_in(m: Map<Seq<u8>, Entry>, p: Seq<u8>) -> Seq<u8> {
    match m[p] {
        Entry::File { contents, .. } => contents,
        Entry::Dir => Seq::empty(),
    }
}

/// The metadata of the file at `p` in `m`.
pub open spec fn metadata_in(m: Map<Seq<u8>, Entry>, p: Seq<u8>) -> Metadata {
    match m[p] {
        Entry::File { metadata, .. } => metadata,
        Entry::Dir => empty_metadata(),
    }
}

/// The store.
pub struct Vfs {
    entries: Vec<(Vec<u8>, Node)>,
}

impl View for Vfs {
    type V = Map<Seq<u8>, Entry>;

    closed spec fn view(&self) -> Map<Seq<u8>, Entry> {
        entries_map(self.entries@)
    }
}

impl Vfs {
    /// An empty store: only the root, which is implicit, exists.
    pub fn new() -> (r: Vfs)
        ensures
            r@ == Map::<Seq<u8>, Entry>::empty(),
    {
        Vfs { entries: Vec::new() }
    }

    /// The index of the entry that holds `path`.
    fn find(&self, path: &[u8]) -> (r: Option<usize>)
        ensures
            r matches Some(i) ==> last_at(self.entries@, i as int, path@)
                && self@.contains_key(path@) && self@[path@] == entry_of(self.entries@[i as int].1),
            r is None ==> !self@.contains_key(path@),
    {
        let mut i: usize = self.entries.len();
        while i > 0
            invariant
                i <= self.entries@.len(),
                forall|j: int| i <= j < self.entries@.len() ==> self.entries@[j].0@ != path@,
            decreases i,
        {
            if bytes_eq(self.entries[i - 1].0.as_slice(), path) {
                proof {
                    lemma_last_entry(self.entries@, i - 1, path@);
                }
                return Some(i - 1);
            }
            i = i - 1;
        }
        proof {
            lemma_no_entry(self.entries@, path@);
        }
        None
    }

    /// Stores `node` at `path`, in place of what was there.
    fn store(&mut self, path: Vec<u8>, node: Node)
        ensures
            final(self)@ == old(self)@.insert(path@, entry_of(node)),
    {
        match self.find(path.as_slice()) {
            Some(i) => {
                proof {
                    lemma_replace_last(self.entries@, i as int, (path, node));
                }
                self.entries.set(i, (path, node));
            },
            None => {
                let ghost before = self.entries@;
                self.entries.push((path, node));
                assert(self.entries@.drop_last() =~= before);
            },
        }
    }

    /// Whether a file is stored at `path`.
    pub fn is_file(&self, path: &[u8]) -> (r: bool)
        ensures
            r == is_file_in(self@, path@),
    {
        match self.find(path) {
            Some(i) => match self.entries[i].1 {
                Node::File { .. } => true,
                Node::Dir => false,
            },
            None => false,
        }
    }

    /// Whether a directory is stored at `path`.
    pub fn is_dir(&self, path: &[u8]) -> (r: bool)
        ensures
            r == is_dir_in(self@, path@),
    {
        match self.find(path) {
            Some(i) => match self.entries[i].1 {
                Node::File { .. } => false,
                Node::Dir => true,
            },
            None => false,
        }
    }

    /// The content of the file at `path`, if one is stored there.
    pub fn read_file(&self, path: &[u8]) -> (r: Option<Vec<u8>>)
        ensures
            r matches Some(c) ==> self@[path@] matches Entry::File { contents, .. } && c@
                == contents,
            r is Some <==> is_file_in(self@, path@),
    {
        match self.find(path) {
            Some(i) => match &self.entries[i].1 {
                Node::File { contents, .. } => Some(copy_bytes(contents.as_slice())),
                Node::Dir => None,
            },
            None => None,
        }
    }

    /// The metadata of the file at `path`, if one is stored there.
    pub fn metadata(&self, path: &[u8]) -> (r: Option<Metadata>)
        ensures
            r matches Some(md) ==> self@[path@] matches Entry::File { metadata, .. } && md
                == metadata,
            r is Some <==> is_file_in(self@, path@),
    {
        match self.find(path) {
            Some(i) => match &self.entries[i].1 {
                Node::File { metadata, .. } => Some(*metadata),
                Node::Dir => None,
            },
            None => None,
        }
    }

    /// Creates `dir` and every directory leading to it. Directories that
    /// exist are kept; nothing changes when one of them is a file.
    pub fn create_dir_all(&mut self, dir: &[u8]) -> (r: Result<(), FsError>)
        ensures
            r is Ok <==> chain_clear(old(self)@, dir@),
            r is Ok ==> final(self)@ == with_dirs(old(self)@, dir@, dir@.len() as int),
            r is Err ==> r == Err::<(), FsError>(FsError::NotADirectory) && final(self)@ == old(
                self,
            )@,
    {
        let mut i: usize = 0;
        while i < dir.len()
            invariant
                0 <= i <= dir@.len(),
                forall|q: Seq<u8>| on_chain(dir@, i as int, q) && self@.contains_key(q) ==> self@[q] is Dir,
            decreases dir@.len() - i,
        {
            let n = i + 1;
            if n == dir.len() || dir[n] == SLASH {
                let (head, _) = dir.split_at(n);
                if self.is_file(head) {
                    assert(on_chain(dir@, dir@.len() as int, head@));
                    return Err(FsError::NotADirectory);
                }
                assert forall|q: Seq<u8>| on_chain(dir@, n as int, q) && self@.contains_key(q) implies self@[q] is Dir by {
                    if q.len() == n {
                        assert(q =~= head@);
                    } else {
                        assert(on_chain(dir@, i as int, q));
                    }
                }
            } else {
                assert forall|q: Seq<u8>| on_chain(dir@, n as int, q) && self@.contains_key(q) implies self@[q] is Dir by {
                    assert(on_chain(dir@, i as int, q));
                }
            }
            i = n;
        }
        let ghost start = self@;
        assert(with_dirs(start, dir@, 0) =~= start);
        let mut i: usize = 0;
        while i < dir.len()
            invariant
                0 <= i <= dir@.len(),
                chain_clear(start, dir@),
                self@ == with_dirs(start, dir@, i as int),
            decreases dir@.len() - i,
        {
            let n = i + 1;
            if n == dir.len() || dir[n] == SLASH {
                let (head, _) = dir.split_at(n);
                assert(on_chain(dir@, dir@.len() as int, head@));
                if !self.is_dir(head) {
                    self.store(copy_bytes(head), Node::Dir);
                }
                assert forall|q: Seq<u8>| #[trigger] on_chain(dir@, n as int, q) && !on_chain(dir@, i as int, q) implies q == head@ by {
                    assert(q =~= head@);
                }
                assert(self@ =~= with_dirs(start, dir@, n as int));
            } else {
                assert(self@ =~= with_dirs(start, dir@, n as int));
            }
            i = n;
        }
        Ok(())
    }

    /// Writes `contents` as the file at `path`, in place of what was there,
    /// with empty metadata. Fails when `path` is a directory, or when the
    /// directory that must hold it does not exist.
    pub fn write_file(&mut self, path: &[u8], contents: &[u8]) -> (r: Result<(), FsError>)
        ensures
            is_dir_in(old(self)@, path@) ==> r == Err::<(), FsError>(FsError::IsADirectory),
            !is_dir_in(old(self)@, path@) && !parent_exists(old(self)@, path@) ==> r == Err::<
                (),
                FsError,
            >(FsError::NotFound),
            r is Ok <==> !is_dir_in(old(self)@, path@) && parent_exists(old(self)@, path@),
            r is Ok ==> final(self)@ == old(self)@.insert(
                path@,
                Entry::File { contents: contents@, metadata: empty_metadata() },
            ),
            r is Err ==> final(self)@ == old(self)@,
    {
        if self.is_dir(path) {
            return Err(FsError::IsADirectory);
        }
        match parent(path) {
            Some(q) => {
                if !self.is_dir(q.as_slice()) {
                    return Err(FsError::NotFound);
                }
            },
            None => {},
        }
        let node = Node::File { contents: copy_bytes(contents), metadata: Metadata::new() };
        self.store(copy_bytes(path), node);
        Ok(())
    }

    /// Replaces the metadata of the file at `path`, keeping its content.
    /// Fails when no file is stored there.
    pub fn set_metadata(&mut self, path: &[u8], metadata: Metadata) -> (r: Result<(), FsError>)
        ensures
            r is Ok <==> is_file_in(old(self)@, path@),
            r is Ok ==> final(self)@ == old(self)@.insert(
                path@,
                Entry::File { contents: contents_in(old(self)@, path@), metadata },
            ),
            r is Err ==> r == Err::<(), FsError>(FsError::NotFound) && final(self)@ == old(self)@,
    {
        let contents = match self.find(path) {
            Some(i) => match &self.entries[i].1 {
                Node::File { contents, .. } => copy_bytes(contents.as_slice()),
                Node::Dir => {
                    return Err(FsError::NotFound);
                },
            },
            None => {
                return Err(FsError::NotFound);
            },
        };
        self.store(copy_bytes(path), Node::File { contents, metadata });
        Ok(())
    }
}

} // verus!
