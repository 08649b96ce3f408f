//! Registration of source files into the interpreter's virtual filesystem,
//! either as a stub backed by a native initializer or as guest-language text.

use vstd::prelude::*;
use vstd::string::*;
use vstd::utf8::encode_utf8;
use crate::bytes::{copy_bytes, debug_bytes, debug_of};
use crate::vfs::{
    chain_clear, contents_in, lemma_last_slash_bounds, metadata_in, on_chain, empty_metadata, is_dir_in, is_file_in, parent, parent_exists, parent_of,
    with_dirs, Entry, FsError, Initializer, Metadata, Vfs, SLASH,
};

verus! {

/// The directory under which relative paths are placed: `/src/lib`.
pub open spec fn load_root() -> Seq<u8> {
    seq![0x2fu8, 0x73, 0x72, 0x63, 0x2f, 0x6c, 0x69, 0x62]
}

/// The path at which a file named `p` is stored: `p` itself when absolute,
/// else `p` under the load root.
pub open spec fn resolve(p: Seq<u8>) -> Seq<u8> {
    if p.len() > 0 && p[0] == SLASH {
        p
    } else {
        load_root() + seq![SLASH] + p
    }
}

/// The placeholder text written for a natively backed file at `path`.
pub open spec fn stub_text(path: Seq<u8>) -> Seq<char> {
    "# virtual source file -- "@ + debug_of(path)
}

/// Whether the directories leading to `p` can be created in `m`.
pub open spec fn dirs_ok(m: Map<Seq<u8>, Entry>, p: Seq<u8>) -> bool {
    match parent_of(p) {
        Some(d) => chain_clear(m, d),
        None => true,
    }
}

/// `m` once the directories leading to `p` are created.
pub open spec fn dirs_for(m: Map<Seq<u8>, Entry>, p: Seq<u8>) -> Map<Seq<u8>, Entry> {
    match parent_of(p) {
        Some(d) => with_dirs(m, d, d.len() as int),
        None => m,
    }
}

/// The result of registering a natively backed file at `p` in `m` with
/// initializer `init`, and the store after it. Existing content is kept; new
/// content is the stub; the initializer is attached either way.
pub open spec fn native_outcome(m: Map<Seq<u8>, Entry>, p: Seq<u8>, init: Initializer) -> (
    Result<(), FsError>,
    Map<Seq<u8>, Entry>,
) {
    if !dirs_ok(m, p) {
        (Err(FsError::NotADirectory), m)
    } else {
        let m1 = dirs_for(m, p);
        if is_dir_in(m1, p) {
            (Err(FsError::IsADirectory), m1)
        } else {
            let contents = if is_file_in(m1, p) {
                contents_in(m1, p)
            } else {
                encode_utf8(stub_text(p))
            };
            (
                Ok(()),
                m1.insert(
                    p,
                    Entry::File { contents, metadata: Metadata { require: Some(init) } },
                ),
            )
        }
    }
}

/// The result of registering `c` as the text of the file at `p` in `m`, and
/// the store after it. The content is replaced and the metadata is empty.
pub open spec fn text_outcome(m: Map<Seq<u8>, Entry>, p: Seq<u8>, c: Seq<u8>) -> (
    Result<(), FsError>,
    Map<Seq<u8>, Entry>,
) {
    if !dirs_ok(m, p) {
        (Err(FsError::NotADirectory), m)
    } else {
        let m1 = dirs_for(m, p);
        if is_dir_in(m1, p) {
            (Err(FsError::IsADirectory), m1)
        } else {
            (Ok(()), m1.insert(p, Entry::File { contents: c, metadata: empty_metadata() }))
        }
    }
}

/// The path at which a file named `filename` is stored.
pub fn resolve_path(filename: &[u8]) -> (r: Vec<u8>)
    ensures
        r@ == resolve(filename@),
{
    if filename.len() > 0 && filename[0] == SLASH {
        return copy_bytes(filename);
    }
    let mut r: Vec<u8> = vec![0x2fu8, 0x73, 0x72, 0x63, 0x2f, 0x6c, 0x69, 0x62, SLASH];
    assert(r@ =~= load_root() + seq![SLASH]);
    let mut i: usize = 0;
    while i < filename.len()
        invariant
            0 <= i <= filename@.len(),
            r@ == load_root() + seq![SLASH] + filename@.subrange(0, i as int),
        decreases filename@.len() - i,
    {
        r.push(filename[i]);
        i = i + 1;
        assert(r@ =~= load_root() + seq![SLASH] + filename@.subrange(0, i as int));
    }
    assert(filename@.subrange(0, i as int) =~= filename@);
    r
}

/// The placeholder content for a natively backed file at `path`.
pub fn stub_contents(path: &[u8]) -> (r: Vec<u8>)
    ensures
        r@ == encode_utf8(stub_text(path@)),
{
    let mut s = String::from_str("# virtual source file -- ");
    let shown = debug_bytes(path);
    s.append(shown.as_str());
    copy_bytes(s.as_str().as_bytes())
}

/// A natively backed source unit, known by its initializer.
pub trait File {
    /// The initializer of this unit, as the contracts see it.
    spec fn spec_require() -> Initializer;

    /// The initializer that defines this unit's items.
    fn require() -> (r: Initializer)
        ensures
            r == Self::spec_require(),
    ;
}

/// The interpreter state that source registration writes into.
pub struct Artichoke {
    pub vfs: Vfs,
}

impl View for Artichoke {
    type V = Map<Seq<u8>, Entry>;

    open spec fn view(&self) -> Map<Seq<u8>, Entry> {
        self.vfs@
    }
}

impl Artichoke {
    /// An interpreter with an empty filesystem.
    pub fn new() -> (r: Artichoke)
        ensures
            r@ == Map::<Seq<u8>, Entry>::empty(),
    {
        Artichoke { vfs: Vfs::new() }
    }

    /// Creates the directories leading to `path`.
    fn make_parents(&mut self, path: &[u8]) -> (r: Result<(), FsError>)
        ensures
            r is Ok <==> dirs_ok(old(self)@, path@),
            r is Ok ==> final(self)@ == dirs_for(old(self)@, path@),
            r is Err ==> r == Err::<(), FsError>(FsError::NotADirectory) && final(self)@ == old(
                self,
            )@,
    {
        match parent(path) {
            Some(d) => self.vfs.create_dir_all(d.as_slice()),
            None => Ok(()),
        }
    }
}

proof fn lemma_parent_made(m: Map<Seq<u8>, Entry>, p: Seq<u8>)
    requires
        dirs_ok(m, p),
    ensures
        parent_exists(dirs_for(m, p), p),
{
    lemma_last_slash_bounds(p, p.len() as int);
    if let Some(d) = parent_of(p) {
        assert(d.len() > 0);
        assert(d.subrange(0, d.len() as int) =~= d);
        assert(on_chain(d, d.len() as int, d));
    }
}

/// Registration of source files under load paths.
pub trait LoadSources: View<V = Map<Seq<u8>, Entry>> + Sized {
    /// Adds a natively backed source file at `filename`, resolved against the
    /// load root. Its ancestor directories are created; a stub is written when
    /// no file is there; `require` is attached as its initializer.
    fn def_file(&mut self, filename: &str, require: Initializer) -> (r: Result<(), FsError>)
        ensures
            (r, final(self)@) == native_outcome(old(self)@, resolve(filename.spec_bytes()), require),
    ;

    /// Adds the natively backed source file of unit `F` at `filename`.
    fn def_file_for_type<F: File>(&mut self, filename: &str) -> (r: Result<(), FsError>)
        ensures
            (r, final(self)@) == native_outcome(
                old(self)@,
                resolve(filename.spec_bytes()),
                F::spec_require(),
            ),
    ;

    /// Adds `contents` as the text of the file at `filename`, resolved
    /// against the load root, in place of what was there. Its ancestor
    /// directories are created; its metadata is empty.
    fn def_rb_source_file(&mut self, filename: &str, contents: &[u8]) -> (r: Result<(), FsError>)
        ensures
            (r, final(self)@) == text_outcome(old(self)@, resolve(filename.spec_bytes()), contents@),
    ;
}

impl LoadSources for Artichoke {
    fn def_file(&mut self, filename: &str, require: Initializer) -> (r: Result<(), FsError>) {
        let path = resolve_path(filename.as_bytes());
        let ghost m = self@;
        self.make_parents(path.as_slice())?;
        proof {
            lemma_parent_made(m, path@);
        }
        if !self.vfs.is_file(path.as_slice()) {
            let stub = stub_contents(path.as_slice());
            self.vfs.write_file(path.as_slice(), stub.as_slice())?;
        }
        let mut metadata = match self.vfs.metadata(path.as_slice()) {
            Some(md) => md,
            None => Metadata::new(),
        };
        metadata.require = Some(require);
        self.vfs.set_metadata(path.as_slice(), metadata)?;
        proof {
            let p = path@;
            assert(self@ =~= native_outcome(m, p, require).1);
        }
        Ok(())
    }

    fn def_file_for_type<F: File>(&mut self, filename: &str) -> (r: Result<(), FsError>) {
        let init = F::require();
        self.def_file(filename, init)
    }

    fn def_rb_source_file(&mut self, filename: &str, contents: &[u8]) -> (r: Result<(), FsError>) {
        let path = resolve_path(filename.as_bytes());
        let ghost m = self@;
        self.make_parents(path.as_slice())?;
        proof {
            lemma_parent_made(m, path@);
        }
        self.vfs.write_file(path.as_slice(), contents)?;
        let metadata = match self.vfs.metadata(path.as_slice()) {
            Some(md) => md,
            None => Metadata::new(),
        };
        self.vfs.set_metadata(path.as_slice(), metadata)?;
        proof {
            let p = path@;
            assert(self@ =~= text_outcome(m, p, contents@).1);
        }
        Ok(())
    }
}

/// Creating the directories leading to `p` leaves what is stored at `p` as it
/// was; once anything is then stored at `p`, the directories are all there,
/// and creating them again changes nothing.
proof fn lemma_dirs_stable(m: Map<Seq<u8>, Entry>, p: Seq<u8>, x: Entry)
    requires
        dirs_ok(m, p),
    ensures
        dirs_for(m, p).contains_key(p) == m.contains_key(p),
        m.contains_key(p) ==> dirs_for(m, p)[p] == m[p],
        dirs_ok(dirs_for(m, p).insert(p, x), p),
        dirs_for(dirs_for(m, p).insert(p, x), p) == dirs_for(m, p).insert(p, x),
        parent_of(p) matches Some(d) ==> forall|q: Seq<u8>|
            on_chain(d, d.len() as int, q) ==> is_dir_in(dirs_for(m, p).insert(p, x), q),
{
    lemma_last_slash_bounds(p, p.len() as int);
    if let Some(d) = parent_of(p) {
        let m2 = dirs_for(m, p).insert(p, x);
        assert(!on_chain(d, d.len() as int, p));
        assert(with_dirs(m2, d, d.len() as int) =~= m2);
    }
}

/// Where a file's parent is, and that an absolute name is kept while a
/// relative one is placed under the load root.
pub proof fn lemma_resolve(n: Seq<u8>)
    ensures
        n.len() > 0 && n[0] == SLASH ==> resolve(n) == n,
        !(n.len() > 0 && n[0] == SLASH) ==> resolve(n) == load_root() + seq![SLASH] + n,
        resolve(n).len() > 0 && resolve(n)[0] == SLASH,
{
}

/// After a text file is registered, every directory leading to it exists,
/// and registering it again, with any content, succeeds without creating
/// anything else.
pub proof fn lemma_text_dirs_again(m: Map<Seq<u8>, Entry>, p: Seq<u8>, c1: Seq<u8>, c2: Seq<u8>)
    requires
        text_outcome(m, p, c1).0 is Ok,
    ensures
        ({
            let m1 = text_outcome(m, p, c1).1;
            &&& parent_of(p) matches Some(d) ==> forall|q: Seq<u8>|
                on_chain(d, d.len() as int, q) ==> is_dir_in(m1, q)
            &&& text_outcome(m1, p, c2).0 is Ok
            &&& text_outcome(m1, p, c2).1 == m1.insert(
                p,
                Entry::File { contents: c2, metadata: empty_metadata() },
            )
        }),
{
    let x = Entry::File { contents: c1, metadata: empty_metadata() };
    lemma_dirs_stable(m, p, x);
}

/// Registering text at a path twice leaves the second text there.
pub proof fn lemma_text_overwrites(m: Map<Seq<u8>, Entry>, p: Seq<u8>, c1: Seq<u8>, c2: Seq<u8>)
    requires
        text_outcome(m, p, c1).0 is Ok,
    ensures
        ({
            let (r, m2) = text_outcome(text_outcome(m, p, c1).1, p, c2);
            &&& r is Ok
            &&& is_file_in(m2, p)
            &&& contents_in(m2, p) == c2
        }),
{
    lemma_text_dirs_again(m, p, c1, c2);
}

/// After a natively backed file is registered, every directory leading to it
/// exists, and registering it again, with any initializer, succeeds without
/// creating anything else.
pub proof fn lemma_native_dirs_again(
    m: Map<Seq<u8>, Entry>,
    p: Seq<u8>,
    a: Initializer,
    b: Initializer,
)
    requires
        native_outcome(m, p, a).0 is Ok,
    ensures
        ({
            let m1 = native_outcome(m, p, a).1;
            &&& parent_of(p) matches Some(d) ==> forall|q: Seq<u8>|
                on_chain(d, d.len() as int, q) ==> is_dir_in(m1, q)
            &&& native_outcome(m1, p, b).0 is Ok
            &&& native_outcome(m1, p, b).1 == m1.insert(
                p,
                Entry::File {
                    contents: contents_in(m1, p),
                    metadata: Metadata { require: Some(b) },
                },
            )
        }),
{
    let m1 = dirs_for(m, p);
    let contents = if is_file_in(m1, p) {
        contents_in(m1, p)
    } else {
        encode_utf8(stub_text(p))
    };
    let x = Entry::File { contents, metadata: Metadata { require: Some(a) } };
    lemma_dirs_stable(m, p, x);
}

/// Registering a natively backed file twice keeps the content of the first
/// registration, the stub where the path held no file, and attaches the
/// second initializer.
pub proof fn lemma_native_keeps_content(
    m: Map<Seq<u8>, Entry>,
    p: Seq<u8>,
    a: Initializer,
    b: Initializer,
)
    requires
        native_outcome(m, p, a).0 is Ok,
    ensures
        ({
            let m1 = native_outcome(m, p, a).1;
            let (r, m2) = native_outcome(m1, p, b);
            &&& r is Ok
            &&& is_file_in(m2, p)
            &&& contents_in(m2, p) == contents_in(m1, p)
            &&& !m.contains_key(p) ==> contents_in(m2, p) == encode_utf8(stub_text(p))
            &&& metadata_in(m2, p).require == Some(b)
        }),
{
    lemma_native_dirs_again(m, p, a, b);
    let x = native_outcome(m, p, a).1[p];
    lemma_dirs_stable(m, p, x);
}

} // verus!
