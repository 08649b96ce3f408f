use artichoke_env_load::load::{resolve_path, stub_contents, Artichoke, File, LoadSources};
use artichoke_env_load::vfs::{parent, FsError, Initializer, Metadata, Vfs};

struct Kernel;

impl File for Kernel {
    // The item that contracts name; outside of proofs it is an ordinary
    // method, and it agrees with `require`.
    fn spec_require() -> Initializer {
        Initializer { id: 7 }
    }

    fn require() -> Initializer {
        Initializer { id: 7 }
    }
}

#[test]
fn relative_path_goes_under_load_root() {
    assert_eq!(resolve_path(b"foo/bar.rb"), b"/src/lib/foo/bar.rb".to_vec());
}

#[test]
fn absolute_path_is_kept() {
    assert_eq!(resolve_path(b"/abs/bar.rb"), b"/abs/bar.rb".to_vec());
}

#[test]
fn parent_of_paths() {
    assert_eq!(parent(b"/src/lib/foo.rb"), Some(b"/src/lib".to_vec()));
    assert_eq!(parent(b"/foo.rb"), None);
    assert_eq!(parent(b"foo.rb"), None);
}

#[test]
fn stub_names_the_path() {
    assert_eq!(
        stub_contents(b"/src/lib/foo.rb"),
        b"# virtual source file -- \"/src/lib/foo.rb\"".to_vec()
    );
}

#[test]
fn text_source_is_overwritten() {
    let mut interp = Artichoke::new();
    assert_eq!(interp.def_rb_source_file("foo.rb", b"x = 1"), Ok(()));
    assert_eq!(interp.def_rb_source_file("foo.rb", b"x = 2"), Ok(()));
    assert_eq!(interp.vfs.read_file(b"/src/lib/foo.rb"), Some(b"x = 2".to_vec()));
    assert_eq!(interp.vfs.metadata(b"/src/lib/foo.rb"), Some(Metadata { require: None }));
}

#[test]
fn native_source_keeps_stub_and_takes_last_initializer() {
    let mut interp = Artichoke::new();
    assert_eq!(interp.def_file("foo.rb", Initializer { id: 1 }), Ok(()));
    assert_eq!(interp.def_file("foo.rb", Initializer { id: 2 }), Ok(()));
    assert_eq!(
        interp.vfs.read_file(b"/src/lib/foo.rb"),
        Some(b"# virtual source file -- \"/src/lib/foo.rb\"".to_vec())
    );
    assert_eq!(
        interp.vfs.metadata(b"/src/lib/foo.rb"),
        Some(Metadata { require: Some(Initializer { id: 2 }) })
    );
}

#[test]
fn native_source_keeps_existing_text() {
    let mut interp = Artichoke::new();
    assert_eq!(interp.def_rb_source_file("a.rb", b"puts 1"), Ok(()));
    assert_eq!(interp.def_file("a.rb", Initializer { id: 3 }), Ok(()));
    assert_eq!(interp.vfs.read_file(b"/src/lib/a.rb"), Some(b"puts 1".to_vec()));
    assert_eq!(
        interp.vfs.metadata(b"/src/lib/a.rb"),
        Some(Metadata { require: Some(Initializer { id: 3 }) })
    );
}

#[test]
fn text_source_drops_initializer() {
    let mut interp = Artichoke::new();
    assert_eq!(interp.def_file("a.rb", Initializer { id: 3 }), Ok(()));
    assert_eq!(interp.def_rb_source_file("a.rb", b"puts 2"), Ok(()));
    assert_eq!(interp.vfs.read_file(b"/src/lib/a.rb"), Some(b"puts 2".to_vec()));
    assert_eq!(interp.vfs.metadata(b"/src/lib/a.rb"), Some(Metadata { require: None }));
}

#[test]
fn registration_creates_ancestors_and_repeats() {
    let mut interp = Artichoke::new();
    for _ in 0..2 {
        assert_eq!(interp.def_rb_source_file("foo/bar.rb", b"1"), Ok(()));
        assert_eq!(interp.def_file("/abs/bar.rb", Initializer { id: 4 }), Ok(()));
    }
    for dir in [&b"/src"[..], b"/src/lib", b"/src/lib/foo", b"/abs"] {
        assert!(interp.vfs.is_dir(dir));
    }
    assert!(interp.vfs.is_file(b"/src/lib/foo/bar.rb"));
    assert!(interp.vfs.is_file(b"/abs/bar.rb"));
    assert!(!interp.vfs.is_file(b"/src/lib/bar.rb"));
}

#[test]
fn file_in_the_way_of_a_directory() {
    let mut interp = Artichoke::new();
    assert_eq!(interp.def_file("foo", Initializer { id: 1 }), Ok(()));
    assert_eq!(interp.def_rb_source_file("foo/bar.rb", b"1"), Err(FsError::NotADirectory));
    assert!(!interp.vfs.is_file(b"/src/lib/foo/bar.rb"));
}

#[test]
fn directory_in_the_way_of_a_file() {
    let mut interp = Artichoke::new();
    assert_eq!(interp.def_rb_source_file("foo/bar.rb", b"1"), Ok(()));
    assert_eq!(interp.def_file("foo", Initializer { id: 1 }), Err(FsError::IsADirectory));
    assert_eq!(interp.def_rb_source_file("foo", b"2"), Err(FsError::IsADirectory));
}

#[test]
fn native_source_for_type() {
    let mut interp = Artichoke::new();
    assert_eq!(interp.def_file_for_type::<Kernel>("kernel.rb"), Ok(()));
    assert_eq!(
        interp.vfs.metadata(b"/src/lib/kernel.rb"),
        Some(Metadata { require: Some(Initializer { id: 7 }) })
    );
}

#[test]
fn store_refuses_orphans_and_missing_files() {
    let mut vfs = Vfs::new();
    assert_eq!(vfs.write_file(b"/a/b.rb", b"x"), Err(FsError::NotFound));
    assert_eq!(vfs.set_metadata(b"/a/b.rb", Metadata::new()), Err(FsError::NotFound));
    assert_eq!(vfs.create_dir_all(b"/a"), Ok(()));
    assert_eq!(vfs.write_file(b"/a/b.rb", b"x"), Ok(()));
    assert_eq!(vfs.write_file(b"/a", b"x"), Err(FsError::IsADirectory));
    assert_eq!(vfs.read_file(b"/a/b.rb"), Some(b"x".to_vec()));
    assert_eq!(vfs.read_file(b"/a"), None);
}
