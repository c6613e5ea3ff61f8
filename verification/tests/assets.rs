use cargo_deb::assets::{
    debug_filename, is_dynamic_library_filename, Asset, AssetCommon, AssetFmt, AssetKind, AssetSource, IsBuilt, RawAsset, RawAssetOrAuto, ReadResult, SymlinkKind, UnresolvedAsset,
};
use cargo_deb::error::{CargoDebError, Cause, Surroundings};
use cargo_deb::globs::{GlobEntry, GlobMatches, ModeResult};

fn path_asset(source: &str, target: &str, chmod: Option<u32>, is_built: IsBuilt) -> Asset {
    Asset::new(AssetSource::Path(source.to_owned()), target.to_owned(), chmod, is_built, AssetKind::Any)
}

fn unresolved(source: &str, target: &str, chmod: Option<u32>, is_built: IsBuilt) -> UnresolvedAsset {
    UnresolvedAsset {
        source_path: source.to_owned(),
        c: AssetCommon { target_path: target.to_owned(), chmod, asset_kind: AssetKind::Any, is_built },
    }
}

fn found(path: &str, is_dir: bool, mode: u32) -> GlobEntry {
    GlobEntry::Found { path: path.to_owned(), is_dir, exists: true, is_symlink: false, mode: ModeResult::Mode(mode) }
}

fn cause(message: &str) -> Cause {
    Cause { message: message.to_owned(), sources: Vec::new() }
}

#[test]
fn assets() {
    let a = path_asset("target/release/bar", "baz/", Some(0o644), IsBuilt::SamePackage);
    assert_eq!("baz/bar", a.c.target_path);
    assert!(a.c.is_built != IsBuilt::No);

    let a = path_asset("foo/bar", "/baz/quz", Some(0o644), IsBuilt::No);
    assert_eq!("baz/quz", a.c.target_path);
    assert!(a.c.is_built == IsBuilt::No);
}

#[test]
fn resolve_without_permissions_reads_from_filesystem() {
    // When chmod is None, resolve() should use the file's permissions on disk
    let asset = unresolved("test-resources/testroot/src/main.rs", "usr/share/test/", None, IsBuilt::No);
    // the file system says what kind of file it is, too
    let mode = 0o100664;
    let on_disk = GlobMatches::Matches(vec![found("test-resources/testroot/src/main.rs", false, mode)]);
    let resolved = asset.resolve(false, &on_disk).unwrap();
    assert_eq!(resolved.len(), 1);
    let resolved_asset = &resolved[0];
    assert!(resolved_asset.c.chmod.is_some(), "chmod should be read from filesystem when not specified in manifest");
    let expected_mode = mode & 0o7777;
    assert_eq!(resolved_asset.c.chmod.unwrap(), expected_mode);
    assert_eq!(expected_mode, 0o664);
}

#[test]
fn permissions_that_cannot_be_read() {
    let entry = |mode: ModeResult| {
        GlobMatches::Matches(vec![GlobEntry::Found { path: "a".to_owned(), is_dir: false, exists: true, is_symlink: false, mode }])
    };
    let asset = unresolved("a", "b", None, IsBuilt::No);
    let inner = |err: CargoDebError| match err {
        CargoDebError::Context(text, inner) if text == "Error while glob searching a" => *inner,
        other => panic!("{other:?}"),
    };
    let err = inner(asset.resolve(false, &entry(ModeResult::Unsupported)).unwrap_err());
    assert!(matches!(&err, CargoDebError::ImplicitFileModeFromPathNotSupported(p) if p == "a"));
    let here = Surroundings { current_dir: None, path: None, existing: None };
    assert_eq!(err.message(&here), "The permissions of 'a' can't be read on this system. Please specify them in the asset");
    let err = inner(asset.resolve(false, &entry(ModeResult::Failed(cause("denied")))).unwrap_err());
    assert!(matches!(&err, CargoDebError::IoFile("Unable to read file metadata for permissions", c, p) if c.message == "denied" && p == "a"));
    // they are not needed where the manifest has some
    let asset = unresolved("a", "b", Some(0o4755), IsBuilt::No);
    assert_eq!(asset.resolve(false, &entry(ModeResult::Unsupported)).unwrap()[0].c.chmod, Some(0o4755));
}

#[test]
fn where_files_go_has_to_be_known() {
    let up = || GlobMatches::Matches(vec![found("a/..", false, 0o644)]);
    assert!(!unresolved("a/..", "x/", None, IsBuilt::No).knows_targets(false, &up()));
    assert!(unresolved("a/..", "x/y", None, IsBuilt::No).knows_targets(false, &up()));
    // a directory becomes no file, but then there is none for the pattern either
    let dir = GlobMatches::Matches(vec![found("a/..", true, 0o755)]);
    assert!(!unresolved("a/..", "x/", None, IsBuilt::No).knows_targets(false, &dir));
    let dirs = GlobMatches::Matches(vec![found("a/..", true, 0o755), found("a/b", false, 0o644)]);
    assert!(unresolved("a/..", "x/", None, IsBuilt::No).knows_targets(false, &dirs));
    // nothing goes anywhere behind an error
    let failed = GlobMatches::Matches(vec![GlobEntry::Failed(cause("denied")), found("a/..", false, 0o644)]);
    assert!(unresolved("a/..", "x/", None, IsBuilt::No).knows_targets(false, &failed));
}

#[test]
fn resolve_with_explicit_permissions_ignores_filesystem() {
    // When chmod is Some, resolve() should use the specified value, not the filesystem
    let asset = unresolved("test-resources/testroot/src/main.rs", "usr/share/test/", Some(0o755), IsBuilt::No);
    let on_disk = GlobMatches::Matches(vec![found("test-resources/testroot/src/main.rs", false, 0o664)]);
    let resolved = asset.resolve(false, &on_disk).unwrap();
    assert_eq!(resolved.len(), 1);
    assert_eq!(resolved[0].c.chmod, Some(0o755), "explicit chmod should be preserved");
}

#[test]
fn assets_globs() {
    let main = "test-resources/testroot/src/main.rs";
    let child_main = "test-resources/testroot/testchild/src/main.rs";
    let child_toml = "test-resources/testroot/testchild/Cargo.toml";
    let child_src = "test-resources/testroot/testchild/src";
    for (glob, on_disk, paths) in [
        ("test-resources/testroot/src/*", &[(main, false)][..], &["bar/main.rs"][..]),
        ("test-resources/testroot/*/main.rs", &[(main, false)], &["bar/main.rs"]),
        (
            "test-resources/testroot/*/*",
            &[(main, false), (child_toml, false), (child_src, true)],
            &["bar/src/main.rs", "bar/testchild/Cargo.toml"],
        ),
        ("test-resources/*/src/*", &[(main, false)], &["bar/testroot/src/main.rs"]),
        ("test-resources/*/src/main.rs", &[(main, false)], &["bar/main.rs"]),
        ("test-resources/*/*/main.rs", &[(main, false)], &["bar/main.rs"]),
        (
            "test-resources/testroot/**/src/*",
            &[(main, false), (child_main, false)],
            &["bar/src/main.rs", "bar/testchild/src/main.rs"],
        ),
        (
            "test-resources/testroot/**/*.rs",
            &[(main, false), (child_main, false)],
            &["bar/src/main.rs", "bar/testchild/src/main.rs"],
        ),
    ] {
        let asset = unresolved(glob, "bar/", Some(0o644), IsBuilt::SamePackage);
        let matches = GlobMatches::Matches(on_disk.iter().map(|(p, is_dir)| found(p, *is_dir, 0o644)).collect());
        let assets = asset.resolve(false, &matches).unwrap().into_iter().map(|asset| asset.c.target_path).collect::<Vec<_>>();
        if assets != paths {
            panic!("Glob: `{glob}`:\n  Expected: {paths:?}\n       Got: {assets:?}");
        }
    }
}

#[test]
fn patterns_that_match_nothing_or_make_no_sense() {
    let asset = unresolved("nothing/*.txt", "usr/share/x/", Some(0o644), IsBuilt::No);
    let err = asset.resolve(false, &GlobMatches::Matches(vec![])).unwrap_err();
    assert!(matches!(err, CargoDebError::AssetFileNotFound { is_glob: true, is_built: false, .. }));
    let err = asset.resolve(false, &GlobMatches::BadPattern(cause("wildcards"))).unwrap_err();
    assert!(matches!(err, CargoDebError::GlobPatternError(c) if c.message == "wildcards"));
    let err = asset.resolve(false, &GlobMatches::Matches(vec![GlobEntry::Failed(cause("denied"))])).unwrap_err();
    match err {
        CargoDebError::Context(text, inner) => {
            assert_eq!(text, "Error while glob searching nothing/*.txt");
            assert!(matches!(*inner, CargoDebError::AssetGlobError(c) if c.message == "denied"));
        },
        other => panic!("{other:?}"),
    }
}

/// Tests that getting the debug filename from a path returns the same path
/// with ".debug" appended
#[test]
fn test_debug_filename() {
    assert_eq!(debug_filename("/my/test/file"), "/my/test/file.debug");
}

/// Tests that getting the debug target for an Asset that `is_built` returns
/// the path "/usr/lib/debug/<path-to-target>.debug"
#[test]
fn test_debug_target_ok() {
    let a = path_asset("target/release/bar", "/usr/bin/baz/", Some(0o644), IsBuilt::SamePackage);
    let debug_target = a.c.default_debug_target_path("usr/lib");
    assert_eq!(debug_target, "/usr/lib/debug/usr/bin/baz/bar.debug");
}

/// Tests that getting the debug target for an Asset that `is_built` and that
/// has a relative path target returns the path "/usr/lib/debug/<path-to-target>.debug"
#[test]
fn test_debug_target_ok_relative() {
    let a = path_asset("target/release/bar", "baz/", Some(0o644), IsBuilt::Workspace);
    let debug_target = a.c.default_debug_target_path("usr/lib");
    assert_eq!(debug_target, "/usr/lib/debug/baz/bar.debug");
}

#[test]
fn libraries_and_executables() {
    assert!(is_dynamic_library_filename("usr/lib/libfoo.so"));
    assert!(!is_dynamic_library_filename("libfoo.so.1.2"));
    assert!(!is_dynamic_library_filename("usr/share/foo.txt"));
    assert!(path_asset("a", "usr/bin/a", Some(0o755), IsBuilt::No).c.is_executable());
    assert!(!path_asset("a", "usr/share/a", Some(0o644), IsBuilt::No).c.is_executable());
    let elf = path_asset("a", "usr/bin/a", Some(0o755), IsBuilt::No);
    assert!(elf.is_binary_executable(Some(*b"\x7fELF")));
    assert!(!elf.is_binary_executable(Some(*b"#!/b")));
}

#[test]
fn content_of_sources() {
    let read = ReadResult::Content(vec![1, 2]);
    let failed = ReadResult::Failed(cause("gone"));
    assert_eq!(AssetSource::Path("x".to_owned()).data(&read).unwrap(), vec![1, 2]);
    assert!(matches!(
        AssetSource::Path("x".to_owned()).data(&failed).unwrap_err(),
        CargoDebError::IoFile("Unable to read asset to add to archive", _, path) if path == "x"
    ));
    assert_eq!(AssetSource::Data(vec![7]).data(&failed).unwrap(), vec![7]);
    assert!(matches!(
        AssetSource::Symlink(SymlinkKind::Virtual("y".to_owned())).data(&read).unwrap_err(),
        CargoDebError::CannotReadVirtualSymlink(p) if p == "y"
    ));
    assert_eq!(AssetSource::Data(vec![7, 8, 9]).file_size(None), Some(3));
    assert_eq!(AssetSource::Path("x".to_owned()).file_size(Some(5)), Some(5));
}

#[test]
fn raw_assets() {
    let raw = RawAsset { source_path: "a".to_owned(), target_path: "b".to_owned(), chmod: Some(0o644) };
    let either: RawAssetOrAuto = raw.into();
    assert_eq!(either.asset().unwrap().source_path, "a");
    assert!(RawAssetOrAuto::Auto.asset().is_none());
    assert_eq!(RawAssetOrAuto::Auto.into_asset().unwrap_err(), "$auto is not allowed here");
}

#[test]
fn description_of_an_asset() {
    let a = path_asset("/home/me/project/target/release/bar", "usr/bin/", Some(0o755), IsBuilt::SamePackage);
    let line = AssetFmt::new(&a, "/home/me/project").text();
    assert!(line.contains("target/release/bar"), "{line}");
    assert!(line.contains("usr/bin/bar"), "{line}");
    assert!(!line.contains("/home/me"), "{line}");
}
