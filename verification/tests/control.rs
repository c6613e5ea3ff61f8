use cargo_deb::assets::{Asset, AssetKind, AssetSource, IsBuilt, ReadResult};
use cargo_deb::compress::{select_compressor, CompressConfig, CompressType, Compressed, Selected};
use cargo_deb::config::control::TextResult;
use cargo_deb::config::package::CargoPackage;
use cargo_deb::config::{BuildEnvironment, DebConfigOverrides, DebugSymbols, Multiarch, PackageConfig};
use cargo_deb::deb::archive::{Archive, DebArchive};
use cargo_deb::deb::archiving::{LinkResult, OnDisk};
use cargo_deb::deb::control::{ControlArchiveBuilder, ControlFiles, ScriptFile};
use cargo_deb::deb::data::compress_assets;
use cargo_deb::deb::writing::{finish_deb, write_deb, PackageContent, Written};
use cargo_deb::dh::dh_installsystemd::{find_units, unit_names, FileState};
use cargo_deb::dh::dh_lib::{apply_all, augment, pkgfile, ScriptPieces, UnitScripts, UserScript};
use cargo_deb::error::Cause;
use cargo_deb::listener::Message;
use cargo_deb::parse::manifest::{BuildProfile, CargoDeb, SystemdUnitsConfig};
use cargo_deb::{CargoDebError, CargoLockingFlags};
use std::collections::HashMap;
use std::io::Read;

fn s(text: &str) -> String {
    text.to_owned()
}

fn cause(message: &str) -> Cause {
    Cause { message: s(message), sources: Vec::new() }
}

fn environment(manifest_dir: &str) -> BuildEnvironment {
    BuildEnvironment {
        package_manifest_dir: s(manifest_dir),
        cargo_run_current_dir: s("/p"),
        deb_output_path: None,
        rust_target_triple: None,
        host_triple: s("x86_64-unknown-linux-gnu"),
        target_dir: s("/p/target"),
        features: Vec::new(),
        default_features: true,
        all_features: false,
        debug_symbols: DebugSymbols::Strip,
        reproducible: false,
        build_profile: BuildProfile::default(),
        build_targets: Vec::new(),
        cargo_locking_flags: CargoLockingFlags::default(),
    }
}

fn package(deb: CargoDeb) -> PackageConfig {
    let pkg = CargoPackage {
        name: s("testroot"),
        version: s("0.1.0"),
        license: Some(s("MIT")),
        license_file: None,
        publish: true,
        authors: vec![s("me")],
        homepage: None,
        documentation: None,
        repository: None,
        description: Some(s("test")),
        readme: None,
    };
    PackageConfig::new(deb, &pkg, &mut Vec::new(), 1000, DebConfigOverrides::default(), "amd64", Multiarch::Unsupported).unwrap()
}

const SCRIPTS: [&str; 6] = ["config", "preinst", "postinst", "prerm", "postrm", "templates"];

fn no_scripts() -> Vec<ScriptFile> {
    SCRIPTS.iter().map(|_| ScriptFile::Missing).collect()
}

/// The name of an entry, without the `./` that each one begins with.
fn decode_name<R: Read>(entry: &tar::Entry<'_, R>) -> String {
    let name = std::str::from_utf8(&entry.path_bytes()).unwrap().to_string();
    name.strip_prefix("./").unwrap().to_owned()
}

fn names(tar_bytes: &[u8]) -> Vec<String> {
    let mut ar = tar::Archive::new(tar_bytes);
    ar.entries().unwrap().map(|e| decode_name(&e.unwrap())).collect()
}

fn contents(tar_bytes: &[u8]) -> HashMap<String, (String, u32)> {
    let mut ar = tar::Archive::new(tar_bytes);
    let mut out = HashMap::new();
    for entry in ar.entries().unwrap() {
        let mut entry = entry.unwrap();
        let name = decode_name(&entry);
        let mode = entry.header().mode().unwrap();
        let mut content = String::new();
        entry.read_to_string(&mut content).unwrap();
        out.insert(name, (content, mode));
    }
    out
}

#[test]
fn generate_scripts_does_nothing_if_maintainer_scripts_is_not_set() {
    let package_deb = package(CargoDeb::default());
    let mut in_ar = ControlArchiveBuilder::new(vec![], 0);
    // supply a maintainer script as if it were available on disk
    let mut scripts = no_scripts();
    scripts[2] = ScriptFile::OnDisk(b"content".to_vec());
    in_ar.generate_scripts(&environment("test-resources/testroot"), &package_deb, &scripts, &vec![], &mut Vec::new()).unwrap();
    let archive_bytes = in_ar.finish().unwrap();
    assert!(names(&archive_bytes).is_empty());
}

#[test]
fn generate_scripts_archives_user_supplied_maintainer_scripts_in_root_package() {
    generate_scripts_for_package_without_systemd_unit("test-resources/testroot");
}

#[test]
fn generate_scripts_archives_user_supplied_maintainer_scripts_in_workspace_package() {
    generate_scripts_for_package_without_systemd_unit("test-resources/testroot/testchild");
}

fn generate_scripts_for_package_without_systemd_unit(manifest_dir: &str) {
    let mut package_deb = package(CargoDeb::default());
    let mut in_ar = ControlArchiveBuilder::new(vec![], 0);
    let maintainer_script_paths: Vec<String> = SCRIPTS.iter().map(|n| format!("{manifest_dir}/debian/{n}")).collect();

    // supply maintainer scripts as if they were available on disk
    // provide file content that we can easily verify
    let scripts = maintainer_script_paths.iter().map(|script| ScriptFile::OnDisk(format!("some contents: {script}").into_bytes())).collect();

    // specify a path relative to the (root or workspace child) package
    package_deb.maintainer_scripts_rel_path = Some(s("debian"));

    // generate scripts and store them in the given archive
    let mut log = Vec::new();
    in_ar.generate_scripts(&environment(manifest_dir), &package_deb, &scripts, &vec![], &mut log).unwrap();
    let archive_bytes = in_ar.finish().unwrap();

    // compare the file contents in the archive to what we expect
    let archived_content = contents(&archive_bytes);
    assert_eq!(maintainer_script_paths.len(), archived_content.len());

    // verify that the content we supplied was faithfully archived
    for (script, name) in maintainer_script_paths.iter().zip(SCRIPTS) {
        let expected_content = format!("some contents: {script}");
        let (actual_content, mode) = archived_content.get(name).unwrap();
        assert_eq!(&expected_content, actual_content);
        assert_eq!(*mode, if name == "templates" { 0o644 } else { 0o755 });
    }
    assert!(matches!(&log[0], Message::Info(m) if *m == format!("{manifest_dir}/debian/config -> config")), "{log:?}");
}

#[test]
fn scripts_that_cannot_be_read() {
    let package_deb = package(CargoDeb { maintainer_scripts: Some(s("debian")), ..Default::default() });
    let mut scripts = no_scripts();
    scripts[0] = ScriptFile::OnDisk(b"on disk".to_vec());
    scripts[1] = ScriptFile::Unreadable(cause("denied"));
    let mut ar = ControlArchiveBuilder::new(vec![], 0);
    let mut log = Vec::new();
    let err = ar.generate_scripts(&environment("/p"), &package_deb, &scripts, &vec![], &mut log).unwrap_err();
    assert!(matches!(err, CargoDebError::Io(c) if c.message == "denied"));
    assert!(matches!(&log[..], [Message::Info(m)] if m == "/p/debian/config -> config"));
}

// ---------------------------------------------------------------------------
// Scripts for units
// ---------------------------------------------------------------------------
#[test]
fn generate_scripts_augments_maintainer_scripts_for_unit_in_root_package() {
    let maintainer_scripts = vec![
        ("test-resources/testroot/debian/config", Some("dummy content")),
        ("test-resources/testroot/debian/preinst", Some("dummy content\n#DEBHELPER#")),
        ("test-resources/testroot/debian/postinst", Some("dummy content\n#DEBHELPER#")),
        ("test-resources/testroot/debian/prerm", Some("dummy content\n#DEBHELPER#")),
        ("test-resources/testroot/debian/postrm", Some("dummy content\n#DEBHELPER#")),
        ("test-resources/testroot/debian/templates", Some("dummy content")),
    ];
    generate_scripts_for_package_with_systemd_unit("test-resources/testroot", &maintainer_scripts);
}

#[test]
fn generate_scripts_augments_maintainer_scripts_for_unit_in_workspace_package() {
    let maintainer_scripts = vec![
        ("test-resources/testroot/testchild/debian/config", Some("dummy content")),
        ("test-resources/testroot/testchild/debian/preinst", Some("dummy content\n#DEBHELPER#")),
        ("test-resources/testroot/testchild/debian/postinst", Some("dummy content\n#DEBHELPER#")),
        ("test-resources/testroot/testchild/debian/prerm", Some("dummy content\n#DEBHELPER#")),
        ("test-resources/testroot/testchild/debian/postrm", Some("dummy content\n#DEBHELPER#")),
        ("test-resources/testroot/testchild/debian/templates", Some("dummy content")),
    ];
    generate_scripts_for_package_with_systemd_unit("test-resources/testroot/testchild", &maintainer_scripts);
}

#[test]
fn generate_scripts_generates_missing_maintainer_scripts_for_unit_in_root_package() {
    let maintainer_scripts = vec![
        ("test-resources/testroot/debian/postinst", None),
        ("test-resources/testroot/debian/prerm", None),
        ("test-resources/testroot/debian/postrm", None),
    ];
    generate_scripts_for_package_with_systemd_unit("test-resources/testroot", &maintainer_scripts);
}

#[test]
fn generate_scripts_generates_missing_maintainer_scripts_for_unit_in_workspace_package() {
    let maintainer_scripts = vec![
        ("test-resources/testroot/testchild/debian/postinst", None),
        ("test-resources/testroot/testchild/debian/prerm", None),
        ("test-resources/testroot/testchild/debian/postrm", None),
    ];
    generate_scripts_for_package_with_systemd_unit("test-resources/testroot/testchild", &maintainer_scripts);
}

fn fragment(script: &str) -> String {
    format!("# Automatically added by dh_installsystemd\nfragment for {script}\n# End automatically added section\n")
}

/// A script with this content on disk, if there is some, and the pieces that a service needs: none
/// before it is installed.
fn pieces(dir: &str, script: &str, content: Option<&str>) -> ScriptPieces {
    ScriptPieces {
        user: match content {
            Some(text) => UserScript::Text { path: format!("{dir}/debian/{script}"), text: s(text) },
            None => UserScript::Missing,
        },
        fragment: if script == "preinst" { String::new() } else { fragment(script) },
    }
}

// `maintainer_scripts` is a collection of file system paths for which:
//   - each file should be in the same directory
//   - the generated archive should contain a file with each of the given filenames
//   - if Some(...) then pretend when creating the archive that a file at that path exists with the given content
fn generate_scripts_for_package_with_systemd_unit(manifest_dir: &str, maintainer_scripts: &[(&str, Option<&str>)]) {
    let mut package_deb = package(CargoDeb::default());
    let mut in_ar = ControlArchiveBuilder::new(vec![], 0);
    let content = |name: &str| maintainer_scripts.iter().find(|(p, _)| p.ends_with(&format!("/{name}"))).and_then(|(_, c)| *c);

    // supply maintainer scripts as if they were available on disk
    let scripts = SCRIPTS
        .iter()
        .map(|name| match content(name) {
            Some(c) => ScriptFile::OnDisk(c.as_bytes().to_vec()),
            None => ScriptFile::Missing,
        })
        .collect();
    let units = vec![UnitScripts {
        preinst: pieces(manifest_dir, "preinst", content("preinst")),
        postinst: pieces(manifest_dir, "postinst", content("postinst")),
        prerm: pieces(manifest_dir, "prerm", content("prerm")),
        postrm: pieces(manifest_dir, "postrm", content("postrm")),
    }];

    package_deb.maintainer_scripts_rel_path = Some(s("debian"));
    // enable systemd unit processing
    package_deb.systemd_units = Some(vec![SystemdUnitsConfig::default()]);

    // generate scripts and store them in the given archive
    let mut log = Vec::new();
    in_ar.generate_scripts(&environment(manifest_dir), &package_deb, &scripts, &units, &mut log).unwrap();

    // finish the archive and unwrap it as a byte vector
    let archive_bytes = in_ar.finish().unwrap();

    // check that the expected files were included in the archive
    let mut archived_file_names = names(&archive_bytes);
    archived_file_names.sort();
    let mut expected_maintainer_scripts = maintainer_scripts.iter().map(|(script, _)| s(script.rsplit('/').next().unwrap())).collect::<Vec<String>>();
    expected_maintainer_scripts.sort();
    assert_eq!(expected_maintainer_scripts, archived_file_names);

    // check the content of the archived files for any unreplaced placeholders.
    let archived = contents(&archive_bytes);
    let unreplaced_placeholders = archived.values().any(|(v, _)| v.contains("#DEBHELPER#"));
    assert!(!unreplaced_placeholders);

    // and for what has taken their place
    for name in ["postinst", "prerm", "postrm"] {
        let head = if content(name).is_some() { "dummy content\n" } else { "#!/bin/sh\nset -e\n" };
        assert_eq!(archived[name], (format!("{head}{}", fragment(name)), 0o755));
        assert!(log.iter().any(|m| matches!(m, Message::Info(m) if *m == format!("systemd_units -> {name}"))));
    }
    if content("preinst").is_some() {
        assert_eq!(archived["preinst"].0, "dummy content\n");
    }
}

#[test]
fn scripts_without_a_place_for_pieces() {
    let mut package_deb = package(CargoDeb { maintainer_scripts: Some(s("debian")), ..Default::default() });
    package_deb.systemd_units = Some(vec![SystemdUnitsConfig::default()]);
    let unit = |postinst: UserScript| {
        vec![UnitScripts {
            preinst: pieces("/p", "preinst", None),
            postinst: ScriptPieces { user: postinst, fragment: fragment("postinst") },
            prerm: pieces("/p", "prerm", None),
            postrm: pieces("/p", "postrm", None),
        }]
    };
    let run = |postinst: UserScript| {
        let mut ar = ControlArchiveBuilder::new(vec![], 0);
        let r = ar.generate_scripts(&environment("/p"), &package_deb, &no_scripts(), &unit(postinst), &mut Vec::new());
        r.map(|()| contents(&ar.finish().unwrap()))
    };
    let err = run(UserScript::Text { path: s("/p/debian/postinst"), text: s("no token") }).unwrap_err();
    assert!(matches!(err, CargoDebError::DebHelperReplaceFailed(p) if p == "/p/debian/postinst"));
    let err = run(UserScript::Unreadable(cause("denied"))).unwrap_err();
    assert!(matches!(err, CargoDebError::Io(c) if c.message == "denied"));
    // the token may stand in several places
    let files = run(UserScript::Text { path: s("p"), text: s("a\n#DEBHELPER#\nb\n#DEBHELPER#") }).unwrap();
    let f = fragment("postinst");
    assert_eq!(files["postinst"].0, format!("a\n{f}\nb\n{f}"));
}

/// Each entry on units begins with the scripts of the user, so the last one counts.
#[test]
fn scripts_for_several_entries() {
    let unit = |text: &str| {
        let empty = || ScriptPieces { user: UserScript::Missing, fragment: String::new() };
        UnitScripts {
            preinst: empty(),
            postinst: ScriptPieces { user: UserScript::Text { path: s("p"), text: s("<#DEBHELPER#>") }, fragment: s(text) },
            prerm: empty(),
            postrm: empty(),
        }
    };
    assert_eq!(apply_all(&vec![unit("a"), unit("b")]).unwrap(), vec![None, Some(s("<b>")), None, None]);
    assert_eq!(apply_all(&vec![]).unwrap(), vec![None, None, None, None]);
    assert_eq!(augment("p", "x#DEBHELPER#y", "").unwrap(), "xy");
}

#[test]
fn names_of_scripts_and_units() {
    assert_eq!(pkgfile("p", None, "postinst"), vec!["p.postinst", "postinst"]);
    assert_eq!(pkgfile("p", Some("u"), "postinst"), vec!["p.u.postinst", "u.postinst", "p.postinst", "postinst"]);

    let all = unit_names("p", None);
    assert_eq!(all.len(), 7 * 2 + 6);
    let target = |all: &[(String, String)], name: &str| all.iter().find(|(n, _)| n == name).map(|(_, t)| t.clone());
    for kind in ["mount", "path", "service", "socket", "target", "timer"] {
        let to = format!("usr/lib/systemd/system/p.{kind}");
        assert_eq!(target(&all, &format!("p.{kind}")), Some(to.clone()));
        assert_eq!(target(&all, kind), Some(to));
        assert_eq!(target(&all, &format!("p@.{kind}")), Some(format!("usr/lib/systemd/system/p@.{kind}")));
    }
    assert_eq!(target(&all, "p.tmpfile"), Some(s("usr/lib/tmpfiles.d/p.conf")));

    let named = unit_names("p", Some("u"));
    assert_eq!(target(&named, "p.u.service"), Some(s("usr/lib/systemd/system/u.service")));
    assert_eq!(target(&named, "u.service"), Some(s("usr/lib/systemd/system/u.service")));
    assert_eq!(target(&named, "p@.u.service"), Some(s("usr/lib/systemd/system/u@.service")));
    assert_eq!(target(&named, "p.service"), None);

    // of two names for the same place, the first is taken
    let there = |name: &str| FileState { is_file: ["p.service", "service", "p@.timer", "socket"].contains(&name), is_symlink: name == "socket" };
    let states = all.iter().map(|(n, _)| there(n)).collect();
    let units = find_units("debian", &all, &states);
    let found: Vec<(&str, &str, u32, bool)> = units.iter().map(|u| (u.source.as_str(), u.recipe.path.as_str(), u.recipe.mode, u.is_symlink)).collect();
    assert_eq!(
        found,
        vec![
            ("debian/p.service", "usr/lib/systemd/system/p.service", 0o644, false),
            ("debian/socket", "usr/lib/systemd/system/p.socket", 0o644, true),
            ("debian/p@.timer", "usr/lib/systemd/system/p@.timer", 0o644, false),
        ]
    );
}

fn control_files(sizes: Vec<Option<u64>>) -> ControlFiles {
    ControlFiles {
        sizes,
        description: TextResult::Text(String::new()),
        scripts: no_scripts(),
        units: Vec::new(),
        triggers: ReadResult::Content(b"interest /usr/lib\n".to_vec()),
    }
}

#[test]
fn all_control_files() {
    let package_deb = package(CargoDeb {
        conf_files: Some(vec![s("/etc/a")]),
        triggers_file: Some(s("triggers.txt")),
        ..Default::default()
    });
    let mut ar = ControlArchiveBuilder::new(vec![], 5);
    let mut log = Vec::new();
    ar.generate_archive(&environment("/p"), &package_deb, &control_files(vec![]), &mut log).unwrap();
    let bytes = ar.finish().unwrap();
    assert_eq!(names(&bytes), vec!["./", "./control", "./conffiles", "./triggers"]);
    let files = contents(&bytes);
    assert_eq!(files["./conffiles"], (s("/etc/a\n"), 0o644));
    assert_eq!(files["./triggers"], (s("interest /usr/lib\n"), 0o644));
    assert!(files["./control"].0.starts_with("Package: testroot\nVersion: 0.1.0-1\n"));
    let said: Vec<String> = log.iter().map(|m| format!("{m:?}")).collect();
    assert_eq!(said, vec!["Info(\"- -> ./conffiles\")", "Info(\"/p/triggers.txt -> ./triggers\")"]);
}

#[test]
fn triggers_that_cannot_be_read() {
    let package_deb = package(CargoDeb { triggers_file: Some(s("t")), ..Default::default() });
    let mut files = control_files(vec![]);
    files.triggers = ReadResult::Failed(cause("gone"));
    let mut ar = ControlArchiveBuilder::new(vec![], 5);
    let err = ar.generate_archive(&environment("/p"), &package_deb, &files, &mut Vec::new()).unwrap_err();
    assert!(matches!(err, CargoDebError::IoFile("triggers file", _, path) if path == "/p/t"));
}

// ---------------------------------------------------------------------------
// Compressing assets
// ---------------------------------------------------------------------------
fn asset(source: AssetSource, target: &str, chmod: u32) -> Asset {
    Asset::new(source, s(target), Some(chmod), IsBuilt::No, AssetKind::Any)
}

fn unzipped(source: &AssetSource) -> Vec<u8> {
    match source {
        AssetSource::Data(d) => {
            let mut out = Vec::new();
            flate2::read::GzDecoder::new(&d[..]).read_to_end(&mut out).unwrap();
            out
        },
        other => panic!("{other:?}"),
    }
}

fn package_with_man_page() -> PackageConfig {
    let mut p = package(CargoDeb::default());
    p.assets.resolved.push(asset(AssetSource::Path(s("m.1")), "usr/share/man/man1/m.1", 0o644));
    p.assets.resolved.push(asset(AssetSource::Data(b"x".to_vec()), "usr/bin/x", 0o755));
    p.assets.resolved.push(asset(AssetSource::Data(b"log".to_vec()), "usr/share/doc/x/changelog", 0o600));
    p.assets.resolved.push(asset(AssetSource::Data(b"z".to_vec()), "usr/share/man/man1/z.1.gz", 0o644));
    p
}

fn reads() -> Vec<ReadResult> {
    vec![
        ReadResult::Content(b"page".to_vec()),
        ReadResult::Failed(cause("not read")),
        ReadResult::Failed(cause("not read")),
        ReadResult::Failed(cause("not read")),
    ]
}

#[test]
fn compressed_files_come_last() {
    let mut p = package_with_man_page();
    let mut log = Vec::new();
    compress_assets(&mut p, &reads(), &mut log).unwrap();
    let targets: Vec<&str> = p.assets.resolved.iter().map(|a| a.c.target_path.as_str()).collect();
    assert_eq!(targets, vec!["usr/share/man/man1/z.1.gz", "usr/bin/x", "usr/share/man/man1/m.1.gz", "usr/share/doc/x/changelog.gz"]);
    assert_eq!(unzipped(&p.assets.resolved[2].source), b"page");
    assert_eq!(unzipped(&p.assets.resolved[3].source), b"log");
    assert_eq!(p.assets.resolved[3].c.chmod, Some(0o600));
    assert!(matches!(&log[0], Message::Info(m) if m == "Compressing 'usr/share/man/man1/m.1.gz'"));
    let from = p.assets.resolved[2].processed_from.as_ref().unwrap();
    assert_eq!((from.action, from.original_path.as_deref()), ("compressed", Some("m.1")));
}

#[test]
fn compressed_files_in_place() {
    let mut p = package_with_man_page();
    let mut log = Vec::new();
    let made = cargo_deb::assets::compressed_assets(&p, &reads(), &mut log).unwrap();
    assert_eq!(made.iter().map(|m| m.0).collect::<Vec<_>>(), vec![0, 2]);
    cargo_deb::assets::apply_compressed_assets(&mut p, made);
    let targets: Vec<&str> = p.assets.resolved.iter().map(|a| a.c.target_path.as_str()).collect();
    assert_eq!(targets, vec!["usr/share/man/man1/m.1.gz", "usr/bin/x", "usr/share/doc/x/changelog.gz", "usr/share/man/man1/z.1.gz"]);
    assert_eq!(unzipped(&p.assets.resolved[0].source), b"page");
    assert!(matches!(&log[0], Message::Progress(op, m) if op == "Compressing" && m == "'usr/share/man/man1/m.1.gz'"));
}

/// What has been compressed is not compressed again.
#[test]
fn compressing_twice() {
    let all = |p: &PackageConfig| p.assets.resolved.iter().map(|a| (a.c.target_path.clone(), a.c.chmod)).collect::<Vec<_>>();
    let mut p = package_with_man_page();
    compress_assets(&mut p, &reads(), &mut Vec::new()).unwrap();
    let once = all(&p);
    let mut log = Vec::new();
    compress_assets(&mut p, &reads(), &mut log).unwrap();
    assert_eq!(all(&p), once);
    assert_eq!(unzipped(&p.assets.resolved[2].source), b"page");
    assert!(log.is_empty());

    let mut p = package_with_man_page();
    let made = cargo_deb::assets::compressed_assets(&p, &reads(), &mut Vec::new()).unwrap();
    cargo_deb::assets::apply_compressed_assets(&mut p, made);
    assert!(cargo_deb::assets::compressed_assets(&p, &reads(), &mut log).unwrap().is_empty());
    assert!(log.is_empty());
}

#[test]
fn files_that_cannot_be_compressed_are_left() {
    let mut p = package_with_man_page();
    let mut bad = reads();
    bad[0] = ReadResult::Failed(cause("gone"));
    let err = compress_assets(&mut p, &bad, &mut Vec::new()).unwrap_err();
    assert!(matches!(err, CargoDebError::IoFile("Unable to read asset to add to archive", _, path) if path == "m.1"));
    assert_eq!(p.assets.resolved.len(), 4);
    assert_eq!(p.assets.resolved[0].c.target_path, "usr/share/man/man1/m.1");
}

// ---------------------------------------------------------------------------
// Packages
// ---------------------------------------------------------------------------
fn members(bytes: &[u8]) -> Vec<(String, Vec<u8>, u32, u64)> {
    let mut archive = ar::Archive::new(bytes);
    let mut out = Vec::new();
    while let Some(entry) = archive.next_entry() {
        let mut entry = entry.unwrap();
        let name = String::from_utf8(entry.header().identifier().to_vec()).unwrap();
        let (mode, time) = (entry.header().mode(), entry.header().mtime());
        let mut data = Vec::new();
        entry.read_to_end(&mut data).unwrap();
        out.push((name, data, mode, time));
    }
    out
}

fn config(compress_type: CompressType, compress_system: bool) -> CompressConfig {
    CompressConfig { fast: true, compress_type, compress_system, rsyncable: false }
}

fn on_disk(content: &[u8]) -> OnDisk {
    OnDisk {
        len: Some(content.len() as u64),
        content: ReadResult::Content(content.to_vec()),
        link: LinkResult::Failed(cause("no link")),
    }
}

fn package_and_content() -> (PackageConfig, PackageContent) {
    let mut p = package(CargoDeb::default());
    p.assets.resolved.push(asset(AssetSource::Path(s("/p/hello")), "usr/bin/hello", 0o755));
    let content = PackageContent { control: control_files(vec![Some(5)]), files: vec![on_disk(b"12345")] };
    (p, content)
}

#[test]
fn a_package_with_gzip() {
    let (p, content) = package_and_content();
    let mut log = Vec::new();
    let written = write_deb(&environment("/p"), s("/p/target/debian/x.deb"), &p, &content, config(CompressType::Gzip, false), "/p", &mut log).unwrap();
    let (path, bytes) = match written {
        Written::Package(path, bytes) => (path, bytes),
        Written::ToCompress { .. } => panic!("not compressed"),
    };
    assert_eq!(path, "/p/target/debian/x.deb");
    assert_eq!(&bytes[..8], b"!<arch>\n");
    assert_eq!(&bytes[8..68], b"debian-binary   1000        0     0     100644  4         `\n");
    let members = members(&bytes);
    assert_eq!(members.iter().map(|m| m.0.as_str()).collect::<Vec<_>>(), vec!["debian-binary", "control.tar.gz", "data.tar.gz"]);
    assert_eq!(members[0].1, b"2.0\n");
    assert!(members.iter().all(|m| m.2 == 0o100644 && m.3 == 1000));
    let mut control = Vec::new();
    flate2::read::GzDecoder::new(&members[1].1[..]).read_to_end(&mut control).unwrap();
    assert_eq!(names(&control), vec!["./", "./control"]);
    assert!(contents(&control)["./control"].0.contains("Installed-Size: 2\n"));
    let mut data = Vec::new();
    flate2::read::GzDecoder::new(&members[2].1[..]).read_to_end(&mut data).unwrap();
    assert_eq!(names(&data), vec!["usr/", "usr/bin/", "usr/bin/hello"]);
    assert_eq!(contents(&data)["usr/bin/hello"], (s("12345"), 0o755));
    match log.last().unwrap() {
        Message::Progress(op, text) => {
            assert_eq!(op, "Compressed");
            assert!(text.contains("KB to ") && text.ends_with("%)"), "{text}");
        },
        other => panic!("{other:?}"),
    }
}

#[test]
fn a_package_with_xz() {
    let (p, content) = package_and_content();
    let written = write_deb(&environment("/p"), s("/p/x.deb"), &p, &content, config(CompressType::Xz, false), "/p", &mut Vec::new()).unwrap();
    let bytes = match written {
        Written::Package(_, bytes) => bytes,
        Written::ToCompress { .. } => panic!("not compressed"),
    };
    let members = members(&bytes);
    assert_eq!(members[2].0, "data.tar.xz");
    let mut data = Vec::new();
    xz2::read::XzDecoder::new(&members[2].1[..]).read_to_end(&mut data).unwrap();
    assert_eq!(contents(&data)["usr/bin/hello"], (s("12345"), 0o755));
}

#[test]
fn a_package_that_another_program_compresses() {
    let (p, content) = package_and_content();
    let mut log = Vec::new();
    let written = write_deb(&environment("/p"), s("/p/x.deb"), &p, &content, config(CompressType::Gzip, true), "/p", &mut log).unwrap();
    match written {
        Written::ToCompress { archives, compress_type, level } => {
            assert_eq!((compress_type, level), (CompressType::Gzip, "-1"));
            assert_eq!(names(&archives.control), vec!["./", "./control"]);
            assert_eq!(names(&archives.data.data), vec!["usr/", "usr/bin/", "usr/bin/hello"]);
            let size = archives.data.data.len();
            let control = Compressed::new(compress_type, vec![1; 500]);
            let data = Compressed::new(compress_type, vec![2; 1500]);
            let (path, bytes) = finish_deb(s("/p/x.deb"), &p, control, data, size, &mut log).unwrap();
            assert_eq!(path, "/p/x.deb");
            assert_eq!(members(&bytes)[2].1, vec![2; 1500]);
            // three headers, one block of data, and two blocks at the end
            assert_eq!(size, 512 * 6);
            assert!(matches!(log.last(), Some(Message::Progress(_, t)) if t == "3KB to 2KB (by 44%)"), "{log:?}");
        },
        Written::Package(..) => panic!("compressed"),
    }
}

#[test]
fn a_package_without_a_directory() {
    let (p, content) = package_and_content();
    let err = write_deb(&environment("/p"), s("/"), &p, &content, config(CompressType::Gzip, false), "/p", &mut Vec::new());
    assert!(matches!(err, Err(CargoDebError::Str("invalid dir"))));
    assert!(matches!(DebArchive::new(s("/"), 0), Err(CargoDebError::Str("invalid dir"))));
}

#[test]
fn a_file_that_cannot_be_read() {
    let (p, mut content) = package_and_content();
    content.files[0].content = ReadResult::Failed(cause("gone"));
    let err = write_deb(&environment("/p"), s("/p/x.deb"), &p, &content, config(CompressType::Gzip, false), "/p", &mut Vec::new());
    assert!(matches!(err, Err(CargoDebError::IoFile("Unable to read asset to add to archive", _, path)) if path == "/p/hello"));
}

#[test]
fn members_with_long_names() {
    let mut archive = Archive::new(s("/x/y.a")).unwrap();
    archive.add_data(s("a name that is much longer"), 7, b"odd").unwrap();
    archive.add_data(s("b"), 7, b"").unwrap();
    let (path, bytes) = archive.finish().unwrap();
    assert_eq!(path, "/x/y.a");
    let members = members(&bytes);
    assert_eq!(members[0].0, "a name that is much longer");
    assert_eq!(members[0].1, b"odd");
    assert_eq!(members[1].0, "b");
    assert_eq!(Archive::filename_glob(&package(CargoDeb::default())), "testroot_*_amd64.deb");
}

#[test]
fn compressors() {
    assert_eq!(CompressType::Gzip.extension(), "gz");
    assert_eq!(CompressType::Xz.program(), "xz");
    match select_compressor(false, CompressType::Xz, true).unwrap() {
        Selected::System { compress_type, level } => assert_eq!((compress_type, level), (CompressType::Xz, "-6")),
        Selected::Native(_) => panic!("native"),
    }
    match select_compressor(false, CompressType::Gzip, false).unwrap() {
        Selected::Native(mut c) => {
            c.write_all(b"hello ").unwrap();
            c.flush().unwrap();
            c.write_all(b"world").unwrap();
            assert_eq!(c.uncompressed_size, 11);
            let done = c.finish().unwrap();
            assert_eq!(done.extension(), "gz");
            assert_eq!(unzipped(&AssetSource::Data(done.data().clone())), b"hello world");
        },
        Selected::System { .. } => panic!("system"),
    }
}

fn written(p: &PackageConfig, content: &PackageContent, compress: CompressConfig) -> Vec<u8> {
    match write_deb(&environment("/p"), s("/p/x.deb"), p, content, compress, "/p", &mut Vec::new()).unwrap() {
        Written::Package(_, bytes) => bytes,
        Written::ToCompress { .. } => panic!("not compressed"),
    }
}

#[test]
fn the_same_files_make_the_same_package() {
    let (p, content) = package_and_content();
    let first = written(&p, &content, config(CompressType::Gzip, false));
    let second = written(&p, &content, config(CompressType::Gzip, false));
    assert_eq!(first, second);
    let mut other = content;
    other.files[0] = on_disk(b"54321");
    assert_ne!(written(&p, &other, config(CompressType::Gzip, false)), first);
}

#[test]
fn archives_are_read_back() {
    let (mut p, mut content) = package_and_content();
    p.assets.resolved.push(Asset::new(AssetSource::Path(s("/p/built")), s("usr/bin/built"), Some(0o755), IsBuilt::SamePackage, AssetKind::Any));
    content.control.sizes.push(Some(3));
    content.files.push(on_disk(b"abc"));
    for compress_type in [CompressType::Gzip, CompressType::Xz] {
        // a flush between the two files does no harm
        for rsyncable in [false, true] {
            let bytes = written(&p, &content, CompressConfig { fast: false, compress_type, compress_system: false, rsyncable });
            let members = members(&bytes);
            let mut data = Vec::new();
            match compress_type {
                CompressType::Gzip => flate2::read::GzDecoder::new(&members[2].1[..]).read_to_end(&mut data).unwrap(),
                CompressType::Xz => xz2::read::XzDecoder::new(&members[2].1[..]).read_to_end(&mut data).unwrap(),
            };
            assert_eq!(names(&data), vec!["usr/", "usr/bin/", "usr/bin/hello", "usr/bin/built"]);
            assert_eq!(contents(&data)["usr/bin/built"], (s("abc"), 0o755));
        }
    }
}

#[test]
fn data_for_xz() {
    match select_compressor(true, CompressType::Xz, false).unwrap() {
        Selected::Native(mut c) => {
            c.write_all(b"hello ").unwrap();
            c.flush().unwrap();
            c.write_all(b"world").unwrap();
            assert_eq!(c.uncompressed_size, 11);
            let done = c.finish().unwrap();
            assert_eq!(done.extension(), "xz");
            let mut data = Vec::new();
            xz2::read::XzDecoder::new(&done.data()[..]).read_to_end(&mut data).unwrap();
            assert_eq!(data, b"hello world");
        },
        Selected::System { .. } => panic!("system"),
    }
}

#[test]
fn the_layout_of_a_package() {
    let (p, content) = package_and_content();
    let bytes = written(&p, &content, config(CompressType::Gzip, false));
    assert_eq!(&bytes[..8], b"!<arch>\n");
    let mut at = 8;
    let mut names = Vec::new();
    while at < bytes.len() {
        // every header takes sixty bytes, and every member an even number of them
        let header = std::str::from_utf8(&bytes[at..at + 60]).unwrap();
        assert!(header.ends_with("`\n"), "{header:?}");
        let size: usize = header[48..58].trim_end().parse().unwrap();
        assert_eq!(&header[16..48], "1000        0     0     100644  ");
        names.push(header[..16].trim_end().to_owned());
        at += 60 + size + size % 2;
    }
    assert_eq!(at, bytes.len());
    assert_eq!(names, vec!["debian-binary", "control.tar.gz", "data.tar.gz"]);
}
