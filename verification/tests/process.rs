use cargo_deb::assets::{Asset, AssetKind, AssetSource, IsBuilt, RawAssetOrAuto};
use cargo_deb::compress::CompressType;
use cargo_deb::config::flags::build_subcommand;
use cargo_deb::config::package::CargoPackage;
use cargo_deb::config::project::{select_profile, ManifestFound, ManifestTime, Machine};
use cargo_deb::config::{BuildEnvironment, BuildOptions, DebConfigOverrides, DebugSymbolOptions, DebugSymbols, Multiarch, PackageConfig};
use cargo_deb::debuginfo::{
    apply_stripped, command_candidates, debug_id_path, get_target_debug_path, strip_binaries, target_specific_command, BuiltBinary, RunResult, StripPlan, StripStage,
};
use cargo_deb::dependencies::{dpkg_shlibdeps_args, parse_dependencies, resolve_with_dpkg, CommandOutcome};
use cargo_deb::error::{Cause, Surroundings};
use cargo_deb::listener::{align_right, error_report, labelled, split_notes, Listener, Message, NoOpListener, PrefixedListener, Verbosity};
use cargo_deb::parse::cargo::CargoConfig;
use cargo_deb::parse::manifest::{BuildProfile, CargoDeb as Settings, CompressDebugSymbols, DebugSetting, Profile, Profiles, Variant};
use cargo_deb::parse::workspace::{
    cargo_metadata_args, metadata_output, needs_root_manifest, parse_metadata, CargoMetadata, CargoMetadataPackage, CargoMetadataTarget,
};
use cargo_deb::process::{after_install, announced, install_command, is_root, Arguments, InstallNext, InstallResult, Stage};
use cargo_deb::util::wordsplit::split_by_chars;
use cargo_deb::{CargoDeb, CargoDebError, CargoLockingFlags};
use std::sync::Mutex;

fn s(text: &str) -> String {
    text.to_owned()
}

fn cause(message: &str) -> Cause {
    Cause { message: s(message), sources: Vec::new() }
}

fn warnings(log: &[Message]) -> Vec<&str> {
    log.iter()
        .filter_map(|m| match m {
            Message::Warning(w) => Some(w.as_str()),
            _ => None,
        })
        .collect()
}

// ---------------------------------------------------------------------------
// The command line
// ---------------------------------------------------------------------------
fn arguments() -> Arguments {
    Arguments {
        output: None,
        package: None,
        manifest_path: None,
        target: None,
        multiarch: None,
        profile: None,
        install: false,
        no_install_dbgsym: false,
        quiet: false,
        verbose: 0,
        dbgsym: false,
        no_dbgsym: false,
        strip: false,
        no_strip: false,
        separate_debug_symbols: false,
        no_separate_debug_symbols: false,
        compress_debug_symbols: None,
        no_compress_debug_symbols: false,
        variant: None,
        deb_version: None,
        deb_revision: None,
        maintainer: None,
        section: None,
        no_build: false,
        cargo_build: None,
        override_debug: None,
        override_lto: None,
        fast: false,
        compress_type: None,
        compress_system: false,
        rsyncable: false,
        features: Vec::new(),
        no_default_features: false,
        all_features: false,
        offline: false,
        locked: false,
        frozen: false,
        free_args: Vec::new(),
    }
}

#[test]
fn requests_from_arguments() {
    let mut log = Vec::new();
    let args = Arguments {
        install: true,
        no_strip: true,
        compress_type: Some(s("gzip")),
        compress_debug_symbols: Some(s("zstd")),
        multiarch: Some(s("same")),
        deb_version: Some(s("1")),
        deb_revision: Some(s("2")),
        free_args: vec![s("deb"), s("-Zfoo")],
        verbose: 2,
        ..arguments()
    };
    let r = args.into_request(true, Some(s("arm-unknown-linux-gnueabihf")), &mut log);
    assert!(r.install && r.compress_config.fast && r.verbose && r.verbose_cargo_build);
    assert_eq!(r.compress_config.compress_type, CompressType::Gzip);
    assert_eq!(r.options.debug.strip_override, Some(false));
    assert_eq!(r.options.debug.separate_debug_symbols, None);
    assert_eq!(r.options.debug.compress_debug_symbols, Some(CompressDebugSymbols::Zstd));
    assert_eq!(r.options.multiarch, Multiarch::Same);
    assert_eq!(r.options.cargo_build_flags, vec!["-Zfoo"]);
    assert_eq!(r.options.rust_target_triple.as_deref(), Some("arm-unknown-linux-gnueabihf"));
    assert_eq!(warnings(&log), vec!["--deb-version takes precedence over --deb-revision. Revision '2' will be ignored"]);
    let plain = arguments().into_request(false, None, &mut Vec::new());
    assert_eq!(plain.compress_config.compress_type, CompressType::Xz);
    assert!(!plain.compress_config.fast);
}

#[test]
fn verbosity_of_arguments() {
    let v = Arguments { quiet: true, ..arguments() }.verbosity(Some(&s("debug")));
    assert!(!v.verbose && v.quiet);
    assert!(arguments().verbosity(Some(&s("debug"))).verbose);
    assert!(!arguments().verbosity(Some(&s("info"))).verbose);
    assert!(Arguments { verbose: 1, ..arguments() }.verbosity(None).verbose);
}

#[test]
fn preparing() {
    let mut c = CargoDeb::default();
    c.options.debug.generate_dbgsym_package = Some(true);
    c.options.build_profile.profile_name = Some(s("dev"));
    let mut log = Vec::new();
    assert!(c.prepare("linux", &mut log));
    assert_eq!(c.options.debug.separate_debug_symbols, Some(true));
    assert_eq!(warnings(&log).len(), 1);
    assert!(warnings(&log)[0].starts_with("dev profile is not supported"));
    let mut c = CargoDeb::default();
    let mut log = Vec::new();
    assert!(!c.prepare("macos", &mut log));
    assert_eq!(warnings(&log).len(), 1);
    // cross-compiling is fine anywhere
    c.options.rust_target_triple = Some(s("x86_64-unknown-linux-gnu"));
    let mut log = Vec::new();
    c.prepare("macos", &mut log);
    assert!(log.is_empty());
}

#[test]
fn stages_come_to_an_end() {
    let run = |no_build: bool, install: bool| {
        let mut stage = Stage::ReadManifest;
        let mut seen = vec![stage];
        for _ in 0..9 {
            stage = stage.next(no_build, install);
            seen.push(stage);
        }
        assert_eq!(stage, Stage::Finished);
        seen
    };
    assert!(run(false, false).contains(&Stage::Build));
    assert!(!run(true, true).contains(&Stage::Build));
    assert!(run(true, true).contains(&Stage::Install));
    assert!(!run(false, false).contains(&Stage::Install));
}

#[test]
fn installing() {
    assert!(is_root(Some(&s("0")), None) && is_root(None, Some(&s("0"))));
    assert!(!is_root(Some(&s("1000")), Some(&s("0"))) && !is_root(None, None));
    let paths = vec![s("a.deb"), s("b.ddeb")];
    assert_eq!(install_command(&paths, false), ("sudo", vec![s("dpkg"), s("-i"), s("--"), s("a.deb"), s("b.ddeb")]));
    assert_eq!(install_command(&paths, true), ("dpkg", vec![s("-i"), s("--"), s("a.deb"), s("b.ddeb")]));
    assert!(matches!(after_install(InstallResult::NotRun(cause("x")), false), InstallNext::WithoutSudo));
    assert!(matches!(
        after_install(InstallResult::NotRun(cause("x")), true),
        InstallNext::Done(Err(CargoDebError::CommandFailed(_, cmd))) if cmd == "dpkg"
    ));
    assert!(matches!(
        after_install(InstallResult::Failed(s("exit status: 1")), false),
        InstallNext::Done(Err(CargoDebError::InstallFailed(st))) if st == "exit status: 1"
    ));
    assert!(matches!(after_install(InstallResult::Succeeded, false), InstallNext::Done(Ok(()))));
    let mut c = CargoDeb::default();
    assert!(c.debs_to_install(&s("a"), Some(&s("b"))).is_empty());
    c.install = true;
    assert_eq!(c.debs_to_install(&s("a"), Some(&s("b"))), vec!["a", "b"]);
    c.install_without_dbgsym = true;
    assert_eq!(c.debs_to_install(&s("a"), Some(&s("b"))), vec!["a"]);
    assert_eq!(announced(&s("a"), Some(&s("b"))), vec!["b", "a"]);
}

#[test]
fn words_for_cargo() {
    assert_eq!(build_subcommand(None), vec!["build"]);
    assert_eq!(build_subcommand(Some(&s("custom build"))), vec!["custom", "build"]);
    let flags = CargoLockingFlags { offline: true, frozen: false, locked: true };
    assert_eq!(flags.flags(), vec!["--offline", "--locked"]);
}

// ---------------------------------------------------------------------------
// From a manifest to a project
// ---------------------------------------------------------------------------
fn found(deb: Option<Settings>) -> ManifestFound {
    ManifestFound {
        build_targets: vec![CargoMetadataTarget {
            name: s("hello"),
            kind: vec![s("bin")],
            crate_types: vec![s("bin")],
            src_path: s("/ws/hello/src/main.rs"),
        }],
        manifest_path: s("/ws/hello/Cargo.toml"),
        workspace_root_manifest_path: s("/ws/Cargo.toml"),
        root_profiles: None,
        target_dir: s("/ws/target"),
        profiles: Profiles { release: None, custom: Vec::new() },
        package: Some(CargoPackage {
            name: s("hello"),
            version: s("1.0.0"),
            license: Some(s("MIT")),
            license_file: None,
            publish: true,
            authors: vec![s("me")],
            homepage: None,
            documentation: None,
            repository: None,
            description: Some(s("hi")),
            readme: None,
        }),
        deb,
    }
}

fn machine() -> Machine {
    Machine {
        source_date_epoch: None,
        manifest_time: ManifestTime::Seconds(86400 * 3 + 5),
        current_dir: s("/ws"),
        host_triple: s("x86_64-unknown-linux-gnu"),
        strip_var: None,
        debug_var: None,
    }
}

#[test]
fn where_packages_are_created() {
    let mut log = Vec::new();
    let (config, p, _) = BuildEnvironment::from_manifest(BuildOptions::default(), found(None), machine(), &mut log).unwrap();
    assert_eq!(config.deb_output_path(&p, false), "/ws/target/debian/hello_1.0.0-1_amd64.deb");
    let cross = BuildOptions { rust_target_triple: Some(s("i686-unknown-linux-gnu")), ..Default::default() };
    let (config, p, _) = BuildEnvironment::from_manifest(cross, found(None), machine(), &mut log).unwrap();
    assert_eq!(config.deb_output_path(&p, false), "/ws/target/i686-unknown-linux-gnu/debian/hello_1.0.0-1_i386.deb");
}

#[test]
fn a_project() {
    let mut log = Vec::new();
    let deb = Settings { features: Some(vec![s("a")]), ..Default::default() };
    let options = BuildOptions {
        overrides: DebConfigOverrides { features: vec![s("b")], ..Default::default() },
        rust_target_triple: Some(s("armv7-unknown-linux-gnueabihf")),
        ..Default::default()
    };
    let (config, p, assets) = BuildEnvironment::from_manifest(options, found(Some(deb)), machine(), &mut log).unwrap();
    assert_eq!(config.package_manifest_dir, "/ws/hello");
    assert_eq!(config.target_dir, "/ws/target/armv7-unknown-linux-gnueabihf");
    assert_eq!(config.features, vec!["a", "b"]);
    assert!(config.default_features && !config.reproducible);
    assert_eq!(config.debug_symbols, DebugSymbols::Strip);
    assert_eq!(p.architecture, "armhf");
    assert_eq!(p.default_timestamp, 86400 * 3);
    assert!(matches!(&assets[..], [RawAssetOrAuto::Auto]));
    assert!(log.is_empty(), "{log:?}");
}

#[test]
fn a_time_that_is_asked_for() {
    let m = Machine { source_date_epoch: Some(s("12345")), ..machine() };
    assert_eq!(m.default_timestamp().unwrap(), 12345);
    let m = Machine { source_date_epoch: Some(s("x")), ..machine() };
    assert!(matches!(m.default_timestamp(), Err(CargoDebError::NumParse("SOURCE_DATE_EPOCH", _))));
    let m = Machine { manifest_time: ManifestTime::Unreadable(cause("gone")), ..machine() };
    assert!(matches!(m.default_timestamp(), Err(CargoDebError::Io(_))));
    let m = Machine { manifest_time: ManifestTime::TooEarly(cause("before")), ..machine() };
    assert!(matches!(m.default_timestamp(), Err(CargoDebError::SystemTime(_))));
}

#[test]
fn variants_of_a_project() {
    let own = Settings { section: Some(s("x")), profile: Some(s("dist")), ..Default::default() };
    let deb = || Settings {
        priority: Some(s("extra")),
        variants: Some(vec![Variant { name: s("var_1"), config: Settings { section: Some(s("x")), profile: Some(s("dist")), ..Default::default() } }]),
        ..Default::default()
    };
    assert_eq!(own.section.as_deref(), Some("x"));
    let options = |v: &str| BuildOptions { config_variant: Some(s(v)), ..Default::default() };
    let (config, p, _) = BuildEnvironment::from_manifest(options("var_1"), found(Some(deb())), machine(), &mut Vec::new()).unwrap();
    assert_eq!(p.deb_name, "hello-var-1");
    assert_eq!((p.section.as_deref(), p.priority.as_str()), (Some("x"), "extra"));
    assert_eq!(config.build_profile.profile_name(), "dist");
    assert_eq!(select_profile(&BuildProfile::default(), Some(&deb()), None), None);
    let err = BuildEnvironment::from_manifest(options("other"), found(Some(deb())), machine(), &mut Vec::new());
    assert!(matches!(err, Err(CargoDebError::VariantNotFound(v)) if v == "other"));
}

#[test]
fn a_mere_workspace() {
    let mut f = found(None);
    f.package = None;
    let err = BuildEnvironment::from_manifest(BuildOptions::default(), f, machine(), &mut Vec::new());
    assert!(matches!(err, Err(CargoDebError::Str("Cargo.toml is a workspace, not a package"))));
}

#[test]
fn the_profile_of_the_workspace_is_picked() {
    let profile = |debug: DebugSetting| Profile { strip: None, debug: Some(debug), split_debuginfo: None };
    let mut f = found(None);
    f.profiles.release = Some(profile(DebugSetting::Full));
    f.root_profiles = Some(Profiles { release: Some(profile(DebugSetting::Lines)), custom: Vec::new() });
    let mut log = Vec::new();
    let (config, _, _) = BuildEnvironment::from_manifest(BuildOptions::default(), f, machine(), &mut log).unwrap();
    assert_eq!(config.debug_symbols, DebugSymbols::Keep);
    assert_eq!(
        warnings(&log),
        vec!["The [profile.release] is in both the package and the root workspace.\nPicking root (/ws/Cargo.toml) over the package (hello/Cargo.toml) for compatibility with Cargo"]
    );
}

#[test]
fn symbols_are_built_if_they_are_needed() {
    let options = BuildOptions {
        debug: DebugSymbolOptions { separate_debug_symbols: Some(true), ..Default::default() },
        ..Default::default()
    };
    let (config, _, _) = BuildEnvironment::from_manifest(options, found(None), machine(), &mut Vec::new()).unwrap();
    assert!(matches!(config.debug_symbols, DebugSymbols::Separate { .. }));
    assert_eq!(config.build_profile.override_debug.as_deref(), Some("line-tables-only"));
}

// ---------------------------------------------------------------------------
// Workspaces
// ---------------------------------------------------------------------------
fn metadata() -> CargoMetadata {
    let package = |name: &str, has_deb_metadata: bool| CargoMetadataPackage {
        id: format!("{name} 1.0"),
        name: s(name),
        targets: Vec::new(),
        manifest_path: format!("/ws/{name}/Cargo.toml"),
        has_deb_metadata,
    };
    CargoMetadata {
        packages: vec![package("a", false), package("b", true)],
        workspace_members: vec![s("a 1.0"), s("b 1.0")],
        workspace_default_members: Vec::new(),
        target_directory: s("/ws/target"),
        workspace_root: s("/ws"),
    }
}

#[test]
fn the_package_that_is_meant() {
    let (p, target_dir, root) = parse_metadata(metadata(), Some("a@1.0")).unwrap();
    assert_eq!((p.name.as_str(), target_dir.as_str(), root.as_str()), ("a", "/ws/target", "/ws"));
    // the only one with metadata
    assert_eq!(parse_metadata(metadata(), None).unwrap().0.name, "b");
    let err = parse_metadata(metadata(), Some("c")).unwrap_err();
    assert!(matches!(err, CargoDebError::PackageNotFoundInWorkspace(n, available) if n == "c" && available == "a, b"));
    let mut none = metadata();
    none.packages[1].has_deb_metadata = false;
    assert!(matches!(parse_metadata(none, None), Err(CargoDebError::NoRootFoundInWorkspace(a)) if a == "a, b"));
}

#[test]
fn asking_cargo() {
    assert_eq!(
        cargo_metadata_args(Some("x/Cargo.toml"), CargoLockingFlags::default()),
        vec!["metadata", "--format-version=1", "--no-deps", "--manifest-path", "x/Cargo.toml"]
    );
    assert!(needs_root_manifest(false, "/ws/a/Cargo.toml", "/ws/Cargo.toml"));
    assert!(!needs_root_manifest(false, "/ws//Cargo.toml", "/ws/Cargo.toml"));
    assert!(!needs_root_manifest(true, "/ws/a/Cargo.toml", "/ws/Cargo.toml"));
    let done = |success: bool| CommandOutcome::Done { success, stdout: b"{}".to_vec(), stderr: b"no".to_vec() };
    assert_eq!(metadata_output(done(true)).unwrap(), b"{}");
    assert!(matches!(metadata_output(done(false)), Err(CargoDebError::CommandError("cargo", _, reason)) if reason == b"no"));
    assert!(matches!(metadata_output(CommandOutcome::NotRun(cause("x"))), Err(CargoDebError::CommandFailed(..))));
}

// ---------------------------------------------------------------------------
// Dependencies of binaries
// ---------------------------------------------------------------------------
#[test]
fn what_dpkg_shlibdeps_says() {
    let out = b"shlibs:Recommends=x\nshlibs:Depends=libc6 (>= 2.34), libgcc-s1 (>= 4.2),  libssl3 , libgcc1\n".to_vec();
    assert_eq!(parse_dependencies(&out).unwrap(), vec!["libc6 (>= 2.34)", "libssl3"]);
    assert!(matches!(parse_dependencies(&b"nothing".to_vec()), Err(CargoDebError::Str("Failed to find dependency specification."))));
    // a dependency that is no text is left out
    assert_eq!(parse_dependencies(&b"shlibs:Depends=a,\xff,b".to_vec()).unwrap(), vec!["a", "b"]);
    assert_eq!(dpkg_shlibdeps_args("/x", &vec![s("/lib")]), vec!["-xlibgcc", "-l/lib", "-O", "/x"]);
    let failed = CommandOutcome::Done { success: false, stdout: Vec::new(), stderr: b"bad".to_vec() };
    assert!(matches!(resolve_with_dpkg(failed, s("cmd")), Err(CargoDebError::CommandError("dpkg-shlibdeps", c, r)) if c == "cmd" && r == b"bad"));
    assert!(matches!(resolve_with_dpkg(CommandOutcome::NotRun(cause("x")), s("cmd")), Err(CargoDebError::CommandFailed(..))));
}

// ---------------------------------------------------------------------------
// Stripping
// ---------------------------------------------------------------------------
/// A file of ELF (64 bit, little endian) with a section of the given build id.
fn elf_with_build_id(id: &[u8]) -> Vec<u8> {
    let names = b"\0.note.gnu.build-id\0.shstrtab\0";
    let mut note = Vec::new();
    note.extend_from_slice(&4u32.to_le_bytes());
    note.extend_from_slice(&(id.len() as u32).to_le_bytes());
    note.extend_from_slice(&3u32.to_le_bytes());
    note.extend_from_slice(b"GNU\0");
    note.extend_from_slice(id);
    while note.len() % 4 != 0 {
        note.push(0);
    }
    let note_at = 64usize;
    let names_at = note_at + note.len();
    let mut sections_at = names_at + names.len();
    while sections_at % 8 != 0 {
        sections_at += 1;
    }
    let mut f = Vec::new();
    f.extend_from_slice(b"\x7fELF\x02\x01\x01\0\0\0\0\0\0\0\0\0");
    f.extend_from_slice(&2u16.to_le_bytes());
    f.extend_from_slice(&62u16.to_le_bytes());
    f.extend_from_slice(&1u32.to_le_bytes());
    f.extend_from_slice(&0u64.to_le_bytes());
    f.extend_from_slice(&0u64.to_le_bytes());
    f.extend_from_slice(&(sections_at as u64).to_le_bytes());
    f.extend_from_slice(&0u32.to_le_bytes());
    for v in [64u16, 56, 0, 64, 3, 2] {
        f.extend_from_slice(&v.to_le_bytes());
    }
    f.extend_from_slice(&note);
    f.extend_from_slice(names);
    f.resize(sections_at, 0);
    for (name, kind, at, len, align) in [
        (0u32, 0u32, 0usize, 0usize, 0u64),
        (1, 7, note_at, note.len(), 4),
        (20, 3, names_at, names.len(), 1),
    ] {
        f.extend_from_slice(&name.to_le_bytes());
        f.extend_from_slice(&kind.to_le_bytes());
        f.extend_from_slice(&0u64.to_le_bytes());
        f.extend_from_slice(&0u64.to_le_bytes());
        f.extend_from_slice(&(at as u64).to_le_bytes());
        f.extend_from_slice(&(len as u64).to_le_bytes());
        f.extend_from_slice(&0u32.to_le_bytes());
        f.extend_from_slice(&0u32.to_le_bytes());
        f.extend_from_slice(&align.to_le_bytes());
        f.extend_from_slice(&0u64.to_le_bytes());
    }
    f
}

fn binary_asset() -> Asset {
    Asset::new(AssetSource::Path(s("/p/target/release/hello")), s("usr/bin/hello"), Some(0o755), IsBuilt::SamePackage, AssetKind::Any)
}

#[test]
fn paths_of_debug_symbols() {
    assert_eq!(debug_id_path(&vec![None, Some(vec![0x1f, 0x02, 0xab])], "usr/lib").as_deref(), Some("usr/lib/debug/.build-id/1f/02ab.debug"));
    assert_eq!(debug_id_path(&vec![None, Some(vec![])], "usr/lib"), None);
    let c = binary_asset().c;
    assert_eq!(get_target_debug_path(&c, &elf_with_build_id(&[0xca, 0xfe, 0x01]), "usr/lib"), "usr/lib/debug/.build-id/ca/fe01.debug");
    // without a build id, or without a file of ELF, the path is the one of the binary
    assert_eq!(get_target_debug_path(&c, b"#!/bin/sh", "usr/lib"), "/usr/lib/debug/usr/bin/hello.debug");
}

#[test]
fn commands_for_a_target() {
    let c = CargoConfig::from_str("[target.arm-unknown-linux-gnueabihf]\nstrip = \"my-strip\"\n", s(".cargo/config.toml")).unwrap();
    let triple = "arm-unknown-linux-gnueabihf";
    assert_eq!(target_specific_command(Some(&c), "strip", triple, &vec![]).as_deref(), Some("my-strip"));
    let candidates = command_candidates(None, "objcopy", triple);
    assert!(!candidates.is_empty());
    assert_eq!(target_specific_command(None, "objcopy", triple, &vec![]), None);
    assert_eq!(target_specific_command(None, "objcopy", triple, &candidates).as_deref(), Some(candidates[0].as_str()));
}

fn strip_environment(debug_symbols: DebugSymbols) -> BuildEnvironment {
    let (mut config, _, _) = BuildEnvironment::from_manifest(BuildOptions::default(), found(None), machine(), &mut Vec::new()).unwrap();
    config.debug_symbols = debug_symbols;
    config
}

fn strip_package() -> PackageConfig {
    let (_, mut p, _) = BuildEnvironment::from_manifest(BuildOptions::default(), found(None), machine(), &mut Vec::new()).unwrap();
    p.assets.resolved.push(binary_asset());
    p
}

#[test]
fn stripping_a_binary() {
    let mut log = Vec::new();
    let mut p = strip_package();
    let config = strip_environment(DebugSymbols::Strip);
    assert!(StripPlan::new(&strip_environment(DebugSymbols::Keep), &p, None, false, None, &vec![], &mut log).is_none());
    let plan = StripPlan::new(&config, &p, None, false, None, &vec![], &mut log).unwrap();
    let there = vec![BuiltBinary { exists: true, debug_text: s("unused") }];
    let mut jobs = strip_binaries(&plan, &p, &there, &mut log).unwrap();
    assert_eq!(jobs.len(), 1);
    let mut job = jobs.pop().unwrap();
    let command = job.command(&plan).unwrap();
    assert_eq!(command.program, "strip");
    assert_eq!(
        command.args,
        vec!["--strip-unneeded", "--remove-section=.comment", "--remove-section=.note", "-o", "/ws/target/debian/hello/hello.stripped-0.tmp", "/p/target/release/hello"]
    );
    job = job.advance(&plan, RunResult::Succeeded, true, b"", &mut log).unwrap();
    assert!(matches!(job.stage, StripStage::Done(None)));
    assert!(job.command(&plan).is_none());
    let (target, chmod) = (p.assets.resolved[0].c.target_path.clone(), p.assets.resolved[0].c.chmod);
    apply_stripped(&mut p, &plan, vec![job]);
    assert_eq!((&p.assets.resolved[0].c.target_path, p.assets.resolved[0].c.chmod), (&target, chmod));
    assert!(matches!(&p.assets.resolved[0].source, AssetSource::Path(path) if path == "/ws/target/debian/hello/hello.stripped-0.tmp"));
    assert!(matches!(log.last(), Some(Message::Progress(op, t)) if op == "Stripped" && t == "'/p/target/release/hello'"), "{log:?}");
}

#[test]
fn separating_symbols() {
    let mut log = Vec::new();
    let mut p = strip_package();
    let config = strip_environment(DebugSymbols::Separate { compress: CompressDebugSymbols::Zstd, generate_dbgsym_package: false });
    let plan = StripPlan::new(&config, &p, None, false, None, &vec![], &mut log).unwrap();
    let there = vec![BuiltBinary { exists: true, debug_text: s("unused") }];
    let mut job = strip_binaries(&plan, &p, &there, &mut log).unwrap().pop().unwrap();
    // the first try fails, the second one has no arguments that may be unknown
    job = job.advance(&plan, RunResult::Failed(cause("exit status: 1")), false, b"", &mut log).unwrap();
    assert!(matches!(job.stage, StripStage::StripAgain(_)));
    assert_eq!(job.command(&plan).unwrap().args[0], "-o");
    let elf = elf_with_build_id(&[0xca, 0xfe]);
    job = job.advance(&plan, RunResult::Succeeded, true, &elf, &mut log).unwrap();
    assert!(warnings(&log)[0].starts_with("strip didn't support additional arguments: strip: exit status: 1"));
    let copy = job.command(&plan).unwrap();
    assert_eq!(
        (copy.program.as_str(), copy.args),
        ("objcopy", vec![s("--only-keep-debug"), s("--compress-debug-sections=zstd"), s("/p/target/release/hello"), s("/ws/target/debian/hello/fe.debug")])
    );
    job = job.advance(&plan, RunResult::Succeeded, true, &elf, &mut log).unwrap();
    let link = job.command(&plan).unwrap();
    assert_eq!(link.args, vec!["--add-gnu-debuglink", "fe.debug", "/ws/target/debian/hello/hello.stripped-0.tmp"]);
    assert_eq!(link.dir.as_deref(), Some("/ws/target/debian/hello"));
    job = job.advance(&plan, RunResult::Succeeded, true, &elf, &mut log).unwrap();
    assert!(job.command(&plan).is_none());
    apply_stripped(&mut p, &plan, vec![job]);
    assert_eq!(p.assets.resolved[1].c.target_path, "usr/lib/debug/.build-id/ca/fe.debug");
    assert_eq!(p.assets.resolved[1].c.chmod, Some(0o644));
    assert_eq!(p.assets.resolved[1].c.asset_kind, AssetKind::SeparateDebugSymbols);
    // such files go into a package of their own
    let with_package = strip_environment(DebugSymbols::Separate { compress: CompressDebugSymbols::No, generate_dbgsym_package: true });
    let ddeb = with_package.split_package(&mut p, &mut log).unwrap().unwrap();
    assert_eq!(ddeb.assets.resolved.len(), 1);
    assert!(with_package.split_package(&mut p, &mut log).unwrap().is_none());
    assert_eq!(warnings(&log).last(), Some(&"No debug symbols found. Skipping dbgsym.ddeb"));
}

#[test]
fn stripping_that_fails() {
    let p = strip_package();
    let plan = StripPlan::new(&strip_environment(DebugSymbols::Strip), &p, None, false, None, &vec![], &mut Vec::new()).unwrap();
    let missing = vec![BuiltBinary { exists: false, debug_text: s("unused") }];
    let err = strip_binaries(&plan, &p, &missing, &mut Vec::new());
    assert!(matches!(err, Err(CargoDebError::StripFailed(path, why)) if path == "/p/target/release/hello" && why == "The file doesn't exist\nnote: needed for usr/bin/hello"));
    let there = vec![BuiltBinary { exists: true, debug_text: s("unused") }];
    let job = strip_binaries(&plan, &p, &there, &mut Vec::new()).unwrap().pop().unwrap();
    let err = job.advance(&plan, RunResult::NotFound(cause("no such file")), false, b"", &mut Vec::new());
    assert!(matches!(err, Err(CargoDebError::Context(text, _)) if text.starts_with("can't separate debug symbols")));
}

// ---------------------------------------------------------------------------
// Messages
// ---------------------------------------------------------------------------
struct Heard(Mutex<Vec<String>>);

impl Listener for Heard {
    fn warning(&self, s: String) {
        self.0.lock().unwrap().push(format!("warning {s}"));
    }

    fn info(&self, s: String) {
        self.0.lock().unwrap().push(format!("info {s}"));
    }

    fn generated_archive(&self, path: &str) {
        self.0.lock().unwrap().push(format!("archive {path}"));
    }
}

#[test]
fn listeners() {
    let heard = Heard(Mutex::new(Vec::new()));
    let prefixed = PrefixedListener("ddeb: ", &heard);
    prefixed.warning(s("a"));
    prefixed.progress("Doing", s("b"));
    NoOpListener.warning(s("c"));
    Message::Info(s("d")).tell(&heard);
    assert_eq!(*heard.0.lock().unwrap(), vec!["warning ddeb: a", "info Doing: ddeb: b", "info d"]);
    let v = Verbosity { verbose: false, quiet: false };
    assert!(v.shows(&Message::Warning(s("x"))) && !v.shows(&Message::Info(s("x"))));
}

#[test]
fn text_on_a_terminal() {
    let l = labelled("warning", 1, "warning: first\nsecond\n").unwrap();
    assert_eq!((l.indent.as_str(), l.first.as_str()), (" ", "first"));
    assert_eq!(l.below, vec!["          second"]);
    assert!(labelled("x", 0, "  \n").is_none());
    assert_eq!(split_notes("oh\nnote: a\nnote:  \nnote: b"), (s("oh"), vec![s("a"), s("b")]));
    assert_eq!(align_right("Compressed", 12), "  Compressed");
}

#[test]
fn messages_of_errors() {
    let here = Surroundings { current_dir: Some(s("/home")), path: None, existing: None };
    assert_eq!(CargoDebError::Str("boo").message(&here), "boo");
    assert_eq!(CargoDebError::Io(cause("x")).message(&here), "I/O error: x");
    assert_eq!(
        CargoDebError::IoFile("cannot read", cause("x"), s("a/b")).message(&here),
        "cannot read: a/b\nnote: The current dir is '/home'"
    );
    assert_eq!(CargoDebError::InvalidVersion("bad", s("1_0")).message(&here), "Version '1_0' is invalid: bad");
    assert_eq!(
        CargoDebError::CommandError("cargo", s("metadata"), b"error: oops".to_vec()).message(&here),
        "cargo (metadata): oops"
    );
    let wrapped = CargoDebError::Io(cause("x")).context(s("outer"));
    assert_eq!(wrapped.message(&here), "outer");
    assert_eq!(wrapped.causes(&here)[0], "I/O error: x");
}

#[test]
fn wrapped_text() {
    assert_eq!(split_by_chars("aaa bbb ccc", 7), vec!["aaa bbb", "ccc"]);
    assert_eq!(split_by_chars("abcdefghij", 4), vec!["abcdefghij"]);
}

#[test]
fn errors_with_causes_on_a_terminal() {
    let causes = vec![s("one\nnote: hint"), s("two"), s("three"), s("four"), s("five")];
    let report = error_report("broken\nnote: look\nnote: ", &causes);
    let lines: Vec<(&str, u8, &str)> = report.iter().map(|l| (l.label, l.indent, l.text.as_str())).collect();
    assert_eq!(
        lines,
        vec![
            ("error", 0, "broken"),
            ("note", 0, "look"),
            ("cause", 2, "one"),
            ("note", 3, "hint"),
            ("cause", 2, "two"),
            ("cause", 2, "three"),
            ("cause", 2, "four"),
        ]
    );
}
