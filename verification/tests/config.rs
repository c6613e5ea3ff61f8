use cargo_deb::arch::{debian_architecture_from_rust_triple, debian_triple_from_rust_triple, warn_if_not_linux};
use cargo_deb::assets::{Asset, AssetKind, AssetSource, IsBuilt, RawAsset, RawAssetOrAuto, ReadResult};
use cargo_deb::config::control::TextResult;
use cargo_deb::config::debug::configure_debug_symbols;
use cargo_deb::config::depends::{get_architecture_specification, ArchAnswer, ArchSpec, AutoDepends};
use cargo_deb::config::flags::{names_are_known, EnvVar, PkgConfig};
use cargo_deb::config::generated::{FoundUnits, PackageFiles};
use cargo_deb::config::package::CargoPackage;
use cargo_deb::config::resolve::format_conffiles;
use cargo_deb::config::rules::{check_debian_version, debian_package_name, has_copyright_metadata, license_doesnt_need_author_info, parse_license_file};
use cargo_deb::config::{BuildEnvironment, DebConfigOverrides, DebugSymbolOptions, DebugSymbols, ExtendedDescription, Multiarch, PackageConfig};
use cargo_deb::dh::dh_installsystemd::{InstallRecipe, UnitFile};
use cargo_deb::error::Cause;
use cargo_deb::globs::{is_glob_pattern, GlobEntry, GlobMatches, ModeResult};
use cargo_deb::listener::Message;
use cargo_deb::parse::asset_table::{is_trying_to_customize_target_path, CargoDebAsset, CargoDebAssetArrayOrTable};
use cargo_deb::parse::manifest::{BuildProfile, CargoDeb, CompressDebugSymbols, LicenseFile, ManifestDebugFlags, SystemdUnitsConfig};
use cargo_deb::parse::workspace::CargoMetadataTarget;
use cargo_deb::{CargoDebError, CargoLockingFlags};

fn s(text: &str) -> String {
    text.to_owned()
}

fn cause(message: &str) -> Cause {
    Cause { message: s(message), sources: Vec::new() }
}

fn cargo_package() -> CargoPackage {
    CargoPackage {
        name: s("my_crate"),
        version: s("1.2.3"),
        license: Some(s("MIT")),
        license_file: None,
        publish: true,
        authors: vec![s("A <a@example.com>"), s("B")],
        homepage: None,
        documentation: None,
        repository: Some(s("https://example.com/repo")),
        description: Some(s("A crate.")),
        readme: Some(s("README.md")),
    }
}

fn new_package(deb: CargoDeb) -> PackageConfig {
    let mut log = Vec::new();
    PackageConfig::new(deb, &cargo_package(), &mut log, 0, DebConfigOverrides::default(), "amd64", Multiarch::Unsupported).unwrap()
}

fn bin_target(name: &str) -> CargoMetadataTarget {
    CargoMetadataTarget { name: s(name), kind: vec![s("bin")], crate_types: vec![s("bin")], src_path: s("/p/src/main.rs") }
}

fn environment() -> BuildEnvironment {
    BuildEnvironment {
        package_manifest_dir: s("/p"),
        cargo_run_current_dir: s("/p"),
        deb_output_path: None,
        rust_target_triple: None,
        host_triple: s("x86_64-unknown-linux-gnu"),
        target_dir: s("/p/target"),
        features: Vec::new(),
        default_features: true,
        all_features: false,
        debug_symbols: DebugSymbols::Strip,
        reproducible: false,
        build_profile: BuildProfile::default(),
        build_targets: vec![bin_target("my_crate")],
        cargo_locking_flags: CargoLockingFlags::default(),
    }
}

fn data_asset(target: &str, chmod: u32) -> Asset {
    Asset::new(AssetSource::Data(vec![0; 10]), s(target), Some(chmod), IsBuilt::No, AssetKind::Any)
}

fn targets(p: &PackageConfig) -> Vec<&str> {
    p.assets.resolved.iter().map(|a| a.c.target_path.as_str()).collect()
}

fn warnings(log: &[Message]) -> Vec<&str> {
    log.iter()
        .filter_map(|m| match m {
            Message::Warning(w) => Some(w.as_str()),
            _ => None,
        })
        .collect()
}

// ---------------------------------------------------------------------------
// Architectures
// ---------------------------------------------------------------------------
#[test]
fn match_arm_arch() {
    assert_eq!("armhf", debian_architecture_from_rust_triple("arm-unknown-linux-gnueabihf"));
}

#[test]
fn arch_spec() {
    // req
    assert_eq!(
        get_architecture_specification("libjpeg64-turbo [armhf]").expect("arch"),
        ("libjpeg64-turbo".to_owned(), Some(ArchSpec::Require("armhf".to_owned())))
    );
    // neg
    assert_eq!(
        get_architecture_specification("libjpeg64-turbo [!amd64]").expect("arch"),
        ("libjpeg64-turbo".to_owned(), Some(ArchSpec::NegRequire("amd64".to_owned())))
    );
    // no specification
    assert_eq!(get_architecture_specification("libc6 (>= 2)").expect("arch"), ("libc6 (>= 2)".to_owned(), None));
    // the last brackets count
    assert_eq!(
        get_architecture_specification("a [b] [c]").expect("arch"),
        ("a [b]".to_owned(), Some(ArchSpec::Require("c".to_owned())))
    );
}

#[test]
fn matching_an_architecture() {
    let require = ArchSpec::Require(s("any-arm"));
    assert_eq!(require.match_args("armhf"), vec!["-a", "armhf", "-i", "any-arm"]);
    assert!(require.match_architecture(true) && !require.match_architecture(false));
    let neg = ArchSpec::NegRequire(s("any-arm"));
    assert!(neg.match_architecture(false) && !neg.match_architecture(true));
}

#[test]
fn ensure_all_rust_targets_map_to_debian_targets() {
    assert_eq!(debian_triple_from_rust_triple("armv7-unknown-linux-gnueabihf"), "arm-linux-gnueabihf");

    const DEB_ARCHS: &[&str] = &["alpha", "amd64", "arc", "arm", "arm64", "arm64ilp32", "armel",
    "armhf", "hppa", "hurd-i386", "hurd-amd64", "i386", "ia64", "kfreebsd-amd64",
    "kfreebsd-i386", "loong64", "m68k", "mips", "mipsel", "mips64", "mips64el",
    "mipsn32", "mipsn32el", "mipsr6", "mipsr6el", "mips64r6", "mips64r6el", "mipsn32r6",
    "mipsn32r6el", "powerpc", "powerpcspe", "ppc64", "ppc64el", "riscv64", "s390",
    "s390x", "sh4", "sparc", "sparc64", "uefi-amd6437", "uefi-arm6437", "uefi-armhf37",
    "uefi-i38637", "x32"];

    const DEB_TUPLES: &[&str] = &["aarch64-linux-gnu", "aarch64-linux-gnu_ilp32", "aarch64-uefi",
    "aarch64_be-linux-gnu", "aarch64_be-linux-gnu_ilp32", "alpha-linux-gnu", "arc-linux-gnu",
    "arm-linux-gnu", "arm-linux-gnueabi", "arm-linux-gnueabihf", "arm-uefi", "armeb-linux-gnueabi",
    "armeb-linux-gnueabihf", "hppa-linux-gnu", "i386-gnu", "i386-kfreebsd-gnu",
    "i386-linux-gnu", "i386-uefi", "ia64-linux-gnu", "loongarch64-linux-gnu",
    "m68k-linux-gnu", "mips-linux-gnu", "mips64-linux-gnuabi64", "mips64-linux-gnuabin32",
    "mips64el-linux-gnuabi64", "mips64el-linux-gnuabin32", "mipsel-linux-gnu",
    "mipsisa32r6-linux-gnu", "mipsisa32r6el-linux-gnu", "mipsisa64r6-linux-gnuabi64",
    "mipsisa64r6-linux-gnuabin32", "mipsisa64r6el-linux-gnuabi64", "mipsisa64r6el-linux-gnuabin32",
    "powerpc-linux-gnu", "powerpc-linux-gnuspe", "powerpc64-linux-gnu", "powerpc64le-linux-gnu",
    "riscv64-linux-gnu", "s390-linux-gnu", "s390x-linux-gnu", "sh4-linux-gnu",
    "sparc-linux-gnu", "sparc64-linux-gnu", "x86_64-gnu", "x86_64-kfreebsd-gnu",
    "x86_64-linux-gnu", "x86_64-linux-gnux32", "x86_64-uefi"];

    const RUST_TARGETS: &[&str] = &["aarch64-unknown-linux-gnu", "aarch64-unknown-linux-musl", "arm-unknown-linux-gnueabi",
    "arm-unknown-linux-gnueabihf", "arm-unknown-linux-musleabi", "arm-unknown-linux-musleabihf", "armv5te-unknown-linux-gnueabi",
    "armv7-unknown-linux-gnueabi", "armv7-unknown-linux-gnueabihf", "armv7-unknown-linux-musleabihf", "armv7-unknown-linux-uclibceabihf",
    "i586-unknown-linux-gnu", "i586-unknown-linux-musl", "i686-unknown-linux-gnu", "i686-unknown-linux-musl",
    "loongarch64-unknown-linux-gnu", "m68k-unknown-linux-gnu", "mips-unknown-linux-gnu", "mips-unknown-linux-musl", "mips-unknown-linux-uclibc",
    "mips64-unknown-linux-gnuabi64", "mips64-unknown-linux-muslabi64", "mips64el-unknown-linux-gnuabi64", "mips64el-unknown-linux-muslabi64",
    "mipsel-unknown-linux-gnu", "mipsel-unknown-linux-musl", "mipsel-unknown-linux-uclibc", "mipsisa32r6-unknown-linux-gnu",
    "mipsisa32r6el-unknown-linux-gnu", "mipsisa64r6-unknown-linux-gnuabi64", "mipsisa64r6el-unknown-linux-gnuabi64",
    "powerpc-unknown-linux-gnu", "powerpc-unknown-linux-gnuspe", "powerpc-unknown-linux-musl", "powerpc-unknown-linux-muslspe",
    "powerpc64-unknown-linux-gnu", "powerpc64-unknown-linux-musl", "powerpc64le-unknown-linux-gnu", "riscv64gc-unknown-linux-gnu",
    "riscv64gc-unknown-linux-musl", "s390x-unknown-linux-gnu", "s390x-unknown-linux-musl", "sparc-unknown-linux-gnu",
    "sparc64-unknown-linux-gnu", "thumbv7neon-unknown-linux-gnueabihf", "x86_64-unknown-linux-gnu", "x86_64-unknown-linux-gnux32",
    "x86_64-unknown-linux-musl"];

    for rust_target in RUST_TARGETS.iter().filter(|a| a.contains("linux")) {
        let deb_arch = debian_architecture_from_rust_triple(rust_target);
        assert!(DEB_ARCHS.contains(&deb_arch.as_str()), "{rust_target} => {deb_arch}");
        let deb_tuple = debian_triple_from_rust_triple(rust_target);
        assert!(DEB_TUPLES.contains(&deb_tuple.as_str()), "{rust_target} => {deb_tuple}");
    }
}

#[test]
fn other_systems_are_warned_of() {
    assert_eq!(warn_if_not_linux("linux"), None);
    assert_eq!(
        warn_if_not_linux("macos").unwrap(),
        "You're creating a package only for macos, and not for Linux.\nUse --target if you want to cross-compile."
    );
}

// ---------------------------------------------------------------------------
// Names, versions and licenses
// ---------------------------------------------------------------------------
#[test]
fn names_of_packages() {
    assert_eq!(debian_package_name("My_crate"), "my-crate");
}

#[test]
fn versions() {
    assert_eq!(check_debian_version("1.2.3-1"), Ok(()));
    assert_eq!(check_debian_version("1:1.2~rc1+x"), Ok(()));
    assert_eq!(check_debian_version("  "), Err("empty string"));
    assert_eq!(check_debian_version("a:1"), Err("version has unexpected ':' char"));
    assert_eq!(check_debian_version(":1"), Err("version has unexpected ':' char"));
    assert_eq!(check_debian_version("v1"), Err("version must start with a digit"));
    assert_eq!(check_debian_version("1_0"), Err("contains characters other than a-z 0-9 . + - ~"));
}

#[test]
fn license_files() {
    assert_eq!(parse_license_file(Some(&s("LICENSE")), None).unwrap(), (Some(s("LICENSE")), 0));
    assert_eq!(parse_license_file(Some(&s("LICENSE")), Some(&LicenseFile::String(s("L2")))).unwrap(), (Some(s("L2")), 0));
    assert_eq!(parse_license_file(None, Some(&LicenseFile::Vec(vec![s("L3"), s("4")]))).unwrap(), (Some(s("L3")), 4));
    let err = parse_license_file(None, Some(&LicenseFile::Vec(vec![s("L3"), s("x")]))).unwrap_err();
    assert!(matches!(err, CargoDebError::NumParse("invalid number of lines", c) if c.message == "invalid digit found in string"));
    assert!(license_doesnt_need_author_info("UNLICENSED"));
    assert!(!license_doesnt_need_author_info("MIT"));
    assert!(has_copyright_metadata("License: MIT\nSource: https://example.com\nCopyright: me\nFormat: x\n"));
    assert!(!has_copyright_metadata("MIT License\n"));
}

#[test]
fn a_package_from_its_manifest() {
    let mut log = Vec::new();
    let deb = CargoDeb { section: Some(s("utils")), ..Default::default() };
    let p = PackageConfig::new(deb, &cargo_package(), &mut log, 7, DebConfigOverrides::default(), "armhf", Multiarch::Same).unwrap();
    assert_eq!(p.deb_name, "my-crate");
    assert_eq!(p.cargo_crate_name, "my_crate");
    assert_eq!(p.deb_version, "1.2.3-1");
    assert_eq!(p.maintainer.as_deref(), Some("A <a@example.com>"));
    assert_eq!(p.copyright.as_deref(), Some("A <a@example.com>, B"));
    assert_eq!(p.wildcard_depends, "$auto");
    assert_eq!(p.priority, "optional");
    assert_eq!(p.section.as_deref(), Some("utils"));
    assert_eq!(p.architecture, "armhf");
    assert_eq!(p.multiarch, Multiarch::Same);
    assert_eq!(p.default_timestamp, 7);
    assert!(matches!(&p.extended_description, ExtendedDescription::ReadmeFallback(r) if r == "README.md"));
}

#[test]
fn a_package_with_a_bad_version() {
    let overrides = DebConfigOverrides { deb_version: Some(s("x1")), ..Default::default() };
    let err = PackageConfig::new(CargoDeb::default(), &cargo_package(), &mut Vec::new(), 0, overrides, "amd64", Multiarch::Unsupported).unwrap_err();
    assert!(matches!(err, CargoDebError::InvalidVersion("version must start with a digit", v) if v == "x1"));
}

// ---------------------------------------------------------------------------
// Configuration files
// ---------------------------------------------------------------------------
#[test]
fn format_conffiles_empty() {
    let actual = format_conffiles(&vec![]);
    assert_eq!("", actual);
}

#[test]
fn format_conffiles_one() {
    let actual = format_conffiles(&vec![s("/etc/my-pkg/conf.toml")]);
    assert_eq!("/etc/my-pkg/conf.toml\n", actual);
}

#[test]
fn format_conffiles_multiple() {
    let actual = format_conffiles(&vec![s("/etc/my-pkg/conf.toml"), s("etc/my-pkg/conf2.toml")]);
    assert_eq!("/etc/my-pkg/conf.toml\n/etc/my-pkg/conf2.toml\n", actual);
}

#[test]
fn resolving_assets() {
    let mut p = new_package(CargoDeb { conf_files: Some(vec![s("/etc/a")]), ..Default::default() });
    let mut log = Vec::new();
    let env = environment();
    let raw = |src: &str, dst: &str| RawAssetOrAuto::RawAsset(RawAsset { source_path: s(src), target_path: s(dst), chmod: Some(0o644) });
    let all = env.explicit_assets(&p, vec![raw("x", "etc/a"), raw("y", "/etc/b"), raw("z", "etc/a")], &mut log).unwrap();
    p.assets = all;
    let found = |path: &str| {
        GlobMatches::Matches(vec![GlobEntry::Found { path: s(path), is_dir: false, exists: true, is_symlink: false, mode: ModeResult::Mode(0o600) }])
    };
    p.resolve_assets(&vec![found("x"), found("y"), found("z")], "/p", &mut log).unwrap();
    // the first of two files with the same target wins
    assert_eq!(targets(&p), vec!["etc/a", "etc/b"]);
    assert!(warnings(&log).iter().any(|w| w.starts_with("Duplicate assets: [") && w.ends_with("have the same target path; first one wins")), "{log:?}");
    // files below etc are configuration files, each once
    assert_eq!(p.conf_files, vec!["/etc/a", "/etc/b"]);
    assert_eq!(p.conf_files().unwrap(), "/etc/a\n/etc/b\n");
}

#[test]
fn glob_patterns() {
    assert!(is_glob_pattern("a*") && is_glob_pattern("[a]") && is_glob_pattern("!x"));
    assert!(!is_glob_pattern("a?b"));
}

#[test]
fn assets_of_a_manifest() {
    let table = |mode: &str| CargoDebAssetArrayOrTable::Table(CargoDebAsset { source: s("a"), dest: s("b/"), mode: s(mode) });
    match RawAssetOrAuto::try_from(table("755")).unwrap() {
        RawAssetOrAuto::RawAsset(a) => assert_eq!((a.source_path.as_str(), a.target_path.as_str(), a.chmod), ("a", "b/", Some(0o755))),
        RawAssetOrAuto::Auto => panic!("auto"),
    }
    assert!(RawAssetOrAuto::try_from(table("789")).is_err());
    assert!(matches!(RawAssetOrAuto::try_from(CargoDebAssetArrayOrTable::Auto(s("$auto"))), Ok(RawAssetOrAuto::Auto)));
    assert!(RawAssetOrAuto::try_from(CargoDebAssetArrayOrTable::Auto(s("auto"))).is_err());
    assert!(RawAssetOrAuto::try_from(CargoDebAssetArrayOrTable::Array(vec![s("a")])).is_err());
    assert!(RawAssetOrAuto::try_from(CargoDebAssetArrayOrTable::Invalid(s("integer"), s("1"))).is_err());
    assert!(is_trying_to_customize_target_path("target/x86_64-unknown-linux-gnu/release/foo").is_some());
    assert!(is_trying_to_customize_target_path("target/release/foo").is_none());
}

// ---------------------------------------------------------------------------
// The control file
// ---------------------------------------------------------------------------
#[test]
fn a_control_file() {
    let mut p = new_package(CargoDeb {
        section: Some(s("utils")),
        extended_description: Some(s("Long text.")),
        pre_depends: Some(cargo_deb::parse::manifest::DependencyList::String(s(" "))),
        provides: Some(cargo_deb::parse::manifest::DependencyList::Vec(vec![s("x"), s("y")])),
        ..Default::default()
    });
    p.resolved_depends = Some(s("libc6"));
    p.assets.resolved.push(data_asset("usr/share/a", 0o644));
    p.assets.resolved.push(Asset::new(AssetSource::Path(s("/x")), s("usr/bin/x"), Some(0o755), IsBuilt::No, AssetKind::Any));
    let control = p.generate_control(&environment(), &vec![None, Some(3000)], &TextResult::Text(String::new())).unwrap();
    assert_eq!(
        control,
        "Package: my-crate\nVersion: 1.2.3-1\nArchitecture: amd64\nHomepage: https://example.com/repo\nSection: utils\nPriority: optional\n\
         Maintainer: A <a@example.com>\nInstalled-Size: 6\nDepends: libc6\nProvides: x, y\nDescription: A crate.\n Long text.\n\n"
    );
}

#[test]
fn a_long_description_from_a_file() {
    let p = new_package(CargoDeb { extended_description_file: Some(s("DESC")), ..Default::default() });
    assert_eq!(p.extended_description_path(&environment()).as_deref(), Some("DESC"));
    let readme = new_package(CargoDeb::default());
    assert_eq!(readme.extended_description_path(&environment()).as_deref(), Some("/p/README.md"));
    let text = p.extended_description(&environment(), &TextResult::Text(s("Hello"))).unwrap();
    assert_eq!(text.as_deref(), Some("Hello"));
    let err = p.extended_description(&environment(), &TextResult::Failed(cause("gone"))).unwrap_err();
    assert!(matches!(err, CargoDebError::IoFile("unable to read extended description from file", _, path) if path == "DESC"));
}

#[test]
fn which_long_description_is_used() {
    let both = CargoDeb { extended_description: Some(s("text")), extended_description_file: Some(s("DESC")), ..Default::default() };
    let mut log = Vec::new();
    let p = PackageConfig::new(both, &cargo_package(), &mut log, 0, DebConfigOverrides::default(), "amd64", Multiarch::Unsupported).unwrap();
    assert!(matches!(&p.extended_description, ExtendedDescription::Text(t) if t == "text"));
    assert_eq!(warnings(&log), vec!["extended-description and extended-description-file are both set"]);
    let file = new_package(CargoDeb { extended_description_file: Some(s("DESC")), ..Default::default() });
    assert!(matches!(&file.extended_description, ExtendedDescription::File(f) if f == "DESC"));
}

#[test]
fn where_units_are_looked_for() {
    let p = new_package(CargoDeb::default());
    assert_eq!(p.unit_dir(&SystemdUnitsConfig::default()), "systemd");
    assert_eq!(p.unit_dir(&SystemdUnitsConfig { unit_scripts: Some(s("units")), ..Default::default() }), "units");
    let scripts = new_package(CargoDeb { maintainer_scripts: Some(s("debian")), ..Default::default() });
    assert_eq!(scripts.unit_dir(&SystemdUnitsConfig::default()), "debian");
}

#[test]
fn targets_that_are_directories() {
    for (target, expected) in [
        ("/usr/bin/", "usr/bin/b"),
        ("usr/bin/", "usr/bin/b"),
        ("usr/bin/x", "usr/bin/x"),
        ("/etc/x", "etc/x"),
        ("/", "b"),
    ] {
        let a = Asset::new(AssetSource::Path(s("a/b")), s(target), Some(0o644), IsBuilt::No, AssetKind::Any);
        assert_eq!(a.c.target_path, expected, "{target}");
    }
}

#[test]
fn targets_are_relative() {
    for (source, target) in [("a/b", "/usr/bin/"), ("a/b", "usr/bin/x"), ("a/b", "//etc/x")] {
        let a = Asset::new(AssetSource::Path(s(source)), s(target), Some(0o644), IsBuilt::No, AssetKind::Any);
        assert!(!a.c.target_path.starts_with('/'), "{target}");
    }
}

#[test]
fn copyright_metadata() {
    let p = new_package(CargoDeb::default());
    let (text, incomplete) = p.write_copyright_metadata(false);
    assert_eq!(
        text,
        "Format: https://www.debian.org/doc/packaging-manuals/copyright-format/1.0/\nUpstream-Name: my_crate\nSource: https://example.com/repo\n\
         Copyright: A <a@example.com>, B\nLicense: MIT\n"
    );
    assert!(!incomplete);
}

// ---------------------------------------------------------------------------
// Generated files
// ---------------------------------------------------------------------------
#[test]
fn files_of_a_package() {
    let env = environment();
    let mut p = new_package(CargoDeb { changelog: Some(s("changes")), ..Default::default() });
    let files = PackageFiles {
        license: TextResult::Failed(cause("unused")),
        changelog: ReadResult::Content(b"news".to_vec()),
        units: Vec::new(),
    };
    let mut log = Vec::new();
    env.add_assets(&mut p, vec![RawAssetOrAuto::Auto], &files, &mut log).unwrap();
    assert_eq!(
        targets(&p),
        vec![
            "usr/bin/my_crate",
            "usr/share/doc/my-crate/README.md",
            "usr/share/doc/my-crate/copyright",
            "usr/share/doc/my-crate/changelog.Debian.gz"
        ]
    );
    assert_eq!(p.assets.resolved[0].c.chmod, Some(0o755));
    // the changelog is compressed
    match &p.assets.resolved[3].source {
        AssetSource::Data(d) => {
            let mut out = Vec::new();
            std::io::Read::read_to_end(&mut flate2::read::GzDecoder::new(&d[..]), &mut out).unwrap();
            assert_eq!(out, b"news");
        },
        other => panic!("{other:?}"),
    }
}

#[test]
fn a_package_without_binaries() {
    let mut env = environment();
    env.build_targets.clear();
    let p = new_package(CargoDeb::default());
    assert!(matches!(env.implicit_assets(&p), Err(CargoDebError::BinariesNotFound(name)) if name == "my_crate"));
}

fn unit(name: &str) -> UnitFile {
    UnitFile {
        source: format!("debian/{name}"),
        recipe: InstallRecipe { path: format!("usr/lib/systemd/system/{name}"), mode: 0o644 },
        exists: true,
        is_symlink: false,
    }
}

fn count_units(p: &PackageConfig) -> usize {
    p.assets.resolved.iter().filter(|a| a.c.target_path.starts_with("usr/lib/systemd/system/")).count()
}

#[test]
fn add_systemd_assets_with_no_config_does_nothing() {
    let mut p = new_package(CargoDeb::default());
    let mut log = Vec::new();
    p.add_systemd_assets(&vec![], &mut log);
    assert_eq!(0, count_units(&p));
}

#[test]
fn add_systemd_assets_with_config_adds_unit_assets() {
    let overrides = DebConfigOverrides {
        systemd_units: Some(vec![SystemdUnitsConfig::default()]),
        maintainer_scripts_rel_path: Some(String::new()),
        ..Default::default()
    };
    let mut log = Vec::new();
    let mut p = PackageConfig::new(CargoDeb::default(), &cargo_package(), &mut log, 0, overrides, "amd64", Multiarch::Unsupported).unwrap();
    // supply a systemd unit file as if it were available on disk
    p.add_systemd_assets(&vec![FoundUnits { units: vec![unit("cargo-deb.service")], fallback: Vec::new() }], &mut log);
    assert_eq!(1, count_units(&p));
}

// ---------------------------------------------------------------------------
// Debug symbols
// ---------------------------------------------------------------------------
#[test]
fn what_becomes_of_debug_symbols() {
    let none = DebugSymbolOptions::default();
    let deb = CargoDeb::default();
    let mut log = Vec::new();
    let r = configure_debug_symbols(&none, &deb, ManifestDebugFlags::Default, "release", &mut log);
    assert_eq!(r, DebugSymbols::Strip);
    let r = configure_debug_symbols(&none, &deb, ManifestDebugFlags::FullyStrippedByCargo, "release", &mut log);
    assert_eq!(r, DebugSymbols::Keep);
    let r = configure_debug_symbols(&none, &deb, ManifestDebugFlags::SomeSymbolsAdded, "release", &mut log);
    assert_eq!(r, DebugSymbols::Keep);
    assert!(log.is_empty());
    let dbgsym = DebugSymbolOptions { generate_dbgsym_package: Some(true), ..Default::default() };
    let r = configure_debug_symbols(&dbgsym, &deb, ManifestDebugFlags::Default, "release", &mut log);
    assert_eq!(r, DebugSymbols::Separate { compress: CompressDebugSymbols::No, generate_dbgsym_package: true });
    assert_eq!(
        warnings(&log),
        vec!["debug info hasn't been explicitly enabled, so dbgsym may not work\nAdd `[profile.release] debug = 1` to Cargo.toml"]
    );
    let no_strip = DebugSymbolOptions { strip_override: Some(false), ..Default::default() };
    assert_eq!(configure_debug_symbols(&no_strip, &deb, ManifestDebugFlags::Default, "release", &mut log), DebugSymbols::Keep);
    // symbols of the profile are kept, and the files that the manifest asks for can be suppressed
    assert_eq!(configure_debug_symbols(&none, &deb, ManifestDebugFlags::FullSymbolsAdded, "release", &mut log), DebugSymbols::Keep);
    let separate = CargoDeb { separate_debug_symbols: Some(true), ..Default::default() };
    let r = configure_debug_symbols(&none, &separate, ManifestDebugFlags::SomeSymbolsAdded, "release", &mut log);
    assert_eq!(r, DebugSymbols::Separate { compress: CompressDebugSymbols::No, generate_dbgsym_package: false });
    let suppress = DebugSymbolOptions { separate_debug_symbols: Some(false), ..Default::default() };
    let r = configure_debug_symbols(&suppress, &separate, ManifestDebugFlags::SomeSymbolsAdded, "release", &mut log);
    assert_eq!(r, DebugSymbols::Keep);
}

/// Without the name of an algorithm it is zstd for full debug symbols, and else zlib.
#[test]
fn how_debug_symbols_are_compressed() {
    let deb = CargoDeb::default();
    let compress = |asked: Option<CompressDebugSymbols>, flags: ManifestDebugFlags| {
        let options = DebugSymbolOptions { separate_debug_symbols: Some(true), compress_debug_symbols: asked, ..Default::default() };
        match configure_debug_symbols(&options, &deb, flags, "release", &mut Vec::new()) {
            DebugSymbols::Separate { compress, .. } => compress,
            other => panic!("{other:?}"),
        }
    };
    let auto = Some(CompressDebugSymbols::Auto);
    assert_eq!(compress(auto, ManifestDebugFlags::FullSymbolsAdded), CompressDebugSymbols::Zstd);
    // which is zlib where the command line is made
    assert_eq!(compress(auto, ManifestDebugFlags::SomeSymbolsAdded), CompressDebugSymbols::Auto);
    assert_eq!(compress(Some(CompressDebugSymbols::Zlib), ManifestDebugFlags::FullSymbolsAdded), CompressDebugSymbols::Zlib);
    assert_eq!(compress(None, ManifestDebugFlags::FullSymbolsAdded), CompressDebugSymbols::No);
}

#[test]
fn splitting_off_debug_symbols() {
    let mut p = new_package(CargoDeb::default());
    p.assets.resolved.push(data_asset("usr/bin/a", 0o755));
    assert!(p.split_dbgsym().unwrap().is_none());
    let debug = Asset::new(AssetSource::Data(vec![1]), s("usr/lib/debug/a.debug"), Some(0o644), IsBuilt::No, AssetKind::SeparateDebugSymbols);
    p.assets.resolved.push(debug);
    let ddeb = p.split_dbgsym().unwrap().unwrap();
    assert_eq!(targets(&p), vec!["usr/bin/a"]);
    assert_eq!(targets(&ddeb), vec!["usr/lib/debug/a.debug"]);
    assert_eq!(ddeb.deb_name, "my-crate-dbgsym");
    assert_eq!(ddeb.description, "Debug symbols for my-crate v1.2.3-1 (amd64)");
    assert_eq!(ddeb.resolved_depends.as_deref(), Some("my-crate (= 1.2.3-1)"));
    assert_eq!(ddeb.file_name(), "my-crate-dbgsym_1.2.3-1_amd64.ddeb");
    assert!(ddeb.is_split_dbgsym_package);
}

#[test]
fn files_that_are_alike_stand_together() {
    let mut p = new_package(CargoDeb::default());
    for (t, m) in [("usr/bin/x", 0o755), ("usr/lib/liba.so", 0o644), ("b.txt", 0o644), ("a.md", 0o644), ("a.txt", 0o644)] {
        p.assets.resolved.push(data_asset(t, m));
    }
    p.sort_assets_by_type();
    assert_eq!(targets(&p), vec!["a.md", "a.txt", "b.txt", "usr/lib/liba.so", "usr/bin/x"]);
}

// ---------------------------------------------------------------------------
// Dependencies and builds
// ---------------------------------------------------------------------------
#[test]
fn dependencies_of_a_package() {
    let mut p = new_package(CargoDeb::default());
    p.wildcard_depends = s("$auto, zlib, a [armhf], b [!armhf], zlib");
    p.assets.resolved.push(Asset::new(AssetSource::Path(s("/p/target/release/x")), s("usr/bin/x"), Some(0o755), IsBuilt::SamePackage, AssetKind::Any));
    assert_eq!(p.depend_words(), vec!["$auto", "zlib", "a [armhf]", "b [!armhf]", "zlib"]);
    assert_eq!(p.auto_depend_paths(), vec!["/p/target/release/x"]);
    let query = |arch: &str| Some(vec![s("-a"), s("amd64"), s("-i"), s(arch)]);
    assert_eq!(p.arch_queries(), vec![None, None, query("armhf"), query("armhf"), None]);
    let mut log = Vec::new();
    let found = vec![AutoDepends::Found(vec![s("libc6 (>= 2.34)")])];
    let answers = vec![None, None, Some(ArchAnswer::Success(false)), Some(ArchAnswer::Success(false)), None];
    let deps = p.resolved_binary_dependencies(&found, &answers, &mut log).unwrap();
    // sorted, each once
    assert_eq!(deps, "b, libc6 (>= 2.34), zlib");
    assert!(log.is_empty());
}

#[test]
fn flags_for_cargo() {
    let mut env = environment();
    env.features = vec![s("a"), s("b")];
    env.rust_target_triple = Some(s("armv7-unknown-linux-gnueabihf"));
    env.build_profile.override_lto = Some(s("thin"));
    env.cargo_locking_flags.locked = true;
    let mut p = new_package(CargoDeb::default());
    p.assets.resolved = env.implicit_assets(&p).unwrap();
    let mut flags = Vec::new();
    let mut vars: Vec<EnvVar> = Vec::new();
    assert_eq!(env.pkg_config_path().as_deref(), Some("/usr/lib/arm-linux-gnueabihf/pkgconfig"));
    env.set_cargo_build_flags_for_package(&p, PkgConfig { allow_cross_is_set: false, path_is_set: false, dir_exists: true }, &mut flags, &mut vars);
    let named: Vec<(&str, &str)> = vars.iter().map(|v| (v.name.as_str(), v.value.as_str())).collect();
    assert_eq!(
        named,
        vec![
            ("CARGO_PROFILE_RELEASE_LTO", "thin"),
            ("PKG_CONFIG_ALLOW_CROSS", "1"),
            ("PKG_CONFIG_PATH", "/usr/lib/arm-linux-gnueabihf/pkgconfig")
        ]
    );
    assert_eq!(&flags[..4], ["--release", "--locked", "--target", "armv7-unknown-linux-gnueabihf"]);
    assert!(flags.iter().any(|f| f.contains("a,b")), "{flags:?}");
    assert!(flags.iter().any(|f| f.contains("my_crate")), "{flags:?}");
}

/// `pkg-config` is helped only where nothing has been said to it, and where there is a directory.
#[test]
fn variables_for_pkg_config() {
    let mut env = environment();
    env.rust_target_triple = Some(s("armv7-unknown-linux-gnueabihf"));
    let p = new_package(CargoDeb::default());
    let vars = |allow_cross_is_set: bool, path_is_set: bool, dir_exists: bool| {
        let mut vars = vec![EnvVar { name: s("A"), value: s("1") }];
        env.set_cargo_build_flags_for_package(&p, PkgConfig { allow_cross_is_set, path_is_set, dir_exists }, &mut Vec::new(), &mut vars);
        vars.into_iter().map(|v| v.name).collect::<Vec<_>>()
    };
    assert_eq!(vars(false, false, true), vec!["A", "PKG_CONFIG_ALLOW_CROSS", "PKG_CONFIG_PATH"]);
    assert_eq!(vars(true, false, true), vec!["A"]);
    assert_eq!(vars(false, true, true), vec!["A"]);
    assert_eq!(vars(false, false, false), vec!["A"]);
}

/// Where everything is built, nothing is selected, and names do not matter.
#[test]
fn everything_is_selected_once() {
    let env = environment();
    let mut p = new_package(CargoDeb::default());
    p.assets.resolved = env.implicit_assets(&p).unwrap();
    p.assets.resolved.push(Asset::new(AssetSource::Path(s("/p/target/release/..")), s("usr/bin/y"), Some(0o755), IsBuilt::SamePackage, AssetKind::Any));
    let none = PkgConfig { allow_cross_is_set: false, path_is_set: false, dir_exists: false };
    for selection in ["--workspace", "--all"] {
        let mut flags = vec![s(selection)];
        assert!(names_are_known(&p, &flags));
        env.set_cargo_build_flags_for_package(&p, none, &mut flags, &mut Vec::new());
        assert_eq!(flags, vec![selection, "--release"]);
    }
    assert!(!names_are_known(&p, &vec![]));
    p.assets.resolved.pop();
    assert!(names_are_known(&p, &vec![]));
    let mut flags = Vec::new();
    env.set_cargo_build_flags_for_package(&p, none, &mut flags, &mut Vec::new());
    assert_eq!(flags, vec!["--release", "--bin=my_crate"]);
}

#[test]
fn names_of_what_is_built_have_to_be_known() {
    let mut env = environment();
    let raw = |src: &str| RawAssetOrAuto::RawAsset(RawAsset { source_path: s(src), target_path: s("x"), chmod: None });
    assert!(env.names_are_known(&vec![raw("target/release/a"), RawAssetOrAuto::Auto]));
    assert!(!env.names_are_known(&vec![raw("target/release/..")]));
    assert!(env.names_are_known(&vec![raw("a/..")]));
    env.build_targets.push(bin_target("../"));
    assert!(!env.names_are_known(&vec![RawAssetOrAuto::Auto]));
    assert!(env.names_are_known(&vec![raw("a")]));
}

#[test]
fn paths_of_a_build() {
    let mut env = environment();
    let p = new_package(CargoDeb::default());
    assert_eq!(env.path_in_build("x"), "/p/target/release/x");
    assert_eq!(env.deb_temp_dir(&p), "/p/target/debian/my_crate");
    assert_eq!(env.deb_output_path(&p, false), "/p/target/debian/my-crate_1.2.3-1_amd64.deb");
    env.deb_output_path = Some(s("out/"));
    assert_eq!(env.deb_output_path(&p, false), "out/my-crate_1.2.3-1_amd64.deb");
    env.deb_output_path = Some(s("my.deb"));
    assert_eq!(env.deb_output_path(&p, false), "my.deb");
    assert_eq!(p.library_install_dir("x86_64-unknown-linux-gnu"), "usr/lib");
    assert_eq!(
        p.multiarch_lib_dirs("x86_64-unknown-linux-gnu"),
        (s("usr/lib/x86_64-linux-gnu"), s("usr/x86_64-linux-gnu/lib"))
    );
}
