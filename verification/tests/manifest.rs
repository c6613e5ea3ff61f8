use cargo_deb::assets::RawAsset;
use cargo_deb::error::Cause;
use cargo_deb::listener::Message;
use cargo_deb::parse::cargo::{config_files_in, config_search_dirs, CargoConfig, ConfigRead, ConfigReads};
use cargo_deb::parse::manifest::{
    cargo_var_name, debug_flags, find_profile, manifest_version_string, BuildProfile, CargoDeb, DebugSetting, DependencyList, ManifestDebugFlags, NamedProfile,
    Profile, Profiles, StripSetting, SystemdUnitsConfig,
};
use cargo_deb::parse::merge::{MergeAssets, MergeByKey};
use cargo_deb::CargoDebError;

fn create_test_asset(src: &str, target_path: &str, perm: u32) -> RawAsset {
    RawAsset { source_path: src.to_owned(), target_path: target_path.to_owned(), chmod: Some(perm) }
}

fn inherit(variant: CargoDeb, parent: CargoDeb) -> CargoDeb {
    let mut log = Vec::new();
    variant.inherit_from(parent, &mut log)
}

#[test]
fn test_merge_assets() {
    // Test merging assets by dest
    let original_asset = create_test_asset("lib/test/empty.txt", "/opt/test/empty.txt", 0o777);
    let merge_asset = create_test_asset("lib/test_variant/empty.txt", "/opt/test/empty.txt", 0o655);

    let parent = CargoDeb { assets: Some(vec![original_asset.into()]), ..Default::default() };
    let variant = CargoDeb {
        merge_assets: Some(MergeAssets { append: None, by: Some(MergeByKey::Dest(vec![merge_asset.into()])) }),
        ..Default::default()
    };

    let merged = inherit(variant, parent);
    let mut merged = merged.assets.expect("should have assets").into_iter().filter_map(|a| a.asset()).collect::<Vec<_>>();
    let merged_asset = merged.pop().expect("should have an asset");
    assert_eq!("lib/test_variant/empty.txt", merged_asset.source_path, "should have merged the source location");
    assert_eq!("/opt/test/empty.txt", merged_asset.target_path, "should preserve dest location");
    assert_eq!(Some(0o655), merged_asset.chmod, "should have merged the dest location");

    // Test merging assets by src
    let original_asset = create_test_asset("lib/test/empty.txt", "/opt/test/empty.txt", 0o777);
    let merge_asset = create_test_asset("lib/test/empty.txt", "/opt/test_variant/empty.txt", 0o655);

    let parent = CargoDeb { assets: Some(vec![original_asset.into()]), ..Default::default() };
    let variant = CargoDeb {
        merge_assets: Some(MergeAssets { append: None, by: Some(MergeByKey::Src(vec![merge_asset.into()])) }),
        ..Default::default()
    };

    let merged = inherit(variant, parent);
    let mut merged = merged.assets.expect("should have assets").into_iter().filter_map(|a| a.asset()).collect::<Vec<_>>();
    let merged_asset = merged.pop().expect("should have an asset");
    assert_eq!("lib/test/empty.txt", merged_asset.source_path, "should have merged the source location");
    assert_eq!("/opt/test_variant/empty.txt", merged_asset.target_path, "should preserve dest location");
    assert_eq!(Some(0o655), merged_asset.chmod, "should have merged the dest location");

    // Test merging assets by appending
    let original_asset = create_test_asset("lib/test/empty.txt", "/opt/test/empty.txt", 0o777);
    let merge_asset = create_test_asset("lib/test/empty.txt", "/opt/test_variant/empty.txt", 0o655);

    let parent = CargoDeb { assets: Some(vec![original_asset.into()]), ..Default::default() };
    let variant = CargoDeb {
        merge_assets: Some(MergeAssets { append: Some(vec![merge_asset.into()]), by: None }),
        ..Default::default()
    };

    let merged = inherit(variant, parent);
    let mut merged = merged.assets.expect("should have assets").into_iter().filter_map(|a| a.asset()).collect::<Vec<_>>();

    let merged_asset = merged.pop().expect("should have an asset");
    assert_eq!("lib/test/empty.txt", merged_asset.source_path, "should have merged the source location");
    assert_eq!("/opt/test_variant/empty.txt", merged_asset.target_path, "should preserve dest location");
    assert_eq!(Some(0o655), merged_asset.chmod, "should have merged the dest location");

    let merged_asset = merged.pop().expect("should have an asset");
    assert_eq!("lib/test/empty.txt", merged_asset.source_path, "should have merged the source location");
    assert_eq!("/opt/test/empty.txt", merged_asset.target_path, "should preserve dest location");
    assert_eq!(Some(0o777), merged_asset.chmod, "should have merged the dest location");

    // Test backwards compatibility for variants that have set assets
    let original_asset = create_test_asset("lib/test/empty.txt", "/opt/test/empty.txt", 0o777);
    let merge_asset = create_test_asset("lib/test_variant/empty.txt", "/opt/test/empty.txt", 0o655);
    let additional_asset = create_test_asset("lib/test/other-empty.txt", "/opt/test/other-empty.txt", 0o655);

    let parent = CargoDeb { assets: Some(vec![original_asset.into()]), ..Default::default() };
    let variant = CargoDeb {
        merge_assets: Some(MergeAssets {
            append: None,
            by: Some(MergeByKey::Dest(vec![create_test_asset("lib/test_variant/empty.txt", "/opt/test/empty.txt", 0o655).into()])),
        }),
        assets: Some(vec![merge_asset.into(), additional_asset.into()]),
        ..Default::default()
    };

    let merged = inherit(variant, parent);
    let mut merged = merged.assets.expect("should have assets");
    let merged_asset = merged.remove(0).asset().unwrap();
    assert_eq!("lib/test_variant/empty.txt", merged_asset.source_path, "should have merged the source location");
    assert_eq!("/opt/test/empty.txt", merged_asset.target_path, "should preserve dest location");
    assert_eq!(Some(0o655), merged_asset.chmod, "should have merged the dest location");

    let additional_asset = merged.remove(0).asset().unwrap();
    assert_eq!("lib/test/other-empty.txt", additional_asset.source_path, "should have merged the source location");
    assert_eq!("/opt/test/other-empty.txt", additional_asset.target_path, "should preserve dest location");
    assert_eq!(Some(0o655), additional_asset.chmod, "should have merged the dest location");
}

#[test]
fn merging_with_nothing_is_warned_of() {
    let variant = CargoDeb {
        merge_assets: Some(MergeAssets { append: Some(vec![create_test_asset("a", "b", 0o644).into()]), by: None }),
        ..Default::default()
    };
    let mut log = Vec::new();
    let merged = variant.inherit_from(CargoDeb::default(), &mut log);
    assert_eq!(merged.assets.unwrap().len(), 1);
    assert!(matches!(&log[..], [Message::Warning(w)] if w == "variant has merge-assets, but not assets to merge"));
}

#[test]
fn variants_inherit_what_they_do_not_set() {
    let parent = CargoDeb { name: Some("parent".to_owned()), section: Some("utils".to_owned()), ..Default::default() };
    let variant = CargoDeb { name: Some("own".to_owned()), ..Default::default() };
    let r = inherit(variant, parent);
    assert_eq!(r.name.as_deref(), Some("own"));
    assert_eq!(r.section.as_deref(), Some("utils"));
    assert!(r.priority.is_none());
}

#[test]
fn deb_ver() {
    let c = "1.2.3-1";
    assert_eq!("1.2.3-1-1", manifest_version_string(c, None));
    assert_eq!("1.2.3-1-2", manifest_version_string(c, Some("2")));
    assert_eq!("1.2.3-1", manifest_version_string(c, Some("")));
    let c = "1.2.0-beta.3";
    assert_eq!("1.2.0~beta.3-1", manifest_version_string(c, None));
    assert_eq!("1.2.0~beta.3-4", manifest_version_string(c, Some("4")));
    assert_eq!("1.2.0~beta.3", manifest_version_string(c, Some("")));
    let c = "1.2.0-new";
    assert_eq!("1.2.0-new-1", manifest_version_string(c, None));
    assert_eq!("1.2.0-new-11", manifest_version_string(c, Some("11")));
    assert_eq!("1.2.0-new", manifest_version_string(c, Some("0")));
}

#[test]
fn parse_strip() {
    let c = CargoConfig::from_str(r#"
[target.i686-unknown-dragonfly]
linker = "magic-ld"
strip = "magic-strip"

[target.'foo']
strip = { path = "strip2" }
"#, ".".into()).unwrap();

    assert_eq!("magic-strip", c.explicit_target_specific_command("strip", "i686-unknown-dragonfly").unwrap());
    assert_eq!("strip2", c.explicit_target_specific_command("strip", "foo").unwrap());
    assert_eq!(None, c.explicit_target_specific_command("strip", "bar"));
}

#[test]
fn parse_objcopy() {
    let c = CargoConfig::from_str(r#"
[target.i686-unknown-dragonfly]
linker = "magic-ld"
objcopy = "magic-objcopy"

[target.'foo']
objcopy = { path = "objcopy2" }
"#, ".".into()).unwrap();

    assert_eq!("magic-objcopy", c.explicit_target_specific_command("objcopy", "i686-unknown-dragonfly").unwrap());
    assert_eq!("objcopy2", c.explicit_target_specific_command("objcopy", "foo").unwrap());
    assert_eq!(None, c.explicit_target_specific_command("objcopy", "bar"));
    assert_eq!(c.explicit_linker_command("i686-unknown-dragonfly").as_deref(), Some("magic-ld"));
    assert_eq!(c.explicit_linker_command("foo"), None);
    assert_eq!(c.path(), ".");
}

#[test]
fn config_that_is_no_toml() {
    let err = CargoConfig::from_str("[target", ".".into());
    assert!(matches!(err, Err(CargoDebError::ParseTOML(_))));
    // values of other types are no commands
    let c = CargoConfig::from_str("[target.foo]\nstrip = 1\nlinker = [\"a\"]\n", ".".into()).unwrap();
    assert_eq!(c.explicit_target_specific_command("strip", "foo"), None);
    assert_eq!(c.explicit_linker_command("foo"), None);
}

#[test]
fn where_config_is_looked_for() {
    let dirs = config_search_dirs("/home/me/project", Some(&"/opt/cargo".to_owned()), Some(&"/home/me".to_owned()));
    assert_eq!(dirs[0], "/home/me/project/.cargo");
    assert!(dirs.contains(&"/home/me/.cargo".to_owned()));
    assert!(dirs.contains(&"/opt/cargo".to_owned()), "{dirs:?}");
    assert_eq!(config_files_in("/a/.cargo"), ("/a/.cargo/config.toml".to_owned(), "/a/.cargo/config".to_owned()));
}

#[test]
fn the_nearest_config_is_used() {
    let dirs = vec!["/a/b/.cargo".to_owned(), "/a/.cargo".to_owned(), "/.cargo".to_owned()];
    let missing = || ConfigReads { toml: ConfigRead::Missing, plain: ConfigRead::Missing };
    let text = |linker: &str| ConfigRead::Text(format!("[target.foo]\nlinker = \"{linker}\"\n"));

    assert!(CargoConfig::new(&dirs, &vec![missing(), missing(), missing()]).unwrap().is_none());

    let plain = ConfigReads { toml: ConfigRead::Missing, plain: text("near") };
    let both = ConfigReads { toml: text("far"), plain: text("further") };
    let c = CargoConfig::new(&dirs, &vec![missing(), plain, both]).unwrap().unwrap();
    assert_eq!(c.path(), "/a/.cargo/config");
    assert_eq!(c.explicit_linker_command("foo").as_deref(), Some("near"));

    let both = ConfigReads { toml: text("far"), plain: text("further") };
    let c = CargoConfig::new(&dirs, &vec![both, missing(), missing()]).unwrap().unwrap();
    assert_eq!(c.path(), "/a/b/.cargo/config.toml");
    assert_eq!(c.explicit_linker_command("foo").as_deref(), Some("far"));

    let unreadable = ConfigReads { toml: ConfigRead::Failed(Cause { message: "no".to_owned(), sources: Vec::new() }), plain: text("near") };
    assert!(matches!(CargoConfig::new(&dirs, &vec![unreadable, missing(), missing()]), Err(CargoDebError::Io(_))));
}

fn profile(strip: Option<StripSetting>, debug: Option<DebugSetting>, split: Option<&str>) -> Profile {
    Profile { strip, debug, split_debuginfo: split.map(|s| s.to_owned()) }
}

#[test]
fn flags_from_profiles_and_variables() {
    let none = BuildProfile::default();
    let full = profile(None, Some(DebugSetting::Full), None);
    assert_eq!(debug_flags(None, &none, None, None), ManifestDebugFlags::Default);
    assert_eq!(debug_flags(Some(&full), &none, None, None), ManifestDebugFlags::FullSymbolsAdded);
    let lines = profile(None, Some(DebugSetting::Lines), None);
    assert_eq!(debug_flags(Some(&lines), &none, None, None), ManifestDebugFlags::SomeSymbolsAdded);
    let packed = profile(None, Some(DebugSetting::Full), Some("packed"));
    assert_eq!(debug_flags(Some(&packed), &none, None, None), ManifestDebugFlags::SymbolsPackedExternally);
    let stripped = profile(Some(StripSetting::Symbols), Some(DebugSetting::Full), None);
    assert_eq!(debug_flags(Some(&stripped), &none, None, None), ManifestDebugFlags::FullyStrippedByCargo);
    let off = profile(None, Some(DebugSetting::Nothing), None);
    assert_eq!(debug_flags(Some(&off), &none, None, None), ManifestDebugFlags::SymbolsDisabled);
    // variables, as TOML values or as bare strings
    assert_eq!(debug_flags(Some(&full), &none, Some(&"true".to_owned()), None), ManifestDebugFlags::FullyStrippedByCargo);
    assert_eq!(debug_flags(Some(&full), &none, Some(&"symbols".to_owned()), None), ManifestDebugFlags::FullyStrippedByCargo);
    assert_eq!(debug_flags(Some(&full), &none, None, Some(&"line-tables-only".to_owned())), ManifestDebugFlags::SomeSymbolsAdded);
    assert_eq!(debug_flags(Some(&off), &none, None, Some(&"2".to_owned())), ManifestDebugFlags::FullSymbolsAdded);
    assert_eq!(debug_flags(Some(&off), &none, None, Some(&"nonsense".to_owned())), ManifestDebugFlags::SymbolsDisabled);
    // the option goes before the variable
    let asked = BuildProfile { override_debug: Some("none".to_owned()), ..Default::default() };
    assert_eq!(debug_flags(Some(&full), &asked, None, Some(&"2".to_owned())), ManifestDebugFlags::SymbolsDisabled);
    assert_eq!(cargo_var_name("dist", "DEBUG"), "CARGO_PROFILE_DIST_DEBUG");
}

#[test]
fn profiles_by_name() {
    let m = Profiles {
        release: Some(profile(Some(StripSetting::Debuginfo), None, None)),
        custom: vec![NamedProfile { name: "dist".to_owned(), profile: profile(None, Some(DebugSetting::Lines), None) }],
    };
    assert_eq!(find_profile(&m, "release").unwrap().strip, Some(StripSetting::Debuginfo));
    assert_eq!(find_profile(&m, "dist").unwrap().debug, Some(DebugSetting::Lines));
    assert!(find_profile(&m, "other").is_none());
}

#[test]
fn dependencies_and_unit_options() {
    let list = DependencyList::Vec(vec!["a".to_owned(), "b (>= 1)".to_owned()]);
    assert_eq!(list.into_depends_string(), "a, b (>= 1)");
    let o = SystemdUnitsConfig { enable: Some(false), ..Default::default() }.options();
    assert!(o.no_enable && !o.no_start && o.restart_after_upgrade && !o.no_stop_on_upgrade);
}
