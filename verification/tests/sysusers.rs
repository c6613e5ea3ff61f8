use cargo_deb::assets::{Asset, AssetKind, AssetSource, IsBuilt};
use cargo_deb::dh::dh_installsysusers::{find_config, generate, ConfigFile};
use cargo_deb::listener::Message;

const TEMPLATE: &str = "if [ \"$1\" = \"configure\" ]; then\n\tsystemd-sysusers #CONFILE_BASENAME#\nfi\n";

fn asset(source: AssetSource, target: &str) -> Asset {
    Asset::new(source, target.to_owned(), Some(0o0), IsBuilt::No, AssetKind::Any)
}

fn assert_eq_found_config(found: &ConfigFile, expected_path: &str, source: &str) {
    let (path, recipe) = found.as_ref().expect("config");
    assert_eq!(path, source);
    assert_eq!(recipe.path, expected_path);
    assert_eq!(recipe.mode, 0o644);
}

#[test]
fn find_units_in_empty_dir_finds_nothing() {
    assert!(find_config("", "mypkg", &vec![]).is_none());
}

#[test]
fn find_config_for_package() {
    let files = vec!["debian/mypkg.sysusers".to_owned()];
    let pkg_config_file = find_config("debian", "mypkg", &files);
    assert_eq_found_config(&pkg_config_file, "usr/lib/sysusers.d/mypkg.conf", "debian/mypkg.sysusers");
}

#[test]
fn find_config_prefers_the_one_with_a_name() {
    let files = vec!["debian/sysusers".to_owned(), "debian/mypkg.sysusers".to_owned()];
    let found = find_config("debian", "mypkg", &files);
    assert_eq_found_config(&found, "usr/lib/sysusers.d/mypkg.conf", "debian/mypkg.sysusers");
}

#[test]
fn find_config_without_a_name() {
    let found = find_config("debian/", "mypkg", &vec!["debian/sysusers".to_owned()]);
    assert_eq_found_config(&found, "usr/lib/sysusers.d/mypkg.conf", "debian/sysusers");
}

#[test]
fn generate_with_empty_inputs_does_nothing() {
    let mut log = Vec::new();
    let fragments = generate("", &vec![], TEMPLATE, "cargo-deb", &mut log).unwrap();
    assert!(fragments.is_none());
    assert!(log.is_empty());
}

#[test]
fn generate_with_arbitrary_asset_does_nothing() {
    let mut log = Vec::new();
    let assets = vec![asset(AssetSource::Path(String::new()), "")];
    let fragments = generate("mypkg", &assets, TEMPLATE, "cargo-deb", &mut log).unwrap();
    assert!(fragments.is_none());
    assert!(log.is_empty());
}

#[test]
fn generate_with_invalid_tmp_file_asset_fails() {
    // path source with empty source path makes no sense
    let assets = vec![asset(AssetSource::Path(String::new()), "usr/lib/sysusers.d/blah")];
    let mut log = Vec::new();
    assert!(generate("mypkg", &assets, TEMPLATE, "cargo-deb", &mut log).is_err());
    assert!(log.is_empty());
}

#[test]
fn generate_with_data_tmp_file_asset_fails() {
    // only assets of type Path are currently supported
    let assets = vec![asset(AssetSource::Data(vec![]), "usr/lib/sysusers.d/blah")];
    let mut log = Vec::new();
    assert!(generate("mypkg", &assets, TEMPLATE, "cargo-deb", &mut log).is_err());
    assert!(log.is_empty());
}

#[test]
fn generate_with_empty_sysusers_asset() {
    const TMP_FILE_NAME: &str = "mypkg.sysusers";
    let tmp_file_path = format!("debian/{TMP_FILE_NAME}");
    let assets = vec![asset(AssetSource::Path(tmp_file_path), "usr/lib/sysusers.d/blah")];

    let mut log = Vec::new();
    let fragment = generate("mypkg", &assets, TEMPLATE, "cargo-deb", &mut log).unwrap().unwrap();
    assert_eq!(log.len(), 1);
    assert!(matches!(log[0], Message::Progress(..)));

    // should create an augmentation for the postinst script
    assert_eq!("mypkg.postinst.debhelper", fragment.name);

    // Verify the created script contents. It should have two lines
    // more than the autoscript fragment it was based on, like so:
    //   # Automatically added by ...
    //   <autoscript fragment lines with placeholders replaced>
    //   # End automatically added section
    let autoscript_line_count = TEMPLATE.lines().count();
    let created_text = fragment.text;
    let created_line_count = created_text.lines().count();
    assert_eq!(autoscript_line_count + 2, created_line_count);

    // Verify the content of the added comment lines
    let mut lines = created_text.lines();
    assert!(lines.next().unwrap().starts_with("# Automatically added by"));
    assert_eq!(lines.nth_back(0).unwrap(), "# End automatically added section");

    // Check that the autoscript fragment lines were properly copied
    // into the created script complete with expected substitutions
    let expected_autoscript_text = TEMPLATE.replace("#CONFILE_BASENAME#", TMP_FILE_NAME.replace(".sysusers", ".conf").as_str());
    let expected_autoscript_text = expected_autoscript_text.trim_end();
    let start1 = 1;
    let end1 = start1 + autoscript_line_count;
    let created_autoscript_text = created_text.lines().collect::<Vec<&str>>()[start1..end1].join("\n");
    assert_ne!(expected_autoscript_text, TEMPLATE);
    assert_eq!(expected_autoscript_text, created_autoscript_text);
}

#[test]
fn generate_acts_only_on_config_files_with_the_expected_install_path() {
    let assets = vec![asset(AssetSource::Path("debian/mypkg.sysusers".to_owned()), "some/other/path/")];
    let mut log = Vec::new();
    let fragments = generate("mypkg", &assets, TEMPLATE, "cargo-deb", &mut log).unwrap();
    assert!(fragments.is_none());
    assert!(log.is_empty());
}

#[test]
fn generate_creates_expected_autoscript_fragments() {
    let assets = vec![asset(AssetSource::Path("debian/mypkg.sysusers".to_owned()), "usr/lib/sysusers.d/mypkg.conf")];
    let mut log = Vec::new();
    let fragment = generate("mypkg", &assets, TEMPLATE, "cargo-deb", &mut log).unwrap().unwrap();
    assert_eq!(fragment.name, "mypkg.postinst.debhelper");
    assert!(fragment.text.contains("systemd-sysusers mypkg.conf\n"));
}

#[test]
fn names_of_config_files_are_sorted() {
    let assets = vec![
        asset(AssetSource::Path("b.sysusers".to_owned()), "usr/lib/sysusers.d/b.conf"),
        asset(AssetSource::Path("a.sysusers".to_owned()), "usr/lib/sysusers.d/a.conf"),
    ];
    let mut log = Vec::new();
    let fragment = generate("p", &assets, TEMPLATE, "t", &mut log).unwrap().unwrap();
    assert!(fragment.text.contains("systemd-sysusers a.conf b.conf\n"), "{}", fragment.text);
}
