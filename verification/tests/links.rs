use cargo_deb::deb::links::{join_lexically, normalize_link_name};

#[test]
fn normalized_links() {
    let examples = [
        ("usr/lib/foo", "/usr/share/bar", Some("../share/bar")),
        ("usr/lib/foo", "/usr/share/./bar", Some("../share/bar")),
        ("usr/lib/foo", "/usr/share/foo/../bar", Some("../share/bar")),
        ("usr/lib/foo", "/var/lib/foo/../bar", Some("/var/lib/bar")),
        ("usr/lib/foo", "/var/lib/foo/./bar", Some("/var/lib/foo/bar")),
        ("var/run", "/run", Some("/run")),
        ("usr/share/foo", "../../../var/lib/baz", None),
        ("usr/share/foo", "../../var/lib/baz", Some("/var/lib/baz")),
        ("usr/share/foo", "../../usr/lib/baz", Some("../lib/baz")),
    ];

    for (target, link_name, result) in examples {
        assert_eq!(normalize_link_name(target, link_name).as_deref(), result, "{target} -> {link_name} should normalize to {result:?}")
    }
}

#[test]
fn links_to_directories_above() {
    assert_eq!(normalize_link_name("usr/lib/foo/bar", "/usr").as_deref(), Some("../../"));
    assert_eq!(normalize_link_name("usr/lib/foo", "/usr/lib").as_deref(), Some(""));
    assert_eq!(normalize_link_name("usr/lib/foo", "bar/baz").as_deref(), Some("bar/baz"));
    assert_eq!(normalize_link_name("foo", "/usr").as_deref(), Some("/usr"));
    assert_eq!(normalize_link_name("usr/foo", "/").as_deref(), Some("/"));
    assert_eq!(normalize_link_name("foo", "/").as_deref(), Some(""));
    assert_eq!(normalize_link_name("../foo", "bar"), None);
}

fn names(path: &str) -> Vec<String> {
    path.split('/').filter(|n| !n.is_empty()).map(str::to_owned).collect()
}

/// Joining two paths first, or one after the other, leads to the same place.
#[test]
fn joining_paths_one_after_the_other() {
    let base = names("usr/lib");
    assert_eq!(join_lexically(&base, ""), Some(base.clone()));
    for (first, second, joined, result) in [
        ("a/b", "c", "a/b/c", Some("usr/lib/a/b/c")),
        ("a", "./c", "a/./c", Some("usr/lib/a/c")),
        ("./a/", ".", "./a/.", Some("usr/lib/a")),
        ("", "./c", "./c", Some("usr/lib/c")),
        ("../..", "etc", "../../etc", Some("etc")),
        ("../../..", "etc", "../../../etc", None),
        ("a", "../../../..", "a/../../../..", None),
        ("/var", "../etc", "/var/../etc", Some("etc")),
    ] {
        let at_once = join_lexically(&base, joined);
        let one_by_one = join_lexically(&base, first).and_then(|mid| join_lexically(&mid, second));
        assert_eq!(at_once, one_by_one, "{first} {second}");
        assert_eq!(at_once, result.map(names), "{joined}");
    }
    // an absolute path forgets where the way led before
    assert_eq!(join_lexically(&base, "/etc"), Some(names("etc")));
    assert_eq!(join_lexically(&base, "../../.."), None);
}
