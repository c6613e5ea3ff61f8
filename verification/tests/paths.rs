use cargo_deb::paths;
use std::path::{Component, Path};

const PATHS: [&str; 46] = [
    "", "/", ".", "..", "./", "/.", "/..", "//", "a", "a/", "/a", "/a/", "a/b", "a//b", "a/./b", "a/../b", "./a", "./a/b",
    "/./a", "a/.", "a/..", "a/b/.", "a/b//", "a/b/./.", "/usr/lib/foo", "usr/share/doc/x/changelog.Debian.gz", ".hidden",
    "a/.hidden", "a/.hidden.txt", "name.", "a.b.c", "..x", "...", "a/...", "././a", ".//a", "/etc/x.conf", "etc/", "a/b/c/d",
    "../a", "../../a/b", "..//", "x/./", "/a/b/../c", "ä/ö.ü", "a b/c d",
];

fn component_texts(p: &str) -> Vec<String> {
    paths::components_of(p)
        .iter()
        .map(|c| match c {
            paths::Component::RootDir => "/".to_string(),
            paths::Component::CurDir => ".".to_string(),
            paths::Component::ParentDir => "..".to_string(),
            paths::Component::Normal(s) => format!("n:{s}"),
        })
        .collect()
}

fn std_component_texts(p: &str) -> Vec<String> {
    Path::new(p)
        .components()
        .map(|c| match c {
            Component::RootDir => "/".to_string(),
            Component::CurDir => ".".to_string(),
            Component::ParentDir => "..".to_string(),
            Component::Normal(s) => format!("n:{}", s.to_str().unwrap()),
            Component::Prefix(_) => unreachable!(),
        })
        .collect()
}

#[test]
fn parts_agree_with_std() {
    for p in PATHS {
        let std_path = Path::new(p);
        assert_eq!(component_texts(p), std_component_texts(p), "components of {p:?}");
        assert_eq!(paths::parent_of(p).as_deref(), std_path.parent().map(|q| q.to_str().unwrap()), "parent of {p:?}");
        assert_eq!(paths::file_name_of(p).as_deref(), std_path.file_name().map(|q| q.to_str().unwrap()), "file name of {p:?}");
        assert_eq!(paths::extension_of(p).as_deref(), std_path.extension().map(|q| q.to_str().unwrap()), "extension of {p:?}");
        assert_eq!(paths::file_stem_of(p).as_deref(), std_path.file_stem().map(|q| q.to_str().unwrap()), "stem of {p:?}");
        assert_eq!(paths::has_root(p), std_path.is_absolute(), "root of {p:?}");
    }
}

#[test]
fn pairs_agree_with_std() {
    for p in PATHS {
        let std_path = Path::new(p);
        for q in PATHS {
            assert_eq!(paths::join(p, q), std_path.join(q).to_str().unwrap(), "{p:?} joined with {q:?}");
            assert_eq!(paths::starts_with(p, q), std_path.starts_with(q), "{p:?} starts with {q:?}");
            assert_eq!(paths::paths_equal(p, q), std_path == Path::new(q), "{p:?} equals {q:?}");
            assert_eq!(
                paths::strip_prefix(p, q).as_deref(),
                std_path.strip_prefix(q).ok().map(|r| r.to_str().unwrap()),
                "{p:?} without {q:?}"
            );
        }
        for name in ["x", "x.gz", "copyright", ".y", "a/b"] {
            assert_eq!(paths::replace_file_name(p, name), std_path.with_file_name(name).to_str().unwrap(), "{p:?} with name {name:?}");
        }
        for ext in ["", "gz", "conf"] {
            assert_eq!(paths::replace_extension(p, ext), std_path.with_extension(ext).to_str().unwrap(), "{p:?} with extension {ext:?}");
        }
    }
}

#[test]
fn parts_of_joined_paths() {
    for p in PATHS {
        for q in PATHS {
            // what is joined has the components of both, unless the second is absolute or begins with a dot
            let starts_with_dot = q == "." || q.starts_with("./");
            if !q.starts_with('/') && !starts_with_dot {
                let mut both = component_texts(p);
                both.extend(component_texts(q));
                assert_eq!(component_texts(&paths::join(p, q)), both, "{p:?} joined with {q:?}");
            }
            // what is taken away can be put back
            if let Some(rest) = paths::strip_prefix(p, q) {
                let mut both = component_texts(q);
                both.extend(component_texts(&rest));
                assert_eq!(component_texts(p), both, "{p:?} without {q:?}");
            }
        }
    }
}
