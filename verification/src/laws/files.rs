//! Which files go into a package, and where they come from.
use crate::arch::debian_triple;
use crate::assets::{law_target_components, normalized_target, within_package, AssetKind, AssetView, IsBuilt, RawAssetOrAutoView, RawAssetView, SourceView, UnresolvedView};
use crate::config::content::{has_auto, raw_assets};
use crate::config::resolve::{conffiles_text, first_same, is_conf_file, is_duplicate, law_first_asset_wins, new_conf_files, resolve_all, targets, trim_slashes, without_duplicates};
use crate::config::{BuildEnvironment, Multiarch, PackageConfig};
use crate::deb::tar_blocks::component_text;
use crate::globs::{entry_asset, entry_assets, entry_target, first_pattern, is_glob_char, is_pattern, path_of, resolved_assets, source_prefix_len, EntryView, MatchesView};
use crate::laws::control::lemma_split_line;
use crate::parse::workspace::CargoMetadataTarget;
use crate::path_parts::law_strip_prefix;
use crate::paths::{components, file_name, is_absolute, parent, path_join, path_starts_with, same_path, strip_path_prefix, with_extension, Comp};
use crate::text::split;
use vstd::prelude::*;

verus! {

// ---------------------------------------------------------------------------
// Files that the manifest names
// ---------------------------------------------------------------------------
/// A file that the manifest names is looked for in the directory of the package; but below
/// `target/release`, or the directory of the profile, it is one that Cargo builds. It keeps the
/// permissions that the manifest gives it.
pub proof fn law_named_file(config: BuildEnvironment, p: PackageConfig, raw: RawAssetView)
    ensures
        ({
            let a = config.explicit_asset(p, raw);
            let is_release = path_starts_with(raw.source_path, "target/release"@);
            let is_profile = config.build_profile.profile_name matches Some(name)
                && path_starts_with(raw.source_path, "target/"@ + name@);
            &&& a.c.chmod == raw.chmod
            &&& a.c.is_built == IsBuilt::No <==> !is_release && !is_profile
            &&& !is_release && !is_profile ==> a.source_path == path_join(
                config.package_manifest_dir@,
                raw.source_path,
            ) && a.c.asset_kind == AssetKind::Any
            &&& is_release ==> exists|rel: Seq<char>|
                {
                    &&& components(raw.source_path) == components("target/release"@) + components(
                        rel,
                    )
                    &&& a.source_path == #[trigger] config.build_path(rel)
                    &&& a.c.asset_kind == AssetKind::CargoExampleBinary <==> path_starts_with(
                        rel,
                        "examples"@,
                    )
                }
            &&& p.multiarch == Multiarch::Unsupported ==> a.c.target_path == raw.target_path
            &&& !path_starts_with(raw.target_path, "usr/lib"@) ==> a.c.target_path
                == raw.target_path
        }),
{
    let src = raw.source_path;
    if path_starts_with(src, "target/release"@) {
        law_strip_prefix(src, "target/release"@);
        let rel = strip_path_prefix(src, "target/release"@)->0;
        assert(config.explicit_asset(p, raw).source_path == config.build_path(rel));
    }
    if let Some(name) = config.build_profile.profile_name {
        if path_starts_with(src, "target/"@ + name@) {
            law_strip_prefix(src, "target/"@ + name@);
        }
    }
}

/// Files are built in the directory of the profile below the target directory: `debug` for `dev`, and
/// `release` if none is named.
pub proof fn law_build_directory(config: BuildEnvironment, rel: Seq<char>)
    ensures
        config.build_profile.profile_name is None ==> config.build_path(rel) == path_join(
            path_join(config.target_dir@, "release"@),
            rel,
        ),
        config.build_profile.profile_name matches Some(name) ==> config.build_path(rel) == path_join(
            path_join(
                config.target_dir@,
                if name@ == "dev"@ {
                    "debug"@
                } else {
                    name@
                },
            ),
            rel,
        ),
{
    reveal_strlit("release");
    reveal_strlit("dev");
    assert("release"@.len() != "dev"@.len());
}

/// Every entry of the manifest is looked up, in its order.
pub proof fn law_named_files(list: Seq<RawAssetOrAutoView>, e: RawAssetOrAutoView)
    ensures
        raw_assets(Seq::empty()) == Seq::<RawAssetView>::empty(),
        raw_assets(list.push(e)) == match e {
            RawAssetOrAutoView::RawAsset(a) => raw_assets(list).push(a),
            RawAssetOrAutoView::Auto => raw_assets(list),
        },
        has_auto(list) <==> exists|i: int| 0 <= i < list.len() && #[trigger] list[i] is Auto,
{
    assert(list.push(e).drop_last() =~= list);
    if has_auto(list) {
        let i = choose|i: int| 0 <= i < list.len() && list[i] == RawAssetOrAutoView::Auto;
        assert(list[i] is Auto);
    }
    if exists|i: int| 0 <= i < list.len() && #[trigger] list[i] is Auto {
        let i = choose|i: int| 0 <= i < list.len() && #[trigger] list[i] is Auto;
        assert(list[i] == RawAssetOrAutoView::Auto);
    }
}

// ---------------------------------------------------------------------------
// Files that need not be named
// ---------------------------------------------------------------------------
/// The file is the executable of the build target, where users find it.
pub open spec fn is_executable_of(
    config: BuildEnvironment,
    a: AssetView,
    name: Seq<char>,
) -> bool {
    &&& a.source == SourceView::Path(config.build_path(name))
    &&& a.c.target_path == normalized_target(
        path_join("usr/bin"@, name),
        Some(config.build_path(name)),
    )
    &&& a.c.chmod == Some(0o755u32)
    &&& a.c.is_built != IsBuilt::No
}

/// The file is the dynamic library of the build target, where the linker finds it.
pub open spec fn is_library_of(
    config: BuildEnvironment,
    p: PackageConfig,
    a: AssetView,
    name: Seq<char>,
) -> bool {
    let file = "lib"@ + name + ".so"@;
    &&& a.source == SourceView::Path(config.build_path(file))
    &&& a.c.target_path == normalized_target(
        path_join(p.lib_dir(config.triple()), file),
        Some(config.build_path(file)),
    )
    &&& a.c.chmod == Some(0o644u32)
    &&& a.c.is_built != IsBuilt::No
}

/// Every executable and every dynamic library that Cargo builds is packaged, and the readme; nothing
/// else is. Without executables and libraries there is no package. `at` are the build targets of the
/// files.
pub proof fn law_files_that_need_no_name(config: BuildEnvironment, p: PackageConfig) -> (at: Seq<
    int,
>)
    ensures
        config.auto_assets(p) matches Ok(assets) ==> {
            &&& at.len() > 0
            &&& assets.len() == at.len() + (if p.readme_rel_path is Some {
                1int
            } else {
                0
            })
            &&& forall|k: int|
                0 <= k < at.len() ==> 0 <= #[trigger] at[k] < config.build_targets@.len() && {
                    let t = config.build_targets@[at[k]];
                    if t.kind.deep_view().contains("bin"@) && t.crate_types.deep_view().contains(
                        "bin"@,
                    ) {
                        is_executable_of(config, assets[k], t.name@)
                    } else {
                        is_library_of(config, p, assets[k], t.name@)
                    }
                }
            &&& p.readme_rel_path matches Some(readme) ==> {
                let path = path_join(config.package_manifest_dir@, readme@);
                &&& assets.last().source == SourceView::Path(path)
                &&& assets.last().c.chmod == Some(0o644u32)
                &&& file_name(path) is Some
                &&& assets.last().c.target_path == normalized_target(
                    path_join(path_join("usr/share/doc"@, p.deb_name@), file_name(path)->0),
                    Some(path),
                )
            }
        },
        forall|i: int|
            0 <= i < config.build_targets@.len() ==> (at.contains(i) <==> {
                let t = #[trigger] config.build_targets@[i];
                ||| t.kind.deep_view().contains("bin"@) && t.crate_types.deep_view().contains("bin"@)
                ||| t.kind.deep_view().contains("cdylib"@) && t.crate_types.deep_view().contains(
                    "cdylib"@,
                )
            }),
        at.len() == 0 ==> config.auto_assets(p) is Err,
        at.len() > 0 && (p.readme_rel_path matches Some(readme) ==> file_name(
            path_join(config.package_manifest_dir@, readme@),
        ) is Some) ==> config.auto_assets(p) is Ok,
{
    let at = lemma_implied(config, p, config.build_targets@);
    at
}

proof fn lemma_implied(
    config: BuildEnvironment,
    p: PackageConfig,
    ts: Seq<CargoMetadataTarget>,
) -> (at: Seq<int>)
    ensures
        at.len() == config.implied_assets(p, ts).len(),
        forall|k: int|
            0 <= k < at.len() ==> 0 <= #[trigger] at[k] < ts.len() && {
                let t = ts[at[k]];
                if t.kind.deep_view().contains("bin"@) && t.crate_types.deep_view().contains("bin"@) {
                    is_executable_of(config, config.implied_assets(p, ts)[k], t.name@)
                } else {
                    is_library_of(config, p, config.implied_assets(p, ts)[k], t.name@)
                }
            },
        forall|i: int|
            0 <= i < ts.len() ==> (at.contains(i) <==> {
                let t = #[trigger] ts[i];
                ||| t.kind.deep_view().contains("bin"@) && t.crate_types.deep_view().contains("bin"@)
                ||| t.kind.deep_view().contains("cdylib"@) && t.crate_types.deep_view().contains(
                    "cdylib"@,
                )
            }),
    decreases ts.len(),
{
    if ts.len() == 0 {
        Seq::empty()
    } else {
        let before = lemma_implied(config, p, ts.drop_last());
        let t = ts.last();
        let n = ts.len() - 1;
        let all = config.implied_assets(p, ts);
        let r = if config.implied_asset(p, t) is Some {
            before.push(n)
        } else {
            before
        };
        assert forall|k: int| 0 <= k < r.len() implies 0 <= #[trigger] r[k] < ts.len() && {
            let t = ts[r[k]];
            if t.kind.deep_view().contains("bin"@) && t.crate_types.deep_view().contains("bin"@) {
                is_executable_of(config, all[k], t.name@)
            } else {
                is_library_of(config, p, all[k], t.name@)
            }
        } by {
            if k < before.len() {
                assert(before[k] == r[k]);
                assert(ts.drop_last()[r[k]] == ts[r[k]]);
            }
        }
        assert forall|i: int| 0 <= i < ts.len() implies (r.contains(i) <==> {
            let t = #[trigger] ts[i];
            ||| t.kind.deep_view().contains("bin"@) && t.crate_types.deep_view().contains("bin"@)
            ||| t.kind.deep_view().contains("cdylib"@) && t.crate_types.deep_view().contains(
                "cdylib"@,
            )
        }) by {
            if i < n {
                assert(ts.drop_last()[i] == ts[i]);
                if before.contains(i) {
                    let k = choose|k: int| 0 <= k < before.len() && before[k] == i;
                    assert(r[k] == i);
                }
                if r.contains(i) {
                    let k = choose|k: int| 0 <= k < r.len() && r[k] == i;
                    assert(before[k] == i);
                }
            } else {
                if config.implied_asset(p, t) is Some {
                    assert(r[r.len() - 1] == n);
                } else if r.contains(n) {
                    let k = choose|k: int| 0 <= k < r.len() && r[k] == n;
                    assert(before[k] < n);
                }
            }
        }
        r
    }
}

// ---------------------------------------------------------------------------
// Files that match a pattern
// ---------------------------------------------------------------------------
/// The asset is a match: the file there (or the link itself, if links are kept, or it leads nowhere),
/// installed at the target of the pattern.
pub open spec fn is_match(
    a: AssetView,
    u: UnresolvedView,
    preserve_symlinks: bool,
    e: EntryView,
) -> bool {
    match e {
        EntryView::Found { path, is_dir, exists, is_symlink, .. } => {
            &&& !is_dir
            &&& a.source == if is_symlink && (preserve_symlinks || !exists) {
                SourceView::Manifested(path)
            } else {
                SourceView::Path(path)
            }
            &&& a.c.target_path == normalized_target(
                entry_target(u, path),
                Some(path),
            )
            &&& a.c.is_built == u.c.is_built
            &&& a.c.asset_kind == u.c.asset_kind
        },
        EntryView::Failed(_) => false,
    }
}

proof fn lemma_matches(u: UnresolvedView, preserve: bool, es: Seq<EntryView>) -> (at: Seq<int>)
    requires
        entry_assets(u, preserve, es) is Ok,
    ensures
        at.len() == entry_assets(u, preserve, es)->Ok_0.len(),
        forall|k: int|
            0 <= k < at.len() ==> 0 <= #[trigger] at[k] < es.len() && is_match(
                entry_assets(u, preserve, es)->Ok_0[k],
                u,
                preserve,
                es[at[k]],
            ),
        forall|j: int, k: int| 0 <= j < k < at.len() ==> #[trigger] at[j] < #[trigger] at[k],
        forall|i: int|
            0 <= i < es.len() ==> ((#[trigger] es[i]) matches EntryView::Found { is_dir, .. } && (
            !is_dir ==> at.contains(i))),
    decreases es.len(),
{
    if es.len() == 0 {
        Seq::empty()
    } else {
        let t = es.drop_last();
        let before = lemma_matches(u, preserve, t);
        let n = es.len() - 1;
        let all = entry_assets(u, preserve, es)->Ok_0;
        let r = if entry_asset(u, preserve, es.last())->Ok_0 is Some {
            before.push(n)
        } else {
            before
        };
        assert forall|k: int| 0 <= k < r.len() implies 0 <= #[trigger] r[k] < es.len() && is_match(
            all[k],
            u,
            preserve,
            es[r[k]],
        ) by {
            if k < before.len() {
                assert(before[k] == r[k]);
                assert(t[r[k]] == es[r[k]]);
            }
        }
        assert forall|j: int, k: int| 0 <= j < k < r.len() implies #[trigger] r[j] < #[trigger] r[k] by {
            assert(before[j] == r[j]);
            if k < before.len() {
                assert(before[k] == r[k]);
            }
        }
        assert forall|i: int| 0 <= i < es.len() implies ((
        #[trigger] es[i]) matches EntryView::Found { is_dir, .. } && (!is_dir ==> r.contains(i))) by {
            if i < n {
                assert(t[i] == es[i]);
                if before.contains(i) {
                    let k = choose|k: int| 0 <= k < before.len() && before[k] == i;
                    assert(r[k] == i);
                }
            } else if r.len() > before.len() {
                assert(r[r.len() - 1] == n);
            }
        }
        r
    }
}

/// The match is a file, or a link.
pub open spec fn is_file(e: EntryView) -> bool {
    e matches EntryView::Found { is_dir, .. } && !is_dir
}

/// The match can be read, and its permissions are known if they are needed.
pub open spec fn is_readable(u: UnresolvedView, e: EntryView) -> bool {
    e matches EntryView::Found { is_dir, mode, .. } && (is_dir || u.c.chmod is Some || mode is Mode)
}

proof fn lemma_readable(u: UnresolvedView, preserve: bool, es: Seq<EntryView>)
    requires
        forall|i: int| 0 <= i < es.len() ==> is_readable(u, #[trigger] es[i]),
    ensures
        entry_assets(u, preserve, es) is Ok,
    decreases es.len(),
{
    if es.len() > 0 {
        let t = es.drop_last();
        assert forall|i: int| 0 <= i < t.len() implies is_readable(u, #[trigger] t[i]) by {
            assert(t[i] == es[i]);
        }
        lemma_readable(u, preserve, t);
        assert(is_readable(u, es[es.len() - 1]));
    }
}

/// A path or pattern stands for all files that match it, in their order, each once; directories among
/// the matches are left out. That no file matches is an error, and so is any match that cannot be
/// read. `at` are the matches that the files are.
pub proof fn law_matches(u: UnresolvedView, preserve: bool, found: MatchesView) -> (at: Seq<int>)
    ensures
        resolved_assets(u, preserve, found) matches Ok(assets) ==> found is Matches && {
            let es = found->Matches_0;
            &&& at.len() == assets.len() && assets.len() > 0
            &&& forall|k: int|
                0 <= k < at.len() ==> 0 <= #[trigger] at[k] < es.len() && is_match(
                    assets[k],
                    u,
                    preserve,
                    es[at[k]],
                )
            &&& forall|j: int, k: int| 0 <= j < k < at.len() ==> #[trigger] at[j] < #[trigger] at[k]
            &&& forall|i: int|
                0 <= i < es.len() ==> ((#[trigger] es[i]) matches EntryView::Found { is_dir, .. } && (
                !is_dir ==> at.contains(i)))
        },
        found is BadPattern ==> resolved_assets(u, preserve, found) is Err,
        (found matches MatchesView::Matches(es) && exists|i: int|
            0 <= i < es.len() && #[trigger] es[i] is Failed) ==> resolved_assets(u, preserve, found)
            is Err,
        (found matches MatchesView::Matches(es) && (forall|i: int|
            0 <= i < es.len() ==> is_readable(u, #[trigger] es[i])) && exists|i: int|
            0 <= i < es.len() && #[trigger] is_file(es[i])) ==> resolved_assets(u, preserve, found)
            is Ok,
{
    if found is Matches {
        let es = found->Matches_0;
        if (forall|i: int| 0 <= i < es.len() ==> is_readable(u, #[trigger] es[i])) && exists|i: int|
            0 <= i < es.len() && #[trigger] is_file(es[i]) {
            lemma_readable(u, preserve, es);
            let at = lemma_matches(u, preserve, es);
            let i = choose|i: int| 0 <= i < es.len() && #[trigger] is_file(es[i]);
            assert(es[i] is Found);
            assert(at.contains(i));
        }
    }
    if resolved_assets(u, preserve, found) is Ok {
        lemma_matches(u, preserve, found->Matches_0)
    } else {
        Seq::empty()
    }
}

/// Without a pattern the target is where the file goes. Behind a pattern in its last part only, what
/// matches goes into the target directory under its own name.
pub proof fn law_where_matches_go(u: UnresolvedView, path: Seq<char>, n: int)
    ensures
        source_prefix_len(u.source_path) is None ==> entry_target(u, path) == u.c.target_path,
        source_prefix_len(u.source_path) == Some(n) && 0 <= n <= components(path).len()
            ==> entry_target(u, path) == path_join(
            u.c.target_path,
            path_of(components(path).skip(n)),
        ),
        source_prefix_len(u.source_path) is None <==> !(u.source_path.contains('*')
            || u.source_path.contains('[') || u.source_path.contains(']')
            || u.source_path.contains('!')),
{
    let s = u.source_path;
    if is_pattern(s) {
        let i = choose|i: int|
            0 <= i < s.len() && #[trigger] is_glob_char(s[i]);
        assert(s.contains(s[i]));
    }
    if s.contains('*') {
        let i = choose|i: int| 0 <= i < s.len() && s[i] == '*';
        assert(is_glob_char(s[i]));
    }
    if s.contains('[') {
        let i = choose|i: int| 0 <= i < s.len() && s[i] == '[';
        assert(is_glob_char(s[i]));
    }
    if s.contains(']') {
        let i = choose|i: int| 0 <= i < s.len() && s[i] == ']';
        assert(is_glob_char(s[i]));
    }
    if s.contains('!') {
        let i = choose|i: int| 0 <= i < s.len() && s[i] == '!';
        assert(is_glob_char(s[i]));
    }
}

/// The file name of a pattern is where the pattern is: every match goes into the target directory under
/// its own name.
pub proof fn law_pattern_in_name(u: UnresolvedView, path: Seq<char>)
    requires
        file_name(u.source_path) is Some,
        is_pattern(file_name(u.source_path)->0),
        is_pattern(u.source_path),
        parent(u.source_path) is Some,
        forall|k: int|
            0 <= k < components(parent(u.source_path)->0).len() ==> !is_pattern(
                component_text(#[trigger] components(parent(u.source_path)->0)[k]),
            ),
        components(path).len() == components(u.source_path).len(),
        file_name(path) is Some,
        u.c.target_path.len() > 0,
    ensures
        components(normalized_target(entry_target(u, path), Some(path))) == within_package(
            u.c.target_path,
        ).push(Comp::Normal(file_name(path)->0)),
{
    let dir = components(parent(u.source_path)->0);
    lemma_first_pattern(dir, dir.len() as int);
    let n = components(u.source_path).len() as int;
    assert(source_prefix_len(u.source_path) == Some(n));
    assert(components(path).skip(n) =~= Seq::<Comp>::empty());
    let target = u.c.target_path;
    let t = entry_target(u, path);
    assert(t == path_join(target, Seq::empty()));
    assert(t =~= if target.last() == '/' {
        target
    } else {
        target.push('/')
    });
    assert(t.last() == '/');
    law_target_components(t, Some(path));
    crate::paths::lemma_components_slash(target);
    assert(is_absolute(t) == is_absolute(target));
    assert(components(t) == components(target));
}

/// The pattern is in the directory too: the match keeps its path from there on.
pub proof fn law_pattern_in_directory(u: UnresolvedView, path: Seq<char>, i: int)
    requires
        file_name(u.source_path) is Some,
        is_pattern(file_name(u.source_path)->0),
        is_pattern(u.source_path),
        parent(u.source_path) is Some,
        0 <= i < components(parent(u.source_path)->0).len(),
        is_pattern(component_text(components(parent(u.source_path)->0)[i])),
        forall|k: int|
            0 <= k < i ==> !is_pattern(
                component_text(#[trigger] components(parent(u.source_path)->0)[k]),
            ),
        i <= components(path).len(),
    ensures
        entry_target(u, path) == path_join(u.c.target_path, path_of(components(path).skip(i))),
{
    lemma_first_pattern(components(parent(u.source_path)->0), i);
}

/// The pattern is only in the directory: of the match, what is behind as many components as lead to the
/// file name of the pattern.
pub proof fn law_pattern_before_name(u: UnresolvedView, path: Seq<char>)
    requires
        file_name(u.source_path) is Some,
        !is_pattern(file_name(u.source_path)->0),
        is_pattern(u.source_path),
        components(u.source_path).len() <= components(path).len() + 1,
    ensures
        entry_target(u, path) == path_join(
            u.c.target_path,
            path_of(components(path).skip(components(u.source_path).len() - 1)),
        ),
{
    crate::paths::law_file_name_component(u.source_path);
}

proof fn lemma_first_pattern(comps: Seq<Comp>, i: int)
    requires
        0 <= i <= comps.len(),
        i < comps.len() ==> is_pattern(component_text(comps[i])),
        forall|k: int| 0 <= k < i ==> !is_pattern(component_text(#[trigger] comps[k])),
    ensures
        first_pattern(comps) == i,
    decreases comps.len(),
{
    if comps.len() > 0 {
        let t = comps.drop_last();
        assert forall|k: int| 0 <= k < t.len() && k < i implies !is_pattern(
            component_text(#[trigger] t[k]),
        ) by {
            assert(t[k] == comps[k]);
        }
        if i < comps.len() {
            lemma_first_pattern(
                t,
                if i < t.len() {
                    i
                } else {
                    t.len() as int
                },
            );
        } else {
            lemma_first_pattern(t, t.len() as int);
            assert(!is_pattern(component_text(comps[comps.len() - 1])));
        }
    }
}

/// A path is made of its components by joining them.
pub proof fn law_path_of(comps: Seq<Comp>, name: Seq<char>)
    ensures
        path_of(Seq::empty()) == Seq::<char>::empty(),
        path_of(comps.push(Comp::Normal(name))) == path_join(path_of(comps), name),
{
    assert(comps.push(Comp::Normal(name)).drop_last() =~= comps);
}

/// A file for the library directory of a multiarch package goes into that of the machine, unless it is
/// already there.
pub proof fn law_multiarch_target(config: BuildEnvironment, p: PackageConfig, raw: RawAssetView)
    requires
        p.multiarch != Multiarch::Unsupported,
        path_starts_with(raw.target_path, "usr/lib"@),
    ensures
        ({
            let own = "usr/lib/"@ + debian_triple(config.triple());
            let a = config.explicit_asset(p, raw);
            if path_starts_with(raw.target_path, own) {
                a.c.target_path == raw.target_path
            } else {
                exists|rest: Seq<char>|
                    {
                        &&& components(raw.target_path) == components("usr/lib"@) + components(rest)
                        &&& a.c.target_path == #[trigger] path_join(own, rest)
                    }
            }
        }),
{
    law_strip_prefix(raw.target_path, "usr/lib"@);
    let rest = strip_path_prefix(raw.target_path, "usr/lib"@)->0;
    let own = "usr/lib/"@ + debian_triple(config.triple());
    if !path_starts_with(raw.target_path, own) {
        assert(config.explicit_asset(p, raw).c.target_path == path_join(own, rest));
    }
}

/// A file that Cargo builds is one of this package if a build target of the package has its name and
/// kind; else it is one of another package of the workspace.
pub proof fn law_built_where(config: BuildEnvironment, p: PackageConfig, raw: RawAssetView)
    requires
        path_starts_with(raw.source_path, "target/release"@),
    ensures
        ({
            let a = config.explicit_asset(p, raw);
            let name = file_name(strip_path_prefix(raw.source_path, "target/release"@)->0)->0;
            let kind = if a.c.asset_kind == AssetKind::CargoExampleBinary {
                "example"@
            } else {
                "bin"@
            };
            a.c.is_built == if exists|i: int|
                0 <= i < config.build_targets@.len() && (#[trigger] config.build_targets@[i]).name@
                    == name && config.build_targets@[i].kind.deep_view().contains(kind)
                    && path_starts_with(
                    config.build_targets@[i].src_path@,
                    config.package_manifest_dir@,
                ) {
                IsBuilt::SamePackage
            } else {
                IsBuilt::Workspace
            }
        }),
{
    let name = file_name(strip_path_prefix(raw.source_path, "target/release"@)->0)->0;
    law_strip_prefix(raw.source_path, "target/release"@);
    let a = config.explicit_asset(p, raw);
    let kind = if a.c.asset_kind == AssetKind::CargoExampleBinary {
        "example"@
    } else {
        "bin"@
    };
    if config.package_builds(name, kind) {
        let i = choose|i: int|
            0 <= i < config.build_targets.len() && (#[trigger] config.build_targets@[i]).name@ == name
                && config.build_targets@[i].kind.deep_view().contains(kind) && config.built_by(
                config.build_targets@[i],
            ) == IsBuilt::SamePackage;
        assert(path_starts_with(
            config.build_targets@[i].src_path@,
            config.package_manifest_dir@,
        ));
    }
    if exists|i: int|
        0 <= i < config.build_targets@.len() && (#[trigger] config.build_targets@[i]).name@ == name
            && config.build_targets@[i].kind.deep_view().contains(kind) && path_starts_with(
            config.build_targets@[i].src_path@,
            config.package_manifest_dir@,
        ) {
        let i = choose|i: int|
            0 <= i < config.build_targets@.len() && (#[trigger] config.build_targets@[i]).name@
                == name && config.build_targets@[i].kind.deep_view().contains(kind)
                && path_starts_with(
                config.build_targets@[i].src_path@,
                config.package_manifest_dir@,
            );
        assert(config.built_by(config.build_targets@[i]) == IsBuilt::SamePackage);
    }
}

/// The package is written to the given path, or into it if it is a directory; without one, into the
/// `debian` directory of the build. Symbols in a package of their own go beside it.
pub proof fn law_output_path(config: BuildEnvironment, p: PackageConfig, is_dir: bool)
    ensures
        ({
            let name = p.deb_name@ + "_"@ + p.deb_version@ + "_"@ + p.architecture@ + (
            if p.is_split_dbgsym_package {
                ".ddeb"@
            } else {
                ".deb"@
            });
            let r = config.output_path(p, is_dir);
            &&& config.deb_output_path is None ==> r == path_join(
                path_join(config.target_dir@, "debian"@),
                name,
            )
            &&& config.deb_output_path matches Some(path) ==> {
                &&& is_dir || (path@.len() > 0 && path@.last() == '/') ==> r == path_join(path@, name)
                &&& !is_dir && !(path@.len() > 0 && path@.last() == '/')
                    && !p.is_split_dbgsym_package ==> r == path@
                &&& !is_dir && !(path@.len() > 0 && path@.last() == '/') && p.is_split_dbgsym_package
                    ==> r == with_extension(path@, "ddeb"@)
            }
        }),
{
    reveal_strlit("/");
    if let Some(path) = config.deb_output_path {
        if path@.len() > 0 {
            let end = path@.skip(path@.len() - 1);
            assert(end[0] == path@.last());
            if path@.last() == '/' {
                assert(end =~= "/"@);
            }
        }
    }
}

/// All entries are resolved, one after the other, unless one of them cannot be.
pub proof fn law_all_entries(
    us: Seq<UnresolvedView>,
    found: Seq<MatchesView>,
    u: UnresolvedView,
    m: MatchesView,
    preserve: bool,
    cwd: Seq<char>,
)
    requires
        us.len() == found.len(),
    ensures
        resolve_all(Seq::empty(), Seq::empty(), preserve, cwd).0.len() == 0,
        resolve_all(Seq::empty(), Seq::empty(), preserve, cwd).1 is None,
        resolve_all(us, found, preserve, cwd).1 is None ==> {
            let next = resolve_all(us.push(u), found.push(m), preserve, cwd);
            match resolved_assets(u, preserve, m) {
                Ok(more) => next.1 is None && next.0 == resolve_all(us, found, preserve, cwd).0
                    + more,
                Err(_) => next.1 is Some,
            }
        },
        resolve_all(us, found, preserve, cwd).1 is Some ==> resolve_all(
            us.push(u),
            found.push(m),
            preserve,
            cwd,
        ).1 is Some,
{
    assert(us.push(u).drop_last() =~= us);
    assert(found.push(m).drop_last() =~= found);
}

// ---------------------------------------------------------------------------
// Files for the same place
// ---------------------------------------------------------------------------
proof fn lemma_first_same(paths: Seq<Seq<char>>, i: int, j: int)
    requires
        0 <= j <= i < paths.len(),
    ensures
        j <= first_same(paths, i, j) <= i,
        first_same(paths, i, j) < i <==> exists|k: int|
            j <= k < i && same_path(#[trigger] paths[k], paths[i]),
    decreases i - j,
{
    if j < i {
        if same_path(paths[j], paths[i]) {
        } else {
            lemma_first_same(paths, i, j + 1);
            if exists|k: int| j <= k < i && same_path(#[trigger] paths[k], paths[i]) {
                let k = choose|k: int| j <= k < i && same_path(#[trigger] paths[k], paths[i]);
                assert(k != j);
            }
        }
    }
}

/// Of several files for the same place the first one is packaged, and every other file is.
pub proof fn law_one_file_for_a_place(assets: Seq<AssetView>)
    ensures
        forall|i: int|
            0 <= i < assets.len() && (forall|k: int|
                0 <= k < i ==> !same_path(
                    (#[trigger] assets[k]).c.target_path,
                    assets[i].c.target_path,
                )) ==> without_duplicates(assets).contains(#[trigger] assets[i]),
        forall|i: int, j: int|
            0 <= i < j < without_duplicates(assets).len() ==> !same_path(
                (#[trigger] without_duplicates(assets)[i]).c.target_path,
                (#[trigger] without_duplicates(assets)[j]).c.target_path,
            ),
        forall|i: int|
            0 <= i < without_duplicates(assets).len() ==> assets.contains(
                #[trigger] without_duplicates(assets)[i],
            ),
{
    law_first_asset_wins(assets);
    let paths = targets(assets);
    let r = without_duplicates(assets);
    assert forall|i: int|
        0 <= i < assets.len() && (forall|k: int|
            0 <= k < i ==> !same_path(
                (#[trigger] assets[k]).c.target_path,
                assets[i].c.target_path,
            )) implies r.contains(#[trigger] assets[i]) by {
        lemma_first_same(paths, i, 0);
        if is_duplicate(paths, i) {
            let k = choose|k: int| 0 <= k < i && same_path(#[trigger] paths[k], paths[i]);
            assert(assets[k].c.target_path == paths[k]);
        }
    }
    assert forall|i: int, j: int| 0 <= i < j < r.len() implies !same_path(
        (#[trigger] r[i]).c.target_path,
        (#[trigger] r[j]).c.target_path,
    ) by {
        assert(targets(r)[i] == r[i].c.target_path);
        assert(targets(r)[j] == r[j].c.target_path);
    }
    assert forall|i: int| 0 <= i < r.len() implies assets.contains(#[trigger] r[i]) by {
        assert(r.contains(r[i]));
    }
}

// ---------------------------------------------------------------------------
// Configuration files
// ---------------------------------------------------------------------------
/// The configuration files that are added are exactly the files below `etc` which are not listed yet,
/// in their order.
pub proof fn law_conf_files(paths: Seq<Seq<char>>, conf_files: Seq<Seq<char>>, path: Seq<char>)
    ensures
        new_conf_files(Seq::empty(), conf_files) == Seq::<Seq<char>>::empty(),
        new_conf_files(paths.push(path), conf_files) == if path_starts_with(path, "etc"@) && !(
        exists|i: int|
            0 <= i < conf_files.len() && same_but_slashes(#[trigger] conf_files[i], path)) {
            new_conf_files(paths, conf_files).push(seq!['/'] + path)
        } else {
            new_conf_files(paths, conf_files)
        },
{
    reveal_strlit("/");
    assert("/"@ =~= seq!['/']);
    assert(paths.push(path).drop_last() =~= paths);
    assert forall|f: Seq<char>| #[trigger] trim_slashes(f) == path <==> same_but_slashes(f, path) by {
        lemma_trim_slashes(f, path);
    }
    if is_conf_file(conf_files, path) {
        let i = choose|i: int|
            0 <= i < conf_files.len() && trim_slashes(#[trigger] conf_files[i]) == path;
        assert(same_but_slashes(conf_files[i], path));
    }
    if exists|i: int| 0 <= i < conf_files.len() && same_but_slashes(#[trigger] conf_files[i], path) {
        let i = choose|i: int|
            0 <= i < conf_files.len() && same_but_slashes(#[trigger] conf_files[i], path);
        assert(trim_slashes(conf_files[i]) == path);
    }
}

/// The file is the path behind slashes, and the path does not begin with one.
pub open spec fn same_but_slashes(file: Seq<char>, path: Seq<char>) -> bool {
    &&& path.len() <= file.len()
    &&& file.skip(file.len() - path.len()) == path
    &&& forall|k: int| 0 <= k < file.len() - path.len() ==> #[trigger] file[k] == '/'
    &&& path.len() > 0 ==> path[0] != '/'
}

proof fn lemma_trim_slashes(f: Seq<char>, path: Seq<char>)
    ensures
        trim_slashes(f) == path <==> same_but_slashes(f, path),
    decreases f.len(),
{
    if f.len() > 0 && f[0] == '/' {
        let t = f.skip(1);
        lemma_trim_slashes(t, path);
        if same_but_slashes(t, path) {
            assert(f.skip(f.len() - path.len()) =~= t.skip(t.len() - path.len()));
            assert forall|k: int| 0 <= k < f.len() - path.len() implies #[trigger] f[k] == '/' by {
                if k > 0 {
                    assert(t[k - 1] == f[k]);
                }
            }
        }
        if same_but_slashes(f, path) {
            if path.len() == f.len() {
                assert(f.skip(0) =~= f);
                assert(false);
            }
            assert(t.skip(t.len() - path.len()) =~= f.skip(f.len() - path.len()));
            assert forall|k: int| 0 <= k < t.len() - path.len() implies #[trigger] t[k] == '/' by {
                assert(f[k + 1] == t[k]);
            }
        }
    } else {
        assert(f.skip(0) =~= f);
        if same_but_slashes(f, path) && path.len() < f.len() {
            assert(f[0] == '/');
        }
    }
}

/// The list of configuration files has one line for each, with an absolute path.
pub proof fn law_conffiles_lines(files: Seq<Seq<char>>)
    requires
        forall|i: int| 0 <= i < files.len() ==> !(#[trigger] files[i]).contains('\n'),
    ensures
        split(conffiles_text(files), '\n').len() == files.len() + 1,
        forall|i: int|
            0 <= i < files.len() ==> is_absolute(#[trigger] split(conffiles_text(files), '\n')[i])
                && split(conffiles_text(files), '\n')[i] == if is_absolute(files[i]) {
                files[i]
            } else {
                seq!['/'] + files[i]
            },
        split(conffiles_text(files), '\n').last() == Seq::<char>::empty(),
    decreases files.len(),
{
    if files.len() == 0 {
        assert(split(conffiles_text(files), '\n') =~= seq![Seq::<char>::empty()]);
    } else {
        let t = files.drop_last();
        let f = files.last();
        assert forall|i: int| 0 <= i < t.len() implies !(#[trigger] t[i]).contains('\n') by {
            assert(files[i] == t[i]);
        }
        law_conffiles_lines(t);
        reveal_strlit("\n");
        let line = if is_absolute(f) {
            f
        } else {
            seq!['/'] + f
        };
        assert(!files[files.len() - 1].contains('\n'));
        assert(!line.contains('\n')) by {
            assert forall|k: int| 0 <= k < line.len() implies line[k] != '\n' by {
                if is_absolute(f) {
                    assert(f.contains(f[k]));
                } else if k > 0 {
                    assert(f.contains(f[k - 1]));
                }
            }
        }
        assert(conffiles_text(files) =~= conffiles_text(t) + line.push('\n'));
        lemma_split_line(conffiles_text(t), line);
        assert forall|i: int| 0 <= i < files.len() implies is_absolute(
            #[trigger] split(conffiles_text(files), '\n')[i],
        ) && split(conffiles_text(files), '\n')[i] == if is_absolute(files[i]) {
            files[i]
        } else {
            seq!['/'] + files[i]
        } by {
            if i < t.len() {
                assert(is_absolute(split(conffiles_text(t), '\n')[i]));
            }
        }
    }
}

} // verus!
