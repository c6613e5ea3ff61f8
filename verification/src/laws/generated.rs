//! Files that are made for a package, and files of services.
use crate::arch::debian_triple;
use crate::assets::{normalized_target, AssetView, IsBuilt, ReadResult, SourceView, UnresolvedView};
use crate::compress::gz_stream;
use crate::config::control::TextResult;
use crate::config::generated::{all_units_added, chosen_units, is_bin_path, mixture, multiarch_messages, paths_of, units_added, units_dir, FoundUnitsView};
use crate::config::{BuildEnvironment, Multiarch, PackageConfig};
use crate::parse::manifest::SystemdUnitsConfig;
use crate::paths::{extension, path_join, path_starts_with, same_path};
use vstd::prelude::*;
use vstd::utf8::encode_utf8;

verus! {

/// Where the documentation of the package goes.
pub open spec fn documentation(p: PackageConfig, name: Seq<char>) -> Seq<char> {
    path_join(path_join("usr/share/doc"@, p.deb_name@), name)
}

/// A copyright file is made unless the package has one. It is readable by everyone, and holds the
/// text.
pub proof fn law_copyright_is_added(
    config: BuildEnvironment,
    p: PackageConfig,
    targets: Seq<Seq<char>>,
    license: TextResult,
)
    ensures
        ({
            let added = config.copyright_added(p, targets, license);
            let path = documentation(p, "copyright"@);
            let file = config.copyright_file(p, license);
            let has_one = exists|i: int| 0 <= i < targets.len() && same_path(#[trigger] targets[i], path);
            &&& has_one ==> added.assets.len() == 0 && added.error is None
            &&& !has_one ==> (file is Ok <==> added.error is None) && (file is Ok
                <==> added.assets.len() == 1)
            &&& !has_one && file is Ok ==> {
                &&& added.assets[0].source == SourceView::Data(encode_utf8(file->Ok_0.text))
                &&& added.assets[0].c.target_path == normalized_target(path, None)
                &&& added.assets[0].c.chmod == Some(0o644u32)
                &&& added.assets[0].c.is_built == IsBuilt::No
                &&& added.messages.len() == (if file->Ok_0.incomplete {
                    1int
                } else {
                    0
                })
            }
            &&& p.license_file_rel_path is Some && license is Failed && !has_one ==> added.error
                is Some
        }),
{
}

/// The changelog goes where Debian expects it, compressed unless it already is.
pub proof fn law_changelog_is_added(config: BuildEnvironment, p: PackageConfig, read: ReadResult)
    ensures
        p.changelog is None ==> config.changelog_assets(p, read).len() == 0,
        p.changelog matches Some(c) ==> {
            let added = config.changelog_assets(p, read);
            let path = path_join(config.package_manifest_dir@, c@);
            &&& added.len() == 1
            &&& added[0].c.target_path == normalized_target(
                documentation(p, "changelog.Debian.gz"@),
                None,
            )
            &&& added[0].c.chmod == Some(0o644u32)
            &&& added[0].c.is_built == IsBuilt::No
            &&& extension(path) == Some("gz"@) ==> added[0].source == SourceView::Data(
                read.content()->0,
            )
            &&& extension(path) != Some("gz"@) ==> added[0].source == SourceView::Data(
                gz_stream(9, seq![Some(read.content()->0)]),
            )
        },
{
}

/// Every file that is found for services is installed where it belongs, with its permissions. A link is
/// kept as one if links are kept, or if it leads nowhere.
pub proof fn law_unit_files(p: PackageConfig, config: SystemdUnitsConfig, found: FoundUnitsView, k: int)
    requires
        0 <= k < chosen_units(p, found).len(),
    ensures
        ({
            let u = chosen_units(p, found)[k];
            let a = units_added(p, config, found).assets[k];
            &&& units_added(p, config, found).assets.len() == chosen_units(p, found).len()
            &&& a.source == if u.is_symlink && (p.preserve_symlinks || !u.exists) {
                SourceView::Manifested(u.source)
            } else {
                SourceView::Path(u.source)
            }
            &&& a.c.target_path == normalized_target(u.recipe.path, Some(u.source))
            &&& a.c.chmod == Some(u.recipe.mode)
            &&& a.c.is_built == IsBuilt::No
        }),
{
}

/// Files for services are those for the name of the package; those for the name of the crate only if
/// there are no others.
pub proof fn law_which_units(p: PackageConfig, found: FoundUnitsView)
    ensures
        found.units.len() > 0 ==> chosen_units(p, found) == found.units,
        found.units.len() == 0 && p.deb_name@ == p.cargo_crate_name@ ==> chosen_units(p, found).len()
            == 0,
        chosen_units(p, found) == found.units || chosen_units(p, found) == found.fallback,
        found.units.len() == 0 && p.deb_name@ != p.cargo_crate_name@ && found.fallback.len() > 0
            ==> chosen_units(p, found) == found.fallback,
{
}

/// Each entry of the manifest on services adds its files behind those of the others.
pub proof fn law_all_units(
    p: PackageConfig,
    configs: Seq<SystemdUnitsConfig>,
    found: Seq<FoundUnitsView>,
    config: SystemdUnitsConfig,
    more: FoundUnitsView,
)
    requires
        configs.len() == found.len(),
    ensures
        all_units_added(p, Seq::empty(), Seq::empty()).assets.len() == 0,
        all_units_added(p, configs.push(config), found.push(more)).assets == all_units_added(
            p,
            configs,
            found,
        ).assets + units_added(p, config, more).assets,
        all_units_added(p, configs, found).error is None,
{
    assert(configs.push(config).drop_last() =~= configs);
    assert(found.push(more).drop_last() =~= found);
}

/// Files for services are looked for in the directory of their entry, else in that of the maintainer
/// scripts, else in `systemd`.
pub proof fn law_units_directory(p: PackageConfig, config: SystemdUnitsConfig)
    ensures
        config.unit_scripts matches Some(dir) ==> units_dir(p, config) == dir@,
        config.unit_scripts is None && p.maintainer_scripts_rel_path is Some ==> units_dir(p, config)
            == p.maintainer_scripts_rel_path->0@,
        config.unit_scripts is None && p.maintainer_scripts_rel_path is None ==> units_dir(p, config)
            == "systemd"@,
{
}

/// All paths of a package: those of its files, then those of its entries that stand for files.
pub proof fn law_paths_of(resolved: Seq<AssetView>, unresolved: Seq<UnresolvedView>)
    ensures
        paths_of(resolved, unresolved).len() == resolved.len() + unresolved.len(),
        forall|i: int|
            0 <= i < resolved.len() ==> #[trigger] paths_of(resolved, unresolved)[i]
                == resolved[i].c.target_path,
        forall|i: int|
            0 <= i < unresolved.len() ==> paths_of(resolved, unresolved)[resolved.len() + i] == (
            #[trigger] unresolved[i]).c.target_path,
{
}

proof fn lemma_mixture(paths: Seq<Seq<char>>, lib_dir: Seq<char>)
    ensures
        mixture(paths, lib_dir).bin is Some <==> exists|i: int|
            0 <= i < paths.len() && is_bin_path(#[trigger] paths[i]),
        mixture(paths, lib_dir).lib is Some ==> exists|i: int|
            0 <= i < paths.len() && path_starts_with(#[trigger] paths[i], lib_dir),
        (exists|i: int|
            0 <= i < paths.len() && path_starts_with(#[trigger] paths[i], lib_dir) && !is_bin_path(
                paths[i],
            )) ==> mixture(paths, lib_dir).lib is Some,
    decreases paths.len(),
{
    if paths.len() > 0 {
        let t = paths.drop_last();
        let n = paths.len() - 1;
        lemma_mixture(t, lib_dir);
        assert(paths[n] == paths.last());
        assert(forall|i: int| 0 <= i < n ==> t[i] == paths[i]);
        if exists|i: int| 0 <= i < t.len() && is_bin_path(#[trigger] t[i]) {
            let i = choose|i: int| 0 <= i < t.len() && is_bin_path(#[trigger] t[i]);
            assert(is_bin_path(paths[i]));
        }
        if exists|i: int| 0 <= i < paths.len() && is_bin_path(#[trigger] paths[i]) {
            let i = choose|i: int| 0 <= i < paths.len() && is_bin_path(#[trigger] paths[i]);
            if i < n {
                assert(is_bin_path(t[i]));
            }
        }
        if exists|i: int| 0 <= i < t.len() && path_starts_with(#[trigger] t[i], lib_dir) {
            let i = choose|i: int| 0 <= i < t.len() && path_starts_with(#[trigger] t[i], lib_dir);
            assert(path_starts_with(paths[i], lib_dir));
        }
        if exists|i: int|
            0 <= i < paths.len() && path_starts_with(#[trigger] paths[i], lib_dir) && !is_bin_path(
                paths[i],
            ) {
            let i = choose|i: int|
                0 <= i < paths.len() && path_starts_with(#[trigger] paths[i], lib_dir)
                    && !is_bin_path(paths[i]);
            if i < n {
                assert(path_starts_with(t[i], lib_dir));
            }
        }
    }
}

/// A multiarch package with libraries and programs is warned of, and no other one.
pub proof fn law_mixed_package(p: PackageConfig, paths: Seq<Seq<char>>, triple: Seq<char>)
    ensures
        ({
            let said = multiarch_messages(p, paths, triple);
            let lib_dir = "usr/lib/"@ + debian_triple(triple);
            let has_bin = exists|i: int|
                0 <= i < paths.len() && (path_starts_with(#[trigger] paths[i], "bin"@)
                    || path_starts_with(paths[i], "usr/bin"@) || path_starts_with(
                    paths[i],
                    "usr/sbin"@,
                ));
            let has_lib = exists|i: int|
                0 <= i < paths.len() && path_starts_with(#[trigger] paths[i], lib_dir)
                    && !path_starts_with(paths[i], "bin"@) && !path_starts_with(
                    paths[i],
                    "usr/bin"@,
                ) && !path_starts_with(paths[i], "usr/sbin"@);
            &&& p.multiarch == Multiarch::Unsupported ==> said.len() == 0
            &&& p.multiarch != Multiarch::Unsupported && has_bin && has_lib ==> said.len() == 1
            &&& !has_bin ==> said.len() == 0
            &&& said.len() > 0 ==> exists|i: int|
                0 <= i < paths.len() && path_starts_with(#[trigger] paths[i], lib_dir)
        }),
{
    let lib_dir = "usr/lib/"@ + debian_triple(triple);
    lemma_mixture(paths, lib_dir);
    if exists|i: int| 0 <= i < paths.len() && is_bin_path(#[trigger] paths[i]) {
        let i = choose|i: int| 0 <= i < paths.len() && is_bin_path(#[trigger] paths[i]);
        assert(path_starts_with(paths[i], "bin"@) || path_starts_with(paths[i], "usr/bin"@)
            || path_starts_with(paths[i], "usr/sbin"@));
    }
    if exists|i: int|
        0 <= i < paths.len() && (path_starts_with(#[trigger] paths[i], "bin"@) || path_starts_with(
            paths[i],
            "usr/bin"@,
        ) || path_starts_with(paths[i], "usr/sbin"@)) {
        let i = choose|i: int|
            0 <= i < paths.len() && (path_starts_with(#[trigger] paths[i], "bin"@)
                || path_starts_with(paths[i], "usr/bin"@) || path_starts_with(
                paths[i],
                "usr/sbin"@,
            ));
        assert(is_bin_path(paths[i]));
    }
    if exists|i: int|
        0 <= i < paths.len() && path_starts_with(#[trigger] paths[i], lib_dir) && !path_starts_with(
            paths[i],
            "bin"@,
        ) && !path_starts_with(paths[i], "usr/bin"@) && !path_starts_with(paths[i], "usr/sbin"@) {
        let i = choose|i: int|
            0 <= i < paths.len() && path_starts_with(#[trigger] paths[i], lib_dir)
                && !path_starts_with(paths[i], "bin"@) && !path_starts_with(paths[i], "usr/bin"@)
                && !path_starts_with(paths[i], "usr/sbin"@);
        assert(!is_bin_path(paths[i]));
    }
}

} // verus!
