//! Binaries, and the package of their debug symbols.
use crate::assets::{clone_option, Asset, AssetKind, AssetSource, AssetView, Assets, SourceView};
use crate::config::{ExtendedDescription, Multiarch, PackageConfig};
use crate::error::CDResult;
use crate::text::{cat, cat3};
use vstd::prelude::*;
use vstd::string::StringExecFns;

verus! {

// ---------------------------------------------------------------------------
// Binaries
// ---------------------------------------------------------------------------
/// Assumes files which have executable flag set are binaries
pub open spec fn is_binary_file(a: AssetView) -> bool {
    a.c.is_dynamic_library() || a.c.is_executable()
}

/// The sources of the binaries.
pub open spec fn binary_sources(assets: Seq<AssetView>) -> Seq<SourceView>
    decreases assets.len(),
{
    if assets.len() == 0 {
        Seq::empty()
    } else {
        let before = binary_sources(assets.drop_last());
        if is_binary_file(assets.last()) {
            before.push(assets.last().source)
        } else {
            before
        }
    }
}

/// The places of the binaries that Cargo has built.
pub open spec fn built_places(assets: Seq<AssetView>) -> Seq<int>
    decreases assets.len(),
{
    if assets.len() == 0 {
        Seq::empty()
    } else {
        let before = built_places(assets.drop_last());
        if assets.last().c.is_built() && is_binary_file(assets.last()) {
            before.push(assets.len() - 1)
        } else {
            before
        }
    }
}

impl PackageConfig {
    /// Executables AND dynamic libraries. May include symlinks.
    pub fn all_binaries(&self) -> (r: Vec<&AssetSource>)
        ensures
            r.deep_view() == binary_sources(self.assets.resolved.deep_view()),
    {
        let ghost all = self.assets.resolved.deep_view();
        let mut out: Vec<&AssetSource> = Vec::new();
        let mut i: usize = 0;
        assert(all.take(0) =~= Seq::<AssetView>::empty());
        assert(out.deep_view() =~= Seq::<SourceView>::empty());
        while i < self.assets.resolved.len()
            invariant
                i <= self.assets.resolved.len(),
                all == self.assets.resolved.deep_view(),
                out.deep_view() == binary_sources(all.take(i as int)),
            decreases self.assets.resolved.len() - i,
        {
            let ghost before = out.deep_view();
            proof {
                assert(all.take(i + 1).drop_last() =~= all.take(i as int));
                assert(all.take(i + 1).last() == self.assets.resolved[i as int].deep_view());
            }
            let asset = &self.assets.resolved[i];
            if asset.c.is_dynamic_library() || asset.c.is_executable() {
                out.push(&asset.source);
                assert(out.deep_view() =~= before.push(asset.source.deep_view()));
            }
            i += 1;
        }
        assert(all.take(i as int) =~= all);
        out
    }

    /// The places of executables AND dynamic libraries, but only in `target/release`
    pub fn built_binaries(&self) -> (r: Vec<usize>)
        ensures
            r@.map_values(|i: usize| i as int) == built_places(self.assets.resolved.deep_view()),
    {
        let ghost all = self.assets.resolved.deep_view();
        let mut out: Vec<usize> = Vec::new();
        let mut i: usize = 0;
        assert(all.take(0) =~= Seq::<AssetView>::empty());
        assert(out@.map_values(|i: usize| i as int) =~= Seq::<int>::empty());
        while i < self.assets.resolved.len()
            invariant
                i <= self.assets.resolved.len(),
                all == self.assets.resolved.deep_view(),
                out@.map_values(|i: usize| i as int) == built_places(all.take(i as int)),
            decreases self.assets.resolved.len() - i,
        {
            let ghost before = out@;
            proof {
                assert(all.take(i + 1).drop_last() =~= all.take(i as int));
                assert(all.take(i + 1).last() == self.assets.resolved[i as int].deep_view());
            }
            let asset = &self.assets.resolved[i];
            if asset.c.is_built() && (asset.c.is_dynamic_library() || asset.c.is_executable()) {
                out.push(i);
                assert(out@.map_values(|i: usize| i as int) =~= before.map_values(
                    |i: usize| i as int,
                ).push(i as int));
            }
            i += 1;
        }
        assert(all.take(i as int) =~= all);
        out
    }
}

// ---------------------------------------------------------------------------
// Debug symbols
// ---------------------------------------------------------------------------
pub open spec fn is_debug_file(a: AssetView) -> bool {
    a.c.asset_kind == AssetKind::SeparateDebugSymbols
}

pub open spec fn debug_files(assets: Seq<AssetView>) -> Seq<AssetView> {
    assets.filter(|a: AssetView| is_debug_file(a))
}

pub open spec fn regular_files(assets: Seq<AssetView>) -> Seq<AssetView> {
    assets.filter(|a: AssetView| !is_debug_file(a))
}

/// The package of the debug symbols of another one.
pub open spec fn is_dbgsym_package(d: PackageConfig, p: PackageConfig, debug: Seq<AssetView>) -> bool {
    &&& d.cargo_crate_name@ == p.cargo_crate_name@
    &&& d.deb_name@ == p.deb_name@ + "-dbgsym"@
    &&& d.deb_version@ == p.deb_version@
    &&& d.license_identifier.deep_view() == p.license_identifier.deep_view()
    &&& d.license_file_rel_path is None
    &&& d.license_file_skip_lines == 0
    &&& d.copyright is None
    &&& d.changelog is None
    &&& d.homepage.deep_view() == p.homepage.deep_view()
    &&& d.documentation.deep_view() == p.documentation.deep_view()
    &&& d.repository.deep_view() == p.repository.deep_view()
    &&& d.description@ == "Debug symbols for "@ + p.deb_name@ + " v"@ + p.deb_version@ + " ("@
        + p.architecture@ + ")"@
    &&& d.extended_description is Absent
    &&& d.maintainer.deep_view() == p.maintainer.deep_view()
    &&& d.wildcard_depends@ == Seq::<char>::empty()
    &&& d.resolved_depends.deep_view() == Some(
        p.deb_name@ + " (= "@ + p.deb_version@ + ")"@,
    )
    &&& d.pre_depends is None
    &&& d.recommends is None
    &&& d.suggests is None
    &&& d.enhances is None
    &&& d.section.deep_view() == Some("debug"@)
    &&& d.priority@ == "extra"@
    &&& d.conflicts is None
    &&& d.breaks is None
    &&& d.replaces is None
    &&& d.provides is None
    &&& d.architecture@ == p.architecture@
    &&& d.multiarch == if p.multiarch == Multiarch::Unsupported {
        Multiarch::Unsupported
    } else {
        Multiarch::Same
    }
    &&& d.conf_files@.len() == 0
    &&& d.assets.unresolved@.len() == 0
    &&& d.assets.resolved.deep_view() == debug
    &&& d.readme_rel_path is None
    &&& d.triggers_file_rel_path is None
    &&& d.maintainer_scripts_rel_path is None
    &&& d.preserve_symlinks == p.preserve_symlinks
    &&& d.systemd_units is None
    &&& d.default_timestamp == p.default_timestamp
    &&& d.is_split_dbgsym_package
}

fn partition(assets: Vec<Asset>) -> (r: (Vec<Asset>, Vec<Asset>))
    ensures
        r.0.deep_view() == debug_files(assets.deep_view()),
        r.1.deep_view() == regular_files(assets.deep_view()),
{
    let ghost all = assets.deep_view();
    let mut debug: Vec<Asset> = Vec::new();
    let mut regular: Vec<Asset> = Vec::new();
    proof {
        reveal(Seq::filter);
        assert(all.take(0) =~= Seq::<AssetView>::empty());
        assert(debug.deep_view() =~= Seq::<AssetView>::empty());
        assert(regular.deep_view() =~= Seq::<AssetView>::empty());
    }
    for asset in it: assets
        invariant
            it.seq() == assets@,
            all == assets.deep_view(),
            debug.deep_view() == debug_files(all.take(it.index())),
            regular.deep_view() == regular_files(all.take(it.index())),
    {
        let ghost i = it.index();
        let ghost a = asset.deep_view();
        let ghost d = debug.deep_view();
        let ghost r = regular.deep_view();
        proof {
            reveal(Seq::filter);
            assert(all[i] == a);
            assert(all.take(i + 1).drop_last() =~= all.take(i));
            assert(all.take(i + 1).last() == a);
        }
        if asset.c.asset_kind == AssetKind::SeparateDebugSymbols {
            debug.push(asset);
            assert(debug.deep_view() =~= d.push(a));
        } else {
            regular.push(asset);
            assert(regular.deep_view() =~= r.push(a));
        }
    }
    assert(all.take(all.len() as int) =~= all);
    (debug, regular)
}

impl PackageConfig {
    /// Takes the files of debug symbols out of the package, into one of their own, if there are any.
    pub fn split_dbgsym(&mut self) -> (r: CDResult<Option<Self>>)
        requires
            old(self).assets.unresolved.len() == 0,
        ensures
            r is Ok,
            *final(self) == (PackageConfig { assets: final(self).assets, ..*old(self) }),
            final(self).assets.unresolved == old(self).assets.unresolved,
            final(self).assets.resolved.deep_view() == regular_files(
                old(self).assets.resolved.deep_view(),
            ),
            ({
                let debug = debug_files(old(self).assets.resolved.deep_view());
                &&& r->Ok_0 is Some <==> debug.len() > 0
                &&& r->Ok_0 is Some ==> is_dbgsym_package(r->Ok_0->0, *old(self), debug)
            }),
    {
        let mut assets: Vec<Asset> = Vec::new();
        std::mem::swap(&mut assets, &mut self.assets.resolved);
        let (debug_assets, regular) = partition(assets);
        self.assets.resolved = regular;
        if debug_assets.len() == 0 {
            return Ok(None);
        }
        let mut description = cat3("Debug symbols for ", self.deb_name.as_str(), " v");
        description.append(self.deb_version.as_str());
        description.append(" (");
        description.append(self.architecture.as_str());
        description.append(")");
        let mut depends = cat3(self.deb_name.as_str(), " (= ", self.deb_version.as_str());
        depends.append(")");
        let multiarch = if self.multiarch != Multiarch::Unsupported {
            Multiarch::Same
        } else {
            Multiarch::Unsupported
        };
        let nothing = String::new();
        assert(nothing@ =~= Seq::<char>::empty());
        Ok(
            Some(
                PackageConfig {
                    cargo_crate_name: self.cargo_crate_name.clone(),
                    deb_name: cat(self.deb_name.as_str(), "-dbgsym"),
                    deb_version: self.deb_version.clone(),
                    license_identifier: clone_option(&self.license_identifier),
                    license_file_rel_path: None,
                    license_file_skip_lines: 0,
                    copyright: None,
                    changelog: None,
                    homepage: clone_option(&self.homepage),
                    documentation: clone_option(&self.documentation),
                    repository: clone_option(&self.repository),
                    description,
                    extended_description: ExtendedDescription::Absent,
                    maintainer: clone_option(&self.maintainer),
                    wildcard_depends: nothing,
                    resolved_depends: Some(depends),
                    pre_depends: None,
                    recommends: None,
                    suggests: None,
                    enhances: None,
                    section: Some("debug".to_owned()),
                    priority: "extra".to_owned(),
                    conflicts: None,
                    breaks: None,
                    replaces: None,
                    provides: None,
                    architecture: self.architecture.clone(),
                    multiarch,
                    conf_files: Vec::new(),
                    assets: Assets::new(Vec::new(), debug_assets),
                    readme_rel_path: None,
                    triggers_file_rel_path: None,
                    maintainer_scripts_rel_path: None,
                    preserve_symlinks: self.preserve_symlinks,
                    systemd_units: None,
                    default_timestamp: self.default_timestamp,
                    is_split_dbgsym_package: true,
                },
            ),
        )
    }
}

/// Every file goes to exactly one of the two packages, as often as it was there.
pub proof fn law_split_keeps_files(assets: Seq<AssetView>)
    ensures
        debug_files(assets).to_multiset().add(regular_files(assets).to_multiset())
            == assets.to_multiset(),
        forall|i: int| 0 <= i < debug_files(assets).len() ==> is_debug_file(#[trigger] debug_files(assets)[i]),
        forall|i: int|
            0 <= i < regular_files(assets).len() ==> !is_debug_file(#[trigger] regular_files(assets)[i]),
    decreases assets.len(),
{
    broadcast use vstd::seq_lib::group_to_multiset_ensures;

    reveal(Seq::filter);
    if assets.len() > 0 {
        let t = assets.drop_last();
        law_split_keeps_files(t);
        assert(assets =~= t.push(assets.last()));
    }
    assert(debug_files(assets).to_multiset().add(regular_files(assets).to_multiset())
        =~= assets.to_multiset());
}

} // verus!
