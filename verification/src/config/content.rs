//! The files of a package, before they are looked up.
use crate::assets::{knows_target, new_asset, processed_asset, target_is_known, Asset, AssetKind, AssetSource, AssetView, Assets, CommonView, IsBuilt, RawAsset, RawAssetOrAuto, RawAssetOrAutoView, RawAssetView, SourceView, UnresolvedAsset, UnresolvedView, DLL_PREFIX, DLL_SUFFIX};
use crate::config::{BuildEnvironment, Multiarch, PackageConfig};
use crate::error::{CDResult, CargoDebError, ErrorView};
use crate::listener::{warn, Message, MessageView};
use crate::parse::workspace::{contains_string, CargoMetadataTarget};
use crate::paths::{file_name, file_name_of, join, path_join, path_starts_with, starts_with, strip_path_prefix, strip_prefix};
use crate::text::{cat, cat3, contains_text, has_prefix, has_text, same};
use vstd::prelude::*;

verus! {

// ---------------------------------------------------------------------------
// Which files Cargo builds
// ---------------------------------------------------------------------------
impl BuildEnvironment {
    /// Something that Cargo builds belongs to the package if its source is in the directory of the
    /// package.
    pub open spec fn built_by(self, t: CargoMetadataTarget) -> IsBuilt {
        if path_starts_with(t.src_path@, self.package_manifest_dir@) {
            IsBuilt::SamePackage
        } else {
            IsBuilt::Workspace
        }
    }

    pub fn is_built_file_in_package(&self, build_target: &CargoMetadataTarget) -> (r: IsBuilt)
        ensures
            r == self.built_by(*build_target),
    {
        if starts_with(build_target.src_path.as_str(), self.package_manifest_dir.as_str()) {
            IsBuilt::SamePackage
        } else {
            IsBuilt::Workspace
        }
    }

    /// Whether the package has something of the name and the kind to build.
    pub open spec fn package_builds(self, name: Seq<char>, kind: Seq<char>) -> bool {
        exists|i: int|
            0 <= i < self.build_targets.len() && (#[trigger] self.build_targets@[i]).name@ == name
                && self.build_targets@[i].kind.deep_view().contains(kind) && self.built_by(
                self.build_targets@[i],
            ) == IsBuilt::SamePackage
    }

    pub fn find_is_built_file_in_package(&self, rel_path: &str, expected_kind: &str) -> (r: IsBuilt)
        requires
            file_name(rel_path@) is Some,
        ensures
            r == if self.package_builds(file_name(rel_path@)->0, expected_kind@) {
                IsBuilt::SamePackage
            } else {
                IsBuilt::Workspace
            },
    {
        let name = match file_name_of(rel_path) {
            Some(n) => n,
            None => String::new(),
        };
        let mut i: usize = 0;
        while i < self.build_targets.len()
            invariant
                i <= self.build_targets.len(),
                file_name(rel_path@) == Some(name@),
                forall|k: int|
                    0 <= k < i ==> !((#[trigger] self.build_targets@[k]).name@ == name@
                        && self.build_targets@[k].kind.deep_view().contains(expected_kind@)
                        && self.built_by(self.build_targets@[k]) == IsBuilt::SamePackage),
            decreases self.build_targets.len() - i,
        {
            let t = &self.build_targets[i];
            if same(t.name.as_str(), name.as_str()) && contains_string(&t.kind, expected_kind)
                && self.is_built_file_in_package(t) == IsBuilt::SamePackage {
                assert(self.build_targets@[i as int].name@ == name@);
                return IsBuilt::SamePackage;
            }
            i += 1;
        }
        IsBuilt::Workspace
    }
}

// ---------------------------------------------------------------------------
// Files that the manifest names
// ---------------------------------------------------------------------------
impl BuildEnvironment {
    /// The path within the directory of what Cargo builds: `target/release` is treated as a magic
    /// prefix that resolves to any profile.
    pub open spec fn artifact_path(self, source: Seq<char>) -> Option<Seq<char>> {
        match strip_path_prefix(source, "target/release"@) {
            Some(rel) => Some(rel),
            None => match self.build_profile.profile_name {
                Some(profile) => strip_path_prefix(source, "target/"@ + profile@),
                None => None,
            },
        }
    }

    fn artifact_path_of(&self, source: &str) -> (r: Option<String>)
        ensures
            r.deep_view() == self.artifact_path(source@),
    {
        match strip_prefix(source, "target/release") {
            Some(rel) => Some(rel),
            None => match &self.build_profile.profile_name {
                Some(profile) => {
                    let dir = cat("target/", profile.as_str());
                    strip_prefix(source, dir.as_str())
                },
                None => None,
            },
        }
    }

    /// Where a file goes: libraries of a multiarch package go to the directory for its architecture.
    pub open spec fn explicit_target(self, p: PackageConfig, target: Seq<char>) -> Seq<char> {
        let lib_dir = p.lib_dir(self.triple());
        match strip_path_prefix(target, "usr/lib"@) {
            Some(name) => if p.multiarch != Multiarch::Unsupported && !path_starts_with(
                target,
                lib_dir,
            ) {
                path_join(lib_dir, name)
            } else {
                target
            },
            None => target,
        }
    }

    fn explicit_target_of(&self, package_deb: &PackageConfig, target: String) -> (r: String)
        ensures
            r@ == self.explicit_target(*package_deb, target@),
    {
        if package_deb.multiarch != Multiarch::Unsupported {
            if let Some(lib_file_name) = strip_prefix(target.as_str(), "usr/lib") {
                let lib_dir = package_deb.library_install_dir(self.rust_target_triple());
                if !starts_with(target.as_str(), lib_dir.as_str()) {
                    return join(lib_dir.as_str(), lib_file_name.as_str());
                }
            }
        }
        target
    }

    /// The files that an entry of the manifest names.
    pub open spec fn explicit_asset(self, p: PackageConfig, raw: RawAssetView) -> UnresolvedView {
        let rel = self.artifact_path(raw.source_path);
        let is_example = rel is Some && path_starts_with(rel->0, "examples"@);
        UnresolvedView {
            source_path: match rel {
                Some(rel) => self.build_path(rel),
                None => path_join(self.package_manifest_dir@, raw.source_path),
            },
            c: CommonView {
                target_path: self.explicit_target(p, raw.target_path),
                chmod: raw.chmod,
                asset_kind: if is_example {
                    AssetKind::CargoExampleBinary
                } else {
                    AssetKind::Any
                },
                is_built: match rel {
                    Some(rel) => if self.package_builds(
                        file_name(rel)->0,
                        if is_example {
                            "example"@
                        } else {
                            "bin"@
                        },
                    ) {
                        IsBuilt::SamePackage
                    } else {
                        IsBuilt::Workspace
                    },
                    None => IsBuilt::No,
                },
            },
        }
    }

    /// What is said of an entry whose source looks as if Cargo builds it, but will not be built.
    pub open spec fn explicit_warning(self, raw: RawAssetView) -> Seq<MessageView> {
        let s = raw.source_path;
        if self.artifact_path(s) is None && (has_prefix(s, "/"@) || has_prefix(s, "."@))
            && contains_text(s, "/target/"@) {
            seq![
                MessageView::Warning(
                    "Only source paths starting with exactly 'target/release/' are detected as Cargo target dir. '"@
                        + s + "' does not match the pattern, and will not be built"@,
                ),
            ]
        } else {
            Seq::empty()
        }
    }

    /// What Cargo is to build has a name.
    pub open spec fn has_built_name(self, raw: RawAssetView) -> bool {
        self.artifact_path(raw.source_path) matches Some(rel) ==> file_name(rel) is Some
    }

    fn explicit_asset_of(
        &self,
        package_deb: &PackageConfig,
        raw: RawAsset,
        log: &mut Vec<Message>,
    ) -> (r: UnresolvedAsset)
        requires
            self.has_built_name(raw.deep_view()),
        ensures
            r.deep_view() == self.explicit_asset(*package_deb, raw.deep_view()),
            final(log).deep_view() == old(log).deep_view() + self.explicit_warning(raw.deep_view()),
    {
        let ghost view = raw.deep_view();
        let ghost before = log.deep_view();
        assert(before + Seq::<MessageView>::empty() =~= before);
        let target_path = self.explicit_target_of(package_deb, raw.target_path);
        match self.artifact_path_of(raw.source_path.as_str()) {
            Some(rel_path) => {
                let is_example = starts_with(rel_path.as_str(), "examples");
                let kind = if is_example {
                    "example"
                } else {
                    "bin"
                };
                let is_built = self.find_is_built_file_in_package(rel_path.as_str(), kind);
                UnresolvedAsset::new(
                    self.path_in_build(rel_path.as_str()),
                    target_path,
                    raw.chmod,
                    is_built,
                    if is_example {
                        AssetKind::CargoExampleBinary
                    } else {
                        AssetKind::Any
                    },
                )
            },
            None => {
                let s = raw.source_path.as_str();
                if (crate::text::starts_with(s, "/") || crate::text::starts_with(s, ".")) && has_text(
                    s,
                    "/target/",
                ) {
                    warn(
                        log,
                        cat3(
                            "Only source paths starting with exactly 'target/release/' are detected as Cargo target dir. '",
                            s,
                            "' does not match the pattern, and will not be built",
                        ),
                    );
                    assert(log.deep_view() == before + self.explicit_warning(view));
                }
                UnresolvedAsset::new(
                    self.path_in_package(s),
                    target_path,
                    raw.chmod,
                    IsBuilt::No,
                    AssetKind::Any,
                )
            },
        }
    }
}

/// The entries that name files.
pub open spec fn raw_assets(list: Seq<RawAssetOrAutoView>) -> Seq<RawAssetView>
    decreases list.len(),
{
    if list.len() == 0 {
        Seq::empty()
    } else {
        match list.last() {
            RawAssetOrAutoView::Auto => raw_assets(list.drop_last()),
            RawAssetOrAutoView::RawAsset(a) => raw_assets(list.drop_last()).push(a),
        }
    }
}

/// Whether an entry asks for the files that need not be named.
pub open spec fn has_auto(list: Seq<RawAssetOrAutoView>) -> bool {
    list.contains(RawAssetOrAutoView::Auto)
}

proof fn lemma_contains_push<A>(s: Seq<A>, x: A, y: A)
    ensures
        s.push(x).contains(y) <==> s.contains(y) || x == y,
{
    let t = s.push(x);
    if s.contains(y) {
        let k = choose|k: int| 0 <= k < s.len() && s[k] == y;
        assert(t[k] == y);
    }
    if x == y {
        assert(t[s.len() as int] == y);
    }
    if t.contains(y) {
        let k = choose|k: int| 0 <= k < t.len() && t[k] == y;
        if k < s.len() {
            assert(s[k] == y);
        }
    }
}

impl BuildEnvironment {
    pub open spec fn explicit_warnings(self, raws: Seq<RawAssetView>) -> Seq<MessageView>
        decreases raws.len(),
    {
        if raws.len() == 0 {
            Seq::empty()
        } else {
            self.explicit_warnings(raws.drop_last()) + self.explicit_warning(raws.last())
        }
    }
}

// ---------------------------------------------------------------------------
// Files that need not be named
// ---------------------------------------------------------------------------
pub open spec fn builds_bin(t: CargoMetadataTarget) -> bool {
    t.crate_types.deep_view().contains("bin"@) && t.kind.deep_view().contains("bin"@)
}

pub open spec fn builds_cdylib(t: CargoMetadataTarget) -> bool {
    t.crate_types.deep_view().contains("cdylib"@) && t.kind.deep_view().contains("cdylib"@)
}

/// The name of the file of a library.
pub open spec fn library_file(name: Seq<char>) -> Seq<char> {
    DLL_PREFIX@ + name + DLL_SUFFIX@
}

impl BuildEnvironment {
    /// The file of something that Cargo builds: binaries and libraries are packaged.
    pub open spec fn implied_asset(self, p: PackageConfig, t: CargoMetadataTarget) -> Option<AssetView> {
        if builds_bin(t) {
            Some(
                processed_asset(
                    new_asset(
                        SourceView::Path(self.build_path(t.name@)),
                        path_join("usr/bin"@, t.name@),
                        Some(0o755),
                        self.built_by(t),
                        AssetKind::Any,
                    ),
                    "$auto"@,
                    Some(t.src_path@),
                ),
            )
        } else if builds_cdylib(t) {
            Some(
                processed_asset(
                    new_asset(
                        SourceView::Path(self.build_path(library_file(t.name@))),
                        path_join(p.lib_dir(self.triple()), library_file(t.name@)),
                        Some(0o644),
                        self.built_by(t),
                        AssetKind::Any,
                    ),
                    "$auto"@,
                    Some(t.src_path@),
                ),
            )
        } else {
            None
        }
    }

    pub open spec fn implied_assets(self, p: PackageConfig, ts: Seq<CargoMetadataTarget>) -> Seq<
        AssetView,
    >
        decreases ts.len(),
    {
        if ts.len() == 0 {
            Seq::empty()
        } else {
            match self.implied_asset(p, ts.last()) {
                Some(a) => self.implied_assets(p, ts.drop_last()).push(a),
                None => self.implied_assets(p, ts.drop_last()),
            }
        }
    }

    /// The names of binaries tell where they go.
    pub open spec fn binaries_have_names(self) -> bool {
        forall|i: int|
            0 <= i < self.build_targets.len() && builds_bin(#[trigger] self.build_targets@[i])
                ==> target_is_known(
                path_join("usr/bin"@, self.build_targets@[i].name@),
                Some(self.build_path(self.build_targets@[i].name@)),
            )
    }

    fn implied_asset_of(&self, package_deb: &PackageConfig, t: &CargoMetadataTarget) -> (r: Option<
        Asset,
    >)
        requires
            builds_bin(*t) ==> target_is_known(
                path_join("usr/bin"@, t.name@),
                Some(self.build_path(t.name@)),
            ),
        ensures
            r.deep_view() == self.implied_asset(*package_deb, *t),
    {
        if contains_string(&t.crate_types, "bin") && contains_string(&t.kind, "bin") {
            Some(
                Asset::new(
                    AssetSource::Path(self.path_in_build(t.name.as_str())),
                    join("usr/bin", t.name.as_str()),
                    Some(0o755),
                    self.is_built_file_in_package(t),
                    AssetKind::Any,
                ).processed("$auto", Some(t.src_path.clone())),
            )
        } else if contains_string(&t.crate_types, "cdylib") && contains_string(&t.kind, "cdylib") {
            let lib_name = cat3(DLL_PREFIX, t.name.as_str(), DLL_SUFFIX);
            let lib_dir = package_deb.library_install_dir(self.rust_target_triple());
            let source = self.path_in_build(lib_name.as_str());
            let target = join(lib_dir.as_str(), lib_name.as_str());
            proof {
                reveal_strlit(".so");
                assert(DLL_SUFFIX@ == ".so"@);
                assert(lib_name@.last() == 'o');
                assert(target@.last() == 'o');
            }
            Some(
                Asset::new(
                    AssetSource::Path(source),
                    target,
                    Some(0o644),
                    self.is_built_file_in_package(t),
                    AssetKind::Any,
                ).processed("$auto", Some(t.src_path.clone())),
            )
        } else {
            None
        }
    }

    /// The README as a file of the package, if there is one.
    pub open spec fn readme_asset(self, p: PackageConfig, readme: Seq<char>) -> Option<AssetView> {
        let path = path_join(self.package_manifest_dir@, readme);
        match file_name(path) {
            Some(name) => Some(
                processed_asset(
                    new_asset(
                        SourceView::Path(path),
                        path_join(path_join("usr/share/doc"@, p.deb_name@), name),
                        Some(0o644),
                        IsBuilt::No,
                        AssetKind::Any,
                    ),
                    "$auto"@,
                    Some(readme),
                ),
            ),
            None => None,
        }
    }

    /// The files that need not be named: what Cargo builds for the package, and the README.
    pub open spec fn auto_assets(self, p: PackageConfig) -> Result<Seq<AssetView>, ErrorView> {
        let implied = self.implied_assets(p, self.build_targets@);
        if implied.len() == 0 {
            Err(ErrorView::BinariesNotFound(p.cargo_crate_name@))
        } else {
            match p.readme_rel_path {
                Some(readme) => match self.readme_asset(p, readme@) {
                    Some(a) => Ok(implied.push(a)),
                    None => Err(ErrorView::Str("bad README path"@)),
                },
                None => Ok(implied),
            }
        }
    }

    pub fn implicit_assets(&self, package_deb: &PackageConfig) -> (r: CDResult<Vec<Asset>>)
        requires
            self.binaries_have_names(),
        ensures
            match self.auto_assets(*package_deb) {
                Ok(assets) => r is Ok && r->Ok_0.deep_view() == assets,
                Err(e) => r is Err && r->Err_0.deep_view() == e,
            },
    {
        let ghost ts = self.build_targets@;
        let mut implied: Vec<Asset> = Vec::new();
        let mut i: usize = 0;
        assert(ts.take(0) =~= Seq::<CargoMetadataTarget>::empty());
        assert(implied.deep_view() =~= Seq::<AssetView>::empty());
        while i < self.build_targets.len()
            invariant
                i <= self.build_targets.len(),
                ts == self.build_targets@,
                self.binaries_have_names(),
                implied.deep_view() == self.implied_assets(*package_deb, ts.take(i as int)),
            decreases self.build_targets.len() - i,
        {
            let ghost before = implied.deep_view();
            proof {
                assert(ts.take(i + 1).drop_last() =~= ts.take(i as int));
                assert(ts.take(i + 1).last() == ts[i as int]);
            }
            if let Some(asset) = self.implied_asset_of(package_deb, &self.build_targets[i]) {
                let ghost a = asset.deep_view();
                implied.push(asset);
                assert(implied.deep_view() =~= before.push(a));
            }
            i += 1;
        }
        assert(ts.take(i as int) =~= ts);
        if implied.len() == 0 {
            return Err(CargoDebError::BinariesNotFound(package_deb.cargo_crate_name.clone()));
        }
        if let Some(readme_rel_path) = &package_deb.readme_rel_path {
            let ghost before = implied.deep_view();
            let path = self.path_in_package(readme_rel_path.as_str());
            let name = match file_name_of(path.as_str()) {
                Some(n) => n,
                None => {
                    return Err(CargoDebError::Str("bad README path"));
                },
            };
            let dir = join("usr/share/doc", package_deb.deb_name.as_str());
            let target_path = join(dir.as_str(), name.as_str());
            let asset = Asset::new(
                AssetSource::Path(path),
                target_path,
                Some(0o644),
                IsBuilt::No,
                AssetKind::Any,
            ).processed("$auto", Some(readme_rel_path.clone()));
            let ghost a = asset.deep_view();
            implied.push(asset);
            assert(implied.deep_view() =~= before.push(a));
        }
        Ok(implied)
    }

    /// What Cargo builds has names, as far as the entries ask for it.
    pub open spec fn assets_have_names(self, assets: Seq<RawAssetOrAutoView>) -> bool {
        &&& forall|i: int|
            0 <= i < assets.len() && (#[trigger] assets[i]) is RawAsset ==> self.has_built_name(
                assets[i]->RawAsset_0,
            )
        &&& has_auto(assets) ==> self.binaries_have_names()
    }

    /// Whether what Cargo builds has names, as far as the entries ask for it.
    pub fn names_are_known(&self, assets: &Vec<RawAssetOrAuto>) -> (r: bool)
        ensures
            r == self.assets_have_names(assets.deep_view()),
    {
        let ghost list = assets.deep_view();
        let mut auto = false;
        let mut i: usize = 0;
        assert(!has_auto(list.take(0)));
        while i < assets.len()
            invariant
                i <= assets.len(),
                list == assets.deep_view(),
                auto == has_auto(list.take(i as int)),
                forall|k: int|
                    0 <= k < i && (#[trigger] list[k]) is RawAsset ==> self.has_built_name(
                        list[k]->RawAsset_0,
                    ),
            decreases assets.len() - i,
        {
            proof {
                assert(list[i as int] == assets[i as int].deep_view());
                assert(list.take(i + 1) =~= list.take(i as int).push(list[i as int]));
                lemma_contains_push(list.take(i as int), list[i as int], RawAssetOrAutoView::Auto);
            }
            match &assets[i] {
                RawAssetOrAuto::Auto => {
                    auto = true;
                },
                RawAssetOrAuto::RawAsset(raw) => {
                    if let Some(rel) = self.artifact_path_of(raw.source_path.as_str()) {
                        if file_name_of(rel.as_str()).is_none() {
                            assert(!self.has_built_name(list[i as int]->RawAsset_0));
                            return false;
                        }
                    }
                },
            }
            i += 1;
        }
        assert(list.take(i as int) =~= list);
        if !auto {
            return true;
        }
        let mut k: usize = 0;
        while k < self.build_targets.len()
            invariant
                k <= self.build_targets.len(),
                has_auto(assets.deep_view()),
                forall|j: int|
                    0 <= j < k && builds_bin(#[trigger] self.build_targets@[j]) ==> target_is_known(
                        path_join("usr/bin"@, self.build_targets@[j].name@),
                        Some(self.build_path(self.build_targets@[j].name@)),
                    ),
            decreases self.build_targets.len() - k,
        {
            let t = &self.build_targets[k];
            if contains_string(&t.crate_types, "bin") && contains_string(&t.kind, "bin") {
                let target = join("usr/bin", t.name.as_str());
                let source = self.path_in_build(t.name.as_str());
                if !knows_target(target.as_str(), Some(&source)) {
                    assert(builds_bin(self.build_targets@[k as int]));
                    return false;
                }
            }
            k += 1;
        }
        true
    }

    /// The files of the package that the manifest names, and those that need not be named if an
    /// entry asks for them.
    pub fn explicit_assets(
        &self,
        package_deb: &PackageConfig,
        assets: Vec<RawAssetOrAuto>,
        log: &mut Vec<Message>,
    ) -> (r: CDResult<Assets>)
        requires
            self.assets_have_names(assets.deep_view()),
        ensures
            final(log).deep_view() == old(log).deep_view() + self.explicit_warnings(
                raw_assets(assets.deep_view()),
            ),
            ({
                let unresolved = raw_assets(assets.deep_view()).map_values(
                    |a: RawAssetView| self.explicit_asset(*package_deb, a),
                );
                if has_auto(assets.deep_view()) {
                    match self.auto_assets(*package_deb) {
                        Ok(auto) => r is Ok && r->Ok_0.unresolved.deep_view() == unresolved
                            && r->Ok_0.resolved.deep_view() == auto,
                        Err(e) => r is Err && r->Err_0.deep_view() == e,
                    }
                } else {
                    r is Ok && r->Ok_0.unresolved.deep_view() == unresolved
                        && r->Ok_0.resolved@.len() == 0
                }
            }),
    {
        let ghost list = assets.deep_view();
        let ghost before = log.deep_view();
        let ghost f = |a: RawAssetView| self.explicit_asset(*package_deb, a);
        let mut auto = false;
        let mut unresolved: Vec<UnresolvedAsset> = Vec::new();
        proof {
            assert(list.take(0) =~= Seq::<RawAssetOrAutoView>::empty());
            assert(unresolved.deep_view() =~= raw_assets(list.take(0)).map_values(f));
            assert(before + Seq::<MessageView>::empty() =~= before);
        }
        for entry in it: assets
            invariant
                it.seq() == assets@,
                list == assets.deep_view(),
                f == |a: RawAssetView| self.explicit_asset(*package_deb, a),
                forall|i: int|
                    0 <= i < list.len() && (#[trigger] list[i]) is RawAsset ==> self.has_built_name(
                        list[i]->RawAsset_0,
                    ),
                auto == has_auto(list.take(it.index())),
                self.assets_have_names(list),
                unresolved.deep_view() == raw_assets(list.take(it.index())).map_values(f),
                log.deep_view() == before + self.explicit_warnings(
                    raw_assets(list.take(it.index())),
                ),
        {
            let ghost i = it.index();
            let ghost so_far = raw_assets(list.take(i));
            let ghost old_unresolved = unresolved.deep_view();
            let ghost old_log = log.deep_view();
            proof {
                assert(list[i] == entry.deep_view());
                assert(list.take(i + 1).drop_last() =~= list.take(i));
                assert(list.take(i + 1).last() == list[i]);
                assert(list.take(i + 1) =~= list.take(i).push(list[i]));
                lemma_contains_push(list.take(i), list[i], RawAssetOrAutoView::Auto);
            }
            match entry {
                RawAssetOrAuto::Auto => {
                    auto = true;
                },
                RawAssetOrAuto::RawAsset(raw) => {
                    let ghost a = raw.deep_view();
                    let asset = self.explicit_asset_of(package_deb, raw, log);
                    unresolved.push(asset);
                    proof {
                        let more = so_far.push(a);
                        assert(more.drop_last() =~= so_far);
                        assert(unresolved.deep_view() =~= old_unresolved.push(f(a)));
                        assert(more.map_values(f) =~= so_far.map_values(f).push(f(a)));
                        assert(log.deep_view() =~= before + self.explicit_warnings(more));
                    }
                },
            }
        }
        assert(list.take(list.len() as int) =~= list);
        let resolved: Vec<Asset> = if auto {
            self.implicit_assets(package_deb)?
        } else {
            Vec::new()
        };
        Ok(Assets::new(unresolved, resolved))
    }
}

} // verus!
