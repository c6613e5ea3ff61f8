//! What is asked of Cargo.
use crate::arch::{debian_triple, debian_triple_from_rust_triple};
use crate::assets::{is_dynamic_library_filename, is_library_name, source_path, AssetCommon, AssetKind, AssetView, CommonView, IsBuilt, UnresolvedAsset, UnresolvedView};
use crate::config::{BuildEnvironment, PackageConfig};
use crate::flag_if;
use crate::globs::{is_glob_pattern, is_pattern};
use crate::parse::manifest::{cargo_var, cargo_var_name};
use crate::parse::workspace::contains_string;
use crate::paths::{file_name, file_name_of};
use crate::text::{cat, cat3, has_prefix, join, join_strings, same, split, split_char};
use vstd::prelude::*;
use vstd::string::StringExecFns;

verus! {

/// A file with the path it is built at.
pub struct Product {
    pub c: CommonView,
    pub source: Option<Seq<char>>,
}

/// What Cargo is to build.
#[derive(Debug)]
pub struct Selection {
    pub bins: Vec<String>,
    pub examples: Vec<String>,
    pub libs: bool,
    pub same_package: bool,
}

pub struct SelectionView {
    pub bins: Seq<Seq<char>>,
    pub examples: Seq<Seq<char>>,
    pub libs: bool,
    pub same_package: bool,
}

impl DeepView for Selection {
    type V = SelectionView;

    open spec fn deep_view(&self) -> SelectionView {
        SelectionView {
            bins: self.bins.deep_view(),
            examples: self.examples.deep_view(),
            libs: self.libs,
            same_package: self.same_package,
        }
    }
}

/// A library, by where it is built or where it goes.
pub open spec fn is_lib(p: Product) -> bool {
    p.c.is_dynamic_library() || (p.source matches Some(s) && is_library_name(s))
}

/// An executable that is built under a name.
pub open spec fn is_bin(p: Product) -> bool {
    !is_lib(p) && p.c.is_executable() && p.source is Some
}

/// What Cargo is to build, with one more file.
pub open spec fn select(s: SelectionView, p: Product) -> SelectionView {
    if !p.c.is_built() {
        s
    } else {
        let name = file_name(p.source->0)->0;
        let example = p.c.asset_kind == AssetKind::CargoExampleBinary;
        SelectionView {
            bins: if is_bin(p) && !example {
                s.bins.push(name)
            } else {
                s.bins
            },
            examples: if is_bin(p) && example {
                s.examples.push(name)
            } else {
                s.examples
            },
            libs: s.libs || is_lib(p),
            same_package: s.same_package && p.c.is_built == IsBuilt::SamePackage,
        }
    }
}

/// What Cargo is to build for the files.
pub open spec fn select_all(ps: Seq<Product>) -> SelectionView
    decreases ps.len(),
{
    if ps.len() == 0 {
        SelectionView {
            bins: Seq::empty(),
            examples: Seq::empty(),
            libs: false,
            same_package: true,
        }
    } else {
        select(select_all(ps.drop_last()), ps.last())
    }
}

pub open spec fn resolved_product(a: AssetView) -> Product {
    Product { c: a.c, source: source_path(a.source) }
}

pub open spec fn unresolved_product(a: UnresolvedView) -> Product {
    Product { c: a.c, source: Some(a.source_path) }
}

pub open spec fn products(p: PackageConfig) -> Seq<Product> {
    p.assets.resolved.deep_view().map_values(|a: AssetView| resolved_product(a))
        + p.assets.unresolved.deep_view().map_values(|a: UnresolvedView| unresolved_product(a))
}

/// The arguments that select what is built.
pub open spec fn selection_flags(s: SelectionView) -> Seq<Seq<char>> {
    flag_if(!s.same_package, "--workspace"@) + s.bins.map_values(
        |n: Seq<char>| "--bin="@ + n,
    ) + s.examples.map_values(|n: Seq<char>| "--example="@ + n) + flag_if(s.libs, "--lib"@)
}

/// Whether one of the files that are built is given by a pattern.
pub open spec fn builds_pattern(us: Seq<UnresolvedView>) -> bool {
    exists|i: int|
        0 <= i < us.len() && (#[trigger] us[i]).c.is_built() && is_pattern(us[i].source_path)
}

/// Whether the arguments say that everything is built.
pub open spec fn builds_workspace(flags: Seq<Seq<char>>) -> bool {
    flags.contains("--workspace"@) || flags.contains("--all"@)
}

/// Whether everything is built: the arguments say so, or a pattern does not tell what is needed.
pub open spec fn builds_everything(p: PackageConfig, flags: Seq<Seq<char>>) -> bool {
    builds_workspace(flags) || builds_pattern(p.assets.unresolved.deep_view())
}

/// Every executable that is built has a name.
pub open spec fn bins_have_names(ps: Seq<Product>) -> bool {
    forall|i: int|
        0 <= i < ps.len() && (#[trigger] ps[i]).c.is_built() && is_bin(ps[i]) ==> file_name(
            ps[i].source->0,
        ) is Some
}

/// A variable for Cargo.
#[derive(Debug)]
pub struct EnvVar {
    pub name: String,
    pub value: String,
}

impl DeepView for EnvVar {
    type V = (Seq<char>, Seq<char>);

    open spec fn deep_view(&self) -> (Seq<char>, Seq<char>) {
        (self.name@, self.value@)
    }
}

/// What is known of `pkg-config` on this machine.
#[derive(Debug, Copy, Clone)]
pub struct PkgConfig {
    /// The variable `PKG_CONFIG_ALLOW_CROSS` is set.
    pub allow_cross_is_set: bool,
    /// The variable `PKG_CONFIG_PATH` is set.
    pub path_is_set: bool,
    /// The directory exists in which libraries of the target say how they are used.
    pub dir_exists: bool,
}

impl PkgConfig {
    /// No variable tells how to find libraries of the target, but the directory that does so exists.
    pub open spec fn helps(self) -> bool {
        !self.allow_cross_is_set && !self.path_is_set && self.dir_exists
    }
}

pub open spec fn pkg_config_dir(triple: Seq<char>) -> Seq<char> {
    "/usr/lib/"@ + debian_triple(triple) + "/pkgconfig"@
}

impl BuildEnvironment {
    /// The variables that override settings of the profile.
    pub open spec fn profile_vars(self) -> Seq<(Seq<char>, Seq<char>)> {
        let name = self.build_profile.name();
        (match self.build_profile.override_debug {
            Some(v) => seq![(cargo_var(name, "DEBUG"@), v@)],
            None => Seq::empty(),
        }) + (match self.build_profile.override_lto {
            Some(v) => seq![(cargo_var(name, "LTO"@), v@)],
            None => Seq::empty(),
        })
    }

    /// The variables that help other builds to find libraries of the target.
    pub open spec fn cross_vars(self, pkg_config: PkgConfig) -> Seq<(Seq<char>, Seq<char>)> {
        match self.rust_target_triple {
            Some(t) => if pkg_config.helps() {
                seq![
                    ("PKG_CONFIG_ALLOW_CROSS"@, "1"@),
                    ("PKG_CONFIG_PATH"@, pkg_config_dir(t@)),
                ]
            } else {
                Seq::empty()
            },
            None => Seq::empty(),
        }
    }

    /// The arguments for the profile, and on what may be looked up.
    pub open spec fn profile_flags(self) -> Seq<Seq<char>> {
        let profile = self.build_profile.name();
        seq![
            if profile == "release"@ {
                "--release"@
            } else {
                "--profile="@ + profile
            },
        ] + self.cargo_locking_flags.texts()
    }

    /// The arguments for the target.
    pub open spec fn target_flags(self) -> Seq<Seq<char>> {
        match self.rust_target_triple {
            Some(t) => seq!["--target"@, t@],
            None => Seq::empty(),
        }
    }

    /// The arguments for the features.
    pub open spec fn feature_flags(self) -> Seq<Seq<char>> {
        (if self.all_features {
            seq!["--all-features"@]
        } else if !self.default_features {
            seq!["--no-default-features"@]
        } else {
            Seq::empty()
        }) + (if self.features@.len() > 0 {
            seq!["--features"@, join(self.features.deep_view(), ","@)]
        } else {
            Seq::empty()
        })
    }

    /// The arguments that do not depend on the files.
    pub open spec fn common_flags(self) -> Seq<Seq<char>> {
        self.profile_flags() + self.target_flags() + self.feature_flags()
    }

    /// The arguments that depend on the files: everything is built where the arguments say so, or a
    /// pattern does not tell what is needed.
    pub open spec fn file_flags(self, p: PackageConfig, flags: Seq<Seq<char>>) -> Seq<Seq<char>> {
        if builds_workspace(flags) {
            Seq::empty()
        } else if builds_pattern(p.assets.unresolved.deep_view()) {
            seq!["--workspace"@]
        } else {
            selection_flags(select_all(products(p)))
        }
    }

    /// The directory in which the libraries of the target say how they are used, if there is a
    /// target.
    pub fn pkg_config_path(&self) -> (r: Option<String>)
        ensures
            r.deep_view() == match self.rust_target_triple {
                Some(t) => Some(pkg_config_dir(t@)),
                None => None,
            },
    {
        match &self.rust_target_triple {
            Some(t) => {
                let triple = debian_triple_from_rust_triple(t.as_str());
                Some(cat3("/usr/lib/", triple.as_str(), "/pkgconfig"))
            },
            None => None,
        }
    }

    fn push_profile_flags(&self, flags: &mut Vec<String>)
        ensures
            final(flags).deep_view() == old(flags).deep_view() + self.profile_flags(),
    {
        let profile_name = self.build_profile.profile_name();
        let ghost f0 = flags.deep_view();
        if same(profile_name, "release") {
            flags.push("--release".to_owned());
        } else {
            flags.push(cat("--profile=", profile_name));
        }
        let ghost f1 = flags.deep_view();
        let mut locking = self.cargo_locking_flags.flags();
        let ghost l = locking.deep_view();
        flags.append(&mut locking);
        assert(flags.deep_view() =~= f1 + l);
        assert(flags.deep_view() =~= f0 + self.profile_flags());
    }

    fn push_target_flags(&self, flags: &mut Vec<String>)
        ensures
            final(flags).deep_view() == old(flags).deep_view() + self.target_flags(),
    {
        let ghost f0 = flags.deep_view();
        if let Some(triple) = &self.rust_target_triple {
            flags.push("--target".to_owned());
            flags.push(triple.clone());
        }
        assert(flags.deep_view() =~= f0 + self.target_flags());
    }

    fn push_feature_flags(&self, flags: &mut Vec<String>)
        ensures
            final(flags).deep_view() == old(flags).deep_view() + self.feature_flags(),
    {
        let ghost f0 = flags.deep_view();
        if self.all_features {
            flags.push("--all-features".to_owned());
        } else if !self.default_features {
            flags.push("--no-default-features".to_owned());
        }
        if self.features.len() > 0 {
            flags.push("--features".to_owned());
            flags.push(join_strings(&self.features, ","));
        }
        assert(flags.deep_view() =~= f0 + self.feature_flags());
    }

    fn push_vars(&self, pkg_config: PkgConfig, env: &mut Vec<EnvVar>)
        ensures
            final(env).deep_view() == old(env).deep_view() + self.profile_vars() + self.cross_vars(
                pkg_config,
            ),
    {
        let profile_name = self.build_profile.profile_name();
        let ghost e0 = env.deep_view();
        if let Some(val) = &self.build_profile.override_debug {
            env.push(
                EnvVar { name: cargo_var_name(profile_name, "DEBUG"), value: val.clone() },
            );
        }
        if let Some(val) = &self.build_profile.override_lto {
            env.push(EnvVar { name: cargo_var_name(profile_name, "LTO"), value: val.clone() });
        }
        let ghost e1 = env.deep_view();
        assert(e1 =~= e0 + self.profile_vars());
        // Set helpful defaults for cross-compiling
        if !pkg_config.allow_cross_is_set && !pkg_config.path_is_set && pkg_config.dir_exists {
            if let Some(path) = self.pkg_config_path() {
                env.push(
                    EnvVar { name: "PKG_CONFIG_ALLOW_CROSS".to_owned(), value: "1".to_owned() },
                );
                env.push(EnvVar { name: "PKG_CONFIG_PATH".to_owned(), value: path });
            }
        }
        assert(env.deep_view() =~= e1 + self.cross_vars(pkg_config));
    }

    /// The arguments and variables for Cargo, behind those that are there already. Executables need
    /// names only where they are built one by one.
    pub fn set_cargo_build_flags_for_package(
        &self,
        package_deb: &PackageConfig,
        pkg_config: PkgConfig,
        flags: &mut Vec<String>,
        env: &mut Vec<EnvVar>,
    )
        requires
            builds_everything(*package_deb, old(flags).deep_view()) || bins_have_names(
                products(*package_deb),
            ),
        ensures
            final(flags).deep_view() == old(flags).deep_view() + self.common_flags()
                + self.file_flags(*package_deb, old(flags).deep_view()),
            final(env).deep_view() == old(env).deep_view() + self.profile_vars() + self.cross_vars(
                pkg_config,
            ),
    {
        let flags_already_build_a_workspace = contains_string(flags, "--workspace")
            || contains_string(flags, "--all");
        let ghost f0 = flags.deep_view();
        self.push_vars(pkg_config, env);
        self.push_profile_flags(flags);
        self.push_target_flags(flags);
        self.push_feature_flags(flags);
        let ghost f1 = flags.deep_view();
        assert(f1 =~= f0 + self.common_flags());
        if flags_already_build_a_workspace {
            assert(f1 + Seq::<Seq<char>>::empty() =~= f1);
            return;
        }
        if has_built_pattern(&package_deb.assets.unresolved) {
            flags.push("--workspace".to_owned());
            assert(flags.deep_view() =~= f1 + seq!["--workspace"@]);
            return;
        }
        let selection = selection_of(package_deb);
        push_selection(&selection, flags);
    }
}

fn has_built_pattern(unresolved: &Vec<UnresolvedAsset>) -> (r: bool)
    ensures
        r == builds_pattern(unresolved.deep_view()),
{
    let ghost us = unresolved.deep_view();
    let mut i: usize = 0;
    while i < unresolved.len()
        invariant
            i <= unresolved.len(),
            us == unresolved.deep_view(),
            forall|k: int|
                0 <= k < i ==> !((#[trigger] us[k]).c.is_built() && is_pattern(us[k].source_path)),
        decreases unresolved.len() - i,
    {
        assert(us[i as int] == unresolved[i as int].deep_view());
        if unresolved[i].c.is_built() && is_glob_pattern(unresolved[i].source_path.as_str()) {
            assert(us[i as int].c.is_built());
            return true;
        }
        i += 1;
    }
    false
}

fn select_one(s: &mut Selection, c: &AssetCommon, source: Option<&String>)
    requires
        ({
            let p = Product {
                c: c.deep_view(),
                source: match source {
                    Some(p) => Some(p@),
                    None => None,
                },
            };
            p.c.is_built() && is_bin(p) ==> file_name(p.source->0) is Some
        }),
    ensures
        final(s).deep_view() == select(
            old(s).deep_view(),
            Product {
                c: c.deep_view(),
                source: match source {
                    Some(p) => Some(p@),
                    None => None,
                },
            },
        ),
{
    if !c.is_built() {
        return;
    }
    let ghost before = s.deep_view();
    if !c.is_same_package() {
        s.same_package = false;
    }
    let lib_source = match source {
        Some(p) => is_dynamic_library_filename(p.as_str()),
        None => false,
    };
    if c.is_dynamic_library() || lib_source {
        s.libs = true;
    } else if c.is_executable() {
        if let Some(p) = source {
            if let Some(name) = file_name_of(p.as_str()) {
                let ghost n = name@;
                if c.asset_kind == AssetKind::CargoExampleBinary {
                    s.examples.push(name);
                    assert(s.examples.deep_view() =~= before.examples.push(n));
                } else {
                    s.bins.push(name);
                    assert(s.bins.deep_view() =~= before.bins.push(n));
                }
            }
        }
    }
}

fn selection_of(package_deb: &PackageConfig) -> (r: Selection)
    requires
        bins_have_names(products(*package_deb)),
    ensures
        r.deep_view() == select_all(products(*package_deb)),
{
    let ghost ps = products(*package_deb);
    let resolved = &package_deb.assets.resolved;
    let unresolved = &package_deb.assets.unresolved;
    let mut s = Selection {
        bins: Vec::new(),
        examples: Vec::new(),
        libs: false,
        same_package: true,
    };
    let mut i: usize = 0;
    proof {
        assert(ps.take(0) =~= Seq::<Product>::empty());
        assert(s.bins.deep_view() =~= Seq::<Seq<char>>::empty());
        assert(s.examples.deep_view() =~= Seq::<Seq<char>>::empty());
    }
    while i < resolved.len()
        invariant
            i <= resolved.len(),
            ps == products(*package_deb),
            resolved == &package_deb.assets.resolved,
            bins_have_names(ps),
            s.deep_view() == select_all(ps.take(i as int)),
        decreases resolved.len() - i,
    {
        proof {
            assert(resolved.deep_view()[i as int] == resolved[i as int].deep_view());
            assert(ps[i as int] == resolved_product(resolved[i as int].deep_view()));
            assert(ps.take(i + 1).drop_last() =~= ps.take(i as int));
            assert(ps.take(i + 1).last() == ps[i as int]);
        }
        select_one(&mut s, &resolved[i].c, resolved[i].source.path());
        i += 1;
    }
    let mut j: usize = 0;
    while j < unresolved.len()
        invariant
            j <= unresolved.len(),
            ps == products(*package_deb),
            resolved == &package_deb.assets.resolved,
            unresolved == &package_deb.assets.unresolved,
            bins_have_names(ps),
            s.deep_view() == select_all(ps.take(resolved.len() + j)),
        decreases unresolved.len() - j,
    {
        let ghost k = resolved.len() + j;
        proof {
            assert(unresolved.deep_view()[j as int] == unresolved[j as int].deep_view());
            assert(ps[k] == unresolved_product(unresolved[j as int].deep_view()));
            assert(ps.take(k + 1).drop_last() =~= ps.take(k));
            assert(ps.take(k + 1).last() == ps[k]);
        }
        select_one(&mut s, &unresolved[j].c, Some(&unresolved[j].source_path));
        j += 1;
    }
    assert(ps.take(resolved.len() + unresolved.len()) =~= ps);
    s
}

fn push_prefixed(flags: &mut Vec<String>, prefix: &str, names: &Vec<String>)
    ensures
        final(flags).deep_view() == old(flags).deep_view() + names.deep_view().map_values(
            |n: Seq<char>| prefix@ + n,
        ),
{
    let ghost f0 = flags.deep_view();
    let ghost all = names.deep_view().map_values(|n: Seq<char>| prefix@ + n);
    let mut i: usize = 0;
    assert(flags.deep_view() =~= f0 + all.take(0));
    while i < names.len()
        invariant
            i <= names.len(),
            all == names.deep_view().map_values(|n: Seq<char>| prefix@ + n),
            flags.deep_view() == f0 + all.take(i as int),
        decreases names.len() - i,
    {
        let ghost before = flags.deep_view();
        assert(names.deep_view()[i as int] == names[i as int]@);
        let flag = cat(prefix, names[i].as_str());
        let ghost f = flag@;
        flags.push(flag);
        assert(flags.deep_view() =~= before.push(f));
        assert(all.take(i + 1) =~= all.take(i as int).push(all[i as int]));
        i += 1;
    }
    assert(all.take(i as int) =~= all);
}

fn push_selection(s: &Selection, flags: &mut Vec<String>)
    ensures
        final(flags).deep_view() == old(flags).deep_view() + selection_flags(s.deep_view()),
{
    let ghost f0 = flags.deep_view();
    if !s.same_package {
        flags.push("--workspace".to_owned());
    }
    assert(flags.deep_view() =~= f0 + flag_if(!s.same_package, "--workspace"@));
    push_prefixed(flags, "--bin=", &s.bins);
    push_prefixed(flags, "--example=", &s.examples);
    let ghost f1 = flags.deep_view();
    if s.libs {
        flags.push("--lib".to_owned());
    }
    proof {
        assert(flags.deep_view() =~= f1 + flag_if(s.libs, "--lib"@));
        let bins = s.bins.deep_view().map_values(|n: Seq<char>| "--bin="@ + n);
        let examples = s.examples.deep_view().map_values(|n: Seq<char>| "--example="@ + n);
        assert(flags.deep_view() =~= f0 + (flag_if(!s.same_package, "--workspace"@) + bins
            + examples + flag_if(s.libs, "--lib"@)));
    }
}

/// Whether executables have names, as far as they are built one by one.
pub fn names_are_known(package_deb: &PackageConfig, flags: &Vec<String>) -> (r: bool)
    ensures
        r == (builds_everything(*package_deb, flags.deep_view()) || bins_have_names(
            products(*package_deb),
        )),
{
    if contains_string(flags, "--workspace") || contains_string(flags, "--all")
        || has_built_pattern(&package_deb.assets.unresolved) {
        return true;
    }
    let ghost ps = products(*package_deb);
    let resolved = &package_deb.assets.resolved;
    let unresolved = &package_deb.assets.unresolved;
    let mut i: usize = 0;
    while i < resolved.len()
        invariant
            i <= resolved.len(),
            ps == products(*package_deb),
            resolved == &package_deb.assets.resolved,
            !builds_everything(*package_deb, flags.deep_view()),
            forall|k: int|
                0 <= k < i && (#[trigger] ps[k]).c.is_built() && is_bin(ps[k]) ==> file_name(
                    ps[k].source->0,
                ) is Some,
        decreases resolved.len() - i,
    {
        proof {
            assert(resolved.deep_view()[i as int] == resolved[i as int].deep_view());
            assert(ps[i as int] == resolved_product(resolved[i as int].deep_view()));
        }
        if !has_name_if_bin(&resolved[i].c, resolved[i].source.path()) {
            assert(!bins_have_names(ps)) by {
                assert(ps[i as int].c.is_built());
            }
            return false;
        }
        i += 1;
    }
    let mut j: usize = 0;
    while j < unresolved.len()
        invariant
            j <= unresolved.len(),
            ps == products(*package_deb),
            resolved == &package_deb.assets.resolved,
            unresolved == &package_deb.assets.unresolved,
            !builds_everything(*package_deb, flags.deep_view()),
            forall|k: int|
                0 <= k < resolved.len() + j && (#[trigger] ps[k]).c.is_built() && is_bin(ps[k])
                    ==> file_name(ps[k].source->0) is Some,
        decreases unresolved.len() - j,
    {
        let ghost k = resolved.len() + j;
        proof {
            assert(unresolved.deep_view()[j as int] == unresolved[j as int].deep_view());
            assert(ps[k] == unresolved_product(unresolved[j as int].deep_view()));
        }
        if !has_name_if_bin(&unresolved[j].c, Some(&unresolved[j].source_path)) {
            assert(!bins_have_names(ps)) by {
                assert(ps[k].c.is_built());
            }
            return false;
        }
        j += 1;
    }
    true
}

fn has_name_if_bin(c: &AssetCommon, source: Option<&String>) -> (r: bool)
    ensures
        ({
            let p = Product {
                c: c.deep_view(),
                source: match source {
                    Some(p) => Some(p@),
                    None => None,
                },
            };
            r == (p.c.is_built() && is_bin(p) ==> file_name(p.source->0) is Some)
        }),
{
    match source {
        Some(p) => !c.is_built() || c.is_dynamic_library() || is_dynamic_library_filename(
            p.as_str(),
        ) || !c.is_executable() || file_name_of(p.as_str()).is_some(),
        None => true,
    }
}

// ---------------------------------------------------------------------------
// What is selected
// ---------------------------------------------------------------------------
/// An argument that selects what is built.
pub open spec fn is_selection(flag: Seq<char>) -> bool {
    flag == "--workspace"@ || flag == "--lib"@ || has_prefix(flag, "--bin="@) || has_prefix(
        flag,
        "--example="@,
    )
}

/// The place among the arguments holds no argument of its own: it is the name of the target, or the
/// list of features.
pub open spec fn is_value(config: BuildEnvironment, i: int) -> bool {
    ||| config.rust_target_triple is Some && i == config.profile_flags().len() + 1
    ||| config.features@.len() > 0 && i == config.common_flags().len() - 1
}

proof fn lemma_selection(f: Seq<char>)
    requires
        is_selection(f),
    ensures
        f.len() > 3,
        f[2] == 'w' || f[2] == 'b' || f[2] == 'e' || (f[2] == 'l' && f[3] == 'i'),
{
    reveal_strlit("--workspace");
    reveal_strlit("--lib");
    reveal_strlit("--bin=");
    reveal_strlit("--example=");
    if has_prefix(f, "--bin="@) {
        assert(f.take(6)[2] == f[2]);
    } else if has_prefix(f, "--example="@) {
        assert(f.take(10)[2] == f[2]);
    }
}

proof fn lemma_common_flags(config: BuildEnvironment, i: int)
    requires
        0 <= i < config.common_flags().len(),
        !is_value(config, i),
    ensures
        !is_selection(config.common_flags()[i]),
{
    reveal_strlit("--release");
    reveal_strlit("--profile=");
    reveal_strlit("--offline");
    reveal_strlit("--frozen");
    reveal_strlit("--locked");
    reveal_strlit("--target");
    reveal_strlit("--all-features");
    reveal_strlit("--no-default-features");
    reveal_strlit("--features");
    let f = config.common_flags()[i];
    let n = config.profile_flags().len();
    let m = n + config.target_flags().len();
    if is_selection(f) {
        lemma_selection(f);
        if i < n {
            assert(f == config.profile_flags()[i]);
            if i == 0 {
                assert(f[2] == 'r' || f[2] == 'p');
            } else {
                assert(f == config.cargo_locking_flags.texts()[i - 1]);
                assert(f == "--offline"@ || f == "--frozen"@ || f == "--locked"@);
            }
        } else if i < m {
            assert(f == config.target_flags()[i - n]);
            assert(f == "--target"@);
        } else {
            assert(f == config.feature_flags()[i - m]);
            assert(f == "--all-features"@ || f == "--no-default-features"@ || f
                == "--features"@);
        }
    }
}

/// What is to be built is selected at most once as everything, and not at all where the arguments
/// that were there select everything already. (The name of a target, and the list of features, are
/// not arguments of their own, whatever they say.)
pub proof fn law_one_selection(config: BuildEnvironment, p: PackageConfig, flags: Seq<Seq<char>>)
    ensures
        ({
            let added = config.common_flags() + config.file_flags(p, flags);
            &&& forall|i: int, j: int|
                0 <= i < j < added.len() && #[trigger] added[i] == "--workspace"@
                    && #[trigger] added[j] == "--workspace"@ ==> is_value(config, i) || is_value(
                    config,
                    j,
                )
            &&& builds_workspace(flags) ==> forall|i: int|
                0 <= i < added.len() && is_selection(#[trigger] added[i]) ==> is_value(config, i)
        }),
{
    let common = config.common_flags();
    let own = config.file_flags(p, flags);
    let added = common + own;
    assert forall|i: int| 0 <= i < common.len() && is_selection(#[trigger] added[i]) implies is_value(
        config,
        i,
    ) by {
        if !is_value(config, i) {
            lemma_common_flags(config, i);
        }
    }
    assert forall|i: int, j: int|
        0 <= i < j < added.len() && #[trigger] added[i] == "--workspace"@
            && #[trigger] added[j] == "--workspace"@ implies is_value(config, i) || is_value(
        config,
        j,
    ) by {
        assert(is_selection(added[i]));
        if i >= common.len() {
            assert(own[j - common.len()] == "--workspace"@);
            lemma_workspace_first(config, p, flags, j - common.len());
        }
    }
}

/// Everything can only be selected by the first of the arguments that depend on the files.
proof fn lemma_workspace_first(
    config: BuildEnvironment,
    p: PackageConfig,
    flags: Seq<Seq<char>>,
    k: int,
)
    requires
        0 <= k < config.file_flags(p, flags).len(),
        config.file_flags(p, flags)[k] == "--workspace"@,
    ensures
        k == 0,
{
    if k > 0 {
        reveal_strlit("--workspace");
        reveal_strlit("--lib");
        reveal_strlit("--bin=");
        reveal_strlit("--example=");
        let s = select_all(products(p));
        let f = selection_flags(s);
        let bins = s.bins.map_values(|n: Seq<char>| "--bin="@ + n);
        let examples = s.examples.map_values(|n: Seq<char>| "--example="@ + n);
        let first = flag_if(!s.same_package, "--workspace"@);
        assert(f == first + bins + examples + flag_if(s.libs, "--lib"@));
        if k < first.len() + bins.len() {
            assert(f[k] == bins[k - first.len()]);
            assert(f[k][2] == 'b');
        } else if k < first.len() + bins.len() + examples.len() {
            assert(f[k] == examples[k - first.len() - bins.len()]);
            assert(f[k][2] == 'e');
        } else {
            assert(f[k] == "--lib"@);
        }
        assert("--workspace"@[2] == 'w');
    }
}

/// The arguments and variables that were there stay in front. Where neither the name of the target
/// nor the list of features reads like an argument that selects something, those that are added
/// select everything at most once; and they select nothing where everything is selected already.
pub proof fn law_added_flags(
    config: BuildEnvironment,
    p: PackageConfig,
    flags: Seq<Seq<char>>,
    pkg_config: PkgConfig,
    env: Seq<(Seq<char>, Seq<char>)>,
)
    requires
        config.rust_target_triple matches Some(t) ==> !is_selection(t@),
        config.features@.len() > 0 ==> !is_selection(join(config.features.deep_view(), ","@)),
    ensures
        ({
            let added = config.common_flags() + config.file_flags(p, flags);
            &&& flags.is_prefix_of(flags + added)
            &&& env.is_prefix_of(env + config.profile_vars() + config.cross_vars(pkg_config))
            &&& forall|i: int, j: int|
                0 <= i < j < added.len() && #[trigger] added[i] == "--workspace"@
                    ==> #[trigger] added[j] != "--workspace"@
            &&& builds_workspace(flags) ==> forall|i: int|
                0 <= i < added.len() ==> !is_selection(#[trigger] added[i])
        }),
{
    let added = config.common_flags() + config.file_flags(p, flags);
    law_one_selection(config, p, flags);
    assert forall|i: int| 0 <= i < added.len() && is_value(config, i) implies !is_selection(
        #[trigger] added[i],
    ) by {
        let n = config.profile_flags().len();
        if config.rust_target_triple is Some && i == n + 1 {
            assert(added[i] == config.target_flags()[1]);
        } else {
            let f = config.feature_flags();
            assert(added[i] == f[f.len() - 1]);
        }
    }
    assert forall|i: int, j: int|
        0 <= i < j < added.len() && #[trigger] added[i] == "--workspace"@ implies #[trigger] added[j]
        != "--workspace"@ by {
        assert(is_selection(added[i]));
    }
    assert(flags =~= (flags + added).subrange(0, flags.len() as int));
    let vars = env + config.profile_vars() + config.cross_vars(pkg_config);
    assert(env =~= vars.subrange(0, env.len() as int));
}

/// The words of the command for Cargo, which is `build` unless another one is asked for.
pub fn build_subcommand(cmd: Option<&String>) -> (r: Vec<String>)
    ensures
        r.deep_view() == split(
            match cmd {
                Some(c) => c@,
                None => "build"@,
            },
            ' ',
        ),
{
    match cmd {
        Some(c) => split_char(c.as_str(), ' '),
        None => split_char("build", ' '),
    }
}

} // verus!
