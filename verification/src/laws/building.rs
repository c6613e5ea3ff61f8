//! What Cargo is asked to build.
use crate::arch::debian_triple;
use crate::assets::{is_library_name, AssetKind, IsBuilt, SourceView};
use crate::config::flags::PkgConfig;
use crate::config::flags::{builds_pattern, is_bin, products, select_all, Product};
use crate::config::{BuildEnvironment, PackageConfig};
use crate::parse::manifest::upper;
use crate::paths::file_name;
use crate::text::join;
use vstd::prelude::*;

verus! {

/// The product is an executable: something that can be run and is no dynamic library.
pub open spec fn is_program(p: Product) -> bool {
    &&& p.c.is_built != IsBuilt::No
    &&& p.source is Some
    &&& p.c.chmod matches Some(m) && m & 0o111 != 0
    &&& !is_library_name(p.c.target_path)
    &&& !is_library_name(p.source->0)
}

/// The product is a dynamic library, by its name in the package or where it is built.
pub open spec fn is_dynamic(p: Product) -> bool {
    &&& p.c.is_built != IsBuilt::No
    &&& is_library_name(p.c.target_path) || (p.source is Some && is_library_name(p.source->0))
}

/// Exactly the programs, examples and libraries among the products are built. Other packages of the
/// workspace are built if one of them has a product.
pub proof fn law_selection(ps: Seq<Product>, name: Seq<char>)
    ensures
        select_all(ps).bins.contains(name) <==> exists|i: int|
            0 <= i < ps.len() && is_program(#[trigger] ps[i]) && ps[i].c.asset_kind
                != AssetKind::CargoExampleBinary && file_name(ps[i].source->0)->0 == name,
        select_all(ps).examples.contains(name) <==> exists|i: int|
            0 <= i < ps.len() && is_program(#[trigger] ps[i]) && ps[i].c.asset_kind
                == AssetKind::CargoExampleBinary && file_name(ps[i].source->0)->0 == name,
        select_all(ps).libs <==> exists|i: int| 0 <= i < ps.len() && is_dynamic(#[trigger] ps[i]),
        select_all(ps).same_package <==> forall|i: int|
            0 <= i < ps.len() ==> (#[trigger] ps[i]).c.is_built == IsBuilt::No || ps[i].c.is_built
                == IsBuilt::SamePackage,
    decreases ps.len(),
{
    if ps.len() > 0 {
        let t = ps.drop_last();
        let p = ps.last();
        let n = ps.len() - 1;
        law_selection(t, name);
        assert(ps[n] == p);
        assert(forall|i: int| 0 <= i < n ==> t[i] == ps[i]);
        let own = file_name(p.source->0)->0;
        let example = p.c.asset_kind == AssetKind::CargoExampleBinary;
        let s = select_all(t);
        let r = select_all(ps);
        if p.c.is_built() && is_bin(p) {
            if example {
                assert(r.examples[s.examples.len() as int] == own);
            } else {
                assert(r.bins[s.bins.len() as int] == own);
            }
        }
        assert(forall|i: int| 0 <= i < s.bins.len() ==> r.bins[i] == s.bins[i]);
        assert(forall|i: int| 0 <= i < s.examples.len() ==> r.examples[i] == s.examples[i]);
        if s.bins.contains(name) {
            let k = choose|k: int| 0 <= k < s.bins.len() && s.bins[k] == name;
            assert(r.bins[k] == name);
        }
        if s.examples.contains(name) {
            let k = choose|k: int| 0 <= k < s.examples.len() && s.examples[k] == name;
            assert(r.examples[k] == name);
        }
        if r.bins.contains(name) {
            let k = choose|k: int| 0 <= k < r.bins.len() && r.bins[k] == name;
            if k < s.bins.len() {
                assert(s.bins[k] == name);
            }
        }
        if r.examples.contains(name) {
            let k = choose|k: int| 0 <= k < r.examples.len() && r.examples[k] == name;
            if k < s.examples.len() {
                assert(s.examples[k] == name);
            }
        }
        if exists|i: int|
            0 <= i < ps.len() && is_program(#[trigger] ps[i]) && ps[i].c.asset_kind
                != AssetKind::CargoExampleBinary && file_name(ps[i].source->0)->0 == name {
            let i = choose|i: int|
                0 <= i < ps.len() && is_program(#[trigger] ps[i]) && ps[i].c.asset_kind
                    != AssetKind::CargoExampleBinary && file_name(ps[i].source->0)->0 == name;
            if i < n {
                assert(is_program(t[i]));
            }
        }
        if exists|i: int|
            0 <= i < ps.len() && is_program(#[trigger] ps[i]) && ps[i].c.asset_kind
                == AssetKind::CargoExampleBinary && file_name(ps[i].source->0)->0 == name {
            let i = choose|i: int|
                0 <= i < ps.len() && is_program(#[trigger] ps[i]) && ps[i].c.asset_kind
                    == AssetKind::CargoExampleBinary && file_name(ps[i].source->0)->0 == name;
            if i < n {
                assert(is_program(t[i]));
            }
        }
        if exists|i: int| 0 <= i < ps.len() && is_dynamic(#[trigger] ps[i]) {
            let i = choose|i: int| 0 <= i < ps.len() && is_dynamic(#[trigger] ps[i]);
            if i < n {
                assert(is_dynamic(t[i]));
            }
        }
    }
}

/// The name is that of a dynamic library if the file name ends with `.so`.
pub proof fn law_library_name(p: Seq<char>)
    ensures
        is_library_name(p) <==> file_name(p) is Some && exists|stem: Seq<char>|
            file_name(p)->0 == #[trigger] (stem + ".so"@),
{
    reveal_strlit(".so");
    if is_library_name(p) {
        let name = file_name(p)->0;
        let stem = name.take(name.len() - 3);
        assert(name =~= stem + ".so"@);
    }
    if file_name(p) is Some && exists|stem: Seq<char>| file_name(p)->0 == #[trigger] (stem + ".so"@) {
        let name = file_name(p)->0;
        let stem = choose|stem: Seq<char>| name == #[trigger] (stem + ".so"@);
        assert(name.skip(name.len() - 3) =~= ".so"@);
    }
}

/// The products of a package are all of its files, those found and those still to be looked up.
pub proof fn law_products(p: PackageConfig)
    ensures
        products(p).len() == p.assets.resolved@.len() + p.assets.unresolved@.len(),
        forall|i: int|
            0 <= i < p.assets.resolved@.len() ==> {
                let a = p.assets.resolved.deep_view()[i];
                &&& (#[trigger] products(p)[i]).c == a.c
                &&& products(p)[i].source == match a.source {
                    SourceView::Path(path) => Some(path),
                    SourceView::Manifested(path) => Some(path),
                    SourceView::Virtual(_) => products(p)[i].source,
                    SourceView::Data(_) => None,
                }
            },
        forall|i: int|
            0 <= i < p.assets.unresolved@.len() ==> {
                let a = #[trigger] p.assets.unresolved.deep_view()[i];
                let q = products(p)[p.assets.resolved@.len() + i];
                q.c == a.c && q.source == Some(a.source_path)
            },
{
}

/// The arguments for what a package needs: a flag for each program and example by name, one for the
/// libraries, and the whole workspace if another package has products, or if a pattern stands for
/// some.
pub proof fn law_product_flags(
    config: BuildEnvironment,
    p: PackageConfig,
    flags: Seq<Seq<char>>,
    i: int,
)
    requires
        !flags.contains("--workspace"@),
        !flags.contains("--all"@),
        0 <= i < products(p).len(),
    ensures
        ({
            let q = products(p)[i];
            let added = config.file_flags(p, flags);
            let everything = exists|k: int|
                0 <= k < p.assets.unresolved@.len() && (
                #[trigger] p.assets.unresolved.deep_view()[k]).c.is_built != IsBuilt::No
                    && crate::globs::is_pattern(p.assets.unresolved.deep_view()[k].source_path);
            &&& everything ==> added == seq!["--workspace"@]
            &&& !everything && is_program(q) && q.c.asset_kind != AssetKind::CargoExampleBinary
                ==> added.contains("--bin="@ + file_name(q.source->0)->0)
            &&& !everything && is_program(q) && q.c.asset_kind == AssetKind::CargoExampleBinary
                ==> added.contains("--example="@ + file_name(q.source->0)->0)
            &&& !everything && is_dynamic(q) ==> added.contains("--lib"@)
            &&& !everything && q.c.is_built == IsBuilt::Workspace ==> added.contains(
                "--workspace"@,
            )
        }),
{
    let q = products(p)[i];
    let added = config.file_flags(p, flags);
    if is_program(q) {
        law_selection(products(p), file_name(q.source->0)->0);
    } else {
        law_selection(products(p), Seq::empty());
    }
    let s = select_all(products(p));
    let us = p.assets.unresolved.deep_view();
    let everything = exists|k: int|
        0 <= k < us.len() && (#[trigger] us[k]).c.is_built != IsBuilt::No && crate::globs::is_pattern(
            us[k].source_path,
        );
    assert(us.len() == p.assets.unresolved@.len());
    if builds_pattern(us) {
        let k = choose|k: int|
            0 <= k < us.len() && (#[trigger] us[k]).c.is_built() && crate::globs::is_pattern(
                us[k].source_path,
            );
        assert(us[k].c.is_built != IsBuilt::No);
        assert(everything);
    }
    if everything {
        let k = choose|k: int|
            0 <= k < us.len() && (#[trigger] us[k]).c.is_built != IsBuilt::No
                && crate::globs::is_pattern(us[k].source_path);
        assert(us[k].c.is_built());
        assert(builds_pattern(us));
    } else {
        let head = crate::flag_if(!s.same_package, "--workspace"@);
        let bins = s.bins.map_values(|n: Seq<char>| "--bin="@ + n);
        let examples = s.examples.map_values(|n: Seq<char>| "--example="@ + n);
        let tail = crate::flag_if(s.libs, "--lib"@);
        assert(added == head + bins + examples + tail);
        if is_program(q) && q.c.asset_kind != AssetKind::CargoExampleBinary {
            let name = file_name(q.source->0)->0;
            let k = choose|k: int| 0 <= k < s.bins.len() && s.bins[k] == name;
            assert(added[head.len() + k] == "--bin="@ + name);
        }
        if is_program(q) && q.c.asset_kind == AssetKind::CargoExampleBinary {
            let name = file_name(q.source->0)->0;
            let k = choose|k: int| 0 <= k < s.examples.len() && s.examples[k] == name;
            assert(added[head.len() + bins.len() + k] == "--example="@ + name);
        }
        if is_dynamic(q) {
            assert(added[added.len() - 1] == "--lib"@);
        }
        if q.c.is_built == IsBuilt::Workspace {
            assert(added[0] == "--workspace"@);
        }
    }
}

/// Nothing but the products of the package is built: every flag stands for one of them.
pub proof fn law_no_other_product(
    config: BuildEnvironment,
    p: PackageConfig,
    flags: Seq<Seq<char>>,
    k: int,
)
    requires
        0 <= k < config.file_flags(p, flags).len(),
    ensures
        ({
            let flag = config.file_flags(p, flags)[k];
            let ps = products(p);
            ||| flag == "--workspace"@
            ||| flag == "--lib"@ && exists|i: int| 0 <= i < ps.len() && is_dynamic(#[trigger] ps[i])
            ||| exists|i: int|
                0 <= i < ps.len() && is_program(#[trigger] ps[i]) && flag == (
                if ps[i].c.asset_kind == AssetKind::CargoExampleBinary {
                    "--example="@
                } else {
                    "--bin="@
                }) + file_name(ps[i].source->0)->0
        }),
{
    let ps = products(p);
    let s = select_all(ps);
    let added = config.file_flags(p, flags);
    let flag = added[k];
    if !builds_pattern(p.assets.unresolved.deep_view()) && flag != "--workspace"@ {
        let head = crate::flag_if(!s.same_package, "--workspace"@);
        let bins = s.bins.map_values(|n: Seq<char>| "--bin="@ + n);
        let examples = s.examples.map_values(|n: Seq<char>| "--example="@ + n);
        let tail = crate::flag_if(s.libs, "--lib"@);
        assert(added == head + bins + examples + tail);
        let a = k - head.len();
        if a < bins.len() {
            assert(flag == bins[a]);
            assert(s.bins.contains(s.bins[a]));
            law_selection(ps, s.bins[a]);
        } else if a - bins.len() < examples.len() {
            assert(flag == examples[a - bins.len()]);
            assert(s.examples.contains(s.examples[a - bins.len()]));
            law_selection(ps, s.examples[a - bins.len()]);
        } else {
            assert(flag == "--lib"@);
            law_selection(ps, Seq::empty());
        }
    }
}

/// The arguments for how to build: the profile, the target and the features, each as Cargo wants it.
pub proof fn law_common_flags(config: BuildEnvironment) -> (at: (int, int, int))
    ensures
        ({
            let flags = config.common_flags();
            let profile = match config.build_profile.profile_name {
                Some(n) => n@,
                None => "release"@,
            };
            &&& flags[0] == (if profile == "release"@ {
                "--release"@
            } else {
                "--profile="@ + profile
            })
            &&& config.rust_target_triple matches Some(t) ==> 0 < at.0 && at.0 + 1 < flags.len()
                && flags[at.0] == "--target"@ && flags[at.0 + 1] == t@
            &&& config.features@.len() > 0 ==> 0 < at.1 && at.1 + 1 < flags.len() && flags[at.1]
                == "--features"@ && flags[at.1 + 1] == join(config.features.deep_view(), ","@)
            &&& config.all_features ==> 0 < at.2 < flags.len() && flags[at.2] == "--all-features"@
            &&& !config.all_features && !config.default_features ==> 0 < at.2 < flags.len()
                && flags[at.2] == "--no-default-features"@
            &&& flags.len() == 1 + config.cargo_locking_flags.texts().len() + (
            if config.rust_target_triple is Some {
                2int
            } else {
                0
            }) + (if config.all_features || !config.default_features {
                1int
            } else {
                0
            }) + (if config.features@.len() > 0 {
                2int
            } else {
                0
            })
        }),
{
    let flags = config.common_flags();
    let a = config.profile_flags().len() as int;
    let b = a + config.target_flags().len();
    (a, flags.len() - 2, b)
}

/// Cargo may be told to change nothing about the dependencies, each by its own argument.
pub proof fn law_locking_flags(f: crate::CargoLockingFlags)
    ensures
        f.texts().contains("--offline"@) <==> f.offline,
        f.texts().contains("--frozen"@) <==> f.frozen,
        f.texts().contains("--locked"@) <==> f.locked,
        f.texts().len() <= 3,
{
    reveal_strlit("--offline");
    reveal_strlit("--frozen");
    reveal_strlit("--locked");
    assert("--offline"@.len() != "--frozen"@.len());
    assert("--frozen"@[2] != "--locked"@[2]);
    let t = f.texts();
    if f.offline {
        assert(t.contains("--offline"@)) by {
            assert(exists|i: int| 0 <= i < t.len() && t[i] == "--offline"@) by {
                assert(t[0] == "--offline"@ || t[1] == "--offline"@ || t[t.len() - 1] == "--offline"@);
            }
        }
    }
    if f.frozen {
        assert(t.contains("--frozen"@)) by {
            assert(exists|i: int| 0 <= i < t.len() && t[i] == "--frozen"@) by {
                assert(t[0] == "--frozen"@ || t[1] == "--frozen"@ || t[t.len() - 1] == "--frozen"@);
            }
        }
    }
    if f.locked {
        assert(t.contains("--locked"@)) by {
            assert(exists|i: int| 0 <= i < t.len() && t[i] == "--locked"@) by {
                assert(t[0] == "--locked"@ || t[1] == "--locked"@ || t[t.len() - 1] == "--locked"@);
            }
        }
    }
}

/// What overrides the profile goes to Cargo in variables named after it, in upper case.
pub proof fn law_profile_vars(config: BuildEnvironment)
    ensures
        ({
            let profile = match config.build_profile.profile_name {
                Some(n) => n@,
                None => "release"@,
            };
            let vars = config.profile_vars();
            &&& config.build_profile.override_debug matches Some(v) ==> vars.len() > 0 && vars[0].0
                == "CARGO_PROFILE_"@ + upper(profile) + "_DEBUG"@ && vars[0].1 == v@
            &&& config.build_profile.override_lto matches Some(v) ==> vars.len() > 0
                && vars.last().0 == "CARGO_PROFILE_"@ + upper(profile) + "_LTO"@ && vars.last().1
                == v@
            &&& vars.len() == (if config.build_profile.override_debug is Some {
                1int
            } else {
                0
            }) + (if config.build_profile.override_lto is Some {
                1int
            } else {
                0
            })
        }),
{
    reveal_strlit("_");
    reveal_strlit("DEBUG");
    reveal_strlit("_DEBUG");
    reveal_strlit("LTO");
    reveal_strlit("_LTO");
    assert("_"@ + "DEBUG"@ =~= "_DEBUG"@);
    assert("_"@ + "LTO"@ =~= "_LTO"@);
    let head = "CARGO_PROFILE_"@ + upper(config.build_profile.name());
    assert(head + "_"@ + "DEBUG"@ =~= head + "_DEBUG"@);
    assert(head + "_"@ + "LTO"@ =~= head + "_LTO"@);
}

/// Upper case changes the small letters of the alphabet, and nothing else.
pub proof fn law_upper(s: Seq<char>)
    ensures
        upper(s).len() == s.len(),
        forall|i: int|
            0 <= i < s.len() ==> if 'a' <= s[i] <= 'z' {
                (#[trigger] upper(s)[i]) as int == s[i] as int - 'a' as int + 'A' as int
            } else {
                upper(s)[i] == s[i]
            },
{
}

/// For another target, `pkg-config` is pointed to the libraries of that target; but not if there are
/// none, or if the variables are already set.
pub proof fn law_cross_vars(config: BuildEnvironment, pkg_config: PkgConfig)
    ensures
        ({
            let vars = config.cross_vars(pkg_config);
            if config.rust_target_triple is Some && pkg_config.dir_exists
                && !pkg_config.allow_cross_is_set && !pkg_config.path_is_set {
                &&& vars.len() == 2
                &&& vars[0] == ("PKG_CONFIG_ALLOW_CROSS"@, "1"@)
                &&& vars[1].0 == "PKG_CONFIG_PATH"@
                &&& vars[1].1 == "/usr/lib/"@ + debian_triple(config.rust_target_triple->0@)
                    + "/pkgconfig"@
            } else {
                vars.len() == 0
            }
        }),
{
}

} // verus!
