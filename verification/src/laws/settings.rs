//! What becomes of the settings of a manifest, the options and the environment.
use crate::arch::debian_architecture;
use crate::assets::RawAssetOrAutoView;
use crate::config::debug::{outcome, wishes};
use crate::config::package::{is_described, units_of, CargoPackage};
use crate::config::project::{has_name, is_environment, is_parent, is_project, is_selected, profile_in_use, timestamp, variant_place, Machine, ManifestFound, ManifestTime};
use crate::config::rules::{package_name, version_problem};
use crate::config::{BuildEnvironment, BuildOptions, DebConfigOverrides, DebugSymbolOptions, DebugSymbols, ExtendedDescription, Multiarch, PackageConfig};
use crate::error::{CDResult, ErrorView};
use crate::listener::MessageView;
use crate::numbers::{digits_value, number_value, NumberError};
use crate::parse::manifest::{debian_version, debug_flags_of, inherits, is_digit, is_pre_release, CargoDeb, CompressDebugSymbols, DebugSetting, DependencyList, LicenseFile, ManifestDebugFlags, StripSetting, SystemUnitsSingleOrMultiple};
use crate::parse::merge::RawAssetList;
use crate::parse::workspace::first_index;
use crate::paths::{parent, path_join};
use crate::text::{find_from, join};
use vstd::prelude::*;

verus! {

// ---------------------------------------------------------------------------
// Numbers
// ---------------------------------------------------------------------------
/// Reading a number, digit by digit. A plus may stand in front of the digits; anything else that is
/// no digit is an error, and so is a number above the limit.
pub proof fn law_number(s: Seq<char>, c: char, radix: int, max: int)
    requires
        2 <= radix <= 10,
        max >= 9,
    ensures
        number_value(Seq::empty(), radix, max) is Err,
        '0' <= c && (c as int) < ('0' as int) + radix ==> number_value(seq![c], radix, max) == Ok::<
            int,
            NumberError,
        >(c as int - '0' as int),
        number_value(s, radix, max) matches Ok(v) ==> 0 <= v <= max,
        '0' <= c && (c as int) < ('0' as int) + radix && s.len() > 0 && s != seq!['+'] ==> match number_value(
            s,
            radix,
            max,
        ) {
            Ok(v) => if v * radix + (c as int - '0' as int) <= max {
                number_value(s.push(c), radix, max) == Ok::<int, NumberError>(
                    v * radix + (c as int - '0' as int),
                )
            } else {
                number_value(s.push(c), radix, max) is Err
            },
            Err(_) => number_value(s.push(c), radix, max) is Err,
        },
        s.len() > 0 && !('0' <= c && (c as int) < ('0' as int) + radix) ==> number_value(
            s.push(c),
            radix,
            max,
        ) is Err,
        s.len() > 0 && s[0] != '+' ==> number_value(seq!['+'] + s, radix, max) == number_value(
            s,
            radix,
            max,
        ),
{
    reveal_with_fuel(digits_value, 3);
    let one = seq![c];
    assert(one.drop_last() =~= Seq::<char>::empty());
    assert(0 * radix == 0) by (nonlinear_arith);
    assert(digits_value(Seq::empty(), radix, max) == Ok::<int, NumberError>(0));
    lemma_digits_bound(s, radix, max);
    lemma_digits_bound(s.skip(1), radix, max);
    let t = s.push(c);
    if s.len() > 0 {
        assert(t.drop_last() =~= s);
        assert(t.skip(1).drop_last() =~= s.skip(1));
        assert(t.skip(1).last() == c);
        assert(t[0] == s[0]);
        if s.len() == 1 && s[0] == '+' {
            assert(s =~= seq!['+']);
        }
        let plus = seq!['+'] + s;
        assert(plus.skip(1) =~= s);
        assert(plus[0] == '+');
    }
}

proof fn lemma_digits_bound(s: Seq<char>, radix: int, max: int)
    requires
        radix > 0,
        max >= 0,
    ensures
        digits_value(s, radix, max) matches Ok(v) ==> 0 <= v <= max,
    decreases s.len(),
{
    if s.len() > 0 {
        lemma_digits_bound(s.drop_last(), radix, max);
        if let Ok(v) = digits_value(s.drop_last(), radix, max) {
            assert(0 <= v * radix) by (nonlinear_arith)
                requires
                    v >= 0,
                    radix > 0,
            ;
        }
    }
}

/// A package is dated by `SOURCE_DATE_EPOCH`, else by the day on which the manifest was changed.
pub proof fn law_timestamp(machine: Machine, t: int)
    requires
        timestamp(machine) == Ok::<int, ErrorView>(t),
    ensures
        machine.source_date_epoch matches Some(text) ==> number_value(text@, 10, u64::MAX as int)
            == Ok::<int, NumberError>(t),
        machine.source_date_epoch is None ==> (machine.manifest_time matches ManifestTime::Seconds(
            changed,
        ) && t <= changed < t + 86400 && t % 86400 == 0),
{
    if machine.source_date_epoch is None {
        let changed = machine.manifest_time->Seconds_0 as int;
        assert((changed - changed % 86400) % 86400 == 0) by (nonlinear_arith);
    }
}

// ---------------------------------------------------------------------------
// Versions
// ---------------------------------------------------------------------------
/// The version of a crate, with a revision behind it: none if it is `0` or empty, and `1` if it is not
/// given. Only the first hyphen of a version can change.
pub proof fn law_version(version: Seq<char>, revision: Seq<char>)
    ensures
        ({
            let plain = debian_version(version, Some(seq!['0']));
            &&& debian_version(version, Some(Seq::empty())) == plain
            &&& debian_version(version, None) == debian_version(version, Some(seq!['1']))
            &&& revision.len() > 0 && revision != seq!['0'] ==> debian_version(
                version,
                Some(revision),
            ) == plain.push('-') + revision
            &&& plain.len() == version.len()
            &&& !version.contains('-') ==> plain == version
            &&& forall|i: int, j: int|
                0 <= i < j < version.len() && #[trigger] version[i] == '-' ==> plain[j]
                    == #[trigger] version[j]
            &&& forall|i: int|
                0 <= i < version.len() && #[trigger] version[i] != '-' ==> plain[i] == version[i]
        }),
{
    let zero = seq!['0'];
    let plain = debian_version(version, Some(zero));
    assert(seq!['1'] != zero) by {
        assert(seq!['1'][0] != zero[0]);
    }
    let i = find_from(version, '-', 0);
    lemma_find(version, '-', 0);
    if i < version.len() {
        assert(version =~= version.take(i).push('-') + version.skip(i + 1));
        assert(version.contains('-'));
    } else if version.contains('-') {
        let k = choose|k: int| 0 <= k < version.len() && version[k] == '-';
    }
    if revision.len() > 0 && revision != zero {
        assert(plain + seq!['-'] + revision =~= plain.push('-') + revision);
    }
}

proof fn lemma_find(s: Seq<char>, c: char, from: int)
    requires
        0 <= from <= s.len(),
    ensures
        from <= find_from(s, c, from) <= s.len(),
        forall|k: int| from <= k < find_from(s, c, from) ==> #[trigger] s[k] != c,
        find_from(s, c, from) < s.len() ==> s[find_from(s, c, from)] == c,
    decreases s.len() - from,
{
    if from < s.len() && s[from] != c {
        lemma_find(s, c, from + 1);
    }
}

/// A pre-release sorts before its release: `1.0.0-rc.2` becomes `1.0.0~rc.2`. What stands behind the
/// hyphen is a pre-release if it holds a digit and something else.
pub proof fn law_pre_release(release: Seq<char>, pre: Seq<char>, i: int, j: int)
    requires
        !release.contains('-'),
        0 <= i < pre.len(),
        0 <= j < pre.len(),
        '0' <= pre[i] <= '9',
        !('0' <= pre[j] <= '9'),
    ensures
        debian_version(release.push('-') + pre, Some(seq!['0'])) == release.push('~') + pre,
{
    let v = release.push('-') + pre;
    lemma_find(v, '-', 0);
    let k = find_from(v, '-', 0);
    let n = release.len() as int;
    assert(v[n] == '-');
    if k < n {
        assert(release[k] == '-');
    }
    assert(k == n);
    assert(v.skip(n + 1) =~= pre);
    assert(v.take(n) =~= release);
    assert(is_digit(pre[i]) && !is_digit(pre[j]));
    assert(is_pre_release(pre));
    assert(release + seq!['~'] + pre =~= release.push('~') + pre);
}

/// What is no pre-release is left as it is: only digits, or none.
pub proof fn law_no_pre_release(release: Seq<char>, pre: Seq<char>)
    requires
        !release.contains('-'),
        (forall|k: int| 0 <= k < pre.len() ==> '0' <= #[trigger] pre[k] <= '9') || (forall|k: int|
            0 <= k < pre.len() ==> !('0' <= #[trigger] pre[k] <= '9')),
    ensures
        debian_version(release.push('-') + pre, Some(seq!['0'])) == release.push('-') + pre,
{
    let v = release.push('-') + pre;
    lemma_find(v, '-', 0);
    let k = find_from(v, '-', 0);
    let n = release.len() as int;
    assert(v[n] == '-');
    if k < n {
        assert(release[k] == '-');
    }
    assert(v.skip(n + 1) =~= pre);
}

// ---------------------------------------------------------------------------
// The package
// ---------------------------------------------------------------------------
/// The text of an optional list of packages.
pub open spec fn list_text(l: Option<DependencyList>) -> Option<Seq<char>> {
    match l {
        Some(DependencyList::String(s)) => Some(s@),
        Some(DependencyList::Vec(v)) => Some(join(v.deep_view(), ", "@)),
        None => None,
    }
}

/// What the package is called and says of itself: the options win over the settings of the manifest,
/// and these over the metadata of the crate.
pub proof fn law_package_identity(
    p: PackageConfig,
    deb: CargoDeb,
    pkg: CargoPackage,
    time: u64,
    overrides: DebConfigOverrides,
    architecture: Seq<char>,
    multiarch: Multiarch,
    before: Seq<MessageView>,
    said: Seq<MessageView>,
)
    requires
        is_described(Ok(p), deb, pkg, time, overrides, architecture, multiarch, before, said),
    ensures
        p.cargo_crate_name@ == pkg.name@,
        deb.name matches Some(n) ==> p.deb_name@ == n@,
        overrides.deb_version matches Some(v) ==> p.deb_version@ == v@,
        overrides.deb_version is None && overrides.deb_revision is Some ==> p.deb_version@
            == debian_version(pkg.version@, Some(overrides.deb_revision->0@)),
        overrides.deb_version is None && overrides.deb_revision is None && deb.revision is Some
            ==> p.deb_version@ == debian_version(pkg.version@, Some(deb.revision->0@)),
        overrides.deb_version is None && overrides.deb_revision is None && deb.revision is None
            ==> p.deb_version@ == debian_version(pkg.version@, None),
        overrides.maintainer matches Some(m) ==> p.maintainer.deep_view() == Some(m@),
        overrides.maintainer is None && deb.maintainer is Some ==> p.maintainer.deep_view() == Some(
            deb.maintainer->0@,
        ),
        overrides.maintainer is None && deb.maintainer is None && pkg.authors@.len() > 0
            ==> p.maintainer.deep_view() == Some(pkg.authors@[0]@),
        overrides.maintainer is None && deb.maintainer is None && pkg.authors@.len() == 0
            ==> p.maintainer is None,
        deb.copyright matches Some(c) ==> p.copyright.deep_view() == Some(c@),
        deb.copyright is None && pkg.authors@.len() > 0 ==> p.copyright.deep_view() == Some(
            join(pkg.authors.deep_view(), ", "@),
        ),
        deb.copyright is None && pkg.authors@.len() == 0 ==> p.copyright is None,
        pkg.license matches Some(l) ==> p.license_identifier.deep_view() == Some(l@),
        pkg.license is None && (pkg.publish || p.license_file_rel_path is Some)
            ==> p.license_identifier is None,
        pkg.license is None && !pkg.publish && p.license_file_rel_path is None
            ==> p.license_identifier.deep_view() == Some("UNLICENSED"@),
        deb.license_file is None ==> p.license_file_rel_path.deep_view()
            == pkg.license_file.deep_view() && p.license_file_skip_lines == 0,
        deb.license_file matches Some(LicenseFile::String(f)) ==> p.license_file_rel_path.deep_view()
            == Some(f@) && p.license_file_skip_lines == 0,
        deb.license_file matches Some(LicenseFile::Vec(l)) ==> p.license_file_rel_path.deep_view()
            == (if l@.len() > 0 {
            Some(l@[0]@)
        } else {
            None
        }) && (if l@.len() > 1 {
            number_value(l@[1]@, 10, usize::MAX as int) == Ok::<int, NumberError>(
                p.license_file_skip_lines as int,
            )
        } else {
            p.license_file_skip_lines == 0
        }),
        p.homepage.deep_view() == pkg.homepage.deep_view(),
        p.documentation.deep_view() == pkg.documentation.deep_view(),
        p.repository.deep_view() == pkg.repository.deep_view(),
        p.readme_rel_path.deep_view() == pkg.readme.deep_view(),
        pkg.description matches Some(d) ==> p.description@ == d@,
        deb.extended_description matches Some(d) ==> (
        p.extended_description matches ExtendedDescription::Text(t) && t@ == d@),
        deb.extended_description is None && deb.extended_description_file is Some ==> (
        p.extended_description matches ExtendedDescription::File(f) && f@
            == deb.extended_description_file->0@),
        deb.extended_description is None && deb.extended_description_file is None && pkg.readme
            is Some ==> (p.extended_description matches ExtendedDescription::ReadmeFallback(f) && f@
            == pkg.readme->0@),
        deb.extended_description is None && deb.extended_description_file is None && pkg.readme
            is None ==> p.extended_description is Absent,
        p.default_timestamp == time,
        p.architecture@ == architecture,
        p.multiarch == multiarch,
        !p.is_split_dbgsym_package,
{
}

/// A package is described unless the setting on its license, or its version, is refused.
pub proof fn law_package_is_described(
    r: CDResult<PackageConfig>,
    deb: CargoDeb,
    pkg: CargoPackage,
    time: u64,
    overrides: DebConfigOverrides,
    architecture: Seq<char>,
    multiarch: Multiarch,
    before: Seq<MessageView>,
    said: Seq<MessageView>,
)
    requires
        is_described(r, deb, pkg, time, overrides, architecture, multiarch, before, said),
    ensures
        ({
            let version = if overrides.deb_version is Some {
                overrides.deb_version->0@
            } else if overrides.deb_revision is Some {
                debian_version(pkg.version@, Some(overrides.deb_revision->0@))
            } else {
                debian_version(pkg.version@, deb.revision.deep_view())
            };
            let bad_license = deb.license_file matches Some(LicenseFile::Vec(l)) && l@.len() > 1
                && number_value(l@[1]@, 10, usize::MAX as int) is Err;
            &&& r is Ok <==> !bad_license && version_problem(version) is None
            &&& before.is_prefix_of(said)
        }),
{
    if let Some(LicenseFile::Vec(l)) = deb.license_file {
        assert(l.deep_view().len() == l@.len());
        if l@.len() > 1 {
            assert(l.deep_view()[1] == l@[1]@);
        }
    }
    assert(before =~= said.take(before.len() as int));
}

/// What the package says of other packages, and which files it has: each setting of the manifest
/// reaches the package under its own name.
pub proof fn law_package_relations(
    p: PackageConfig,
    deb: CargoDeb,
    pkg: CargoPackage,
    time: u64,
    overrides: DebConfigOverrides,
    architecture: Seq<char>,
    multiarch: Multiarch,
    before: Seq<MessageView>,
    said: Seq<MessageView>,
)
    requires
        is_described(Ok(p), deb, pkg, time, overrides, architecture, multiarch, before, said),
    ensures
        p.pre_depends.deep_view() == list_text(deb.pre_depends),
        p.recommends.deep_view() == list_text(deb.recommends),
        p.suggests.deep_view() == list_text(deb.suggests),
        p.enhances.deep_view() == list_text(deb.enhances),
        p.conflicts.deep_view() == list_text(deb.conflicts),
        p.breaks.deep_view() == list_text(deb.breaks),
        p.replaces.deep_view() == list_text(deb.replaces),
        p.provides.deep_view() == list_text(deb.provides),
        deb.depends is Some ==> Some(p.wildcard_depends@) == list_text(deb.depends),
        deb.depends is None ==> p.wildcard_depends@ == "$auto"@,
        overrides.section matches Some(s) ==> p.section.deep_view() == Some(s@),
        overrides.section is None ==> p.section.deep_view() == deb.section.deep_view(),
        deb.priority matches Some(x) ==> p.priority@ == x@,
        deb.priority is None ==> p.priority@ == "optional"@,
        deb.conf_files matches Some(c) ==> p.conf_files.deep_view() == c.deep_view(),
        deb.conf_files is None ==> p.conf_files@.len() == 0,
        p.triggers_file_rel_path.deep_view() == deb.triggers_file.deep_view(),
        p.changelog.deep_view() == deb.changelog.deep_view(),
        overrides.maintainer_scripts_rel_path matches Some(dir)
            ==> p.maintainer_scripts_rel_path.deep_view() == Some(dir@),
        overrides.maintainer_scripts_rel_path is None ==> p.maintainer_scripts_rel_path.deep_view()
            == deb.maintainer_scripts.deep_view(),
        p.preserve_symlinks <==> deb.preserve_symlinks == Some(true),
        overrides.systemd_units matches Some(u) ==> units_of(p.systemd_units) == Some(u@),
        overrides.systemd_units is None ==> units_of(p.systemd_units) == (match deb.systemd_units {
            Some(SystemUnitsSingleOrMultiple::Single(u)) => Some(seq![u]),
            Some(SystemUnitsSingleOrMultiple::Multi(us)) => Some(us@),
            None => None,
        }),
        p.assets.resolved@.len() == 0 && p.assets.unresolved@.len() == 0,
{
    assert(p.conf_files.deep_view().len() == p.conf_files@.len());
}

// ---------------------------------------------------------------------------
// Variants
// ---------------------------------------------------------------------------
/// A variant has the settings of its own, and those of the package where it has none. Without a
/// variant, the settings are those of the package.
pub proof fn law_variant(
    r: CargoDeb,
    deb: CargoDeb,
    crate_name: Seq<char>,
    variant: Seq<char>,
    i: int,
)
    requires
        deb.variants is Some,
        0 <= i < deb.variants->0@.len(),
        deb.variants->0@[i].name@ == variant,
        forall|k: int| 0 <= k < i ==> (#[trigger] deb.variants->0@[k]).name@ != variant,
        is_selected(r, deb, crate_name, Some(variant)),
    ensures
        ({
            let own = deb.variants->0@[i].config;
            &&& r.name == (if own.name is Some {
                own.name
            } else if deb.name is Some {
                deb.name
            } else {
                r.name
            })
            &&& own.name is None && deb.name is None ==> r.name.deep_view() == Some(
                package_name(crate_name + "-"@ + variant),
            )
            &&& r.maintainer == (if own.maintainer is Some {
                own.maintainer
            } else {
                deb.maintainer
            })
            &&& r.copyright == (if own.copyright is Some {
                own.copyright
            } else {
                deb.copyright
            })
            &&& r.license_file == (if own.license_file is Some {
                own.license_file
            } else {
                deb.license_file
            })
            &&& r.changelog == (if own.changelog is Some {
                own.changelog
            } else {
                deb.changelog
            })
            &&& r.depends == (if own.depends is Some {
                own.depends
            } else {
                deb.depends
            })
            &&& r.pre_depends == (if own.pre_depends is Some {
                own.pre_depends
            } else {
                deb.pre_depends
            })
            &&& r.recommends == (if own.recommends is Some {
                own.recommends
            } else {
                deb.recommends
            })
            &&& r.suggests == (if own.suggests is Some {
                own.suggests
            } else {
                deb.suggests
            })
            &&& r.enhances == (if own.enhances is Some {
                own.enhances
            } else {
                deb.enhances
            })
            &&& r.conflicts == (if own.conflicts is Some {
                own.conflicts
            } else {
                deb.conflicts
            })
            &&& r.breaks == (if own.breaks is Some {
                own.breaks
            } else {
                deb.breaks
            })
            &&& r.replaces == (if own.replaces is Some {
                own.replaces
            } else {
                deb.replaces
            })
            &&& r.provides == (if own.provides is Some {
                own.provides
            } else {
                deb.provides
            })
            &&& r.extended_description == (if own.extended_description is Some {
                own.extended_description
            } else {
                deb.extended_description
            })
            &&& r.extended_description_file == (if own.extended_description_file is Some {
                own.extended_description_file
            } else {
                deb.extended_description_file
            })
            &&& r.section == (if own.section is Some {
                own.section
            } else {
                deb.section
            })
            &&& r.priority == (if own.priority is Some {
                own.priority
            } else {
                deb.priority
            })
            &&& r.revision == (if own.revision is Some {
                own.revision
            } else {
                deb.revision
            })
            &&& r.conf_files == (if own.conf_files is Some {
                own.conf_files
            } else {
                deb.conf_files
            })
            &&& r.triggers_file == (if own.triggers_file is Some {
                own.triggers_file
            } else {
                deb.triggers_file
            })
            &&& r.maintainer_scripts == (if own.maintainer_scripts is Some {
                own.maintainer_scripts
            } else {
                deb.maintainer_scripts
            })
            &&& r.features == (if own.features is Some {
                own.features
            } else {
                deb.features
            })
            &&& r.default_features == (if own.default_features is Some {
                own.default_features
            } else {
                deb.default_features
            })
            &&& r.dbgsym == (if own.dbgsym is Some {
                own.dbgsym
            } else {
                deb.dbgsym
            })
            &&& r.separate_debug_symbols == (if own.separate_debug_symbols is Some {
                own.separate_debug_symbols
            } else {
                deb.separate_debug_symbols
            })
            &&& r.compress_debug_symbols == (if own.compress_debug_symbols is Some {
                own.compress_debug_symbols
            } else {
                deb.compress_debug_symbols
            })
            &&& r.preserve_symlinks == (if own.preserve_symlinks is Some {
                own.preserve_symlinks
            } else {
                deb.preserve_symlinks
            })
            &&& r.systemd_units == (if own.systemd_units is Some {
                own.systemd_units
            } else {
                deb.systemd_units
            })
            &&& r.profile == (if own.profile is Some {
                own.profile
            } else {
                deb.profile
            })
            &&& own.merge_assets is None ==> r.assets.deep_view() == (if own.assets is Some {
                own.assets
            } else {
                deb.assets
            }).deep_view()
        }),
{
    lemma_first_place(deb, variant, i);
    let parent = choose|parent: CargoDeb|
        #[trigger] is_parent(parent, deb, crate_name, variant) && inherits(
            r,
            deb.variants->0@[variant_place(deb, variant)->0].config,
            parent,
        );
    assert(is_parent(parent, deb, crate_name, variant));
}

proof fn lemma_first_place(deb: CargoDeb, name: Seq<char>, i: int)
    requires
        deb.variants is Some,
        0 <= i < deb.variants->0@.len(),
        deb.variants->0@[i].name@ == name,
        forall|k: int| 0 <= k < i ==> (#[trigger] deb.variants->0@[k]).name@ != name,
    ensures
        variant_place(deb, name) == Some(i),
{
    let holds = has_name(deb.variants->0@, name);
    assert forall|k: int| 0 <= k < i implies !#[trigger] holds(k) by {
        assert(deb.variants->0@[k].name@ != name);
    }
    assert(holds(i));
    lemma_first_index(deb.variants->0@.len() as int, holds, i);
}

proof fn lemma_first_index(n: int, holds: spec_fn(int) -> bool, i: int)
    requires
        0 <= i,
        forall|k: int| 0 <= k < i ==> !#[trigger] holds(k),
        i < n ==> holds(i),
    ensures
        first_index(n, holds) == if i < n {
            Some(i)
        } else {
            None
        },
    decreases n,
{
    if n > 0 {
        if i < n - 1 {
            lemma_first_index(n - 1, holds, i);
        } else {
            lemma_none_before(n - 1, holds);
        }
    }
}

proof fn lemma_none_before(n: int, holds: spec_fn(int) -> bool)
    requires
        forall|k: int| 0 <= k < n ==> !#[trigger] holds(k),
    ensures
        first_index(n, holds) is None,
    decreases n,
{
    if n > 0 {
        lemma_none_before(n - 1, holds);
    }
}

/// Which profile is built: the one asked for, else that of the variant, else that of the package, else
/// `release`.
pub proof fn law_profile(
    asked: Option<Seq<char>>,
    deb: CargoDeb,
    variant: Seq<char>,
    i: int,
)
    requires
        deb.variants is Some,
        0 <= i < deb.variants->0@.len(),
        deb.variants->0@[i].name@ == variant,
        forall|k: int| 0 <= k < i ==> (#[trigger] deb.variants->0@[k]).name@ != variant,
    ensures
        asked is Some ==> profile_in_use(asked, deb, Some(variant)) == asked->0 && profile_in_use(
            asked,
            deb,
            None,
        ) == asked->0,
        deb.variants->0@[i].config.profile matches Some(own) ==> profile_in_use(
            None,
            deb,
            Some(variant),
        ) == own@,
        deb.variants->0@[i].config.profile is None ==> profile_in_use(None, deb, Some(variant))
            == profile_in_use(None, deb, None),
        deb.profile matches Some(own) ==> profile_in_use(None, deb, None) == own@,
        deb.profile is None ==> profile_in_use(None, deb, None) == "release"@,
{
    lemma_first_place(deb, variant, i);
}

// ---------------------------------------------------------------------------
// The environment of the build
// ---------------------------------------------------------------------------
/// Features are those of the manifest and of the options, in that order; default features are built
/// unless one of the two forbids it. For another target, everything is built below its name.
pub proof fn law_environment(
    r: BuildEnvironment,
    options: BuildOptions,
    found: ManifestFound,
    machine: Machine,
    deb: CargoDeb,
    flags: ManifestDebugFlags,
)
    requires
        is_environment(r, options, found, machine, deb, flags),
    ensures
        ({
            let n = match deb.features {
                Some(f) => f@.len() as int,
                None => 0,
            };
            let all = r.features.deep_view();
            &&& all.len() == n + options.overrides.features@.len()
            &&& forall|k: int| 0 <= k < n ==> #[trigger] all[k] == deb.features->0@[k]@
            &&& forall|k: int|
                n <= k < all.len() ==> #[trigger] all[k] == options.overrides.features@[k - n]@
        }),
        options.overrides.no_default_features ==> !r.default_features,
        deb.default_features == Some(false) ==> !r.default_features,
        !options.overrides.no_default_features && deb.default_features != Some(false)
            ==> r.default_features,
        r.all_features == options.overrides.all_features,
        options.rust_target_triple matches Some(t) ==> r.target_dir@ == path_join(
            found.target_dir@,
            t@,
        ),
        options.rust_target_triple is None ==> r.target_dir@ == found.target_dir@,
        r.rust_target_triple == options.rust_target_triple,
        r.host_triple@ == machine.host_triple@,
        r.cargo_run_current_dir@ == machine.current_dir@,
        r.reproducible <==> machine.source_date_epoch is Some,
        r.deb_output_path == options.deb_output_path,
        r.build_profile.override_lto == options.build_profile.override_lto,
        r.build_targets == found.build_targets,
        r.cargo_locking_flags == options.cargo_locking_flags,
        options.build_profile.override_debug matches Some(d)
            ==> r.build_profile.override_debug.deep_view() == Some(d@),
        options.build_profile.profile_name matches Some(n)
            ==> r.build_profile.profile_name.deep_view() == Some(n@),
        options.build_profile.profile_name is None && options.config_variant is None ==> (
        found.deb matches Some(d) ==> r.build_profile.profile_name.deep_view()
            == d.profile.deep_view()),
        options.build_profile.profile_name is None && found.deb is None
            ==> r.build_profile.profile_name is None,
        r.debug_symbols == outcome(
            wishes(options.debug, deb, flags),
            options.debug.strip_override,
            flags,
        ),
        parent(found.manifest_path@) matches Some(dir) ==> r.package_manifest_dir@ == dir,
{
}

/// What a project is made of: the settings of the manifest reach the package. It is for the machine of
/// the target, else for this one. Its files are those of the manifest, else those that need no name.
pub proof fn law_project(
    project: (BuildEnvironment, PackageConfig, RawAssetList),
    options: BuildOptions,
    found: ManifestFound,
    machine: Machine,
    deb: CargoDeb,
    before: Seq<MessageView>,
    said: Seq<MessageView>,
)
    requires
        is_project(Ok(project), options, found, machine, deb, before, said),
        found.package is Some,
    ensures
        ({
            let p = project.1;
            let pkg = found.package->0;
            let o = options.overrides;
            &&& p.pre_depends.deep_view() == list_text(deb.pre_depends)
            &&& p.recommends.deep_view() == list_text(deb.recommends)
            &&& p.suggests.deep_view() == list_text(deb.suggests)
            &&& p.enhances.deep_view() == list_text(deb.enhances)
            &&& p.conflicts.deep_view() == list_text(deb.conflicts)
            &&& p.breaks.deep_view() == list_text(deb.breaks)
            &&& p.replaces.deep_view() == list_text(deb.replaces)
            &&& p.provides.deep_view() == list_text(deb.provides)
            &&& deb.depends is Some ==> Some(p.wildcard_depends@) == list_text(deb.depends)
            &&& deb.name matches Some(n) ==> p.deb_name@ == n@
            &&& p.cargo_crate_name@ == pkg.name@
            &&& o.maintainer is None && deb.maintainer is Some ==> p.maintainer.deep_view() == Some(
                deb.maintainer->0@,
            )
            &&& deb.copyright matches Some(c) ==> p.copyright.deep_view() == Some(c@)
            &&& o.section is None ==> p.section.deep_view() == deb.section.deep_view()
            &&& deb.priority matches Some(x) ==> p.priority@ == x@
            &&& deb.conf_files matches Some(c) ==> p.conf_files.deep_view() == c.deep_view()
            &&& p.triggers_file_rel_path.deep_view() == deb.triggers_file.deep_view()
            &&& p.changelog.deep_view() == deb.changelog.deep_view()
            &&& o.maintainer_scripts_rel_path is None ==> p.maintainer_scripts_rel_path.deep_view()
                == deb.maintainer_scripts.deep_view()
            &&& deb.extended_description matches Some(d) ==> (
            p.extended_description matches ExtendedDescription::Text(t) && t@ == d@)
            &&& options.rust_target_triple matches Some(t) ==> p.architecture@ == debian_architecture(
                t@,
            )
            &&& options.rust_target_triple is None ==> p.architecture@ == debian_architecture(
                machine.host_triple@,
            )
            &&& p.multiarch == options.multiarch
            &&& p.default_timestamp == timestamp(machine)->Ok_0 as u64
            &&& deb.assets matches Some(a) ==> project.2.deep_view() == a.deep_view()
            &&& deb.assets is None ==> project.2.deep_view() == seq![RawAssetOrAutoView::Auto]
        }),
{
}

// ---------------------------------------------------------------------------
// Debug symbols
// ---------------------------------------------------------------------------
/// What is known of debug symbols from the profile: stripped, disabled, packed elsewhere, or added.
pub proof fn law_debug_flags(
    strip: Option<StripSetting>,
    debug: Option<DebugSetting>,
    split: Option<Seq<char>>,
)
    ensures
        debug_flags_of(strip, debug, split) == ManifestDebugFlags::FullyStrippedByCargo <==> strip
            == Some(StripSetting::Symbols),
        debug_flags_of(strip, debug, split) == ManifestDebugFlags::Default <==> strip != Some(
            StripSetting::Symbols,
        ) && debug is None,
        debug_flags_of(strip, debug, split) == ManifestDebugFlags::SymbolsDisabled <==> strip
            != Some(StripSetting::Symbols) && debug == Some(DebugSetting::Nothing),
        debug_flags_of(strip, debug, split) == ManifestDebugFlags::SymbolsPackedExternally <==> strip
            != Some(StripSetting::Symbols) && debug is Some && debug != Some(DebugSetting::Nothing)
            && split is Some && split->0 != "off"@,
        debug_flags_of(strip, debug, split) == ManifestDebugFlags::FullSymbolsAdded <==> strip is None
            && debug == Some(DebugSetting::Full) && (split is None || split->0 == "off"@) || (strip
            is Some && strip != Some(StripSetting::Symbols) && strip != Some(
            StripSetting::Debuginfo,
        ) && debug == Some(DebugSetting::Full) && (split is None || split->0 == "off"@)),
{
}

/// What is done with debug symbols. They are only separated if that was asked for; an explicit wish to
/// strip or to keep them is granted unless they are separated.
pub proof fn law_debug_symbols(
    options: DebugSymbolOptions,
    deb: CargoDeb,
    flags: ManifestDebugFlags,
)
    ensures
        ({
            let r = outcome(wishes(options, deb, flags), options.strip_override, flags);
            let dbgsym = if options.generate_dbgsym_package is Some {
                options.generate_dbgsym_package == Some(true)
            } else if options.strip_override == Some(false) {
                false
            } else {
                deb.dbgsym == Some(true)
            };
            let separate = dbgsym || if options.separate_debug_symbols is Some {
                options.separate_debug_symbols == Some(true)
            } else if options.strip_override == Some(false) {
                false
            } else {
                deb.separate_debug_symbols == Some(true)
            };
            let possible = flags != ManifestDebugFlags::FullyStrippedByCargo && flags
                != ManifestDebugFlags::SymbolsDisabled;
            &&& r is Separate <==> separate && possible
            &&& r matches DebugSymbols::Separate {
                generate_dbgsym_package,
                ..
            } ==> generate_dbgsym_package == dbgsym
            &&& r !is Separate && options.strip_override == Some(true) ==> r == DebugSymbols::Strip
            &&& r !is Separate && options.strip_override == Some(false) ==> r == DebugSymbols::Keep
            &&& r !is Separate && options.strip_override is None ==> r == if flags
                == ManifestDebugFlags::SymbolsDisabled || flags == ManifestDebugFlags::Default {
                DebugSymbols::Strip
            } else {
                DebugSymbols::Keep
            }
        }),
{
}

/// Separate symbols are compressed as the options say, else as the manifest says, else not at all.
pub proof fn law_compressed_symbols(
    options: DebugSymbolOptions,
    deb: CargoDeb,
    flags: ManifestDebugFlags,
    c: CompressDebugSymbols,
    dbgsym: bool,
)
    requires
        outcome(wishes(options, deb, flags), options.strip_override, flags)
            == (DebugSymbols::Separate { compress: c, generate_dbgsym_package: dbgsym }),
    ensures
        options.compress_debug_symbols is None && deb.compress_debug_symbols is None ==> c
            == CompressDebugSymbols::No,
        options.compress_debug_symbols matches Some(asked) ==> c == asked || (asked
            == CompressDebugSymbols::Auto && c == CompressDebugSymbols::Zstd && flags
            == ManifestDebugFlags::FullSymbolsAdded),
        options.compress_debug_symbols is None ==> (deb.compress_debug_symbols matches Some(asked)
            ==> c == asked || (asked == CompressDebugSymbols::Auto && c
            == CompressDebugSymbols::Zstd && flags == ManifestDebugFlags::FullSymbolsAdded)),
        c == CompressDebugSymbols::Auto ==> flags != ManifestDebugFlags::FullSymbolsAdded,
{
}

} // verus!
