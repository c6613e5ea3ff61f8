//! From a manifest to what is built and packaged.
use crate::arch::{debian_architecture, debian_architecture_from_rust_triple};
use crate::assets::{clone_option, clone_strings, RawAssetOrAuto, RawAssetOrAutoView};
use crate::config::debug::{configure_debug_symbols, flag_warning, outcome, wish_warning, wishes, Wishes};
use crate::config::package::{is_described, CargoPackage};
use crate::config::rules::{debian_package_name, package_name};
use crate::config::{BuildEnvironment, BuildOptions, DebugSymbols, PackageConfig};
use crate::error::{CDResult, CargoDebError, Cause, CauseView, ErrorView};
use crate::listener::{warn, Message, MessageView};
use crate::numbers::{number_value, parse_number, start_of_day};
use crate::parse::manifest::{debian_version, debug_flags, find_profile, first_of, inherits, known_flags, selected_profile, BuildProfile, CargoDeb, ManifestDebugFlags, Profile, Profiles, Variant};
use crate::parse::merge::RawAssetList;
use crate::parse::workspace::{first_index, lemma_first_index, lemma_no_index, CargoMetadataTarget};
use crate::paths::{join, parent, parent_of, path_join, strip_path_prefix, strip_prefix};
use crate::text::{cat3, find_from, same};
use vstd::prelude::*;
use vstd::string::StringExecFns;

verus! {

/// What Cargo and the manifests of a package and of its workspace say.
#[derive(Debug)]
pub struct ManifestFound {
    pub build_targets: Vec<CargoMetadataTarget>,
    pub manifest_path: String,
    pub workspace_root_manifest_path: String,
    /// The profiles of the workspace, where its manifest is another one.
    pub root_profiles: Option<Profiles>,
    pub target_dir: String,
    pub profiles: Profiles,
    /// The `[package]` table, which the manifest of a mere workspace lacks.
    pub package: Option<CargoPackage>,
    /// The `[package.metadata.deb]` table.
    pub deb: Option<CargoDeb>,
}

/// When the manifest was changed.
#[derive(Debug)]
pub enum ManifestTime {
    /// Seconds since the beginning of the year 1970.
    Seconds(u64),
    /// The file cannot be looked at.
    Unreadable(Cause),
    /// Before that year.
    TooEarly(Cause),
}

/// What is to be known of the machine.
#[derive(Debug)]
pub struct Machine {
    /// The variable `SOURCE_DATE_EPOCH`.
    pub source_date_epoch: Option<String>,
    pub manifest_time: ManifestTime,
    pub current_dir: String,
    pub host_triple: String,
    /// The variable that overrides the `strip` of the profile in use.
    pub strip_var: Option<String>,
    /// The variable that overrides its `debug`.
    pub debug_var: Option<String>,
}

// ---------------------------------------------------------------------------
// The time of generated files
// ---------------------------------------------------------------------------
/// The time that generated files have: the one that is asked for, else the day of the manifest.
pub open spec fn timestamp(m: Machine) -> Result<int, ErrorView> {
    match m.source_date_epoch {
        Some(text) => match number_value(text@, 10, u64::MAX as int) {
            Ok(n) => Ok(n),
            Err(e) => Err(
                ErrorView::NumParse(
                    "SOURCE_DATE_EPOCH"@,
                    CauseView { message: e.text(), sources: Seq::empty() },
                ),
            ),
        },
        None => match m.manifest_time {
            ManifestTime::Seconds(t) => Ok(t - t % 86400),
            ManifestTime::Unreadable(e) => Err(ErrorView::Io(e.deep_view())),
            ManifestTime::TooEarly(e) => Err(ErrorView::SystemTime(e.deep_view())),
        },
    }
}

impl Machine {
    /// The time that generated files have.
    pub fn default_timestamp(&self) -> (r: CDResult<u64>)
        ensures
            match r {
                Ok(t) => timestamp(*self) == Ok::<int, ErrorView>(t as int),
                Err(e) => timestamp(*self) == Err::<int, ErrorView>(e.deep_view()),
            },
    {
        match &self.source_date_epoch {
            Some(text) => match parse_number(text.as_str(), 10, u64::MAX) {
                Ok(n) => Ok(n),
                Err(e) => Err(CargoDebError::NumParse("SOURCE_DATE_EPOCH", e.cause())),
            },
            None => match &self.manifest_time {
                ManifestTime::Seconds(t) => Ok(start_of_day(*t)),
                ManifestTime::Unreadable(e) => Err(CargoDebError::Io(e.clone())),
                ManifestTime::TooEarly(e) => Err(CargoDebError::SystemTime(e.clone())),
            },
        }
    }
}

// ---------------------------------------------------------------------------
// Variants
// ---------------------------------------------------------------------------
/// A manifest without a `[package.metadata.deb]` table.
pub open spec fn no_settings() -> CargoDeb {
    CargoDeb {
        name: None,
        maintainer: None,
        copyright: None,
        license_file: None,
        changelog: None,
        depends: None,
        pre_depends: None,
        recommends: None,
        suggests: None,
        enhances: None,
        conflicts: None,
        breaks: None,
        replaces: None,
        provides: None,
        extended_description: None,
        extended_description_file: None,
        section: None,
        priority: None,
        revision: None,
        conf_files: None,
        assets: None,
        merge_assets: None,
        triggers_file: None,
        maintainer_scripts: None,
        features: None,
        default_features: None,
        separate_debug_symbols: None,
        dbgsym: None,
        compress_debug_symbols: None,
        preserve_symlinks: None,
        systemd_units: None,
        variants: None,
        profile: None,
    }
}

fn empty_settings() -> (r: CargoDeb)
    ensures
        r == no_settings(),
{
    CargoDeb {
        name: None,
        maintainer: None,
        copyright: None,
        license_file: None,
        changelog: None,
        depends: None,
        pre_depends: None,
        recommends: None,
        suggests: None,
        enhances: None,
        conflicts: None,
        breaks: None,
        replaces: None,
        provides: None,
        extended_description: None,
        extended_description_file: None,
        section: None,
        priority: None,
        revision: None,
        conf_files: None,
        assets: None,
        merge_assets: None,
        triggers_file: None,
        maintainer_scripts: None,
        features: None,
        default_features: None,
        separate_debug_symbols: None,
        dbgsym: None,
        compress_debug_symbols: None,
        preserve_symlinks: None,
        systemd_units: None,
        variants: None,
        profile: None,
    }
}

/// The settings of the package.
pub open spec fn settings(deb: Option<CargoDeb>) -> CargoDeb {
    match deb {
        Some(d) => d,
        None => no_settings(),
    }
}

pub open spec fn has_name(variants: Seq<Variant>, name: Seq<char>) -> spec_fn(int) -> bool {
    |i: int| variants[i].name@ == name
}

/// The place of a variant.
pub open spec fn variant_place(deb: CargoDeb, name: Seq<char>) -> Option<int> {
    match deb.variants {
        Some(v) => first_index(v@.len() as int, has_name(v@, name)),
        None => None,
    }
}

fn find_variant(variants: &Vec<Variant>, name: &str) -> (r: Option<usize>)
    ensures
        match r {
            Some(i) => i < variants.len() && first_index(
                variants@.len() as int,
                has_name(variants@, name@),
            ) == Some(i as int),
            None => first_index(variants@.len() as int, has_name(variants@, name@)) is None,
        },
{
    let ghost holds = has_name(variants@, name@);
    let mut i: usize = 0;
    while i < variants.len()
        invariant
            i <= variants.len(),
            holds == has_name(variants@, name@),
            forall|j: int| 0 <= j < i ==> !#[trigger] holds(j),
        decreases variants.len() - i,
    {
        if same(variants[i].name.as_str(), name) {
            proof {
                assert(holds(i as int));
                lemma_first_index(variants@.len() as int, holds, i as int);
            }
            return Some(i);
        }
        assert(!holds(i as int));
        i += 1;
    }
    proof {
        lemma_no_index(variants@.len() as int, holds);
    }
    None
}

/// The settings of the package as a variant inherits them: with a name for the variant, unless there
/// is one, and without the variant itself.
pub open spec fn is_parent(
    parent: CargoDeb,
    deb: CargoDeb,
    crate_name: Seq<char>,
    variant: Seq<char>,
) -> bool {
    &&& parent == (CargoDeb { name: parent.name, variants: parent.variants, ..deb })
    &&& deb.name is Some ==> parent.name == deb.name
    &&& deb.name is None ==> parent.name.deep_view() == Some(
        package_name(crate_name + "-"@ + variant),
    )
    &&& parent.variants is Some
    &&& parent.variants->0@ == deb.variants->0@.remove(variant_place(deb, variant)->0)
}

/// The settings that are in use: those of the package, or those of a variant and what it inherits.
pub open spec fn is_selected(
    r: CargoDeb,
    deb: CargoDeb,
    crate_name: Seq<char>,
    variant: Option<Seq<char>>,
) -> bool {
    match variant {
        None => r == deb,
        Some(v) => exists|parent: CargoDeb|
            #[trigger] is_parent(parent, deb, crate_name, v) && inherits(
                r,
                deb.variants->0@[variant_place(deb, v)->0].config,
                parent,
            ),
    }
}

/// What is said of a variant that has nothing to merge its assets with.
pub open spec fn variant_warning(deb: CargoDeb, variant: Option<Seq<char>>) -> Seq<MessageView> {
    match variant {
        None => Seq::empty(),
        Some(v) => {
            let own = deb.variants->0@[variant_place(deb, v)->0].config;
            if own.merge_assets is Some && own.assets is None && deb.assets is None {
                seq![MessageView::Warning("variant has merge-assets, but not assets to merge"@)]
            } else {
                Seq::empty()
            }
        },
    }
}

/// The settings of the package, or of a variant of it. If we build against a variant use that config
/// and change the package name
pub fn select_settings(
    deb: Option<CargoDeb>,
    crate_name: &str,
    variant: Option<&String>,
    log: &mut Vec<Message>,
) -> (r: CDResult<CargoDeb>)
    ensures
        ({
            let d = settings(deb);
            let v = match variant {
                Some(v) => Some(v@),
                None => None,
            };
            if v is Some && variant_place(d, v->0) is None {
                &&& r is Err && r->Err_0.deep_view() == ErrorView::VariantNotFound(v->0)
                &&& final(log).deep_view() == old(log).deep_view()
            } else {
                &&& r is Ok && is_selected(r->Ok_0, d, crate_name@, v)
                &&& final(log).deep_view() == old(log).deep_view() + variant_warning(d, v)
            }
        }),
{
    let mut deb = match deb {
        Some(d) => d,
        None => empty_settings(),
    };
    let ghost d = deb;
    let ghost log0 = log.deep_view();
    match variant {
        None => {
            assert(log0 =~= log0 + variant_warning(d, None));
            Ok(deb)
        },
        Some(variant) => {
            if deb.name.is_none() {
                let name = cat3(crate_name, "-", variant.as_str());
                deb.name = Some(debian_package_name(name.as_str()));
            }
            match deb.variants {
                Some(variants) => {
                    let mut variants = variants;
                    match find_variant(&variants, variant.as_str()) {
                        Some(i) => {
                            let own = variants.remove(i);
                            deb.variants = Some(variants);
                            assert(is_parent(deb, d, crate_name@, variant@));
                            let selected = own.config.inherit_from(deb, log);
                            assert(log.deep_view() =~= log0 + variant_warning(d, Some(variant@)));
                            Ok(selected)
                        },
                        None => Err(CargoDebError::VariantNotFound(variant.clone())),
                    }
                },
                None => Err(CargoDebError::VariantNotFound(variant.clone())),
            }
        },
    }
}

// ---------------------------------------------------------------------------
// Profiles
// ---------------------------------------------------------------------------
/// The profile that the settings ask for.
pub open spec fn default_profile(deb: CargoDeb, variant: Option<Seq<char>>) -> Option<String> {
    match variant {
        Some(v) => match variant_place(deb, v) {
            Some(i) => first_of(deb.variants->0@[i].config.profile, deb.profile),
            None => deb.profile,
        },
        None => deb.profile,
    }
}

/// The profile that is named: the one asked for, else that of the settings.
pub open spec fn named_profile(
    asked: Option<Seq<char>>,
    deb: CargoDeb,
    variant: Option<Seq<char>>,
) -> Option<Seq<char>> {
    first_of(asked, default_profile(deb, variant).deep_view())
}

/// The name of the profile in use, which is `release` where none is named.
pub open spec fn profile_in_use(
    asked: Option<Seq<char>>,
    deb: CargoDeb,
    variant: Option<Seq<char>>,
) -> Seq<char> {
    match named_profile(asked, deb, variant) {
        Some(name) => name,
        None => "release"@,
    }
}

pub open spec fn option_text(o: Option<String>) -> Option<Seq<char>> {
    match o {
        Some(s) => Some(s@),
        None => None,
    }
}

/// The name of the profile in use, unless it is the default.
pub fn select_profile(asked: &BuildProfile, deb: Option<&CargoDeb>, variant: Option<&String>) -> (r:
    Option<String>)
    ensures
        r.deep_view() == named_profile(
            option_text(asked.profile_name),
            settings(
                match deb {
                    Some(d) => Some(*d),
                    None => None,
                },
            ),
            match variant {
                Some(v) => Some(v@),
                None => None,
            },
        ),
{
    if let Some(name) = &asked.profile_name {
        return Some(name.clone());
    }
    if let Some(deb) = deb {
        if let Some(variant) = variant {
            if let Some(variants) = &deb.variants {
                if let Some(i) = find_variant(variants, variant.as_str()) {
                    if let Some(name) = &variants[i].config.profile {
                        return Some(name.clone());
                    }
                }
            }
        }
        return clone_option(&deb.profile);
    }
    None
}

/// What the profile in use says: that of the workspace goes before that of the package.
pub open spec fn profile_settings(found: ManifestFound, name: Seq<char>) -> Option<Profile> {
    first_of(
        match found.root_profiles {
            Some(root) => selected_profile(root, name),
            None => None,
        },
        selected_profile(found.profiles, name),
    )
}

/// What is said of a profile that both manifests have.
pub open spec fn profile_warning(found: ManifestFound, name: Seq<char>) -> Seq<MessageView> {
    if found.root_profiles is Some && selected_profile(found.root_profiles->0, name) is Some
        && selected_profile(found.profiles, name) is Some {
        let rel_path = match parent(found.workspace_root_manifest_path@) {
            Some(base) => match strip_path_prefix(found.manifest_path@, base) {
                Some(p) => p,
                None => found.manifest_path@,
            },
            None => found.manifest_path@,
        };
        seq![
            MessageView::Warning(
                "The [profile."@ + name
                    + "] is in both the package and the root workspace.\nPicking root ("@
                    + found.workspace_root_manifest_path@ + ") over the package ("@ + rel_path
                    + ") for compatibility with Cargo"@,
            ),
        ]
    } else {
        Seq::empty()
    }
}

/// What is known of debug symbols from the profile in use, which is the one of the workspace where
/// it has one.
fn flags_of_profile(
    found: &ManifestFound,
    build_profile: &BuildProfile,
    machine: &Machine,
    log: &mut Vec<Message>,
) -> (r: ManifestDebugFlags)
    ensures
        r == known_flags(
            profile_settings(*found, build_profile.name()),
            build_profile.override_debug.deep_view(),
            machine.strip_var.deep_view(),
            machine.debug_var.deep_view(),
        ),
        final(log).deep_view() == old(log).deep_view() + profile_warning(
            *found,
            build_profile.name(),
        ),
{
    let ghost log0 = log.deep_view();
    let selected_profile = build_profile.profile_name();
    let package_profile = find_profile(&found.profiles, selected_profile);
    let root_profile = match &found.root_profiles {
        Some(root) => find_profile(root, selected_profile),
        None => None,
    };
    if package_profile.is_some() && root_profile.is_some() {
        let rel_path = match parent_of(found.workspace_root_manifest_path.as_str()) {
            Some(base) => match strip_prefix(found.manifest_path.as_str(), base.as_str()) {
                Some(p) => p,
                None => found.manifest_path.clone(),
            },
            None => found.manifest_path.clone(),
        };
        let mut text = cat3(
            "The [profile.",
            selected_profile,
            "] is in both the package and the root workspace.\nPicking root (",
        );
        text.append(found.workspace_root_manifest_path.as_str());
        text.append(") over the package (");
        text.append(rel_path.as_str());
        text.append(") for compatibility with Cargo");
        warn(log, text);
    }
    assert(log.deep_view() =~= log0 + profile_warning(*found, build_profile.name()));
    let profile = match root_profile {
        Some(p) => Some(p),
        None => package_profile,
    };
    debug_flags(profile, build_profile, machine.strip_var.as_ref(), machine.debug_var.as_ref())
}

// ---------------------------------------------------------------------------
// Projects
// ---------------------------------------------------------------------------
/// The directory that a file is in.
pub open spec fn directory_of(path: Seq<char>) -> Seq<char> {
    match parent(path) {
        Some(dir) => dir,
        None => path,
    }
}

/// The debug symbols that Cargo is asked for: if they are to go to other files, and the manifest does
/// not speak of them, some are built anyway.
pub open spec fn symbols_override(
    asked: Option<Seq<char>>,
    w: Wishes,
    flags: ManifestDebugFlags,
) -> Option<Seq<char>> {
    if asked is None && w.separate() && flags == ManifestDebugFlags::Default {
        Some("line-tables-only"@)
    } else {
        asked
    }
}

/// What is built, and how.
pub open spec fn is_environment(
    r: BuildEnvironment,
    options: BuildOptions,
    found: ManifestFound,
    machine: Machine,
    deb: CargoDeb,
    flags: ManifestDebugFlags,
) -> bool {
    &&& r.package_manifest_dir@ == directory_of(found.manifest_path@)
    &&& r.cargo_run_current_dir@ == machine.current_dir@
    &&& r.deb_output_path == options.deb_output_path
    &&& r.rust_target_triple == options.rust_target_triple
    &&& r.host_triple@ == machine.host_triple@
    &&& r.target_dir@ == match options.rust_target_triple {
        Some(triple) => path_join(found.target_dir@, triple@),
        None => found.target_dir@,
    }
    &&& r.features.deep_view() == (match deb.features {
        Some(features) => features.deep_view(),
        None => Seq::empty(),
    }) + options.overrides.features.deep_view()
    &&& r.default_features == (!options.overrides.no_default_features && deb.default_features
        != Some(false))
    &&& r.all_features == options.overrides.all_features
    &&& r.debug_symbols == outcome(
        wishes(options.debug, deb, flags),
        options.debug.strip_override,
        flags,
    )
    &&& r.reproducible == (machine.source_date_epoch is Some)
    &&& r.build_profile.profile_name.deep_view() == named_profile(
        option_text(options.build_profile.profile_name),
        settings(found.deb),
        option_text(options.config_variant),
    )
    &&& r.build_profile.override_debug.deep_view() == symbols_override(
        options.build_profile.override_debug.deep_view(),
        wishes(options.debug, deb, flags),
        flags,
    )
    &&& r.build_profile.override_lto == options.build_profile.override_lto
    &&& r.build_targets == found.build_targets
    &&& r.cargo_locking_flags == options.cargo_locking_flags
}

/// The settings without what is taken out of them: the features and the assets.
pub open spec fn rest_of(deb: CargoDeb) -> CargoDeb {
    CargoDeb { features: None, assets: None, ..deb }
}

/// What is built and packaged with these settings; and what is said.
pub open spec fn is_project(
    r: CDResult<(BuildEnvironment, PackageConfig, RawAssetList)>,
    options: BuildOptions,
    found: ManifestFound,
    machine: Machine,
    deb: CargoDeb,
    before: Seq<MessageView>,
    said: Seq<MessageView>,
) -> bool {
    let profile = profile_in_use(
        option_text(options.build_profile.profile_name),
        settings(found.deb),
        option_text(options.config_variant),
    );
    let flags = known_flags(
        profile_settings(found, profile),
        options.build_profile.override_debug.deep_view(),
        machine.strip_var.deep_view(),
        machine.debug_var.deep_view(),
    );
    let w = wishes(options.debug, deb, flags);
    let architecture = debian_architecture(
        match options.rust_target_triple {
            Some(triple) => triple@,
            None => machine.host_triple@,
        },
    );
    let told = before + profile_warning(found, profile) + variant_warning(
        settings(found.deb),
        option_text(options.config_variant),
    ) + wish_warning(w, options.debug.strip_override) + flag_warning(w, flags, profile);
    &&& is_described(
        match r {
            Ok(project) => Ok(project.1),
            Err(e) => Err(e),
        },
        rest_of(deb),
        found.package->0,
        timestamp(machine)->Ok_0 as u64,
        options.overrides,
        architecture,
        options.multiarch,
        told,
        said,
    )
    &&& r is Ok ==> {
        &&& is_environment(r->Ok_0.0, options, found, machine, deb, flags)
        &&& (r->Ok_0).2.deep_view() == match deb.assets {
            Some(assets) => assets.deep_view(),
            None => seq![RawAssetOrAutoView::Auto],
        }
    }
}

/// The features of the settings, and those that are asked for.
fn all_features(own: Option<Vec<String>>, asked: &Vec<String>) -> (r: Vec<String>)
    ensures
        r.deep_view() == (match own {
            Some(features) => features.deep_view(),
            None => Seq::empty(),
        }) + asked.deep_view(),
{
    let mut features: Vec<String> = match own {
        Some(f) => f,
        None => Vec::new(),
    };
    let ghost first = features.deep_view();
    let mut more = clone_strings(asked);
    features.append(&mut more);
    assert(features.deep_view() =~= first + asked.deep_view());
    assert(own is None ==> first =~= Seq::<Seq<char>>::empty());
    features
}

/// The assets of the settings, else those that are found.
fn assets_or_auto(own: Option<RawAssetList>) -> (r: RawAssetList)
    ensures
        r.deep_view() == match own {
            Some(assets) => assets.deep_view(),
            None => seq![RawAssetOrAutoView::Auto],
        },
{
    match own {
        Some(a) => a,
        None => {
            let mut a: RawAssetList = Vec::new();
            a.push(RawAssetOrAuto::Auto);
            assert(a.deep_view() =~= seq![RawAssetOrAutoView::Auto]);
            a
        },
    }
}

impl BuildEnvironment {
    /// Makes a new config from `Cargo.toml`: where and how to build, what is packaged, and the
    /// assets that are yet to be added to it.
    ///
    /// `None` target means the host machine's architecture.
    pub fn from_manifest(
        options: BuildOptions,
        found: ManifestFound,
        machine: Machine,
        log: &mut Vec<Message>,
    ) -> (r: CDResult<(BuildEnvironment, PackageConfig, RawAssetList)>)
        ensures
            ({
                let variant = option_text(options.config_variant);
                let d = settings(found.deb);
                let profile = profile_in_use(
                    option_text(options.build_profile.profile_name),
                    d,
                    variant,
                );
                let before = old(log).deep_view() + profile_warning(found, profile);
                match timestamp(machine) {
                    Err(e) => {
                        &&& r is Err && r->Err_0.deep_view() == e
                        &&& final(log).deep_view() == old(log).deep_view()
                    },
                    Ok(time) => if found.package is None {
                        &&& r is Err && r->Err_0.deep_view() == ErrorView::Str(
                            "Cargo.toml is a workspace, not a package"@,
                        )
                        &&& final(log).deep_view() == before
                    } else if variant is Some && variant_place(d, variant->0) is None {
                        &&& r is Err && r->Err_0.deep_view() == ErrorView::VariantNotFound(
                            variant->0,
                        )
                        &&& final(log).deep_view() == before
                    } else {
                        exists|deb: CargoDeb| #[trigger]
                            is_selected(deb, d, found.package->0.name@, variant) && is_project(
                                r,
                                options,
                                found,
                                machine,
                                deb,
                                old(log).deep_view(),
                                final(log).deep_view(),
                            )
                    },
                }
            }),
    {
        let default_timestamp = machine.default_timestamp()?;
        let profile_name = select_profile(
            &options.build_profile,
            found.deb.as_ref(),
            options.config_variant.as_ref(),
        );
        let build_profile = BuildProfile {
            profile_name,
            override_debug: options.build_profile.override_debug,
            override_lto: options.build_profile.override_lto,
        };
        let manifest_debug = flags_of_profile(&found, &build_profile, &machine, log);
        let cargo_package = match found.package {
            Some(p) => p,
            None => {
                return Err(CargoDebError::Str("Cargo.toml is a workspace, not a package"));
            },
        };
        let mut deb = select_settings(
            found.deb,
            cargo_package.name.as_str(),
            options.config_variant.as_ref(),
            log,
        )?;
        let ghost selected = deb;
        let debug_symbols = configure_debug_symbols(
            &options.debug,
            &deb,
            manifest_debug,
            build_profile.profile_name(),
            log,
        );
        let mut build_profile = build_profile;
        let separate = match debug_symbols {
            DebugSymbols::Separate { .. } => true,
            _ => false,
        };
        if separate && manifest_debug == ManifestDebugFlags::Default
            && build_profile.override_debug.is_none() {
            build_profile.override_debug = Some("line-tables-only".to_owned());
        }
        let features = all_features(deb.features.take(), &options.overrides.features);
        let assets = assets_or_auto(deb.assets.take());
        assert(deb == rest_of(selected));
        let package_manifest_dir = match parent_of(found.manifest_path.as_str()) {
            Some(dir) => dir,
            None => found.manifest_path.clone(),
        };
        let target_dir = match &options.rust_target_triple {
            // Cargo cross-compiles to a dir
            Some(triple) => join(found.target_dir.as_str(), triple.as_str()),
            None => found.target_dir.clone(),
        };
        let default_features = if options.overrides.no_default_features {
            false
        } else {
            deb.default_features.unwrap_or(true)
        };
        let config = BuildEnvironment {
            package_manifest_dir,
            cargo_run_current_dir: machine.current_dir,
            deb_output_path: options.deb_output_path,
            rust_target_triple: options.rust_target_triple,
            host_triple: machine.host_triple,
            target_dir,
            features,
            default_features,
            all_features: options.overrides.all_features,
            debug_symbols,
            reproducible: machine.source_date_epoch.is_some(),
            build_profile,
            build_targets: found.build_targets,
            cargo_locking_flags: options.cargo_locking_flags,
        };
        let arch = debian_architecture_from_rust_triple(config.rust_target_triple());
        let package_deb = PackageConfig::new(
            deb,
            &cargo_package,
            log,
            default_timestamp,
            options.overrides,
            arch.as_str(),
            options.multiarch,
        );
        match package_deb {
            Ok(package_deb) => Ok((config, package_deb, assets)),
            Err(e) => Err(e),
        }
    }
}

/// A profile is read from the root of the workspace, where it is there.
pub proof fn law_root_profile_wins(found: ManifestFound, name: Seq<char>)
    requires
        found.root_profiles is Some,
        selected_profile(found.root_profiles->0, name) is Some,
    ensures
        profile_settings(found, name) == selected_profile(found.root_profiles->0, name),
{
}

/// Without any settings, the package is created in the directory of packages, under the name of the
/// project, with its version and the revision 1. What is built for another machine goes to a directory
/// of its own.
pub proof fn law_default_package_path(
    options: BuildOptions,
    found: ManifestFound,
    machine: Machine,
    before: Seq<MessageView>,
    said: Seq<MessageView>,
    project: (BuildEnvironment, PackageConfig, RawAssetList),
    output_path_is_dir: bool,
)
    requires
        is_project(Ok(project), options, found, machine, no_settings(), before, said),
        options.deb_output_path is None,
        options.overrides.deb_version is None,
        options.overrides.deb_revision is None,
    ensures
        ({
            let package = found.package->0;
            let dir = match options.rust_target_triple {
                Some(triple) => path_join(found.target_dir@, triple@),
                None => found.target_dir@,
            };
            let triple = match options.rust_target_triple {
                Some(triple) => triple@,
                None => machine.host_triple@,
            };
            &&& project.0.output_path(project.1, output_path_is_dir) == path_join(
                path_join(dir, "debian"@),
                package_name(package.name@) + "_"@ + debian_version(package.version@, None) + "_"@
                    + debian_architecture(triple) + ".deb"@,
            )
            &&& find_from(package.version@, '-', 0) == package.version@.len() ==> debian_version(
                package.version@,
                None,
            ) == package.version@ + "-1"@
        }),
{
    let version = found.package->0.version@;
    let p = project.1;
    assert(p.deb_version@ == debian_version(version, None));
    reveal_strlit("-1");
    assert(seq!['1'][0] != seq!['0'][0]);
    assert(version + seq!['-'] + seq!['1'] =~= version + "-1"@);
}

} // verus!
