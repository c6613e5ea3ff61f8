//! The manifest of a package.
use crate::listener::{Message, MessageView};
use crate::parse::merge::{merged, MergeAssets, RawAssetList};
use crate::text::{cat3, chars_of, find_from, index_from, join, join_strings, same, slice};
use vstd::prelude::*;
use vstd::string::StringExecFns;

verus! {

/// Configuration settings for the `systemd_units` functionality.
///
/// `unit_scripts`: (optional) relative path to a directory containing correctly
/// named systemd unit files. If not supplied, defaults to the
/// `maintainer_scripts` directory.
///
/// `unit_name`: (optional) in cases where the `unit_scripts` directory contains
/// multiple units, only process those matching this unit name.
#[derive(Debug, Default)]
pub struct SystemdUnitsConfig {
    pub unit_scripts: Option<String>,
    pub unit_name: Option<String>,
    pub enable: Option<bool>,
    pub start: Option<bool>,
    pub restart_after_upgrade: Option<bool>,
    pub stop_on_upgrade: Option<bool>,
    pub usr_merge: Option<bool>,
}

/// How units are to be installed.
#[derive(Debug, Clone, Copy, PartialEq, Eq, Structural)]
pub struct UnitOptions {
    pub no_enable: bool,
    pub no_start: bool,
    pub restart_after_upgrade: bool,
    pub no_stop_on_upgrade: bool,
}

pub open spec fn default_true(b: Option<bool>) -> bool {
    b != Some(false)
}

impl SystemdUnitsConfig {
    /// Match the official `dh_installsystemd` defaults and rename the confusing
    /// `dh_installsystemd` option names to be consistently positive rather than
    /// mostly, but not always, negative.
    pub fn options(&self) -> (r: UnitOptions)
        ensures
            r.no_enable == !default_true(self.enable),
            r.no_start == !default_true(self.start),
            r.restart_after_upgrade == default_true(self.restart_after_upgrade),
            r.no_stop_on_upgrade == !default_true(self.stop_on_upgrade),
    {
        UnitOptions {
            no_enable: !self.enable.unwrap_or(true),
            no_start: !self.start.unwrap_or(true),
            restart_after_upgrade: self.restart_after_upgrade.unwrap_or(true),
            no_stop_on_upgrade: !self.stop_on_upgrade.unwrap_or(true),
        }
    }
}

// ---------------------------------------------------------------------------
// Debug symbols
// ---------------------------------------------------------------------------
#[derive(Copy, Clone, Debug, PartialEq, Eq, Structural)]
pub enum ManifestDebugFlags {
    /// Don't bother stripping again
    FullyStrippedByCargo,
    /// Explicitly doesn't want debug symbols
    SymbolsDisabled,
    SymbolsPackedExternally,
    SomeSymbolsAdded,
    FullSymbolsAdded,
    /// Not explicitly specified either way
    Default,
}

/// What Cargo strips.
#[derive(Copy, Clone, Debug, PartialEq, Eq, Structural)]
pub enum StripSetting {
    Nothing,
    Debuginfo,
    Symbols,
}

/// Which debug symbols Cargo adds.
#[derive(Copy, Clone, Debug, PartialEq, Eq, Structural)]
pub enum DebugSetting {
    Nothing,
    Lines,
    Full,
}

/// What a build profile says of debug symbols.
#[derive(Debug)]
pub struct Profile {
    pub strip: Option<StripSetting>,
    pub debug: Option<DebugSetting>,
    pub split_debuginfo: Option<String>,
}

/// A profile under its name.
#[derive(Debug)]
pub struct NamedProfile {
    pub name: String,
    pub profile: Profile,
}

/// The profiles of a manifest.
#[derive(Debug)]
pub struct Profiles {
    pub release: Option<Profile>,
    /// The others, each under a name of its own.
    pub custom: Vec<NamedProfile>,
}

#[derive(Debug, Default)]
pub struct BuildProfile {
    /// "release" by default
    pub profile_name: Option<String>,
    /// Cargo setting
    pub override_debug: Option<String>,
    pub override_lto: Option<String>,
}

impl BuildProfile {
    pub open spec fn name(self) -> Seq<char> {
        match self.profile_name {
            Some(n) => n@,
            None => "release"@,
        }
    }

    #[must_use]
    pub fn profile_name(&self) -> (r: &str)
        ensures
            r@ == self.name(),
    {
        match &self.profile_name {
            Some(n) => n.as_str(),
            None => "release",
        }
    }
}

/// The first profile under a name.
pub open spec fn custom_profile(profiles: Seq<NamedProfile>, name: Seq<char>) -> Option<Profile>
    decreases profiles.len(),
{
    if profiles.len() == 0 {
        None
    } else {
        match custom_profile(profiles.drop_last(), name) {
            Some(p) => Some(p),
            None => if profiles.last().name@ == name {
                Some(profiles.last().profile)
            } else {
                None
            },
        }
    }
}

pub open spec fn selected_profile(m: Profiles, name: Seq<char>) -> Option<Profile> {
    if name == "release"@ {
        m.release
    } else {
        custom_profile(m.custom@, name)
    }
}

/// The profile of a name.
pub fn find_profile<'a>(manifest: &'a Profiles, selected_profile: &str) -> (r: Option<&'a Profile>)
    ensures
        r is Some <==> self::selected_profile(*manifest, selected_profile@) is Some,
        r is Some ==> self::selected_profile(*manifest, selected_profile@) == Some(*r->0),
{
    if same(selected_profile, "release") {
        return manifest.release.as_ref();
    }
    let ghost all = manifest.custom@;
    let mut i: usize = 0;
    assert(all.take(0) =~= Seq::<NamedProfile>::empty());
    while i < manifest.custom.len()
        invariant
            i <= manifest.custom.len(),
            all == manifest.custom@,
            selected_profile@ != "release"@,
            custom_profile(all.take(i as int), selected_profile@) is None,
        decreases manifest.custom.len() - i,
    {
        assert(all.take(i + 1).drop_last() =~= all.take(i as int));
        assert(all.take(i + 1).last() == all[i as int]);
        if same(manifest.custom[i].name.as_str(), selected_profile) {
            proof {
                lemma_custom_profile(all, selected_profile@, i + 1);
            }
            return Some(&manifest.custom[i].profile);
        }
        i += 1;
    }
    assert(all.take(i as int) =~= all);
    None
}

proof fn lemma_custom_profile(all: Seq<NamedProfile>, name: Seq<char>, i: int)
    requires
        0 <= i <= all.len(),
        custom_profile(all.take(i), name) is Some,
    ensures
        custom_profile(all, name) == custom_profile(all.take(i), name),
    decreases all.len(),
{
    if i == all.len() {
        assert(all.take(i) =~= all);
    } else {
        assert(all.drop_last().take(i) =~= all.take(i));
        lemma_custom_profile(all.drop_last(), name, i);
    }
}

/// The strip setting that a TOML value is.
pub uninterp spec fn toml_strip(text: Seq<char>) -> Option<StripSetting>;

/// The debug setting that a TOML value is.
pub uninterp spec fn toml_debug(text: Seq<char>) -> Option<DebugSetting>;

/// Reads `cargo_toml::StripSetting` with `toml::de::ValueDeserializer`: a text that is a TOML value
/// has at most one setting.
#[verifier::external_body]
fn parse_strip(text: &str) -> (r: Option<StripSetting>)
    ensures
        r == toml_strip(text@),
{
    let value = toml::de::ValueDeserializer::new(text);
    match <cargo_toml::StripSetting as serde::Deserialize>::deserialize(value) {
        Ok(cargo_toml::StripSetting::None) => Some(StripSetting::Nothing),
        Ok(cargo_toml::StripSetting::Debuginfo) => Some(StripSetting::Debuginfo),
        Ok(cargo_toml::StripSetting::Symbols) => Some(StripSetting::Symbols),
        Err(_) => None,
    }
}

/// Reads `cargo_toml::DebugSetting` with `toml::de::ValueDeserializer`: a text that is a TOML value
/// has at most one setting.
#[verifier::external_body]
fn parse_debug(text: &str) -> (r: Option<DebugSetting>)
    ensures
        r == toml_debug(text@),
{
    let value = toml::de::ValueDeserializer::new(text);
    match <cargo_toml::DebugSetting as serde::Deserialize>::deserialize(value) {
        Ok(cargo_toml::DebugSetting::None) => Some(DebugSetting::Nothing),
        Ok(cargo_toml::DebugSetting::Lines) => Some(DebugSetting::Lines),
        Ok(cargo_toml::DebugSetting::Full) => Some(DebugSetting::Full),
        Err(_) => None,
    }
}

pub open spec fn quoted(text: Seq<char>) -> Seq<char> {
    "\""@ + text + "\""@
}

/// The strip setting of a variable: as a TOML value, else as a string.
pub open spec fn strip_of_var(text: Seq<char>) -> Option<StripSetting> {
    if toml_strip(text) is Some {
        toml_strip(text)
    } else {
        toml_strip(quoted(text))
    }
}

/// The debug setting of a variable: as a TOML value, else as a string.
pub open spec fn debug_of_var(text: Seq<char>) -> Option<DebugSetting> {
    if toml_debug(text) is Some {
        toml_debug(text)
    } else {
        toml_debug(quoted(text))
    }
}

fn strip_from_toml_value(toml: &str) -> (r: Option<StripSetting>)
    ensures
        r == strip_of_var(toml@),
{
    // support parsing `true` as bool, but other values as strings
    match parse_strip(toml) {
        Some(s) => Some(s),
        None => {
            let q = cat3("\"", toml, "\"");
            parse_strip(q.as_str())
        },
    }
}

fn debug_from_toml_value(toml: &str) -> (r: Option<DebugSetting>)
    ensures
        r == debug_of_var(toml@),
{
    match parse_debug(toml) {
        Some(s) => Some(s),
        None => {
            let q = cat3("\"", toml, "\"");
            parse_debug(q.as_str())
        },
    }
}

/// What the settings mean for the debug symbols of the build.
pub open spec fn debug_flags_of(
    strip: Option<StripSetting>,
    debug: Option<DebugSetting>,
    split_debuginfo: Option<Seq<char>>,
) -> ManifestDebugFlags {
    if strip == Some(StripSetting::Symbols) {
        ManifestDebugFlags::FullyStrippedByCargo
    } else {
        match debug {
            None => ManifestDebugFlags::Default,
            Some(DebugSetting::Nothing) => ManifestDebugFlags::SymbolsDisabled,
            Some(d) => if split_debuginfo is Some && split_debuginfo != Some("off"@) {
                ManifestDebugFlags::SymbolsPackedExternally
            } else if d == DebugSetting::Full && strip != Some(StripSetting::Debuginfo) {
                ManifestDebugFlags::FullSymbolsAdded
            } else {
                ManifestDebugFlags::SomeSymbolsAdded
            },
        }
    }
}

/// What the settings mean for the debug symbols of the build.
pub fn flags_of_settings(
    strip: Option<StripSetting>,
    debug: Option<DebugSetting>,
    split_debuginfo: Option<&String>,
) -> (r: ManifestDebugFlags)
    ensures
        r == debug_flags_of(
            strip,
            debug,
            match split_debuginfo {
                Some(s) => Some(s@),
                None => None,
            },
        ),
{
    match strip {
        Some(StripSetting::Symbols) => {
            return ManifestDebugFlags::FullyStrippedByCargo;
        },
        _ => {},
    }
    let packed = match split_debuginfo {
        Some(p) => !same(p.as_str(), "off"),
        None => false,
    };
    match debug {
        None => ManifestDebugFlags::Default,
        Some(DebugSetting::Nothing) => ManifestDebugFlags::SymbolsDisabled,
        Some(d) => {
            if packed {
                ManifestDebugFlags::SymbolsPackedExternally
            } else {
                match (d, strip) {
                    (DebugSetting::Full, Some(
                        StripSetting::Debuginfo,
                    )) => ManifestDebugFlags::SomeSymbolsAdded,
                    (DebugSetting::Full, _) => ManifestDebugFlags::FullSymbolsAdded,
                    _ => ManifestDebugFlags::SomeSymbolsAdded,
                }
            }
        },
    }
}

/// The name of the variable by which Cargo overrides a setting of a profile.
pub open spec fn cargo_var(profile: Seq<char>, name: Seq<char>) -> Seq<char> {
    "CARGO_PROFILE_"@ + upper(profile) + "_"@ + name
}

/// The letter in upper case, where it is one of the alphabet.
pub open spec fn upper_char(c: char) -> char {
    if 'a' <= c <= 'z' {
        (c as u32 - 32) as char
    } else {
        c
    }
}

/// The letter in lower case, where it is one of the alphabet.
pub open spec fn lower_char(c: char) -> char {
    if 'A' <= c <= 'Z' {
        (c as u32 + 32) as char
    } else {
        c
    }
}

pub open spec fn upper(s: Seq<char>) -> Seq<char> {
    s.map_values(|c: char| upper_char(c))
}

pub open spec fn lower(s: Seq<char>) -> Seq<char> {
    s.map_values(|c: char| lower_char(c))
}

pub fn upper_of(c: char) -> (r: char)
    ensures
        r == upper_char(c),
{
    if 'a' <= c && c <= 'z' {
        (c as u8 - 32) as char
    } else {
        c
    }
}

pub fn lower_of(c: char) -> (r: char)
    ensures
        r == lower_char(c),
{
    if 'A' <= c && c <= 'Z' {
        (c as u8 + 32) as char
    } else {
        c
    }
}

pub fn to_upper(s: &str) -> (r: String)
    ensures
        r@ == upper(s@),
{
    let v = chars_of(s);
    let mut out = String::new();
    let mut i: usize = 0;
    assert(out@ =~= upper(s@).take(0));
    while i < v.len()
        invariant
            v@ == s@,
            i <= v.len(),
            out@ == upper(s@).take(i as int),
        decreases v.len() - i,
    {
        out.push(upper_of(v[i]));
        assert(upper(s@).take(i + 1) =~= upper(s@).take(i as int).push(upper_char(v@[i as int])));
        i += 1;
    }
    assert(upper(s@).take(i as int) =~= upper(s@));
    out
}

/// The name of the variable by which Cargo overrides a setting of a profile.
pub fn cargo_var_name(profile: &str, name: &str) -> (r: String)
    ensures
        r@ == cargo_var(profile@, name@),
{
    let p = to_upper(profile);
    let mut s = cat3("CARGO_PROFILE_", p.as_str(), "_");
    s.append(name);
    s
}

/// What is known of debug symbols before the build: a variable, or an option, goes before what the
/// profile says, unless it makes no sense.
pub open spec fn known_flags(
    profile: Option<Profile>,
    override_debug: Option<Seq<char>>,
    strip_var: Option<Seq<char>>,
    debug_var: Option<Seq<char>>,
) -> ManifestDebugFlags {
    let strip = match strip_var {
        Some(v) if strip_of_var(v) is Some => strip_of_var(v),
        _ => match profile {
            Some(p) => p.strip,
            None => None,
        },
    };
    let debug = match first_of(override_debug, debug_var) {
        Some(t) if debug_of_var(t) is Some => debug_of_var(t),
        _ => match profile {
            Some(p) => p.debug,
            None => None,
        },
    };
    let split = match profile {
        Some(p) => p.split_debuginfo.deep_view(),
        None => None,
    };
    debug_flags_of(strip, debug, split)
}

/// What is known of debug symbols before the build: from the profile of the manifest, the variables
/// that override its `strip` and `debug` (given their values), and the options.
pub fn debug_flags(
    manifest_profile: Option<&Profile>,
    profile_override: &BuildProfile,
    strip_var: Option<&String>,
    debug_var: Option<&String>,
) -> (r: ManifestDebugFlags)
    ensures
        r == known_flags(
            match manifest_profile {
                Some(p) => Some(*p),
                None => None,
            },
            profile_override.override_debug.deep_view(),
            match strip_var {
                Some(v) => Some(v@),
                None => None,
            },
            match debug_var {
                Some(v) => Some(v@),
                None => None,
            },
        ),
{
    let mut strip = match strip_var {
        Some(v) => strip_from_toml_value(v.as_str()),
        None => None,
    };
    let text = match &profile_override.override_debug {
        Some(o) => Some(o),
        None => debug_var,
    };
    let mut debug = match text {
        Some(t) => debug_from_toml_value(t.as_str()),
        None => None,
    };
    let mut split: Option<&String> = None;
    if let Some(p) = manifest_profile {
        if strip.is_none() {
            strip = p.strip;
        }
        if debug.is_none() {
            debug = p.debug;
        }
        split = p.split_debuginfo.as_ref();
    }
    flags_of_settings(strip, debug, split)
}

// ---------------------------------------------------------------------------
// Versions
// ---------------------------------------------------------------------------
pub open spec fn is_digit(c: char) -> bool {
    '0' <= c <= '9'
}

/// Whether what follows the first hyphen of a version is a pre-release to be ordered before the
/// release: it has a digit, and something else.
pub open spec fn is_pre_release(pre: Seq<char>) -> bool {
    &&& exists|i: int| 0 <= i < pre.len() && !is_digit(#[trigger] pre[i])
    &&& exists|i: int| 0 <= i < pre.len() && is_digit(#[trigger] pre[i])
}

/// The version of a package for Debian: a pre-release behind a tilde, and the revision behind a
/// hyphen, unless it is empty or 0.
pub open spec fn debian_version(version: Seq<char>, revision: Option<Seq<char>>) -> Seq<char> {
    let i = find_from(version, '-', 0);
    let v = if i < version.len() && is_pre_release(version.skip(i + 1)) {
        version.take(i) + seq!['~'] + version.skip(i + 1)
    } else {
        version
    };
    let rev = match revision {
        Some(r) => r,
        None => seq!['1'],
    };
    if rev.len() > 0 && rev != seq!['0'] {
        v + seq!['-'] + rev
    } else {
        v
    }
}

pub fn digit_char_found(v: &Vec<char>, from: usize, wanted: bool) -> (r: bool)
    requires
        from <= v.len(),
    ensures
        r == exists|i: int|
            0 <= i < v@.skip(from as int).len() && is_digit(#[trigger] v@.skip(from as int)[i])
                == wanted,
{
    let ghost s = v@.skip(from as int);
    let mut i: usize = from;
    while i < v.len()
        invariant
            from <= i <= v.len(),
            s == v@.skip(from as int),
            forall|k: int| 0 <= k < i - from ==> is_digit(#[trigger] s[k]) != wanted,
        decreases v.len() - i,
    {
        let d = '0' <= v[i] && v[i] <= '9';
        assert(s[i - from] == v@[i as int]);
        if d == wanted {
            assert(is_digit(s[i - from]) == wanted);
            return true;
        }
        i += 1;
    }
    false
}

/// Debian-compatible version of the semver version
pub fn manifest_version_string(version: &str, revision: Option<&str>) -> (r: String)
    ensures
        r@ == debian_version(
            version@,
            match revision {
                Some(r) => Some(r@),
                None => None,
            },
        ),
{
    let v = chars_of(version);
    // Make debian's version ordering (newer versions) more compatible with semver's.
    // Keep "semver-1" and "semver-xxx" as-is (assuming these are irrelevant, or debian revision already),
    // but change "semver-beta.1" to "semver~beta.1"
    let i = index_from(&v, '-', 0);
    let mut out = version.to_owned();
    if i < v.len() {
        assert(v@.skip(i + 1) == version@.skip(i + 1));
        if digit_char_found(&v, i + 1, false) && digit_char_found(&v, i + 1, true) {
            let mut t = slice(&v, 0, i);
            t.push('~');
            let pre = slice(&v, i + 1, v.len());
            t.append(pre.as_str());
            proof {
                let p = version@.skip(i + 1);
                let a = choose|k: int| 0 <= k < p.len() && is_digit(#[trigger] p[k]) == false;
                assert(!is_digit(p[a]));
                let b = choose|k: int| 0 <= k < p.len() && is_digit(#[trigger] p[k]) == true;
                assert(is_digit(p[b]));
                assert(t@ =~= version@.take(i as int) + seq!['~'] + p);
            }
            out = t;
        } else {
            proof {
                let p = version@.skip(i + 1);
                if is_pre_release(p) {
                    let a = choose|k: int| 0 <= k < p.len() && !is_digit(#[trigger] p[k]);
                    assert(is_digit(p[a]) == false);
                    let b = choose|k: int| 0 <= k < p.len() && is_digit(#[trigger] p[k]);
                    assert(is_digit(p[b]) == true);
                }
            }
        }
    }
    let rev = match revision {
        Some(r) => r,
        None => "1",
    };
    proof {
        reveal_strlit("1");
        reveal_strlit("0");
        assert("1"@ =~= seq!['1']);
        assert("0"@ =~= seq!['0']);
    }
    let ghost o = out@;
    if !rev.is_empty() && !same(rev, "0") {
        out.push('-');
        out.append(rev);
        assert(out@ =~= o + seq!['-'] + rev@);
    }
    out
}

// ---------------------------------------------------------------------------
// The `deb` table
// ---------------------------------------------------------------------------
#[derive(Debug)]
pub enum LicenseFile {
    String(String),
    Vec(Vec<String>),
}

#[derive(Debug)]
pub enum SystemUnitsSingleOrMultiple {
    Single(SystemdUnitsConfig),
    Multi(Vec<SystemdUnitsConfig>),
}

#[derive(Debug)]
pub enum DependencyList {
    String(String),
    Vec(Vec<String>),
}

impl DependencyList {
    /// The dependencies, separated by commas.
    pub open spec fn text(self) -> Seq<char> {
        match self {
            DependencyList::String(s) => s@,
            DependencyList::Vec(vals) => join(vals.deep_view(), ", "@),
        }
    }

    pub fn into_depends_string(self) -> (r: String)
        ensures
            r@ == self.text(),
    {
        match self {
            DependencyList::String(s) => s,
            DependencyList::Vec(vals) => join_strings(&vals, ", "),
        }
    }
}

/// How the debug symbols are compressed.
#[derive(Copy, Clone, Debug, PartialEq, Eq, Structural)]
pub enum CompressDebugSymbols {
    No,
    Zstd,
    Zlib,
    Auto,
}

/// A variant under its name.
#[derive(Debug)]
pub struct Variant {
    pub name: String,
    pub config: CargoDeb,
}

/// The `[package.metadata.deb]` table of a manifest.
#[derive(Debug, Default)]
pub struct CargoDeb {
    pub name: Option<String>,
    pub maintainer: Option<String>,
    pub copyright: Option<String>,
    pub license_file: Option<LicenseFile>,
    pub changelog: Option<String>,
    pub depends: Option<DependencyList>,
    pub pre_depends: Option<DependencyList>,
    pub recommends: Option<DependencyList>,
    pub suggests: Option<DependencyList>,
    pub enhances: Option<DependencyList>,
    pub conflicts: Option<DependencyList>,
    pub breaks: Option<DependencyList>,
    pub replaces: Option<DependencyList>,
    pub provides: Option<DependencyList>,
    pub extended_description: Option<String>,
    pub extended_description_file: Option<String>,
    pub section: Option<String>,
    pub priority: Option<String>,
    pub revision: Option<String>,
    pub conf_files: Option<Vec<String>>,
    pub assets: Option<RawAssetList>,
    pub merge_assets: Option<MergeAssets>,
    pub triggers_file: Option<String>,
    pub maintainer_scripts: Option<String>,
    pub features: Option<Vec<String>>,
    pub default_features: Option<bool>,
    pub separate_debug_symbols: Option<bool>,
    pub dbgsym: Option<bool>,
    pub compress_debug_symbols: Option<CompressDebugSymbols>,
    pub preserve_symlinks: Option<bool>,
    pub systemd_units: Option<SystemUnitsSingleOrMultiple>,
    /// The variants, each under a name of its own.
    pub variants: Option<Vec<Variant>>,
    /// Cargo build profile, defaults to `release`
    pub profile: Option<String>,
}

/// The first, where there is one, else the second.
pub open spec fn first_of<T>(a: Option<T>, b: Option<T>) -> Option<T> {
    if a is Some {
        a
    } else {
        b
    }
}

pub fn or<T>(a: Option<T>, b: Option<T>) -> (r: Option<T>)
    ensures
        r == first_of(a, b),
{
    match a {
        Some(x) => Some(x),
        None => b,
    }
}

/// The assets of a variant: its own, or else those of the package; with those appended that are to
/// be, and then merged by key.
pub open spec fn inherited_assets(
    own: Option<RawAssetList>,
    parent: Option<RawAssetList>,
    merge: Option<MergeAssets>,
) -> Option<Seq<crate::assets::RawAssetOrAutoView>> {
    let assets = first_of(own, parent).deep_view();
    match merge {
        None => assets,
        Some(m) => {
            let start = match assets {
                Some(a) => a,
                None => Seq::empty(),
            };
            let appended = match m.append {
                Some(more) => start + more.deep_view(),
                None => start,
            };
            Some(
                match m.by {
                    Some(by) => merged(by.by_src(), appended, by.list()),
                    None => appended,
                },
            )
        },
    }
}

/// Every setting of a variant that is not set comes from the package.
pub open spec fn inherits(r: CargoDeb, own: CargoDeb, parent: CargoDeb) -> bool {
    &&& r.name == first_of(own.name, parent.name)
    &&& r.maintainer == first_of(own.maintainer, parent.maintainer)
    &&& r.copyright == first_of(own.copyright, parent.copyright)
    &&& r.license_file == first_of(own.license_file, parent.license_file)
    &&& r.changelog == first_of(own.changelog, parent.changelog)
    &&& r.depends == first_of(own.depends, parent.depends)
    &&& r.pre_depends == first_of(own.pre_depends, parent.pre_depends)
    &&& r.recommends == first_of(own.recommends, parent.recommends)
    &&& r.suggests == first_of(own.suggests, parent.suggests)
    &&& r.enhances == first_of(own.enhances, parent.enhances)
    &&& r.conflicts == first_of(own.conflicts, parent.conflicts)
    &&& r.breaks == first_of(own.breaks, parent.breaks)
    &&& r.replaces == first_of(own.replaces, parent.replaces)
    &&& r.provides == first_of(own.provides, parent.provides)
    &&& r.extended_description == first_of(own.extended_description, parent.extended_description)
    &&& r.extended_description_file == first_of(own.extended_description_file, parent.extended_description_file)
    &&& r.section == first_of(own.section, parent.section)
    &&& r.priority == first_of(own.priority, parent.priority)
    &&& r.revision == first_of(own.revision, parent.revision)
    &&& r.conf_files == first_of(own.conf_files, parent.conf_files)
    &&& r.assets.deep_view() == inherited_assets(own.assets, parent.assets, own.merge_assets)
    &&& r.merge_assets is None
    &&& r.triggers_file == first_of(own.triggers_file, parent.triggers_file)
    &&& r.maintainer_scripts == first_of(own.maintainer_scripts, parent.maintainer_scripts)
    &&& r.features == first_of(own.features, parent.features)
    &&& r.default_features == first_of(own.default_features, parent.default_features)
    &&& r.dbgsym == first_of(own.dbgsym, parent.dbgsym)
    &&& r.separate_debug_symbols == first_of(own.separate_debug_symbols, parent.separate_debug_symbols)
    &&& r.compress_debug_symbols == first_of(own.compress_debug_symbols, parent.compress_debug_symbols)
    &&& r.preserve_symlinks == first_of(own.preserve_symlinks, parent.preserve_symlinks)
    &&& r.systemd_units == first_of(own.systemd_units, parent.systemd_units)
    &&& r.variants == first_of(own.variants, parent.variants)
    &&& r.profile == first_of(own.profile, parent.profile)
}

impl CargoDeb {
    /// Inherit unset fields from parent,
    ///
    /// **Note**: For backwards compat, if `merge_assets` is set, this will apply **after** the variant has overridden the assets.
    ///
    pub fn inherit_from(self, parent: Self, log: &mut Vec<Message>) -> (r: Self)
        ensures
            inherits(r, self, parent),
            final(log).deep_view() == if self.merge_assets is Some && self.assets is None
                && parent.assets is None {
                old(log).deep_view().push(
                    MessageView::Warning("variant has merge-assets, but not assets to merge"@),
                )
            } else {
                old(log).deep_view()
            },
    {
        let mut assets = or(self.assets, parent.assets);
        let ghost first = assets.deep_view();
        let ghost log0 = log.deep_view();
        if let Some(merge_assets) = self.merge_assets {
            let mut old_assets: RawAssetList = match assets {
                Some(a) => a,
                None => {
                    log.push(
                        Message::Warning(
                            "variant has merge-assets, but not assets to merge".to_owned(),
                        ),
                    );
                    assert(log.deep_view() =~= log0.push(
                        MessageView::Warning("variant has merge-assets, but not assets to merge"@),
                    ));
                    Vec::new()
                },
            };
            let ghost start = old_assets.deep_view();
            assert(first is None ==> start =~= Seq::<crate::assets::RawAssetOrAutoView>::empty());
            if let Some(append) = merge_assets.append {
                let mut append = append;
                let ghost more = append.deep_view();
                old_assets.append(&mut append);
                assert(old_assets.deep_view() =~= start + more);
            }
            assets = match merge_assets.by {
                Some(strategy) => Some(strategy.merge(&old_assets)),
                None => Some(old_assets),
            };
        }
        CargoDeb {
            name: or(self.name, parent.name),
            maintainer: or(self.maintainer, parent.maintainer),
            copyright: or(self.copyright, parent.copyright),
            license_file: or(self.license_file, parent.license_file),
            changelog: or(self.changelog, parent.changelog),
            depends: or(self.depends, parent.depends),
            pre_depends: or(self.pre_depends, parent.pre_depends),
            recommends: or(self.recommends, parent.recommends),
            suggests: or(self.suggests, parent.suggests),
            enhances: or(self.enhances, parent.enhances),
            conflicts: or(self.conflicts, parent.conflicts),
            breaks: or(self.breaks, parent.breaks),
            replaces: or(self.replaces, parent.replaces),
            provides: or(self.provides, parent.provides),
            extended_description: or(self.extended_description, parent.extended_description),
            extended_description_file: or(
                self.extended_description_file,
                parent.extended_description_file,
            ),
            section: or(self.section, parent.section),
            priority: or(self.priority, parent.priority),
            revision: or(self.revision, parent.revision),
            conf_files: or(self.conf_files, parent.conf_files),
            assets,
            merge_assets: None,
            triggers_file: or(self.triggers_file, parent.triggers_file),
            maintainer_scripts: or(self.maintainer_scripts, parent.maintainer_scripts),
            features: or(self.features, parent.features),
            default_features: or(self.default_features, parent.default_features),
            dbgsym: or(self.dbgsym, parent.dbgsym),
            separate_debug_symbols: or(
                self.separate_debug_symbols,
                parent.separate_debug_symbols,
            ),
            compress_debug_symbols: or(
                self.compress_debug_symbols,
                parent.compress_debug_symbols,
            ),
            preserve_symlinks: or(self.preserve_symlinks, parent.preserve_symlinks),
            systemd_units: or(self.systemd_units, parent.systemd_units),
            variants: or(self.variants, parent.variants),
            profile: or(self.profile, parent.profile),
        }
    }
}

} // verus!
