//! The entries of the `assets` list of a manifest.
use crate::assets::{RawAsset, RawAssetOrAuto, RawAssetOrAutoView, RawAssetView};
use crate::numbers::{number_value, parse_number};
use crate::paths::{components, components_of, Comp, Component};
use crate::text::{cat, cat3, contains_char, same};
use vstd::prelude::*;
use vstd::string::StringExecFns;

verus! {

/// An entry as a table.
#[derive(Debug)]
pub struct CargoDebAsset {
    pub source: String,
    pub dest: String,
    pub mode: String,
}

/// An entry of the list.
#[derive(Debug)]
pub enum CargoDebAssetArrayOrTable {
    Table(CargoDebAsset),
    Array(Vec<String>),
    Auto(String),
    /// Something else: the name of its type, and its text.
    Invalid(String, String),
}

pub const EXPECTED: &'static str = "Expected items in `assets` to be either `[source, dest, mode]` array, or `{source, dest, mode}` object, or `\"$auto\"`";

// ---------------------------------------------------------------------------
// Paths below `target` that are not to be named
// ---------------------------------------------------------------------------
/// How many components at the beginning only lead out of the directory.
pub open spec fn leading_dots(cs: Seq<Comp>, i: int) -> int
    decreases cs.len() - i,
{
    if 0 <= i < cs.len() && (cs[i] == Comp::Cur || cs[i] == Comp::Parent) {
        leading_dots(cs, i + 1)
    } else {
        i
    }
}

/// Why a path below `target` is not to be named, if so.
pub open spec fn customized_target(p: Seq<char>) -> Option<Seq<char>> {
    let cs = components(p);
    let i = leading_dots(cs, 0);
    if i + 1 < cs.len() && cs[i] == Comp::Normal("target"@) && cs[i + 1] is Normal {
        let subdir = cs[i + 1]->Normal_0;
        if subdir == "debug"@ {
            Some(
                "Packaging of development-only binaries is intentionally unsupported in cargo-deb.\nTo add debug information or additional assertions use `[profile.release]` in Cargo.toml instead."@,
            )
        } else if subdir.contains('-') && i + 2 < cs.len() && cs[i + 2] == Comp::Normal("release"@) {
            Some(
                "Hardcoding of cross-compilation paths in the configuration is unnecessary, and counter-productive. cargo-deb understands cross-compilation natively and adjusts the path when you use --target."@,
            )
        } else {
            None
        }
    } else {
        None
    }
}

fn is_name_of(c: &Component, name: &str) -> (r: bool)
    ensures
        r == (c.deep_view() == Comp::Normal(name@)),
{
    match c {
        Component::Normal(n) => same(n.as_str(), name),
        _ => false,
    }
}

pub fn is_trying_to_customize_target_path(p: &str) -> (r: Option<&'static str>)
    ensures
        r is Some <==> customized_target(p@) is Some,
        r is Some ==> customized_target(p@) == Some(r->0@),
{
    let comps = components_of(p);
    let ghost cs = components(p@);
    let mut i: usize = 0;
    let mut dots = true;
    while dots
        invariant
            i <= comps.len(),
            cs == comps.deep_view(),
            dots ==> leading_dots(cs, 0) == leading_dots(cs, i as int),
            !dots ==> leading_dots(cs, 0) == i,
        decreases comps.len() - i, dots as int,
    {
        dots = if i < comps.len() {
            assert(cs[i as int] == comps[i as int].deep_view());
            match &comps[i] {
                Component::ParentDir | Component::CurDir => true,
                _ => false,
            }
        } else {
            false
        };
        if dots {
            i += 1;
        }
    }
    if i >= comps.len() || comps.len() - i < 2 {
        return None;
    }
    assert(cs[i as int] == comps[i as int].deep_view());
    assert(cs[i + 1] == comps[i + 1].deep_view());
    if !is_name_of(&comps[i], "target") {
        return None;
    }
    let subdir = match &comps[i + 1] {
        Component::Normal(n) => n.as_str(),
        _ => {
            return None;
        },
    };
    if same(subdir, "debug") {
        return Some(
            "Packaging of development-only binaries is intentionally unsupported in cargo-deb.\nTo add debug information or additional assertions use `[profile.release]` in Cargo.toml instead.",
        );
    }
    if contains_char(subdir, '-') && comps.len() - i > 2 {
        assert(cs[i + 2] == comps[i + 2].deep_view());
        if is_name_of(&comps[i + 2], "release") {
            return Some(
                "Hardcoding of cross-compilation paths in the configuration is unnecessary, and counter-productive. cargo-deb understands cross-compilation natively and adjusts the path when you use --target.",
            );
        }
    }
    None
}

// ---------------------------------------------------------------------------
// Entries
// ---------------------------------------------------------------------------
/// An asset, unless its permissions are no octal number.
pub open spec fn asset_from(source: Seq<char>, dest: Seq<char>, mode: Seq<char>) -> Result<
    RawAssetView,
    Seq<char>,
> {
    match number_value(mode, 8, u32::MAX as int) {
        Ok(n) => Ok(
            RawAssetView { source_path: source, target_path: dest, chmod: Some(n as u32) },
        ),
        Err(e) => Err(
            "Unable to parse mode argument (third array element) as an octal number in an asset: "@
                + e.text(),
        ),
    }
}

/// What an entry is, or what is wrong with it, before its source path is looked at.
pub open spec fn entry_from(t: CargoDebAssetArrayOrTable) -> Result<RawAssetOrAutoView, Seq<char>> {
    match t {
        CargoDebAssetArrayOrTable::Table(a) => match asset_from(a.source@, a.dest@, a.mode@) {
            Ok(a) => Ok(RawAssetOrAutoView::RawAsset(a)),
            Err(e) => Err(e),
        },
        CargoDebAssetArrayOrTable::Array(a) => if a@.len() == 0 {
            Err("Missing source path (first array element) in an asset in Cargo.toml"@)
        } else if a@.len() == 1 {
            Err(
                "missing dest path (second array entry) for asset in Cargo.toml. Use something like \"usr/local/bin/\"."@,
            )
        } else if a@.len() == 2 {
            Err("Missing mode (third array element) in an asset"@)
        } else {
            match asset_from(a@[0]@, a@[1]@, a@[2]@) {
                Ok(a) => Ok(RawAssetOrAutoView::RawAsset(a)),
                Err(e) => Err(e),
            }
        },
        CargoDebAssetArrayOrTable::Auto(s) => if s@ == "$auto"@ {
            Ok(RawAssetOrAutoView::Auto)
        } else {
            Err(EXPECTED@ + ", but found a string: '"@ + s@ + "'"@)
        },
        CargoDebAssetArrayOrTable::Invalid(kind, text) => Err(
            EXPECTED@ + ", but found "@ + kind@ + ": "@ + text@,
        ),
    }
}

/// What is said of a source path below `target` that is not to be named.
pub open spec fn customized_text(msg: Seq<char>, path: Seq<char>) -> Seq<char> {
    "Please only use `target/release` path prefix for built products, not `"@ + path
        + "`.\n    "@ + msg
        + "\n    The `target/release` is treated as a special prefix, and will be replaced dynamically by cargo-deb with the actual target directory path used by the build.\n    "@
}

/// What an entry is, or what is wrong with it.
pub open spec fn checked_entry(t: CargoDebAssetArrayOrTable) -> Result<RawAssetOrAutoView, Seq<char>> {
    match entry_from(t) {
        Ok(RawAssetOrAutoView::RawAsset(a)) => match customized_target(a.source_path) {
            Some(msg) => Err(customized_text(msg, a.source_path)),
            None => Ok(RawAssetOrAutoView::RawAsset(a)),
        },
        e => e,
    }
}

fn parse_asset(source: String, dest: String, mode: &str) -> (r: Result<RawAsset, String>)
    ensures
        match asset_from(source@, dest@, mode@) {
            Ok(a) => r is Ok && r->Ok_0.deep_view() == a,
            Err(e) => r is Err && r->Err_0@ == e,
        },
{
    match parse_number(mode, 8, u32::MAX as u64) {
        Ok(n) => Ok(RawAsset { source_path: source, target_path: dest, chmod: Some(n as u32) }),
        Err(e) => Err(
            cat(
                "Unable to parse mode argument (third array element) as an octal number in an asset: ",
                e.message(),
            ),
        ),
    }
}

fn parse_entry(toml: CargoDebAssetArrayOrTable) -> (r: Result<RawAssetOrAuto, String>)
    ensures
        match entry_from(toml) {
            Ok(a) => r is Ok && r->Ok_0.deep_view() == a,
            Err(e) => r is Err && r->Err_0@ == e,
        },
{
    match toml {
        CargoDebAssetArrayOrTable::Table(a) => Ok(
            RawAssetOrAuto::RawAsset(parse_asset(a.source, a.dest, a.mode.as_str())?),
        ),
        CargoDebAssetArrayOrTable::Array(a) => {
            if a.len() == 0 {
                return Err(
                    "Missing source path (first array element) in an asset in Cargo.toml".to_owned(),
                );
            }
            if a.len() == 1 {
                return Err(
                    "missing dest path (second array entry) for asset in Cargo.toml. Use something like \"usr/local/bin/\".".to_owned(),
                );
            }
            if a.len() == 2 {
                return Err("Missing mode (third array element) in an asset".to_owned());
            }
            Ok(
                RawAssetOrAuto::RawAsset(
                    parse_asset(a[0].clone(), a[1].clone(), a[2].as_str())?,
                ),
            )
        },
        CargoDebAssetArrayOrTable::Auto(s) => {
            if same(s.as_str(), "$auto") {
                Ok(RawAssetOrAuto::Auto)
            } else {
                let mut text = cat3(EXPECTED, ", but found a string: '", s.as_str());
                text.append("'");
                Err(text)
            }
        },
        CargoDebAssetArrayOrTable::Invalid(kind, bad) => {
            let mut text = cat3(EXPECTED, ", but found ", kind.as_str());
            text.append(": ");
            text.append(bad.as_str());
            Err(text)
        },
    }
}

impl RawAssetOrAuto {
    /// What an entry of the list is, or what is wrong with it.
    pub fn try_from(toml: CargoDebAssetArrayOrTable) -> (r: Result<Self, String>)
        ensures
            match checked_entry(toml) {
                Ok(a) => r is Ok && r->Ok_0.deep_view() == a,
                Err(e) => r is Err && r->Err_0@ == e,
            },
    {
        let raw_asset = parse_entry(toml)?;
        if let RawAssetOrAuto::RawAsset(a) = &raw_asset {
            if let Some(msg) = is_trying_to_customize_target_path(a.source_path.as_str()) {
                let mut text = cat3(
                    "Please only use `target/release` path prefix for built products, not `",
                    a.source_path.as_str(),
                    "`.\n    ",
                );
                text.append(msg);
                text.append(
                    "\n    The `target/release` is treated as a special prefix, and will be replaced dynamically by cargo-deb with the actual target directory path used by the build.\n    ",
                );
                return Err(text);
            }
        }
        Ok(raw_asset)
    }
}

} // verus!
