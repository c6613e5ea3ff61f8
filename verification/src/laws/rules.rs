//! Rules of Debian on names, versions and licenses, and the order and the split of files.
use crate::assets::{is_library_name, AssetKind, AssetView};
use crate::config::rules::{behind_epoch, is_copyright_field, is_copyright_file, is_version_char, needs_no_author, package_name, skipped_lines, version_problem};
use crate::config::sorting::{is_sorted, key_less, sort_key};
use crate::config::splitting::{debug_files, is_dbgsym_package, regular_files};
use crate::config::{Multiarch, PackageConfig};
use crate::numbers::number_value;
use crate::order::{component_less, lex_less, path_less, text_less};
use crate::parse::manifest::{is_digit, lower};
use crate::paths::{extension, Comp};
use crate::text::{find_from, has_prefix, lines, trim_start};
use vstd::prelude::*;

verus! {

/// The name of a package is that of the crate in small letters, with hyphens for underscores.
pub proof fn law_package_name_letters(name: Seq<char>)
    requires
        vstd::utf8::is_ascii_chars(name),
    ensures
        package_name(name).len() == name.len(),
        forall|k: int|
            0 <= k < name.len() ==> {
                let c = #[trigger] name[k];
                let r = package_name(name)[k];
                &&& c == '_' ==> r == '-'
                &&& 'A' <= c <= 'Z' ==> r as int == c as int - 'A' as int + 'a' as int
                &&& c != '_' && !('A' <= c <= 'Z') ==> r == c
            },
{
    vstd::utf8::is_ascii_chars_encode_utf8(name);
    assert forall|k: int| 0 <= k < name.len() implies {
        let c = #[trigger] name[k];
        let r = package_name(name)[k];
        &&& c == '_' ==> r == '-'
        &&& 'A' <= c <= 'Z' ==> r as int == c as int - 'A' as int + 'a' as int
        &&& c != '_' && !('A' <= c <= 'Z') ==> r == c
    } by {
        let b = vstd::utf8::encode_utf8(name)[k];
        assert(b == name[k] as u8);
        assert(b as int == name[k] as int);
        assert(b as char == name[k]);
    }
}

/// A version is accepted if it begins with a digit and has only letters, digits and `.+-~`; in front of
/// it may be a number and a colon.
pub proof fn law_accepted_version(epoch: Seq<char>, version: Seq<char>)
    requires
        version.len() > 0,
        '0' <= version[0] <= '9',
        forall|k: int|
            0 <= k < version.len() ==> {
                let c = #[trigger] version[k];
                '0' <= c <= '9' || 'a' <= c <= 'z' || 'A' <= c <= 'Z' || c == '.' || c == '+' || c
                    == '-' || c == '~'
            },
        epoch.len() > 0,
        forall|k: int| 0 <= k < epoch.len() ==> '0' <= #[trigger] epoch[k] <= '9',
    ensures
        version_problem(version) is None,
        version_problem(epoch.push(':') + version) is None,
{
    lemma_not_found(version, ':', 0);
    assert(!crate::text::is_white_space(version[0]));
    assert(trim_start(version) == version);
    let v = epoch.push(':') + version;
    lemma_found(v, ':', 0, epoch.len() as int);
    assert(v.take(epoch.len() as int) =~= epoch);
    assert(v.skip(epoch.len() as int + 1) =~= version);
    assert(v[0] == epoch[0]);
    assert(trim_start(v) == v);
}

proof fn lemma_not_found(s: Seq<char>, c: char, from: int)
    requires
        0 <= from <= s.len(),
        forall|k: int| 0 <= k < s.len() ==> #[trigger] s[k] != c,
    ensures
        find_from(s, c, from) == s.len(),
    decreases s.len() - from,
{
    if from < s.len() {
        lemma_not_found(s, c, from + 1);
    }
}

proof fn lemma_found(s: Seq<char>, c: char, from: int, i: int)
    requires
        0 <= from <= i < s.len(),
        s[i] == c,
        forall|k: int| from <= k < i ==> s[k] != c,
    ensures
        find_from(s, c, from) == i,
    decreases i - from,
{
    if from < i {
        lemma_found(s, c, from + 1, i);
    }
}

/// No other version is accepted.
pub proof fn law_refused_version(version: Seq<char>, k: int)
    requires
        0 <= k < version.len(),
        !version.contains(':'),
        !('0' <= version[0] <= '9') || !('0' <= version[k] <= '9' || 'a' <= version[k] <= 'z' || 'A'
            <= version[k] <= 'Z' || version[k] == '.' || version[k] == '+' || version[k] == '-'
            || version[k] == '~'),
    ensures
        version_problem(version) is Some,
        version_problem(Seq::empty()) is Some,
{
    assert forall|j: int| 0 <= j < version.len() implies #[trigger] version[j] != ':' by {
        assert(version.contains(version[j]));
    }
    lemma_not_found(version, ':', 0);
    assert(behind_epoch(version) == version);
    if '0' <= version[0] <= '9' {
        assert(!is_version_char(version[k]));
    }
    assert(trim_start(Seq::<char>::empty()).len() == 0);
}

/// Without a number in front of it, a colon is refused.
pub proof fn law_refused_epoch(epoch: Seq<char>, version: Seq<char>, k: int)
    requires
        !epoch.contains(':'),
        epoch.len() == 0 || (0 <= k < epoch.len() && !('0' <= epoch[k] <= '9')),
    ensures
        version_problem(epoch.push(':') + version) is Some,
{
    let v = epoch.push(':') + version;
    assert forall|j: int| 0 <= j < epoch.len() implies v[j] != ':' by {
        assert(epoch.contains(epoch[j]));
    }
    lemma_found(v, ':', 0, epoch.len() as int);
    assert(v.take(epoch.len() as int) =~= epoch);
    if epoch.len() > 0 {
        assert(!is_digit(epoch[k]));
    }
}

/// The case of a license does not matter.
pub proof fn law_license_case(a: Seq<char>, b: Seq<char>)
    requires
        lower(a) == lower(b),
    ensures
        needs_no_author(a) == needs_no_author(b),
        needs_no_author("UNLICENSED"@),
        needs_no_author("PROPRIETARY"@),
        needs_no_author("CC-PDDC"@),
        needs_no_author("CC0-1.0"@),
        needs_no_author(a) ==> lower(a) == lower("UNLICENSED"@) || lower(a) == lower(
            "PROPRIETARY"@,
        ) || lower(a) == lower("CC-PDDC"@) || lower(a) == lower("CC0-1.0"@),
{
}

/// A file is one on copyright if a field of such files begins one of its first ten lines.
pub proof fn law_copyright_fields(file: Seq<char>, i: int)
    requires
        0 <= i < lines(file).len(),
    ensures
        ({
            let line = lines(file)[i];
            let is_field = has_prefix(line, "Copyright: "@) || has_prefix(line, "License: "@)
                || has_prefix(line, "Source: "@) || has_prefix(line, "Upstream-Name: "@)
                || has_prefix(line, "Format: "@);
            &&& i < 10 && is_field ==> is_copyright_file(file)
            &&& (forall|k: int|
                0 <= k < lines(file).len() && k < 10 ==> !has_prefix(
                    #[trigger] lines(file)[k],
                    "Copyright: "@,
                ) && !has_prefix(lines(file)[k], "License: "@) && !has_prefix(
                    lines(file)[k],
                    "Source: "@,
                ) && !has_prefix(lines(file)[k], "Upstream-Name: "@) && !has_prefix(
                    lines(file)[k],
                    "Format: "@,
                )) ==> !is_copyright_file(file)
        }),
{
    if i < 10 && is_copyright_field(lines(file)[i]) {
        assert(is_copyright_file(file));
    }
    if is_copyright_file(file) {
        let k = choose|k: int|
            0 <= k < lines(file).len() && k < 10 && is_copyright_field(#[trigger] lines(file)[k]);
        assert(has_prefix(lines(file)[k], "Copyright: "@) || has_prefix(lines(file)[k], "License: "@)
            || has_prefix(lines(file)[k], "Source: "@) || has_prefix(
            lines(file)[k],
            "Upstream-Name: "@,
        ) || has_prefix(lines(file)[k], "Format: "@));
    }
}

/// How many lines of a license are skipped is the second part of its setting.
pub proof fn law_skipped_lines(file: Seq<char>, number: Seq<char>)
    ensures
        skipped_lines(seq![file]) == Ok::<int, crate::error::ErrorView>(0),
        match number_value(number, 10, usize::MAX as int) {
            Ok(n) => skipped_lines(seq![file, number]) == Ok::<int, crate::error::ErrorView>(n),
            Err(_) => skipped_lines(seq![file, number]) is Err,
        },
{
}

// ---------------------------------------------------------------------------
// Order
// ---------------------------------------------------------------------------
/// Texts are ordered as in a dictionary: by their first different letters, and the shorter one first.
pub proof fn law_dictionary(common: Seq<char>, a: Seq<char>, b: Seq<char>, x: char, y: char)
    requires
        x < y,
    ensures
        text_less(common + seq![x] + a, common + seq![y] + b),
        !text_less(common + seq![y] + b, common + seq![x] + a),
        text_less(common, common + seq![x] + a),
        !text_less(common + seq![x] + a, common),
        !text_less(common, common),
    decreases common.len(),
{
    let less = |x: char, y: char| x < y;
    let p = common + seq![x] + a;
    let q = common + seq![y] + b;
    reveal_with_fuel(lex_less, 2);
    if common.len() > 0 {
        let t = common.skip(1);
        assert(p.skip(1) =~= t + seq![x] + a);
        assert(q.skip(1) =~= t + seq![y] + b);
        assert(p[0] == common[0] && q[0] == common[0]);
        law_dictionary(t, a, b, x, y);
    } else {
        assert(p[0] == x && q[0] == y);
    }
}

/// The root comes before a dot, this before two dots, and these before names; names are ordered as
/// texts.
pub proof fn law_component_order(a: Seq<char>, b: Seq<char>)
    ensures
        component_less(Comp::Root, Comp::Cur),
        component_less(Comp::Cur, Comp::Parent),
        component_less(Comp::Parent, Comp::Normal(a)),
        !component_less(Comp::Normal(a), Comp::Parent),
        component_less(Comp::Normal(a), Comp::Normal(b)) <==> text_less(a, b),
{
}

/// In sorted files, what can be run comes last, and libraries come behind other files.
pub proof fn law_sorted_by_type(files: Seq<AssetView>, i: int, j: int)
    requires
        is_sorted(files),
        0 <= i < j < files.len(),
    ensures
        ({
            let runs = |a: AssetView| a.c.chmod matches Some(m) && m & 0o111 != 0;
            let is_lib = |a: AssetView| is_library_name(a.c.target_path);
            &&& runs(files[i]) ==> runs(files[j])
            &&& runs(files[i]) == runs(files[j]) && is_lib(files[i]) ==> is_lib(files[j])
            &&& runs(files[i]) == runs(files[j]) && is_lib(files[i]) == is_lib(files[j])
                && files[j].processed_from is None ==> files[i].processed_from is None
        }),
{
    assert(!key_less(sort_key(files[j]), sort_key(files[i])));
}

/// Among sorted files that are alike, those that were made in the same way are together, then those with
/// the same extension, and these are in the order of their paths.
pub proof fn law_sorted_by_path(files: Seq<AssetView>, i: int, j: int)
    requires
        is_sorted(files),
        0 <= i < j < files.len(),
        files[i].c.is_executable() == files[j].c.is_executable(),
        files[i].c.is_dynamic_library() == files[j].c.is_dynamic_library(),
        files[i].processed_from is None,
        files[j].processed_from is None,
    ensures
        ({
            let a = extension(files[i].c.target_path);
            let b = extension(files[j].c.target_path);
            &&& a is Some ==> b is Some && !text_less(b->0, a->0)
            &&& a == b ==> !path_less(files[j].c.target_path, files[i].c.target_path)
        }),
{
    assert(!key_less(sort_key(files[j]), sort_key(files[i])));
    if extension(files[i].c.target_path) is Some && extension(files[j].c.target_path) is Some {
        crate::order::law_text_order();
        let t = crate::order::text_order();
        let b = extension(files[j].c.target_path)->0;
        assert(!t(b, b));
    }
}

/// Files that were made by some action are ordered by its name.
pub proof fn law_sorted_by_action(files: Seq<AssetView>, i: int, j: int)
    requires
        is_sorted(files),
        0 <= i < j < files.len(),
        files[i].c.is_executable() == files[j].c.is_executable(),
        files[i].c.is_dynamic_library() == files[j].c.is_dynamic_library(),
        files[i].processed_from is Some,
        files[j].processed_from is Some,
    ensures
        !text_less(files[j].processed_from->0.action, files[i].processed_from->0.action),
{
    assert(!key_less(sort_key(files[j]), sort_key(files[i])));
    crate::order::law_text_order();
    let t = crate::order::text_order();
    let b = files[j].processed_from->0.action;
    assert(!t(b, b));
}

// ---------------------------------------------------------------------------
// Symbols in a package of their own
// ---------------------------------------------------------------------------
/// Exactly the debug symbols leave the package.
pub proof fn law_split_files(files: Seq<AssetView>, a: AssetView)
    ensures
        debug_files(files).contains(a) <==> files.contains(a) && a.c.asset_kind
            == AssetKind::SeparateDebugSymbols,
        regular_files(files).contains(a) <==> files.contains(a) && a.c.asset_kind
            != AssetKind::SeparateDebugSymbols,
{
    let is_debug = |a: AssetView| crate::config::splitting::is_debug_file(a);
    let is_regular = |a: AssetView| !crate::config::splitting::is_debug_file(a);
    broadcast use vstd::seq_lib::group_filter_ensures;

    if files.contains(a) {
        let i = choose|i: int| 0 <= i < files.len() && files[i] == a;
        if is_debug(a) {
            assert(files.filter(is_debug).contains(files[i]));
        } else {
            assert(files.filter(is_regular).contains(files[i]));
        }
    }
    if debug_files(files).contains(a) {
        let i = choose|i: int| 0 <= i < debug_files(files).len() && debug_files(files)[i] == a;
        assert(is_debug(files.filter(is_debug)[i]));
        files.lemma_filter_contains_rev(is_debug, a);
    }
    if regular_files(files).contains(a) {
        let i = choose|i: int| 0 <= i < regular_files(files).len() && regular_files(files)[i] == a;
        assert(is_regular(files.filter(is_regular)[i]));
        files.lemma_filter_contains_rev(is_regular, a);
    }
}

/// The package of the symbols is named after the other one, has its version and its date, needs exactly
/// that version of it, and nothing else.
pub proof fn law_symbols_package(d: PackageConfig, p: PackageConfig, files: Seq<AssetView>)
    requires
        is_dbgsym_package(d, p, files),
    ensures
        d.deb_name@ == p.deb_name@ + "-dbgsym"@,
        d.deb_version@ == p.deb_version@,
        d.architecture@ == p.architecture@,
        d.resolved_depends.deep_view() == Some(p.deb_name@ + " (= "@ + p.deb_version@ + ")"@),
        d.assets.resolved.deep_view() == files,
        d.assets.unresolved@.len() == 0,
        d.default_timestamp == p.default_timestamp,
        d.is_split_dbgsym_package,
        d.maintainer.deep_view() == p.maintainer.deep_view(),
        d.section.deep_view() == Some("debug"@),
        d.conf_files@.len() == 0,
        d.maintainer_scripts_rel_path is None && d.triggers_file_rel_path is None && d.systemd_units
            is None,
        d.pre_depends is None && d.recommends is None && d.suggests is None && d.enhances is None
            && d.conflicts is None && d.breaks is None && d.replaces is None && d.provides is None,
        p.multiarch == Multiarch::Unsupported <==> d.multiarch == Multiarch::Unsupported,
        p.multiarch != Multiarch::Unsupported ==> d.multiarch == Multiarch::Same,
        d.homepage.deep_view() == p.homepage.deep_view(),
        d.license_identifier.deep_view() == p.license_identifier.deep_view(),
        d.cargo_crate_name@ == p.cargo_crate_name@,
{
}

} // verus!
