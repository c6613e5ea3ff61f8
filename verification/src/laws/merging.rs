//! How lists of files are read, inherited and merged.
use crate::assets::{is_binary, AssetView, IsBuilt, RawAssetOrAutoView, RawAssetView, SourceView};
use crate::dh::dh_installsysusers::fragment_text;
use crate::dh::dh_lib::{pkgfile_names, replaced};
use crate::parse::asset_table::{asset_from, checked_entry, customized_target, leading_dots, CargoDebAssetArrayOrTable};
use crate::parse::cargo::ConfigReads;
use crate::parse::manifest::{debug_flags_of, debug_of_var, inherited_assets, known_flags, strip_of_var, toml_debug, toml_strip, Profile};
use crate::parse::merge::{asset_of, insert_all, last_of, law_merge, lookup, merged, MergeAssets, MergeItemView, RawAssetList};
use crate::paths::{components, extension, path_join, same_path, Comp};
use crate::text::has_suffix;
use vstd::prelude::*;

verus! {

// ---------------------------------------------------------------------------
// Merging
// ---------------------------------------------------------------------------
proof fn lemma_lookup(m: Seq<MergeItemView>, key: Seq<char>) -> (i: int)
    requires
        lookup(m, key) is Some,
    ensures
        0 <= i < m.len(),
        same_path(m[i].key, key),
        lookup(m, key) == Some((m[i].other, m[i].chmod)),
    decreases m.len(),
{
    if same_path(m.last().key, key) {
        m.len() - 1
    } else {
        lemma_lookup(m.drop_last(), key)
    }
}

/// In a list that is merged by source, every entry of the child is there, under its source, with its
/// target and permissions, unless a later one has the same source.
pub proof fn law_merged_by_source(
    parent: Seq<RawAssetOrAutoView>,
    child: Seq<RawAssetOrAutoView>,
    a: RawAssetView,
) -> (i: int)
    ensures
        0 <= i < merged(true, parent, child.push(RawAssetOrAutoView::RawAsset(a))).len(),
        merged(true, parent, child.push(RawAssetOrAutoView::RawAsset(a)))[i] matches RawAssetOrAutoView::RawAsset(
            b,
        ) && same_path(b.source_path, a.source_path) && b.target_path == a.target_path && b.chmod
            == a.chmod,
{
    let list = child.push(RawAssetOrAutoView::RawAsset(a));
    let items = insert_all(insert_all(Seq::empty(), parent, true), list, true);
    law_merge(true, parent, list, a.source_path);
    assert(list.drop_last() =~= child);
    assert(last_of(list, true, a.source_path) == Some((a.target_path, a.chmod)));
    lemma_lookup(items, a.source_path)
}

/// In a list that is merged by target, every entry of the child is there, under its target, with its
/// source and permissions, unless a later one has the same target.
pub proof fn law_merged_by_target(
    parent: Seq<RawAssetOrAutoView>,
    child: Seq<RawAssetOrAutoView>,
    a: RawAssetView,
) -> (i: int)
    ensures
        0 <= i < merged(false, parent, child.push(RawAssetOrAutoView::RawAsset(a))).len(),
        merged(false, parent, child.push(RawAssetOrAutoView::RawAsset(a)))[i] matches RawAssetOrAutoView::RawAsset(
            b,
        ) && same_path(b.target_path, a.target_path) && b.source_path == a.source_path && b.chmod
            == a.chmod,
{
    let list = child.push(RawAssetOrAutoView::RawAsset(a));
    let items = insert_all(insert_all(Seq::empty(), parent, false), list, false);
    law_merge(false, parent, list, a.target_path);
    assert(list.drop_last() =~= child);
    assert(last_of(list, false, a.target_path) == Some((a.source_path, a.chmod)));
    lemma_lookup(items, a.target_path)
}

/// An entry of the parent that no entry of the child has the source of stays.
pub proof fn law_merged_keeps_parent(
    parent: Seq<RawAssetOrAutoView>,
    child: Seq<RawAssetOrAutoView>,
    a: RawAssetView,
) -> (i: int)
    requires
        forall|k: int|
            0 <= k < child.len() ==> ((#[trigger] child[k]) matches RawAssetOrAutoView::RawAsset(b)
                ==> !same_path(b.source_path, a.source_path)),
    ensures
        0 <= i < merged(true, parent.push(RawAssetOrAutoView::RawAsset(a)), child).len(),
        merged(true, parent.push(RawAssetOrAutoView::RawAsset(a)), child)[i] matches RawAssetOrAutoView::RawAsset(
            b,
        ) && same_path(b.source_path, a.source_path) && b.target_path == a.target_path && b.chmod
            == a.chmod,
{
    let list = parent.push(RawAssetOrAutoView::RawAsset(a));
    let items = insert_all(insert_all(Seq::empty(), list, true), child, true);
    law_merge(true, list, child, a.source_path);
    assert(list.drop_last() =~= parent);
    assert(last_of(list, true, a.source_path) == Some((a.target_path, a.chmod)));
    lemma_none(child, a.source_path);
    lemma_lookup(items, a.source_path)
}

proof fn lemma_none(list: Seq<RawAssetOrAutoView>, key: Seq<char>)
    requires
        forall|k: int|
            0 <= k < list.len() ==> ((#[trigger] list[k]) matches RawAssetOrAutoView::RawAsset(b)
                ==> !same_path(b.source_path, key)),
    ensures
        last_of(list, true, key) is None,
    decreases list.len(),
{
    if list.len() > 0 {
        let t = list.drop_last();
        assert forall|k: int| 0 <= k < t.len() implies ((
        #[trigger] t[k]) matches RawAssetOrAutoView::RawAsset(b) ==> !same_path(b.source_path, key)) by {
            assert(t[k] == list[k]);
        }
        lemma_none(t, key);
        let last = list[list.len() - 1];
        assert(last matches RawAssetOrAutoView::RawAsset(b) ==> !same_path(b.source_path, key));
    }
}

/// What needs no name is packaged if either list says so, and is said once, last.
pub proof fn law_merged_auto(by_src: bool, parent: Seq<RawAssetOrAutoView>, child: Seq<RawAssetOrAutoView>)
    ensures
        ({
            let r = merged(by_src, parent, child);
            let wanted = parent.contains(RawAssetOrAutoView::Auto) || child.contains(
                RawAssetOrAutoView::Auto,
            );
            &&& wanted ==> r.len() > 0 && r.last() is Auto
            &&& forall|i: int| 0 <= i < r.len() - 1 ==> (#[trigger] r[i]) is RawAsset
            &&& !wanted && r.len() > 0 ==> r.last() is RawAsset
        }),
{
    let items = insert_all(insert_all(Seq::empty(), parent, by_src), child, by_src);
    let assets = items.map_values(|m: MergeItemView| asset_of(m, by_src));
    let r = merged(by_src, parent, child);
    assert(forall|i: int| 0 <= i < assets.len() ==> (#[trigger] assets[i]) is RawAsset);
    assert forall|i: int| 0 <= i < r.len() - 1 implies (#[trigger] r[i]) is RawAsset by {
        assert(r[i] == assets[i]);
    }
    if parent.contains(RawAssetOrAutoView::Auto) {
        let k = choose|k: int| 0 <= k < parent.len() && parent[k] == RawAssetOrAutoView::Auto;
        assert(parent[k] is Auto);
    }
    if child.contains(RawAssetOrAutoView::Auto) {
        let k = choose|k: int| 0 <= k < child.len() && child[k] == RawAssetOrAutoView::Auto;
        assert(child[k] is Auto);
    }
    if crate::parse::merge::has_auto(parent) {
        let k = choose|k: int| 0 <= k < parent.len() && (#[trigger] parent[k]) is Auto;
        assert(parent.contains(parent[k]));
    }
    if crate::parse::merge::has_auto(child) {
        let k = choose|k: int| 0 <= k < child.len() && (#[trigger] child[k]) is Auto;
        assert(child.contains(child[k]));
    }
}

/// A variant has its own list of files, else that of the package; what it appends comes behind it, and
/// what it merges goes into it.
pub proof fn law_inherited_assets(
    own: Option<RawAssetList>,
    parent: Option<RawAssetList>,
    m: MergeAssets,
)
    ensures
        own is Some ==> inherited_assets(own, parent, None) == own.deep_view(),
        own is None ==> inherited_assets(own, parent, None) == parent.deep_view(),
        ({
            let start = match inherited_assets(own, parent, None) {
                Some(a) => a,
                None => Seq::empty(),
            };
            let more = match m.append {
                Some(l) => start + l.deep_view(),
                None => start,
            };
            &&& m.by is None ==> inherited_assets(own, parent, Some(m)) == Some(more)
            &&& m.by matches Some(by) ==> inherited_assets(own, parent, Some(m)) == Some(
                merged(by.by_src(), more, by.list()),
            )
        }),
{
}

// ---------------------------------------------------------------------------
// Entries of the manifest
// ---------------------------------------------------------------------------
/// An entry is the same as an array and as a table. An array needs all three parts.
pub proof fn law_entry_forms(t: CargoDebAssetArrayOrTable)
    ensures
        t matches CargoDebAssetArrayOrTable::Array(parts) ==> {
            &&& parts@.len() < 3 ==> checked_entry(t) is Err
            &&& parts@.len() >= 3 ==> match asset_from(parts@[0]@, parts@[1]@, parts@[2]@) {
                Ok(a) => if customized_target(a.source_path) is None {
                    checked_entry(t) == Ok::<RawAssetOrAutoView, Seq<char>>(
                        RawAssetOrAutoView::RawAsset(a),
                    )
                } else {
                    checked_entry(t) is Err
                },
                Err(_) => checked_entry(t) is Err,
            }
        },
        t matches CargoDebAssetArrayOrTable::Table(parts) ==> match asset_from(
            parts.source@,
            parts.dest@,
            parts.mode@,
        ) {
            Ok(a) => if customized_target(a.source_path) is None {
                checked_entry(t) == Ok::<RawAssetOrAutoView, Seq<char>>(
                    RawAssetOrAutoView::RawAsset(a),
                )
            } else {
                checked_entry(t) is Err
            },
            Err(_) => checked_entry(t) is Err,
        },
        t matches CargoDebAssetArrayOrTable::Auto(s) ==> if s@ == "$auto"@ {
            checked_entry(t) == Ok::<RawAssetOrAutoView, Seq<char>>(RawAssetOrAutoView::Auto)
        } else {
            checked_entry(t) is Err
        },
        t is Invalid ==> checked_entry(t) is Err,
{
}

proof fn lemma_dots(cs: Seq<Comp>, i: int, n: int)
    requires
        0 <= i <= n <= cs.len(),
        forall|k: int| i <= k < n ==> (#[trigger] cs[k] == Comp::Cur || cs[k] == Comp::Parent),
        n < cs.len() ==> cs[n] != Comp::Cur && cs[n] != Comp::Parent,
    ensures
        leading_dots(cs, i) == n,
    decreases n - i,
{
    if i < n {
        assert(cs[i] == Comp::Cur || cs[i] == Comp::Parent);
        lemma_dots(cs, i + 1, n);
    }
}

/// Paths into the directory of the build are refused if they name the profile for development, or a
/// target; also behind dots. Others are not.
pub proof fn law_customized_target(p: Seq<char>, n: int, subdir: Seq<char>)
    requires
        0 <= n && n + 1 < components(p).len(),
        forall|k: int|
            0 <= k < n ==> (#[trigger] components(p)[k] == Comp::Cur || components(p)[k]
                == Comp::Parent),
        components(p)[n + 1] == Comp::Normal(subdir),
        components(p)[n] != Comp::Cur && components(p)[n] != Comp::Parent,
    ensures
        components(p)[n] != Comp::Normal("target"@) ==> customized_target(p) is None,
        components(p)[n] == Comp::Normal("target"@) ==> (customized_target(p) is Some <==> subdir
            == "debug"@ || (subdir.contains('-') && n + 2 < components(p).len() && components(p)[n
            + 2] == Comp::Normal("release"@))),
{
    lemma_dots(components(p), 0, n);
}

// ---------------------------------------------------------------------------
// Other settings
// ---------------------------------------------------------------------------
/// What is known of debug symbols: the option wins over the variable, and this over the profile; so does
/// the variable on stripping.
pub proof fn law_known_flags(
    profile: Profile,
    asked: Option<Seq<char>>,
    strip_var: Option<Seq<char>>,
    debug_var: Option<Seq<char>>,
)
    ensures
        ({
            let strip = if strip_var is Some && strip_of_var(strip_var->0) is Some {
                strip_of_var(strip_var->0)
            } else {
                profile.strip
            };
            let text = if asked is Some {
                asked
            } else {
                debug_var
            };
            let debug = if text is Some && debug_of_var(text->0) is Some {
                debug_of_var(text->0)
            } else {
                profile.debug
            };
            &&& known_flags(Some(profile), asked, strip_var, debug_var) == debug_flags_of(
                strip,
                debug,
                profile.split_debuginfo.deep_view(),
            )
            &&& strip_var is None && asked is None && debug_var is None ==> known_flags(
                None,
                asked,
                strip_var,
                debug_var,
            ) == debug_flags_of(None, None, None)
        }),
{
}

/// The value of a variable is read as it is, or as a text.
pub proof fn law_variable(text: Seq<char>)
    ensures
        toml_strip(text) is Some ==> strip_of_var(text) == toml_strip(text),
        toml_strip(text) is None ==> strip_of_var(text) == toml_strip(seq!['"'] + text + seq!['"']),
        toml_debug(text) is Some ==> debug_of_var(text) == toml_debug(text),
        toml_debug(text) is None ==> debug_of_var(text) == toml_debug(seq!['"'] + text + seq!['"']),
{
    reveal_strlit("\"");
    assert("\""@ =~= seq!['"']);
}

/// The file of a package for its scripts: the one with the name of the package and the unit comes
/// first, those without a unit last.
pub proof fn law_pkgfile_names(package: Seq<char>, unit: Seq<char>, file: Seq<char>)
    ensures
        pkgfile_names(package, None, file) == seq![package + "."@ + file, file],
        pkgfile_names(package, Some(unit), file) == seq![
            package + "."@ + unit + "."@ + file,
            unit + "."@ + file,
            package + "."@ + file,
            file,
        ],
{
    assert(pkgfile_names(package, None, file) =~= seq![package + "."@ + file, file]);
    assert(pkgfile_names(package, Some(unit), file) =~= seq![
        package + "."@ + unit + "."@ + file,
        unit + "."@ + file,
        package + "."@ + file,
        file,
    ]);
}

/// A piece of a script is marked as made by a tool, and ends with a line of its own.
pub proof fn law_fragment(template: Seq<char>, names: Seq<char>, tool: Seq<char>)
    ensures
        ({
            let text = replaced(template, "#CONFILE_BASENAME#"@, names);
            let head = "# Automatically added by "@ + tool + "\n"@;
            let tail = "# End automatically added section\n"@;
            fragment_text(template, names, tool) == if has_suffix(text, "\n"@) {
                head + text + tail
            } else {
                head + text + "\n"@ + tail
            }
        }),
{
    let text = replaced(template, "#CONFILE_BASENAME#"@, names);
    let head = "# Automatically added by "@ + tool + "\n"@;
    assert(head + text + Seq::<char>::empty() =~= head + text);
}

/// A file is a binary that can be run if it may be, is no shell script by its name, and is built by
/// Cargo or begins as such files do.
pub proof fn law_is_binary(a: AssetView, head: Option<[u8; 4]>)
    ensures
        is_binary(a, head) ==> a.c.chmod is Some && a.c.chmod->0 & 0o111 != 0 && extension(
            a.c.target_path,
        ) != Some("sh"@),
        a.c.chmod is Some && a.c.chmod->0 & 0o111 != 0 && extension(a.c.target_path) != Some("sh"@)
            && a.c.is_built != IsBuilt::No ==> is_binary(a, head),
        a.c.is_built == IsBuilt::No && is_binary(a, head) ==> match a.source {
            SourceView::Data(d) => d.len() >= 4 && d.take(4) == seq![
                0x7fu8,
                'E' as u8,
                'L' as u8,
                'F' as u8,
            ],
            SourceView::Virtual(_) => false,
            _ => head is Some && head->0@ == seq![0x7fu8, 'E' as u8, 'L' as u8, 'F' as u8],
        },
{
    assert('E' as u8 == 69u8 && 'L' as u8 == 76u8 && 'F' as u8 == 70u8);
}

/// The configuration with the ending is read if it is there, else the one without.
pub proof fn law_config_found(reads: ConfigReads, dir: Seq<char>)
    ensures
        reads.toml !is Missing ==> reads.found(dir).1 == reads.toml && reads.found(dir).0 == path_join(
            dir,
            "config.toml"@,
        ),
        reads.toml is Missing ==> reads.found(dir).1 == reads.plain,
        reads.is_found() <==> !(reads.toml is Missing) || !(reads.plain is Missing),
{
}

} // verus!
