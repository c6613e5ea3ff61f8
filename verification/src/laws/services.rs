//! Files and scripts of services.
use crate::assets::{source_path, AssetView};
use crate::dh::dh_installsystemd::{kind_names, names_of_kinds, units_there, FileState};
use crate::dh::dh_installsysusers::{conf_names, sysusers_file};
use crate::dh::dh_lib::{lemma_replaced, replaced, script_made, scripts_made, unit_scripts_made, ScriptPieces, UnitScripts, UserScript};
use crate::paths::{file_name, path_join, path_starts_with, same_path, with_extension};
use crate::text::{contains_text, lemma_find_text, occurs_at};
use vstd::prelude::*;

verus! {

// ---------------------------------------------------------------------------
// Scripts
// ---------------------------------------------------------------------------
/// Replacing leaves the text as it is but for what is replaced, wherever that stands.
pub proof fn law_replaced(a: Seq<char>, b: Seq<char>, token: Seq<char>, with: Seq<char>)
    requires
        token.len() > 0,
    ensures
        !contains_text(a, token) ==> replaced(a, token, with) == a,
        (forall|i: int| 0 <= i < a.len() ==> !#[trigger] occurs_at(a + token + b, token, i))
            ==> replaced(a + token + b, token, with) == a + with + replaced(b, token, with),
{
    lemma_replaced(a, token, with);
    lemma_find_text(a, token, 0);
    let s = a + token + b;
    lemma_replaced(s, token, with);
    lemma_find_text(s, token, 0);
    if forall|i: int| 0 <= i < a.len() ==> !#[trigger] occurs_at(s, token, i) {
        let n = a.len() as int;
        assert(s.subrange(n, n + token.len()) =~= token);
        assert(occurs_at(s, token, n));
        assert(s.take(n) =~= a);
        assert(s.skip(n + token.len()) =~= b);
    }
}

/// A script of the package gets the piece for services in place of the token, and must have one. If the
/// package has no such script, one is made of the piece; if there is no piece, there is no script.
pub proof fn law_script(p: ScriptPieces)
    ensures
        p.user matches UserScript::Text { path, text } ==> if contains_text(text@, "#DEBHELPER#"@) {
            script_made(p) matches Ok(Some(made)) && made == replaced(
                text@,
                "#DEBHELPER#"@,
                p.fragment@,
            )
        } else {
            script_made(p) is Err
        },
        p.user is Missing && p.fragment@.len() > 0 ==> (script_made(p) matches Ok(Some(made)) && made
            == "#!/bin/sh\nset -e\n"@ + p.fragment@),
        p.user is Missing && p.fragment@.len() == 0 ==> (script_made(p) matches Ok(None)),
        p.user is Unreadable ==> script_made(p) is Err,
{
}

/// The scripts are those for before and after the installation, and before and after the removal, in
/// this order.
pub proof fn law_scripts(units: Seq<UnitScripts>, made: Seq<Option<Seq<char>>>)
    requires
        unit_scripts_made(units) == Ok::<Seq<Option<Seq<char>>>, crate::error::ErrorView>(made),
    ensures
        made.len() == 4,
        units.len() == 0 ==> forall|i: int| 0 <= i < 4 ==> (#[trigger] made[i]) is None,
        units.len() > 0 ==> {
            &&& script_made(units.last().preinst) matches Ok(s) && s == made[0]
            &&& script_made(units.last().postinst) matches Ok(s) && s == made[1]
            &&& script_made(units.last().prerm) matches Ok(s) && s == made[2]
            &&& script_made(units.last().postrm) matches Ok(s) && s == made[3]
        },
{
    reveal_with_fuel(scripts_made, 6);
}

// ---------------------------------------------------------------------------
// Files of systemd
// ---------------------------------------------------------------------------
/// The kinds of files that systemd reads.
pub open spec fn is_unit_kind(kind: Seq<char>) -> bool {
    kind == "mount"@ || kind == "path"@ || kind == "service"@ || kind == "socket"@ || kind
        == "target"@ || kind == "timer"@
}

proof fn lemma_kinds(package: Seq<char>, unit: Option<Seq<char>>, n: int, i: int, k: int)
    requires
        0 <= i < n,
        0 <= k < kind_names(package, unit, i).len(),
    ensures
        names_of_kinds(package, unit, n).contains(kind_names(package, unit, i)[k]),
    decreases n,
{
    let before = names_of_kinds(package, unit, n - 1);
    let here = kind_names(package, unit, n - 1);
    let all = names_of_kinds(package, unit, n);
    let x = kind_names(package, unit, i)[k];
    if i < n - 1 {
        lemma_kinds(package, unit, n - 1, i, k);
        let j = choose|j: int| 0 <= j < before.len() && before[j] == x;
        assert(all[j] == x);
    } else {
        assert(all[before.len() + k] == x);
    }
}

proof fn lemma_kind_place(kind: Seq<char>) -> (i: int)
    requires
        is_unit_kind(kind),
    ensures
        0 <= i < 6,
        crate::dh::dh_installsystemd::unit_kind(i) == (""@, kind),
        crate::dh::dh_installsystemd::unit_kind(i + 7) == ("@"@, kind),
        kind != "tmpfile"@,
{
    reveal_strlit("mount");
    reveal_strlit("path");
    reveal_strlit("service");
    reveal_strlit("socket");
    reveal_strlit("target");
    reveal_strlit("timer");
    reveal_strlit("tmpfile");
    assert("mount"@.len() == 5 && "path"@.len() == 4 && "service"@.len() == 7 && "socket"@.len() == 6
        && "target"@.len() == 6 && "timer"@.len() == 5 && "tmpfile"@.len() == 7);
    assert("service"@[0] != "tmpfile"@[0]);
    if kind == "mount"@ {
        0
    } else if kind == "path"@ {
        1
    } else if kind == "service"@ {
        2
    } else if kind == "socket"@ {
        3
    } else if kind == "target"@ {
        4
    } else {
        5
    }
}

/// The file `package.kind` or `kind` is installed for systemd under the name of the package, and
/// `package@.kind` as a template.
pub proof fn law_unit_of_package(package: Seq<char>, kind: Seq<char>)
    requires
        is_unit_kind(kind),
    ensures
        ({
            let names = names_of_kinds(package, None, 13);
            let place = "usr/lib/systemd/system/"@ + package + "."@ + kind;
            &&& names.contains((package + "."@ + kind, place))
            &&& names.contains((kind, place))
            &&& names.contains(
                (
                    package + "@"@ + "."@ + kind,
                    "usr/lib/systemd/system/"@ + package + "@"@ + "."@ + kind,
                ),
            )
        }),
{
    reveal_strlit("");
    let i = lemma_kind_place(kind);
    assert(package + ""@ =~= package);
    let dir = "usr/lib/systemd/system/"@;
    assert(dir + package + ""@ + "."@ + kind =~= dir + package + "."@ + kind);
    let a = kind_names(package, None, i);
    assert(a.len() == 2);
    assert(a[0] == (package + "."@ + kind, dir + package + "."@ + kind));
    assert(a[1] == (kind, dir + package + "."@ + kind));
    lemma_kinds(package, None, 13, i, 0);
    lemma_kinds(package, None, 13, i, 1);
    let b = kind_names(package, None, i + 7);
    assert(b[0] == (package + "@"@ + "."@ + kind, dir + package + "@"@ + "."@ + kind));
    lemma_kinds(package, None, 13, i + 7, 0);
}

/// The file `package.unit.kind` or `unit.kind` is installed for systemd under the name of the unit, and
/// `package@.unit.kind` as a template.
pub proof fn law_unit_of_name(package: Seq<char>, unit: Seq<char>, kind: Seq<char>)
    requires
        is_unit_kind(kind),
    ensures
        ({
            let names = names_of_kinds(package, Some(unit), 13);
            let place = "usr/lib/systemd/system/"@ + unit + "."@ + kind;
            &&& names.contains((package + "."@ + unit + "."@ + kind, place))
            &&& names.contains((unit + "."@ + kind, place))
            &&& names.contains(
                (
                    package + "@"@ + "."@ + unit + "."@ + kind,
                    "usr/lib/systemd/system/"@ + unit + "@"@ + "."@ + kind,
                ),
            )
        }),
{
    reveal_strlit("");
    let i = lemma_kind_place(kind);
    assert(package + ""@ =~= package);
    let dir = "usr/lib/systemd/system/"@;
    assert(dir + unit + ""@ + "."@ + kind =~= dir + unit + "."@ + kind);
    let a = kind_names(package, Some(unit), i);
    assert(a.len() == 2);
    assert(a[0] == (package + "."@ + unit + "."@ + kind, dir + unit + "."@ + kind));
    assert(a[1] == (unit + "."@ + kind, dir + unit + "."@ + kind));
    lemma_kinds(package, Some(unit), 13, i, 0);
    lemma_kinds(package, Some(unit), 13, i, 1);
    let b = kind_names(package, Some(unit), i + 7);
    assert(b[0] == (package + "@"@ + "."@ + unit + "."@ + kind, dir + unit + "@"@ + "."@ + kind));
    lemma_kinds(package, Some(unit), 13, i + 7, 0);
}

/// The file `package.tmpfile` or `tmpfile` says which temporary files there are.
pub proof fn law_temporary_files(package: Seq<char>)
    ensures
        ({
            let names = names_of_kinds(package, None, 13);
            let place = "usr/lib/tmpfiles.d/"@ + package + ".conf"@;
            &&& names.contains((package + "."@ + "tmpfile"@, place))
            &&& names.contains(("tmpfile"@, place))
        }),
{
    reveal_strlit("");
    assert(package + ""@ =~= package);
    let dir = "usr/lib/tmpfiles.d/"@;
    assert(dir + package + ""@ + ".conf"@ =~= dir + package + ".conf"@);
    let a = kind_names(package, None, 6);
    assert(a.len() == 2);
    assert(a[0] == (package + "."@ + "tmpfile"@, dir + package + ".conf"@));
    assert(a[1] == ("tmpfile"@, dir + package + ".conf"@));
    lemma_kinds(package, None, 13, 6, 0);
    lemma_kinds(package, None, 13, 6, 1);
}

/// Every file that is there is installed where its name says, readable by everyone; of several for one
/// place, the first. `at` are the names that the files have.
pub proof fn law_units_there(
    dir: Seq<char>,
    names: Seq<(Seq<char>, Seq<char>)>,
    states: Seq<FileState>,
    n: int,
) -> (at: Seq<int>)
    requires
        0 <= n <= names.len(),
        names.len() == states.len(),
    ensures
        at.len() == units_there(dir, names, states, n).len(),
        forall|j: int|
            0 <= j < at.len() ==> 0 <= #[trigger] at[j] < n && states[at[j]].is_file && {
                let u = units_there(dir, names, states, n)[j];
                &&& u.source == path_join(dir, names[at[j]].0)
                &&& u.recipe.path == names[at[j]].1
                &&& u.recipe.mode == 0o644
                &&& u.is_symlink == states[at[j]].is_symlink
                &&& u.exists
            },
        forall|i: int|
            0 <= i < n && (#[trigger] states[i]).is_file && (forall|k: int|
                0 <= k < i && (#[trigger] states[k]).is_file ==> names[k].1 != names[i].1)
                ==> at.contains(i),
        forall|i: int, j: int|
            0 <= i < j < at.len() ==> names[#[trigger] at[i]].1 != names[#[trigger] at[j]].1,
    decreases n,
{
    if n <= 0 {
        Seq::empty()
    } else {
        let before = law_units_there(dir, names, states, n - 1);
        let old = units_there(dir, names, states, n - 1);
        let new = units_there(dir, names, states, n);
        let r = if new.len() > old.len() {
            before.push(n - 1)
        } else {
            before
        };
        assert forall|j: int| 0 <= j < r.len() implies 0 <= #[trigger] r[j] < n
            && states[r[j]].is_file && {
            let u = new[j];
            &&& u.source == path_join(dir, names[r[j]].0)
            &&& u.recipe.path == names[r[j]].1
            &&& u.recipe.mode == 0o644
            &&& u.is_symlink == states[r[j]].is_symlink
            &&& u.exists
        } by {
            if j < before.len() {
                assert(before[j] == r[j]);
                assert(new[j] == old[j]);
            }
        }
        assert forall|i: int|
            0 <= i < n && (#[trigger] states[i]).is_file && (forall|k: int|
                0 <= k < i && (#[trigger] states[k]).is_file ==> names[k].1 != names[i].1) implies r.contains(
            i,
        ) by {
            if i < n - 1 {
                let j = choose|j: int| 0 <= j < before.len() && before[j] == i;
                assert(r[j] == i);
            } else {
                assert(r[r.len() - 1] == i);
            }
        }
        assert forall|i: int, j: int| 0 <= i < j < r.len() implies names[#[trigger] r[i]].1
            != names[#[trigger] r[j]].1 by {
            assert(before[i] == r[i]);
            if j < before.len() {
                assert(before[j] == r[j]);
            } else {
                assert(states[before[i]].is_file);
            }
        }
        r
    }
}

// ---------------------------------------------------------------------------
// Users
// ---------------------------------------------------------------------------
/// The file on users of the system is the one of the package, else the one without a name.
pub proof fn law_sysusers_file(dir: Seq<char>, package: Seq<char>, files: Seq<Seq<char>>)
    ensures
        ({
            let own = path_join(dir, package + ".sysusers"@);
            let plain = path_join(dir, "sysusers"@);
            let has_own = exists|i: int| 0 <= i < files.len() && same_path(#[trigger] files[i], own);
            let has_plain = exists|i: int|
                0 <= i < files.len() && same_path(#[trigger] files[i], plain);
            sysusers_file(dir, package, files) == if has_own {
                Some(own)
            } else if has_plain {
                Some(plain)
            } else {
                None
            }
        }),
{
}

/// The files on users are all those below `usr/lib/sysusers.d`, by their names with the ending `.conf`.
pub proof fn law_sysusers_names(assets: Seq<AssetView>, names: Seq<Seq<char>>, i: int)
    requires
        conf_names(assets) == Some(names),
        0 <= i < assets.len(),
        path_starts_with(assets[i].c.target_path, "usr/lib/sysusers.d/"@),
    ensures
        source_path(assets[i].source) is Some,
        file_name(with_extension(source_path(assets[i].source)->0, "conf"@)) is Some,
        names.contains(file_name(with_extension(source_path(assets[i].source)->0, "conf"@))->0),
        names.len() <= assets.len(),
    decreases assets.len(),
{
    let t = assets.drop_last();
    let before = conf_names(t)->0;
    lemma_conf_count(t, before);
    if i < assets.len() - 1 {
        law_sysusers_names(t, before, i);
        let x = file_name(with_extension(source_path(assets[i].source)->0, "conf"@))->0;
        let k = choose|k: int| 0 <= k < before.len() && before[k] == x;
        assert(names[k] == x);
    } else {
        assert(names[names.len() - 1] == file_name(
            with_extension(source_path(assets[i].source)->0, "conf"@),
        )->0);
    }
}

proof fn lemma_conf_count(assets: Seq<AssetView>, names: Seq<Seq<char>>)
    requires
        conf_names(assets) == Some(names),
    ensures
        names.len() <= assets.len(),
    decreases assets.len(),
{
    if assets.len() > 0 {
        lemma_conf_count(assets.drop_last(), conf_names(assets.drop_last())->0);
    }
}

} // verus!
