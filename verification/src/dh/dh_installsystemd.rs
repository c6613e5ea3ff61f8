//! The unit files of a package.
use crate::dh::dh_lib::{own_names, own_names_of};
use crate::paths::{join, path_join, paths_equal, same_path};
use crate::text::{cat, cat4, same};
use vstd::prelude::*;

verus! {

/// Where a file is installed, and with which permissions.
#[derive(Debug)]
pub struct InstallRecipe {
    pub path: String,
    pub mode: u32,
}

pub struct RecipeView {
    pub path: Seq<char>,
    pub mode: u32,
}

impl DeepView for InstallRecipe {
    type V = RecipeView;

    open spec fn deep_view(&self) -> RecipeView {
        RecipeView { path: self.path@, mode: self.mode }
    }
}

/// A unit file, and what the file system says of it.
#[derive(Debug)]
pub struct UnitFile {
    pub source: String,
    pub recipe: InstallRecipe,
    /// It exists (a link that leads nowhere does not).
    pub exists: bool,
    pub is_symlink: bool,
}

pub struct UnitView {
    pub source: Seq<char>,
    pub recipe: RecipeView,
    pub exists: bool,
    pub is_symlink: bool,
}

impl DeepView for UnitFile {
    type V = UnitView;

    open spec fn deep_view(&self) -> UnitView {
        UnitView {
            source: self.source@,
            recipe: self.recipe.deep_view(),
            exists: self.exists,
            is_symlink: self.is_symlink,
        }
    }
}

// ---------------------------------------------------------------------------
// Which files are units
// ---------------------------------------------------------------------------
/// Where units are installed.
pub const SYSTEM_DIR: &'static str = "usr/lib/systemd/system/";

/// Where lists of temporary files are installed.
pub const TMPFILES_DIR: &'static str = "usr/lib/tmpfiles.d/";

/// The kinds of units, in their order: what stands behind the name of a unit that is a template, and
/// the extension of the file. Lists of temporary files, which units may need, are installed like
/// them.
pub open spec fn unit_kind(i: int) -> (Seq<char>, Seq<char>) {
    let at = if i < 7 {
        ""@
    } else {
        "@"@
    };
    (
        at,
        if i == 0 || i == 7 {
            "mount"@
        } else if i == 1 || i == 8 {
            "path"@
        } else if i == 2 || i == 9 {
            "service"@
        } else if i == 3 || i == 10 {
            "socket"@
        } else if i == 4 || i == 11 {
            "target"@
        } else if i == 5 || i == 12 {
            "timer"@
        } else {
            "tmpfile"@
        },
    )
}

/// Where a unit of this kind is installed: under the name of the unit, or that of the package if it
/// has none. A list of temporary files has to have the extension that systemd wants.
pub open spec fn unit_target(package: Seq<char>, unit: Option<Seq<char>>, i: int) -> Seq<char> {
    let (at, kind) = unit_kind(i);
    let name = match unit {
        Some(u) => u,
        None => package,
    };
    if kind == "tmpfile"@ {
        TMPFILES_DIR@ + name + at + ".conf"@
    } else {
        SYSTEM_DIR@ + name + at + "."@ + kind
    }
}

/// The names of the file of a unit of this kind, the preferred one first, each with where the unit is
/// installed.
pub open spec fn kind_names(package: Seq<char>, unit: Option<Seq<char>>, i: int) -> Seq<
    (Seq<char>, Seq<char>),
> {
    let (at, kind) = unit_kind(i);
    own_names(package + at, i < 7, unit, kind).map_values(
        |name: Seq<char>| (name, unit_target(package, unit, i)),
    )
}

/// The names of the files of units of the first `n` kinds.
pub open spec fn names_of_kinds(package: Seq<char>, unit: Option<Seq<char>>, n: int) -> Seq<
    (Seq<char>, Seq<char>),
>
    decreases n,
{
    if n <= 0 {
        Seq::empty()
    } else {
        names_of_kinds(package, unit, n - 1) + kind_names(package, unit, n - 1)
    }
}

fn add_names(
    out: &mut Vec<(String, String)>,
    names: Vec<String>,
    target: &str,
)
    ensures
        final(out).deep_view() == old(out).deep_view() + names.deep_view().map_values(
            |name: Seq<char>| (name, target@),
        ),
{
    let ghost start = out.deep_view();
    let ghost all = names.deep_view().map_values(|name: Seq<char>| (name, target@));
    assert(start + all.take(0) =~= start);
    for name in it: names
        invariant
            it.seq() == names@,
            all == names.deep_view().map_values(|name: Seq<char>| (name, target@)),
            out.deep_view() == start + all.take(it.index()),
    {
        let ghost i = it.index();
        let ghost before = out.deep_view();
        assert(names.deep_view()[i] == name@);
        out.push((name, target.to_owned()));
        assert(out.deep_view() =~= before.push(all[i]));
        assert(start + all.take(i + 1) =~= before.push(all[i]));
    }
    assert(all.take(all.len() as int) =~= all);
}

/// The names of the files that are units of a package, each with where the unit is installed. Where
/// several are for the same place, the first is preferred.
pub fn unit_names(package: &str, unit_name: Option<&str>) -> (r: Vec<(String, String)>)
    ensures
        r.deep_view() == names_of_kinds(
            package@,
            match unit_name {
                Some(u) => Some(u@),
                None => None,
            },
            13,
        ),
{
    let ghost unit = match unit_name {
        Some(u) => Some(u@),
        None => None,
    };
    let name = match unit_name {
        Some(u) => u,
        None => package,
    };
    let mut out: Vec<(String, String)> = Vec::new();
    let mut i: usize = 0;
    assert(out.deep_view() =~= Seq::<(Seq<char>, Seq<char>)>::empty());
    while i < 13
        invariant
            i <= 13,
            unit == (match unit_name {
                Some(u) => Some(u@),
                None => None,
            }),
            name@ == (match unit {
                Some(u) => u,
                None => package@,
            }),
            out.deep_view() == names_of_kinds(package@, unit, i as int),
        decreases 13 - i,
    {
        let at = if i < 7 {
            ""
        } else {
            "@"
        };
        let kind = match i {
            0 | 7 => "mount",
            1 | 8 => "path",
            2 | 9 => "service",
            3 | 10 => "socket",
            4 | 11 => "target",
            5 | 12 => "timer",
            _ => "tmpfile",
        };
        assert(unit_kind(i as int) == (at@, kind@));
        let target = if same(kind, "tmpfile") {
            cat4(TMPFILES_DIR, name, at, ".conf")
        } else {
            let file = cat4(SYSTEM_DIR, name, at, ".");
            cat(file.as_str(), kind)
        };
        assert(target@ == unit_target(package@, unit, i as int));
        let full = cat(package, at);
        let names = own_names_of(full.as_str(), i < 7, unit_name, kind);
        assert(names.deep_view().map_values(|name: Seq<char>| (name, target@)) =~= kind_names(
            package@,
            unit,
            i as int,
        ));
        add_names(&mut out, names, target.as_str());
        i += 1;
    }
    out
}

/// What the file system says of a file.
#[derive(Debug, Clone, Copy)]
pub struct FileState {
    pub is_file: bool,
    pub is_symlink: bool,
}

/// A file with a preferred name is there for the same place.
pub open spec fn is_taken(
    names: Seq<(Seq<char>, Seq<char>)>,
    states: Seq<FileState>,
    n: int,
) -> bool {
    exists|j: int| 0 <= j < n && (#[trigger] states[j]).is_file && names[j].1 == names[n].1
}

/// The units among the first `n` files: those that are there.
pub open spec fn units_there(
    dir: Seq<char>,
    names: Seq<(Seq<char>, Seq<char>)>,
    states: Seq<FileState>,
    n: int,
) -> Seq<UnitView>
    decreases n,
{
    if n <= 0 {
        Seq::empty()
    } else {
        let before = units_there(dir, names, states, n - 1);
        if states[n - 1].is_file && !is_taken(names, states, n - 1) {
            before.push(
                UnitView {
                    source: path_join(dir, names[n - 1].0),
                    recipe: RecipeView { path: names[n - 1].1, mode: 0o644 },
                    exists: true,
                    is_symlink: states[n - 1].is_symlink,
                },
            )
        } else {
            before
        }
    }
}

/// The units of a package in a directory, given the names of their files and what the file system
/// says of each.
pub fn find_units(dir: &str, names: &Vec<(String, String)>, states: &Vec<FileState>) -> (r: Vec<
    UnitFile,
>)
    requires
        states.len() == names.len(),
    ensures
        r.deep_view() == units_there(dir@, names.deep_view(), states@, names.len() as int),
{
    let ghost all = names.deep_view();
    let mut out: Vec<UnitFile> = Vec::new();
    let mut i: usize = 0;
    assert(out.deep_view() =~= Seq::<UnitView>::empty());
    while i < names.len()
        invariant
            i <= names.len() == states.len(),
            all == names.deep_view(),
            out.deep_view() == units_there(dir@, all, states@, i as int),
        decreases names.len() - i,
    {
        let ghost before = out.deep_view();
        assert(all[i as int] == names[i as int].deep_view());
        let mut taken = false;
        let mut j: usize = 0;
        while j < i
            invariant
                j <= i < names.len() == states.len(),
                all == names.deep_view(),
                taken == (exists|k: int|
                    0 <= k < j && (#[trigger] states@[k]).is_file && all[k].1 == all[i as int].1),
            decreases i - j,
        {
            assert(all[j as int] == names[j as int].deep_view());
            assert(all[i as int] == names[i as int].deep_view());
            if states[j].is_file && same(names[j].1.as_str(), names[i].1.as_str()) {
                assert(states@[j as int].is_file);
                taken = true;
            }
            j += 1;
        }
        if states[i].is_file && !taken {
            let unit = UnitFile {
                source: join(dir, names[i].0.as_str()),
                recipe: InstallRecipe { path: names[i].1.clone(), mode: 0o644 },
                exists: true,
                is_symlink: states[i].is_symlink,
            };
            let ghost u = unit.deep_view();
            out.push(unit);
            assert(out.deep_view() =~= before.push(u));
        }
        i += 1;
    }
    out
}

// ---------------------------------------------------------------------------
// Comparing units
// ---------------------------------------------------------------------------
/// Whether two units are the same file, installed in the same way.
pub open spec fn same_unit(a: UnitView, b: UnitView) -> bool {
    same_path(a.source, b.source) && same_path(a.recipe.path, b.recipe.path) && a.recipe.mode
        == b.recipe.mode
}

/// Whether two lists, each in the order of the kinds of units, have the same units.
pub open spec fn same_units(a: Seq<UnitView>, b: Seq<UnitView>) -> bool {
    a.len() == b.len() && forall|i: int| 0 <= i < a.len() ==> same_unit(#[trigger] a[i], b[i])
}

pub(crate) fn units_equal(a: &Vec<UnitFile>, b: &Vec<UnitFile>) -> (r: bool)
    ensures
        r == same_units(a.deep_view(), b.deep_view()),
{
    if a.len() != b.len() {
        return false;
    }
    let ghost x = a.deep_view();
    let ghost y = b.deep_view();
    let mut i: usize = 0;
    while i < a.len()
        invariant
            a.len() == b.len(),
            i <= a.len(),
            x == a.deep_view(),
            y == b.deep_view(),
            forall|k: int| 0 <= k < i ==> same_unit(#[trigger] x[k], y[k]),
        decreases a.len() - i,
    {
        assert(x[i as int] == a[i as int].deep_view());
        assert(y[i as int] == b[i as int].deep_view());
        if !paths_equal(a[i].source.as_str(), b[i].source.as_str()) || !paths_equal(
            a[i].recipe.path.as_str(),
            b[i].recipe.path.as_str(),
        ) || a[i].recipe.mode != b[i].recipe.mode {
            assert(!same_unit(x[i as int], y[i as int]));
            return false;
        }
        i += 1;
    }
    true
}

} // verus!
