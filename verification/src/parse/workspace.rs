//! Which package of a workspace is meant.
use crate::dependencies::CommandOutcome;
use crate::error::{CDResult, CargoDebError, ErrorView};
use crate::paths::{path_join, paths_equal, same_path};
use crate::text::{chars_of, find_from, index_from, join, join_strings, same, slice};
use crate::CargoLockingFlags;
use vstd::prelude::*;

verus! {

/// Something that Cargo builds.
#[derive(Debug)]
pub struct CargoMetadataTarget {
    pub name: String,
    pub kind: Vec<String>,
    pub crate_types: Vec<String>,
    pub src_path: String,
}

/// A package of a workspace.
#[derive(Debug)]
pub struct CargoMetadataPackage {
    pub id: String,
    pub name: String,
    pub targets: Vec<CargoMetadataTarget>,
    pub manifest_path: String,
    /// Whether its manifest has a `[package.metadata.deb]` table.
    pub has_deb_metadata: bool,
}

/// What `cargo metadata` says of a workspace.
#[derive(Debug)]
pub struct CargoMetadata {
    pub packages: Vec<CargoMetadataPackage>,
    pub workspace_members: Vec<String>,
    pub workspace_default_members: Vec<String>,
    pub target_directory: String,
    pub workspace_root: String,
}

/// The first number below `n` for which something holds.
pub open spec fn first_index(n: int, holds: spec_fn(int) -> bool) -> Option<int>
    decreases n,
{
    if n <= 0 {
        None
    } else if first_index(n - 1, holds) is Some {
        first_index(n - 1, holds)
    } else if holds(n - 1) {
        Some(n - 1)
    } else {
        None
    }
}

pub proof fn lemma_first_index(n: int, holds: spec_fn(int) -> bool, i: int)
    requires
        0 <= i < n,
        holds(i),
        forall|k: int| 0 <= k < i ==> !#[trigger] holds(k),
    ensures
        first_index(n, holds) == Some(i),
    decreases n,
{
    if i == n - 1 {
        lemma_no_index(n - 1, holds);
    } else {
        lemma_first_index(n - 1, holds, i);
    }
}

pub proof fn lemma_no_index(n: int, holds: spec_fn(int) -> bool)
    requires
        forall|k: int| 0 <= k < n ==> !#[trigger] holds(k),
    ensures
        first_index(n, holds) is None,
    decreases n,
{
    if n > 0 {
        lemma_no_index(n - 1, holds);
    }
}

/// The name of a package without the version behind `@`.
pub open spec fn without_version(name: Seq<char>) -> Seq<char> {
    name.take(find_from(name, '@', 0))
}

pub open spec fn named(packages: Seq<CargoMetadataPackage>, name: Seq<char>) -> spec_fn(int) -> bool {
    |i: int| packages[i].name@ == name
}

pub open spec fn with_id(packages: Seq<CargoMetadataPackage>, id: Seq<char>) -> spec_fn(int) -> bool {
    |i: int| packages[i].id@ == id
}

pub open spec fn with_manifest(packages: Seq<CargoMetadataPackage>, path: Seq<char>) -> spec_fn(
    int,
) -> bool {
    |i: int| same_path(packages[i].manifest_path@, path)
}

/// A package with metadata for Debian that is among the members.
pub open spec fn with_deb(packages: Seq<CargoMetadataPackage>, members: Seq<Seq<char>>) -> spec_fn(
    int,
) -> bool {
    |i: int| packages[i].has_deb_metadata && members.contains(packages[i].id@)
}

/// The only number below `n` for which something holds.
pub open spec fn only_index(n: int, holds: spec_fn(int) -> bool) -> Option<int> {
    match first_index(n, holds) {
        None => None,
        Some(i) => if forall|k: int| i < k < n ==> !#[trigger] holds(k) {
            Some(i)
        } else {
            None
        },
    }
}

/// The package that is meant where none is named: the only default member; else the one whose
/// manifest is that of the workspace; else the only one of the (default) members with metadata for
/// Debian.
pub open spec fn default_package(m: CargoMetadata) -> Option<int> {
    let n = m.packages@.len() as int;
    let defaults = m.workspace_default_members.deep_view();
    let by_default = if defaults.len() == 1 {
        first_index(n, with_id(m.packages@, defaults[0]))
    } else {
        None
    };
    let root = path_join(m.workspace_root@, "Cargo.toml"@);
    let members = if defaults.len() > 0 {
        defaults
    } else {
        m.workspace_members.deep_view()
    };
    if by_default is Some {
        by_default
    } else if first_index(n, with_manifest(m.packages@, root)) is Some {
        first_index(n, with_manifest(m.packages@, root))
    } else {
        only_index(n, with_deb(m.packages@, members))
    }
}

/// The names of the members of the workspace.
pub open spec fn member_names(packages: Seq<CargoMetadataPackage>, members: Seq<Seq<char>>) -> Seq<
    Seq<char>,
>
    decreases packages.len(),
{
    if packages.len() == 0 {
        Seq::empty()
    } else {
        let before = member_names(packages.drop_last(), members);
        if members.contains(packages.last().id@) {
            before.push(packages.last().name@)
        } else {
            before
        }
    }
}

pub open spec fn available_names(m: CargoMetadata) -> Seq<char> {
    join(member_names(m.packages@, m.workspace_members.deep_view()), ", "@)
}

/// The package that is meant.
pub open spec fn target_package(m: CargoMetadata, selected: Option<Seq<char>>) -> Option<int> {
    match selected {
        Some(name) => first_index(
            m.packages@.len() as int,
            named(m.packages@, without_version(name)),
        ),
        None => default_package(m),
    }
}

/// Whether the text is among the texts.
pub fn contains_string(v: &Vec<String>, s: &str) -> (r: bool)
    ensures
        r == v.deep_view().contains(s@),
{
    let mut i: usize = 0;
    while i < v.len()
        invariant
            i <= v.len(),
            forall|k: int| 0 <= k < i ==> v.deep_view()[k] != s@,
        decreases v.len() - i,
    {
        assert(v.deep_view()[i as int] == v[i as int]@);
        if same(v[i].as_str(), s) {
            return true;
        }
        i += 1;
    }
    false
}

fn available_package_names(metadata: &CargoMetadata) -> (r: String)
    ensures
        r@ == available_names(*metadata),
{
    let ghost all = metadata.packages@;
    let ghost members = metadata.workspace_members.deep_view();
    let mut names: Vec<String> = Vec::new();
    let mut i: usize = 0;
    assert(all.take(0) =~= Seq::<CargoMetadataPackage>::empty());
    assert(names.deep_view() =~= Seq::<Seq<char>>::empty());
    while i < metadata.packages.len()
        invariant
            i <= metadata.packages.len(),
            all == metadata.packages@,
            members == metadata.workspace_members.deep_view(),
            names.deep_view() == member_names(all.take(i as int), members),
        decreases metadata.packages.len() - i,
    {
        let ghost before = names.deep_view();
        assert(all.take(i + 1).drop_last() =~= all.take(i as int));
        assert(all.take(i + 1).last() == all[i as int]);
        if contains_string(&metadata.workspace_members, metadata.packages[i].id.as_str()) {
            names.push(metadata.packages[i].name.clone());
            assert(names.deep_view() =~= before.push(all[i as int].name@));
        }
        i += 1;
    }
    assert(all.take(i as int) =~= all);
    join_strings(&names, ", ")
}

fn position_of_name(packages: &Vec<CargoMetadataPackage>, name: &str) -> (r: Option<usize>)
    ensures
        r is Some ==> first_index(packages@.len() as int, named(packages@, name@)) == Some(
            r->0 as int,
        ) && r->0 < packages@.len(),
        r is None ==> first_index(packages@.len() as int, named(packages@, name@)) is None,
{
    let ghost holds = named(packages@, name@);
    let mut i: usize = 0;
    while i < packages.len()
        invariant
            i <= packages.len(),
            holds == named(packages@, name@),
            forall|k: int| 0 <= k < i ==> !#[trigger] holds(k),
        decreases packages.len() - i,
    {
        if same(packages[i].name.as_str(), name) {
            proof {
                lemma_first_index(packages@.len() as int, holds, i as int);
            }
            return Some(i);
        }
        i += 1;
    }
    proof {
        lemma_no_index(packages@.len() as int, holds);
    }
    None
}

fn position_of_id(packages: &Vec<CargoMetadataPackage>, id: &str) -> (r: Option<usize>)
    ensures
        r is Some ==> first_index(packages@.len() as int, with_id(packages@, id@)) == Some(
            r->0 as int,
        ) && r->0 < packages@.len(),
        r is None ==> first_index(packages@.len() as int, with_id(packages@, id@)) is None,
{
    let ghost holds = with_id(packages@, id@);
    let mut i: usize = 0;
    while i < packages.len()
        invariant
            i <= packages.len(),
            holds == with_id(packages@, id@),
            forall|k: int| 0 <= k < i ==> !#[trigger] holds(k),
        decreases packages.len() - i,
    {
        if same(packages[i].id.as_str(), id) {
            proof {
                lemma_first_index(packages@.len() as int, holds, i as int);
            }
            return Some(i);
        }
        i += 1;
    }
    proof {
        lemma_no_index(packages@.len() as int, holds);
    }
    None
}

fn position_of_manifest(packages: &Vec<CargoMetadataPackage>, path: &str) -> (r: Option<usize>)
    ensures
        r is Some ==> first_index(packages@.len() as int, with_manifest(packages@, path@)) == Some(
            r->0 as int,
        ) && r->0 < packages@.len(),
        r is None ==> first_index(packages@.len() as int, with_manifest(packages@, path@)) is None,
{
    let ghost holds = with_manifest(packages@, path@);
    let mut i: usize = 0;
    while i < packages.len()
        invariant
            i <= packages.len(),
            holds == with_manifest(packages@, path@),
            forall|k: int| 0 <= k < i ==> !#[trigger] holds(k),
        decreases packages.len() - i,
    {
        if paths_equal(packages[i].manifest_path.as_str(), path) {
            proof {
                lemma_first_index(packages@.len() as int, holds, i as int);
            }
            return Some(i);
        }
        i += 1;
    }
    proof {
        lemma_no_index(packages@.len() as int, holds);
    }
    None
}

fn only_deb_position(packages: &Vec<CargoMetadataPackage>, members: &Vec<String>) -> (r: Option<
    usize,
>)
    ensures
        r is Some ==> only_index(
            packages@.len() as int,
            with_deb(packages@, members.deep_view()),
        ) == Some(r->0 as int) && r->0 < packages@.len(),
        r is None ==> only_index(
            packages@.len() as int,
            with_deb(packages@, members.deep_view()),
        ) is None,
{
    let ghost holds = with_deb(packages@, members.deep_view());
    let ghost n = packages@.len() as int;
    let mut found: Option<usize> = None;
    let mut i: usize = 0;
    while i < packages.len()
        invariant
            i <= packages.len(),
            n == packages@.len(),
            holds == with_deb(packages@, members.deep_view()),
            found is None ==> forall|k: int| 0 <= k < i ==> !#[trigger] holds(k),
            found is Some ==> {
                &&& found->0 < i
                &&& holds(found->0 as int)
                &&& forall|k: int| 0 <= k < found->0 ==> !#[trigger] holds(k)
                &&& forall|k: int| found->0 < k < i ==> !#[trigger] holds(k)
            },
        decreases packages.len() - i,
    {
        let matched = packages[i].has_deb_metadata && contains_string(
            members,
            packages[i].id.as_str(),
        );
        assert(matched == holds(i as int));
        if matched {
            match found {
                Some(first) => {
                    proof {
                        lemma_first_index(n, holds, first as int);
                        assert(holds(i as int));
                    }
                    return None;
                },
                None => {
                    found = Some(i);
                },
            }
        }
        i += 1;
    }
    proof {
        match found {
            Some(first) => lemma_first_index(n, holds, first as int),
            None => lemma_no_index(n, holds),
        }
    }
    found
}

/// The package that is meant where none is named.
pub fn pick_default_package_from_workspace(metadata: &CargoMetadata) -> (r: Option<usize>)
    ensures
        r is Some ==> default_package(*metadata) == Some(r->0 as int) && r->0
            < metadata.packages@.len(),
        r is None ==> default_package(*metadata) is None,
{
    // ignore default_members if there are multiple due to ambiguity
    if metadata.workspace_default_members.len() == 1 {
        assert(metadata.workspace_default_members.deep_view()[0]
            == metadata.workspace_default_members[0]@);
        let pos = position_of_id(
            &metadata.packages,
            metadata.workspace_default_members[0].as_str(),
        );
        if pos.is_some() {
            return pos;
        }
    }
    // if the root manifest is a package, use it
    let root_manifest_path = crate::paths::join(metadata.workspace_root.as_str(), "Cargo.toml");
    let pos = position_of_manifest(&metadata.packages, root_manifest_path.as_str());
    if pos.is_some() {
        return pos;
    }
    // find (active) package with an explicit cargo-deb metadata
    if metadata.workspace_default_members.len() > 0 {
        only_deb_position(&metadata.packages, &metadata.workspace_default_members)
    } else {
        only_deb_position(&metadata.packages, &metadata.workspace_members)
    }
}

/// The package that is meant, the target directory and the root of the workspace.
pub fn parse_metadata(metadata: CargoMetadata, selected_package_name: Option<&str>) -> (r: CDResult<
    (CargoMetadataPackage, String, String),
>)
    ensures
        ({
            let pos = target_package(
                metadata,
                match selected_package_name {
                    Some(n) => Some(n@),
                    None => None,
                },
            );
            match r {
                Ok(found) => {
                    &&& pos is Some && 0 <= pos->0 < metadata.packages@.len()
                    &&& found.0 == metadata.packages@[pos->0]
                    &&& found.1 == metadata.target_directory
                    &&& found.2 == metadata.workspace_root
                },
                Err(e) => pos is None && e.deep_view() == (match selected_package_name {
                    Some(n) => ErrorView::PackageNotFoundInWorkspace(n@, available_names(metadata)),
                    None => ErrorView::NoRootFoundInWorkspace(available_names(metadata)),
                }),
            }
        }),
{
    let pos = match selected_package_name {
        Some(name) => {
            let v = chars_of(name);
            let end = index_from(&v, '@', 0);
            let name_no_ver = slice(&v, 0, end);
            assert(name_no_ver@ =~= without_version(name@));
            match position_of_name(&metadata.packages, name_no_ver.as_str()) {
                Some(pos) => pos,
                None => {
                    return Err(
                        CargoDebError::PackageNotFoundInWorkspace(
                            name.to_owned(),
                            available_package_names(&metadata),
                        ),
                    );
                },
            }
        },
        None => match pick_default_package_from_workspace(&metadata) {
            Some(pos) => pos,
            None => {
                return Err(
                    CargoDebError::NoRootFoundInWorkspace(available_package_names(&metadata)),
                );
            },
        },
    };
    let mut packages = metadata.packages;
    let package = packages.swap_remove(pos);
    Ok((package, metadata.target_directory, metadata.workspace_root))
}

/// The arguments of `cargo metadata`.
pub open spec fn metadata_args(flags: CargoLockingFlags, manifest: Option<Seq<char>>) -> Seq<
    Seq<char>,
> {
    seq!["metadata"@, "--format-version=1"@, "--no-deps"@] + flags.texts() + (match manifest {
        Some(p) => seq!["--manifest-path"@, p],
        None => Seq::empty(),
    })
}

/// The arguments by which Cargo tells what is in a workspace.
pub fn cargo_metadata_args(
    manifest_rel_path: Option<&str>,
    cargo_locking_flags: CargoLockingFlags,
) -> (r: Vec<String>)
    ensures
        r.deep_view() == metadata_args(
            cargo_locking_flags,
            match manifest_rel_path {
                Some(p) => Some(p@),
                None => None,
            },
        ),
{
    let mut args: Vec<String> = Vec::new();
    args.push("metadata".to_owned());
    args.push("--format-version=1".to_owned());
    args.push("--no-deps".to_owned());
    let ghost a = args.deep_view();
    assert(a =~= seq!["metadata"@, "--format-version=1"@, "--no-deps"@]);
    let mut flags = cargo_locking_flags.flags();
    let ghost f = flags.deep_view();
    args.append(&mut flags);
    assert(args.deep_view() =~= a + f);
    match manifest_rel_path {
        Some(path) => {
            args.push("--manifest-path".to_owned());
            args.push(path.to_owned());
            assert(args.deep_view() =~= a + f + seq!["--manifest-path"@, path@]);
        },
        None => {
            assert(args.deep_view() =~= a + f + Seq::<Seq<char>>::empty());
        },
    }
    args
}

/// Whether the manifest of the workspace is to be read: not where the package is its own workspace.
pub fn needs_root_manifest(
    has_workspace: bool,
    manifest_path: &str,
    workspace_root_manifest_path: &str,
) -> (r: bool)
    ensures
        r == (!has_workspace && !same_path(manifest_path@, workspace_root_manifest_path@)),
{
    !has_workspace && !paths_equal(manifest_path, workspace_root_manifest_path)
}

/// What `cargo metadata` has written, unless it could not be run or has failed.
pub fn metadata_output(outcome: CommandOutcome) -> (r: CDResult<Vec<u8>>)
    ensures
        match outcome {
            CommandOutcome::NotRun(e) => r is Err && r->Err_0.deep_view()
                == ErrorView::CommandFailed(e.deep_view(), "cargo (is it in your PATH?)"@),
            CommandOutcome::Done { success, stdout, stderr } => if success {
                r is Ok && r->Ok_0 == stdout
            } else {
                r is Err && r->Err_0.deep_view() == ErrorView::CommandError(
                    "cargo"@,
                    "metadata"@,
                    stderr@,
                )
            },
        },
{
    match outcome {
        CommandOutcome::NotRun(e) => Err(
            CargoDebError::CommandFailed(e, "cargo (is it in your PATH?)".to_owned()),
        ),
        CommandOutcome::Done { success, stdout, stderr } => if success {
            Ok(stdout)
        } else {
            Err(CargoDebError::CommandError("cargo", "metadata".to_owned(), stderr))
        },
    }
}

} // verus!
