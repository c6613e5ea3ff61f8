//! What is read about the project and the system.
use crate::dependencies::{ascii_trim_end, ascii_trim_start, first_with_prefix, is_ascii_space, listed_dependencies, shlibdeps_args, split_bytes, wanted_dependencies};
use crate::parse::asset_table::asset_from;
use crate::parse::cargo::{config_dirs, dirs_upwards, first_found, ConfigReads};
use crate::parse::manifest::NamedProfile;
use crate::parse::manifest::custom_profile;
use crate::parse::workspace::{default_package, first_index, member_names, metadata_args, target_package, with_deb, with_id, with_manifest, without_version, CargoMetadata, CargoMetadataPackage};
use crate::paths::{parent, path_join, same_path};
use crate::text::{find_from, has_prefix};
use vstd::prelude::*;
use vstd::utf8::encode_utf8;

verus! {

// ---------------------------------------------------------------------------
// The package of a workspace
// ---------------------------------------------------------------------------
proof fn lemma_first(n: int, holds: spec_fn(int) -> bool)
    ensures
        match first_index(n, holds) {
            Some(i) => 0 <= i < n && holds(i) && forall|k: int| 0 <= k < i ==> !#[trigger] holds(k),
            None => forall|k: int| 0 <= k < n ==> !#[trigger] holds(k),
        },
    decreases n,
{
    if n > 0 {
        lemma_first(n - 1, holds);
    }
}

/// A package that is asked for is the first of that name; a version behind an at sign does not count.
pub proof fn law_named_package(m: CargoMetadata, name: Seq<char>)
    requires
        !name.contains('@'),
    ensures
        match target_package(m, Some(name)) {
            Some(i) => 0 <= i < m.packages@.len() && m.packages@[i].name@ == name && forall|k: int|
                0 <= k < i ==> (#[trigger] m.packages@[k]).name@ != name,
            None => forall|k: int|
                0 <= k < m.packages@.len() ==> (#[trigger] m.packages@[k]).name@ != name,
        },
        forall|version: Seq<char>|
            target_package(m, Some(#[trigger] (name.push('@') + version))) == target_package(
                m,
                Some(name),
            ),
{
    lemma_find_none(name, '@', 0);
    assert(without_version(name) =~= name);
    let holds = crate::parse::workspace::named(m.packages@, name);
    lemma_first(m.packages@.len() as int, holds);
    match first_index(m.packages@.len() as int, holds) {
        Some(i) => {
            assert forall|k: int| 0 <= k < i implies (#[trigger] m.packages@[k]).name@ != name by {
                assert(!holds(k));
            }
        },
        None => {
            assert forall|k: int| 0 <= k < m.packages@.len() implies (
            #[trigger] m.packages@[k]).name@ != name by {
                assert(!holds(k));
            }
        },
    }
    assert forall|version: Seq<char>|
        target_package(m, Some(#[trigger] (name.push('@') + version))) == target_package(
            m,
            Some(name),
        ) by {
        let long = name.push('@') + version;
        assert forall|k: int| 0 <= k < name.len() implies long[k] != '@' by {
            assert(name.contains(name[k]));
        }
        lemma_find_at(long, '@', 0, name.len() as int);
        assert(long.take(name.len() as int) =~= name);
    }
}

proof fn lemma_find_none(s: Seq<char>, c: char, from: int)
    requires
        !s.contains(c),
        0 <= from <= s.len(),
    ensures
        find_from(s, c, from) == s.len(),
    decreases s.len() - from,
{
    if from < s.len() {
        assert(s.contains(s[from]));
        lemma_find_none(s, c, from + 1);
    }
}

proof fn lemma_find_at(s: Seq<char>, c: char, from: int, i: int)
    requires
        0 <= from <= i < s.len(),
        s[i] == c,
        forall|k: int| from <= k < i ==> s[k] != c,
    ensures
        find_from(s, c, from) == i,
    decreases i - from,
{
    if from < i {
        lemma_find_at(s, c, from + 1, i);
    }
}

/// The package at the place has settings for a package, and is one of those that count.
pub open spec fn is_candidate(m: CargoMetadata, i: int) -> bool {
    &&& 0 <= i < m.packages@.len()
    &&& m.packages@[i].has_deb_metadata
    &&& if m.workspace_default_members@.len() > 0 {
        m.workspace_default_members.deep_view().contains(m.packages@[i].id@)
    } else {
        m.workspace_members.deep_view().contains(m.packages@[i].id@)
    }
}

/// The package at the place is the only default member of the workspace.
pub open spec fn is_only_default(m: CargoMetadata, i: int) -> bool {
    &&& 0 <= i < m.packages@.len()
    &&& m.workspace_default_members@.len() == 1
    &&& m.packages@[i].id@ == m.workspace_default_members@[0]@
}

/// The package at the place is the one in the root of the workspace.
pub open spec fn is_root_package(m: CargoMetadata, i: int) -> bool {
    &&& 0 <= i < m.packages@.len()
    &&& same_path(m.packages@[i].manifest_path@, path_join(m.workspace_root@, "Cargo.toml"@))
}

/// Without a name, the package is the only default member of the workspace, else the one in its root,
/// else the only member that has settings for a package; else there is none.
pub proof fn law_default_package(m: CargoMetadata, i: int)
    ensures
        is_only_default(m, i) && (forall|k: int| 0 <= k < i ==> !#[trigger] is_only_default(m, k))
            ==> default_package(m) == Some(i),
        (forall|k: int| !#[trigger] is_only_default(m, k)) && is_root_package(m, i) && (forall|k: int|
            0 <= k < i ==> !#[trigger] is_root_package(m, k)) ==> default_package(m) == Some(i),
        (forall|k: int| !#[trigger] is_only_default(m, k)) && (forall|k: int|
            !#[trigger] is_root_package(m, k)) && is_candidate(m, i) && (forall|k: int|
            k != i ==> !#[trigger] is_candidate(m, k)) ==> default_package(m) == Some(i),
        (forall|k: int| !#[trigger] is_only_default(m, k)) && (forall|k: int|
            !#[trigger] is_root_package(m, k)) && (forall|k: int| !#[trigger] is_candidate(m, k))
            ==> default_package(m) is None,
        (forall|k: int| !#[trigger] is_only_default(m, k)) && (forall|k: int|
            !#[trigger] is_root_package(m, k)) && (exists|k: int|
            k != i && is_candidate(m, i) && #[trigger] is_candidate(m, k)) ==> default_package(m)
            is None,
{
    let n = m.packages@.len() as int;
    let defaults = m.workspace_default_members.deep_view();
    let root = path_join(m.workspace_root@, "Cargo.toml"@);
    let members = if defaults.len() > 0 {
        defaults
    } else {
        m.workspace_members.deep_view()
    };
    let by_id = with_id(m.packages@, defaults[0]);
    let by_root = with_manifest(m.packages@, root);
    let by_deb = with_deb(m.packages@, members);
    lemma_first(n, by_id);
    lemma_first(n, by_root);
    lemma_first(n, by_deb);
    assert(defaults.len() == m.workspace_default_members@.len());
    assert forall|k: int| defaults.len() == 1 && 0 <= k < n implies #[trigger] by_id(k) == is_only_default(m, k) by {}
    assert forall|k: int| 0 <= k < n implies #[trigger] by_root(k) == is_root_package(m, k) by {}
    assert forall|k: int| 0 <= k < n implies #[trigger] by_deb(k) == is_candidate(m, k) by {}
    if is_only_default(m, i) {
        assert(by_id(i));
    }
    if is_root_package(m, i) {
        assert(by_root(i));
    }
    if is_candidate(m, i) {
        assert(by_deb(i));
    }
    if exists|k: int| k != i && is_candidate(m, i) && #[trigger] is_candidate(m, k) {
        let k = choose|k: int| k != i && is_candidate(m, i) && #[trigger] is_candidate(m, k);
        assert(by_deb(k));
        assert(by_deb(i));
    }
}

/// The names that are offered are those of the members, in the order of the packages.
pub proof fn law_member_names(
    packages: Seq<CargoMetadataPackage>,
    p: CargoMetadataPackage,
    members: Seq<Seq<char>>,
)
    ensures
        member_names(Seq::empty(), members).len() == 0,
        member_names(packages.push(p), members) == if members.contains(p.id@) {
            member_names(packages, members).push(p.name@)
        } else {
            member_names(packages, members)
        },
{
    assert(packages.push(p).drop_last() =~= packages);
}

/// A profile of its own name is the first with that name.
pub proof fn law_custom_profile(profiles: Seq<NamedProfile>, name: Seq<char>, i: int)
    requires
        0 <= i < profiles.len(),
        profiles[i].name@ == name,
        forall|k: int| 0 <= k < i ==> (#[trigger] profiles[k]).name@ != name,
    ensures
        custom_profile(profiles, name) == Some(profiles[i].profile),
    decreases profiles.len(),
{
    let t = profiles.drop_last();
    if i < profiles.len() - 1 {
        assert forall|k: int| 0 <= k < i implies (#[trigger] t[k]).name@ != name by {
            assert(t[k] == profiles[k]);
        }
        law_custom_profile(t, name, i);
    } else {
        lemma_no_profile(t, name);
    }
}

proof fn lemma_no_profile(profiles: Seq<NamedProfile>, name: Seq<char>)
    requires
        forall|k: int| 0 <= k < profiles.len() ==> (#[trigger] profiles[k]).name@ != name,
    ensures
        custom_profile(profiles, name) is None,
    decreases profiles.len(),
{
    if profiles.len() > 0 {
        let t = profiles.drop_last();
        assert forall|k: int| 0 <= k < t.len() implies (#[trigger] t[k]).name@ != name by {
            assert(t[k] == profiles[k]);
        }
        lemma_no_profile(t, name);
        assert(profiles[profiles.len() - 1].name@ != name);
    }
}

/// Cargo is asked about the given manifest, and not about dependencies.
pub proof fn law_metadata_args(flags: crate::CargoLockingFlags, manifest: Option<Seq<char>>)
    ensures
        ({
            let args = metadata_args(flags, manifest);
            &&& args[0] == "metadata"@
            &&& args[1] == "--format-version=1"@
            &&& args[2] == "--no-deps"@
            &&& forall|k: int|
                0 <= k < flags.texts().len() ==> args[3 + k] == #[trigger] flags.texts()[k]
            &&& manifest matches Some(path) ==> args.len() == 5 + flags.texts().len()
                && args[args.len() - 2] == "--manifest-path"@ && args.last() == path
            &&& manifest is None ==> args.len() == 3 + flags.texts().len()
        }),
{
}

// ---------------------------------------------------------------------------
// The configuration of Cargo
// ---------------------------------------------------------------------------
/// The configuration is looked for in the project and all directories above it, then in the home of
/// Cargo, in the home of the user, and in the system.
pub proof fn law_config_dirs(project: Seq<char>, cargo_home: Option<Seq<char>>, home: Option<Seq<char>>)
    ensures
        ({
            let dirs = config_dirs(project, cargo_home, home);
            let n = dirs_upwards(project).len() as int;
            &&& n > 0
            &&& dirs[0] == path_join(project, ".cargo"@)
            &&& dirs.last() == "/etc/.cargo"@
            &&& cargo_home matches Some(h) ==> dirs[n] == h
            &&& home matches Some(h) ==> dirs[dirs.len() - 2] == path_join(h, ".cargo"@)
            &&& dirs.len() == n + 1 + (if cargo_home is Some {
                1int
            } else {
                0
            }) + (if home is Some {
                1int
            } else {
                0
            })
            &&& parent(project) matches Some(dir) ==> dirs_upwards(project).skip(1) == dirs_upwards(
                dir,
            )
            &&& parent(project) is None ==> n == 1
        }),
{
    if let Some(dir) = parent(project) {
        assert(dirs_upwards(project).skip(1) =~= dirs_upwards(dir));
    }
}

/// The first directory with a file of either name counts.
pub proof fn law_first_config(reads: Seq<ConfigReads>)
    ensures
        match first_found(reads) {
            Some(i) => 0 <= i < reads.len() && !(reads[i].toml is Missing && reads[i].plain
                is Missing) && forall|k: int|
                0 <= k < i ==> (#[trigger] reads[k]).toml is Missing && reads[k].plain is Missing,
            None => forall|k: int|
                0 <= k < reads.len() ==> (#[trigger] reads[k]).toml is Missing && reads[k].plain
                    is Missing,
        },
    decreases reads.len(),
{
    if reads.len() > 0 {
        let t = reads.drop_last();
        law_first_config(t);
        assert(forall|k: int| 0 <= k < t.len() ==> t[k] == reads[k]);
        match first_found(t) {
            Some(i) => {
                assert(t[i] == reads[i]);
            },
            None => {
                assert forall|k: int| 0 <= k < reads.len() - 1 implies (#[trigger] reads[k]).toml
                    is Missing && reads[k].plain is Missing by {
                    assert(t[k].toml is Missing);
                }
            },
        }
    }
}

// ---------------------------------------------------------------------------
// Entries for files in the manifest
// ---------------------------------------------------------------------------
/// The parts of an entry are the source, the target and the permissions, which are octal. An entry
/// whose source is in a directory of another profile or target is refused.
pub proof fn law_asset_entry(source: Seq<char>, dest: Seq<char>, mode: Seq<char>)
    ensures
        match asset_from(source, dest, mode) {
            Ok(a) => a.source_path == source && a.target_path == dest && (a.chmod matches Some(m)
                && crate::numbers::number_value(mode, 8, u32::MAX as int) == Ok::<
                int,
                crate::numbers::NumberError,
            >(m as int)),
            Err(_) => crate::numbers::number_value(mode, 8, u32::MAX as int) is Err,
        },
{
    lemma_number_bound(mode);
}

proof fn lemma_number_bound(mode: Seq<char>)
    ensures
        crate::numbers::number_value(mode, 8, u32::MAX as int) matches Ok(n) ==> 0 <= n <= u32::MAX,
{
    crate::laws::settings::law_number(mode, '0', 8, u32::MAX as int);
}

// ---------------------------------------------------------------------------
// Libraries that binaries need
// ---------------------------------------------------------------------------
/// Splitting bytes: what has no separator is one piece, and a separator ends a piece.
pub proof fn law_split_bytes(a: Seq<u8>, b: Seq<u8>, c: u8)
    requires
        !b.contains(c),
    ensures
        split_bytes(b, c) == seq![b],
        split_bytes(a.push(c) + b, c) == split_bytes(a, c).push(b),
    decreases b.len(),
{
    if b.len() == 0 {
        assert(b =~= Seq::<u8>::empty());
        assert(a.push(c) + b =~= a.push(c));
        assert(a.push(c).drop_last() =~= a);
    } else {
        let t = b.drop_last();
        assert(!t.contains(c)) by {
            if t.contains(c) {
                let k = choose|k: int| 0 <= k < t.len() && t[k] == c;
                assert(b[k] == c);
            }
        }
        assert(b.contains(b.last()));
        law_split_bytes(a, t, c);
        let s = a.push(c) + b;
        assert(s.drop_last() =~= a.push(c) + t);
        assert(s.last() == b.last());
        let before = split_bytes(a, c).push(t);
        assert(before.drop_last() =~= split_bytes(a, c));
        assert(before.last().push(b.last()) =~= b);
        assert(seq![t].drop_last().push(t.push(b.last())) =~= seq![b]);
    }
}

/// The libraries are listed in the first line that says so, whatever else is said.
pub proof fn law_first_line(lines: Seq<Seq<u8>>, prefix: Seq<u8>, i: int, list: Seq<u8>)
    requires
        0 <= i < lines.len(),
        lines[i] == prefix + list,
        forall|k: int|
            0 <= k < i ==> !((#[trigger] lines[k]).len() >= prefix.len() && lines[k].take(
                prefix.len() as int,
            ) == prefix),
    ensures
        first_with_prefix(lines, prefix) == Some(list),
    decreases i,
{
    if i == 0 {
        assert((prefix + list).take(prefix.len() as int) =~= prefix);
        assert((prefix + list).skip(prefix.len() as int) =~= list);
    } else {
        let t = lines.skip(1);
        assert(!(lines[0].len() >= prefix.len() && lines[0].take(prefix.len() as int) == prefix));
        assert(t[i - 1] == lines[i]);
        assert forall|k: int| 0 <= k < i - 1 implies !((#[trigger] t[k]).len() >= prefix.len()
            && t[k].take(prefix.len() as int) == prefix) by {
            assert(t[k] == lines[k + 1]);
        }
        law_first_line(t, prefix, i - 1, list);
    }
}

/// Without such a line, there is no list.
pub proof fn law_no_line(lines: Seq<Seq<u8>>, prefix: Seq<u8>)
    requires
        forall|k: int|
            0 <= k < lines.len() ==> !((#[trigger] lines[k]).len() >= prefix.len() && lines[k].take(
                prefix.len() as int,
            ) == prefix),
    ensures
        first_with_prefix(lines, prefix) is None,
    decreases lines.len(),
{
    if lines.len() > 0 {
        assert(!(lines[0].len() >= prefix.len() && lines[0].take(prefix.len() as int) == prefix));
        let t = lines.skip(1);
        assert forall|k: int| 0 <= k < t.len() implies !((#[trigger] t[k]).len() >= prefix.len()
            && t[k].take(prefix.len() as int) == prefix) by {
            assert(t[k] == lines[k + 1]);
        }
        law_no_line(t, prefix);
    }
}

/// The list of libraries is between the commas of the first line that begins with its name.
pub proof fn law_library_list(stdout: Seq<u8>)
    ensures
        match first_with_prefix(split_bytes(stdout, 10u8), encode_utf8("shlibs:Depends="@)) {
            Some(list) => listed_dependencies(stdout) == Some(
                wanted_dependencies(split_bytes(list, 44u8)),
            ),
            None => listed_dependencies(stdout) is None,
        },
{
}

/// Every library is taken over without the space around it, in its order, but for that of the
/// compiler.
pub proof fn law_libraries(pieces: Seq<Seq<u8>>, name: Seq<char>, before: Seq<char>, behind: Seq<char>)
    requires
        forall|k: int| 0 <= k < before.len() ==> is_ascii_space(#[trigger] before[k]),
        forall|k: int| 0 <= k < behind.len() ==> is_ascii_space(#[trigger] behind[k]),
        name.len() > 0,
        !is_ascii_space(name[0]),
        !is_ascii_space(name.last()),
    ensures
        wanted_dependencies(Seq::empty()).len() == 0,
        wanted_dependencies(pieces.push(encode_utf8(before + name + behind))) == if has_prefix(
            name,
            "libgcc-"@,
        ) || has_prefix(name, "libgcc1"@) {
            wanted_dependencies(pieces)
        } else {
            wanted_dependencies(pieces).push(name)
        },
{
    let text = before + name + behind;
    let piece = encode_utf8(text);
    vstd::utf8::encode_utf8_valid_utf8(text);
    vstd::utf8::encode_utf8_decode_utf8(text);
    assert(pieces.push(piece).drop_last() =~= pieces);
    lemma_trim_front(before, name + behind);
    assert(before + (name + behind) =~= text);
    lemma_trim_back(name, behind);
}

proof fn lemma_trim_front(space: Seq<char>, s: Seq<char>)
    requires
        forall|k: int| 0 <= k < space.len() ==> is_ascii_space(#[trigger] space[k]),
        s.len() > 0,
        !is_ascii_space(s[0]),
    ensures
        ascii_trim_start(space + s) == s,
    decreases space.len(),
{
    let all = space + s;
    if space.len() == 0 {
        assert(all =~= s);
    } else {
        assert(all[0] == space[0]);
        assert(is_ascii_space(space[0]));
        let t = space.skip(1);
        assert forall|k: int| 0 <= k < t.len() implies is_ascii_space(#[trigger] t[k]) by {
            assert(t[k] == space[k + 1]);
        }
        assert(all.skip(1) =~= t + s);
        lemma_trim_front(t, s);
    }
}

proof fn lemma_trim_back(s: Seq<char>, space: Seq<char>)
    requires
        forall|k: int| 0 <= k < space.len() ==> is_ascii_space(#[trigger] space[k]),
        s.len() > 0,
        !is_ascii_space(s.last()),
    ensures
        ascii_trim_end(s + space) == s,
    decreases space.len(),
{
    let all = s + space;
    if space.len() == 0 {
        assert(all =~= s);
    } else {
        assert(all.last() == space.last());
        assert(is_ascii_space(space[space.len() - 1]));
        let t = space.drop_last();
        assert forall|k: int| 0 <= k < t.len() implies is_ascii_space(#[trigger] t[k]) by {
            assert(t[k] == space[k]);
        }
        assert(all.drop_last() =~= s + t);
        lemma_trim_back(s, t);
    }
}

/// The tool that finds libraries gets every directory to look in, and the binary last.
pub proof fn law_library_args(path: Seq<char>, dirs: Seq<Seq<char>>)
    ensures
        ({
            let args = shlibdeps_args(path, dirs);
            &&& args.len() == dirs.len() + 3
            &&& args[0] == "-xlibgcc"@
            &&& forall|k: int| 0 <= k < dirs.len() ==> args[1 + k] == "-l"@ + #[trigger] dirs[k]
            &&& args[args.len() - 2] == "-O"@
            &&& args.last() == path
        }),
{
}

} // verus!
