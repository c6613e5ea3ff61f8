//! What a package consists of.
use crate::assets::{AssetView, ReadResult};
use crate::compress::{are_points, decoded, gz_stream, is_compressed, native_level, steps_at, steps_data, system_level, CompressConfig, CompressType, Compressed};
use crate::config::control::{control_text, installed_size};
use crate::config::resolve::conffiles_text;
use crate::config::{BuildEnvironment, PackageConfig};
use crate::deb::archiving::{archive_first, archive_one, asset_entry, size_text, OnDisk, Progress};
use crate::deb::control::{base_added, control_archive, scripts_added, triggers_added, with_file, with_scripts, Built, ControlFiles, ScriptFile};
use crate::deb::data::{chosen_places, gz_asset, gz_path, is_chosen, needs_compression};
use crate::deb::tarball::{directories, directory_entries, entries_bytes, missing_parents, Entry, EntryKind};
use crate::deb::writing::{control_run, package_members};
use crate::dh::dh_lib::unit_scripts_made;
use crate::laws::paths::law_with_file_name;
use crate::paths::{components, file_name, is_name, law_file_name_component, lemma_component_names, path_join, path_starts_with, Comp};
use crate::text::{decimal, has_prefix, has_suffix};
use vstd::prelude::*;
use vstd::utf8::encode_utf8;

verus! {

// ---------------------------------------------------------------------------
// The members of a package
// ---------------------------------------------------------------------------
/// The ending of the name of a compressed file.
pub open spec fn ending(c: Compressed) -> Seq<char> {
    match c.spec_type() {
        CompressType::Xz => ".xz"@,
        CompressType::Gzip => ".gz"@,
    }
}

/// A package has three members, in the order that `dpkg` expects: the version of the format, what the
/// package says of itself, and its files. All of them belong to root, who alone may write them, and
/// have the date of the package.
pub proof fn law_members_of_a_package(time: u64, control: Compressed, data: Compressed)
    ensures
        ({
            let members = package_members(time, control, data);
            &&& members.len() == 3
            &&& members[0].name == "debian-binary"@
            &&& members[0].data == encode_utf8("2.0\n"@)
            &&& members[1].name == "control.tar"@ + ending(control)
            &&& members[1].data == control.spec_data()
            &&& members[2].name == "data.tar"@ + ending(data)
            &&& members[2].data == data.spec_data()
            &&& forall|i: int|
                0 <= i < 3 ==> {
                    let fields = (#[trigger] members[i]).fields();
                    &&& fields.mtime == time
                    &&& fields.uid == 0
                    &&& fields.gid == 0
                    &&& fields.mode == 0o100644
                    &&& fields.identifier == encode_utf8(members[i].name)
                }
        }),
{
    reveal_strlit("2.0\n");
    reveal_strlit("control.tar");
    reveal_strlit("control.tar.");
    reveal_strlit("data.tar");
    reveal_strlit("data.tar.");
    reveal_strlit("xz");
    reveal_strlit("gz");
    reveal_strlit(".xz");
    reveal_strlit(".gz");
    assert("control.tar."@ + "xz"@ =~= "control.tar"@ + ".xz"@);
    assert("control.tar."@ + "gz"@ =~= "control.tar"@ + ".gz"@);
    assert("data.tar."@ + "xz"@ =~= "data.tar"@ + ".xz"@);
    assert("data.tar."@ + "gz"@ =~= "data.tar"@ + ".gz"@);
    let s = "2.0\n"@;
    vstd::utf8::is_ascii_chars_encode_utf8(s);
    assert(encode_utf8(s) =~= seq![50u8, 46u8, 48u8, 10u8]);
}

/// Fast compression has the lowest level, whatever the format; otherwise it is the one that the format
/// has by default, or its best one.
pub proof fn law_levels(t: CompressType)
    ensures
        native_level(true, t) == 1,
        native_level(false, CompressType::Xz) == 6,
        native_level(false, CompressType::Gzip) == 9,
        native_level(true, t) < native_level(false, t),
        system_level(true) == "-1"@,
        system_level(false) == "-6"@,
{
}

// ---------------------------------------------------------------------------
// What the package says of itself
// ---------------------------------------------------------------------------
/// The archive holds the file.
pub open spec fn holds(entries: Seq<Entry>, path: Seq<char>, mode: u32, data: Seq<u8>) -> bool {
    exists|i: int|
        0 <= i < entries.len() && #[trigger] entries[i] == (Entry {
            path,
            mode,
            kind: EntryKind::File(data),
        })
}

/// The names of the maintainer scripts, and of the questions they ask.
pub open spec fn script_names() -> Seq<Seq<char>> {
    seq!["config"@, "preinst"@, "postinst"@, "prerm"@, "postrm"@, "templates"@]
}

proof fn lemma_with_file(entries: Seq<Entry>, path: Seq<char>, data: Seq<u8>, mode: u32)
    ensures
        entries.is_prefix_of(with_file(entries, path, data, mode)),
        holds(with_file(entries, path, data, mode), path, mode, data),
        forall|i: int|
            entries.len() <= i < with_file(entries, path, data, mode).len() && (
            #[trigger] with_file(entries, path, data, mode)[i]).kind is File ==> with_file(
                entries,
                path,
                data,
                mode,
            )[i].path == path,
{
    let r = with_file(entries, path, data, mode);
    let dirs = directory_entries(missing_parents(path, directories(entries)));
    assert(r =~= entries + dirs.push(Entry { path, mode, kind: EntryKind::File(data) }));
    assert(entries =~= r.take(entries.len() as int));
    assert(r[r.len() - 1] == (Entry { path, mode, kind: EntryKind::File(data) }));
    assert forall|i: int|
        entries.len() <= i < r.len() && (#[trigger] r[i]).kind is File implies r[i].path == path by {
        if i < r.len() - 1 {
            assert(r[i] == dirs[i - entries.len()]);
        }
    }
}

proof fn lemma_holds(a: Seq<Entry>, b: Seq<Entry>, path: Seq<char>, mode: u32, data: Seq<u8>)
    requires
        a.is_prefix_of(b),
        holds(a, path, mode, data),
    ensures
        holds(b, path, mode, data),
{
    let i = choose|i: int|
        0 <= i < a.len() && #[trigger] a[i] == (Entry { path, mode, kind: EntryKind::File(data) });
    assert(b[i] == a[i]);
}

proof fn lemma_prefix(a: Seq<Entry>, b: Seq<Entry>, c: Seq<Entry>)
    requires
        a.is_prefix_of(b),
        b.is_prefix_of(c),
    ensures
        a.is_prefix_of(c),
{
    assert(a =~= c.take(a.len() as int));
}

/// The permissions of a maintainer script: all of them can be run, but the questions cannot.
pub open spec fn script_permissions(i: int) -> u32 {
    if i == 5 {
        0o644
    } else {
        0o755
    }
}

/// The script is made for services, or read from disk; else it is not there.
pub open spec fn script_data(made: Seq<Option<Seq<char>>>, scripts: Seq<ScriptFile>, i: int) -> Option<
    Seq<u8>,
> {
    if 1 <= i <= 4 && made[i - 1] is Some {
        Some(encode_utf8(made[i - 1]->0))
    } else {
        match scripts[i] {
            ScriptFile::OnDisk(data) => Some(data@),
            _ => None,
        }
    }
}

proof fn lemma_scripts(
    b: Built,
    dir: Seq<char>,
    scripts: Seq<ScriptFile>,
    made: Seq<Option<Seq<char>>>,
    n: int,
)
    requires
        0 <= n <= 6,
        b.error is None,
        with_scripts(b, dir, scripts, made, n).error is None,
    ensures
        b.entries.is_prefix_of(with_scripts(b, dir, scripts, made, n).entries),
        forall|i: int|
            #![trigger script_names()[i]]
            0 <= i < n && script_data(made, scripts, i) is Some ==> holds(
                with_scripts(b, dir, scripts, made, n).entries,
                script_names()[i],
                script_permissions(i),
                script_data(made, scripts, i)->0,
            ),
        forall|j: int|
            b.entries.len() <= j < with_scripts(b, dir, scripts, made, n).entries.len() && (
            #[trigger] with_scripts(b, dir, scripts, made, n).entries[j]).kind is File
                ==> exists|i: int|
                0 <= i < n && script_data(made, scripts, i) is Some && with_scripts(
                    b,
                    dir,
                    scripts,
                    made,
                    n,
                ).entries[j].path == #[trigger] script_names()[i],
    decreases n,
{
    let r = with_scripts(b, dir, scripts, made, n);
    if n > 0 {
        let before = with_scripts(b, dir, scripts, made, n - 1);
        lemma_scripts(b, dir, scripts, made, n - 1);
        let k = n - 1;
        match script_data(made, scripts, k) {
            Some(data) => {
                let mode = script_permissions(k);
                assert(r.entries == with_file(before.entries, script_names()[k], data, mode));
                lemma_with_file(before.entries, script_names()[k], data, mode);
                lemma_prefix(b.entries, before.entries, r.entries);
                assert forall|i: int|
                    #![trigger script_names()[i]]
                    0 <= i < n && script_data(made, scripts, i) is Some implies holds(
                    r.entries,
                    script_names()[i],
                    script_permissions(i),
                    script_data(made, scripts, i)->0,
                ) by {
                    if i < k {
                        lemma_holds(
                            before.entries,
                            r.entries,
                            script_names()[i],
                            script_permissions(i),
                            script_data(made, scripts, i)->0,
                        );
                    }
                }
                assert forall|j: int|
                    b.entries.len() <= j < r.entries.len() && (#[trigger] r.entries[j]).kind
                        is File implies exists|i: int|
                    0 <= i < n && script_data(made, scripts, i) is Some && r.entries[j].path
                        == #[trigger] script_names()[i] by {
                    if j < before.entries.len() {
                        assert(before.entries[j] == r.entries[j]);
                        let i = choose|i: int|
                            0 <= i < n - 1 && script_data(made, scripts, i) is Some
                                && before.entries[j].path == #[trigger] script_names()[i];
                        assert(r.entries[j].path == script_names()[i]);
                    } else {
                        assert(r.entries[j].path == script_names()[k]);
                    }
                }
            },
            None => {
                assert(r == before);
                assert forall|j: int|
                    b.entries.len() <= j < r.entries.len() && (#[trigger] r.entries[j]).kind
                        is File implies exists|i: int|
                    0 <= i < n && script_data(made, scripts, i) is Some && r.entries[j].path
                        == #[trigger] script_names()[i] by {
                    let i = choose|i: int|
                        0 <= i < n - 1 && script_data(made, scripts, i) is Some
                            && before.entries[j].path == #[trigger] script_names()[i];
                    assert(r.entries[j].path == script_names()[i]);
                }
            },
        }
    }
}

/// What the package says of itself is an archive with the fields of the package; with the list of
/// configuration files, if there are any; with the triggers, if the package has some; and with the
/// maintainer scripts, which can be run.
pub proof fn law_control_archive(
    config: BuildEnvironment,
    p: PackageConfig,
    files: ControlFiles,
    before: Seq<crate::listener::MessageView>,
)
    requires
        control_run(config, p, files, before).error is None,
    ensures
        ({
            let entries = control_run(config, p, files, before).entries;
            let extended = p.long_description(config, files.description);
            let size = installed_size(p.assets.resolved.deep_view(), files.sizes@);
            &&& extended is Ok
            &&& holds(
                entries,
                "./control"@,
                0o644,
                encode_utf8(control_text(p, size, extended->Ok_0)),
            )
            &&& p.conf_files@.len() > 0 ==> holds(
                entries,
                "./conffiles"@,
                0o644,
                encode_utf8(conffiles_text(p.conf_files.deep_view())),
            )
            &&& p.triggers_file_rel_path is Some ==> files.triggers.content() is Some && holds(
                entries,
                "./triggers"@,
                0o644,
                files.triggers.content()->0,
            )
            &&& p.maintainer_scripts_rel_path is Some ==> {
                &&& unit_scripts_made(files.units@) is Ok
                &&& forall|i: int|
                    #![trigger script_names()[i]]
                    0 <= i < 6 && script_data(
                        unit_scripts_made(files.units@)->Ok_0,
                        files.scripts@,
                        i,
                    ) is Some ==> holds(
                        entries,
                        script_names()[i],
                        script_permissions(i),
                        script_data(unit_scripts_made(files.units@)->Ok_0, files.scripts@, i)->0,
                    )
            }
            &&& forall|j: int|
                0 <= j < entries.len() && (#[trigger] entries[j]).kind is File ==> {
                    ||| entries[j].path == "./control"@
                    ||| entries[j].path == "./conffiles"@ && p.conf_files@.len() > 0
                    ||| entries[j].path == "./triggers"@ && p.triggers_file_rel_path is Some
                    ||| p.maintainer_scripts_rel_path is Some && script_names().contains(
                        entries[j].path,
                    )
                }
        }),
{
    let b = Built { entries: Seq::empty(), messages: before, error: None };
    let run = control_run(config, p, files, before);
    assert(run == control_archive(b, config, p, files)) by {
        reveal(control_run);
    }
    let extended = p.long_description(config, files.description);
    assert(extended is Ok);
    let control = control_text(
        p,
        installed_size(p.assets.resolved.deep_view(), files.sizes@),
        extended->Ok_0,
    );
    let base = base_added(b, p, control);
    let scripts = scripts_added(base, config, p, files.scripts@, files.units@);
    lemma_run_parts(b, config, p, files, control);
    lemma_base(b, p, control);
    lemma_script_part(base, config, p, files);
    lemma_trigger_part(scripts, config, p, files.triggers);
    lemma_prefix(base.entries, scripts.entries, run.entries);
    let data = encode_utf8(control);
    lemma_holds(base.entries, run.entries, "./control"@, 0o644, data);
    if p.conf_files@.len() > 0 {
        lemma_holds(
            base.entries,
            run.entries,
            "./conffiles"@,
            0o644,
            encode_utf8(conffiles_text(p.conf_files.deep_view())),
        );
    }
    if p.maintainer_scripts_rel_path is Some {
        let made = unit_scripts_made(files.units@)->Ok_0;
        assert forall|i: int|
            #![trigger script_names()[i]]
            0 <= i < 6 && script_data(made, files.scripts@, i) is Some implies holds(
            run.entries,
            script_names()[i],
            script_permissions(i),
            script_data(made, files.scripts@, i)->0,
        ) by {
            lemma_holds(
                scripts.entries,
                run.entries,
                script_names()[i],
                script_permissions(i),
                script_data(made, files.scripts@, i)->0,
            );
        }
    }
    assert forall|j: int| 0 <= j < run.entries.len() && (#[trigger] run.entries[j]).kind is File implies {
        ||| run.entries[j].path == "./control"@
        ||| run.entries[j].path == "./conffiles"@ && p.conf_files@.len() > 0
        ||| run.entries[j].path == "./triggers"@ && p.triggers_file_rel_path is Some
        ||| p.maintainer_scripts_rel_path is Some && script_names().contains(run.entries[j].path)
    } by {
        if j < base.entries.len() {
            assert(base.entries[j] == run.entries[j]);
        } else if j < scripts.entries.len() {
            assert(scripts.entries[j] == run.entries[j]);
        }
    }
}

/// It is made if everything that it needs can be read, and only then.
pub proof fn law_control_archive_is_made(
    config: BuildEnvironment,
    p: PackageConfig,
    files: ControlFiles,
    before: Seq<crate::listener::MessageView>,
)
    requires
        files.scripts@.len() == 6,
        p.extended_description is Absent || p.extended_description is Text || files.description
            is Text,
        p.triggers_file_rel_path is Some ==> files.triggers.content() is Some,
        p.maintainer_scripts_rel_path is Some ==> unit_scripts_made(files.units@) is Ok && forall|
            i: int,
        |
            0 <= i < 6 ==> (#[trigger] files.scripts@[i]) !is Unreadable,
    ensures
        control_run(config, p, files, before).error is None,
{
    reveal(control_run);
    let b = Built { entries: Seq::empty(), messages: before, error: None };
    let extended = p.long_description(config, files.description);
    assert(extended is Ok);
    let control = control_text(
        p,
        installed_size(p.assets.resolved.deep_view(), files.sizes@),
        extended->Ok_0,
    );
    let base = base_added(b, p, control);
    assert(base.error is None);
    if p.maintainer_scripts_rel_path is Some {
        let dir = path_join(config.package_manifest_dir@, p.maintainer_scripts_rel_path->0@);
        lemma_no_script_error(base, dir, files.scripts@, unit_scripts_made(files.units@)->Ok_0, 6);
    }
    let scripts = scripts_added(base, config, p, files.scripts@, files.units@);
    assert(scripts.error is None);
    assert(triggers_added(scripts, config, p, files.triggers).error is None);
}

proof fn lemma_no_script_error(
    b: Built,
    dir: Seq<char>,
    scripts: Seq<ScriptFile>,
    made: Seq<Option<Seq<char>>>,
    n: int,
)
    requires
        b.error is None,
        0 <= n <= scripts.len(),
        forall|i: int| 0 <= i < scripts.len() ==> (#[trigger] scripts[i]) !is Unreadable,
    ensures
        with_scripts(b, dir, scripts, made, n).error is None,
    decreases n,
{
    if n > 0 {
        lemma_no_script_error(b, dir, scripts, made, n - 1);
        assert(scripts[n - 1] !is Unreadable);
    }
}

proof fn lemma_run_parts(
    b: Built,
    config: BuildEnvironment,
    p: PackageConfig,
    files: ControlFiles,
    control: Seq<char>,
)
    requires
        b.error is None,
        control_archive(b, config, p, files).error is None,
        p.long_description(config, files.description) is Ok,
        control == control_text(
            p,
            installed_size(p.assets.resolved.deep_view(), files.sizes@),
            p.long_description(config, files.description)->Ok_0,
        ),
    ensures
        ({
            let scripts = scripts_added(
                base_added(b, p, control),
                config,
                p,
                files.scripts@,
                files.units@,
            );
            &&& base_added(b, p, control).error is None
            &&& scripts.error is None
            &&& control_archive(b, config, p, files) == triggers_added(
                scripts,
                config,
                p,
                files.triggers,
            )
        }),
{
}

proof fn lemma_base(b: Built, p: PackageConfig, control: Seq<char>)
    requires
        b.entries.len() == 0,
    ensures
        holds(base_added(b, p, control).entries, "./control"@, 0o644, encode_utf8(control)),
        p.conf_files@.len() > 0 ==> holds(
            base_added(b, p, control).entries,
            "./conffiles"@,
            0o644,
            encode_utf8(conffiles_text(p.conf_files.deep_view())),
        ),
        forall|j: int|
            0 <= j < base_added(b, p, control).entries.len() && (#[trigger] base_added(
                b,
                p,
                control,
            ).entries[j]).kind is File ==> base_added(b, p, control).entries[j].path == "./control"@
                || (base_added(b, p, control).entries[j].path == "./conffiles"@
                && p.conf_files@.len() > 0),
{
    let data = encode_utf8(control);
    let conf = encode_utf8(conffiles_text(p.conf_files.deep_view()));
    let first = with_file(b.entries, "./control"@, data, 0o644);
    lemma_with_file(b.entries, "./control"@, data, 0o644);
    if p.conf_files@.len() > 0 {
        let r = base_added(b, p, control).entries;
        assert(r == with_file(first, "./conffiles"@, conf, 0o644));
        lemma_with_file(first, "./conffiles"@, conf, 0o644);
        lemma_holds(first, r, "./control"@, 0o644, data);
        assert forall|j: int| 0 <= j < r.len() && (#[trigger] r[j]).kind is File implies r[j].path
            == "./control"@ || r[j].path == "./conffiles"@ by {
            if j < first.len() {
                assert(first[j] == r[j]);
            }
        }
    }
}

proof fn lemma_script_part(b: Built, config: BuildEnvironment, p: PackageConfig, files: ControlFiles)
    requires
        b.error is None,
        scripts_added(b, config, p, files.scripts@, files.units@).error is None,
    ensures
        ({
            let r = scripts_added(b, config, p, files.scripts@, files.units@).entries;
            &&& b.entries.is_prefix_of(r)
            &&& p.maintainer_scripts_rel_path is Some ==> {
                let made = unit_scripts_made(files.units@);
                &&& made is Ok
                &&& forall|i: int|
                    #![trigger script_names()[i]]
                    0 <= i < 6 && script_data(made->Ok_0, files.scripts@, i) is Some ==> holds(
                        r,
                        script_names()[i],
                        script_permissions(i),
                        script_data(made->Ok_0, files.scripts@, i)->0,
                    )
            }
            &&& forall|j: int|
                b.entries.len() <= j < r.len() && (#[trigger] r[j]).kind is File
                    ==> p.maintainer_scripts_rel_path is Some && script_names().contains(r[j].path)
        }),
{
    let r = scripts_added(b, config, p, files.scripts@, files.units@).entries;
    if p.maintainer_scripts_rel_path is Some {
        let made = unit_scripts_made(files.units@);
        assert(made is Ok);
        let dir = path_join(config.package_manifest_dir@, p.maintainer_scripts_rel_path->0@);
        lemma_scripts(b, dir, files.scripts@, made->Ok_0, 6);
        assert forall|j: int|
            b.entries.len() <= j < r.len() && (#[trigger] r[j]).kind is File implies script_names().contains(
            r[j].path,
        ) by {
            let i = choose|i: int|
                0 <= i < 6 && script_data(made->Ok_0, files.scripts@, i) is Some && r[j].path
                    == #[trigger] script_names()[i];
            assert(script_names()[i] == r[j].path);
        }
    } else {
        assert(b.entries =~= r.take(b.entries.len() as int));
    }
}

proof fn lemma_trigger_part(b: Built, config: BuildEnvironment, p: PackageConfig, read: ReadResult)
    requires
        b.error is None,
        triggers_added(b, config, p, read).error is None,
    ensures
        ({
            let r = triggers_added(b, config, p, read).entries;
            &&& b.entries.is_prefix_of(r)
            &&& p.triggers_file_rel_path is Some ==> read.content() is Some && holds(
                r,
                "./triggers"@,
                0o644,
                read.content()->0,
            )
            &&& forall|j: int|
                b.entries.len() <= j < r.len() && (#[trigger] r[j]).kind is File
                    ==> p.triggers_file_rel_path is Some && r[j].path == "./triggers"@
        }),
{
    let r = triggers_added(b, config, p, read).entries;
    if p.triggers_file_rel_path is Some {
        assert(read.content() is Some);
        lemma_with_file(b.entries, "./triggers"@, read.content()->0, 0o644);
    } else {
        assert(b.entries =~= r.take(b.entries.len() as int));
    }
}

// ---------------------------------------------------------------------------
// Files that have to be compressed
// ---------------------------------------------------------------------------
/// Manual pages, the news and the changelog of a package, and documents for `info` are compressed,
/// unless they already are; nothing outside `usr/share` is.
pub proof fn law_what_is_compressed(rest: Seq<char>, path: Seq<char>)
    ensures
        needs_compression("usr/share/man/"@ + rest) <==> !has_suffix("usr/share/man/"@ + rest, ".gz"@),
        needs_compression("usr/share/doc/"@ + rest + "/changelog"@),
        needs_compression("usr/share/doc/"@ + rest + "/NEWS"@),
        needs_compression("usr/share/info/"@ + rest + ".info"@),
        !needs_compression(path + ".gz"@),
        !has_prefix(path, "usr/share/"@) ==> !needs_compression(path),
        has_prefix(path, "usr/share/doc/"@) && needs_compression(path) ==> has_suffix(
            path,
            "/changelog"@,
        ) || has_suffix(path, "/NEWS"@),
        needs_compression(path) ==> has_prefix(path, "usr/share/man/"@) || has_prefix(
            path,
            "usr/share/doc/"@,
        ) || has_prefix(path, "usr/share/info/"@),
        has_prefix(path, "usr/share/info/"@) && needs_compression(path) ==> has_suffix(
            path,
            ".info"@,
        ),
{
    reveal_strlit("usr/share/");
    reveal_strlit("usr/share/man/");
    reveal_strlit("usr/share/doc/");
    reveal_strlit("usr/share/info/");
    reveal_strlit("/changelog");
    reveal_strlit("/NEWS");
    reveal_strlit(".info");
    reveal_strlit(".gz");
    let gz = ".gz"@;
    let man = "usr/share/man/"@ + rest;
    assert(man.take(14) =~= "usr/share/man/"@);
    let log = "usr/share/doc/"@ + rest + "/changelog"@;
    assert(log.take(14) =~= "usr/share/doc/"@);
    assert(log.skip(log.len() - 10) =~= "/changelog"@);
    assert(!has_suffix(log, gz)) by {
        assert(log.skip(log.len() - 3)[0] == 'l');
    }
    let news = "usr/share/doc/"@ + rest + "/NEWS"@;
    assert(news.take(14) =~= "usr/share/doc/"@);
    assert(news.skip(news.len() - 5) =~= "/NEWS"@);
    assert(!has_suffix(news, gz)) by {
        assert(news.skip(news.len() - 3)[0] == 'E');
    }
    let info = "usr/share/info/"@ + rest + ".info"@;
    assert(info.take(15) =~= "usr/share/info/"@);
    assert(info.skip(info.len() - 5) =~= ".info"@);
    assert(!has_suffix(info, gz)) by {
        assert(info.skip(info.len() - 3)[0] == 'n');
    }
    let done = path + gz;
    assert(done.skip(done.len() - 3) =~= gz);
    assert("usr/share/man/"@.take(10) =~= "usr/share/"@);
    assert("usr/share/doc/"@.take(10) =~= "usr/share/"@);
    assert("usr/share/info/"@.take(10) =~= "usr/share/"@);
    if has_prefix(path, "usr/share/man/"@) {
        assert(path.take(10) =~= path.take(14).take(10));
        assert(path[10] == path.take(14)[10]);
    }
    if has_prefix(path, "usr/share/doc/"@) {
        assert(path.take(10) =~= path.take(14).take(10));
        assert(path[10] == path.take(14)[10]);
    }
    if has_prefix(path, "usr/share/info/"@) {
        assert(path.take(10) =~= path.take(15).take(10));
        assert(path[10] == path.take(15)[10]);
    }
}

/// Exactly the files that have to be compressed are, each once. In place, what Cargo builds is left as
/// it is.
pub proof fn law_compressed_places(assets: Seq<AssetView>, in_place: bool, n: int)
    requires
        0 <= n <= assets.len(),
    ensures
        forall|i: int|
            0 <= i < n ==> (#[trigger] chosen_places(assets, in_place, n).contains(i)
                <==> path_starts_with(assets[i].c.target_path, "usr"@) && needs_compression(
                assets[i].c.target_path,
            ) && !(in_place && assets[i].c.is_built != crate::assets::IsBuilt::No)),
        forall|j: int|
            0 <= j < chosen_places(assets, in_place, n).len() ==> 0 <= #[trigger] chosen_places(
                assets,
                in_place,
                n,
            )[j] < n,
        forall|j: int, k: int|
            0 <= j < k < chosen_places(assets, in_place, n).len() ==> #[trigger] chosen_places(
                assets,
                in_place,
                n,
            )[j] < #[trigger] chosen_places(assets, in_place, n)[k],
    decreases n,
{
    if n > 0 {
        law_compressed_places(assets, in_place, n - 1);
        let before = chosen_places(assets, in_place, n - 1);
        let r = chosen_places(assets, in_place, n);
        assert forall|i: int| 0 <= i < n implies (#[trigger] r.contains(i) <==> path_starts_with(
            assets[i].c.target_path,
            "usr"@,
        ) && needs_compression(assets[i].c.target_path) && !(in_place && assets[i].c.is_built
            != crate::assets::IsBuilt::No)) by {
            if i < n - 1 {
                if before.contains(i) {
                    let k = choose|k: int| 0 <= k < before.len() && before[k] == i;
                    assert(r[k] == i);
                }
                if r.contains(i) {
                    let k = choose|k: int| 0 <= k < r.len() && r[k] == i;
                    assert(before[k] == i);
                }
            } else {
                if is_chosen(assets[i], in_place) {
                    assert(r[r.len() - 1] == i);
                } else if r.contains(i) {
                    let k = choose|k: int| 0 <= k < r.len() && r[k] == i;
                    assert(before[k] < n - 1);
                }
            }
        }
        assert forall|j: int, k: int| 0 <= j < k < r.len() implies #[trigger] r[j] < #[trigger] r[k] by {
            assert(before[j] == r[j]);
            if k < before.len() {
                assert(before[k] == r[k]);
            }
        }
    }
}

/// A compressed file has the name of the file and `.gz` behind it, in the same directory, and the same
/// permissions.
pub proof fn law_compressed_file(a: AssetView, content: Seq<u8>, in_place: bool)
    requires
        file_name(a.c.target_path) is Some,
    ensures
        gz_asset(a, content, in_place).c.chmod == a.c.chmod,
        gz_asset(a, content, in_place).source == crate::assets::SourceView::Data(
            gz_stream(9, seq![Some(content)]),
        ),
        components(gz_path(a.c.target_path, true)) == components(a.c.target_path).drop_last().push(
            Comp::Normal(file_name(a.c.target_path)->0 + ".gz"@),
        ),
        gz_path(a.c.target_path, false) == a.c.target_path + ".gz"@,
{
    reveal_strlit(".gz");
    let p = a.c.target_path;
    let name = file_name(p)->0;
    law_file_name_component(p);
    lemma_component_names(p);
    assert(components(p)[components(p).len() - 1] == Comp::Normal(name));
    let gz = name + ".gz"@;
    assert(is_name(gz)) by {
        assert(gz.len() >= 3);
        assert forall|k: int| 0 <= k < gz.len() implies gz[k] != '/' by {
            if k < name.len() {
                assert(name.contains(name[k]));
            }
        }
    }
    law_with_file_name(p, gz);
}

// ---------------------------------------------------------------------------
// Where a compressor can start anew
// ---------------------------------------------------------------------------
/// Without `rsyncable` there is no place at which the compressor starts anew.
pub proof fn law_no_points(
    dest: Seq<u8>,
    time: u64,
    assets: Seq<AssetView>,
    disk: Seq<OnDisk>,
    n: int,
)
    ensures
        archive_first(dest, time, false, assets, disk, n) matches Some(p) ==> p.points.len() == 0,
    decreases n,
{
    if n > 0 {
        law_no_points(dest, time, assets, disk, n - 1);
    }
}

/// With `rsyncable` the compressor starts anew before a file if what is built changes to what is not,
/// or back, or if more than a million bytes came since the last time. That place is where the archive
/// ended until then. Links change nothing.
pub proof fn law_points(p: Progress, dest: Seq<u8>, time: u64, a: AssetView, d: OnDisk)
    requires
        asset_entry(a, d) is Some,
    ensures
        ({
            let e = asset_entry(a, d)->0;
            let r = archive_one(p, dest, time, true, a, d)->0;
            let anew = p.prev_is_built != (a.c.is_built != crate::assets::IsBuilt::No) || p.added
                > 1_000_000;
            &&& archive_one(p, dest, time, true, a, d) is Some
            &&& e.kind is Symlink ==> r.points == p.points && r.added == p.added && r.prev_is_built
                == p.prev_is_built
            &&& e.kind !is Symlink ==> {
                &&& r.prev_is_built == (a.c.is_built != crate::assets::IsBuilt::No)
                &&& anew ==> r.points == p.points.push(
                    (dest.len() + entries_bytes(p.entries, time).len()) as usize,
                ) && r.added == e.data().len()
                &&& !anew ==> r.points == p.points && r.added == p.added + e.data().len()
            }
        }),
{
}

/// What goes into the compressor is the archive, all of it, in its order; at each of the places it
/// starts anew.
pub proof fn law_steps(data: Seq<u8>, points: Seq<usize>, i: int)
    requires
        are_points(points, data.len()),
    ensures
        steps_data(steps_at(data, points)) == data,
        steps_at(data, points).len() == 2 * points.len() + 1,
        0 <= i < points.len() ==> steps_at(data, points)[2 * i + 1] is None,
        0 <= i <= points.len() ==> steps_at(data, points)[2 * i] == Some(
            data.subrange(
                if i == 0 {
                    0
                } else {
                    points[i - 1] as int
                },
                if i == points.len() {
                    data.len() as int
                } else {
                    points[i] as int
                },
            ),
        ),
    decreases points.len(),
{
    crate::compress::lemma_steps_data(data, points);
    if points.len() == 0 {
        assert(data.subrange(0, data.len() as int) =~= data);
    } else {
        let n = points.len() - 1;
        let last = points.last() as int;
        let t = points.drop_last();
        let before = data.take(last);
        assert(points[n] <= data.len());
        assert forall|k: int| 0 <= k < t.len() implies #[trigger] t[k] <= before.len() by {
            assert(points[k] <= points[n]);
        }
        assert(are_points(t, before.len()));
        law_steps(before, t, i);
        let steps = steps_at(data, points);
        let old = steps_at(before, t);
        if 0 <= i <= n {
            assert(steps[2 * i] == old[2 * i]);
            if i < n {
                assert(steps[2 * i + 1] == old[2 * i + 1]);
                assert(points[i] <= points[n]);
            }
            let from = if i == 0 {
                0
            } else {
                points[i - 1] as int
            };
            let to = points[i] as int;
            assert(before.subrange(from, to) =~= data.subrange(from, to));
        } else if i == points.len() {
            assert(data.skip(last) =~= data.subrange(last, data.len() as int));
        }
    }
}

/// A compressed archive is of the format that was wanted, and gives back the archive.
pub proof fn law_compressed(c: Compressed, config: CompressConfig, data: Seq<u8>, points: Seq<usize>)
    requires
        is_compressed(c, config, data, points),
    ensures
        c.spec_type() == config.compress_type,
        decoded(c) == Some(data),
        c.spec_type() == CompressType::Gzip ==> c.spec_data() == gz_stream(
            if config.fast {
                1
            } else {
                9
            },
            steps_at(data, points),
        ),
{
}

/// The size that is shown is not below the real one, and the next smaller one is.
pub proof fn law_shown_size(len: nat) -> (shown: nat)
    ensures
        len < 1000 ==> size_text(len) == decimal(len) + "B"@,
        1000 <= len < 1_000_000 ==> size_text(len) == decimal(shown) + "KB"@ && shown * 1000 >= len
            && (shown - 1) * 1000 < len,
        1_000_000 <= len ==> size_text(len) == decimal(shown) + "MB"@ && shown * 1_000_000 >= len && (
        shown - 1) * 1_000_000 < len,
{
    if len < 1_000_000 {
        crate::deb::archiving::div_up(len, 1000)
    } else {
        crate::deb::archiving::div_up(len, 1_000_000)
    }
}

} // verus!
