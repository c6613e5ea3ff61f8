//! The archive of control files.
use crate::assets::ReadResult;
use crate::config::control::{control_text, installed_size, size_fits, TextResult};
use crate::config::generated::unit_list;
use crate::config::resolve::conffiles_text;
use crate::config::{BuildEnvironment, PackageConfig};
use crate::deb::tarball::{directories, directory_entries, entries_bytes, missing_parents, Entry, EntryKind, Tarball};
use crate::dh::dh_lib::{apply_all, law_made_scripts_hold_no_token, pieces_fit, unit_scripts_made, UnitScripts, TOKEN};
use crate::error::{CDResult, CargoDebError, Cause, ErrorView};
use crate::listener::{say, Message, MessageView};
use crate::paths::{join, path_join};
use crate::text::{cat3, contains_text};
use vstd::prelude::*;
use vstd::utf8::encode_utf8;

verus! {

// ---------------------------------------------------------------------------
// What the archive holds
// ---------------------------------------------------------------------------
/// The entries with a file added, behind the directories above it that are not there yet.
pub open spec fn with_file(entries: Seq<Entry>, path: Seq<char>, data: Seq<u8>, mode: u32) -> Seq<Entry> {
    entries + directory_entries(missing_parents(path, directories(entries))).push(
        Entry { path, mode, kind: EntryKind::File(data) },
    )
}

/// What has become of the archive: its entries, what was said, and the error if there was one.
pub struct Built {
    pub entries: Seq<Entry>,
    pub messages: Seq<MessageView>,
    pub error: Option<ErrorView>,
}

/// A file is added, and what it comes from is said.
pub open spec fn logged_file(
    b: Built,
    name: Seq<char>,
    data: Seq<u8>,
    mode: u32,
    source: Seq<char>,
) -> Built {
    Built {
        entries: with_file(b.entries, name, data, mode),
        messages: b.messages.push(MessageView::Info(source + " -> "@ + name)),
        error: b.error,
    }
}

/// A maintainer script in the directory of scripts.
#[derive(Debug)]
pub enum ScriptFile {
    OnDisk(Vec<u8>),
    Missing,
    Unreadable(Cause),
}

/// The names of maintainer scripts, in their order.
pub open spec fn script_name(i: int) -> Seq<char> {
    if i == 0 {
        "config"@
    } else if i == 1 {
        "preinst"@
    } else if i == 2 {
        "postinst"@
    } else if i == 3 {
        "prerm"@
    } else if i == 4 {
        "postrm"@
    } else {
        "templates"@
    }
}

/// The config, postinst, postrm, preinst, and prerm
/// control files should use mode 0755; all other control files should use 0644.
/// See Debian Policy Manual section 10.9
/// and lintian tag control-file-has-bad-permissions
pub open spec fn script_mode(i: int) -> u32 {
    if i < 5 {
        0o755
    } else {
        0o644
    }
}

/// The script that is made for units, if there is one: preinst, postinst, prerm or postrm.
pub open spec fn made_script(made: Seq<Option<Seq<char>>>, i: int) -> Option<Seq<char>> {
    if 1 <= i <= 4 {
        made[i - 1]
    } else {
        None
    }
}

/// The archive with the first `n` maintainer scripts, up to one that cannot be read. A script that is
/// made for units is preferred to the one on disk.
pub open spec fn with_scripts(
    b: Built,
    dir: Seq<char>,
    scripts: Seq<ScriptFile>,
    made: Seq<Option<Seq<char>>>,
    n: int,
) -> Built
    decreases n,
{
    if n <= 0 {
        b
    } else {
        let before = with_scripts(b, dir, scripts, made, n - 1);
        let name = script_name(n - 1);
        if before.error is Some {
            before
        } else {
            match (made_script(made, n - 1), scripts[n - 1]) {
                (Some(text), _) => logged_file(
                    before,
                    name,
                    encode_utf8(text),
                    script_mode(n - 1),
                    "systemd_units"@,
                ),
                (None, ScriptFile::OnDisk(data)) => logged_file(
                    before,
                    name,
                    data@,
                    script_mode(n - 1),
                    path_join(dir, name),
                ),
                (None, ScriptFile::Missing) => before,
                (None, ScriptFile::Unreadable(e)) => Built {
                    error: Some(ErrorView::Io(e.deep_view())),
                    ..before
                },
            }
        }
    }
}

/// The archive with the maintainer scripts, if there is a directory of them. Pieces for units go into
/// them before.
pub open spec fn scripts_added(
    b: Built,
    config: BuildEnvironment,
    p: PackageConfig,
    scripts: Seq<ScriptFile>,
    units: Seq<UnitScripts>,
) -> Built {
    match p.maintainer_scripts_rel_path {
        Some(dir) => match unit_scripts_made(units) {
            Ok(made) => with_scripts(
                b,
                path_join(config.package_manifest_dir@, dir@),
                scripts,
                made,
                6,
            ),
            Err(e) => Built { error: Some(e), ..b },
        },
        None => b,
    }
}

/// What files say that go into the archive of control files.
#[derive(Debug)]
pub struct ControlFiles {
    /// The sizes of the files of the package on disk.
    pub sizes: Vec<Option<u64>>,
    /// The file of the long description.
    pub description: TextResult,
    /// The maintainer scripts, in the order of their names.
    pub scripts: Vec<ScriptFile>,
    /// The scripts that pieces for units go into, for each entry of the manifest on units.
    pub units: Vec<UnitScripts>,
    /// The file of triggers.
    pub triggers: ReadResult,
}

/// The archive with the control file and the list of configuration files.
pub open spec fn base_added(b: Built, p: PackageConfig, control: Seq<char>) -> Built {
    let first = Built {
        entries: with_file(b.entries, "./control"@, encode_utf8(control), 0o644),
        ..b
    };
    if p.conf_files@.len() > 0 {
        logged_file(
            first,
            "./conffiles"@,
            encode_utf8(conffiles_text(p.conf_files.deep_view())),
            0o644,
            "-"@,
        )
    } else {
        first
    }
}

/// The archive with the file of triggers, if there is one.
pub open spec fn triggers_added(
    b: Built,
    config: BuildEnvironment,
    p: PackageConfig,
    read: ReadResult,
) -> Built {
    match p.triggers_file_rel_path {
        Some(rel) => {
            let path = path_join(config.package_manifest_dir@, rel@);
            match read.content() {
                Some(data) => logged_file(b, "./triggers"@, data, 0o644, path),
                None => Built {
                    error: Some(ErrorView::IoFile("triggers file"@, read.error(), path)),
                    ..b
                },
            }
        },
        None => b,
    }
}

/// The archive of control files of a package.
pub open spec fn control_archive(
    b: Built,
    config: BuildEnvironment,
    p: PackageConfig,
    files: ControlFiles,
) -> Built {
    match p.long_description(config, files.description) {
        Err(e) => Built { error: Some(e), ..b },
        Ok(extended) => {
            let control = control_text(
                p,
                installed_size(p.assets.resolved.deep_view(), files.sizes@),
                extended,
            );
            let scripts = scripts_added(
                base_added(b, p, control),
                config,
                p,
                files.scripts@,
                files.units@,
            );
            if scripts.error is Some {
                scripts
            } else {
                triggers_added(scripts, config, p, files.triggers)
            }
        },
    }
}

// ---------------------------------------------------------------------------
// Building it
// ---------------------------------------------------------------------------
/// An archive of control files that is being built.
pub struct ControlArchiveBuilder {
    archive: Tarball,
}

impl ControlArchiveBuilder {
    pub closed spec fn wf(self) -> bool {
        self.archive.wf()
    }

    /// The entries of the archive.
    pub closed spec fn entries(self) -> Seq<Entry> {
        self.archive.entries()
    }

    /// What the destination held before.
    pub closed spec fn dest(self) -> Seq<u8> {
        self.archive.dest()
    }

    /// The time that every entry carries.
    pub closed spec fn time(self) -> u64 {
        self.archive.time()
    }

    /// Nothing but the entries has changed.
    pub open spec fn same_destination(self, before: Self) -> bool {
        self.wf() && self.dest() == before.dest() && self.time() == before.time()
    }

    pub fn new(dest: Vec<u8>, time: u64) -> (r: Self)
        ensures
            r.wf(),
            r.entries() == Seq::<Entry>::empty(),
            r.dest() == dest@,
            r.time() == time,
    {
        ControlArchiveBuilder { archive: Tarball::new(dest, time) }
    }

    /// Generates an uncompressed tar archive with `control`, and others
    pub fn generate_archive(
        &mut self,
        config: &BuildEnvironment,
        package_deb: &PackageConfig,
        files: &ControlFiles,
        log: &mut Vec<Message>,
    ) -> (r: CDResult<()>)
        requires
            old(self).wf(),
            files.sizes.len() == package_deb.assets.resolved.len(),
            size_fits(package_deb.assets.resolved.deep_view(), files.sizes@),
            files.scripts.len() == 6,
            files.units.len() == unit_list(*package_deb).len(),
        ensures
            final(self).same_destination(*old(self)),
            ({
                let b = control_archive(
                    Built {
                        entries: old(self).entries(),
                        messages: old(log).deep_view(),
                        error: None,
                    },
                    *config,
                    *package_deb,
                    *files,
                );
                &&& final(self).entries() == b.entries
                &&& final(log).deep_view() == b.messages
                &&& r is Ok <==> b.error is None
                &&& r is Err ==> b.error == Some(r->Err_0.deep_view())
            }),
    {
        let control = package_deb.generate_control(config, &files.sizes, &files.description)?;
        self.add_control(control.as_str().as_bytes())?;
        if let Some(list) = package_deb.conf_files() {
            self.add_conf_files(list.as_str(), log)?;
        }
        self.generate_scripts(config, package_deb, &files.scripts, &files.units, log)?;
        if let Some(rel_path) = &package_deb.triggers_file_rel_path {
            self.add_triggers_file(config, rel_path.as_str(), &files.triggers, log)?;
        }
        Ok(())
    }

    /// The bytes of the archive.
    pub fn finish(self) -> (r: CDResult<Vec<u8>>)
        requires
            self.wf(),
        ensures
            r is Ok,
            (r->Ok_0)@ == self.dest() + entries_bytes(self.entries(), self.time())
                + crate::deb::tar_blocks::zeros(1024),
    {
        self.archive.into_inner()
    }

    /// Append Debian maintainer script files (control, preinst, postinst, prerm,
    /// postrm and templates) present in the `maintainer_scripts` path to the
    /// archive, if `maintainer_scripts` is configured.
    ///
    /// Additionally, when `systemd_units` is configured, shell script fragments
    /// "for enabling, disabling, starting, stopping and restarting systemd unit
    /// files" (quoting `man 1 dh_installsystemd`) will replace the `#DEBHELPER#`
    /// token in the provided maintainer scripts. `units` are those fragments, with the scripts that
    /// they go into, for each entry of `systemd_units`.
    ///
    /// If a shell fragment cannot be inserted because the target script is missing
    /// then the entire script will be generated and appended to the archive.
    ///
    /// # Requirements
    ///
    /// When `systemd_units` is configured, user supplied `maintainer_scripts` must
    /// contain a `#DEBHELPER#` token at the point where shell script fragments
    /// should be inserted.
    pub fn generate_scripts(
        &mut self,
        config: &BuildEnvironment,
        package_deb: &PackageConfig,
        scripts: &Vec<ScriptFile>,
        units: &Vec<UnitScripts>,
        log: &mut Vec<Message>,
    ) -> (r: CDResult<()>)
        requires
            old(self).wf(),
            scripts.len() == 6,
            units.len() == unit_list(*package_deb).len(),
        ensures
            final(self).same_destination(*old(self)),
            ({
                let b = scripts_added(
                    Built {
                        entries: old(self).entries(),
                        messages: old(log).deep_view(),
                        error: None,
                    },
                    *config,
                    *package_deb,
                    scripts@,
                    units@,
                );
                &&& final(self).entries() == b.entries
                &&& final(log).deep_view() == b.messages
                &&& r is Ok <==> b.error is None
                &&& r is Err ==> b.error == Some(r->Err_0.deep_view())
            }),
    {
        let rel = match &package_deb.maintainer_scripts_rel_path {
            Some(rel) => rel,
            None => {
                return Ok(());
            },
        };
        let dir = config.path_in_package(rel.as_str());
        let made = apply_all(units)?;
        let ghost texts = made.deep_view();
        let ghost b0 = Built {
            entries: self.entries(),
            messages: log.deep_view(),
            error: None,
        };
        let mut i: usize = 0;
        while i < 6
            invariant
                i <= 6,
                scripts.len() == 6,
                made.len() == 4,
                texts == made.deep_view(),
                unit_scripts_made(units@) == Ok::<Seq<Option<Seq<char>>>, ErrorView>(texts),
                self.same_destination(*old(self)),
                b0.error is None,
                b0 == (Built {
                    entries: old(self).entries(),
                    messages: old(log).deep_view(),
                    error: None,
                }),
                package_deb.maintainer_scripts_rel_path is Some,
                dir@ == path_join(
                    config.package_manifest_dir@,
                    package_deb.maintainer_scripts_rel_path->0@,
                ),
                ({
                    let b = with_scripts(b0, dir@, scripts@, texts, i as int);
                    b.error is None && self.entries() == b.entries && log.deep_view() == b.messages
                }),
            decreases 6 - i,
        {
            let name = match i {
                0 => "config",
                1 => "preinst",
                2 => "postinst",
                3 => "prerm",
                4 => "postrm",
                _ => "templates",
            };
            let permissions: u32 = if i < 5 {
                0o755
            } else {
                0o644
            };
            if 1 <= i && i <= 4 {
                assert(texts[i - 1] == made[i - 1].deep_view());
                if let Some(text) = &made[i - 1] {
                    self.add_file_with_log(
                        name,
                        text.as_str().as_bytes(),
                        permissions,
                        Some("systemd_units"),
                        log,
                    )?;
                    i += 1;
                    continue ;
                }
            }
            match &scripts[i] {
                ScriptFile::OnDisk(data) => {
                    let path = join(dir.as_str(), name);
                    self.add_file_with_log(
                        name,
                        data.as_slice(),
                        permissions,
                        Some(path.as_str()),
                        log,
                    )?;
                },
                ScriptFile::Missing => {},
                ScriptFile::Unreadable(e) => {
                    proof {
                        lemma_script_error(b0, dir@, scripts@, texts, i + 1);
                    }
                    return Err(CargoDebError::Io(e.clone()));
                },
            }
            i += 1;
        }
        Ok(())
    }

    fn add_file_with_log(
        &mut self,
        name: &str,
        contents: &[u8],
        permissions: u32,
        source_path: Option<&str>,
        log: &mut Vec<Message>,
    ) -> (r: CDResult<()>)
        requires
            old(self).wf(),
        ensures
            r is Ok,
            final(self).same_destination(*old(self)),
            final(self).entries() == with_file(
                old(self).entries(),
                name@,
                contents@,
                permissions,
            ),
            final(log).deep_view() == old(log).deep_view().push(
                MessageView::Info(
                    (match source_path {
                        Some(s) => s@,
                        None => "-"@,
                    }) + " -> "@ + name@,
                ),
            ),
    {
        let source = match source_path {
            Some(s) => s,
            None => "-",
        };
        say(log, Message::Info(cat3(source, " -> ", name)));
        self.archive.file(name, contents, permissions)
    }

    // Add the control file to the tar archive.
    fn add_control(&mut self, control: &[u8]) -> (r: CDResult<()>)
        requires
            old(self).wf(),
        ensures
            r is Ok,
            final(self).same_destination(*old(self)),
            final(self).entries() == with_file(old(self).entries(), "./control"@, control@, 0o644),
    {
        self.archive.file("./control", control, 0o644)
    }

    /// If configuration files are required, the conffiles file will be created.
    fn add_conf_files(&mut self, list: &str, log: &mut Vec<Message>) -> (r: CDResult<()>)
        requires
            old(self).wf(),
        ensures
            r is Ok,
            final(self).same_destination(*old(self)),
            final(self).entries() == with_file(
                old(self).entries(),
                "./conffiles"@,
                encode_utf8(list@),
                0o644,
            ),
            final(log).deep_view() == old(log).deep_view().push(
                MessageView::Info("-"@ + " -> "@ + "./conffiles"@),
            ),
    {
        self.add_file_with_log("./conffiles", list.as_bytes(), 0o644, None, log)
    }

    fn add_triggers_file(
        &mut self,
        config: &BuildEnvironment,
        rel_path: &str,
        read: &ReadResult,
        log: &mut Vec<Message>,
    ) -> (r: CDResult<()>)
        requires
            old(self).wf(),
        ensures
            final(self).same_destination(*old(self)),
            ({
                let path = path_join(config.package_manifest_dir@, rel_path@);
                match read.content() {
                    Some(data) => {
                        &&& r is Ok
                        &&& final(self).entries() == with_file(
                            old(self).entries(),
                            "./triggers"@,
                            data,
                            0o644,
                        )
                        &&& final(log).deep_view() == old(log).deep_view().push(
                            MessageView::Info(path + " -> "@ + "./triggers"@),
                        )
                    },
                    None => {
                        &&& r is Err && r->Err_0.deep_view() == ErrorView::IoFile(
                            "triggers file"@,
                            read.error(),
                            path,
                        )
                        &&& final(self).entries() == old(self).entries()
                        &&& *final(log) == *old(log)
                    },
                }
            }),
    {
        let path = config.path_in_package(rel_path);
        match read {
            ReadResult::Content(data) => self.add_file_with_log(
                "./triggers",
                data.as_slice(),
                0o644,
                Some(path.as_str()),
                log,
            ),
            ReadResult::Failed(e) => Err(CargoDebError::IoFile("triggers file", e.clone(), path)),
        }
    }
}

proof fn lemma_script_error(
    b: Built,
    dir: Seq<char>,
    scripts: Seq<ScriptFile>,
    made: Seq<Option<Seq<char>>>,
    i: int,
)
    requires
        0 <= i <= 6,
        with_scripts(b, dir, scripts, made, i).error is Some,
    ensures
        with_scripts(b, dir, scripts, made, 6) == with_scripts(b, dir, scripts, made, i),
    decreases 6 - i,
{
    if i < 6 {
        lemma_script_error(b, dir, scripts, made, i + 1);
    }
}

/// A script that pieces go into has no place left for them.
pub open spec fn holds_no_token(e: Entry) -> bool {
    match e.kind {
        EntryKind::File(data) => {
            ||| e.path == "config"@
            ||| e.path == "templates"@
            ||| exists|text: Seq<char>| data == #[trigger] encode_utf8(text) && !contains_text(
                text,
                TOKEN@,
            )
        },
        _ => true,
    }
}

proof fn lemma_scripts_hold_no_token(
    b: Built,
    dir: Seq<char>,
    scripts: Seq<ScriptFile>,
    made: Seq<Option<Seq<char>>>,
    n: int,
)
    requires
        0 <= n <= 6,
        made.len() == 4,
        forall|i: int|
            0 <= i < 4 ==> ((#[trigger] made[i]) matches Some(text) ==> !contains_text(
                text,
                TOKEN@,
            )),
        forall|i: int| 0 <= i < 4 && (#[trigger] made[i]) is None ==> scripts[i + 1] is Missing,
    ensures
        ({
            let r = with_scripts(b, dir, scripts, made, n).entries;
            &&& b.entries.len() <= r.len()
            &&& forall|j: int|
                b.entries.len() <= j < r.len() ==> holds_no_token(#[trigger] r[j])
        }),
    decreases n,
{
    if n > 0 {
        lemma_scripts_hold_no_token(b, dir, scripts, made, n - 1);
        let before = with_scripts(b, dir, scripts, made, n - 1);
        let r = with_scripts(b, dir, scripts, made, n).entries;
        if 2 <= n <= 5 {
            assert(made_script(made, n - 1) == made[n - 2]);
        }
        assert forall|j: int| b.entries.len() <= j < r.len() implies holds_no_token(
            #[trigger] r[j],
        ) by {
            if j < before.entries.len() {
                assert(r[j] == before.entries[j]);
            } else if j == r.len() - 1 {
                if let Some(text) = made_script(made, n - 1) {
                    assert(r[j].kind == EntryKind::File(encode_utf8(text)));
                }
            } else {
                assert(r[j].kind is Directory);
            }
        }
    }
}

/// When units are configured, no preinst, postinst, prerm or postrm in the archive holds the token:
/// pieces have taken its place. What is put into the scripts has to fit, and where a script is
/// neither found nor made, there is none on disk.
pub proof fn law_archived_scripts_hold_no_token(
    b: Built,
    config: BuildEnvironment,
    p: PackageConfig,
    scripts: Seq<ScriptFile>,
    units: Seq<UnitScripts>,
)
    requires
        units.len() > 0,
        forall|i: int| 0 <= i < 4 ==> pieces_fit(#[trigger] units.last().at(i)),
        unit_scripts_made(units) matches Ok(made) ==> forall|i: int|
            0 <= i < 4 && (#[trigger] made[i]) is None ==> scripts[i + 1] is Missing,
    ensures
        ({
            let r = scripts_added(b, config, p, scripts, units).entries;
            &&& b.entries.len() <= r.len()
            &&& forall|j: int|
                b.entries.len() <= j < r.len() ==> holds_no_token(#[trigger] r[j])
        }),
{
    if unit_scripts_made(units) is Ok {
        law_made_scripts_hold_no_token(units);
        if let Some(dir) = p.maintainer_scripts_rel_path {
            lemma_scripts_hold_no_token(
                b,
                path_join(config.package_manifest_dir@, dir@),
                scripts,
                unit_scripts_made(units)->Ok_0,
                6,
            );
        }
    }
}

} // verus!
