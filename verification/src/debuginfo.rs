//! Stripping binaries, and keeping their debug symbols apart.
use crate::arch::{debian_triple, debian_triple_from_rust_triple};
use crate::assets::{debug_target, new_asset, processed_asset, source_path, Asset, AssetCommon, AssetKind, AssetSource, AssetView, IsBuilt, ProcessedFrom, ProcessedView, SourceView};
use crate::config::splitting::built_places;
use crate::config::{BuildEnvironment, DebugSymbols, PackageConfig};
use crate::error::{CDResult, CargoDebError, Cause, CauseView, ErrorView};
use crate::listener::{say, warn, Message, MessageView};
use crate::parse::cargo::{target_command, text_at, CargoConfig};
use crate::parse::manifest::CompressDebugSymbols;
use crate::paths::{file_name, file_name_of, file_stem, file_stem_of, join, parent, parent_of, path_join, paths_equal, replace_file_name, same_path, with_file_name};
use crate::text::{cat, cat3, cat4, decimal, decimal_of, digit, digit_char, has_prefix, starts_with};
use vstd::prelude::*;
use vstd::string::StringExecFns;

verus! {

// ---------------------------------------------------------------------------
// Commands for the target
// ---------------------------------------------------------------------------
/// Whether a path is among those that exist.
pub open spec fn exists_in(existing: Seq<Seq<char>>, path: Seq<char>) -> bool {
    exists|i: int| 0 <= i < existing.len() && same_path(#[trigger] existing[i], path)
}

fn path_exists(existing: &Vec<String>, path: &str) -> (r: bool)
    ensures
        r == exists_in(existing.deep_view(), path@),
{
    let ghost all = existing.deep_view();
    let mut i: usize = 0;
    while i < existing.len()
        invariant
            i <= existing.len(),
            all == existing.deep_view(),
            forall|k: int| 0 <= k < i ==> !same_path(#[trigger] all[k], path@),
        decreases existing.len() - i,
    {
        assert(all[i as int] == existing[i as int]@);
        if paths_equal(existing[i].as_str(), path) {
            assert(same_path(all[i as int], path@));
            return true;
        }
        i += 1;
    }
    false
}

/// The command that stands beside a linker. One whose name begins with the triple has it in front
/// of its name too: it checks whether it's `/usr/bin/triple-ld` or `/custom-toolchain/ld`.
pub open spec fn beside_linker(linker: Seq<char>, command: Seq<char>, triple: Seq<char>) -> Seq<char> {
    if has_prefix(file_name(linker)->0, debian_triple(triple)) {
        with_file_name(linker, debian_triple(triple) + "-"@ + command)
    } else {
        with_file_name(linker, command)
    }
}

pub open spec fn in_usr_bin(command: Seq<char>, triple: Seq<char>) -> Seq<char> {
    "/usr/bin/"@ + debian_triple(triple) + "-"@ + command
}

/// The command for a target: as it is configured, else beside the linker that is configured, else
/// that of the system; none if there is no such file.
pub open spec fn command_for_target(
    config: Option<Map<Seq<Seq<char>>, Seq<char>>>,
    command: Seq<char>,
    triple: Seq<char>,
    existing: Seq<Seq<char>>,
) -> Option<Seq<char>> {
    let explicit = match config {
        Some(m) => target_command(m, command, triple),
        None => None,
    };
    let linker = match config {
        Some(m) => text_at(m, seq!["target"@, triple, "linker"@]),
        None => None,
    };
    let system = if exists_in(existing, in_usr_bin(command, triple)) {
        Some(in_usr_bin(command, triple))
    } else {
        None
    };
    if explicit is Some {
        explicit
    } else {
        match linker {
            Some(l) => if parent(l) is Some {
                if file_name(l) is None {
                    None
                } else if exists_in(existing, beside_linker(l, command, triple)) {
                    Some(beside_linker(l, command, triple))
                } else {
                    system
                }
            } else {
                system
            },
            None => system,
        }
    }
}

pub open spec fn config_texts(c: Option<&CargoConfig>) -> Option<Map<Seq<Seq<char>>, Seq<char>>> {
    match c {
        Some(c) => Some(c.texts()),
        None => None,
    }
}

/// The files that are looked for: beside the linker, and in the system.
pub fn command_candidates(
    cargo_config: Option<&CargoConfig>,
    command_name: &str,
    target_triple: &str,
) -> (r: Vec<String>)
    ensures
        r@.len() > 0,
        r@.last()@ == in_usr_bin(command_name@, target_triple@),
        ({
            let linker = match config_texts(cargo_config) {
                Some(m) => text_at(m, seq!["target"@, target_triple@, "linker"@]),
                None => None,
            };
            if linker is Some && file_name(linker->0) is Some {
                r@.len() == 2 && r@[0]@ == beside_linker(linker->0, command_name@, target_triple@)
            } else {
                r@.len() == 1
            }
        }),
{
    let mut out: Vec<String> = Vec::new();
    let triple = debian_triple_from_rust_triple(target_triple);
    if let Some(c) = cargo_config {
        if let Some(linker) = c.explicit_linker_command(target_triple) {
            if let Some(name) = file_name_of(linker.as_str()) {
                let sibling = sibling_of(linker.as_str(), name.as_str(), triple.as_str(), command_name);
                out.push(sibling);
            }
        }
    }
    let mut system = cat3("/usr/bin/", triple.as_str(), "-");
    system.append(command_name);
    out.push(system);
    out
}

fn sibling_of(linker: &str, name: &str, triple: &str, command_name: &str) -> (r: String)
    ensures
        r@ == if has_prefix(name@, triple@) {
            with_file_name(linker@, triple@ + "-"@ + command_name@)
        } else {
            with_file_name(linker@, command_name@)
        },
{
    if starts_with(name, triple) {
        let n = cat3(triple, "-", command_name);
        replace_file_name(linker, n.as_str())
    } else {
        replace_file_name(linker, command_name)
    }
}

/// The command for the target, given which files exist.
pub fn target_specific_command(
    cargo_config: Option<&CargoConfig>,
    command_name: &str,
    target_triple: &str,
    existing: &Vec<String>,
) -> (r: Option<String>)
    ensures
        r.deep_view() == command_for_target(
            config_texts(cargo_config),
            command_name@,
            target_triple@,
            existing.deep_view(),
        ),
{
    if let Some(c) = cargo_config {
        if let Some(cmd) = c.explicit_target_specific_command(command_name, target_triple) {
            return Some(cmd);
        }
    }
    let debian_target_triple = debian_triple_from_rust_triple(target_triple);
    let linker = match cargo_config {
        Some(c) => c.explicit_linker_command(target_triple),
        None => None,
    };
    if let Some(linker) = &linker {
        if parent_of(linker.as_str()).is_some() {
            let linker_file_name = match file_name_of(linker.as_str()) {
                Some(n) => n,
                None => {
                    return None;
                },
            };
            let strip_path = sibling_of(
                linker.as_str(),
                linker_file_name.as_str(),
                debian_target_triple.as_str(),
                command_name,
            );
            if path_exists(existing, strip_path.as_str()) {
                return Some(strip_path);
            }
        }
    }
    let mut path = cat3("/usr/bin/", debian_target_triple.as_str(), "-");
    path.append(command_name);
    if path_exists(existing, path.as_str()) {
        return Some(path);
    }
    None
}

// ---------------------------------------------------------------------------
// Build ids
// ---------------------------------------------------------------------------
/// The notes in the section of build ids of an ELF file, with the build ids of those that are one;
/// nothing if the file has no such section, or cannot be read as one of ELF.
pub uninterp spec fn elf_build_ids(file: Seq<u8>) -> Option<Seq<Option<Seq<u8>>>>;

pub open spec fn id_views(v: Option<Vec<Option<Vec<u8>>>>) -> Option<Seq<Option<Seq<u8>>>> {
    match v {
        Some(v) => Some(
            v@.map_values(
                |n: Option<Vec<u8>>|
                    match n {
                        Some(b) => Some(b@),
                        None => None,
                    },
            ),
        ),
        None => None,
    }
}

/// `elf::ElfStream` reads a file of ELF: `section_header_by_name` and `section_data_as_notes` find
/// the notes of the section of build ids. What they find depends on the file alone.
#[verifier::external_body]
fn read_build_ids(file: &[u8]) -> (r: Option<Vec<Option<Vec<u8>>>>)
    ensures
        id_views(r) == elf_build_ids(file@),
{
    let file = std::io::Cursor::new(file);
    let mut stream = elf::ElfStream::<elf::endian::AnyEndian, _>::open_stream(file).ok()?;
    let header = *stream.section_header_by_name(".note.gnu.build-id").ok()??;
    let notes = stream.section_data_as_notes(&header).ok()?;
    let ids = notes.map(|note| match note {
        elf::note::Note::GnuBuildId(id) => Some(id.0.to_vec()),
        _ => None,
    });
    Some(ids.collect())
}

/// A byte as two digits in base 16.
pub open spec fn hex_byte(b: u8) -> Seq<char> {
    seq![digit_char(b as int / 16), digit_char(b as int % 16)]
}

pub open spec fn hex(bytes: Seq<u8>) -> Seq<char>
    decreases bytes.len(),
{
    if bytes.len() == 0 {
        Seq::empty()
    } else {
        hex(bytes.drop_last()) + hex_byte(bytes.last())
    }
}

/// The first build id that is not empty.
pub open spec fn first_id(ids: Seq<Option<Seq<u8>>>) -> Option<Seq<u8>>
    decreases ids.len(),
{
    if ids.len() == 0 {
        None
    } else if ids[0] is Some && ids[0]->0.len() > 0 {
        ids[0]
    } else {
        first_id(ids.skip(1))
    }
}

/// The path of the debug symbols of a file with a build id.
pub open spec fn build_id_path(id: Seq<u8>, lib_dir: Seq<char>) -> Seq<char> {
    path_join(
        lib_dir,
        "debug/.build-id/"@ + hex_byte(id[0]) + "/"@ + hex(id.skip(1)) + ".debug"@,
    )
}

fn push_hex(s: &mut String, b: u8)
    ensures
        final(s)@ == old(s)@ + hex_byte(b),
{
    let ghost before = s@;
    s.push(digit(b / 16));
    s.push(digit(b % 16));
    assert(s@ =~= before + hex_byte(b));
}

/// The path of the debug symbols by the first build id that is not empty.
pub fn debug_id_path(ids: &Vec<Option<Vec<u8>>>, lib_dir_base: &str) -> (r: Option<String>)
    ensures
        ({
            let views = id_views(Some(*ids))->0;
            r.deep_view() == match first_id(views) {
                Some(id) => Some(build_id_path(id, lib_dir_base@)),
                None => None,
            }
        }),
{
    let ghost views = id_views(Some(*ids))->0;
    let mut i: usize = 0;
    assert(views.skip(0) =~= views);
    while i < ids.len()
        invariant
            i <= ids.len(),
            views == id_views(Some(*ids))->0,
            first_id(views) == first_id(views.skip(i as int)),
        decreases ids.len() - i,
    {
        proof {
            assert(views.skip(i as int)[0] == views[i as int]);
            assert(views.skip(i as int).skip(1) =~= views.skip(i + 1));
        }
        if let Some(id) = &ids[i] {
            if id.len() > 0 {
                let mut s = "debug/.build-id/".to_owned();
                push_hex(&mut s, id[0]);
                s.append("/");
                let ghost head = s@;
                let ghost rest = id@.skip(1);
                let mut j: usize = 1;
                assert(rest.take(0) =~= Seq::<u8>::empty());
                assert(head + Seq::<char>::empty() =~= head);
                while j < id.len()
                    invariant
                        1 <= j <= id.len(),
                        rest == id@.skip(1),
                        s@ == head + hex(rest.take(j - 1)),
                    decreases id.len() - j,
                {
                    proof {
                        assert(rest.take(j as int).drop_last() =~= rest.take(j - 1));
                        assert(rest.take(j as int).last() == id@[j as int]);
                        assert(head + (hex(rest.take(j - 1)) + hex_byte(id@[j as int])) =~= head
                            + hex(rest.take(j - 1)) + hex_byte(id@[j as int]));
                    }
                    push_hex(&mut s, id[j]);
                    j += 1;
                }
                assert(rest.take(j - 1) =~= rest);
                s.append(".debug");
                return Some(join(lib_dir_base, s.as_str()));
            }
        }
        i += 1;
    }
    None
}

/// Where the debug symbols of a file go: by its build id, if it has one.
pub open spec fn debug_path(file: Seq<u8>, target: Seq<char>, lib_dir: Seq<char>) -> Seq<char> {
    match elf_build_ids(file) {
        Some(ids) => match first_id(ids) {
            Some(id) => build_id_path(id, lib_dir),
            None => debug_target(target, lib_dir),
        },
        None => debug_target(target, lib_dir),
    }
}

/// Where the debug symbols of a file go, given its content.
pub fn get_target_debug_path(c: &AssetCommon, file: &[u8], lib_dir_base: &str) -> (r: String)
    ensures
        r@ == debug_path(file@, c.target_path@, lib_dir_base@),
{
    if let Some(ids) = read_build_ids(file) {
        if let Some(path) = debug_id_path(&ids, lib_dir_base) {
            return path;
        }
    }
    c.default_debug_target_path(lib_dir_base)
}

// ---------------------------------------------------------------------------
// What is to be done
// ---------------------------------------------------------------------------
/// How binaries are stripped.
#[derive(Debug)]
pub struct StripPlan {
    pub strip_cmd: String,
    pub objcopy_cmd: String,
    /// The target, if it is not that of this machine.
    pub target: Option<String>,
    /// Where commands are configured.
    pub cargo_config_path: String,
    /// Debug symbols go to files of their own.
    pub separate: bool,
    pub compress: CompressDebugSymbols,
    pub reproducible: bool,
    /// The name of the build profile.
    pub profile: String,
    /// The directory of files that are made.
    pub temp_dir: String,
    /// The directory of libraries of the package.
    pub lib_dir: String,
    pub asked_for_dbgsym_package: bool,
}

pub open spec fn using_message(command: Option<Seq<char>>, triple: Seq<char>) -> Seq<MessageView> {
    match command {
        Some(c) => seq![MessageView::Info("Using '"@ + c + "' for '"@ + triple + "'"@)],
        None => Seq::empty(),
    }
}

pub open spec fn or_default(command: Option<Seq<char>>, default: Seq<char>) -> Seq<char> {
    match command {
        Some(c) => c,
        None => default,
    }
}

/// How binaries are stripped, as it is configured; not at all if symbols are kept.
pub open spec fn is_plan(
    plan: StripPlan,
    config: BuildEnvironment,
    package: PackageConfig,
    triple: Option<Seq<char>>,
    asked: bool,
    cargo_config: Option<CargoConfig>,
    existing: Seq<Seq<char>>,
) -> bool {
    let texts = match cargo_config {
        Some(c) => Some(c.texts()),
        None => None,
    };
    &&& plan.strip_cmd@ == match triple {
        Some(t) => or_default(command_for_target(texts, "strip"@, t, existing), "strip"@),
        None => "strip"@,
    }
    &&& plan.objcopy_cmd@ == match triple {
        Some(t) => or_default(command_for_target(texts, "objcopy"@, t, existing), "objcopy"@),
        None => "objcopy"@,
    }
    &&& plan.target.deep_view() == triple
    &&& plan.cargo_config_path@ == match (triple, cargo_config) {
        (Some(_), Some(c)) => c.path@,
        _ => ".cargo/config.toml"@,
    }
    &&& plan.separate == (config.debug_symbols is Separate)
    &&& plan.compress == match config.debug_symbols {
        DebugSymbols::Separate { compress, .. } => compress,
        _ => CompressDebugSymbols::No,
    }
    &&& plan.reproducible == config.reproducible
    &&& plan.profile@ == config.build_profile.name()
    &&& plan.temp_dir@ == path_join(
        path_join(config.target_dir@, "debian"@),
        package.cargo_crate_name@,
    )
    &&& plan.lib_dir@ == package.lib_dir(config.triple())
    &&& plan.asked_for_dbgsym_package == asked
}

pub open spec fn plan_messages(
    triple: Option<Seq<char>>,
    cargo_config: Option<CargoConfig>,
    existing: Seq<Seq<char>>,
) -> Seq<MessageView> {
    let texts = match cargo_config {
        Some(c) => Some(c.texts()),
        None => None,
    };
    match triple {
        Some(t) => using_message(command_for_target(texts, "objcopy"@, t, existing), t)
            + using_message(command_for_target(texts, "strip"@, t, existing), t),
        None => Seq::empty(),
    }
}

fn choose_command(
    cargo_config: Option<&CargoConfig>,
    name: &str,
    triple: &str,
    existing: &Vec<String>,
    log: &mut Vec<Message>,
) -> (r: String)
    ensures
        ({
            let c = command_for_target(
                config_texts(cargo_config),
                name@,
                triple@,
                existing.deep_view(),
            );
            &&& r@ == or_default(c, name@)
            &&& final(log).deep_view() == old(log).deep_view() + using_message(c, triple@)
        }),
{
    let ghost before = log.deep_view();
    match target_specific_command(cargo_config, name, triple, existing) {
        Some(cmd) => {
            let mut text = cat3("Using '", cmd.as_str(), "' for '");
            text.append(triple);
            text.append("'");
            let ghost m = MessageView::Info(text@);
            say(log, Message::Info(text));
            assert(before.push(m) =~= before + seq![m]);
            cmd
        },
        None => {
            assert(before + Seq::<MessageView>::empty() =~= before);
            name.to_owned()
        },
    }
}

impl StripPlan {
    /// How binaries are stripped; not at all if debug symbols are kept. `cargo_config` is read only
    /// where there is a target, and `existing` are those of the candidates for commands that exist.
    pub fn new(
        config: &BuildEnvironment,
        package_deb: &PackageConfig,
        rust_target_triple: Option<&str>,
        asked_for_dbgsym_package: bool,
        cargo_config: Option<&CargoConfig>,
        existing: &Vec<String>,
        log: &mut Vec<Message>,
    ) -> (r: Option<StripPlan>)
        ensures
            ({
                let triple = match rust_target_triple {
                    Some(t) => Some(t@),
                    None => None,
                };
                let cargo = match cargo_config {
                    Some(c) => Some(*c),
                    None => None,
                };
                &&& r is None <==> config.debug_symbols == DebugSymbols::Keep
                &&& r is None ==> *final(log) == *old(log)
                &&& r is Some ==> {
                    &&& is_plan(
                        r->0,
                        *config,
                        *package_deb,
                        triple,
                        asked_for_dbgsym_package,
                        cargo,
                        existing.deep_view(),
                    )
                    &&& final(log).deep_view() == old(log).deep_view() + plan_messages(
                        triple,
                        cargo,
                        existing.deep_view(),
                    )
                }
            }),
    {
        let (separate, compress) = match config.debug_symbols {
            DebugSymbols::Keep => {
                return None;
            },
            DebugSymbols::Strip => (false, CompressDebugSymbols::No),
            DebugSymbols::Separate { compress, .. } => (true, compress),
        };
        let ghost before = log.deep_view();
        let mut strip_cmd = "strip".to_owned();
        let mut objcopy_cmd = "objcopy".to_owned();
        let mut target: Option<String> = None;
        let mut cargo_config_path = ".cargo/config.toml".to_owned();
        assert(before + Seq::<MessageView>::empty() =~= before);
        if let Some(triple) = rust_target_triple {
            objcopy_cmd = choose_command(cargo_config, "objcopy", triple, existing, log);
            strip_cmd = choose_command(cargo_config, "strip", triple, existing, log);
            target = Some(triple.to_owned());
            if let Some(c) = cargo_config {
                cargo_config_path = c.path().to_owned();
            }
            proof {
                let cargo = match cargo_config {
                    Some(c) => Some(*c),
                    None => None,
                };
                assert(log.deep_view() =~= before + plan_messages(
                    Some(triple@),
                    cargo,
                    existing.deep_view(),
                ));
            }
        }
        Some(
            StripPlan {
                strip_cmd,
                objcopy_cmd,
                target,
                cargo_config_path,
                separate,
                compress,
                reproducible: config.reproducible,
                profile: config.build_profile.profile_name().to_owned(),
                temp_dir: config.deb_temp_dir(package_deb),
                lib_dir: package_deb.library_install_dir(config.rust_target_triple()),
                asked_for_dbgsym_package,
            },
        )
    }

    /// What is said about `strip` when it fails.
    pub open spec fn strip_help(self) -> Seq<char> {
        (match self.target {
            Some(t) => "\nnote: Target-specific strip commands are configured in "@
                + self.cargo_config_path@ + ": `[target."@ + t@ + "] strip = { path = \""@
                + self.strip_cmd@ + "\" }`"@,
            None => Seq::empty(),
        }) + (if self.separate {
            Seq::empty()
        } else {
            "\nnote: You can add `[profile."@ + self.profile@
                + "] strip=true` or run with --no-strip"@
        })
    }

    /// What is said about `objcopy` when it fails.
    pub open spec fn objcopy_help(self) -> Seq<char> {
        (match self.target {
            Some(t) => "\nnote: Target-specific objcopy commands are configured in "@
                + self.cargo_config_path@ + ": `[target."@ + t@ + "] objcopy = { path =\""@
                + self.objcopy_cmd@ + "\" }`"@,
            None => Seq::empty(),
        }) + "\nnote: Use --no-separate-debug-symbols if you don't have objcopy"@
    }

    fn strip_help_text(&self) -> (r: String)
        ensures
            r@ == self.strip_help(),
    {
        let mut s = String::new();
        assert(s@ =~= Seq::<char>::empty());
        if let Some(t) = &self.target {
            s = cat3(
                "\nnote: Target-specific strip commands are configured in ",
                self.cargo_config_path.as_str(),
                ": `[target.",
            );
            s.append(t.as_str());
            s.append("] strip = { path = \"");
            s.append(self.strip_cmd.as_str());
            s.append("\" }`");
        }
        let ghost head = s@;
        assert(head + Seq::<char>::empty() =~= head);
        if !self.separate {
            let note = cat3(
                "\nnote: You can add `[profile.",
                self.profile.as_str(),
                "] strip=true` or run with --no-strip",
            );
            s.append(note.as_str());
        }
        s
    }

    fn objcopy_help_text(&self) -> (r: String)
        ensures
            r@ == self.objcopy_help(),
    {
        let mut s = String::new();
        assert(s@ =~= Seq::<char>::empty());
        if let Some(t) = &self.target {
            s = cat3(
                "\nnote: Target-specific objcopy commands are configured in ",
                self.cargo_config_path.as_str(),
                ": `[target.",
            );
            s.append(t.as_str());
            s.append("] objcopy = { path =\"");
            s.append(self.objcopy_cmd.as_str());
            s.append("\" }`");
        }
        s.append("\nnote: Use --no-separate-debug-symbols if you don't have objcopy");
        s
    }
}

// ---------------------------------------------------------------------------
// Stripping one binary
// ---------------------------------------------------------------------------
/// The file of debug symbols: where it goes, and where it is made.
#[derive(Debug)]
pub struct DebugFile {
    pub target: String,
    pub temp: String,
}

/// How far stripping a binary has come.
#[derive(Debug)]
pub enum StripStage {
    /// `strip` is to be run.
    Strip,
    /// `strip` is to be run once more, without arguments it may not know. The text says why.
    StripAgain(String),
    /// Debug symbols are to be copied.
    Separate(DebugFile),
    /// The binary is to be linked with its debug symbols.
    Link(DebugFile),
    Done(Option<DebugFile>),
}

pub struct DebugFileView {
    pub target: Seq<char>,
    pub temp: Seq<char>,
}

pub enum StageView {
    Strip,
    StripAgain(Seq<char>),
    Separate(DebugFileView),
    Link(DebugFileView),
    Done(Option<DebugFileView>),
}

impl DeepView for DebugFile {
    type V = DebugFileView;

    open spec fn deep_view(&self) -> DebugFileView {
        DebugFileView { target: self.target@, temp: self.temp@ }
    }
}

impl DeepView for StripStage {
    type V = StageView;

    open spec fn deep_view(&self) -> StageView {
        match self {
            StripStage::Strip => StageView::Strip,
            StripStage::StripAgain(m) => StageView::StripAgain(m@),
            StripStage::Separate(d) => StageView::Separate(d.deep_view()),
            StripStage::Link(d) => StageView::Link(d.deep_view()),
            StripStage::Done(d) => StageView::Done(d.deep_view()),
        }
    }
}

/// A binary that is being stripped.
#[derive(Debug)]
pub struct StripJob {
    /// Its place among the files of the package.
    pub place: usize,
    pub path: String,
    pub target_path: String,
    pub chmod: Option<u32>,
    /// The stripped file.
    pub temp: String,
    pub stage: StripStage,
}

pub struct JobView {
    pub place: int,
    pub path: Seq<char>,
    pub target_path: Seq<char>,
    pub chmod: Option<u32>,
    pub temp: Seq<char>,
    pub stage: StageView,
}

impl DeepView for StripJob {
    type V = JobView;

    open spec fn deep_view(&self) -> JobView {
        JobView {
            place: self.place as int,
            path: self.path@,
            target_path: self.target_path@,
            chmod: self.chmod,
            temp: self.temp@,
            stage: self.stage.deep_view(),
        }
    }
}

impl JobView {
    /// What a file of debug symbols is called is known where it is linked.
    pub open spec fn wf(self) -> bool {
        match self.stage {
            StageView::Link(d) => file_name(d.temp) is Some && parent(d.temp) is Some,
            StageView::Done(Some(d)) => file_name(d.temp) is Some,
            _ => true,
        }
    }
}

/// A command to run.
#[derive(Debug)]
pub struct CommandLine {
    pub program: String,
    pub args: Vec<String>,
    /// The directory to run it in.
    pub dir: Option<String>,
    /// A file of an earlier run, to be removed first.
    pub stale: Option<String>,
}

pub struct CommandView {
    pub program: Seq<char>,
    pub args: Seq<Seq<char>>,
    pub dir: Option<Seq<char>>,
    pub stale: Option<Seq<char>>,
}

impl DeepView for CommandLine {
    type V = CommandView;

    open spec fn deep_view(&self) -> CommandView {
        CommandView {
            program: self.program@,
            args: self.args.deep_view(),
            dir: self.dir.deep_view(),
            stale: self.stale.deep_view(),
        }
    }
}

/// What running a command gave.
#[derive(Debug)]
pub enum RunResult {
    Succeeded,
    /// There is no such command.
    NotFound(Cause),
    Failed(Cause),
}

/// The arguments for compressing debug symbols. Where no algorithm is named it is zlib here: for full
/// debug symbols, zstd has been named before.
pub open spec fn compress_args(c: CompressDebugSymbols) -> Seq<Seq<char>> {
    match c {
        CompressDebugSymbols::No => Seq::empty(),
        CompressDebugSymbols::Zstd => seq!["--compress-debug-sections=zstd"@],
        CompressDebugSymbols::Zlib | CompressDebugSymbols::Auto => seq![
            "--compress-debug-sections=zlib"@,
        ],
    }
}

/// The command that is to be run next, if there is one.
pub open spec fn next_command(plan: StripPlan, job: JobView) -> Option<CommandView> {
    match job.stage {
        StageView::Strip => Some(
            CommandView {
                program: plan.strip_cmd@,
                args: seq![
                    "--strip-unneeded"@,
                    "--remove-section=.comment"@,
                    "--remove-section=.note"@,
                    "-o"@,
                    job.temp,
                    job.path,
                ],
                dir: None,
                stale: Some(job.temp),
            },
        ),
        StageView::StripAgain(_) => Some(
            CommandView {
                program: plan.strip_cmd@,
                args: seq!["-o"@, job.temp, job.path],
                dir: None,
                stale: None,
            },
        ),
        StageView::Separate(d) => Some(
            CommandView {
                program: plan.objcopy_cmd@,
                args: seq!["--only-keep-debug"@] + crate::flag_if(
                    plan.reproducible,
                    "--enable-deterministic-archives"@,
                ) + compress_args(plan.compress) + seq![job.path, d.temp],
                dir: None,
                stale: Some(d.temp),
            },
        ),
        StageView::Link(d) => Some(
            CommandView {
                program: plan.objcopy_cmd@,
                args: seq!["--add-gnu-debuglink"@, file_name(d.temp)->0, job.temp],
                dir: parent(d.temp),
                stale: None,
            },
        ),
        StageView::Done(_) => None,
    }
}

/// What is said when a binary is done.
pub open spec fn done_message(plan: StripPlan, job: JobView) -> MessageView {
    if plan.separate {
        MessageView::Progress("Split"@, "debug info from '"@ + job.path + "'"@)
    } else if plan.asked_for_dbgsym_package {
        MessageView::Info("No debug info in '"@ + job.path + "'"@)
    } else {
        MessageView::Progress("Stripped"@, "'"@ + job.path + "'"@)
    }
}

/// What comes of a step: the stage that follows, and what is said; or an error.
pub struct Step {
    pub stage: Result<StageView, ErrorView>,
    pub messages: Seq<MessageView>,
}

/// What follows when `strip` has succeeded, given the content of the binary.
pub open spec fn after_strip(
    plan: StripPlan,
    job: JobView,
    file: Seq<u8>,
    messages: Seq<MessageView>,
) -> Step {
    if !plan.separate {
        Step { stage: Ok(StageView::Done(None)), messages: messages.push(done_message(plan, job)) }
    } else {
        let target = debug_path(file, job.target_path, plan.lib_dir@);
        match file_name(target) {
            Some(name) => Step {
                stage: Ok(
                    StageView::Separate(
                        DebugFileView { target, temp: with_file_name(job.temp, name) },
                    ),
                ),
                messages,
            },
            None => Step { stage: Err(ErrorView::Str("bad .debug"@)), messages },
        }
    }
}

pub open spec fn missing_command(e: CauseView, command: Seq<char>, help: Seq<char>) -> ErrorView {
    ErrorView::Context(
        "can't separate debug symbols"@ + help,
        Box::new(ErrorView::CommandFailed(e, command)),
    )
}

/// What follows a command, given what running it gave, and whether the stripped file is there.
pub open spec fn step(
    plan: StripPlan,
    job: JobView,
    result: RunResult,
    output_exists: bool,
    file: Seq<u8>,
) -> Step {
    let nothing = Seq::<MessageView>::empty();
    match job.stage {
        StageView::Strip => match result {
            RunResult::Succeeded => if output_exists {
                after_strip(plan, job, file, nothing)
            } else {
                Step {
                    stage: Ok(
                        StageView::StripAgain(
                            plan.strip_cmd@ + " command failed to create output '"@ + job.temp
                                + "'"@ + plan.strip_help(),
                        ),
                    ),
                    messages: nothing,
                }
            },
            RunResult::NotFound(e) => Step {
                stage: Err(missing_command(e.deep_view(), plan.strip_cmd@, plan.strip_help())),
                messages: nothing,
            },
            RunResult::Failed(e) => Step {
                stage: Ok(
                    StageView::StripAgain(
                        plan.strip_cmd@ + ": "@ + e.message@ + plan.strip_help(),
                    ),
                ),
                messages: nothing,
            },
        },
        StageView::StripAgain(msg) => if result is Succeeded && output_exists {
            after_strip(
                plan,
                job,
                file,
                seq![MessageView::Warning("strip didn't support additional arguments: "@ + msg)],
            )
        } else {
            Step { stage: Err(ErrorView::StripFailed(job.path, msg)), messages: nothing }
        },
        StageView::Separate(d) => match result {
            RunResult::Succeeded => if file_name(d.temp) is Some && parent(d.temp) is Some {
                Step { stage: Ok(StageView::Link(d)), messages: nothing }
            } else {
                Step { stage: Err(ErrorView::Str("bad path"@)), messages: nothing }
            },
            RunResult::NotFound(e) => Step {
                stage: Err(missing_command(e.deep_view(), plan.objcopy_cmd@, plan.objcopy_help())),
                messages: nothing,
            },
            RunResult::Failed(e) => Step {
                stage: Err(
                    ErrorView::StripFailed(
                        job.path,
                        plan.objcopy_cmd@ + ": "@ + e.message@ + plan.objcopy_help(),
                    ),
                ),
                messages: nothing,
            },
        },
        StageView::Link(d) => match result {
            RunResult::Succeeded => Step {
                stage: Ok(StageView::Done(Some(d))),
                messages: seq![done_message(plan, job)],
            },
            RunResult::NotFound(e) | RunResult::Failed(e) => Step {
                stage: Err(ErrorView::CommandFailed(e.deep_view(), "objcopy"@)),
                messages: nothing,
            },
        },
        StageView::Done(d) => Step { stage: Ok(StageView::Done(d)), messages: nothing },
    }
}

/// Stripping a binary comes to an end: every step that is not an error leads to a stage with fewer
/// stages to follow.
pub open spec fn stages_left(s: StageView) -> nat {
    match s {
        StageView::Strip => 4,
        StageView::StripAgain(_) => 3,
        StageView::Separate(_) => 2,
        StageView::Link(_) => 1,
        StageView::Done(_) => 0,
    }
}

/// Every command brings stripping a binary nearer to its end.
pub proof fn law_stripping_ends(
    plan: StripPlan,
    job: JobView,
    result: RunResult,
    output_exists: bool,
    file: Seq<u8>,
)
    requires
        !(job.stage is Done),
    ensures
        step(plan, job, result, output_exists, file).stage matches Ok(s) ==> stages_left(s)
            < stages_left(job.stage),
{
}

/// Debug symbols are kept apart exactly if the plan says so.
pub proof fn law_separate_makes_debug_file(
    plan: StripPlan,
    job: JobView,
    result: RunResult,
    output_exists: bool,
    file: Seq<u8>,
)
    requires
        job.stage is Strip || job.stage is StripAgain,
        step(plan, job, result, output_exists, file).stage is Ok,
    ensures
        ({
            let s = step(plan, job, result, output_exists, file).stage->Ok_0;
            &&& s is Done ==> !plan.separate && s == StageView::Done(None)
            &&& s is Separate ==> plan.separate
        }),
{
}

/// Whether a binary is stripped: it has to be a file; one that goes into the package as a symlink is
/// not.
pub enum StartView {
    Skip,
    Warn(Seq<char>),
    Job(JobView),
    Fail(ErrorView),
}

/// What a binary begins with. `debug_text` describes the file.
pub open spec fn started(
    plan: StripPlan,
    asset: AssetView,
    place: int,
    index: nat,
    exists: bool,
    debug_text: Seq<char>,
) -> StartView {
    match asset.source {
        SourceView::Manifested(_) | SourceView::Virtual(_) => StartView::Skip,
        SourceView::Data(_) => StartView::Warn(
            "Found built asset with non-path source '"@ + debug_text + "'"@,
        ),
        SourceView::Path(path) => if !exists {
            StartView::Fail(
                ErrorView::StripFailed(
                    path,
                    "The file doesn't exist\nnote: needed for "@ + asset.c.target_path,
                ),
            )
        } else {
            match file_stem(path) {
                None => StartView::Fail(ErrorView::Str("bad path"@)),
                Some(stem) => StartView::Job(
                    JobView {
                        place,
                        path,
                        target_path: asset.c.target_path,
                        chmod: asset.c.chmod,
                        temp: path_join(
                            plan.temp_dir@,
                            stem + ".stripped-"@ + decimal(index) + ".tmp"@,
                        ),
                        stage: StageView::Strip,
                    },
                ),
            }
        },
    }
}

impl StripJob {
    /// What a binary begins with.
    fn start(
        plan: &StripPlan,
        asset: &Asset,
        place: usize,
        index: usize,
        exists: bool,
        debug_text: &str,
        log: &mut Vec<Message>,
    ) -> (r: CDResult<Option<StripJob>>)
        ensures
            match started(
                *plan,
                asset.deep_view(),
                place as int,
                index as nat,
                exists,
                debug_text@,
            ) {
                StartView::Skip => r == Ok::<Option<StripJob>, CargoDebError>(None) && *final(log)
                    == *old(log),
                StartView::Warn(w) => r == Ok::<Option<StripJob>, CargoDebError>(None) && final(log).deep_view() == old(log).deep_view() + seq![MessageView::Warning(w)],
                StartView::Job(j) => r is Ok && r->Ok_0 is Some && (r->Ok_0->0).deep_view() == j
                    && *final(log) == *old(log),
                StartView::Fail(e) => r is Err && r->Err_0.deep_view() == e && *final(log) == *old(log),
            },
    {
        let path = match &asset.source {
            AssetSource::Path(p) => p,
            AssetSource::Data(_) => {
                // This is unexpected - emit a warning if we come across it
                warn(log, cat3("Found built asset with non-path source '", debug_text, "'"));
                return Ok(None);
            },
            AssetSource::Symlink(_) => {
                return Ok(None);
            },
        };
        if !exists {
            return Err(
                CargoDebError::StripFailed(
                    path.clone(),
                    cat(
                        "The file doesn't exist\nnote: needed for ",
                        asset.c.target_path.as_str(),
                    ),
                ),
            );
        }
        let stem = match file_stem_of(path.as_str()) {
            Some(s) => s,
            None => {
                return Err(CargoDebError::Str("bad path"));
            },
        };
        let number = decimal_of(index as u64);
        let name = cat4(stem.as_str(), ".stripped-", number.as_str(), ".tmp");
        Ok(
            Some(
                StripJob {
                    place,
                    path: path.clone(),
                    target_path: asset.c.target_path.clone(),
                    chmod: asset.c.chmod,
                    temp: join(plan.temp_dir.as_str(), name.as_str()),
                    stage: StripStage::Strip,
                },
            ),
        )
    }

    /// The command that is to be run next, if there is one.
    pub fn command(&self, plan: &StripPlan) -> (r: Option<CommandLine>)
        requires
            self.deep_view().wf(),
        ensures
            r.deep_view() == next_command(*plan, self.deep_view()),
    {
        let ghost job = self.deep_view();
        match &self.stage {
            StripStage::Strip => {
                let mut args: Vec<String> = Vec::new();
                args.push("--strip-unneeded".to_owned());
                args.push("--remove-section=.comment".to_owned());
                args.push("--remove-section=.note".to_owned());
                args.push("-o".to_owned());
                args.push(self.temp.clone());
                args.push(self.path.clone());
                assert(args.deep_view() =~= next_command(*plan, job)->0.args);
                Some(
                    CommandLine {
                        program: plan.strip_cmd.clone(),
                        args,
                        dir: None,
                        stale: Some(self.temp.clone()),
                    },
                )
            },
            StripStage::StripAgain(_) => {
                let mut args: Vec<String> = Vec::new();
                args.push("-o".to_owned());
                args.push(self.temp.clone());
                args.push(self.path.clone());
                assert(args.deep_view() =~= next_command(*plan, job)->0.args);
                Some(
                    CommandLine { program: plan.strip_cmd.clone(), args, dir: None, stale: None },
                )
            },
            StripStage::Separate(d) => {
                let mut args: Vec<String> = Vec::new();
                args.push("--only-keep-debug".to_owned());
                if plan.reproducible {
                    args.push("--enable-deterministic-archives".to_owned());
                }
                match plan.compress {
                    CompressDebugSymbols::No => {},
                    CompressDebugSymbols::Zstd => {
                        args.push("--compress-debug-sections=zstd".to_owned());
                    },
                    CompressDebugSymbols::Zlib | CompressDebugSymbols::Auto => {
                        args.push("--compress-debug-sections=zlib".to_owned());
                    },
                }
                args.push(self.path.clone());
                args.push(d.temp.clone());
                assert(args.deep_view() =~= next_command(*plan, job)->0.args);
                Some(
                    CommandLine {
                        program: plan.objcopy_cmd.clone(),
                        args,
                        dir: None,
                        stale: Some(d.temp.clone()),
                    },
                )
            },
            StripStage::Link(d) => {
                let name = match file_name_of(d.temp.as_str()) {
                    Some(n) => n,
                    None => String::new(),
                };
                let mut args: Vec<String> = Vec::new();
                args.push("--add-gnu-debuglink".to_owned());
                // intentionally relative - the file name must match the target path
                args.push(name);
                args.push(self.temp.clone());
                assert(args.deep_view() =~= next_command(*plan, job)->0.args);
                Some(
                    CommandLine {
                        program: plan.objcopy_cmd.clone(),
                        args,
                        dir: parent_of(d.temp.as_str()),
                        stale: None,
                    },
                )
            },
            StripStage::Done(_) => None,
        }
    }

    fn done(&self, plan: &StripPlan, log: &mut Vec<Message>)
        ensures
            final(log).deep_view() == old(log).deep_view().push(
                done_message(*plan, self.deep_view()),
            ),
    {
        let path = self.path.as_str();
        if plan.separate {
            say(
                log,
                Message::Progress("Split".to_owned(), cat3("debug info from '", path, "'")),
            );
        } else if plan.asked_for_dbgsym_package {
            say(log, Message::Info(cat3("No debug info in '", path, "'")));
        } else {
            say(log, Message::Progress("Stripped".to_owned(), cat3("'", path, "'")));
        }
    }

    fn stripped(&self, plan: &StripPlan, file: &[u8], log: &mut Vec<Message>) -> (r: CDResult<
        StripStage,
    >)
        ensures
            ({
                let s = after_strip(*plan, self.deep_view(), file@, Seq::empty());
                &&& match s.stage {
                    Ok(stage) => r is Ok && r->Ok_0.deep_view() == stage,
                    Err(e) => r is Err && r->Err_0.deep_view() == e,
                }
                &&& final(log).deep_view() == old(log).deep_view() + s.messages
            }),
    {
        let ghost before = log.deep_view();
        assert(before + Seq::<MessageView>::empty() =~= before);
        if !plan.separate {
            self.done(plan, log);
            assert(log.deep_view() =~= before + Seq::<MessageView>::empty().push(
                done_message(*plan, self.deep_view()),
            ));
            return Ok(StripStage::Done(None));
        }
        // parse the ELF and use debug-id-based path if available
        let c = AssetCommon {
            target_path: self.target_path.clone(),
            chmod: self.chmod,
            asset_kind: AssetKind::Any,
            is_built: IsBuilt::SamePackage,
        };
        let target = get_target_debug_path(&c, file, plan.lib_dir.as_str());
        // --add-gnu-debuglink reads the file path given, so it can't get to-be-installed target path
        // and the recommended fallback solution is to give it relative path in the same dir
        match file_name_of(target.as_str()) {
            Some(name) => {
                let temp = replace_file_name(self.temp.as_str(), name.as_str());
                Ok(StripStage::Separate(DebugFile { target, temp }))
            },
            None => Err(CargoDebError::Str("bad .debug")),
        }
    }

    fn after_first(
        &self,
        plan: &StripPlan,
        result: RunResult,
        output_exists: bool,
        file: &[u8],
        log: &mut Vec<Message>,
    ) -> (r: CDResult<StripStage>)
        requires
            self.stage is Strip,
        ensures
            ({
                let s = step(*plan, self.deep_view(), result, output_exists, file@);
                &&& match s.stage {
                    Ok(stage) => r is Ok && r->Ok_0.deep_view() == stage,
                    Err(e) => r is Err && r->Err_0.deep_view() == e,
                }
                &&& final(log).deep_view() == old(log).deep_view() + s.messages
            }),
    {
        let ghost before = log.deep_view();
        assert(before + Seq::<MessageView>::empty() =~= before);
        let cmd = plan.strip_cmd.as_str();
        match result {
            RunResult::Succeeded => {
                if output_exists {
                    self.stripped(plan, file, log)
                } else {
                    let help = plan.strip_help_text();
                    let mut msg = cat4(
                        cmd,
                        " command failed to create output '",
                        self.temp.as_str(),
                        "'",
                    );
                    msg.append(help.as_str());
                    Ok(StripStage::StripAgain(msg))
                }
            },
            RunResult::NotFound(e) => {
                let help = plan.strip_help_text();
                let err = CargoDebError::CommandFailed(e, plan.strip_cmd.clone());
                Err(err.context(cat("can't separate debug symbols", help.as_str())))
            },
            RunResult::Failed(e) => {
                let help = plan.strip_help_text();
                let msg = cat4(cmd, ": ", e.message.as_str(), help.as_str());
                Ok(StripStage::StripAgain(msg))
            },
        }
    }

    fn next_stage(
        &self,
        plan: &StripPlan,
        result: RunResult,
        output_exists: bool,
        file: &[u8],
        log: &mut Vec<Message>,
    ) -> (r: CDResult<StripStage>)
        requires
            self.deep_view().wf(),
        ensures
            ({
                let s = step(*plan, self.deep_view(), result, output_exists, file@);
                &&& match s.stage {
                    Ok(stage) => r is Ok && r->Ok_0.deep_view() == stage,
                    Err(e) => r is Err && r->Err_0.deep_view() == e,
                }
                &&& final(log).deep_view() == old(log).deep_view() + s.messages
            }),
    {
        let ghost before = log.deep_view();
        let ghost job = self.deep_view();
        assert(before + Seq::<MessageView>::empty() =~= before);
        match &self.stage {
            StripStage::Strip => self.after_first(plan, result, output_exists, file, log),
            StripStage::StripAgain(msg) => {
                let succeeded = match &result {
                    RunResult::Succeeded => output_exists,
                    _ => false,
                };
                if !succeeded {
                    return Err(CargoDebError::StripFailed(self.path.clone(), msg.clone()));
                }
                let ghost w = MessageView::Warning(
                    "strip didn't support additional arguments: "@ + msg@,
                );
                warn(log, cat("strip didn't support additional arguments: ", msg.as_str()));
                let r = self.stripped(plan, file, log);
                proof {
                    let one = seq![w];
                    let a = after_strip(*plan, job, file@, Seq::empty()).messages;
                    let b = after_strip(*plan, job, file@, one).messages;
                    assert(one + a =~= b);
                    assert(before + one + a =~= before + b);
                }
                r
            },
            StripStage::Separate(d) => match result {
                RunResult::Succeeded => {
                    let named = file_name_of(d.temp.as_str()).is_some();
                    if named && parent_of(d.temp.as_str()).is_some() {
                        Ok(
                            StripStage::Link(
                                DebugFile { target: d.target.clone(), temp: d.temp.clone() },
                            ),
                        )
                    } else {
                        Err(CargoDebError::Str("bad path"))
                    }
                },
                RunResult::NotFound(e) => {
                    let help = plan.objcopy_help_text();
                    let err = CargoDebError::CommandFailed(e, plan.objcopy_cmd.clone());
                    Err(err.context(cat("can't separate debug symbols", help.as_str())))
                },
                RunResult::Failed(e) => {
                    let help = plan.objcopy_help_text();
                    let msg = cat4(
                        plan.objcopy_cmd.as_str(),
                        ": ",
                        e.message.as_str(),
                        help.as_str(),
                    );
                    Err(CargoDebError::StripFailed(self.path.clone(), msg))
                },
            },
            StripStage::Link(d) => match result {
                RunResult::Succeeded => {
                    self.done(plan, log);
                    assert(log.deep_view() =~= before + seq![done_message(*plan, job)]);
                    Ok(
                        StripStage::Done(
                            Some(DebugFile { target: d.target.clone(), temp: d.temp.clone() }),
                        ),
                    )
                },
                RunResult::NotFound(e) | RunResult::Failed(e) => Err(
                    CargoDebError::CommandFailed(e, "objcopy".to_owned()),
                ),
            },
            StripStage::Done(Some(d)) => Ok(
                StripStage::Done(
                    Some(DebugFile { target: d.target.clone(), temp: d.temp.clone() }),
                ),
            ),
            StripStage::Done(None) => Ok(StripStage::Done(None)),
        }
    }

    /// What follows the command, given what running it gave, whether the stripped file is there, and
    /// the content of the binary (nothing if it cannot be read).
    pub fn advance(
        self,
        plan: &StripPlan,
        result: RunResult,
        output_exists: bool,
        file: &[u8],
        log: &mut Vec<Message>,
    ) -> (r: CDResult<StripJob>)
        requires
            self.deep_view().wf(),
        ensures
            ({
                let s = step(*plan, self.deep_view(), result, output_exists, file@);
                &&& match s.stage {
                    Ok(stage) => r is Ok && r->Ok_0.deep_view() == (JobView {
                        stage,
                        ..self.deep_view()
                    }) && r->Ok_0.deep_view().wf(),
                    Err(e) => r is Err && r->Err_0.deep_view() == e,
                }
                &&& final(log).deep_view() == old(log).deep_view() + s.messages
            }),
    {
        let stage = self.next_stage(plan, result, output_exists, file, log)?;
        Ok(
            StripJob {
                place: self.place,
                path: self.path,
                target_path: self.target_path,
                chmod: self.chmod,
                temp: self.temp,
                stage,
            },
        )
    }
}

// ---------------------------------------------------------------------------
// Stripping all binaries
// ---------------------------------------------------------------------------
/// What is known of a binary that Cargo has built.
#[derive(Debug)]
pub struct BuiltBinary {
    /// Its file exists.
    pub exists: bool,
    /// The file of the package, described.
    pub debug_text: String,
}

/// What all binaries begin with, up to the first error.
pub struct Started {
    pub jobs: Seq<JobView>,
    pub messages: Seq<MessageView>,
    pub error: Option<ErrorView>,
}

pub open spec fn all_started(
    plan: StripPlan,
    assets: Seq<AssetView>,
    places: Seq<int>,
    binaries: Seq<BuiltBinary>,
) -> Started
    decreases places.len(),
{
    if places.len() == 0 {
        Started { jobs: Seq::empty(), messages: Seq::empty(), error: None }
    } else {
        let before = all_started(plan, assets, places.drop_last(), binaries);
        let k = places.len() - 1;
        if before.error is Some {
            before
        } else {
            match started(
                plan,
                assets[places[k]],
                places[k],
                k as nat,
                binaries[k].exists,
                binaries[k].debug_text@,
            ) {
                StartView::Skip => before,
                StartView::Warn(w) => Started {
                    messages: before.messages + seq![MessageView::Warning(w)],
                    ..before
                },
                StartView::Job(j) => Started { jobs: before.jobs.push(j), ..before },
                StartView::Fail(e) => Started { error: Some(e), ..before },
            }
        }
    }
}

proof fn lemma_started_error(
    plan: StripPlan,
    assets: Seq<AssetView>,
    places: Seq<int>,
    binaries: Seq<BuiltBinary>,
    i: int,
)
    requires
        0 <= i <= places.len(),
        all_started(plan, assets, places.take(i), binaries).error is Some,
    ensures
        all_started(plan, assets, places, binaries) == all_started(
            plan,
            assets,
            places.take(i),
            binaries,
        ),
    decreases places.len(),
{
    if i == places.len() {
        assert(places.take(i) =~= places);
    } else {
        assert(places.drop_last().take(i) =~= places.take(i));
        lemma_started_error(plan, assets, places.drop_last(), binaries, i);
    }
}

proof fn lemma_built_places(assets: Seq<AssetView>)
    ensures
        built_places(assets).len() <= assets.len(),
        forall|k: int|
            0 <= k < built_places(assets).len() ==> 0 <= #[trigger] built_places(assets)[k]
                < assets.len(),
    decreases assets.len(),
{
    if assets.len() > 0 {
        let t = assets.drop_last();
        lemma_built_places(t);
        assert forall|k: int| 0 <= k < built_places(assets).len() implies 0
            <= #[trigger] built_places(assets)[k] < assets.len() by {
            if k < built_places(t).len() {
                assert(built_places(assets)[k] == built_places(t)[k]);
            }
        }
    }
}

/// Begins to strip the binaries that were created with cargo: what is left to do for each of them
/// that is a file. `binaries` are those that Cargo has built, in the order of the files of the
/// package.
pub fn strip_binaries(
    plan: &StripPlan,
    package_deb: &PackageConfig,
    binaries: &Vec<BuiltBinary>,
    log: &mut Vec<Message>,
) -> (r: CDResult<Vec<StripJob>>)
    requires
        binaries.len() == built_places(package_deb.assets.resolved.deep_view()).len(),
    ensures
        ({
            let assets = package_deb.assets.resolved.deep_view();
            let all = all_started(*plan, assets, built_places(assets), binaries@);
            &&& match all.error {
                None => r is Ok && r->Ok_0.deep_view() == all.jobs,
                Some(e) => r is Err && r->Err_0.deep_view() == e,
            }
            &&& final(log).deep_view() == old(log).deep_view() + all.messages
        }),
{
    let ghost assets = package_deb.assets.resolved.deep_view();
    let ghost places = built_places(assets);
    let ghost before = log.deep_view();
    let built = package_deb.built_binaries();
    let mut jobs: Vec<StripJob> = Vec::new();
    let mut i: usize = 0;
    proof {
        lemma_built_places(assets);
        assert(places.take(0) =~= Seq::<int>::empty());
        assert(jobs.deep_view() =~= Seq::<JobView>::empty());
        assert(before + Seq::<MessageView>::empty() =~= before);
    }
    while i < built.len()
        invariant
            i <= built.len(),
            built.len() == binaries.len(),
            assets == package_deb.assets.resolved.deep_view(),
            places == built_places(assets),
            before == old(log).deep_view(),
            built@.map_values(|i: usize| i as int) == places,
            forall|k: int| 0 <= k < places.len() ==> 0 <= #[trigger] places[k] < assets.len(),
            all_started(*plan, assets, places.take(i as int), binaries@).error is None,
            jobs.deep_view() == all_started(*plan, assets, places.take(i as int), binaries@).jobs,
            log.deep_view() == before + all_started(
                *plan,
                assets,
                places.take(i as int),
                binaries@,
            ).messages,
        decreases built.len() - i,
    {
        let ghost so_far = all_started(*plan, assets, places.take(i as int), binaries@);
        let place = built[i];
        proof {
            assert(built@.map_values(|i: usize| i as int)[i as int] == place as int);
            assert(places[i as int] == place);
            assert(assets[place as int] == package_deb.assets.resolved[place as int].deep_view());
            assert(places.take(i + 1).drop_last() =~= places.take(i as int));
            assert(places.take(i + 1)[i as int] == place);
            assert(places.take(i + 1).len() - 1 == i);
        }
        match StripJob::start(
            plan,
            &package_deb.assets.resolved[place],
            place,
            i,
            binaries[i].exists,
            binaries[i].debug_text.as_str(),
            log,
        ) {
            Ok(Some(job)) => {
                let ghost j = job.deep_view();
                jobs.push(job);
                assert(jobs.deep_view() =~= so_far.jobs.push(j));
            },
            Ok(None) => {
                assert(log.deep_view() =~= before + all_started(
                    *plan,
                    assets,
                    places.take(i + 1),
                    binaries@,
                ).messages);
            },
            Err(e) => {
                proof {
                    lemma_started_error(*plan, assets, places, binaries@, i + 1);
                }
                return Err(e);
            },
        }
        i += 1;
    }
    assert(places.take(i as int) =~= places);
    Ok(jobs)
}

/// A file of the package that has been stripped.
pub open spec fn stripped_asset(a: AssetView, temp: Seq<char>) -> AssetView {
    AssetView {
        source: SourceView::Path(temp),
        processed_from: Some(
            ProcessedView { original_path: source_path(a.source), action: "strip"@ },
        ),
        c: a.c,
    }
}

/// The file of debug symbols of a binary, as a file of the package.
pub open spec fn debug_asset(job: JobView, d: DebugFileView, compress: bool) -> AssetView {
    processed_asset(
        new_asset(
            SourceView::Path(d.temp),
            d.target,
            match job.chmod {
                Some(m) => Some(0o666 & m),
                None => None,
            },
            IsBuilt::No,
            AssetKind::SeparateDebugSymbols,
        ),
        if compress {
            "compress"@
        } else {
            "separate"@
        },
        Some(job.path),
    )
}

/// The files of the package, with stripped ones in the place of binaries.
pub open spec fn with_stripped(assets: Seq<AssetView>, jobs: Seq<JobView>) -> Seq<AssetView>
    decreases jobs.len(),
{
    if jobs.len() == 0 {
        assets
    } else {
        let before = with_stripped(assets, jobs.drop_last());
        let j = jobs.last();
        before.update(j.place, stripped_asset(before[j.place], j.temp))
    }
}

pub open spec fn debug_assets(jobs: Seq<JobView>, compress: bool) -> Seq<AssetView>
    decreases jobs.len(),
{
    if jobs.len() == 0 {
        Seq::empty()
    } else {
        let before = debug_assets(jobs.drop_last(), compress);
        match jobs.last().stage {
            StageView::Done(Some(d)) => before.push(debug_asset(jobs.last(), d, compress)),
            _ => before,
        }
    }
}

/// Every job is for a binary that Cargo has built, and begins with `strip`.
pub proof fn law_jobs_are_for_binaries(
    plan: StripPlan,
    assets: Seq<AssetView>,
    places: Seq<int>,
    binaries: Seq<BuiltBinary>,
)
    ensures
        ({
            let jobs = all_started(plan, assets, places, binaries).jobs;
            forall|i: int|
                0 <= i < jobs.len() ==> places.contains((#[trigger] jobs[i]).place)
                    && jobs[i].stage is Strip && assets[jobs[i].place].source == SourceView::Path(
                    jobs[i].path,
                )
        }),
    decreases places.len(),
{
    if places.len() > 0 {
        let t = places.drop_last();
        law_jobs_are_for_binaries(plan, assets, t, binaries);
        let before = all_started(plan, assets, t, binaries).jobs;
        let jobs = all_started(plan, assets, places, binaries).jobs;
        assert forall|i: int| 0 <= i < jobs.len() implies places.contains(
            (#[trigger] jobs[i]).place,
        ) && jobs[i].stage is Strip && assets[jobs[i].place].source == SourceView::Path(
            jobs[i].path,
        ) by {
            if i < before.len() {
                assert(jobs[i] == before[i]);
                let k = choose|k: int| 0 <= k < t.len() && t[k] == jobs[i].place;
                assert(places[k] == jobs[i].place);
            } else {
                assert(places[places.len() - 1] == jobs[i].place);
            }
        }
    }
}

/// Stripping changes no path in the package and no permissions, and no file that is not stripped.
pub proof fn law_stripping_keeps_files(assets: Seq<AssetView>, jobs: Seq<JobView>)
    requires
        forall|k: int| 0 <= k < jobs.len() ==> 0 <= (#[trigger] jobs[k]).place < assets.len(),
    ensures
        with_stripped(assets, jobs).len() == assets.len(),
        forall|i: int|
            0 <= i < assets.len() ==> (#[trigger] with_stripped(assets, jobs)[i]).c == assets[i].c,
        forall|i: int|
            0 <= i < assets.len() && (forall|k: int|
                0 <= k < jobs.len() ==> (#[trigger] jobs[k]).place != i) ==> (
            #[trigger] with_stripped(assets, jobs)[i]) == assets[i],
    decreases jobs.len(),
{
    if jobs.len() > 0 {
        let t = jobs.drop_last();
        assert forall|k: int| 0 <= k < t.len() implies 0 <= (#[trigger] t[k]).place
            < assets.len() by {
            assert(t[k] == jobs[k]);
        }
        law_stripping_keeps_files(assets, t);
        let before = with_stripped(assets, t);
        let after = with_stripped(assets, jobs);
        assert(jobs.last() == jobs[jobs.len() - 1]);
        assert forall|i: int| 0 <= i < assets.len() implies (#[trigger] after[i]).c
            == assets[i].c by {
            assert(before[i].c == assets[i].c);
        }
        assert forall|i: int|
            0 <= i < assets.len() && (forall|k: int|
                0 <= k < jobs.len() ==> (#[trigger] jobs[k]).place != i) implies (
        #[trigger] after[i]) == assets[i] by {
            assert(jobs[jobs.len() - 1].place != i);
            assert forall|k: int| 0 <= k < t.len() implies (#[trigger] t[k]).place != i by {
                assert(jobs[k].place != i);
            }
            assert(before[i] == assets[i]);
        }
    }
}

/// Puts stripped files in the place of binaries, and adds the files of their debug symbols.
pub fn apply_stripped(package_deb: &mut PackageConfig, plan: &StripPlan, jobs: Vec<StripJob>)
    requires
        forall|i: int|
            0 <= i < jobs.len() ==> (#[trigger] jobs.deep_view()[i]).wf() && jobs.deep_view()[i].stage
                is Done && jobs.deep_view()[i].place < old(package_deb).assets.resolved.len(),
    ensures
        *final(package_deb) == (PackageConfig {
            assets: final(package_deb).assets,
            ..*old(package_deb)
        }),
        final(package_deb).assets.unresolved == old(package_deb).assets.unresolved,
        final(package_deb).assets.resolved.deep_view() == with_stripped(
            old(package_deb).assets.resolved.deep_view(),
            jobs.deep_view(),
        ) + debug_assets(jobs.deep_view(), plan.compress != CompressDebugSymbols::No),
{
    let compress = plan.compress != CompressDebugSymbols::No;
    let mut assets: Vec<Asset> = Vec::new();
    std::mem::swap(&mut assets, &mut package_deb.assets.resolved);
    let ghost start = assets.deep_view();
    let ghost js = jobs.deep_view();
    let mut added: Vec<Asset> = Vec::new();
    proof {
        assert(js.take(0) =~= Seq::<JobView>::empty());
        assert(added.deep_view() =~= Seq::<AssetView>::empty());
    }
    for job in it: jobs
        invariant
            it.seq() == jobs@,
            js == jobs.deep_view(),
            assets.len() == start.len(),
            forall|i: int|
                0 <= i < js.len() ==> (#[trigger] js[i]).wf() && js[i].stage is Done && js[i].place
                    < start.len(),
            assets.deep_view() == with_stripped(start, js.take(it.index())),
            added.deep_view() == debug_assets(js.take(it.index()), compress),
    {
        let ghost i = it.index();
        let ghost before = assets.deep_view();
        let ghost before_added = added.deep_view();
        let ghost j = job.deep_view();
        proof {
            assert(js[i] == j);
            assert(js.take(i + 1).drop_last() =~= js.take(i));
            assert(js.take(i + 1).last() == j);
            assert(before[job.place as int] == assets[job.place as int].deep_view());
        }
        let from = &assets[job.place];
        let new = Asset {
            source: AssetSource::Path(job.temp.clone()),
            processed_from: Some(
                ProcessedFrom {
                    original_path: match from.source.path() {
                        Some(p) => Some(p.clone()),
                        None => None,
                    },
                    action: "strip",
                },
            ),
            c: from.c.clone(),
        };
        let ghost nv = new.deep_view();
        assert(nv == stripped_asset(before[job.place as int], job.temp@));
        let place = job.place;
        assets.set(place, new);
        assert(assets.deep_view() =~= before.update(place as int, nv));
        if let StripStage::Done(Some(d)) = job.stage {
            let chmod = match job.chmod {
                Some(m) => Some(0o666 & m),
                None => None,
            };
            let action = if compress {
                "compress"
            } else {
                "separate"
            };
            let asset = Asset::new(
                AssetSource::Path(d.temp),
                d.target,
                chmod,
                IsBuilt::No,
                AssetKind::SeparateDebugSymbols,
            ).processed(action, Some(job.path));
            let ghost a = asset.deep_view();
            added.push(asset);
            assert(added.deep_view() =~= before_added.push(a));
        }
    }
    let ghost stripped = assets.deep_view();
    let ghost extra = added.deep_view();
    assets.append(&mut added);
    assert(assets.deep_view() =~= stripped + extra);
    assert(js.take(js.len() as int) =~= js);
    package_deb.assets.resolved = assets;
}

} // verus!
