//! What the options of a run mean, and what is said to the user.
use crate::compress::CompressType;
use crate::config::{deb_file_name, Multiarch, PackageConfig};
use crate::listener::{full_report, label_text, lines_below, note_texts, one_report, prefixed, right_aligned, spaces, MessageView, Verbosity};
use crate::parse::manifest::CompressDebugSymbols;
use crate::process::{choice, compression_named, install_args, install_program, multiarch_named, revision_warning, symbol_compression, without_deb, Arguments, CargoDeb, Stage};
use crate::text::{has_prefix, split_text, trim_end, trim_start};
use vstd::prelude::*;

verus! {

/// An option and its opposite: without either, nothing is said.
pub proof fn law_choice(yes: bool, no: bool)
    ensures
        choice(yes, no) is None <==> !yes && !no,
        yes ==> choice(yes, no) == Some(true),
        no && !yes ==> choice(yes, no) == Some(false),
{
}

/// Packages are compressed as `xz`, unless `gzip` is asked for.
pub proof fn law_compression_named(name: Seq<char>)
    ensures
        compression_named(None) == CompressType::Xz,
        compression_named(Some(name)) == CompressType::Gzip <==> name == "gz"@ || name == "gzip"@,
        compression_named(Some("xz"@)) == CompressType::Xz,
{
    reveal_strlit("xz");
    reveal_strlit("gz");
    reveal_strlit("gzip");
    assert("xz"@[0] != "gz"@[0]);
    assert("xz"@.len() == 2 && "gzip"@.len() == 4);
}

/// What is said on other architectures: nothing, unless it is named.
pub proof fn law_multiarch_named(name: Seq<char>)
    ensures
        multiarch_named(None) == Multiarch::Unsupported,
        multiarch_named(Some(name)) == Multiarch::Same <==> name == "same"@,
        multiarch_named(Some(name)) == Multiarch::Foreign <==> name == "foreign"@,
{
    reveal_strlit("same");
    reveal_strlit("foreign");
    assert("same"@.len() == 4 && "foreign"@.len() == 7);
}

/// How symbols are compressed: a name wins over the wish not to.
pub proof fn law_symbol_compression(name: Seq<char>, no: bool)
    ensures
        symbol_compression(None, no) == if no {
            Some(CompressDebugSymbols::No)
        } else {
            None
        },
        symbol_compression(Some(name), no) is Some,
        symbol_compression(Some(name), no) == Some(CompressDebugSymbols::Zlib) <==> name == "zlib"@,
        symbol_compression(Some(name), no) == Some(CompressDebugSymbols::Zstd) <==> name == "zstd"@,
        symbol_compression(Some(name), no) != Some(CompressDebugSymbols::No),
{
    reveal_strlit("zlib");
    reveal_strlit("zstd");
    assert("zlib"@[1] != "zstd"@[1]);
}

/// Cargo passes the name of the command in front of the arguments: it is left out, once.
pub proof fn law_own_name(args: Seq<String>, first: String)
    ensures
        first@ == "deb"@ ==> without_deb(seq![first] + args) == args,
        first@ != "deb"@ ==> without_deb(seq![first] + args) == seq![first] + args,
        without_deb(Seq::empty()).len() == 0,
{
    assert((seq![first] + args).skip(1) =~= args);
}

/// A revision beside a version is warned of.
pub proof fn law_ignored_revision(version: Option<Seq<char>>, revision: Option<Seq<char>>)
    ensures
        revision_warning(version, revision).len() == 1 <==> version is Some && revision is Some
            && revision->0.len() > 0,
        revision_warning(version, revision).len() <= 1,
{
}

/// The stages of a run in their order. One is left out if nothing is to be built, or nothing to be
/// installed.
pub proof fn law_stages(no_build: bool, install: bool)
    ensures
        Stage::ReadManifest.following(true, install) == Stage::ResolveAssets,
        Stage::ReadManifest.following(false, install) == Stage::Build,
        Stage::Build.following(no_build, install) == Stage::ResolveAssets,
        Stage::ResolveAssets.following(no_build, install) == Stage::ResolveDependencies,
        Stage::ResolveDependencies.following(no_build, install) == Stage::Strip,
        Stage::Strip.following(no_build, install) == Stage::Split,
        Stage::Split.following(no_build, install) == Stage::Write,
        Stage::Write.following(no_build, install) == Stage::Announce,
        Stage::Announce.following(no_build, true) == Stage::Install,
        Stage::Announce.following(no_build, false) == Stage::Finished,
        Stage::Install.following(no_build, install) == Stage::Finished,
{
}

/// Packages are installed by `dpkg`, through `sudo` if needed; all of them, behind the options.
pub proof fn law_install(no_sudo: bool, paths: Seq<Seq<char>>)
    ensures
        ({
            let args = install_args(no_sudo, paths);
            let n = args.len() - paths.len();
            &&& args.skip(n) == paths
            &&& args[n - 1] == "--"@
            &&& args[n - 2] == "-i"@
            &&& no_sudo ==> install_program(no_sudo) == "dpkg"@ && n == 2
            &&& !no_sudo ==> install_program(no_sudo) == "sudo"@ && args[0] == "dpkg"@ && n == 3
        }),
{
    let args = install_args(no_sudo, paths);
    assert(args.skip(args.len() - paths.len()) =~= paths);
}

/// Every option of the command line reaches the request under its own name.
pub proof fn law_request(
    o: Arguments,
    r: CargoDeb,
    verbose: bool,
    target: Option<String>,
)
    requires
        o.is_request(r, verbose, target),
    ensures
        r.options.deb_output_path == o.output,
        r.options.manifest_path == o.manifest_path,
        r.options.selected_package_name == o.package,
        r.options.config_variant == o.variant,
        o.target is Some ==> r.options.rust_target_triple == o.target,
        o.target is None ==> r.options.rust_target_triple == target,
        r.options.overrides.deb_version == o.deb_version,
        r.options.overrides.deb_revision == o.deb_revision,
        r.options.overrides.maintainer == o.maintainer,
        r.options.overrides.section == o.section,
        r.options.overrides.features == o.features,
        r.options.overrides.all_features == o.all_features,
        r.options.overrides.no_default_features == o.no_default_features,
        r.options.build_profile.profile_name == o.profile,
        r.options.build_profile.override_debug == o.override_debug,
        r.options.build_profile.override_lto == o.override_lto,
        r.options.cargo_locking_flags.offline == o.offline,
        r.options.cargo_locking_flags.frozen == o.frozen,
        r.options.cargo_locking_flags.locked == o.locked,
        r.options.cargo_build_cmd == o.cargo_build,
        r.install == o.install,
        r.no_build == o.no_build,
        r.install_without_dbgsym == o.no_install_dbgsym,
        o.install || o.fast <==> r.compress_config.fast,
        r.compress_config.rsyncable == o.rsyncable,
        r.compress_config.compress_system == o.compress_system,
        r.verbose == verbose,
        r.verbose_cargo_build <==> o.verbose >= 2,
        o.strip ==> r.options.debug.strip_override == Some(true),
        o.no_strip && !o.strip ==> r.options.debug.strip_override == Some(false),
        o.dbgsym ==> r.options.debug.generate_dbgsym_package == Some(true),
        o.no_dbgsym && !o.dbgsym ==> r.options.debug.generate_dbgsym_package == Some(false),
        o.separate_debug_symbols ==> r.options.debug.separate_debug_symbols == Some(true),
        o.no_separate_debug_symbols && !o.separate_debug_symbols
            ==> r.options.debug.separate_debug_symbols == Some(false),
        !o.strip && !o.no_strip ==> r.options.debug.strip_override is None,
        !o.dbgsym && !o.no_dbgsym ==> r.options.debug.generate_dbgsym_package is None,
{
}

/// Symbols are separated if a package of them is asked for, unless that is forbidden; nothing else of
/// the request changes. A system other than Linux is warned of unless packages are made for another
/// target and not installed here.
pub proof fn law_prepared(r: CargoDeb, os: Seq<char>)
    ensures
        ({
            let after = r.prepared();
            let before = r.options.debug;
            &&& before.separate_debug_symbols is Some
                ==> after.options.debug.separate_debug_symbols == before.separate_debug_symbols
            &&& before.separate_debug_symbols is None ==> (
            after.options.debug.separate_debug_symbols == Some(true)
                <==> before.generate_dbgsym_package == Some(true))
            &&& before.separate_debug_symbols is None && before.generate_dbgsym_package != Some(true)
                ==> after == r
            &&& after.options.debug.generate_dbgsym_package == before.generate_dbgsym_package
            &&& after.options.debug.strip_override == before.strip_override
            &&& after.options.debug.compress_debug_symbols == before.compress_debug_symbols
            &&& after.options.overrides == r.options.overrides
            &&& after.options.rust_target_triple == r.options.rust_target_triple
            &&& after.install == r.install && after.no_build == r.no_build
            &&& after.compress_config == r.compress_config
        }),
        os == "linux"@ && r.options.build_profile.profile_name is None ==> r.first_warnings(os).len()
            == 0,
        os != "linux"@ && r.install ==> r.first_warnings(os).len() >= 1,
        os != "linux"@ && r.options.rust_target_triple is None ==> r.first_warnings(os).len() >= 1,
        os != "linux"@ && !r.install && r.options.rust_target_triple is Some
            && r.options.build_profile.profile_name is None ==> r.first_warnings(os).len() == 0,
        r.options.build_profile.profile_name matches Some(n) ==> (n@ == "dev"@ || n@ == "debug"@
            ==> r.first_warnings(os).len() >= 1),
{
    reveal_strlit("release");
    reveal_strlit("dev");
    reveal_strlit("debug");
    assert("release"@.len() == 7 && "dev"@.len() == 3 && "debug"@.len() == 5);
}

/// What is installed, if anything: the package, then its symbols unless they are not wanted.
pub proof fn law_installed(r: CargoDeb, deb: Seq<char>, ddeb: Seq<char>)
    ensures
        r.installed(deb, Some(ddeb)).contains(deb) || !r.install,
        !r.install ==> r.installed(deb, Some(ddeb)).len() == 0 && r.installed(deb, None).len() == 0,
        r.install && !r.install_without_dbgsym ==> r.installed(deb, Some(ddeb)) == seq![deb].push(
            ddeb,
        ),
        r.install && r.install_without_dbgsym ==> r.installed(deb, Some(ddeb)) == seq![deb],
        r.install ==> r.installed(deb, None) == seq![deb],
{
    assert(seq![deb].push(ddeb) =~= seq![deb, ddeb]);
    let all = r.installed(deb, Some(ddeb));
    if r.install {
        assert(all[0] == deb);
    }
}

/// The file of every version of a package has the pattern: it is the pattern with the version for the
/// star.
pub proof fn law_old_files(p: PackageConfig)
    requires
        !p.is_split_dbgsym_package,
    ensures
        ({
            let n = p.deb_name@.len() as int + 1;
            let name = deb_file_name(p);
            let pattern = p.old_files().0;
            &&& pattern[n] == '*'
            &&& pattern.take(n) == name.take(n)
            &&& pattern.skip(n + 1) == name.skip(n + p.deb_version@.len() as int)
            &&& name.subrange(n, n + p.deb_version@.len() as int) == p.deb_version@
            &&& p.old_files().1 == p.deb_name@ + "-dbgsym"@ + "_*_"@ + p.architecture@ + ".ddeb"@
        }),
{
    reveal_strlit("_");
    reveal_strlit("_*_");
    reveal_strlit("-dbgsym_*_");
    reveal_strlit("-dbgsym");
    let n = p.deb_name@.len() as int + 1;
    let name = deb_file_name(p);
    let pattern = p.old_files().0;
    assert(pattern.take(n) =~= name.take(n));
    assert(pattern.skip(n + 1) =~= name.skip(n + p.deb_version@.len() as int));
    assert(name.subrange(n, n + p.deb_version@.len() as int) =~= p.deb_version@);
    assert("-dbgsym"@ + "_*_"@ =~= "-dbgsym_*_"@);
    assert(p.deb_name@ + "-dbgsym"@ + "_*_"@ + p.architecture@ + ".ddeb"@ =~= p.deb_name@
        + "-dbgsym_*_"@ + p.architecture@ + ".ddeb"@);
}

// ---------------------------------------------------------------------------
// Messages
// ---------------------------------------------------------------------------
/// A prefix goes in front of the text, whatever the message, and changes nothing else.
pub proof fn law_prefix(prefix: Seq<char>, text: Seq<char>, operation: Seq<char>)
    ensures
        prefixed(prefix, MessageView::Warning(text)) == MessageView::Warning(prefix + text),
        prefixed(prefix, MessageView::Info(text)) == MessageView::Info(prefix + text),
        prefixed(prefix, MessageView::Progress(operation, text)) == MessageView::Progress(
            operation,
            prefix + text,
        ),
{
}

/// Warnings are shown unless silence is wanted; anything else only if much is to be shown.
pub proof fn law_shown(v: Verbosity, text: Seq<char>, operation: Seq<char>)
    ensures
        v.shown(MessageView::Warning(text)) <==> !v.quiet,
        v.shown(MessageView::Info(text)) <==> v.verbose,
        v.shown(MessageView::Progress(operation, text)) <==> v.verbose,
{
}

/// An aligned text is as wide as wanted, or as wide as it is, and ends with the text; in front of it
/// are spaces.
pub proof fn law_aligned(s: Seq<char>, width: nat)
    ensures
        right_aligned(s, width).len() == if s.len() < width {
            width
        } else {
            s.len()
        },
        right_aligned(s, width).skip(right_aligned(s, width).len() - s.len()) == s,
        forall|k: int|
            0 <= k < right_aligned(s, width).len() - s.len() ==> #[trigger] right_aligned(s, width)[k]
                == ' ',
{
    let r = right_aligned(s, width);
    assert(r.skip(r.len() - s.len()) =~= s);
}

/// A label in front of the text is not repeated.
pub proof fn law_label(label: Seq<char>, text: Seq<char>)
    ensures
        label_text(label, label + seq![':', ' '] + text) == trim_end(text),
        !has_prefix(text, label + seq![':', ' ']) ==> label_text(label, text) == trim_end(text),
{
    let prefix = label + seq![':', ' '];
    let all = prefix + text;
    assert(all.take(prefix.len() as int) =~= prefix);
    assert(all.skip(prefix.len() as int) =~= text);
}

/// The lines of a text below the first are indented.
pub proof fn law_lines_below(text: Seq<Seq<char>>, width: nat)
    requires
        text.len() > 0,
    ensures
        lines_below(text, width).len() == text.len() - 1,
        forall|k: int|
            0 <= k < text.len() - 1 ==> {
                let l = #[trigger] lines_below(text, width)[k];
                &&& l.len() == width + text[k + 1].len()
                &&& l.skip(width as int) == text[k + 1]
                &&& forall|i: int| 0 <= i < width ==> l[i] == ' '
            },
{
    assert forall|k: int| 0 <= k < text.len() - 1 implies {
        let l = #[trigger] lines_below(text, width)[k];
        &&& l.len() == width + text[k + 1].len()
        &&& l.skip(width as int) == text[k + 1]
        &&& forall|i: int| 0 <= i < width ==> l[i] == ' '
    } by {
        let l = lines_below(text, width)[k];
        assert(l == spaces(width) + text[k + 1]);
        assert(l.skip(width as int) =~= text[k + 1]);
    }
}

/// Notes are what is behind the message; empty ones are left out.
pub proof fn law_notes(pieces: Seq<Seq<char>>, piece: Seq<char>)
    ensures
        note_texts(Seq::empty()).len() == 0,
        note_texts(pieces.push(piece)) == if trim_start(piece).len() > 0 {
            note_texts(pieces).push(trim_start(piece))
        } else {
            note_texts(pieces)
        },
{
    assert(pieces.push(piece).drop_last() =~= pieces);
}

/// An error is shown first, then its causes, in their order, but not more than four.
pub proof fn law_report(message: Seq<char>, causes: Seq<Seq<char>>, cause: Seq<char>)
    ensures
        one_report(message, true)[0].label == "error"@,
        one_report(message, false)[0].label == "cause"@,
        one_report(message, true)[0].text == split_text(message, "\nnote: "@)[0],
        forall|k: int|
            1 <= k < one_report(message, true).len() ==> (#[trigger] one_report(
                message,
                true,
            )[k]).label == "note"@,
        full_report(message, Seq::empty()) == one_report(message, true),
        causes.len() < 4 ==> full_report(message, causes.push(cause)) == full_report(message, causes)
            + one_report(cause, false),
        causes.len() >= 4 ==> full_report(message, causes.push(cause)) == full_report(
            message,
            causes,
        ),
{
    let more = causes.push(cause);
    assert(more.drop_last() =~= causes);
    assert(full_report(message, Seq::empty()) =~= one_report(message, true));
    if causes.len() < 4 {
        assert(full_report(message, more) =~= full_report(message, causes) + one_report(
            cause,
            false,
        ));
    } else {
        assert(more.take(4) =~= causes.take(4));
        assert(causes.len() == 4 ==> causes.take(4) =~= causes);
    }
}

} // verus!
