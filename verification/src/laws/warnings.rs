//! When the user is warned, and of what.
use crate::assets::RawAssetView;
use crate::config::debug::{flag_warning, wish_warning, Wishes};
use crate::config::depends::{all_messages, arch_query, auto_messages, word_messages, ArchAnswerView, AutoDependsView};
use crate::config::generated::{unit_messages, FoundUnitsView};
use crate::config::package::{description_messages, extended_messages, license_messages, CargoPackage};
use crate::config::project::{profile_settings, profile_warning, symbols_override, variant_warning, ManifestFound};
use crate::config::{BuildEnvironment, PackageConfig};
use crate::deb::writing::size_message;
use crate::listener::MessageView;
use crate::parse::manifest::{selected_profile, CargoDeb, CompressDebugSymbols, ManifestDebugFlags, SystemdUnitsConfig};
use crate::paths::{extension, path_starts_with};
use crate::process::{dev_warning, system_warning};
use crate::text::{contains_text, decimal, has_prefix, occurs_at};
use vstd::prelude::*;

verus! {

/// A text that holds another one between two parts.
proof fn lemma_held(a: Seq<char>, b: Seq<char>, c: Seq<char>)
    ensures
        contains_text(a + b + c, b),
{
    let s = a + b + c;
    assert(s.subrange(a.len() as int, (a.len() + b.len()) as int) =~= b);
    assert(occurs_at(s, b, a.len() as int));
}

/// A crate without a license is told of: as something to know if it is not published, as a warning if
/// it is.
pub proof fn law_license_warning(pkg: CargoPackage, file: Option<Seq<char>>)
    ensures
        license_messages(pkg, file).len() == (if pkg.license is None && file is None {
            1int
        } else {
            0
        }),
        pkg.license is None && file is None ==> (license_messages(pkg, file)[0] is Warning
            <==> pkg.publish),
        pkg.license is None && file is None && !pkg.publish ==> license_messages(pkg, file)[0]
            is Info,
        description_messages(pkg).len() == 1 <==> pkg.description is None,
        description_messages(pkg).len() == 0 <==> pkg.description is Some,
{
}

/// Two long descriptions are warned of. A readme in markdown that takes the place of one is told of.
pub proof fn law_description_warning(deb: CargoDeb, pkg: CargoPackage)
    ensures
        deb.extended_description is Some && deb.extended_description_file is Some
            ==> extended_messages(deb, pkg).len() == 1 && extended_messages(deb, pkg)[0] is Warning,
        deb.extended_description is Some != deb.extended_description_file is Some
            ==> extended_messages(deb, pkg).len() == 0,
        deb.extended_description is None && deb.extended_description_file is None ==> (
        extended_messages(deb, pkg).len() == 1 <==> (pkg.readme matches Some(r) && (extension(r@)
            == Some("md"@) || extension(r@) == Some("markdown"@)))),
        deb.extended_description is None && deb.extended_description_file is None && extended_messages(
            deb,
            pkg,
        ).len() > 0 ==> extended_messages(deb, pkg)[0] is Info,
{
}

/// Assets of a variant that merge into nothing are warned of.
pub proof fn law_variant_warning(deb: CargoDeb, variant: Seq<char>, i: int)
    requires
        crate::config::project::variant_place(deb, variant) == Some(i),
    ensures
        ({
            let own = deb.variants->0@[i].config;
            variant_warning(deb, Some(variant)).len() == 1 <==> own.merge_assets is Some && own.assets
                is None && deb.assets is None
        }),
        variant_warning(deb, None).len() == 0,
{
}

/// Settings of a profile in the package that those of the workspace hide are warned of.
pub proof fn law_profile_warning(found: ManifestFound, name: Seq<char>)
    ensures
        profile_warning(found, name).len() == 1 <==> found.root_profiles is Some && selected_profile(
            found.root_profiles->0,
            name,
        ) is Some && selected_profile(found.profiles, name) is Some,
        profile_warning(found, name).len() <= 1,
        found.root_profiles is None || selected_profile(found.root_profiles->0, name) is None
            ==> profile_settings(found, name) == selected_profile(found.profiles, name),
{
}

/// Symbols that are to be separated need some: without a word on them, the lines of the code are kept.
pub proof fn law_symbols_for_separation(asked: Option<Seq<char>>, w: Wishes, flags: ManifestDebugFlags)
    ensures
        asked is Some ==> symbols_override(asked, w, flags) == asked,
        asked is None && (w.dbgsym || w.wants_separate) && flags == ManifestDebugFlags::Default
            ==> symbols_override(asked, w, flags) == Some("line-tables-only"@),
        asked is None && !((w.dbgsym || w.wants_separate) && flags == ManifestDebugFlags::Default)
            ==> symbols_override(asked, w, flags) is None,
{
}

/// Wishes that contradict each other are warned of.
pub proof fn law_wish_warning(w: Wishes, strip: Option<bool>)
    ensures
        ({
            let separate = w.dbgsym || w.wants_separate;
            wish_warning(w, strip).len() == 1 <==> (strip == Some(false) && separate) || (w.dbgsym
                && !w.wants_separate) || (!separate && w.compress != CompressDebugSymbols::No)
        }),
        wish_warning(w, strip).len() <= 1,
{
}

/// What the profile does to symbols is warned of where it gets in the way of what is wanted.
pub proof fn law_flag_warning(w: Wishes, flags: ManifestDebugFlags, profile: Seq<char>)
    ensures
        ({
            let separate = w.dbgsym || w.wants_separate;
            flag_warning(w, flags, profile).len() == (match flags {
                ManifestDebugFlags::SomeSymbolsAdded => 0int,
                ManifestDebugFlags::FullSymbolsAdded => if separate {
                    0
                } else {
                    1
                },
                ManifestDebugFlags::Default => if separate {
                    1
                } else {
                    0
                },
                ManifestDebugFlags::FullyStrippedByCargo => if separate || w.compress
                    != CompressDebugSymbols::No {
                    1
                } else {
                    0
                },
                ManifestDebugFlags::SymbolsDisabled => if separate {
                    1
                } else {
                    0
                },
                ManifestDebugFlags::SymbolsPackedExternally => 1,
            })
        }),
{
}

/// Every binary whose libraries cannot be found is warned of, with the reason, and no other one.
pub proof fn law_library_warnings(
    paths: Seq<Seq<char>>,
    found: Seq<AutoDependsView>,
    path: Seq<char>,
    deps: Seq<Seq<char>>,
    reason: Seq<char>,
)
    requires
        paths.len() == found.len(),
    ensures
        auto_messages(Seq::empty(), Seq::empty()).len() == 0,
        auto_messages(paths.push(path), found.push(AutoDependsView::Found(deps))) == auto_messages(
            paths,
            found,
        ),
        auto_messages(paths.push(path), found.push(AutoDependsView::Failed(reason)))
            == auto_messages(paths, found).push(
            MessageView::Warning(reason + "\nNo $auto deps for "@ + path),
        ),
{
    assert(paths.push(path).drop_last() =~= paths);
    assert(found.push(AutoDependsView::Found(deps)).drop_last() =~= found);
    assert(found.push(AutoDependsView::Failed(reason)).drop_last() =~= found);
    let m = MessageView::Warning(reason + "\nNo $auto deps for "@ + path);
    assert(auto_messages(paths, found) + seq![m] =~= auto_messages(paths, found).push(m));
}

/// What is said on each word of a list of dependencies follows what is said on those before it.
pub proof fn law_word_messages(
    words: Seq<Seq<char>>,
    paths: Seq<Seq<char>>,
    found: Seq<AutoDependsView>,
    answers: Seq<Option<ArchAnswerView>>,
    word: Seq<char>,
    answer: Option<ArchAnswerView>,
)
    requires
        words.len() == answers.len(),
    ensures
        all_messages(Seq::empty(), paths, found, Seq::empty()).len() == 0,
        all_messages(words.push(word), paths, found, answers.push(answer)) == all_messages(
            words,
            paths,
            found,
            answers,
        ) + word_messages(word, paths, found, answer),
        word_messages("$auto"@, paths, found, answer) == auto_messages(paths, found),
        word_messages(word, paths, found, None).len() > 0 ==> word == "$auto"@,
        arch_query("$auto"@, paths[0]) is None,
{
    assert(words.push(word).drop_last() =~= words);
    assert(answers.push(answer).drop_last() =~= answers);
}

/// Both names of a package having files for services is warned of, and so is taking those for the name
/// of the crate.
pub proof fn law_unit_warning(p: PackageConfig, config: SystemdUnitsConfig, found: FoundUnitsView)
    ensures
        p.deb_name@ == p.cargo_crate_name@ ==> unit_messages(p, config, found).len() == 0,
        found.fallback.len() == 0 ==> unit_messages(p, config, found).len() == 0,
        p.deb_name@ != p.cargo_crate_name@ && found.fallback.len() != found.units.len()
            && found.fallback.len() > 0 ==> unit_messages(p, config, found).len() == 1,
{
}

/// A source path that looks like one of the build, but is none, is warned of.
pub proof fn law_source_warning(config: BuildEnvironment, raw: RawAssetView)
    ensures
        ({
            let s = raw.source_path;
            let said = config.explicit_warning(raw);
            &&& said.len() <= 1
            &&& said.len() == 1 ==> contains_text(s, "/target/"@) && (has_prefix(s, "/"@)
                || has_prefix(s, "."@)) && !path_starts_with(s, "target/release"@)
            &&& config.build_profile.profile_name is None && contains_text(s, "/target/"@) && (
            has_prefix(s, "/"@) || has_prefix(s, "."@)) && !path_starts_with(s, "target/release"@)
                ==> said.len() == 1
        }),
{
    if path_starts_with(raw.source_path, "target/release"@) {
        crate::path_parts::law_strip_prefix(raw.source_path, "target/release"@);
    }
}

/// The profile for development is warned of, and a system other than Linux.
pub proof fn law_setting_warnings(profile: Seq<char>, wanted: bool, os: Seq<char>)
    ensures
        dev_warning(profile).len() == 1 <==> profile == "dev"@ || profile == "debug"@,
        dev_warning(profile).len() <= 1,
        system_warning(wanted, os).len() == 1 <==> wanted && os != "linux"@,
        system_warning(wanted, os).len() <= 1,
        wanted && os != "linux"@ ==> (system_warning(wanted, os)[0] matches MessageView::Warning(t)
            && contains_text(t, os)),
{
    lemma_held(
        "You're creating a package only for "@,
        os,
        ", and not for Linux.\nUse --target if you want to cross-compile."@,
    );
}

/// What is said on compressing holds the size of the files before it, and that of both archives after
/// it, in thousands of bytes.
pub proof fn law_size_message(original: nat, control: nat, data: nat)
    requires
        original + control > 0,
    ensures
        ({
            let saved = if data <= original {
                (original - data) * 100 / (original + control) as int
            } else {
                0int
            };
            size_message(original, control, data) == MessageView::Progress(
                "Compressed"@,
                decimal(original / 1000) + "KB to "@ + decimal((data + control) / 1000) + "KB (by "@
                    + decimal(saved as nat) + "%)"@,
            )
        }),
{
}

} // verus!
