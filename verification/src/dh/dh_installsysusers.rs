//! This module is a partial implementation of the Debian `DebHelper` command
//! for properly installing systemd sysusers files as part of a .deb package install aka
//! `dh_installsysusers`.
//!
//! Upstream only documents the "debian/$package.sysusers" spelling
//! but also accepts "debian/sysusers".
//!
//! # See also
//!
//! <https://manpages.debian.org/trixie/debhelper/dh_installsysusers.1.en.html>
//! <https://sources.debian.org/src/debhelper/13.24.2/dh_installsysusers>
use crate::assets::{source_path, Asset, AssetView};
use crate::dh::dh_installsystemd::{InstallRecipe, RecipeView};
use crate::dh::dh_lib::{replace, replaced};
use crate::error::{CDResult, CargoDebError, ErrorView};
use crate::listener::{say, Message, MessageView};
use crate::order::{sort_texts, sorted_texts};
use crate::paths::{file_name, file_name_of, join, path_join, path_starts_with, paths_equal, replace_extension, same_path, starts_with, with_extension};
use crate::text::{cat, cat3, ends_with, has_suffix, join_strings};
use vstd::prelude::*;
use vstd::string::StringExecFns;

verus! {

/// Where sysusers files are installed.
pub const SYSUSERS_D_DIR: &'static str = "usr/lib/sysusers.d/";

/// The file that was found, and how it is installed.
pub type ConfigFile = Option<(String, InstallRecipe)>;

// ---------------------------------------------------------------------------
// Finding the file
// ---------------------------------------------------------------------------
/// Whether a path is among those of files.
pub open spec fn is_file(files: Seq<Seq<char>>, path: Seq<char>) -> bool {
    exists|i: int| 0 <= i < files.len() && same_path(#[trigger] files[i], path)
}

fn has_file(files: &Vec<String>, path: &str) -> (r: bool)
    ensures
        r == is_file(files.deep_view(), path@),
{
    let ghost all = files.deep_view();
    let mut i: usize = 0;
    while i < files.len()
        invariant
            i <= files.len(),
            all == files.deep_view(),
            forall|k: int| 0 <= k < i ==> !same_path(#[trigger] all[k], path@),
        decreases files.len() - i,
    {
        assert(all[i as int] == files[i as int]@);
        if paths_equal(files[i].as_str(), path) {
            assert(same_path(all[i as int], path@));
            return true;
        }
        i += 1;
    }
    false
}

/// The sysusers file of a package: that with the name of the package, else that without a name.
pub open spec fn sysusers_file(dir: Seq<char>, package: Seq<char>, files: Seq<Seq<char>>) -> Option<
    Seq<char>,
> {
    let named = path_join(dir, package + ".sysusers"@);
    let plain = path_join(dir, "sysusers"@);
    if is_file(files, named) {
        Some(named)
    } else if is_file(files, plain) {
        Some(plain)
    } else {
        None
    }
}

/// Find installable systemd sysusers file for the specified debian package
/// in the given directory and return an install
/// recipe for each file detailing the path at which the file should be
/// installed and the mode (chmod) that the file should be given.
///
/// `files` are those that there are.
pub fn find_config(dir: &str, main_package: &str, files: &Vec<String>) -> (r: ConfigFile)
    ensures
        match sysusers_file(dir@, main_package@, files.deep_view()) {
            Some(source) => r is Some && (r->0).0@ == source && (r->0).1.deep_view() == (
            RecipeView {
                path: path_join(SYSUSERS_D_DIR@, main_package@ + ".conf"@),
                mode: 0o644,
            }),
            None => r is None,
        },
{
    let name = cat(main_package, ".sysusers");
    let named = join(dir, name.as_str());
    let plain = join(dir, "sysusers");
    let src_path = if has_file(files, named.as_str()) {
        named
    } else if has_file(files, plain.as_str()) {
        plain
    } else {
        return None;
    };
    let conf = cat(main_package, ".conf");
    Some(
        (src_path, InstallRecipe { path: join(SYSUSERS_D_DIR, conf.as_str()), mode: 0o644 }),
    )
}

// ---------------------------------------------------------------------------
// The script that creates the users
// ---------------------------------------------------------------------------
/// The name that a sysusers file is installed under; none if it is not a file with a name.
pub open spec fn conf_name(a: AssetView) -> Option<Seq<char>> {
    match source_path(a.source) {
        Some(p) => file_name(with_extension(p, "conf"@)),
        None => None,
    }
}

pub open spec fn is_sysusers_asset(a: AssetView) -> bool {
    path_starts_with(a.c.target_path, SYSUSERS_D_DIR@)
}

/// The names of the sysusers files, unless one has none.
pub open spec fn conf_names(assets: Seq<AssetView>) -> Option<Seq<Seq<char>>>
    decreases assets.len(),
{
    if assets.len() == 0 {
        Some(Seq::empty())
    } else {
        match conf_names(assets.drop_last()) {
            None => None,
            Some(before) => if is_sysusers_asset(assets.last()) {
                match conf_name(assets.last()) {
                    Some(n) => Some(before.push(n)),
                    None => None,
                }
            } else {
                Some(before)
            },
        }
    }
}

proof fn lemma_no_name(assets: Seq<AssetView>, i: int)
    requires
        0 <= i <= assets.len(),
        conf_names(assets.take(i)) is None,
    ensures
        conf_names(assets) is None,
    decreases assets.len(),
{
    if i == assets.len() {
        assert(assets.take(i) =~= assets);
    } else {
        assert(assets.drop_last().take(i) =~= assets.take(i));
        lemma_no_name(assets.drop_last(), i);
    }
}

/// A piece of a maintainer script.
#[derive(Debug)]
pub struct ScriptFragment {
    pub name: String,
    pub text: String,
}

/// The text of a piece of a maintainer script, between lines that say where it comes from.
pub open spec fn fragment_text(template: Seq<char>, names: Seq<char>, tool: Seq<char>) -> Seq<char> {
    let text = replaced(template, "#CONFILE_BASENAME#"@, names);
    "# Automatically added by "@ + tool + "\n"@ + text + (if has_suffix(text, "\n"@) {
        Seq::empty()
    } else {
        "\n"@
    }) + "# End automatically added section\n"@
}

/// The piece of the script that runs after the package is installed which creates the users of its
/// sysusers files; none if there are none. `template` has a placeholder for their names.
pub fn generate(
    package: &str,
    assets: &Vec<Asset>,
    template: &str,
    tool: &str,
    log: &mut Vec<Message>,
) -> (r: CDResult<Option<ScriptFragment>>)
    ensures
        match conf_names(assets.deep_view()) {
            None => {
                &&& r is Err && r->Err_0.deep_view() == ErrorView::Str(
                    "dh_installsysusers: invalid source path"@,
                )
                &&& final(log).deep_view() == old(log).deep_view()
            },
            Some(names) => if names.len() == 0 {
                &&& r == Ok::<Option<ScriptFragment>, CargoDebError>(None)
                &&& final(log).deep_view() == old(log).deep_view()
            } else {
                &&& r is Ok && r->Ok_0 is Some
                &&& (r->Ok_0->0).name@ == package@ + ".postinst.debhelper"@
                &&& (r->Ok_0->0).text@ == fragment_text(
                    template@,
                    crate::text::join(sorted_texts(names), " "@),
                    tool@,
                )
                &&& final(log).deep_view() == old(log).deep_view().push(
                    MessageView::Progress(
                        "Augmenting"@,
                        "maintainer script postinst with autoscript postinst-sysusers"@,
                    ),
                )
            },
        },
{
    let ghost all = assets.deep_view();
    let mut names: Vec<String> = Vec::new();
    let mut i: usize = 0;
    assert(all.take(0) =~= Seq::<AssetView>::empty());
    assert(names.deep_view() =~= Seq::<Seq<char>>::empty());
    while i < assets.len()
        invariant
            i <= assets.len(),
            all == assets.deep_view(),
            *log == *old(log),
            conf_names(all.take(i as int)) == Some(names.deep_view()),
        decreases assets.len() - i,
    {
        let ghost before = names.deep_view();
        proof {
            assert(all.take(i + 1).drop_last() =~= all.take(i as int));
            assert(all.take(i + 1).last() == assets[i as int].deep_view());
        }
        if starts_with(assets[i].c.target_path.as_str(), SYSUSERS_D_DIR) {
            let name = match assets[i].source.path() {
                Some(p) => {
                    let conf = replace_extension(p.as_str(), "conf");
                    file_name_of(conf.as_str())
                },
                None => None,
            };
            match name {
                Some(n) => {
                    let ghost nv = n@;
                    names.push(n);
                    assert(names.deep_view() =~= before.push(nv));
                },
                None => {
                    proof {
                        lemma_no_name(all, i + 1);
                    }
                    return Err(CargoDebError::Str("dh_installsysusers: invalid source path"));
                },
            }
        }
        i += 1;
    }
    assert(all.take(i as int) =~= all);
    if names.len() == 0 {
        return Ok(None);
    }
    let sorted = sort_texts(names);
    let joined = join_strings(&sorted, " ");
    proof {
        reveal_strlit("#CONFILE_BASENAME#");
    }
    let text = replace(template, "#CONFILE_BASENAME#", joined.as_str());
    let mut out = cat3("# Automatically added by ", tool, "\n");
    out.append(text.as_str());
    let ghost o = out@;
    if !ends_with(text.as_str(), "\n") {
        out.append("\n");
    } else {
        assert(o + Seq::<char>::empty() =~= o);
    }
    out.append("# End automatically added section\n");
    say(
        log,
        Message::Progress(
            "Augmenting".to_owned(),
            "maintainer script postinst with autoscript postinst-sysusers".to_owned(),
        ),
    );
    Ok(Some(ScriptFragment { name: cat(package, ".postinst.debhelper"), text: out }))
}

} // verus!
