//! The files of a package that are made for it, and all of its files together.
use crate::arch::debian_triple;
use crate::assets::{clone_bytes, new_asset, processed_asset, target_is_known, Asset, AssetKind, AssetSource, AssetView, IsBuilt, RawAssetOrAuto, RawAssetOrAutoView, RawAssetView, ReadResult, SourceView, UnresolvedView};
use crate::compress::{gz_decoded, gz_stream, gzipped};
use crate::config::content::{has_auto, raw_assets};
use crate::config::control::{copyright_head, copyright_is_incomplete, TextResult};
use crate::config::rules::{has_copyright_metadata, is_copyright_file};
use crate::config::{BuildEnvironment, Multiarch, PackageConfig};
use crate::dh::dh_installsystemd::{same_units, units_equal, UnitFile, UnitView};
use crate::error::{CDResult, CargoDebError, CauseView, ErrorView};
use crate::listener::{say, warn, Message, MessageView};
use crate::parse::manifest::{first_of, SystemdUnitsConfig};
use crate::paths::{extension, extension_of, join, path_join, path_starts_with, paths_equal, same_path, starts_with};
use crate::text::{cat3, cat5, lines, lines_of, same};
use vstd::prelude::*;
use vstd::string::StringExecFns;

verus! {

/// A file in the directory of documentation of a package.
pub open spec fn doc_path(p: PackageConfig, name: Seq<char>) -> Seq<char> {
    path_join(path_join("usr/share/doc"@, p.deb_name@), name)
}

fn doc_path_of(package_deb: &PackageConfig, name: &str) -> (r: String)
    requires
        name@.len() > 0,
        name@[0] != '/',
    ensures
        r@ == doc_path(*package_deb, name@),
        r@.len() > 0 && r@.last() == name@.last(),
{
    let dir = join("usr/share/doc", package_deb.deb_name.as_str());
    join(dir.as_str(), name)
}

/// A file that is made.
pub open spec fn generated_asset(data: Seq<u8>, target: Seq<char>, from: Seq<char>) -> AssetView {
    processed_asset(
        new_asset(SourceView::Data(data), target, Some(0o644), IsBuilt::No, AssetKind::Any),
        "generated"@,
        Some(from),
    )
}

fn push_asset(assets: &mut Vec<Asset>, asset: Asset)
    ensures
        final(assets).deep_view() == old(assets).deep_view().push(asset.deep_view()),
{
    let ghost before = assets.deep_view();
    let ghost a = asset.deep_view();
    assets.push(asset);
    assert(assets.deep_view() =~= before.push(a));
}

// ---------------------------------------------------------------------------
// The copyright file
// ---------------------------------------------------------------------------
/// The lines of a license in a copyright file: a line of one space becomes a dot.
pub open spec fn license_lines(ls: Seq<Seq<char>>) -> Seq<char>
    decreases ls.len(),
{
    if ls.len() == 0 {
        Seq::empty()
    } else {
        license_lines(ls.drop_last()) + (if ls.last() == " "@ {
            " .\n"@
        } else {
            ls.last() + "\n"@
        })
    }
}

/// The lines behind the first `n`.
pub open spec fn lines_behind(ls: Seq<Seq<char>>, n: int) -> Seq<Seq<char>> {
    if n < ls.len() {
        ls.skip(n)
    } else {
        Seq::empty()
    }
}

fn push_license_lines(out: &mut String, ls: &Vec<String>, skip: usize)
    ensures
        final(out)@ == old(out)@ + license_lines(lines_behind(ls.deep_view(), skip as int)),
{
    let ghost all = lines_behind(ls.deep_view(), skip as int);
    let ghost before = out@;
    let mut i: usize = skip;
    assert(all.take(0) =~= Seq::<Seq<char>>::empty());
    assert(out@ =~= before + Seq::<char>::empty());
    if skip >= ls.len() {
        assert(all =~= Seq::<Seq<char>>::empty());
        return;
    }
    while i < ls.len()
        invariant
            skip <= i <= ls.len(),
            skip < ls.len(),
            all == ls.deep_view().skip(skip as int),
            out@ == before + license_lines(all.take(i - skip)),
        decreases ls.len() - i,
    {
        proof {
            assert(all.take(i - skip + 1).drop_last() =~= all.take(i - skip));
            assert(all.take(i - skip + 1).last() == ls[i as int]@);
        }
        if same(ls[i].as_str(), " ") {
            out.append(" .\n");
        } else {
            out.append(ls[i].as_str());
            out.append("\n");
        }
        assert(out@ =~= before + license_lines(all.take(i - skip + 1)));
        i += 1;
    }
    assert(all.take(i - skip) =~= all);
}

/// The text of the copyright file, where it comes from, and whether it lacks something.
pub struct CopyrightView {
    pub source: Seq<char>,
    pub text: Seq<char>,
    pub incomplete: bool,
}

impl BuildEnvironment {
    /// The copyright file: the license file, below a head if it has none; else the head alone.
    pub open spec fn copyright_file(self, p: PackageConfig, license: TextResult) -> Result<
        CopyrightView,
        ErrorView,
    > {
        match p.license_file_rel_path {
            Some(path) => match license {
                TextResult::Text(t) => {
                    let has_head = is_copyright_file(t@);
                    Ok(
                        CopyrightView {
                            source: path_join(self.package_manifest_dir@, path@),
                            text: (if has_head {
                                Seq::empty()
                            } else {
                                copyright_head(p, true)
                            }) + license_lines(
                                lines_behind(lines(t@), p.license_file_skip_lines as int),
                            ),
                            incomplete: !has_head && copyright_is_incomplete(p),
                        },
                    )
                },
                TextResult::Failed(e) => Err(
                    ErrorView::IoFile("unable to read license file"@, e.deep_view(), path@),
                ),
            },
            None => Ok(
                CopyrightView {
                    source: "Cargo.toml"@,
                    text: copyright_head(p, false),
                    incomplete: copyright_is_incomplete(p),
                },
            ),
        }
    }

    /// Generates the copyright file from the license file and adds that to the tar archive.
    pub fn generate_copyright_asset(&self, package_deb: &PackageConfig, license: &TextResult) -> (r:
        CDResult<(String, (String, bool))>)
        ensures
            match self.copyright_file(*package_deb, *license) {
                Ok(c) => r is Ok && (r->Ok_0).0@ == c.source && (r->Ok_0).1.0@ == c.text
                    && (r->Ok_0).1.1 == c.incomplete,
                Err(e) => r is Err && r->Err_0.deep_view() == e,
            },
    {
        match &package_deb.license_file_rel_path {
            Some(path) => {
                let source_path = self.path_in_package(path.as_str());
                let license_string = match license {
                    TextResult::Text(t) => t,
                    TextResult::Failed(e) => {
                        return Err(
                            CargoDebError::IoFile(
                                "unable to read license file",
                                e.clone(),
                                path.clone(),
                            ),
                        );
                    },
                };
                let (mut copyright, incomplete) = if has_copyright_metadata(license_string.as_str()) {
                    (String::new(), false)
                } else {
                    package_deb.write_copyright_metadata(true)
                };
                let ghost head = copyright@;
                assert(is_copyright_file(license_string@) ==> head =~= Seq::<char>::empty());
                let ls = lines_of(license_string.as_str());
                push_license_lines(&mut copyright, &ls, package_deb.license_file_skip_lines);
                Ok((source_path, (copyright, incomplete)))
            },
            None => Ok(
                ("Cargo.toml".to_owned(), package_deb.write_copyright_metadata(false)),
            ),
        }
    }
}

pub open spec fn incomplete_warning() -> Seq<char> {
    "Debian requires copyright information, but the Cargo package doesn't have it.\nUse --maintainer flag to skip this warning.\nOtherwise, edit Cargo.toml to add `[package] authors = [\"...\"]`, or \n`[package.metadata.deb] copyright = \"\u{a9} copyright owner's name\"`.\nIf the package is proprietary, add `[package] license = \"UNLICENSED\"` or `publish = false`.\nYou can also specify `license-file = \"path\"` to a Debian-formatted `copyright` file."@
}

fn incomplete_warning_text() -> (r: String)
    ensures
        r@ == incomplete_warning(),
{
    "Debian requires copyright information, but the Cargo package doesn't have it.\nUse --maintainer flag to skip this warning.\nOtherwise, edit Cargo.toml to add `[package] authors = [\"...\"]`, or \n`[package.metadata.deb] copyright = \"\u{a9} copyright owner's name\"`.\nIf the package is proprietary, add `[package] license = \"UNLICENSED\"` or `publish = false`.\nYou can also specify `license-file = \"path\"` to a Debian-formatted `copyright` file.".to_owned()
}

/// The target paths of all files, those that have been looked up first.
pub open spec fn all_targets(p: PackageConfig) -> Seq<Seq<char>> {
    p.assets.resolved.deep_view().map_values(|a: AssetView| a.c.target_path)
        + p.assets.unresolved.deep_view().map_values(|a: UnresolvedView| a.c.target_path)
}

/// Whether one of the paths is the same as another.
pub open spec fn has_path(paths: Seq<Seq<char>>, path: Seq<char>) -> bool {
    exists|i: int| 0 <= i < paths.len() && same_path(#[trigger] paths[i], path)
}

fn all_targets_of(package_deb: &PackageConfig) -> (r: Vec<&String>)
    ensures
        r.deep_view() == all_targets(*package_deb),
{
    let ghost all = all_targets(*package_deb);
    let resolved = &package_deb.assets.resolved;
    let unresolved = &package_deb.assets.unresolved;
    let mut out: Vec<&String> = Vec::new();
    let mut i: usize = 0;
    assert(out.deep_view() =~= all.take(0));
    while i < resolved.len()
        invariant
            i <= resolved.len(),
            resolved == &package_deb.assets.resolved,
            all == all_targets(*package_deb),
            out.deep_view() == all.take(i as int),
        decreases resolved.len() - i,
    {
        let ghost before = out.deep_view();
        let path = &resolved[i].c.target_path;
        out.push(path);
        proof {
            assert(resolved.deep_view()[i as int] == resolved[i as int].deep_view());
            assert(all[i as int] == path@);
            assert(out.deep_view() =~= before.push(path@));
            assert(all.take(i + 1) =~= all.take(i as int).push(path@));
        }
        i += 1;
    }
    let mut j: usize = 0;
    while j < unresolved.len()
        invariant
            j <= unresolved.len(),
            resolved == &package_deb.assets.resolved,
            unresolved == &package_deb.assets.unresolved,
            all == all_targets(*package_deb),
            out.deep_view() == all.take(resolved.len() + j),
        decreases unresolved.len() - j,
    {
        let ghost before = out.deep_view();
        let path = &unresolved[j].c.target_path;
        out.push(path);
        proof {
            let k = resolved.len() + j;
            assert(unresolved.deep_view()[j as int] == unresolved[j as int].deep_view());
            assert(all[k] == path@);
            assert(out.deep_view() =~= before.push(path@));
            assert(all.take(k + 1) =~= all.take(k).push(path@));
        }
        j += 1;
    }
    assert(all.take(resolved.len() + unresolved.len()) =~= all);
    out
}

fn has_path_in(paths: &Vec<&String>, path: &str) -> (r: bool)
    ensures
        r == has_path(paths.deep_view(), path@),
{
    let ghost all = paths.deep_view();
    let mut i: usize = 0;
    while i < paths.len()
        invariant
            i <= paths.len(),
            all == paths.deep_view(),
            forall|k: int| 0 <= k < i ==> !same_path(#[trigger] all[k], path@),
        decreases paths.len() - i,
    {
        assert(all[i as int] == paths[i as int]@);
        if paths_equal(paths[i].as_str(), path) {
            assert(same_path(all[i as int], path@));
            return true;
        }
        i += 1;
    }
    false
}

/// What adding a file gave: the files that were added, what is said of it, and the error if there was
/// one.
pub struct Added {
    pub assets: Seq<AssetView>,
    pub messages: Seq<MessageView>,
    pub error: Option<ErrorView>,
}

impl BuildEnvironment {
    /// The copyright file is added unless there is one already.
    pub open spec fn copyright_added(
        self,
        p: PackageConfig,
        targets: Seq<Seq<char>>,
        license: TextResult,
    ) -> Added {
        let path = doc_path(p, "copyright"@);
        if has_path(targets, path) {
            Added {
                assets: Seq::empty(),
                messages: seq![
                    MessageView::Info(
                        "Not generating a default copyright, because asset for "@ + path
                            + " exists"@,
                    ),
                ],
                error: None,
            }
        } else {
            match self.copyright_file(p, license) {
                Ok(c) => Added {
                    assets: seq![
                        generated_asset(vstd::utf8::encode_utf8(c.text), path, c.source),
                    ],
                    messages: if c.incomplete {
                        seq![MessageView::Warning(incomplete_warning())]
                    } else {
                        Seq::empty()
                    },
                    error: None,
                },
                Err(e) => Added { assets: Seq::empty(), messages: Seq::empty(), error: Some(e) },
            }
        }
    }

    pub fn add_copyright_asset(
        &self,
        package_deb: &mut PackageConfig,
        license: &TextResult,
        log: &mut Vec<Message>,
    ) -> (r: CDResult<()>)
        ensures
            *final(package_deb) == (PackageConfig {
                assets: final(package_deb).assets,
                ..*old(package_deb)
            }),
            final(package_deb).assets.unresolved == old(package_deb).assets.unresolved,
            ({
                let added = self.copyright_added(
                    *old(package_deb),
                    all_targets(*old(package_deb)),
                    *license,
                );
                &&& final(package_deb).assets.resolved.deep_view() == old(package_deb).assets.resolved.deep_view() + added.assets
                &&& final(log).deep_view() == old(log).deep_view() + added.messages
                &&& r is Ok <==> added.error is None
                &&& r is Err ==> added.error == Some(r->Err_0.deep_view())
            }),
    {
        let ghost assets0 = package_deb.assets.resolved.deep_view();
        let ghost log0 = log.deep_view();
        proof {
            reveal_strlit("copyright");
            assert(assets0 + Seq::<AssetView>::empty() =~= assets0);
            assert(log0 + Seq::<MessageView>::empty() =~= log0);
        }
        let destination_path = doc_path_of(package_deb, "copyright");
        let targets = all_targets_of(package_deb);
        if has_path_in(&targets, destination_path.as_str()) {
            say(
                log,
                Message::Info(
                    cat3(
                        "Not generating a default copyright, because asset for ",
                        destination_path.as_str(),
                        " exists",
                    ),
                ),
            );
            return Ok(());
        }
        let (source_path, (copyright_file, incomplete)) = self.generate_copyright_asset(
            package_deb,
            license,
        )?;
        if incomplete {
            warn(log, incomplete_warning_text());
        }
        let data = bytes_of(copyright_file.as_str());
        let asset = Asset::new(
            AssetSource::Data(data),
            destination_path,
            Some(0o644),
            IsBuilt::No,
            AssetKind::Any,
        ).processed("generated", Some(source_path));
        push_asset(&mut package_deb.assets.resolved, asset);
        Ok(())
    }
}

/// The bytes of a text.
pub(crate) fn bytes_of(s: &str) -> (r: Vec<u8>)
    ensures
        r@ == vstd::utf8::encode_utf8(s@),
{
    let b = s.as_bytes();
    let mut out: Vec<u8> = Vec::new();
    let mut i: usize = 0;
    while i < b.len()
        invariant
            i <= b.len(),
            out@ == b@.take(i as int),
        decreases b.len() - i,
    {
        out.push(b[i]);
        assert(out@ =~= b@.take(i + 1));
        i += 1;
    }
    assert(b@.take(i as int) =~= b@);
    out
}

// ---------------------------------------------------------------------------
// The changelog
// ---------------------------------------------------------------------------
impl BuildEnvironment {
    pub open spec fn changelog_path(self, changelog: Seq<char>) -> Seq<char> {
        path_join(self.package_manifest_dir@, changelog)
    }

    /// The content of the changelog file of a package. One that is compressed already is taken as it
    /// is.
    pub open spec fn changelog_data(self, changelog: Seq<char>, content: Seq<u8>) -> Seq<u8> {
        if extension(self.changelog_path(changelog)) == Some("gz"@) {
            content
        } else {
            gz_stream(9, seq![Some(content)])
        }
    }

    /// The data is that of a changelog: as it is, or a gzip stream out of which it is read.
    pub open spec fn holds_changelog(
        self,
        data: Seq<u8>,
        changelog: Seq<char>,
        content: Seq<u8>,
    ) -> bool {
        if extension(self.changelog_path(changelog)) == Some("gz"@) {
            data == content
        } else {
            gz_decoded(data) == Some(content)
        }
    }

    /// The error for a changelog that cannot be read.
    pub open spec fn changelog_error(self, changelog: Seq<char>, e: CauseView) -> ErrorView {
        ErrorView::IoFile("unable to read changelog file"@, e, self.changelog_path(changelog))
    }

    /// Generates compressed changelog file.
    pub fn generate_changelog_asset(&self, package_deb: &PackageConfig, read: &ReadResult) -> (r:
        CDResult<Option<(String, Vec<u8>)>>)
        ensures
            package_deb.changelog is None ==> r == Ok::<Option<(String, Vec<u8>)>, CargoDebError>(
                None,
            ),
            package_deb.changelog matches Some(c) ==> {
                let path = self.changelog_path(c@);
                match read.content() {
                    Some(content) => r matches Ok(Some(found)) && found.0@ == path && found.1@
                        == self.changelog_data(c@, content) && self.holds_changelog(
                        found.1@,
                        c@,
                        content,
                    ),
                    None => r matches Err(e) && e.deep_view() == self.changelog_error(
                        c@,
                        read.error(),
                    ),
                }
            },
    {
        let path = match &package_deb.changelog {
            Some(path) => path,
            None => {
                return Ok(None);
            },
        };
        let source_path = self.path_in_package(path.as_str());
        let content = match read {
            ReadResult::Content(d) => d,
            ReadResult::Failed(e) => {
                return Err(
                    CargoDebError::IoFile("unable to read changelog file", e.clone(), source_path),
                );
            },
        };
        // allow pre-compressed
        let compressed = match extension_of(source_path.as_str()) {
            Some(e) => same(e.as_str(), "gz"),
            None => false,
        };
        if compressed {
            return Ok(Some((source_path, clone_bytes(content))));
        }
        // The input is plaintext, but the debian package should contain gzipped one.
        match gzipped(content.as_slice()) {
            Ok(data) => Ok(Some((source_path, data))),
            Err(CargoDebError::Io(e)) => Err(
                CargoDebError::IoFile("unable to read changelog file", e, source_path),
            ),
            Err(e) => Err(e),
        }
    }

    pub fn add_changelog_asset(&self, package_deb: &mut PackageConfig, read: &ReadResult) -> (r: CDResult<
        (),
    >)
        ensures
            *final(package_deb) == (PackageConfig {
                assets: final(package_deb).assets,
                ..*old(package_deb)
            }),
            final(package_deb).assets.unresolved == old(package_deb).assets.unresolved,
            r is Err ==> final(package_deb).assets.resolved == old(package_deb).assets.resolved,
            old(package_deb).changelog is None ==> r is Ok && final(package_deb).assets.resolved
                == old(package_deb).assets.resolved,
            old(package_deb).changelog matches Some(c) ==> {
                match read.content() {
                    Some(content) => r is Ok && final(package_deb).assets.resolved.deep_view()
                        == old(package_deb).assets.resolved.deep_view().push(
                        generated_asset(
                            self.changelog_data(c@, content),
                            doc_path(*old(package_deb), "changelog.Debian.gz"@),
                            self.changelog_path(c@),
                        ),
                    ) && self.holds_changelog(self.changelog_data(c@, content), c@, content),
                    None => r matches Err(e) && e.deep_view() == self.changelog_error(
                        c@,
                        read.error(),
                    ),
                }
            },
    {
        match self.generate_changelog_asset(package_deb, read)? {
            Some((source_path, changelog_file)) => {
                proof {
                    reveal_strlit("changelog.Debian.gz");
                }
                let target = doc_path_of(package_deb, "changelog.Debian.gz");
                let asset = Asset::new(
                    AssetSource::Data(changelog_file),
                    target,
                    Some(0o644),
                    IsBuilt::No,
                    AssetKind::Any,
                ).processed("generated", Some(source_path));
                push_asset(&mut package_deb.assets.resolved, asset);
            },
            None => {},
        }
        Ok(())
    }
}

// ---------------------------------------------------------------------------
// Units
// ---------------------------------------------------------------------------
/// The units that are there for the name of the Debian package, and for that of the Cargo package.
#[derive(Debug)]
pub struct FoundUnits {
    pub units: Vec<UnitFile>,
    pub fallback: Vec<UnitFile>,
}

pub struct FoundUnitsView {
    pub units: Seq<UnitView>,
    pub fallback: Seq<UnitView>,
}

impl DeepView for FoundUnits {
    type V = FoundUnitsView;

    open spec fn deep_view(&self) -> FoundUnitsView {
        FoundUnitsView { units: self.units.deep_view(), fallback: self.fallback.deep_view() }
    }
}

/// The directory of the units: the one of the entry, else that of maintainer scripts, else `systemd`.
pub open spec fn units_dir(p: PackageConfig, config: SystemdUnitsConfig) -> Seq<char> {
    match first_of(config.unit_scripts.deep_view(), p.maintainer_scripts_rel_path.deep_view()) {
        Some(dir) => dir,
        None => "systemd"@,
    }
}

/// Whether there are other units for the name of the Cargo package than for that of the Debian
/// package.
pub open spec fn names_differ(p: PackageConfig, found: FoundUnitsView) -> bool {
    p.deb_name@ != p.cargo_crate_name@ && found.fallback.len() > 0 && !same_units(
        found.fallback,
        found.units,
    )
}

pub open spec fn chosen_units(p: PackageConfig, found: FoundUnitsView) -> Seq<UnitView> {
    if names_differ(p, found) && found.units.len() == 0 {
        found.fallback
    } else {
        found.units
    }
}

pub open spec fn unit_messages(p: PackageConfig, config: SystemdUnitsConfig, found: FoundUnitsView) -> Seq<
    MessageView,
> {
    let unit = match config.unit_name {
        Some(n) => n@,
        None => "<unit_name unspecified>"@,
    };
    if !names_differ(p, found) {
        Seq::empty()
    } else if found.units.len() == 0 {
        seq![
            MessageView::Warning(
                "Systemd unit "@ + unit + " found for Cargo package name ("@ + p.cargo_crate_name@
                    + "), but Debian package name was expected ("@ + p.deb_name@
                    + "). Used Cargo package name as a fallback."@,
            ),
        ]
    } else {
        seq![
            MessageView::Warning(
                "Cargo package name and Debian package name are different ("@ + p.cargo_crate_name@
                    + " !=  "@ + p.deb_name@
                    + ") and both have systemd units. Used Debian package name for the systemd unit "@
                    + unit + "."@,
            ),
        ]
    }
}

pub open spec fn unit_asset(u: UnitView, preserve_symlinks: bool, dir: Seq<char>) -> AssetView {
    processed_asset(
        new_asset(
            if (preserve_symlinks || !u.exists) && u.is_symlink {
                SourceView::Manifested(u.source)
            } else {
                SourceView::Path(u.source)
            },
            u.recipe.path,
            Some(u.recipe.mode),
            IsBuilt::No,
            AssetKind::Any,
        ),
        "systemd"@,
        Some(dir),
    )
}

/// The units of one entry of the manifest.
pub open spec fn units_added(p: PackageConfig, config: SystemdUnitsConfig, found: FoundUnitsView) -> Added {
    Added {
        assets: chosen_units(p, found).map_values(
            |u: UnitView| unit_asset(u, p.preserve_symlinks, units_dir(p, config)),
        ),
        messages: unit_messages(p, config, found),
        error: None,
    }
}

/// The units of all entries of the manifest.
pub open spec fn all_units_added(
    p: PackageConfig,
    configs: Seq<SystemdUnitsConfig>,
    found: Seq<FoundUnitsView>,
) -> Added
    decreases configs.len(),
{
    if configs.len() == 0 {
        Added { assets: Seq::empty(), messages: Seq::empty(), error: None }
    } else {
        let before = all_units_added(p, configs.drop_last(), found.drop_last());
        let one = units_added(p, configs.last(), found.last());
        Added {
            assets: before.assets + one.assets,
            messages: before.messages + one.messages,
            error: None,
        }
    }
}

/// The units tell where they go.
pub open spec fn units_have_targets(us: Seq<UnitView>) -> bool {
    forall|i: int|
        0 <= i < us.len() ==> target_is_known(
            (#[trigger] us[i]).recipe.path,
            Some(us[i].source),
        )
}

pub open spec fn unit_list(p: PackageConfig) -> Seq<SystemdUnitsConfig> {
    match p.systemd_units {
        Some(v) => v@,
        None => Seq::empty(),
    }
}

fn push_units(assets: &mut Vec<Asset>, units: &Vec<UnitFile>, preserve_symlinks: bool, dir: &str)
    requires
        units_have_targets(units.deep_view()),
    ensures
        final(assets).deep_view() == old(assets).deep_view() + units.deep_view().map_values(
            |u: UnitView| unit_asset(u, preserve_symlinks, dir@),
        ),
{
    let ghost us = units.deep_view();
    let ghost all = us.map_values(|u: UnitView| unit_asset(u, preserve_symlinks, dir@));
    let ghost before = assets.deep_view();
    let mut i: usize = 0;
    assert(before + all.take(0) =~= before);
    while i < units.len()
        invariant
            i <= units.len(),
            us == units.deep_view(),
            units_have_targets(us),
            all == us.map_values(|u: UnitView| unit_asset(u, preserve_symlinks, dir@)),
            assets.deep_view() == before + all.take(i as int),
        decreases units.len() - i,
    {
        let ghost so_far = assets.deep_view();
        let u = &units[i];
        assert(us[i as int] == u.deep_view());
        let asset = Asset::new(
            AssetSource::from_path(u.source.clone(), preserve_symlinks, u.exists, u.is_symlink),
            u.recipe.path.clone(),
            Some(u.recipe.mode),
            IsBuilt::No,
            AssetKind::Any,
        ).processed("systemd", Some(dir.to_owned()));
        push_asset(assets, asset);
        proof {
            assert(all.take(i + 1) =~= all.take(i as int).push(all[i as int]));
            assert(assets.deep_view() =~= before + all.take(i + 1));
        }
        i += 1;
    }
    assert(all.take(i as int) =~= all);
}

impl PackageConfig {
    fn choose_units<'a>(
        &self,
        config: &SystemdUnitsConfig,
        found: &'a FoundUnits,
        log: &mut Vec<Message>,
    ) -> (r: &'a Vec<UnitFile>)
        ensures
            r.deep_view() == chosen_units(*self, found.deep_view()),
            final(log).deep_view() == old(log).deep_view() + unit_messages(
                *self,
                *config,
                found.deep_view(),
            ),
    {
        let ghost log0 = log.deep_view();
        assert(log0 + Seq::<MessageView>::empty() =~= log0);
        let crate_name = self.cargo_crate_name.as_str();
        let deb_name = self.deb_name.as_str();
        if !same(deb_name, crate_name) && found.fallback.len() > 0 && !units_equal(
            &found.fallback,
            &found.units,
        ) {
            let unit_name_info = match &config.unit_name {
                Some(n) => n.as_str(),
                None => "<unit_name unspecified>",
            };
            if found.units.len() == 0 {
                let mut text = cat5(
                    "Systemd unit ",
                    unit_name_info,
                    " found for Cargo package name (",
                    crate_name,
                    "), but Debian package name was expected (",
                );
                text.append(deb_name);
                text.append("). Used Cargo package name as a fallback.");
                warn(log, text);
                return &found.fallback;
            } else {
                let mut text = cat5(
                    "Cargo package name and Debian package name are different (",
                    crate_name,
                    " !=  ",
                    deb_name,
                    ") and both have systemd units. Used Debian package name for the systemd unit ",
                );
                text.append(unit_name_info);
                text.append(".");
                warn(log, text);
            }
        }
        &found.units
    }

    /// The directory of the units of an entry of the manifest.
    pub fn unit_dir<'a>(&'a self, config: &'a SystemdUnitsConfig) -> (r: &'a str)
        ensures
            r@ == units_dir(*self, *config),
    {
        match &config.unit_scripts {
            Some(dir) => dir.as_str(),
            None => match &self.maintainer_scripts_rel_path {
                Some(dir) => dir.as_str(),
                None => "systemd",
            },
        }
    }

    /// Adds the unit files of the entries of the manifest, given those that are there.
    pub fn add_systemd_assets(&mut self, found: &Vec<FoundUnits>, log: &mut Vec<Message>)
        requires
            found.len() == unit_list(*old(self)).len(),
            forall|i: int|
                0 <= i < found.len() ==> units_have_targets(
                    chosen_units(*old(self), #[trigger] found.deep_view()[i]),
                ),
        ensures
            *final(self) == (PackageConfig { assets: final(self).assets, ..*old(self) }),
            final(self).assets.unresolved == old(self).assets.unresolved,
            ({
                let added = all_units_added(*old(self), unit_list(*old(self)), found.deep_view());
                &&& final(self).assets.resolved.deep_view() == old(self).assets.resolved.deep_view()
                    + added.assets
                &&& final(log).deep_view() == old(log).deep_view() + added.messages
            }),
    {
        let mut assets: Vec<Asset> = Vec::new();
        std::mem::swap(&mut assets, &mut self.assets.resolved);
        let ghost p = *old(self);
        let ghost assets0 = assets.deep_view();
        let ghost log0 = log.deep_view();
        let ghost configs = unit_list(p);
        let ghost fs = found.deep_view();
        proof {
            assert(assets0 + Seq::<AssetView>::empty() =~= assets0);
            assert(log0 + Seq::<MessageView>::empty() =~= log0);
        }
        if let Some(config_vec) = &self.systemd_units {
            let mut i: usize = 0;
            proof {
                assert(configs.take(0) =~= Seq::<SystemdUnitsConfig>::empty());
            }
            while i < config_vec.len()
                invariant
                    i <= config_vec.len(),
                    config_vec@ == configs,
                    found.len() == config_vec.len(),
                    fs == found.deep_view(),
                    *self == (PackageConfig { assets: self.assets, ..p }),
                    forall|i: int|
                        0 <= i < found.len() ==> units_have_targets(
                            chosen_units(p, #[trigger] found.deep_view()[i]),
                        ),
                    assets.deep_view() == assets0 + all_units_added(
                        p,
                        configs.take(i as int),
                        fs.take(i as int),
                    ).assets,
                    log.deep_view() == log0 + all_units_added(
                        p,
                        configs.take(i as int),
                        fs.take(i as int),
                    ).messages,
                decreases config_vec.len() - i,
            {
                let ghost so_far = assets.deep_view();
                let ghost so_far_log = log.deep_view();
                let ghost before = all_units_added(p, configs.take(i as int), fs.take(i as int));
                let ghost one = units_added(p, configs[i as int], fs[i as int]);
                proof {
                    assert(fs[i as int] == found[i as int].deep_view());
                    assert(configs.take(i + 1).drop_last() =~= configs.take(i as int));
                    assert(fs.take(i + 1).drop_last() =~= fs.take(i as int));
                    assert(configs.take(i + 1).last() == configs[i as int]);
                    assert(fs.take(i + 1).last() == fs[i as int]);
                    assert(units_have_targets(chosen_units(p, found.deep_view()[i as int])));
                    assert(chosen_units(*self, fs[i as int]) == chosen_units(p, fs[i as int]));
                    assert(unit_messages(*self, configs[i as int], fs[i as int]) == unit_messages(
                        p,
                        configs[i as int],
                        fs[i as int],
                    ));
                }
                let config = &config_vec[i];
                let unit_dir = self.unit_dir(config);
                let units = self.choose_units(config, &found[i], log);
                push_units(&mut assets, units, self.preserve_symlinks, unit_dir);
                proof {
                    assert(unit_dir@ == units_dir(p, configs[i as int]));
                    assert(assets.deep_view() =~= so_far + one.assets);
                    assert(log.deep_view() =~= so_far_log + one.messages);
                    assert(assets.deep_view() =~= assets0 + (before.assets + one.assets));
                    assert(log.deep_view() =~= log0 + (before.messages + one.messages));
                }
                i += 1;
            }
            proof {
                assert(configs.take(i as int) =~= configs);
                assert(fs.take(i as int) =~= fs);
            }
        }
        self.assets.resolved = assets;
    }
}

// ---------------------------------------------------------------------------
// All files
// ---------------------------------------------------------------------------
/// The first binary and the first library that were found.
pub struct Mixture {
    pub bin: Option<Seq<char>>,
    pub lib: Option<Seq<char>>,
}

pub open spec fn is_bin_path(p: Seq<char>) -> bool {
    path_starts_with(p, "bin"@) || path_starts_with(p, "usr/bin"@) || path_starts_with(
        p,
        "usr/sbin"@,
    )
}

/// The first binary and the first library among the paths, up to where both have been found.
pub open spec fn mixture(paths: Seq<Seq<char>>, lib_dir: Seq<char>) -> Mixture
    decreases paths.len(),
{
    if paths.len() == 0 {
        Mixture { bin: None, lib: None }
    } else {
        let m = mixture(paths.drop_last(), lib_dir);
        let p = paths.last();
        if m.bin is Some && m.lib is Some {
            m
        } else if m.bin is None && is_bin_path(p) {
            Mixture { bin: Some(p), lib: m.lib }
        } else if m.lib is None && path_starts_with(p, lib_dir) {
            Mixture { bin: m.bin, lib: Some(p) }
        } else {
            m
        }
    }
}

/// Multiarch packages are not to have both libraries and binaries.
pub open spec fn multiarch_messages(p: PackageConfig, paths: Seq<Seq<char>>, triple: Seq<char>) -> Seq<
    MessageView,
> {
    let m = mixture(paths, "usr/lib/"@ + debian_triple(triple));
    if p.multiarch != Multiarch::Unsupported && m.bin is Some && m.lib is Some {
        seq![
            MessageView::Warning(
                "Multiarch packages are not allowed to contain both libs and binaries.\n'"@ + m.lib->0
                    + "' and '"@ + m.bin->0 + "' can't be in the same package."@,
            ),
        ]
    } else {
        Seq::empty()
    }
}

proof fn lemma_mixture_found(paths: Seq<Seq<char>>, lib_dir: Seq<char>, i: int)
    requires
        0 <= i <= paths.len(),
        mixture(paths.take(i), lib_dir).bin is Some,
        mixture(paths.take(i), lib_dir).lib is Some,
    ensures
        mixture(paths, lib_dir) == mixture(paths.take(i), lib_dir),
    decreases paths.len(),
{
    if i == paths.len() {
        assert(paths.take(i) =~= paths);
    } else {
        assert(paths.drop_last().take(i) =~= paths.take(i));
        lemma_mixture_found(paths.drop_last(), lib_dir, i);
    }
}

pub open spec fn option_view(o: Option<&str>) -> Option<Seq<char>> {
    match o {
        Some(s) => Some(s@),
        None => None,
    }
}

fn warn_of_mixture(package_deb: &PackageConfig, triple: &str, log: &mut Vec<Message>)
    ensures
        final(log).deep_view() == old(log).deep_view() + multiarch_messages(
            *package_deb,
            all_targets(*package_deb),
            triple@,
        ),
{
    let ghost log0 = log.deep_view();
    let ghost all = all_targets(*package_deb);
    assert(log0 + Seq::<MessageView>::empty() =~= log0);
    if package_deb.multiarch == Multiarch::Unsupported {
        return;
    }
    let (lib_dir, _) = package_deb.multiarch_lib_dirs(triple);
    let paths = all_targets_of(package_deb);
    let mut has_bin: Option<&str> = None;
    let mut has_lib: Option<&str> = None;
    let mut i: usize = 0;
    assert(all.take(0) =~= Seq::<Seq<char>>::empty());
    while i < paths.len()
        invariant
            i <= paths.len(),
            all == paths.deep_view(),
            all == all_targets(*package_deb),
            *log == *old(log),
            log0 == log.deep_view(),
            package_deb.multiarch != Multiarch::Unsupported,
            lib_dir@ == "usr/lib/"@ + debian_triple(triple@),
            mixture(all.take(i as int), lib_dir@).bin == option_view(has_bin),
            mixture(all.take(i as int), lib_dir@).lib == option_view(has_lib),
            has_bin is None || has_lib is None,
        decreases paths.len() - i,
    {
        proof {
            assert(all.take(i + 1).drop_last() =~= all.take(i as int));
            assert(all.take(i + 1).last() == paths[i as int]@);
        }
        let p = paths[i].as_str();
        if has_bin.is_none() && (starts_with(p, "bin") || starts_with(p, "usr/bin") || starts_with(
            p,
            "usr/sbin",
        )) {
            has_bin = Some(p);
        } else if has_lib.is_none() && starts_with(p, lib_dir.as_str()) {
            has_lib = Some(p);
        }
        if let (Some(lib), Some(bin)) = (has_lib, has_bin) {
            proof {
                lemma_mixture_found(all, lib_dir@, i + 1);
            }
            warn(
                log,
                cat5(
                    "Multiarch packages are not allowed to contain both libs and binaries.\n'",
                    lib,
                    "' and '",
                    bin,
                    "' can't be in the same package.",
                ),
            );
            return;
        }
        i += 1;
    }
    assert(all.take(i as int) =~= all);
}

/// What files say that go into a package without being among those that the manifest names.
#[derive(Debug)]
pub struct PackageFiles {
    /// The license file.
    pub license: TextResult,
    pub changelog: ReadResult,
    /// The units of each entry of the manifest.
    pub units: Vec<FoundUnits>,
}

/// The files that the manifest names, and those that need not be named.
pub struct NamedFiles {
    pub unresolved: Seq<UnresolvedView>,
    pub resolved: Result<Seq<AssetView>, ErrorView>,
}

/// The files that are made or found for a package, in their order.
pub open spec fn paths_of(resolved: Seq<AssetView>, unresolved: Seq<UnresolvedView>) -> Seq<Seq<char>> {
    resolved.map_values(|a: AssetView| a.c.target_path) + unresolved.map_values(
        |a: UnresolvedView| a.c.target_path,
    )
}

impl BuildEnvironment {
    pub open spec fn named_files(self, p: PackageConfig, assets: Seq<RawAssetOrAutoView>) -> NamedFiles {
        NamedFiles {
            unresolved: raw_assets(assets).map_values(|a: RawAssetView| self.explicit_asset(p, a)),
            resolved: if has_auto(assets) {
                self.auto_assets(p)
            } else {
                Ok(Seq::empty())
            },
        }
    }

    pub open spec fn changelog_assets(self, p: PackageConfig, read: ReadResult) -> Seq<AssetView> {
        match p.changelog {
            Some(c) => seq![
                generated_asset(
                    self.changelog_data(c@, read.content()->0),
                    doc_path(p, "changelog.Debian.gz"@),
                    self.changelog_path(c@),
                ),
            ],
            None => Seq::empty(),
        }
    }

    /// Whether units are added: nothing that comes before them has failed.
    pub open spec fn reaches_units(
        self,
        p: PackageConfig,
        assets: Seq<RawAssetOrAutoView>,
        files: PackageFiles,
    ) -> bool {
        let named = self.named_files(p, assets);
        &&& named.resolved is Ok
        &&& self.copyright_added(
            p,
            paths_of(named.resolved->Ok_0, named.unresolved),
            files.license,
        ).error is None
        &&& p.changelog is None || files.changelog.content() is Some
    }

    /// The files of the package: those that the manifest names and those that need not be named,
    /// then the copyright file, the changelog, and units. The copyright file and the changelog have
    /// to be readable.
    pub fn add_assets(
        &self,
        package_deb: &mut PackageConfig,
        assets: Vec<RawAssetOrAuto>,
        files: &PackageFiles,
        log: &mut Vec<Message>,
    ) -> (r: CDResult<()>)
        requires
            self.assets_have_names(assets.deep_view()),
            files.units.len() == unit_list(*old(package_deb)).len(),
            self.reaches_units(*old(package_deb), assets.deep_view(), *files) ==> forall|i: int|
                0 <= i < files.units.len() ==> units_have_targets(
                    chosen_units(*old(package_deb), #[trigger] files.units.deep_view()[i]),
                ),
        ensures
            *final(package_deb) == (PackageConfig {
                assets: final(package_deb).assets,
                ..*old(package_deb)
            }),
            ({
                let p = *old(package_deb);
                let named = self.named_files(p, assets.deep_view());
                let log1 = old(log).deep_view() + self.explicit_warnings(
                    raw_assets(assets.deep_view()),
                );
                match named.resolved {
                    Err(e) => {
                        &&& r is Err && r->Err_0.deep_view() == e
                        &&& final(package_deb).assets == p.assets
                        &&& final(log).deep_view() == log1
                    },
                    Ok(auto) => {
                        let targets = paths_of(auto, named.unresolved);
                        let copyright = self.copyright_added(p, targets, files.license);
                        let units = all_units_added(p, unit_list(p), files.units.deep_view());
                        let log2 = log1 + multiarch_messages(p, targets, self.triple())
                            + copyright.messages;
                        &&& final(package_deb).assets.unresolved.deep_view() == named.unresolved
                        &&& copyright.error is Some ==> {
                            &&& r is Err && copyright.error == Some(r->Err_0.deep_view())
                            &&& final(package_deb).assets.resolved.deep_view() == auto
                            &&& final(log).deep_view() == log2
                        }
                        &&& copyright.error is None && p.changelog is Some
                            && files.changelog.content() is None ==> {
                            &&& r is Err && r->Err_0.deep_view() == self.changelog_error(
                                p.changelog->0@,
                                files.changelog.error(),
                            )
                            &&& final(package_deb).assets.resolved.deep_view() == auto
                                + copyright.assets
                            &&& final(log).deep_view() == log2
                        }
                        &&& copyright.error is None && (p.changelog is None
                            || files.changelog.content() is Some) ==> {
                            &&& r is Ok
                            &&& p.changelog matches Some(c) ==> self.holds_changelog(
                                self.changelog_data(c@, files.changelog.content()->0),
                                c@,
                                files.changelog.content()->0,
                            )
                            &&& final(package_deb).assets.resolved.deep_view() == auto
                                + copyright.assets + self.changelog_assets(p, files.changelog)
                                + units.assets
                            &&& final(log).deep_view() == log2 + units.messages
                        }
                    },
                }
            }),
    {
        let ghost p = *old(package_deb);
        let ghost named = self.named_files(p, assets.deep_view());
        let all = self.explicit_assets(package_deb, assets, log)?;
        let ghost auto = all.resolved.deep_view();
        package_deb.assets = all;
        proof {
            assert(named.resolved is Ok && auto =~= named.resolved->Ok_0);
            assert(all_targets(*package_deb) == paths_of(auto, named.unresolved));
        }
        warn_of_mixture(package_deb, self.rust_target_triple(), log);
        let ghost p1 = *package_deb;
        proof {
            lemma_copyright_frame(
                *self,
                p,
                p1.assets,
                paths_of(auto, named.unresolved),
                files.license,
            );
        }
        self.add_copyright_asset(package_deb, &files.license, log)?;
        let ghost with_copyright = package_deb.assets.resolved.deep_view();
        self.add_changelog_asset(package_deb, &files.changelog)?;
        proof {
            assert(package_deb.assets.resolved.deep_view() =~= with_copyright
                + self.changelog_assets(p, files.changelog));
            lemma_units_frame(p, package_deb.assets, unit_list(p), files.units.deep_view());
            assert forall|i: int| 0 <= i < files.units.len() implies units_have_targets(
                chosen_units(*package_deb, #[trigger] files.units.deep_view()[i]),
            ) by {
                assert(chosen_units(*package_deb, files.units.deep_view()[i]) == chosen_units(
                    p,
                    files.units.deep_view()[i],
                ));
            }
        }
        package_deb.add_systemd_assets(&files.units, log);
        Ok(())
    }
}

proof fn lemma_copyright_frame(
    env: BuildEnvironment,
    p: PackageConfig,
    assets: crate::assets::Assets,
    targets: Seq<Seq<char>>,
    license: TextResult,
)
    ensures
        env.copyright_added(p, targets, license) == env.copyright_added(
            PackageConfig { assets, ..p },
            targets,
            license,
        ),
{
}

proof fn lemma_units_frame(
    p: PackageConfig,
    assets: crate::assets::Assets,
    configs: Seq<SystemdUnitsConfig>,
    found: Seq<FoundUnitsView>,
)
    ensures
        all_units_added(p, configs, found) == all_units_added(
            PackageConfig { assets, ..p },
            configs,
            found,
        ),
    decreases configs.len(),
{
    if configs.len() > 0 {
        lemma_units_frame(p, assets, configs.drop_last(), found.drop_last());
        let q = PackageConfig { assets, ..p };
        assert(chosen_units(q, found.last()) == chosen_units(p, found.last()));
        assert(unit_messages(q, configs.last(), found.last()) == unit_messages(
            p,
            configs.last(),
            found.last(),
        ));
        assert(units_added(q, configs.last(), found.last()).assets =~= units_added(
            p,
            configs.last(),
            found.last(),
        ).assets);
    }
}

} // verus!
