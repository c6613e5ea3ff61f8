//! From the manifest to what is to be packaged.
use crate::assets::{clone_option, Assets};
use crate::config::rules::{check_debian_version, debian_package_name, license_source, package_name, parse_license_file, version_problem};
use crate::config::{DebConfigOverrides, ExtendedDescription, Multiarch, PackageConfig};
use crate::error::{CDResult, CargoDebError, ErrorView};
use crate::listener::{say, Message, MessageView};
use crate::parse::manifest::{debian_version, first_of, manifest_version_string, or, CargoDeb, DependencyList, SystemUnitsSingleOrMultiple, SystemdUnitsConfig};
use crate::paths::{extension, extension_of};
use crate::text::{cat3, join, join_strings, same};
use vstd::prelude::*;

verus! {

/// The `[package]` table of a manifest, with what it inherits from the workspace.
#[derive(Debug)]
pub struct CargoPackage {
    pub name: String,
    pub version: String,
    pub license: Option<String>,
    pub license_file: Option<String>,
    /// Can it be published anywhere?
    pub publish: bool,
    pub authors: Vec<String>,
    pub homepage: Option<String>,
    pub documentation: Option<String>,
    pub repository: Option<String>,
    pub description: Option<String>,
    pub readme: Option<String>,
}

/// A package without a license, and without a license file, is unlicensed if it is not published.
pub open spec fn is_unlicensed(pkg: CargoPackage, file: Option<Seq<char>>) -> bool {
    pkg.license is None && file is None && !pkg.publish
}

/// What is said of the license.
pub open spec fn license_messages(pkg: CargoPackage, file: Option<Seq<char>>) -> Seq<MessageView> {
    if pkg.license is None && file is None {
        seq![
            if !pkg.publish {
                MessageView::Info("license field defaulted to UNLICENSED"@)
            } else {
                MessageView::Warning("license field is missing in Cargo.toml"@)
            },
        ]
    } else {
        Seq::empty()
    }
}

/// The version of the package: as it is asked for, else that of the manifest.
pub open spec fn version_of(deb: CargoDeb, pkg: CargoPackage, overrides: DebConfigOverrides) -> Seq<
    char,
> {
    match overrides.deb_version {
        Some(v) => v@,
        None => debian_version(
            pkg.version@,
            first_of(overrides.deb_revision, deb.revision).deep_view(),
        ),
    }
}

pub open spec fn description_messages(pkg: CargoPackage) -> Seq<MessageView> {
    if pkg.description is None {
        seq![MessageView::Warning("description field is missing in Cargo.toml"@)]
    } else {
        Seq::empty()
    }
}

pub open spec fn is_markdown(p: Seq<char>) -> bool {
    extension(p) == Some("md"@) || extension(p) == Some("markdown"@)
}

/// What is said of the long description.
pub open spec fn extended_messages(deb: CargoDeb, pkg: CargoPackage) -> Seq<MessageView> {
    if deb.extended_description is Some {
        if deb.extended_description_file is Some {
            seq![
                MessageView::Warning(
                    "extended-description and extended-description-file are both set"@,
                ),
            ]
        } else {
            Seq::empty()
        }
    } else if deb.extended_description_file is Some {
        Seq::empty()
    } else {
        match pkg.readme {
            Some(readme) => if is_markdown(readme@) {
                seq![
                    MessageView::Info(
                        "extended-description field missing. Using "@ + readme@
                            + ", but markdown may not render well."@,
                    ),
                ]
            } else {
                Seq::empty()
            },
            None => Seq::empty(),
        }
    }
}

/// The long description: as it stands in the manifest, else from the file that it names, else from
/// the README.
pub open spec fn is_extended_description(
    d: ExtendedDescription,
    deb: CargoDeb,
    pkg: CargoPackage,
) -> bool {
    match deb.extended_description {
        Some(desc) => d matches ExtendedDescription::Text(t) && t@ == desc@,
        None => match deb.extended_description_file {
            Some(path) => d matches ExtendedDescription::File(p) && p@ == path@,
            None => match pkg.readme {
                Some(readme) => d matches ExtendedDescription::ReadmeFallback(p) && p@ == readme@,
                None => d is Absent,
            },
        },
    }
}

pub open spec fn depends_text(d: Option<DependencyList>) -> Option<Seq<char>> {
    match d {
        Some(d) => Some(d.text()),
        None => None,
    }
}

pub open spec fn unit_configs(u: Option<SystemUnitsSingleOrMultiple>) -> Option<
    Seq<SystemdUnitsConfig>,
> {
    match u {
        Some(SystemUnitsSingleOrMultiple::Single(s)) => Some(seq![s]),
        Some(SystemUnitsSingleOrMultiple::Multi(v)) => Some(v@),
        None => None,
    }
}

pub open spec fn units_of(u: Option<Vec<SystemdUnitsConfig>>) -> Option<Seq<SystemdUnitsConfig>> {
    match u {
        Some(v) => Some(v@),
        None => None,
    }
}

/// What identifies the package and its authors.
pub open spec fn has_identity(
    p: PackageConfig,
    deb: CargoDeb,
    pkg: CargoPackage,
    overrides: DebConfigOverrides,
    license: (Option<Seq<char>>, int),
) -> bool {
    &&& p.cargo_crate_name@ == pkg.name@
    &&& p.deb_name@ == match deb.name {
        Some(n) => n@,
        None => package_name(pkg.name@),
    }
    &&& p.deb_version@ == version_of(deb, pkg, overrides)
    &&& p.license_identifier.deep_view() == if is_unlicensed(pkg, license.0) {
        Some("UNLICENSED"@)
    } else {
        pkg.license.deep_view()
    }
    &&& p.license_file_rel_path.deep_view() == license.0
    &&& p.license_file_skip_lines == license.1
    &&& p.maintainer.deep_view() == match first_of(overrides.maintainer, deb.maintainer) {
        Some(m) => Some(m@),
        None => if pkg.authors@.len() > 0 {
            Some(pkg.authors@[0]@)
        } else {
            None
        },
    }
    &&& p.copyright.deep_view() == match deb.copyright {
        Some(c) => Some(c@),
        None => if pkg.authors@.len() > 0 {
            Some(join(pkg.authors.deep_view(), ", "@))
        } else {
            None
        },
    }
    &&& p.homepage.deep_view() == pkg.homepage.deep_view()
    &&& p.documentation.deep_view() == pkg.documentation.deep_view()
    &&& p.repository.deep_view() == pkg.repository.deep_view()
    &&& p.description@ == match pkg.description {
        Some(d) => d@,
        None => "[generated from Rust crate "@ + pkg.name@ + "]"@,
    }
    &&& is_extended_description(p.extended_description, deb, pkg)
    &&& p.readme_rel_path.deep_view() == pkg.readme.deep_view()
}

/// How the package relates to others.
pub open spec fn has_relations(p: PackageConfig, deb: CargoDeb, overrides: DebConfigOverrides) -> bool {
    &&& p.wildcard_depends@ == match deb.depends {
        Some(d) => d.text(),
        None => "$auto"@,
    }
    &&& p.resolved_depends is None
    &&& p.pre_depends.deep_view() == depends_text(deb.pre_depends)
    &&& p.recommends.deep_view() == depends_text(deb.recommends)
    &&& p.suggests.deep_view() == depends_text(deb.suggests)
    &&& p.enhances.deep_view() == depends_text(deb.enhances)
    &&& p.conflicts.deep_view() == depends_text(deb.conflicts)
    &&& p.breaks.deep_view() == depends_text(deb.breaks)
    &&& p.replaces.deep_view() == depends_text(deb.replaces)
    &&& p.provides.deep_view() == depends_text(deb.provides)
    &&& p.section.deep_view() == first_of(overrides.section, deb.section).deep_view()
    &&& p.priority@ == match deb.priority {
        Some(x) => x@,
        None => "optional"@,
    }
}

/// The files of the package: none yet, but what is to become of some.
pub open spec fn has_files(p: PackageConfig, deb: CargoDeb, overrides: DebConfigOverrides) -> bool {
    &&& p.conf_files.deep_view() == match deb.conf_files {
        Some(c) => c.deep_view(),
        None => Seq::empty(),
    }
    &&& p.assets.unresolved@.len() == 0
    &&& p.assets.resolved@.len() == 0
    &&& p.triggers_file_rel_path.deep_view() == deb.triggers_file.deep_view()
    &&& p.changelog.deep_view() == deb.changelog.deep_view()
    &&& p.maintainer_scripts_rel_path.deep_view() == first_of(
        overrides.maintainer_scripts_rel_path,
        deb.maintainer_scripts,
    ).deep_view()
    &&& p.preserve_symlinks == (deb.preserve_symlinks == Some(true))
    &&& units_of(p.systemd_units) == first_of(
        units_of(overrides.systemd_units),
        unit_configs(deb.systemd_units),
    )
    &&& !p.is_split_dbgsym_package
}

fn depends_string(d: Option<DependencyList>) -> (r: Option<String>)
    ensures
        r.deep_view() == depends_text(d),
{
    match d {
        Some(d) => Some(d.into_depends_string()),
        None => None,
    }
}

fn extended_description_of(
    file: Option<String>,
    text: Option<String>,
    pkg: &CargoPackage,
    log: &mut Vec<Message>,
    Ghost(deb): Ghost<CargoDeb>,
) -> (r: ExtendedDescription)
    requires
        deb.extended_description_file == file,
        deb.extended_description == text,
    ensures
        is_extended_description(r, deb, *pkg),
        final(log).deep_view() == old(log).deep_view() + extended_messages(deb, *pkg),
{
    let ghost before = log.deep_view();
    assert(before + Seq::<MessageView>::empty() =~= before);
    if let Some(desc) = text {
        if file.is_some() {
            say(
                log,
                Message::Warning(
                    "extended-description and extended-description-file are both set".to_owned(),
                ),
            );
            assert(log.deep_view() =~= before + extended_messages(deb, *pkg));
        }
        return ExtendedDescription::Text(desc);
    }
    if let Some(path) = file {
        return ExtendedDescription::File(path);
    }
    match &pkg.readme {
        Some(readme) => {
            let is_md = match extension_of(readme.as_str()) {
                Some(ext) => same(ext.as_str(), "md") || same(ext.as_str(), "markdown"),
                None => false,
            };
            if is_md {
                say(
                    log,
                    Message::Info(
                        cat3(
                            "extended-description field missing. Using ",
                            readme.as_str(),
                            ", but markdown may not render well.",
                        ),
                    ),
                );
                assert(log.deep_view() =~= before + extended_messages(deb, *pkg));
            }
            ExtendedDescription::ReadmeFallback(readme.clone())
        },
        None => ExtendedDescription::Absent,
    }
}

fn description_of(pkg: &CargoPackage, log: &mut Vec<Message>) -> (r: String)
    ensures
        r@ == match pkg.description {
            Some(d) => d@,
            None => "[generated from Rust crate "@ + pkg.name@ + "]"@,
        },
        final(log).deep_view() == old(log).deep_view() + description_messages(*pkg),
{
    let ghost before = log.deep_view();
    match &pkg.description {
        Some(d) => {
            assert(before + Seq::<MessageView>::empty() =~= before);
            d.clone()
        },
        None => {
            say(
                log,
                Message::Warning("description field is missing in Cargo.toml".to_owned()),
            );
            assert(log.deep_view() =~= before + description_messages(*pkg));
            cat3("[generated from Rust crate ", pkg.name.as_str(), "]")
        },
    }
}

fn license_of(pkg: &CargoPackage, file: &Option<String>, log: &mut Vec<Message>) -> (r: Option<
    String,
>)
    ensures
        r.deep_view() == if is_unlicensed(*pkg, file.deep_view()) {
            Some("UNLICENSED"@)
        } else {
            pkg.license.deep_view()
        },
        final(log).deep_view() == old(log).deep_view() + license_messages(*pkg, file.deep_view()),
{
    let ghost before = log.deep_view();
    assert(before + Seq::<MessageView>::empty() =~= before);
    let mut license = clone_option(&pkg.license);
    if license.is_none() && file.is_none() {
        if !pkg.publish {
            license = Some("UNLICENSED".to_owned());
            say(log, Message::Info("license field defaulted to UNLICENSED".to_owned()));
        } else {
            say(log, Message::Warning("license field is missing in Cargo.toml".to_owned()));
        }
        assert(log.deep_view() =~= before + license_messages(*pkg, file.deep_view()));
    }
    license
}

fn unit_list(own: Option<Vec<SystemdUnitsConfig>>, deb: Option<SystemUnitsSingleOrMultiple>) -> (r:
    Option<Vec<SystemdUnitsConfig>>)
    ensures
        units_of(r) == first_of(units_of(own), unit_configs(deb)),
{
    match own {
        Some(v) => Some(v),
        None => match deb {
            None => None,
            Some(SystemUnitsSingleOrMultiple::Single(s)) => {
                let mut v: Vec<SystemdUnitsConfig> = Vec::new();
                v.push(s);
                assert(v@ =~= seq![s]);
                Some(v)
            },
            Some(SystemUnitsSingleOrMultiple::Multi(v)) => Some(v),
        },
    }
}

fn first_author(pkg: &CargoPackage) -> (r: Option<String>)
    ensures
        r.deep_view() == if pkg.authors@.len() > 0 {
            Some(pkg.authors@[0]@)
        } else {
            None
        },
{
    if pkg.authors.len() > 0 {
        Some(pkg.authors[0].clone())
    } else {
        None
    }
}

fn all_authors(pkg: &CargoPackage) -> (r: Option<String>)
    ensures
        r.deep_view() == if pkg.authors@.len() > 0 {
            Some(join(pkg.authors.deep_view(), ", "@))
        } else {
            None
        },
{
    if pkg.authors.len() > 0 {
        Some(join_strings(&pkg.authors, ", "))
    } else {
        None
    }
}

fn version_from(
    asked: Option<String>,
    revision: Option<String>,
    pkg: &CargoPackage,
) -> (r: String)
    ensures
        r@ == match asked {
            Some(v) => v@,
            None => debian_version(pkg.version@, revision.deep_view()),
        },
{
    match asked {
        Some(v) => v,
        None => match &revision {
            Some(rev) => manifest_version_string(pkg.version.as_str(), Some(rev.as_str())),
            None => manifest_version_string(pkg.version.as_str(), None),
        },
    }
}

/// What becomes of a manifest: a package, or an error; and what is said.
pub open spec fn is_described(
    r: CDResult<PackageConfig>,
    deb: CargoDeb,
    pkg: CargoPackage,
    default_timestamp: u64,
    overrides: DebConfigOverrides,
    architecture: Seq<char>,
    multiarch: Multiarch,
    before: Seq<MessageView>,
    said: Seq<MessageView>,
) -> bool {
    match license_source(pkg.license_file.deep_view(), deb.license_file) {
        Err(e) => {
            &&& r is Err && r->Err_0.deep_view() == e
            &&& said == before
        },
        Ok(license) => {
            let told = before + license_messages(pkg, license.0);
            match version_problem(version_of(deb, pkg, overrides)) {
                Some(why) => {
                    &&& r is Err && r->Err_0.deep_view() == ErrorView::InvalidVersion(
                        why,
                        version_of(deb, pkg, overrides),
                    )
                    &&& said == told
                },
                None => {
                    &&& r is Ok
                    &&& has_identity(r->Ok_0, deb, pkg, overrides, license)
                    &&& has_relations(r->Ok_0, deb, overrides)
                    &&& has_files(r->Ok_0, deb, overrides)
                    &&& r->Ok_0.default_timestamp == default_timestamp
                    &&& r->Ok_0.architecture@ == architecture
                    &&& r->Ok_0.multiarch == multiarch
                    &&& said == told + description_messages(
                        pkg,
                    ) + extended_messages(deb, pkg)
                },
            }
        },
    }
}

impl PackageConfig {
    /// The package that a manifest describes, with what has been asked for otherwise. Its files are
    /// yet to be added.
    pub fn new(
        deb: CargoDeb,
        cargo_package: &CargoPackage,
        log: &mut Vec<Message>,
        default_timestamp: u64,
        overrides: DebConfigOverrides,
        architecture: &str,
        multiarch: Multiarch,
    ) -> (r: CDResult<Self>)
        ensures
            is_described(
                r,
                deb,
                *cargo_package,
                default_timestamp,
                overrides,
                architecture@,
                multiarch,
                old(log).deep_view(),
                final(log).deep_view(),
            ),
    {
        let ghost gdeb = deb;
        let (license_file_rel_path, license_file_skip_lines) = match parse_license_file(
            cargo_package.license_file.as_ref(),
            deb.license_file.as_ref(),
        ) {
            Ok(l) => l,
            Err(e) => {
                return Err(e);
            },
        };
        let license_identifier = license_of(cargo_package, &license_file_rel_path, log);
        let deb_version = version_from(
            overrides.deb_version,
            or(overrides.deb_revision, deb.revision),
            cargo_package,
        );
        if let Err(why) = check_debian_version(deb_version.as_str()) {
            return Err(CargoDebError::InvalidVersion(why, deb_version));
        }
        let description = description_of(cargo_package, log);
        let extended_description = extended_description_of(
            deb.extended_description_file,
            deb.extended_description,
            cargo_package,
            log,
            Ghost(gdeb),
        );
        let deb_name = match deb.name {
            Some(n) => n,
            None => debian_package_name(cargo_package.name.as_str()),
        };
        let maintainer = match or(overrides.maintainer, deb.maintainer) {
            Some(m) => Some(m),
            None => first_author(cargo_package),
        };
        let copyright = match deb.copyright {
            Some(c) => Some(c),
            None => all_authors(cargo_package),
        };
        let wildcard_depends = match deb.depends {
            Some(d) => d.into_depends_string(),
            None => "$auto".to_owned(),
        };
        let priority = match deb.priority {
            Some(p) => p,
            None => "optional".to_owned(),
        };
        let conf_files: Vec<String> = match deb.conf_files {
            Some(c) => c,
            None => Vec::new(),
        };
        assert(gdeb.conf_files is None ==> conf_files.deep_view() =~= Seq::<Seq<char>>::empty());
        Ok(
            PackageConfig {
                deb_version,
                default_timestamp,
                cargo_crate_name: cargo_package.name.clone(),
                deb_name,
                license_identifier,
                license_file_rel_path,
                license_file_skip_lines,
                maintainer,
                copyright,
                homepage: clone_option(&cargo_package.homepage),
                documentation: clone_option(&cargo_package.documentation),
                repository: clone_option(&cargo_package.repository),
                description,
                extended_description,
                readme_rel_path: clone_option(&cargo_package.readme),
                wildcard_depends,
                resolved_depends: None,
                pre_depends: depends_string(deb.pre_depends),
                recommends: depends_string(deb.recommends),
                suggests: depends_string(deb.suggests),
                enhances: depends_string(deb.enhances),
                conflicts: depends_string(deb.conflicts),
                breaks: depends_string(deb.breaks),
                replaces: depends_string(deb.replaces),
                provides: depends_string(deb.provides),
                section: or(overrides.section, deb.section),
                priority,
                architecture: architecture.to_owned(),
                conf_files,
                assets: Assets::new(Vec::new(), Vec::new()),
                triggers_file_rel_path: deb.triggers_file,
                changelog: deb.changelog,
                maintainer_scripts_rel_path: or(
                    overrides.maintainer_scripts_rel_path,
                    deb.maintainer_scripts,
                ),
                preserve_symlinks: deb.preserve_symlinks.unwrap_or(false),
                systemd_units: unit_list(overrides.systemd_units, deb.systemd_units),
                multiarch,
                is_split_dbgsym_package: false,
            },
        )
    }
}

} // verus!
