//! What is to be built and packaged, and how.
use crate::arch::{debian_triple, debian_triple_from_rust_triple};
use crate::assets::Assets;
use crate::parse::manifest::{BuildProfile, CompressDebugSymbols, SystemdUnitsConfig};
use crate::parse::workspace::CargoMetadataTarget;
use crate::paths::{join, path_join, replace_extension, with_extension};
use crate::text::{cat, cat3, ends_with, has_suffix, same};
use crate::CargoLockingFlags;
use vstd::prelude::*;
use vstd::string::StringExecFns;

pub mod content;
pub mod control;
pub mod debug;
pub mod depends;
pub mod flags;
pub mod generated;
pub mod package;
pub mod project;
pub mod resolve;
pub mod rules;
pub mod sorting;
pub mod splitting;

verus! {

/// Where Cargo builds, and how.
#[derive(Debug)]
pub struct BuildEnvironment {
    /// Directory where `Cargo.toml` is located. It's a subdirectory in workspaces.
    pub package_manifest_dir: String,
    /// Run `cargo` commands from this dir, or things may subtly break
    pub cargo_run_current_dir: String,
    /// User-configured output path for *.deb
    pub deb_output_path: Option<String>,
    /// Triple. `None` means current machine architecture.
    pub rust_target_triple: Option<String>,
    /// The triple of the current machine.
    pub host_triple: String,
    /// `CARGO_TARGET_DIR`
    pub target_dir: String,
    /// List of Cargo features to use during build
    pub features: Vec<String>,
    pub default_features: bool,
    pub all_features: bool,
    /// Should the binary be stripped from debug symbols?
    pub debug_symbols: DebugSymbols,
    /// Should the archives that `objcopy` makes be the same each time?
    pub reproducible: bool,
    pub build_profile: BuildProfile,
    /// Products available in the package
    pub build_targets: Vec<CargoMetadataTarget>,
    pub cargo_locking_flags: CargoLockingFlags,
}

/// The long description of a package.
#[derive(Debug)]
pub enum ExtendedDescription {
    Absent,
    File(String),
    Text(String),
    ReadmeFallback(String),
}

/// What is to be packaged.
#[derive(Debug)]
pub struct PackageConfig {
    /// The name of the project to build
    pub cargo_crate_name: String,
    /// The name to give the Debian package; usually the same as the Cargo project name
    pub deb_name: String,
    /// The version to give the Debian package; usually the same as the Cargo version
    pub deb_version: String,
    /// The software license of the project (SPDX format).
    pub license_identifier: Option<String>,
    /// The location of the license file
    pub license_file_rel_path: Option<String>,
    /// number of lines to skip when reading `license_file`
    pub license_file_skip_lines: usize,
    /// Names of copyright owners (credit in `Copyright` metadata)
    /// Used in Debian's `copyright` file, which is *required* by Debian.
    pub copyright: Option<String>,
    pub changelog: Option<String>,
    /// The homepage URL of the project.
    pub homepage: Option<String>,
    /// Documentation URL from `Cargo.toml`. Fallback if `homepage` is missing.
    pub documentation: Option<String>,
    /// The URL of the software repository. Fallback if both `homepage` and `documentation` are missing.
    pub repository: Option<String>,
    /// A short description of the project.
    pub description: String,
    /// An extended description of the project.
    pub extended_description: ExtendedDescription,
    /// The maintainer of the Debian package.
    /// In Debian `control` file `Maintainer` field format.
    pub maintainer: Option<String>,
    /// Deps including `$auto`
    pub wildcard_depends: String,
    /// The Debian dependencies required to run the project.
    pub resolved_depends: Option<String>,
    /// The Debian pre-dependencies.
    pub pre_depends: Option<String>,
    /// The Debian recommended dependencies.
    pub recommends: Option<String>,
    /// The Debian suggested dependencies.
    pub suggests: Option<String>,
    /// The list of packages this package can enhance.
    pub enhances: Option<String>,
    /// The Debian software category to which the package belongs.
    pub section: Option<String>,
    /// The Debian priority of the project. Typically 'optional'.
    pub priority: String,
    /// `Conflicts` Debian control field.
    ///
    /// See [PackageTransition](https://wiki.debian.org/PackageTransition).
    pub conflicts: Option<String>,
    /// `Breaks` Debian control field.
    pub breaks: Option<String>,
    /// `Replaces` Debian control field.
    pub replaces: Option<String>,
    /// `Provides` Debian control field.
    pub provides: Option<String>,
    /// The Debian architecture of the target system.
    pub architecture: String,
    /// Support Debian's multiarch, which puts libs in `/usr/lib/$tuple/`
    pub multiarch: Multiarch,
    /// A list of configuration files installed by the package.
    /// Automatically includes all files in `/etc`
    pub conf_files: Vec<String>,
    /// All of the files that are to be packaged.
    pub assets: Assets,
    /// Added to usr/share/doc as a fallback
    pub readme_rel_path: Option<String>,
    /// The location of the triggers file
    pub triggers_file_rel_path: Option<String>,
    /// The path where possible maintainer scripts live
    pub maintainer_scripts_rel_path: Option<String>,
    /// Should symlinks be preserved in the assets
    pub preserve_symlinks: bool,
    /// Details of how to install any systemd units
    pub systemd_units: Option<Vec<SystemdUnitsConfig>>,
    /// unix timestamp for generated files
    pub default_timestamp: u64,
    /// Save it under a different path
    pub is_split_dbgsym_package: bool,
}

/// What becomes of debug symbols.
#[derive(Debug, Copy, Clone, Eq, PartialEq, Structural)]
pub enum DebugSymbols {
    /// No change (also used if Cargo already stripped the symbols
    Keep,
    Strip,
    /// Should the debug symbols be moved to a separate file included in the package? (implies `strip:true`)
    Separate {
        /// Should the debug symbols be compressed
        compress: CompressDebugSymbols,
        /// Generate dbgsym.ddeb package
        generate_dbgsym_package: bool,
    },
}

/// Replace config values via command-line
#[derive(Debug, Default)]
pub struct DebConfigOverrides {
    pub deb_version: Option<String>,
    pub deb_revision: Option<String>,
    pub maintainer: Option<String>,
    pub section: Option<String>,
    pub features: Vec<String>,
    pub no_default_features: bool,
    pub all_features: bool,
    pub systemd_units: Option<Vec<SystemdUnitsConfig>>,
    pub maintainer_scripts_rel_path: Option<String>,
}

#[derive(Debug, Copy, Clone, PartialEq, Eq, Structural)]
pub enum Multiarch {
    /// Not supported
    Unsupported,
    /// Architecture-dependent, but more than one arch can be installed at the same time
    Same,
    /// For architecture-independent tools
    Foreign,
}

impl Default for Multiarch {
    fn default() -> (r: Self)
        ensures
            r == Multiarch::Unsupported,
    {
        Multiarch::Unsupported
    }
}

#[derive(Debug, Default)]
pub struct DebugSymbolOptions {
    pub generate_dbgsym_package: Option<bool>,
    pub separate_debug_symbols: Option<bool>,
    pub compress_debug_symbols: Option<CompressDebugSymbols>,
    pub strip_override: Option<bool>,
}

/// What has been asked for on the command line.
#[derive(Debug, Default)]
pub struct BuildOptions {
    pub manifest_path: Option<String>,
    pub selected_package_name: Option<String>,
    pub deb_output_path: Option<String>,
    pub rust_target_triple: Option<String>,
    pub config_variant: Option<String>,
    pub overrides: DebConfigOverrides,
    pub build_profile: BuildProfile,
    pub debug: DebugSymbolOptions,
    pub cargo_locking_flags: CargoLockingFlags,
    pub multiarch: Multiarch,
    /// What is asked of Cargo: `build`, unless something else is.
    pub cargo_build_cmd: Option<String>,
    pub cargo_build_flags: Vec<String>,
}

// ---------------------------------------------------------------------------
// Directories
// ---------------------------------------------------------------------------
/// The name of the file of a package.
pub open spec fn deb_file_name(p: PackageConfig) -> Seq<char> {
    p.deb_name@ + "_"@ + p.deb_version@ + "_"@ + p.architecture@ + (if p.is_split_dbgsym_package {
        ".ddeb"@
    } else {
        ".deb"@
    })
}

impl BuildEnvironment {
    /// The triple that is built for.
    pub open spec fn triple(self) -> Seq<char> {
        match self.rust_target_triple {
            Some(t) => t@,
            None => self.host_triple@,
        }
    }

    #[must_use]
    pub fn rust_target_triple(&self) -> (r: &str)
        ensures
            r@ == self.triple(),
    {
        match &self.rust_target_triple {
            Some(t) => t.as_str(),
            None => self.host_triple.as_str(),
        }
    }

    /// A path in the directory of what Cargo has built.
    pub open spec fn build_path(self, rel_path: Seq<char>) -> Seq<char> {
        let profile = self.build_profile.name();
        path_join(
            path_join(
                self.target_dir@,
                if profile == "dev"@ {
                    "debug"@
                } else {
                    profile
                },
            ),
            rel_path,
        )
    }

    pub fn path_in_build(&self, rel_path: &str) -> (r: String)
        ensures
            r@ == self.build_path(rel_path@),
    {
        let profile = self.build_profile.profile_name();
        let dir = if same(profile, "dev") {
            "debug"
        } else {
            profile
        };
        let path = join(self.target_dir.as_str(), dir);
        join(path.as_str(), rel_path)
    }

    pub fn path_in_package(&self, rel_path: &str) -> (r: String)
        ensures
            r@ == path_join(self.package_manifest_dir@, rel_path@),
    {
        join(self.package_manifest_dir.as_str(), rel_path)
    }

    /// Store intermediate files here
    pub fn deb_temp_dir(&self, package_deb: &PackageConfig) -> (r: String)
        ensures
            r@ == path_join(
                path_join(self.target_dir@, "debian"@),
                package_deb.cargo_crate_name@,
            ),
    {
        let dir = join(self.target_dir.as_str(), "debian");
        join(dir.as_str(), package_deb.cargo_crate_name.as_str())
    }

    pub fn default_deb_output_dir(&self) -> (r: String)
        ensures
            r@ == path_join(self.target_dir@, "debian"@),
    {
        join(self.target_dir.as_str(), "debian")
    }

    /// Where the file of a package goes: to the directory of packages, or where the user wants it. A
    /// path that ends with a slash, or is a directory, is where the file goes.
    pub open spec fn output_path(self, p: PackageConfig, output_path_is_dir: bool) -> Seq<char> {
        match self.deb_output_path {
            Some(path) => if has_suffix(path@, "/"@) || output_path_is_dir {
                path_join(path@, deb_file_name(p))
            } else if p.is_split_dbgsym_package {
                with_extension(path@, "ddeb"@)
            } else {
                path@
            },
            None => path_join(path_join(self.target_dir@, "debian"@), deb_file_name(p)),
        }
    }

    /// Save final .deb here
    pub fn deb_output_path(&self, package_deb: &PackageConfig, output_path_is_dir: bool) -> (r:
        String)
        ensures
            r@ == self.output_path(*package_deb, output_path_is_dir),
    {
        let filename = package_deb.file_name();
        match &self.deb_output_path {
            Some(path) => {
                if ends_with(path.as_str(), "/") || output_path_is_dir {
                    join(path.as_str(), filename.as_str())
                } else if package_deb.is_split_dbgsym_package {
                    replace_extension(path.as_str(), "ddeb")
                } else {
                    path.clone()
                }
            },
            None => {
                let dir = self.default_deb_output_dir();
                join(dir.as_str(), filename.as_str())
            },
        }
    }
}

impl PackageConfig {
    /// The name of the file of the package.
    pub fn file_name(&self) -> (r: String)
        ensures
            r@ == deb_file_name(*self),
    {
        let mut s = cat3(self.deb_name.as_str(), "_", self.deb_version.as_str());
        s.append("_");
        s.append(self.architecture.as_str());
        if self.is_split_dbgsym_package {
            s.append(".ddeb");
        } else {
            s.append(".deb");
        }
        s
    }

    /// The patterns of the files of other versions of the package, and of their debug symbols.
    pub open spec fn old_files(self) -> (Seq<char>, Seq<char>) {
        (
            self.deb_name@ + "_*_"@ + self.architecture@ + ".deb"@,
            self.deb_name@ + "-dbgsym_*_"@ + self.architecture@ + ".ddeb"@,
        )
    }

    /// The patterns of the files of other versions of the package.
    pub fn old_file_patterns(&self) -> (r: (String, String))
        ensures
            (r.0@, r.1@) == self.old_files(),
    {
        let mut a = cat3(self.deb_name.as_str(), "_*_", self.architecture.as_str());
        a.append(".deb");
        let mut b = cat3(self.deb_name.as_str(), "-dbgsym_*_", self.architecture.as_str());
        b.append(".ddeb");
        (a, b)
    }

    /// Use `/usr/lib/arch-linux-gnu` dir for libraries
    pub fn set_multiarch(&mut self, enable: Multiarch)
        ensures
            *final(self) == (PackageConfig { multiarch: enable, ..*old(self) }),
    {
        self.multiarch = enable;
    }

    /// The directory of libraries.
    pub open spec fn lib_dir(self, triple: Seq<char>) -> Seq<char> {
        if self.multiarch == Multiarch::Unsupported {
            "usr/lib"@
        } else {
            "usr/lib/"@ + debian_triple(triple)
        }
    }

    pub fn library_install_dir(&self, rust_target_triple: &str) -> (r: String)
        ensures
            r@ == self.lib_dir(rust_target_triple@),
    {
        if self.multiarch == Multiarch::Unsupported {
            "usr/lib".to_owned()
        } else {
            let (p, _) = self.multiarch_lib_dirs(rust_target_triple);
            p
        }
    }

    /// Apparently, Debian uses both! The first one is preferred?
    pub fn multiarch_lib_dirs(&self, rust_target_triple: &str) -> (r: (String, String))
        ensures
            r.0@ == "usr/lib/"@ + debian_triple(rust_target_triple@),
            r.1@ == "usr/"@ + debian_triple(rust_target_triple@) + "/lib"@,
    {
        let triple = debian_triple_from_rust_triple(rust_target_triple);
        let debian_multiarch = cat("usr/lib/", triple.as_str());
        let gcc_crossbuild = cat3("usr/", triple.as_str(), "/lib");
        (debian_multiarch, gcc_crossbuild)
    }
}

} // verus!
