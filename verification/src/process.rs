//! From the command line to an installed package.
use crate::arch::warn_if_not_linux;
use crate::compress::{CompressConfig, CompressType};
use crate::config::splitting::{debug_files, is_dbgsym_package, regular_files};
use crate::config::{BuildEnvironment, BuildOptions, DebConfigOverrides, DebugSymbolOptions, DebugSymbols, Multiarch, PackageConfig};
use crate::error::{CDResult, CargoDebError, Cause, ErrorView};
use crate::listener::{warn, Message, MessageView, Verbosity};
use crate::parse::manifest::{first_of, or, BuildProfile, CompressDebugSymbols};
use crate::text::{cat3, same};
use crate::CargoLockingFlags;
use vstd::prelude::*;

verus! {

/// Everything that has been asked for.
#[derive(Debug)]
pub struct CargoDeb {
    pub options: BuildOptions,
    pub no_build: bool,
    /// Build with --verbose
    pub verbose_cargo_build: bool,
    /// More info from cargo deb
    pub verbose: bool,
    /// Run dpkg -i
    pub install: bool,
    pub install_without_dbgsym: bool,
    pub compress_config: CompressConfig,
}

/// What is done, in order.
#[derive(Debug, Copy, Clone, PartialEq, Eq, Structural)]
pub enum Stage {
    /// Read the manifest, and find out what is to be packaged.
    ReadManifest,
    /// Let Cargo build it.
    Build,
    /// Find the files.
    ResolveAssets,
    /// Find the packages that the binaries depend on, and compress what is to be compressed.
    ResolveDependencies,
    /// Strip the binaries, or move their debug symbols to other files.
    Strip,
    /// Move debug symbols to another package.
    Split,
    /// Write the packages.
    Write,
    /// Tell where they are.
    Announce,
    Install,
    Finished,
}

/// What the command line says.
#[derive(Debug)]
pub struct Arguments {
    pub output: Option<String>,
    pub package: Option<String>,
    pub manifest_path: Option<String>,
    pub target: Option<String>,
    pub multiarch: Option<String>,
    pub profile: Option<String>,
    pub install: bool,
    pub no_install_dbgsym: bool,
    pub quiet: bool,
    /// How often it is asked for.
    pub verbose: u8,
    pub dbgsym: bool,
    pub no_dbgsym: bool,
    pub strip: bool,
    pub no_strip: bool,
    pub separate_debug_symbols: bool,
    pub no_separate_debug_symbols: bool,
    pub compress_debug_symbols: Option<String>,
    pub no_compress_debug_symbols: bool,
    pub variant: Option<String>,
    pub deb_version: Option<String>,
    pub deb_revision: Option<String>,
    pub maintainer: Option<String>,
    pub section: Option<String>,
    pub no_build: bool,
    pub cargo_build: Option<String>,
    pub override_debug: Option<String>,
    pub override_lto: Option<String>,
    pub fast: bool,
    pub compress_type: Option<String>,
    pub compress_system: bool,
    pub rsyncable: bool,
    pub features: Vec<String>,
    pub no_default_features: bool,
    pub all_features: bool,
    pub offline: bool,
    pub locked: bool,
    pub frozen: bool,
    /// Arguments for Cargo.
    pub free_args: Vec<String>,
}

impl Default for CargoDeb {
    /// A release build of the package in the current directory, compressed with xz.
    fn default() -> (r: Self)
        ensures
            !r.no_build && !r.verbose && !r.verbose_cargo_build,
            !r.install && !r.install_without_dbgsym,
            r.compress_config == (CompressConfig {
                fast: false,
                compress_type: CompressType::Xz,
                compress_system: false,
                rsyncable: false,
            }),
            r.options.manifest_path is None && r.options.selected_package_name is None,
            r.options.deb_output_path is None && r.options.rust_target_triple is None,
            r.options.config_variant is None && r.options.cargo_build_cmd is None,
            r.options.build_profile == (BuildProfile {
                profile_name: None,
                override_debug: None,
                override_lto: None,
            }),
            r.options.debug == (DebugSymbolOptions {
                generate_dbgsym_package: None,
                separate_debug_symbols: None,
                compress_debug_symbols: None,
                strip_override: None,
            }),
            r.options.cargo_locking_flags == (CargoLockingFlags {
                offline: false,
                frozen: false,
                locked: false,
            }),
            r.options.multiarch == Multiarch::Unsupported,
            r.options.cargo_build_flags@.len() == 0,
            r.options.overrides.features@.len() == 0,
            r.options.overrides == (DebConfigOverrides {
                deb_version: None,
                deb_revision: None,
                maintainer: None,
                section: None,
                features: r.options.overrides.features,
                no_default_features: false,
                all_features: false,
                systemd_units: None,
                maintainer_scripts_rel_path: None,
            }),
    {
        CargoDeb {
            options: BuildOptions {
                manifest_path: None,
                selected_package_name: None,
                deb_output_path: None,
                rust_target_triple: None,
                config_variant: None,
                overrides: DebConfigOverrides {
                    deb_version: None,
                    deb_revision: None,
                    maintainer: None,
                    section: None,
                    features: Vec::new(),
                    no_default_features: false,
                    all_features: false,
                    systemd_units: None,
                    maintainer_scripts_rel_path: None,
                },
                build_profile: BuildProfile {
                    profile_name: None,
                    override_debug: None,
                    override_lto: None,
                },
                debug: DebugSymbolOptions {
                    generate_dbgsym_package: None,
                    separate_debug_symbols: None,
                    compress_debug_symbols: None,
                    strip_override: None,
                },
                cargo_locking_flags: CargoLockingFlags {
                    offline: false,
                    frozen: false,
                    locked: false,
                },
                multiarch: Multiarch::Unsupported,
                cargo_build_cmd: None,
                cargo_build_flags: Vec::new(),
            },
            no_build: false,
            verbose: false,
            verbose_cargo_build: false,
            install: false,
            install_without_dbgsym: false,
            compress_config: CompressConfig {
                fast: false,
                compress_type: CompressType::Xz,
                compress_system: false,
                rsyncable: false,
            },
        }
    }
}

// ---------------------------------------------------------------------------
// The command line
// ---------------------------------------------------------------------------
/// Two options that exclude each other.
pub open spec fn choice(yes: bool, no: bool) -> Option<bool> {
    if yes {
        Some(true)
    } else if no {
        Some(false)
    } else {
        None
    }
}

fn choice_of(yes: bool, no: bool) -> (r: Option<bool>)
    ensures
        r == choice(yes, no),
{
    if yes {
        Some(true)
    } else if no {
        Some(false)
    } else {
        None
    }
}

/// The compression of archives: xz, unless gzip is asked for.
pub open spec fn compression_named(name: Option<Seq<char>>) -> CompressType {
    if name == Some("gz"@) || name == Some("gzip"@) {
        CompressType::Gzip
    } else {
        CompressType::Xz
    }
}

fn compression_of(name: Option<&String>) -> (r: CompressType)
    ensures
        r == compression_named(
            match name {
                Some(n) => Some(n@),
                None => None,
            },
        ),
{
    match name {
        Some(n) => if same(n.as_str(), "gz") || same(n.as_str(), "gzip") {
            CompressType::Gzip
        } else {
            CompressType::Xz
        },
        None => CompressType::Xz,
    }
}

pub open spec fn multiarch_named(name: Option<Seq<char>>) -> Multiarch {
    if name == Some("same"@) {
        Multiarch::Same
    } else if name == Some("foreign"@) {
        Multiarch::Foreign
    } else {
        Multiarch::Unsupported
    }
}

fn multiarch_of(name: Option<&String>) -> (r: Multiarch)
    ensures
        r == multiarch_named(
            match name {
                Some(n) => Some(n@),
                None => None,
            },
        ),
{
    match name {
        Some(n) => if same(n.as_str(), "same") {
            Multiarch::Same
        } else if same(n.as_str(), "foreign") {
            Multiarch::Foreign
        } else {
            Multiarch::Unsupported
        },
        None => Multiarch::Unsupported,
    }
}

/// The compression of debug symbols.
pub open spec fn symbol_compression(name: Option<Seq<char>>, no: bool) -> Option<
    CompressDebugSymbols,
> {
    match name {
        Some(n) => Some(
            if n == "zlib"@ {
                CompressDebugSymbols::Zlib
            } else if n == "zstd"@ {
                CompressDebugSymbols::Zstd
            } else {
                CompressDebugSymbols::Auto
            },
        ),
        None => if no {
            Some(CompressDebugSymbols::No)
        } else {
            None
        },
    }
}

fn symbol_compression_of(name: Option<&String>, no: bool) -> (r: Option<CompressDebugSymbols>)
    ensures
        r == symbol_compression(
            match name {
                Some(n) => Some(n@),
                None => None,
            },
            no,
        ),
{
    match name {
        Some(n) => Some(
            if same(n.as_str(), "zlib") {
                CompressDebugSymbols::Zlib
            } else if same(n.as_str(), "zstd") {
                CompressDebugSymbols::Zstd
            } else {
                CompressDebugSymbols::Auto
            },
        ),
        None => if no {
            Some(CompressDebugSymbols::No)
        } else {
            None
        },
    }
}

/// The arguments for Cargo: `cargo deb` invocation passes the `deb` arg through.
pub open spec fn without_deb(args: Seq<String>) -> Seq<String> {
    if args.len() > 0 && args[0]@ == "deb"@ {
        args.skip(1)
    } else {
        args
    }
}

/// What is said of a revision that has no effect.
pub open spec fn revision_warning(version: Option<Seq<char>>, revision: Option<Seq<char>>) -> Seq<
    MessageView,
> {
    if version is Some && revision is Some && revision->0.len() > 0 {
        seq![
            MessageView::Warning(
                "--deb-version takes precedence over --deb-revision. Revision '"@ + revision->0
                    + "' will be ignored"@,
            ),
        ]
    } else {
        Seq::empty()
    }
}

impl Arguments {
    /// What is to be shown: much, if it is asked for, or by a variable unless quiet is wanted.
    pub fn verbosity(&self, rust_log: Option<&String>) -> (r: Verbosity)
        ensures
            r.quiet == self.quiet,
            r.verbose == (self.verbose > 0 || (!self.quiet && rust_log is Some && rust_log->0@
                == "debug"@)),
    {
        let debug = match rust_log {
            Some(v) => same(v.as_str(), "debug"),
            None => false,
        };
        Verbosity { verbose: self.verbose > 0 || (!self.quiet && debug), quiet: self.quiet }
    }

    /// The request is what the options ask for.
    pub open spec fn is_request(
        self,
        r: CargoDeb,
        verbose: bool,
        cargo_build_target: Option<String>,
    ) -> bool {
        &&& r.options.deb_output_path == self.output
        &&& r.no_build == self.no_build
        &&& r.verbose == verbose
        &&& r.verbose_cargo_build == (self.verbose > 1)
        &&& r.install == self.install
        &&& r.install_without_dbgsym == self.no_install_dbgsym
        // when installing locally it won't be transferred anywhere, so allow faster compression
        &&& r.compress_config.fast == (self.install || self.fast)
        &&& r.compress_config.compress_type == compression_named(self.compress_type.deep_view())
        &&& r.compress_config.compress_system == self.compress_system
        &&& r.compress_config.rsyncable == self.rsyncable
        &&& r.options.config_variant == self.variant
        &&& r.options.rust_target_triple == first_of(self.target, cargo_build_target)
        &&& r.options.multiarch == multiarch_named(self.multiarch.deep_view())
        &&& r.options.selected_package_name == self.package
        &&& r.options.manifest_path == self.manifest_path
        &&& r.options.cargo_build_cmd == self.cargo_build
        &&& r.options.cargo_build_flags@ == without_deb(self.free_args@)
        &&& r.options.debug.strip_override == choice(self.strip, self.no_strip)
        &&& r.options.debug.separate_debug_symbols == choice(
            self.separate_debug_symbols,
            self.no_separate_debug_symbols,
        )
        &&& r.options.debug.compress_debug_symbols == symbol_compression(
            self.compress_debug_symbols.deep_view(),
            self.no_compress_debug_symbols,
        )
        &&& r.options.debug.generate_dbgsym_package == choice(self.dbgsym, self.no_dbgsym)
        &&& r.options.overrides == (DebConfigOverrides {
            deb_version: self.deb_version,
            deb_revision: self.deb_revision,
            maintainer: self.maintainer,
            section: self.section,
            features: self.features,
            no_default_features: self.no_default_features,
            all_features: self.all_features,
            systemd_units: None,
            maintainer_scripts_rel_path: None,
        })
        &&& r.options.build_profile == (BuildProfile {
            profile_name: self.profile,
            override_debug: self.override_debug,
            override_lto: self.override_lto,
        })
        &&& r.options.cargo_locking_flags == (CargoLockingFlags {
            offline: self.offline,
            frozen: self.frozen,
            locked: self.locked,
        })
    }

    /// What is asked for, given the target that a variable names.
    pub fn into_request(
        self,
        verbose: bool,
        cargo_build_target: Option<String>,
        log: &mut Vec<Message>,
    ) -> (r: CargoDeb)
        ensures
            self.is_request(r, verbose, cargo_build_target),
            final(log).deep_view() == old(log).deep_view() + revision_warning(
                self.deb_version.deep_view(),
                self.deb_revision.deep_view(),
            ),
    {
        let ghost log0 = log.deep_view();
        if self.deb_version.is_some() {
            if let Some(revision) = &self.deb_revision {
                if !revision.as_str().is_empty() {
                    warn(
                        log,
                        cat3(
                            "--deb-version takes precedence over --deb-revision. Revision '",
                            revision.as_str(),
                            "' will be ignored",
                        ),
                    );
                }
            }
        }
        assert(log.deep_view() =~= log0 + revision_warning(
            self.deb_version.deep_view(),
            self.deb_revision.deep_view(),
        ));
        let mut free_args = self.free_args;
        if free_args.len() > 0 && same(free_args[0].as_str(), "deb") {
            free_args.remove(0);
            assert(free_args@ =~= self.free_args@.skip(1));
        }
        CargoDeb {
            no_build: self.no_build,
            verbose,
            verbose_cargo_build: self.verbose > 1,
            install: self.install,
            install_without_dbgsym: self.no_install_dbgsym,
            compress_config: CompressConfig {
                // when installing locally it won't be transferred anywhere, so allow faster compression
                fast: self.install || self.fast,
                compress_type: compression_of(self.compress_type.as_ref()),
                compress_system: self.compress_system,
                rsyncable: self.rsyncable,
            },
            options: BuildOptions {
                manifest_path: self.manifest_path,
                selected_package_name: self.package,
                deb_output_path: self.output,
                rust_target_triple: or(self.target, cargo_build_target),
                config_variant: self.variant,
                overrides: DebConfigOverrides {
                    deb_version: self.deb_version,
                    deb_revision: self.deb_revision,
                    maintainer: self.maintainer,
                    section: self.section,
                    features: self.features,
                    no_default_features: self.no_default_features,
                    all_features: self.all_features,
                    systemd_units: None,
                    maintainer_scripts_rel_path: None,
                },
                build_profile: BuildProfile {
                    profile_name: self.profile,
                    override_debug: self.override_debug,
                    override_lto: self.override_lto,
                },
                debug: DebugSymbolOptions {
                    generate_dbgsym_package: choice_of(self.dbgsym, self.no_dbgsym),
                    separate_debug_symbols: choice_of(
                        self.separate_debug_symbols,
                        self.no_separate_debug_symbols,
                    ),
                    compress_debug_symbols: symbol_compression_of(
                        self.compress_debug_symbols.as_ref(),
                        self.no_compress_debug_symbols,
                    ),
                    strip_override: choice_of(self.strip, self.no_strip),
                },
                cargo_locking_flags: CargoLockingFlags {
                    offline: self.offline,
                    frozen: self.frozen,
                    locked: self.locked,
                },
                multiarch: multiarch_of(self.multiarch.as_ref()),
                cargo_build_cmd: self.cargo_build,
                cargo_build_flags: free_args,
            },
        }
    }
}

// ---------------------------------------------------------------------------
// The order of things
// ---------------------------------------------------------------------------
impl Stage {
    /// How many stages are yet to come, at most.
    pub open spec fn remaining(self) -> nat {
        match self {
            Stage::ReadManifest => 9,
            Stage::Build => 8,
            Stage::ResolveAssets => 7,
            Stage::ResolveDependencies => 6,
            Stage::Strip => 5,
            Stage::Split => 4,
            Stage::Write => 3,
            Stage::Announce => 2,
            Stage::Install => 1,
            Stage::Finished => 0,
        }
    }

    /// What comes behind a stage that has gone well. There is no build, and no installation, unless
    /// it is wanted.
    pub open spec fn following(self, no_build: bool, install: bool) -> Stage {
        match self {
            Stage::ReadManifest => if no_build {
                Stage::ResolveAssets
            } else {
                Stage::Build
            },
            Stage::Build => Stage::ResolveAssets,
            Stage::ResolveAssets => Stage::ResolveDependencies,
            Stage::ResolveDependencies => Stage::Strip,
            Stage::Strip => Stage::Split,
            Stage::Split => Stage::Write,
            Stage::Write => Stage::Announce,
            Stage::Announce => if install {
                Stage::Install
            } else {
                Stage::Finished
            },
            Stage::Install => Stage::Finished,
            Stage::Finished => Stage::Finished,
        }
    }

    /// What comes behind a stage that has gone well.
    pub fn next(self, no_build: bool, install: bool) -> (r: Stage)
        ensures
            r == self.following(no_build, install),
    {
        match self {
            Stage::ReadManifest => if no_build {
                Stage::ResolveAssets
            } else {
                Stage::Build
            },
            Stage::Build => Stage::ResolveAssets,
            Stage::ResolveAssets => Stage::ResolveDependencies,
            Stage::ResolveDependencies => Stage::Strip,
            Stage::Strip => Stage::Split,
            Stage::Split => Stage::Write,
            Stage::Write => Stage::Announce,
            Stage::Announce => if install {
                Stage::Install
            } else {
                Stage::Finished
            },
            Stage::Install => Stage::Finished,
            Stage::Finished => Stage::Finished,
        }
    }
}

/// The stage after `n` steps.
pub open spec fn stage_after(no_build: bool, install: bool, n: nat) -> Stage
    decreases n,
{
    if n == 0 {
        Stage::ReadManifest
    } else {
        stage_after(no_build, install, (n - 1) as nat).following(no_build, install)
    }
}

proof fn lemma_remaining(no_build: bool, install: bool, n: nat)
    ensures
        stage_after(no_build, install, n).remaining() <= if n <= 9 {
            (9 - n) as nat
        } else {
            0
        },
        no_build ==> stage_after(no_build, install, n) != Stage::Build,
        !install ==> stage_after(no_build, install, n) != Stage::Install,
    decreases n,
{
    if n > 0 {
        lemma_remaining(no_build, install, (n - 1) as nat);
    }
}

/// It comes to an end, whatever is asked for; Cargo is not run if there is to be no build, and
/// nothing is installed unless it is asked for.
pub proof fn law_process_ends(no_build: bool, install: bool, n: nat)
    ensures
        n >= 9 ==> stage_after(no_build, install, n) == Stage::Finished,
        no_build ==> stage_after(no_build, install, n) != Stage::Build,
        !install ==> stage_after(no_build, install, n) != Stage::Install,
{
    lemma_remaining(no_build, install, n);
}

// ---------------------------------------------------------------------------
// Decisions
// ---------------------------------------------------------------------------
/// What is said of a build with a profile for development.
pub open spec fn dev_warning(profile: Seq<char>) -> Seq<MessageView> {
    if profile == "debug"@ || profile == "dev"@ {
        seq![
            MessageView::Warning(
                "dev profile is not supported and will be a hard error in the future. cargo-deb is for making releases, and it doesn't make sense to use it with dev profiles.\nTo enable debug symbols set `[profile.release] debug = 1` instead, or use --debug-override. Cargo also supports custom profiles, you can make `[profile.dist]`, etc."@,
            ),
        ]
    } else {
        Seq::empty()
    }
}

/// What is said of a package for another system than Linux.
pub open spec fn system_warning(wanted: bool, os: Seq<char>) -> Seq<MessageView> {
    if wanted && os != "linux"@ {
        seq![
            MessageView::Warning(
                "You're creating a package only for "@ + os
                    + ", and not for Linux.\nUse --target if you want to cross-compile."@,
            ),
        ]
    } else {
        Seq::empty()
    }
}

impl CargoDeb {
    /// The request with what follows from it: a package of debug symbols needs files of debug symbols.
    pub open spec fn prepared(self) -> CargoDeb {
        let debug = self.options.debug;
        let separate = if debug.generate_dbgsym_package == Some(true)
            && debug.separate_debug_symbols is None {
            Some(true)
        } else {
            debug.separate_debug_symbols
        };
        CargoDeb {
            options: BuildOptions {
                debug: DebugSymbolOptions { separate_debug_symbols: separate, ..debug },
                ..self.options
            },
            ..self
        }
    }

    /// What the request is warned of before anything is done.
    pub open spec fn first_warnings(self, os: Seq<char>) -> Seq<MessageView> {
        system_warning(self.install || self.options.rust_target_triple is None, os) + dev_warning(
            self.options.build_profile.name(),
        )
    }

    /// What follows from the options alone: a package of debug symbols needs files of debug symbols,
    /// and some wishes are warned of. Tells whether the package was asked for.
    pub fn prepare(&mut self, os: &str, log: &mut Vec<Message>) -> (asked_for_dbgsym_package: bool)
        ensures
            asked_for_dbgsym_package == (old(self).options.debug.generate_dbgsym_package == Some(
                true,
            )),
            *final(self) == old(self).prepared(),
            final(log).deep_view() == old(log).deep_view() + old(self).first_warnings(os@),
    {
        let ghost log0 = log.deep_view();
        if self.install || self.options.rust_target_triple.is_none() {
            // compiling natively for non-linux = nope
            if let Some(text) = warn_if_not_linux(os) {
                warn(log, text);
            }
        }
        let ghost log1 = log.deep_view();
        assert(log1 =~= log0 + system_warning(
            self.install || self.options.rust_target_triple is None,
            os@,
        ));
        let asked_for_dbgsym_package = match self.options.debug.generate_dbgsym_package {
            Some(b) => b,
            None => false,
        };
        if asked_for_dbgsym_package && self.options.debug.separate_debug_symbols.is_none() {
            self.options.debug.separate_debug_symbols = Some(true);
        }
        // The profile is selected based on the given ClI options and then passed to
        // cargo build accordingly. you could argue that the other way around is
        // more desirable. However for now we want all commands coming in via the
        // same `interface`
        let profile = self.options.build_profile.profile_name();
        if same(profile, "debug") || same(profile, "dev") {
            warn(
                log,
                "dev profile is not supported and will be a hard error in the future. cargo-deb is for making releases, and it doesn't make sense to use it with dev profiles.\nTo enable debug symbols set `[profile.release] debug = 1` instead, or use --debug-override. Cargo also supports custom profiles, you can make `[profile.dist]`, etc.".to_owned(),
            );
        }
        assert(log.deep_view() =~= log1 + dev_warning(self.options.build_profile.name()));
        assert(log.deep_view() =~= log0 + old(self).first_warnings(os@));
        asked_for_dbgsym_package
    }

    /// The packages to install.
    pub open spec fn installed(self, deb: Seq<char>, ddeb: Option<Seq<char>>) -> Seq<Seq<char>> {
        if !self.install {
            Seq::empty()
        } else if ddeb is Some && !self.install_without_dbgsym {
            seq![deb, ddeb->0]
        } else {
            seq![deb]
        }
    }

    /// The packages to install: the one with debug symbols too, if there is one, unless it is not
    /// wanted.
    pub fn debs_to_install(&self, generated_deb: &String, generated_dbgsym_ddeb: Option<&String>) -> (r:
        Vec<String>)
        ensures
            r.deep_view() == self.installed(
                generated_deb@,
                match generated_dbgsym_ddeb {
                    Some(ddeb) => Some(ddeb@),
                    None => None,
                },
            ),
    {
        let mut paths: Vec<String> = Vec::new();
        if self.install {
            paths.push(generated_deb.clone());
            if let Some(ddeb) = generated_dbgsym_ddeb {
                if !self.install_without_dbgsym {
                    paths.push(ddeb.clone());
                }
            }
        }
        assert(paths.deep_view() =~= self.installed(
            generated_deb@,
            match generated_dbgsym_ddeb {
                Some(ddeb) => Some(ddeb@),
                None => None,
            },
        ));
        paths
    }
}

/// What is announced: the package with debug symbols first, if there is one.
pub fn announced(generated_deb: &String, generated_dbgsym_ddeb: Option<&String>) -> (r: Vec<String>)
    ensures
        r.deep_view() == match generated_dbgsym_ddeb {
            Some(ddeb) => seq![ddeb@, generated_deb@],
            None => seq![generated_deb@],
        },
{
    let mut paths: Vec<String> = Vec::new();
    if let Some(ddeb) = generated_dbgsym_ddeb {
        paths.push(ddeb.clone());
    }
    paths.push(generated_deb.clone());
    assert(paths.deep_view() =~= match generated_dbgsym_ddeb {
        Some(ddeb) => seq![ddeb@, generated_deb@],
        None => seq![generated_deb@],
    });
    paths
}

impl BuildEnvironment {
    /// Debug symbols go into a package of their own.
    pub open spec fn makes_dbgsym_package(self) -> bool {
        self.debug_symbols matches DebugSymbols::Separate { generate_dbgsym_package, .. }
            && generate_dbgsym_package
    }

    /// Moves debug symbols to a package of their own, if that is wanted and there are any.
    pub fn split_package(&self, package_deb: &mut PackageConfig, log: &mut Vec<Message>) -> (r: CDResult<
        Option<PackageConfig>,
    >)
        requires
            old(package_deb).assets.unresolved.len() == 0,
        ensures
            r is Ok,
            *final(package_deb) == (PackageConfig {
                assets: final(package_deb).assets,
                ..*old(package_deb)
            }),
            final(package_deb).assets.unresolved == old(package_deb).assets.unresolved,
            ({
                let assets = old(package_deb).assets.resolved.deep_view();
                let debug = debug_files(assets);
                if !self.makes_dbgsym_package() {
                    &&& r->Ok_0 is None
                    &&& *final(package_deb) == *old(package_deb)
                    &&& *final(log) == *old(log)
                } else if debug.len() == 0 {
                    &&& r->Ok_0 is None
                    &&& final(package_deb).assets.resolved.deep_view() == regular_files(assets)
                    &&& final(log).deep_view() == old(log).deep_view() + seq![
                        MessageView::Warning("No debug symbols found. Skipping dbgsym.ddeb"@),
                    ]
                } else {
                    &&& r->Ok_0 is Some && is_dbgsym_package(
                        r->Ok_0->0,
                        *old(package_deb),
                        debug,
                    )
                    &&& final(package_deb).assets.resolved.deep_view() == regular_files(assets)
                    &&& *final(log) == *old(log)
                }
            }),
    {
        let generate_dbgsym_package = match self.debug_symbols {
            DebugSymbols::Separate { generate_dbgsym_package, .. } => generate_dbgsym_package,
            _ => false,
        };
        if !generate_dbgsym_package {
            return Ok(None);
        }
        let package_dbgsym_ddeb = package_deb.split_dbgsym()?;
        if package_dbgsym_ddeb.is_none() {
            warn(log, "No debug symbols found. Skipping dbgsym.ddeb".to_owned());
        }
        Ok(package_dbgsym_ddeb)
    }
}

// ---------------------------------------------------------------------------
// Installing
// ---------------------------------------------------------------------------
/// How the program that installs packages has fared.
#[derive(Debug)]
pub enum InstallResult {
    Succeeded,
    /// It has failed with this status.
    Failed(String),
    /// It could not be run.
    NotRun(Cause),
}

/// What comes behind an attempt to install.
#[derive(Debug)]
pub enum InstallNext {
    Done(CDResult<()>),
    /// Try once more, without `sudo`.
    WithoutSudo,
}

/// Whether `sudo` is not needed, given the number of the user: it is the one of the root user.
pub fn is_root(euid: Option<&String>, uid: Option<&String>) -> (r: bool)
    ensures
        r == match euid {
            Some(id) => id@ == "0"@,
            None => match uid {
                Some(id) => id@ == "0"@,
                None => false,
            },
        },
{
    match euid {
        Some(id) => same(id.as_str(), "0"),
        None => match uid {
            Some(id) => same(id.as_str(), "0"),
            None => false,
        },
    }
}

/// The program that installs packages.
pub open spec fn install_program(no_sudo: bool) -> Seq<char> {
    if no_sudo {
        "dpkg"@
    } else {
        "sudo"@
    }
}

/// Its arguments.
pub open spec fn install_args(no_sudo: bool, paths: Seq<Seq<char>>) -> Seq<Seq<char>> {
    (if no_sudo {
        seq!["-i"@, "--"@]
    } else {
        seq!["dpkg"@, "-i"@, "--"@]
    }) + paths
}

/// The program that installs packages, and its arguments.
pub fn install_command(paths: &Vec<String>, no_sudo: bool) -> (r: (&'static str, Vec<String>))
    ensures
        r.0@ == install_program(no_sudo),
        r.1.deep_view() == install_args(no_sudo, paths.deep_view()),
{
    let exe = if no_sudo {
        "dpkg"
    } else {
        "sudo"
    };
    let mut args: Vec<String> = Vec::new();
    if !no_sudo {
        args.push("dpkg".to_owned());
    }
    args.push("-i".to_owned());
    args.push("--".to_owned());
    let ghost first = args.deep_view();
    assert(first =~= if no_sudo {
        seq!["-i"@, "--"@]
    } else {
        seq!["dpkg"@, "-i"@, "--"@]
    });
    let mut more = crate::assets::clone_strings(paths);
    args.append(&mut more);
    assert(args.deep_view() =~= first + paths.deep_view());
    (exe, args)
}

/// What comes behind an attempt to install: another one, if there is no `sudo` to be run.
pub fn after_install(result: InstallResult, no_sudo: bool) -> (r: InstallNext)
    ensures
        match result {
            InstallResult::Succeeded => r matches InstallNext::Done(Ok(_)),
            InstallResult::Failed(status) => (r matches InstallNext::Done(Err(e)) && e.deep_view()
                == ErrorView::InstallFailed(status@)),
            InstallResult::NotRun(cause) => if no_sudo {
                r matches InstallNext::Done(Err(e)) && e.deep_view() == ErrorView::CommandFailed(
                    cause.deep_view(),
                    "dpkg"@,
                )
            } else {
                r is WithoutSudo
            },
        },
{
    match result {
        InstallResult::Succeeded => InstallNext::Done(Ok(())),
        InstallResult::Failed(status) => InstallNext::Done(
            Err(CargoDebError::InstallFailed(status)),
        ),
        InstallResult::NotRun(cause) => if no_sudo {
            InstallNext::Done(Err(CargoDebError::CommandFailed(cause, "dpkg".to_owned())))
        } else {
            InstallNext::WithoutSudo
        },
    }
}

} // verus!
