//! What becomes of debug symbols.
use crate::config::{DebugSymbolOptions, DebugSymbols};
use crate::debuginfo::compress_args;
use crate::listener::{warn, Message, MessageView};
use crate::parse::manifest::{first_of, or, CargoDeb, CompressDebugSymbols, ManifestDebugFlags};
use crate::text::{cat3, cat5};
use vstd::prelude::*;
use vstd::string::StringExecFns;

verus! {

/// Whether debug symbols go into a package of their own by default.
pub const DBGSYM_DEFAULT: bool = false;

/// Whether debug symbols go into files of their own by default.
pub const SEPARATE_DEBUG_SYMBOLS_DEFAULT: bool = false;

/// Whether debug symbols are compressed by default.
pub const COMPRESS_DEBUG_SYMBOLS_DEFAULT: bool = false;

/// What is wanted for debug symbols.
pub struct Wishes {
    /// A package of their own.
    pub dbgsym: bool,
    /// Files of their own are asked for (or are the default).
    pub wants_separate: bool,
    pub compress: CompressDebugSymbols,
}

impl Wishes {
    /// Files of their own: asked for, or needed for the package.
    pub open spec fn separate(self) -> bool {
        self.dbgsym || self.wants_separate
    }
}

/// What is wanted: by the options, else by `--no-strip` (which means not running the strip command,
/// even to separate symbols), else by the manifest, else by default.
pub open spec fn wishes(
    options: DebugSymbolOptions,
    deb: CargoDeb,
    flags: ManifestDebugFlags,
) -> Wishes {
    let no_strip: Option<bool> = if options.strip_override == Some(false) {
        Some(false)
    } else {
        None
    };
    let allows_separate = options.separate_debug_symbols != Some(false);
    let dbgsym = match first_of(first_of(options.generate_dbgsym_package, no_strip), deb.dbgsym) {
        Some(b) => b,
        None => allows_separate && DBGSYM_DEFAULT,
    };
    let wants_separate = match first_of(
        first_of(options.separate_debug_symbols, no_strip),
        deb.separate_debug_symbols,
    ) {
        Some(b) => b,
        None => dbgsym || (allows_separate && SEPARATE_DEBUG_SYMBOLS_DEFAULT),
    };
    let compress = match first_of(options.compress_debug_symbols, deb.compress_debug_symbols) {
        Some(CompressDebugSymbols::Auto) => if flags == ManifestDebugFlags::FullSymbolsAdded {
            CompressDebugSymbols::Zstd
        } else {
            CompressDebugSymbols::Auto
        },
        Some(c) => c,
        None => CompressDebugSymbols::No,
    };
    Wishes { dbgsym, wants_separate, compress }
}

/// What becomes of debug symbols.
pub open spec fn outcome(
    w: Wishes,
    strip_override: Option<bool>,
    flags: ManifestDebugFlags,
) -> DebugSymbols {
    let asked = match strip_override {
        Some(true) => Some(DebugSymbols::Strip),
        Some(false) => Some(DebugSymbols::Keep),
        None => None,
    };
    let kept = if w.separate() {
        DebugSymbols::Separate { compress: w.compress, generate_dbgsym_package: w.dbgsym }
    } else if asked is Some {
        asked->0
    } else {
        DebugSymbols::Keep
    };
    let stripped = if asked is Some {
        asked->0
    } else {
        DebugSymbols::Strip
    };
    match flags {
        ManifestDebugFlags::SomeSymbolsAdded => kept,
        ManifestDebugFlags::FullSymbolsAdded => kept,
        ManifestDebugFlags::SymbolsPackedExternally => kept,
        ManifestDebugFlags::FullyStrippedByCargo => if asked is Some {
            asked->0
        } else {
            DebugSymbols::Keep
        },
        ManifestDebugFlags::SymbolsDisabled => stripped,
        ManifestDebugFlags::Default => if w.separate() {
            kept
        } else {
            stripped
        },
    }
}

pub open spec fn option_name(w: Wishes) -> Seq<char> {
    if w.dbgsym {
        "dbgsym"@
    } else {
        "separate-debug-symbols"@
    }
}

/// The warning about wishes that do not go together.
pub open spec fn wish_warning(w: Wishes, strip_override: Option<bool>) -> Seq<MessageView> {
    if strip_override == Some(false) && w.separate() {
        seq![MessageView::Warning("--no-strip has no effect when using "@ + option_name(w))]
    } else if w.dbgsym && !w.wants_separate {
        seq![
            MessageView::Warning(
                "separate-debug-symbols can't be disabled when generating dbgsym"@,
            ),
        ]
    } else if !w.separate() && w.compress != CompressDebugSymbols::No {
        seq![
            MessageView::Warning(
                "--separate-debug-symbols or --dbgsym is required to compresss symbols"@,
            ),
        ]
    } else {
        Seq::empty()
    }
}

/// The warning about wishes that do not go together with what Cargo builds.
pub open spec fn flag_warning(w: Wishes, flags: ManifestDebugFlags, profile: Seq<char>) -> Seq<
    MessageView,
> {
    match flags {
        ManifestDebugFlags::SomeSymbolsAdded => Seq::empty(),
        ManifestDebugFlags::FullSymbolsAdded => if !w.separate() {
            seq![
                MessageView::Warning(
                    "the debug symbols may be bloated\nUse `[profile."@ + profile
                        + "] debug = \"line-tables-only\"` or --separate-debug-symbols or --dbgsym options"@,
                ),
            ]
        } else {
            Seq::empty()
        },
        ManifestDebugFlags::Default => if w.separate() {
            seq![
                MessageView::Warning(
                    "debug info hasn't been explicitly enabled, so "@ + option_name(w)
                        + " may not work\nAdd `[profile."@ + profile
                        + "] debug = 1` to Cargo.toml"@,
                ),
            ]
        } else {
            Seq::empty()
        },
        ManifestDebugFlags::FullyStrippedByCargo => if w.separate() || w.compress
            != CompressDebugSymbols::No {
            seq![
                MessageView::Warning(
                    option_name(w)
                        + " won't have any effect when Cargo is configured to strip the symbols first.\nRemove `strip` from `[profile."@
                        + profile + "]`"@,
                ),
            ]
        } else {
            Seq::empty()
        },
        ManifestDebugFlags::SymbolsDisabled => if w.separate() {
            seq![
                MessageView::Warning(
                    option_name(w)
                        + " won't have any effect when debug symbols are disabled\nAdd `[profile."@
                        + profile + "] debug = \"line-tables-only\"` to Cargo.toml"@,
                ),
            ]
        } else {
            Seq::empty()
        },
        ManifestDebugFlags::SymbolsPackedExternally => seq![
            MessageView::Warning(
                "Cargo's split-debuginfo option (.dwp/.dwo) is not supported; the symbols may be incomplete"@,
            ),
        ],
    }
}

fn wishes_of(options: &DebugSymbolOptions, deb: &CargoDeb, flags: ManifestDebugFlags) -> (r: Wishes)
    ensures
        r == wishes(*options, *deb, flags),
{
    let no_strip: Option<bool> = match options.strip_override {
        Some(false) => Some(false),
        _ => None,
    };
    let allows_separate = match options.separate_debug_symbols {
        Some(false) => false,
        _ => true,
    };
    let dbgsym = match or(or(options.generate_dbgsym_package, no_strip), deb.dbgsym) {
        Some(b) => b,
        None => allows_separate && DBGSYM_DEFAULT,
    };
    let wants_separate = match or(
        or(options.separate_debug_symbols, no_strip),
        deb.separate_debug_symbols,
    ) {
        Some(b) => b,
        None => dbgsym || (allows_separate && SEPARATE_DEBUG_SYMBOLS_DEFAULT),
    };
    let compress = match or(options.compress_debug_symbols, deb.compress_debug_symbols) {
        Some(CompressDebugSymbols::Auto) => if flags == ManifestDebugFlags::FullSymbolsAdded {
            CompressDebugSymbols::Zstd
        } else {
            CompressDebugSymbols::Auto
        },
        Some(c) => c,
        None => CompressDebugSymbols::No,
    };
    Wishes { dbgsym, wants_separate, compress }
}

/// What becomes of debug symbols.
pub fn configure_debug_symbols(
    debug: &DebugSymbolOptions,
    deb: &CargoDeb,
    manifest_debug: ManifestDebugFlags,
    selected_profile: &str,
    log: &mut Vec<Message>,
) -> (r: DebugSymbols)
    ensures
        r == outcome(
            wishes(*debug, *deb, manifest_debug),
            debug.strip_override,
            manifest_debug,
        ),
        final(log).deep_view() == old(log).deep_view() + wish_warning(
            wishes(*debug, *deb, manifest_debug),
            debug.strip_override,
        ) + flag_warning(
            wishes(*debug, *deb, manifest_debug),
            manifest_debug,
            selected_profile@,
        ),
{
    let w = wishes_of(debug, deb, manifest_debug);
    let separate = w.dbgsym || w.wants_separate;
    let compresses = w.compress != CompressDebugSymbols::No;
    let separate_option_name = if w.dbgsym {
        "dbgsym"
    } else {
        "separate-debug-symbols"
    };
    let ghost log0 = log.deep_view();
    let no_strip = match debug.strip_override {
        Some(false) => true,
        _ => false,
    };
    if no_strip && separate {
        warn(log, cat3("--no-strip has no effect when using ", separate_option_name, ""));
        proof {
            reveal_strlit("");
            assert("--no-strip has no effect when using "@ + separate_option_name@ + ""@
                =~= "--no-strip has no effect when using "@ + separate_option_name@);
        }
    } else if w.dbgsym && !w.wants_separate {
        warn(log, "separate-debug-symbols can't be disabled when generating dbgsym".to_owned());
    } else if !separate && compresses {
        warn(
            log,
            "--separate-debug-symbols or --dbgsym is required to compresss symbols".to_owned(),
        );
    }
    assert(log.deep_view() =~= log0 + wish_warning(w, debug.strip_override));
    let strip_override_default = match debug.strip_override {
        Some(s) => Some(
            if s {
                DebugSymbols::Strip
            } else {
                DebugSymbols::Keep
            },
        ),
        None => None,
    };
    let keep_debug_symbols_default = if separate {
        DebugSymbols::Separate { compress: w.compress, generate_dbgsym_package: w.dbgsym }
    } else {
        strip_override_default.unwrap_or(DebugSymbols::Keep)
    };
    let ghost log1 = log.deep_view();
    let r = match manifest_debug {
        ManifestDebugFlags::SomeSymbolsAdded => keep_debug_symbols_default,
        ManifestDebugFlags::FullSymbolsAdded => {
            if !separate {
                warn(
                    log,
                    cat3(
                        "the debug symbols may be bloated\nUse `[profile.",
                        selected_profile,
                        "] debug = \"line-tables-only\"` or --separate-debug-symbols or --dbgsym options",
                    ),
                );
            }
            keep_debug_symbols_default
        },
        ManifestDebugFlags::Default => {
            if separate {
                warn(
                    log,
                    cat5(
                        "debug info hasn't been explicitly enabled, so ",
                        separate_option_name,
                        " may not work\nAdd `[profile.",
                        selected_profile,
                        "] debug = 1` to Cargo.toml",
                    ),
                );
                keep_debug_symbols_default
            } else {
                // Rust still adds debug bloat from the libstd
                strip_override_default.unwrap_or(DebugSymbols::Strip)
            }
        },
        ManifestDebugFlags::FullyStrippedByCargo => {
            if separate || compresses {
                let mut s = cat3(
                    separate_option_name,
                    " won't have any effect when Cargo is configured to strip the symbols first.\nRemove `strip` from `[profile.",
                    selected_profile,
                );
                s.append("]`");
                warn(log, s);
            }
            strip_override_default.unwrap_or(DebugSymbols::Keep)  // no need to launch strip

        },
        ManifestDebugFlags::SymbolsDisabled => {
            if separate {
                let mut s = cat3(
                    separate_option_name,
                    " won't have any effect when debug symbols are disabled\nAdd `[profile.",
                    selected_profile,
                );
                s.append("] debug = \"line-tables-only\"` to Cargo.toml");
                warn(log, s);
            }
            // Rust still adds debug bloat from the libstd
            strip_override_default.unwrap_or(DebugSymbols::Strip)
        },
        ManifestDebugFlags::SymbolsPackedExternally => {
            warn(
                log,
                "Cargo's split-debuginfo option (.dwp/.dwo) is not supported; the symbols may be incomplete".to_owned(),
            );
            keep_debug_symbols_default
        },
    };
    assert(log.deep_view() =~= log1 + flag_warning(w, manifest_debug, selected_profile@));
    r
}

/// Symbols that Cargo has stripped already, or that the user wants to keep, are left as they are: no
/// other program is run for them, unless the user asks for that.
pub proof fn law_nothing_to_strip(w: Wishes, flags: ManifestDebugFlags)
    ensures
        outcome(w, None, ManifestDebugFlags::FullyStrippedByCargo) == DebugSymbols::Keep,
        !w.separate() ==> outcome(w, Some(false), flags) == DebugSymbols::Keep,
{
}

/// A package of debug symbols is made only where they go into files of their own.
pub proof fn law_dbgsym_separates(
    options: DebugSymbolOptions,
    deb: CargoDeb,
    flags: ManifestDebugFlags,
)
    ensures
        ({
            let w = wishes(options, deb, flags);
            match outcome(w, options.strip_override, flags) {
                DebugSymbols::Separate { generate_dbgsym_package, .. } => w.separate()
                    && generate_dbgsym_package == w.dbgsym,
                _ => true,
            }
        }),
{
}

/// What the user asks for on the command line is what is done: no package of debug symbols is made
/// if there is to be none, and one that is asked for goes before everything that the manifest says.
pub proof fn law_options_go_first(
    options: DebugSymbolOptions,
    deb: CargoDeb,
    flags: ManifestDebugFlags,
)
    ensures
        ({
            let w = wishes(options, deb, flags);
            &&& options.generate_dbgsym_package is Some ==> w.dbgsym
                == options.generate_dbgsym_package->0
            &&& options.generate_dbgsym_package == Some(false) ==> !(outcome(
                w,
                options.strip_override,
                flags,
            ) matches DebugSymbols::Separate { generate_dbgsym_package, .. }
                && generate_dbgsym_package)
            &&& options.strip_override == Some(false) ==> outcome(
                w,
                options.strip_override,
                flags,
            ) != DebugSymbols::Strip
        }),
{
}

/// Debug symbols are stripped by default, unless the profile adds some.
pub proof fn law_stripped_by_default(
    options: DebugSymbolOptions,
    deb: CargoDeb,
    flags: ManifestDebugFlags,
)
    requires
        options.generate_dbgsym_package is None,
        options.separate_debug_symbols is None,
        options.strip_override is None,
        deb.dbgsym is None,
        deb.separate_debug_symbols is None,
    ensures
        ({
            let r = outcome(wishes(options, deb, flags), None, flags);
            &&& flags == ManifestDebugFlags::Default ==> r == DebugSymbols::Strip
            &&& flags == ManifestDebugFlags::FullSymbolsAdded ==> r == DebugSymbols::Keep
        }),
{
}

/// Whatever the manifest says of files of debug symbols, an option can suppress them; only a package
/// of debug symbols cannot do without.
pub proof fn law_separation_can_be_suppressed(
    options: DebugSymbolOptions,
    deb: CargoDeb,
    flags: ManifestDebugFlags,
)
    requires
        options.separate_debug_symbols == Some(false),
        !wishes(options, deb, flags).dbgsym,
    ensures
        !(outcome(wishes(options, deb, flags), options.strip_override, flags) is Separate),
{
}

/// Where debug symbols are to be compressed and no algorithm is named, it is zstd if the profile adds
/// full debug symbols (for debuggers), and zlib otherwise (which backtraces of panics can read). One
/// that is named is taken.
pub proof fn law_compression_of_symbols(
    options: DebugSymbolOptions,
    deb: CargoDeb,
    flags: ManifestDebugFlags,
)
    ensures
        ({
            let asked = first_of(options.compress_debug_symbols, deb.compress_debug_symbols);
            let r = outcome(wishes(options, deb, flags), options.strip_override, flags);
            r matches DebugSymbols::Separate { compress, .. } ==> compress_args(compress)
                == match asked {
                None | Some(CompressDebugSymbols::No) => Seq::<Seq<char>>::empty(),
                Some(CompressDebugSymbols::Zstd) => seq!["--compress-debug-sections=zstd"@],
                Some(CompressDebugSymbols::Zlib) => seq!["--compress-debug-sections=zlib"@],
                Some(CompressDebugSymbols::Auto) => if flags
                    == ManifestDebugFlags::FullSymbolsAdded {
                    seq!["--compress-debug-sections=zstd"@]
                } else {
                    seq!["--compress-debug-sections=zlib"@]
                },
            }
        }),
{
}

} // verus!
