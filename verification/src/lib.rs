//! Building blocks of a Debian package builder for Cargo projects.
use vstd::prelude::*;

pub mod arch;
pub mod assets;
pub mod compress;
pub mod config;
pub mod deb;
pub mod debuginfo;
pub mod dependencies;
pub mod dh;
pub mod error;
pub mod globs;
pub mod laws;
pub mod listener;
pub mod numbers;
pub mod order;
pub mod parse;
pub mod path_parts;
pub mod paths;
pub mod process;
pub mod text;
pub mod util;

pub use crate::config::debug::{COMPRESS_DEBUG_SYMBOLS_DEFAULT, DBGSYM_DEFAULT, SEPARATE_DEBUG_SYMBOLS_DEFAULT};
pub use crate::config::{BuildEnvironment, DebugSymbols, PackageConfig};
pub use crate::deb::archive::DebArchive;
pub use crate::deb::writing::write_deb;
pub use crate::debuginfo::strip_binaries;
pub use crate::error::{CDResult, CargoDebError};
pub use crate::parse::manifest::BuildProfile;
pub use crate::process::CargoDeb;

verus! {

/// Whether Cargo may go online, and change its lock file.
#[derive(Copy, Clone, Default, Debug)]
pub struct CargoLockingFlags {
    /// `--offline`
    pub offline: bool,
    /// `--frozen`
    pub frozen: bool,
    /// `--locked`
    pub locked: bool,
}

/// The text, if it is wanted.
pub open spec fn flag_if(wanted: bool, flag: Seq<char>) -> Seq<Seq<char>> {
    if wanted {
        seq![flag]
    } else {
        Seq::empty()
    }
}

impl CargoLockingFlags {
    /// The arguments for Cargo.
    pub open spec fn texts(self) -> Seq<Seq<char>> {
        flag_if(self.offline, "--offline"@) + flag_if(self.frozen, "--frozen"@) + flag_if(
            self.locked,
            "--locked"@,
        )
    }

    /// The arguments for Cargo.
    pub fn flags(self) -> (r: Vec<String>)
        ensures
            r.deep_view() == self.texts(),
    {
        let mut out: Vec<String> = Vec::new();
        if self.offline {
            out.push("--offline".to_owned());
        }
        if self.frozen {
            out.push("--frozen".to_owned());
        }
        if self.locked {
            out.push("--locked".to_owned());
        }
        assert(out.deep_view() =~= self.texts());
        out
    }
}

} // verus!
