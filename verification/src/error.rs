//! What can go wrong, and what is said of it.
use crate::paths::{has_root, is_absolute, parent, parent_of, law_parent_components};
use crate::text::{cat, cat3, has_prefix, strip_prefix};
use vstd::prelude::*;
use vstd::string::StringExecFns;
use vstd::utf8::{decode_utf8, valid_utf8};

verus! {

/// An error of something outside of this library: its message, and those of the errors behind it.
#[derive(Debug)]
pub struct Cause {
    pub message: String,
    pub sources: Vec<String>,
}

pub struct CauseView {
    pub message: Seq<char>,
    pub sources: Seq<Seq<char>>,
}

impl DeepView for Cause {
    type V = CauseView;

    open spec fn deep_view(&self) -> CauseView {
        CauseView { message: self.message@, sources: self.sources.deep_view() }
    }
}

/// Everything that can go wrong.
#[derive(Debug)]
#[non_exhaustive]
pub enum CargoDebError {
    Io(Cause),
    TomlParsing(Cause, String),
    IoFile(&'static str, Cause, String),
    CommandFailed(Cause, String),
    CommandError(&'static str, String, Vec<u8>),
    Str(&'static str),
    NumParse(&'static str, Cause),
    InvalidVersion(&'static str, String),
    InstallFailed(String),
    BuildFailed,
    DebHelperReplaceFailed(String),
    StripFailed(String, String),
    SystemTime(Cause),
    ParseTOML(Cause),
    ParseJSON(Cause),
    PackageNotFound(String, Vec<u8>),
    BinariesNotFound(String),
    PackageNotFoundInWorkspace(String, String),
    NoRootFoundInWorkspace(String),
    VariantNotFound(String),
    GlobPatternError(Cause),
    AssetFileNotFound { source_path: String, target_path: String, is_glob: bool, is_built: bool },
    AssetGlobError(Cause),
    InvalidSymlink(String, String),
    CannotReadVirtualSymlink(String),
    ImplicitFileModeFromPathNotSupported(String),
    Context(String, Box<CargoDebError>),
    LzmaCompressionError(String),
}

pub type CDResult<T> = Result<T, CargoDebError>;

/// An error as a mathematical value.
pub enum ErrorView {
    Io(CauseView),
    TomlParsing(CauseView, Seq<char>),
    IoFile(Seq<char>, CauseView, Seq<char>),
    CommandFailed(CauseView, Seq<char>),
    CommandError(Seq<char>, Seq<char>, Seq<u8>),
    Str(Seq<char>),
    NumParse(Seq<char>, CauseView),
    InvalidVersion(Seq<char>, Seq<char>),
    InstallFailed(Seq<char>),
    BuildFailed,
    DebHelperReplaceFailed(Seq<char>),
    StripFailed(Seq<char>, Seq<char>),
    SystemTime(CauseView),
    ParseTOML(CauseView),
    ParseJSON(CauseView),
    PackageNotFound(Seq<char>, Seq<u8>),
    BinariesNotFound(Seq<char>),
    PackageNotFoundInWorkspace(Seq<char>, Seq<char>),
    NoRootFoundInWorkspace(Seq<char>),
    VariantNotFound(Seq<char>),
    GlobPatternError(CauseView),
    AssetFileNotFound {
        source_path: Seq<char>,
        target_path: Seq<char>,
        is_glob: bool,
        is_built: bool,
    },
    AssetGlobError(CauseView),
    InvalidSymlink(Seq<char>, Seq<char>),
    CannotReadVirtualSymlink(Seq<char>),
    ImplicitFileModeFromPathNotSupported(Seq<char>),
    Context(Seq<char>, Box<ErrorView>),
    LzmaCompressionError(Seq<char>),
}

impl CargoDebError {
    /// The error as a mathematical value.
    pub open spec fn to_view(self) -> ErrorView
        decreases self,
    {
        match self {
            CargoDebError::Io(c) => ErrorView::Io(c.deep_view()),
            CargoDebError::TomlParsing(c, p) => ErrorView::TomlParsing(c.deep_view(), p@),
            CargoDebError::IoFile(m, c, f) => ErrorView::IoFile(m@, c.deep_view(), f@),
            CargoDebError::CommandFailed(c, s) => ErrorView::CommandFailed(c.deep_view(), s@),
            CargoDebError::CommandError(m, a, r) => ErrorView::CommandError(m@, a@, r@),
            CargoDebError::Str(m) => ErrorView::Str(m@),
            CargoDebError::NumParse(m, c) => ErrorView::NumParse(m@, c.deep_view()),
            CargoDebError::InvalidVersion(m, v) => ErrorView::InvalidVersion(m@, v@),
            CargoDebError::InstallFailed(s) => ErrorView::InstallFailed(s@),
            CargoDebError::BuildFailed => ErrorView::BuildFailed,
            CargoDebError::DebHelperReplaceFailed(n) => ErrorView::DebHelperReplaceFailed(n@),
            CargoDebError::StripFailed(n, r) => ErrorView::StripFailed(n@, r@),
            CargoDebError::SystemTime(c) => ErrorView::SystemTime(c.deep_view()),
            CargoDebError::ParseTOML(c) => ErrorView::ParseTOML(c.deep_view()),
            CargoDebError::ParseJSON(c) => ErrorView::ParseJSON(c.deep_view()),
            CargoDebError::PackageNotFound(p, r) => ErrorView::PackageNotFound(p@, r@),
            CargoDebError::BinariesNotFound(n) => ErrorView::BinariesNotFound(n@),
            CargoDebError::PackageNotFoundInWorkspace(n, a) =>
                ErrorView::PackageNotFoundInWorkspace(n@, a@),
            CargoDebError::NoRootFoundInWorkspace(a) => ErrorView::NoRootFoundInWorkspace(a@),
            CargoDebError::VariantNotFound(v) => ErrorView::VariantNotFound(v@),
            CargoDebError::GlobPatternError(c) => ErrorView::GlobPatternError(c.deep_view()),
            CargoDebError::AssetFileNotFound { source_path, target_path, is_glob, is_built } =>
                ErrorView::AssetFileNotFound {
                    source_path: source_path@,
                    target_path: target_path@,
                    is_glob,
                    is_built,
                },
            CargoDebError::AssetGlobError(c) => ErrorView::AssetGlobError(c.deep_view()),
            CargoDebError::InvalidSymlink(t, l) => ErrorView::InvalidSymlink(t@, l@),
            CargoDebError::CannotReadVirtualSymlink(p) => ErrorView::CannotReadVirtualSymlink(p@),
            CargoDebError::ImplicitFileModeFromPathNotSupported(p) =>
                ErrorView::ImplicitFileModeFromPathNotSupported(p@),
            CargoDebError::Context(m, e) => ErrorView::Context(m@, Box::new(e.to_view())),
            CargoDebError::LzmaCompressionError(m) => ErrorView::LzmaCompressionError(m@),
        }
    }
}

impl DeepView for CargoDebError {
    type V = ErrorView;

    open spec fn deep_view(&self) -> ErrorView {
        self.to_view()
    }
}

/// What the messages of some errors show of the machine.
pub struct Surroundings {
    /// The current directory.
    pub current_dir: Option<String>,
    /// The value of `PATH`.
    pub path: Option<String>,
    /// The first of the candidates of the file that the error is about which exists.
    pub existing: Option<String>,
}

pub struct SurroundingsView {
    pub current_dir: Option<Seq<char>>,
    pub path: Option<Seq<char>>,
    pub existing: Option<Seq<char>>,
}

impl DeepView for Surroundings {
    type V = SurroundingsView;

    open spec fn deep_view(&self) -> SurroundingsView {
        SurroundingsView {
            current_dir: self.current_dir.deep_view(),
            path: self.path.deep_view(),
            existing: self.existing.deep_view(),
        }
    }
}

/// What `String::from_utf8_lossy` makes of bytes.
pub uninterp spec fn utf8_lossy(bytes: Seq<u8>) -> Seq<char>;

/// `String::from_utf8_lossy` reads bytes as UTF-8 and puts a replacement character in the place of
/// what is not valid.
#[verifier::external_body]
pub(crate) fn from_utf8_lossy(bytes: &[u8]) -> (s: String)
    ensures
        s@ == utf8_lossy(bytes@),
        valid_utf8(bytes@) ==> s@ == decode_utf8(bytes@),
{
    String::from_utf8_lossy(bytes).into_owned()
}

/// `s` without the prefix, as many times as it stands at the beginning.
pub open spec fn trim_prefixes(s: Seq<char>, p: Seq<char>) -> Seq<char>
    decreases s.len(),
{
    if p.len() > 0 && has_prefix(s, p) {
        trim_prefixes(s.skip(p.len() as int), p)
    } else {
        s
    }
}

fn trimmed_prefixes(s: String, p: &str) -> (r: String)
    requires
        p@.len() > 0,
    ensures
        r@ == trim_prefixes(s@, p@),
    decreases s@.len(),
{
    match strip_prefix(s.as_str(), p) {
        Some(rest) => trimmed_prefixes(rest, p),
        None => s,
    }
}

/// The message of an error.
pub open spec fn message_text(e: ErrorView, m: SurroundingsView) -> Seq<char> {
    match e {
        ErrorView::Io(c) => "I/O error: "@ + c.message,
        ErrorView::TomlParsing(_, path) => "Unable to parse "@ + path,
        ErrorView::IoFile(msg, _, file) => msg + ": "@ + file + (match m.current_dir {
            Some(dir) if !is_absolute(file) => "\nnote: The current dir is '"@ + dir + "'"@,
            _ => Seq::empty(),
        }) + (match m.existing {
            Some(p) => "\nnote: '"@ + p + "' exists"@,
            None => Seq::empty(),
        }),
        ErrorView::CommandFailed(_, cmd) => "Command `"@ + cmd
            + "` failed to launch\nnote: The current $PATH is "@ + (match m.path {
            Some(p) => p,
            None => "unset or invalid"@,
        }),
        ErrorView::CommandError(msg, arg, reason) => msg + " ("@ + arg + "): "@ + trim_prefixes(
            utf8_lossy(reason),
            "error: "@,
        ),
        ErrorView::Str(msg) => msg,
        ErrorView::NumParse(msg, _) => msg,
        ErrorView::InvalidVersion(msg, ver) => "Version '"@ + ver + "' is invalid: "@ + msg,
        ErrorView::InstallFailed(status) =>
            "Installation failed, because `dpkg -i` returned error "@ + status,
        ErrorView::BuildFailed => "Build failed"@,
        ErrorView::DebHelperReplaceFailed(name) =>
            "Unable to replace #DEBHELPER# token in maintainer script '"@ + name + "'"@,
        ErrorView::StripFailed(name, reason) => "Unable to strip binary '"@ + name + "': "@
            + reason,
        ErrorView::SystemTime(_) => "Unable to get system time"@,
        ErrorView::ParseTOML(_) => "Unable to parse Cargo.toml"@,
        ErrorView::ParseJSON(_) => "Unable to parse `cargo metadata` output"@,
        ErrorView::PackageNotFound(path, reason) => "Path '"@ + path
            + "' does not belong to a package: "@ + utf8_lossy(reason),
        ErrorView::BinariesNotFound(name) =>
            "No binaries or cdylibs found. The package '"@ + name
            + "' is empty. Please specify some assets to package in Cargo.toml"@,
        ErrorView::PackageNotFoundInWorkspace(name, available) =>
            "The workspace doesn't have a package named "@ + name
            + ".\nnote: Available packages are: "@ + available,
        ErrorView::NoRootFoundInWorkspace(available) =>
            "This is a workspace with multiple packages, and there is no single package at the root.\nPlease specify the package with `-p` or set one in the workspace's `default-members = []`.\nnote: Available packages are: "@
            + available,
        ErrorView::VariantNotFound(variant) => "[package.metadata.deb.variants."@ + variant
            + "] not found in Cargo.toml"@,
        ErrorView::GlobPatternError(_) => "Unable to parse glob pattern"@,
        ErrorView::AssetFileNotFound { source_path, target_path, is_glob, is_built } => (
        if is_glob {
            "Glob pattern"@
        } else {
            "Static file asset"@
        }) + " "@ + (if is_built {
            "has not been built"@
        } else {
            "path did not match any existing files"@
        }) + ": "@ + source_path + "\nNeeded for "@ + target_path,
        ErrorView::AssetGlobError(_) => "Unable to iterate asset glob result"@,
        ErrorView::InvalidSymlink(target, link) => "Symlink '"@ + target
            + "' points outside of the package: '"@ + link + "'"@,
        ErrorView::CannotReadVirtualSymlink(path) => "Symlink to '"@ + path
            + "' has no file data to read"@,
        ErrorView::ImplicitFileModeFromPathNotSupported(path) =>
            "The permissions of '"@ + path
            + "' can't be read on this system. Please specify them in the asset"@,
        ErrorView::Context(msg, _) => msg,
        ErrorView::LzmaCompressionError(err) => "Lzma compression error: "@ + err,
    }
}

/// The messages of what an error was caused by, the nearest first.
pub open spec fn cause_texts(e: ErrorView, m: SurroundingsView) -> Seq<Seq<char>>
    decreases e,
{
    match e {
        ErrorView::Context(_, inner) => seq![message_text(*inner, m)] + cause_texts(*inner, m),
        ErrorView::Io(c) | ErrorView::TomlParsing(c, _) | ErrorView::IoFile(
            _,
            c,
            _,
        ) | ErrorView::CommandFailed(c, _) | ErrorView::NumParse(_, c) | ErrorView::SystemTime(
            c,
        ) | ErrorView::ParseTOML(c) | ErrorView::ParseJSON(c) | ErrorView::GlobPatternError(c)
        | ErrorView::AssetGlobError(c) => seq![c.message] + c.sources,
        _ => Seq::empty(),
    }
}

/// The path and its parents, up to the last one that has a parent itself.
pub open spec fn path_candidates(p: Seq<char>) -> Seq<Seq<char>>
    decreases p.len(),
{
    match parent(p) {
        Some(d) => {
            proof {
                law_parent_components(p);
            }
            seq![p] + path_candidates(d)
        },
        None => Seq::empty(),
    }
}

/// The paths among which the message of an error about a file looks for one that exists: the path
/// and its parents, up to the last one that has a parent itself.
pub fn existing_candidates(file: &str) -> (r: Vec<String>)
    ensures
        r.deep_view() == path_candidates(file@),
{
    let mut out: Vec<String> = Vec::new();
    let mut cur = file.to_owned();
    assert(out.deep_view() + path_candidates(cur@) =~= path_candidates(file@));
    loop
        invariant
            out.deep_view() + path_candidates(cur@) == path_candidates(file@),
        ensures
            out.deep_view() == path_candidates(file@),
        decreases cur@.len(),
    {
        proof {
            law_parent_components(cur@);
        }
        match parent_of(cur.as_str()) {
            Some(d) => {
                let ghost before = out.deep_view();
                let ghost c = cur@;
                out.push(cur);
                assert(out.deep_view() =~= before.push(c));
                assert(out.deep_view() + path_candidates(d@) =~= before + (seq![c]
                    + path_candidates(d@)));
                cur = d;
            },
            None => {
                assert(out.deep_view() + Seq::<Seq<char>>::empty() =~= out.deep_view());
                break ;
            },
        }
    }
    out
}

fn join4(a: &str, b: &str, c: &str, d: &str) -> (r: String)
    ensures
        r@ == a@ + b@ + c@ + d@,
{
    let mut s = cat3(a, b, c);
    s.append(d);
    s
}

impl CargoDebError {
    /// The error with a message in front of it.
    pub fn context(self, msg: String) -> (r: Self)
        ensures
            r.deep_view() == ErrorView::Context(msg@, Box::new(self.deep_view())),
    {
        CargoDebError::Context(msg, Box::new(self))
    }

    /// What is said of the error.
    pub fn message(&self, m: &Surroundings) -> (r: String)
        ensures
            r@ == message_text(self.deep_view(), m.deep_view()),
    {
        match self {
            CargoDebError::Io(c) => cat("I/O error: ", c.message.as_str()),
            CargoDebError::TomlParsing(_, path) => cat("Unable to parse ", path.as_str()),
            CargoDebError::IoFile(msg, _, file) => {
                let mut s = cat3(msg, ": ", file.as_str());
                let ghost s0 = s@;
                match &m.current_dir {
                    Some(dir) => {
                        if !has_root(file.as_str()) {
                            s.append("\nnote: The current dir is '");
                            s.append(dir.as_str());
                            s.append("'");
                            assert(s@ =~= s0 + ("\nnote: The current dir is '"@ + dir@ + "'"@));
                        } else {
                            assert(s@ =~= s0 + Seq::<char>::empty());
                        }
                    },
                    None => {
                        assert(s@ =~= s0 + Seq::<char>::empty());
                    },
                }
                let ghost s1 = s@;
                match &m.existing {
                    Some(p) => {
                        s.append("\nnote: '");
                        s.append(p.as_str());
                        s.append("' exists");
                        assert(s@ =~= s1 + ("\nnote: '"@ + p@ + "' exists"@));
                    },
                    None => {
                        assert(s@ =~= s1 + Seq::<char>::empty());
                    },
                }
                s
            },
            CargoDebError::CommandFailed(_, cmd) => {
                let mut s = cat3(
                    "Command `",
                    cmd.as_str(),
                    "` failed to launch\nnote: The current $PATH is ",
                );
                match &m.path {
                    Some(p) => s.append(p.as_str()),
                    None => s.append("unset or invalid"),
                }
                s
            },
            CargoDebError::CommandError(msg, arg, reason) => {
                let mut s = join4(msg, " (", arg.as_str(), "): ");
                let text = from_utf8_lossy(reason.as_slice());
                proof {
                    reveal_strlit("error: ");
                }
                let text = trimmed_prefixes(text, "error: ");
                s.append(text.as_str());
                s
            },
            CargoDebError::Str(msg) => (*msg).to_owned(),
            CargoDebError::NumParse(msg, _) => (*msg).to_owned(),
            CargoDebError::InvalidVersion(msg, ver) => join4(
                "Version '",
                ver.as_str(),
                "' is invalid: ",
                msg,
            ),
            CargoDebError::InstallFailed(status) => cat(
                "Installation failed, because `dpkg -i` returned error ",
                status.as_str(),
            ),
            CargoDebError::BuildFailed => "Build failed".to_owned(),
            CargoDebError::DebHelperReplaceFailed(name) => cat3(
                "Unable to replace #DEBHELPER# token in maintainer script '",
                name.as_str(),
                "'",
            ),
            CargoDebError::StripFailed(name, reason) => join4(
                "Unable to strip binary '",
                name.as_str(),
                "': ",
                reason.as_str(),
            ),
            CargoDebError::SystemTime(_) => "Unable to get system time".to_owned(),
            CargoDebError::ParseTOML(_) => "Unable to parse Cargo.toml".to_owned(),
            CargoDebError::ParseJSON(_) => "Unable to parse `cargo metadata` output".to_owned(),
            CargoDebError::PackageNotFound(path, reason) => {
                let text = from_utf8_lossy(reason.as_slice());
                join4("Path '", path.as_str(), "' does not belong to a package: ", text.as_str())
            },
            CargoDebError::BinariesNotFound(name) => cat3(
                "No binaries or cdylibs found. The package '",
                name.as_str(),
                "' is empty. Please specify some assets to package in Cargo.toml",
            ),
            CargoDebError::PackageNotFoundInWorkspace(name, available) => join4(
                "The workspace doesn't have a package named ",
                name.as_str(),
                ".\nnote: Available packages are: ",
                available.as_str(),
            ),
            CargoDebError::NoRootFoundInWorkspace(available) => cat(
                "This is a workspace with multiple packages, and there is no single package at the root.\nPlease specify the package with `-p` or set one in the workspace's `default-members = []`.\nnote: Available packages are: ",
                available.as_str(),
            ),
            CargoDebError::VariantNotFound(variant) => cat3(
                "[package.metadata.deb.variants.",
                variant.as_str(),
                "] not found in Cargo.toml",
            ),
            CargoDebError::GlobPatternError(_) => "Unable to parse glob pattern".to_owned(),
            CargoDebError::AssetFileNotFound { source_path, target_path, is_glob, is_built } => {
                let mut s = if *is_glob {
                    "Glob pattern".to_owned()
                } else {
                    "Static file asset".to_owned()
                };
                s.append(" ");
                if *is_built {
                    s.append("has not been built");
                } else {
                    s.append("path did not match any existing files");
                }
                s.append(": ");
                s.append(source_path.as_str());
                s.append("\nNeeded for ");
                s.append(target_path.as_str());
                s
            },
            CargoDebError::AssetGlobError(_) => "Unable to iterate asset glob result".to_owned(),
            CargoDebError::InvalidSymlink(target, link) => {
                let mut s = join4(
                    "Symlink '",
                    target.as_str(),
                    "' points outside of the package: '",
                    link.as_str(),
                );
                s.append("'");
                s
            },
            CargoDebError::CannotReadVirtualSymlink(path) => cat3(
                "Symlink to '",
                path.as_str(),
                "' has no file data to read",
            ),
            CargoDebError::ImplicitFileModeFromPathNotSupported(path) => cat3(
                "The permissions of '",
                path.as_str(),
                "' can't be read on this system. Please specify them in the asset",
            ),
            CargoDebError::Context(msg, _) => msg.clone(),
            CargoDebError::LzmaCompressionError(err) => cat(
                "Lzma compression error: ",
                err.as_str(),
            ),
        }
    }

    /// What is said of the errors behind this one, the nearest first.
    pub fn causes(&self, m: &Surroundings) -> (r: Vec<String>)
        ensures
            r.deep_view() == cause_texts(self.deep_view(), m.deep_view()),
        decreases self,
    {
        match self {
            CargoDebError::Context(_, inner) => {
                let first = inner.message(m);
                let mut rest = inner.causes(m);
                let mut out: Vec<String> = Vec::new();
                let ghost f = first@;
                let ghost r = rest.deep_view();
                out.push(first);
                out.append(&mut rest);
                assert(out.deep_view() =~= seq![f] + r);
                out
            },
            CargoDebError::Io(c)
            | CargoDebError::TomlParsing(c, _)
            | CargoDebError::IoFile(_, c, _)
            | CargoDebError::CommandFailed(c, _)
            | CargoDebError::NumParse(_, c)
            | CargoDebError::SystemTime(c)
            | CargoDebError::ParseTOML(c)
            | CargoDebError::ParseJSON(c)
            | CargoDebError::GlobPatternError(c)
            | CargoDebError::AssetGlobError(c) => c.messages(),
            _ => {
                let out: Vec<String> = Vec::new();
                assert(out.deep_view() =~= Seq::<Seq<char>>::empty());
                out
            },
        }
    }
}

impl Cause {
    /// The message, and those of the errors behind it.
    pub fn messages(&self) -> (r: Vec<String>)
        ensures
            r.deep_view() == seq![self.message@] + self.sources.deep_view(),
    {
        let mut out: Vec<String> = Vec::new();
        out.push(self.message.clone());
        let mut i: usize = 0;
        assert(out.deep_view() =~= seq![self.message@] + self.sources.deep_view().take(0));
        while i < self.sources.len()
            invariant
                i <= self.sources.len(),
                out.deep_view() == seq![self.message@] + self.sources.deep_view().take(i as int),
            decreases self.sources.len() - i,
        {
            let ghost before = out.deep_view();
            out.push(self.sources[i].clone());
            assert(out.deep_view() =~= before.push(self.sources[i as int]@));
            assert(self.sources.deep_view().take(i + 1) =~= self.sources.deep_view().take(
                i as int,
            ).push(self.sources[i as int]@));
            i += 1;
        }
        assert(self.sources.deep_view().take(i as int) =~= self.sources.deep_view());
        out
    }
}

} // verus!
