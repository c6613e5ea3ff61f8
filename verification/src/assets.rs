//! The files of a package.
use crate::error::{CDResult, CargoDebError, Cause, ErrorView};
use crate::path_parts::{law_drop_components, law_join_components};
use crate::paths::{components, extension, extension_of, file_name, file_name_of, has_root, is_absolute, is_name, join, law_file_name_component, lemma_component_names, lemma_components_single, path_join, strip_path_prefix, strip_prefix, Comp};
use crate::text::{cat, chars_of, ends_with, has_suffix};
use vstd::prelude::*;
use vstd::string::StringExecFns;

pub use crate::deb::data::{apply_compressed_assets, compressed_assets};

verus! {

// ---------------------------------------------------------------------------
// Types
// ---------------------------------------------------------------------------
/// Where the content of a file comes from.
#[derive(Debug)]
pub enum AssetSource {
    /// Copy file from the path (and strip binary if needed).
    Path(String),
    /// A symlink existing in the file system or specified in the manifest
    Symlink(SymlinkKind),
    /// Write data to destination as-is.
    Data(Vec<u8>),
}

#[derive(Debug)]
pub enum SymlinkKind {
    /// A symlink existing in the file system
    /// If reserve symlinks is enabled the links source path will be read from this path,
    /// otherwise the file content of the symlink destination will be added as a normal file
    Manifested(String),
    /// A symlink specified in the manifest
    /// The path is the destination of the symlink
    Virtual(String),
}

pub enum SourceView {
    Path(Seq<char>),
    Manifested(Seq<char>),
    Virtual(Seq<char>),
    Data(Seq<u8>),
}

impl DeepView for AssetSource {
    type V = SourceView;

    open spec fn deep_view(&self) -> SourceView {
        match self {
            AssetSource::Path(p) => SourceView::Path(p@),
            AssetSource::Symlink(SymlinkKind::Manifested(p)) => SourceView::Manifested(p@),
            AssetSource::Symlink(SymlinkKind::Virtual(p)) => SourceView::Virtual(p@),
            AssetSource::Data(d) => SourceView::Data(d@),
        }
    }
}

#[derive(Debug, Copy, Clone, Eq, PartialEq, Structural)]
pub enum AssetKind {
    Any,
    CargoExampleBinary,
    SeparateDebugSymbols,
}

#[derive(Debug, Copy, Clone, Eq, PartialEq, Structural)]
pub enum IsBuilt {
    No,
    SamePackage,
    /// needs --workspace to build
    Workspace,
}

#[derive(Debug)]
pub struct AssetCommon {
    pub target_path: String,
    pub chmod: Option<u32>,
    pub asset_kind: AssetKind,
    pub is_built: IsBuilt,
}

pub struct CommonView {
    pub target_path: Seq<char>,
    pub chmod: Option<u32>,
    pub asset_kind: AssetKind,
    pub is_built: IsBuilt,
}

impl DeepView for AssetCommon {
    type V = CommonView;

    open spec fn deep_view(&self) -> CommonView {
        CommonView {
            target_path: self.target_path@,
            chmod: self.chmod,
            asset_kind: self.asset_kind,
            is_built: self.is_built,
        }
    }
}

/// What has been done to the content of a file.
#[derive(Debug)]
pub struct ProcessedFrom {
    pub original_path: Option<String>,
    pub action: &'static str,
}

pub struct ProcessedView {
    pub original_path: Option<Seq<char>>,
    pub action: Seq<char>,
}

impl DeepView for ProcessedFrom {
    type V = ProcessedView;

    open spec fn deep_view(&self) -> ProcessedView {
        ProcessedView { original_path: self.original_path.deep_view(), action: self.action@ }
    }
}

/// A file of the package.
#[derive(Debug)]
pub struct Asset {
    pub source: AssetSource,
    /// For prettier path display not "/tmp/blah.tmp"
    pub processed_from: Option<ProcessedFrom>,
    pub c: AssetCommon,
}

pub struct AssetView {
    pub source: SourceView,
    pub processed_from: Option<ProcessedView>,
    pub c: CommonView,
}

impl DeepView for Asset {
    type V = AssetView;

    open spec fn deep_view(&self) -> AssetView {
        AssetView {
            source: self.source.deep_view(),
            processed_from: self.processed_from.deep_view(),
            c: self.c.deep_view(),
        }
    }
}

/// Files of the package whose source is a path or a pattern that has not been looked up yet.
#[derive(Debug)]
pub struct UnresolvedAsset {
    pub source_path: String,
    pub c: AssetCommon,
}

pub struct UnresolvedView {
    pub source_path: Seq<char>,
    pub c: CommonView,
}

impl DeepView for UnresolvedAsset {
    type V = UnresolvedView;

    open spec fn deep_view(&self) -> UnresolvedView {
        UnresolvedView { source_path: self.source_path@, c: self.c.deep_view() }
    }
}

/// The files of the package.
#[derive(Debug)]
pub struct Assets {
    pub unresolved: Vec<UnresolvedAsset>,
    pub resolved: Vec<Asset>,
}

/// An asset as a manifest gives it.
#[derive(Debug)]
pub struct RawAsset {
    pub source_path: String,
    pub target_path: String,
    pub chmod: Option<u32>,
}

pub struct RawAssetView {
    pub source_path: Seq<char>,
    pub target_path: Seq<char>,
    pub chmod: Option<u32>,
}

impl DeepView for RawAsset {
    type V = RawAssetView;

    open spec fn deep_view(&self) -> RawAssetView {
        RawAssetView {
            source_path: self.source_path@,
            target_path: self.target_path@,
            chmod: self.chmod,
        }
    }
}

/// An asset as a manifest gives it, or the wish to have those that can be found without it.
#[derive(Debug)]
pub enum RawAssetOrAuto {
    Auto,
    RawAsset(RawAsset),
}

pub enum RawAssetOrAutoView {
    Auto,
    RawAsset(RawAssetView),
}

impl DeepView for RawAssetOrAuto {
    type V = RawAssetOrAutoView;

    open spec fn deep_view(&self) -> RawAssetOrAutoView {
        match self {
            RawAssetOrAuto::Auto => RawAssetOrAutoView::Auto,
            RawAssetOrAuto::RawAsset(a) => RawAssetOrAutoView::RawAsset(a.deep_view()),
        }
    }
}

impl From<RawAsset> for RawAssetOrAuto {
    fn from(r: RawAsset) -> (a: Self) {
        RawAssetOrAuto::RawAsset(r)
    }
}

impl vstd::std_specs::convert::FromSpecImpl<RawAsset> for RawAssetOrAuto {
    open spec fn obeys_from_spec() -> bool {
        true
    }

    open spec fn from_spec(r: RawAsset) -> Self {
        RawAssetOrAuto::RawAsset(r)
    }
}

impl RawAssetOrAuto {
    pub fn asset(self) -> (r: Option<RawAsset>)
        ensures
            match self {
                RawAssetOrAuto::RawAsset(a) => r == Some(a),
                RawAssetOrAuto::Auto => r is None,
            },
    {
        match self {
            RawAssetOrAuto::RawAsset(a) => Some(a),
            RawAssetOrAuto::Auto => None,
        }
    }

    /// The asset, where it is one.
    pub fn into_asset(self) -> (r: Result<RawAsset, &'static str>)
        ensures
            match self {
                RawAssetOrAuto::RawAsset(a) => r == Ok::<RawAsset, &'static str>(a),
                RawAssetOrAuto::Auto => r is Err && r->Err_0@ == "$auto is not allowed here"@,
            },
    {
        match self.asset() {
            Some(a) => Ok(a),
            None => Err("$auto is not allowed here"),
        }
    }
}

// ---------------------------------------------------------------------------
// Copies
// ---------------------------------------------------------------------------
/// A copy of an optional text.
pub fn clone_option(s: &Option<String>) -> (r: Option<String>)
    ensures
        r.deep_view() == s.deep_view(),
{
    match s {
        Some(t) => Some(t.clone()),
        None => None,
    }
}

/// A copy of bytes.
pub fn clone_bytes(v: &Vec<u8>) -> (r: Vec<u8>)
    ensures
        r@ == v@,
{
    let mut out: Vec<u8> = Vec::new();
    let mut i: usize = 0;
    while i < v.len()
        invariant
            i <= v.len(),
            out@ == v@.take(i as int),
        decreases v.len() - i,
    {
        out.push(v[i]);
        assert(out@ =~= v@.take(i + 1));
        i += 1;
    }
    assert(v@.take(i as int) =~= v@);
    out
}

/// A copy of texts.
pub fn clone_strings(v: &Vec<String>) -> (r: Vec<String>)
    ensures
        r.deep_view() == v.deep_view(),
{
    let mut out: Vec<String> = Vec::new();
    let mut i: usize = 0;
    assert(out.deep_view() =~= v.deep_view().take(0));
    while i < v.len()
        invariant
            i <= v.len(),
            out.deep_view() == v.deep_view().take(i as int),
        decreases v.len() - i,
    {
        let ghost before = out.deep_view();
        out.push(v[i].clone());
        assert(out.deep_view() =~= before.push(v[i as int]@));
        assert(v.deep_view().take(i + 1) =~= before.push(v[i as int]@));
        i += 1;
    }
    assert(v.deep_view().take(i as int) =~= v.deep_view());
    out
}

impl Clone for Cause {
    fn clone(&self) -> (r: Self)
        ensures
            r.deep_view() == self.deep_view(),
    {
        Cause { message: self.message.clone(), sources: clone_strings(&self.sources) }
    }
}

impl Clone for AssetSource {
    fn clone(&self) -> (r: Self)
        ensures
            r.deep_view() == self.deep_view(),
    {
        match self {
            AssetSource::Path(p) => AssetSource::Path(p.clone()),
            AssetSource::Symlink(SymlinkKind::Manifested(p)) => AssetSource::Symlink(
                SymlinkKind::Manifested(p.clone()),
            ),
            AssetSource::Symlink(SymlinkKind::Virtual(p)) => AssetSource::Symlink(
                SymlinkKind::Virtual(p.clone()),
            ),
            AssetSource::Data(d) => AssetSource::Data(clone_bytes(d)),
        }
    }
}

impl Clone for AssetCommon {
    fn clone(&self) -> (r: Self)
        ensures
            r.deep_view() == self.deep_view(),
    {
        AssetCommon {
            target_path: self.target_path.clone(),
            chmod: self.chmod,
            asset_kind: self.asset_kind,
            is_built: self.is_built,
        }
    }
}

impl Clone for Asset {
    fn clone(&self) -> (r: Self)
        ensures
            r.deep_view() == self.deep_view(),
    {
        Asset {
            source: self.source.clone(),
            processed_from: match &self.processed_from {
                Some(p) => Some(
                    ProcessedFrom {
                        original_path: clone_option(&p.original_path),
                        action: p.action,
                    },
                ),
                None => None,
            },
            c: self.c.clone(),
        }
    }
}

impl Clone for RawAsset {
    fn clone(&self) -> (r: Self)
        ensures
            r.deep_view() == self.deep_view(),
    {
        RawAsset {
            source_path: self.source_path.clone(),
            target_path: self.target_path.clone(),
            chmod: self.chmod,
        }
    }
}

impl Clone for RawAssetOrAuto {
    fn clone(&self) -> (r: Self)
        ensures
            r.deep_view() == self.deep_view(),
    {
        match self {
            RawAssetOrAuto::Auto => RawAssetOrAuto::Auto,
            RawAssetOrAuto::RawAsset(a) => RawAssetOrAuto::RawAsset(a.clone()),
        }
    }
}

// ---------------------------------------------------------------------------
// Sources
// ---------------------------------------------------------------------------
/// The path that a source is read from.
pub open spec fn source_path(s: SourceView) -> Option<Seq<char>> {
    match s {
        SourceView::Path(p) | SourceView::Manifested(p) => Some(p),
        _ => None,
    }
}

/// What is read of a source, given what reading its path gave.
pub open spec fn source_data(s: SourceView, read: Option<Seq<u8>>) -> Option<Seq<u8>> {
    match s {
        SourceView::Data(d) => Some(d),
        SourceView::Path(_) | SourceView::Manifested(_) => read,
        SourceView::Virtual(_) => None,
    }
}

/// The error of a source that cannot be read, given the error of reading its path. (Data can always
/// be read.)
pub open spec fn source_error(s: SourceView, e: crate::error::CauseView) -> ErrorView {
    match s {
        SourceView::Manifested(p) => ErrorView::IoFile(
            "Symlink unexpectedly used to read file data"@,
            e,
            p,
        ),
        SourceView::Path(p) => ErrorView::IoFile(
            "Unable to read asset to add to archive"@,
            e,
            p,
        ),
        SourceView::Virtual(p) => ErrorView::CannotReadVirtualSymlink(p),
        SourceView::Data(_) => ErrorView::Io(e),
    }
}

/// What reading a file gave.
#[derive(Debug)]
pub enum ReadResult {
    Content(Vec<u8>),
    Failed(Cause),
}

impl ReadResult {
    pub open spec fn content(self) -> Option<Seq<u8>> {
        match self {
            ReadResult::Content(d) => Some(d@),
            ReadResult::Failed(_) => None,
        }
    }

    /// The error; an empty one where there was none.
    pub open spec fn error(self) -> crate::error::CauseView {
        match self {
            ReadResult::Content(_) => crate::error::CauseView {
                message: Seq::empty(),
                sources: Seq::empty(),
            },
            ReadResult::Failed(c) => c.deep_view(),
        }
    }
}

impl AssetSource {
    /// The source that a path is. It is kept as a symlink if it is one and symlinks are to be kept,
    /// or if it leads nowhere.
    #[must_use]
    pub fn from_path(
        path: String,
        preserve_existing_symlink: bool,
        exists: bool,
        is_symlink: bool,
    ) -> (r: Self)
        ensures
            r.deep_view() == if (preserve_existing_symlink || !exists) && is_symlink {
                SourceView::Manifested(path@)
            } else {
                SourceView::Path(path@)
            },
    {
        if preserve_existing_symlink || !exists {  // !exists means a symlink to bogus path
            if is_symlink {
                return AssetSource::Symlink(SymlinkKind::Manifested(path));
            }
        }
        AssetSource::Path(path)
    }

    #[must_use]
    pub fn path(&self) -> (r: Option<&String>)
        ensures
            r is Some <==> source_path(self.deep_view()) is Some,
            r is Some ==> source_path(self.deep_view()) == Some(r->0@),
    {
        match self {
            AssetSource::Symlink(SymlinkKind::Manifested(p)) | AssetSource::Path(p) => Some(p),
            AssetSource::Data(_) | AssetSource::Symlink(SymlinkKind::Virtual(_)) => None,
        }
    }

    #[must_use]
    pub fn into_path(self) -> (r: Option<String>)
        ensures
            r.deep_view() == source_path(self.deep_view()),
    {
        match self {
            AssetSource::Symlink(SymlinkKind::Manifested(p)) | AssetSource::Path(p) => Some(p),
            AssetSource::Data(_) | AssetSource::Symlink(SymlinkKind::Virtual(_)) => None,
        }
    }

    #[must_use]
    pub fn archive_as_symlink_only(&self) -> (r: bool)
        ensures
            r == (self.deep_view() is Manifested || self.deep_view() is Virtual),
    {
        match self {
            AssetSource::Symlink(_) => true,
            _ => false,
        }
    }

    /// The size of the content, given that of the file at the path.
    #[must_use]
    pub fn file_size(&self, metadata_len: Option<u64>) -> (r: Option<u64>)
        ensures
            match self.deep_view() {
                SourceView::Path(_) => r == metadata_len,
                SourceView::Data(d) => r is Some && r->0 == d.len(),
                _ => r is None,
            },
    {
        match self {
            AssetSource::Path(_) => metadata_len,
            AssetSource::Data(d) => Some(d.len() as u64),
            AssetSource::Symlink(_) => None,
        }
    }

    /// The content, given what reading the path gave.
    pub fn data(&self, read: &ReadResult) -> (r: CDResult<Vec<u8>>)
        ensures
            r is Ok <==> source_data(self.deep_view(), read.content()) is Some,
            r is Ok ==> source_data(self.deep_view(), read.content()) == Some(r->Ok_0@),
            r is Err ==> r->Err_0.deep_view() == source_error(self.deep_view(), read.error()),
    {
        match self {
            AssetSource::Path(p) => match read {
                ReadResult::Content(d) => Ok(clone_bytes(d)),
                ReadResult::Failed(e) => Err(
                    CargoDebError::IoFile(
                        "Unable to read asset to add to archive",
                        e.clone(),
                        p.clone(),
                    ),
                ),
            },
            AssetSource::Data(d) => Ok(clone_bytes(d)),
            AssetSource::Symlink(SymlinkKind::Manifested(p)) => match read {
                ReadResult::Content(d) => Ok(clone_bytes(d)),
                ReadResult::Failed(e) => Err(
                    CargoDebError::IoFile(
                        "Symlink unexpectedly used to read file data",
                        e.clone(),
                        p.clone(),
                    ),
                ),
            },
            AssetSource::Symlink(SymlinkKind::Virtual(p)) => Err(
                CargoDebError::CannotReadVirtualSymlink(p.clone()),
            ),
        }
    }

    /// The first four bytes of the content, given those of the file at the path.
    pub fn magic_bytes(&self, head: Option<[u8; 4]>) -> (r: Option<[u8; 4]>)
        ensures
            match self.deep_view() {
                SourceView::Path(_) | SourceView::Manifested(_) => r == head,
                SourceView::Data(d) => {
                    &&& r is Some <==> d.len() >= 4
                    &&& r is Some ==> (r->0)@ == d.take(4)
                },
                SourceView::Virtual(_) => r is None,
            },
    {
        match self {
            AssetSource::Path(_) | AssetSource::Symlink(SymlinkKind::Manifested(_)) => head,
            AssetSource::Data(d) => {
                if d.len() >= 4 {
                    let b: [u8; 4] = [d[0], d[1], d[2], d[3]];
                    assert(b@ =~= d@.take(4));
                    Some(b)
                } else {
                    None
                }
            },
            AssetSource::Symlink(SymlinkKind::Virtual(_)) => None,
        }
    }
}

// ---------------------------------------------------------------------------
// Assets
// ---------------------------------------------------------------------------
/// The path within the package: behind a slash the name of the source is put, and a slash at the
/// beginning is taken away.
pub open spec fn normalized_target(target: Seq<char>, source: Option<Seq<char>>) -> Seq<char> {
    let t = if target.len() > 0 && target.last() == '/' && source is Some && file_name(source->0)
        is Some {
        path_join(target, file_name(source->0)->0)
    } else {
        target
    };
    if is_absolute(t) {
        crate::paths::drop_components(t, 1)
    } else {
        t
    }
}

/// Whether the path within the package can be told: one that ends with a slash needs a source with a
/// name.
pub open spec fn target_is_known(target: Seq<char>, source: Option<Seq<char>>) -> bool {
    target.len() > 0 && target.last() == '/' ==> source is Some && file_name(source->0) is Some
}

/// Whether the path within the package can be told.
pub fn knows_target(target: &str, source: Option<&String>) -> (r: bool)
    ensures
        r == target_is_known(
            target@,
            match source {
                Some(p) => Some(p@),
                None => None,
            },
        ),
{
    let v = chars_of(target);
    if v.len() == 0 || v[v.len() - 1] != '/' {
        return true;
    }
    match source {
        Some(p) => file_name_of(p.as_str()).is_some(),
        None => false,
    }
}

pub open spec fn new_asset(
    source: SourceView,
    target: Seq<char>,
    chmod: Option<u32>,
    is_built: IsBuilt,
    asset_kind: AssetKind,
) -> AssetView {
    AssetView {
        source,
        processed_from: None,
        c: CommonView {
            target_path: normalized_target(target, source_path(source)),
            chmod,
            asset_kind,
            is_built,
        },
    }
}

pub open spec fn processed_asset(a: AssetView, action: Seq<char>, original: Option<Seq<char>>) -> AssetView {
    AssetView {
        source: a.source,
        processed_from: Some(ProcessedView { original_path: original, action }),
        c: a.c,
    }
}

proof fn lemma_trim_front_is_relative(p: Seq<char>)
    ensures
        !is_absolute(crate::paths::trim_front(p)),
    decreases p.len(),
{
    crate::text::lemma_find_from(p, '/', 0);
    if p.len() > 0 {
        if p[0] == '/' {
            assert(p.take(crate::text::find_from(p, '/', 0)) =~= Seq::<char>::empty());
        }
        if crate::paths::is_skipped(p.take(crate::text::find_from(p, '/', 0))) {
            lemma_trim_front_is_relative(p.skip(crate::paths::behind_slash(p)));
        }
    }
}

/// The path of a file within the package is relative, whatever path is asked for.
pub proof fn law_target_is_relative(target: Seq<char>, source: Option<Seq<char>>)
    ensures
        !is_absolute(normalized_target(target, source)),
{
    let t = if target.len() > 0 && target.last() == '/' && source is Some && file_name(source->0)
        is Some {
        path_join(target, file_name(source->0)->0)
    } else {
        target
    };
    if is_absolute(t) {
        assert(crate::paths::body_start(t) == 1);
        let rest = t.skip(1);
        assert(crate::paths::drop_segments(rest, 0) == rest);
        lemma_trim_front_is_relative(rest);
        crate::paths::lemma_trim_back(crate::paths::trim_front(rest), 0);
    }
}

/// The components of a path within the package, without the root.
pub open spec fn within_package(p: Seq<char>) -> Seq<Comp> {
    if is_absolute(p) {
        components(p).skip(1)
    } else {
        components(p)
    }
}

/// A path that ends with a slash is the directory where the file is put under its own name; any other
/// one is what the file is called.
pub proof fn law_target_components(target: Seq<char>, source: Option<Seq<char>>)
    requires
        target_is_known(target, source),
    ensures
        components(normalized_target(target, source)) == if target.len() > 0 && target.last()
            == '/' {
            within_package(target).push(Comp::Normal(file_name(source->0)->0))
        } else {
            within_package(target)
        },
{
    if target.len() > 0 && target.last() == '/' {
        let name = file_name(source->0)->0;
        let t = path_join(target, name);
        law_file_name_component(source->0);
        lemma_component_names(source->0);
        let cs = components(source->0);
        assert(cs[cs.len() - 1] == Comp::Normal(name));
        assert(is_name(name));
        assert(crate::paths::body_start(name) == 0) by {
            if name[0] == '/' {
                assert(name.contains('/'));
            } else if name.len() == 1 && name[0] == '.' {
                assert(name =~= seq!['.']);
            } else if name.len() > 1 && name[1] == '/' {
                assert(name.contains('/'));
            }
        }
        law_join_components(target, name);
        lemma_components_single(name);
        assert(t[0] == target[0]);
        assert(components(t) =~= components(target).push(Comp::Normal(name)));
        if is_absolute(t) {
            law_drop_components(t, 1);
            assert(components(t).skip(1) =~= components(target).skip(1).push(Comp::Normal(name)));
        }
    } else if is_absolute(target) {
        law_drop_components(target, 1);
    }
}

impl Asset {
    #[must_use]
    pub fn normalized_target_path(target_path: String, source_path: Option<&String>) -> (r: String)
        requires
            target_is_known(
                target_path@,
                match source_path {
                    Some(p) => Some(p@),
                    None => None,
                },
            ),
        ensures
            r@ == normalized_target(
                target_path@,
                match source_path {
                    Some(p) => Some(p@),
                    None => None,
                },
            ),
    {
        let mut target = target_path;
        let v = chars_of(target.as_str());
        // is_dir() is only for paths that exist
        if v.len() > 0 && v[v.len() - 1] == '/' {
            if let Some(p) = source_path {
                if let Some(name) = file_name_of(p.as_str()) {
                    target = join(target.as_str(), name.as_str());
                }
            }
        }
        if has_root(target.as_str()) {
            proof {
                reveal_strlit("/");
                assert("/"@ =~= seq!['/']);
                crate::paths::lemma_components_lead(seq!['/']);
                assert(components(target@)[0] == Comp::Root);
                assert(components(target@).take(1) =~= seq![Comp::Root]);
            }
            match strip_prefix(target.as_str(), "/") {
                Some(rest) => rest,
                None => target,
            }
        } else {
            target
        }
    }

    #[must_use]
    pub fn new(
        source: AssetSource,
        target_path: String,
        chmod: Option<u32>,
        is_built: IsBuilt,
        asset_kind: AssetKind,
    ) -> (r: Self)
        requires
            target_is_known(target_path@, source_path(source.deep_view())),
        ensures
            r.deep_view() == new_asset(
                source.deep_view(),
                target_path@,
                chmod,
                is_built,
                asset_kind,
            ),
    {
        let target_path = Self::normalized_target_path(target_path, source.path());
        Asset {
            source,
            processed_from: None,
            c: AssetCommon { target_path, chmod, asset_kind, is_built },
        }
    }

    #[must_use]
    pub fn processed(self, action: &'static str, original_path: Option<String>) -> (r: Self)
        ensures
            r.deep_view() == processed_asset(
                self.deep_view(),
                action@,
                original_path.deep_view(),
            ),
    {
        Asset {
            source: self.source,
            processed_from: Some(ProcessedFrom { original_path, action }),
            c: self.c,
        }
    }
}

/// What the name of a dynamic library ends with.
pub const DLL_SUFFIX: &'static str = ".so";

/// What the name of a dynamic library begins with.
pub const DLL_PREFIX: &'static str = "lib";

impl CommonView {
    /// Someone may execute it.
    pub open spec fn is_executable(self) -> bool {
        self.chmod matches Some(chmod) && chmod & 0o111 != 0
    }

    pub open spec fn is_dynamic_library(self) -> bool {
        is_library_name(self.target_path)
    }

    pub open spec fn is_built(self) -> bool {
        self.is_built != IsBuilt::No
    }
}

/// Whether a path ends with the name of a dynamic library.
pub open spec fn is_library_name(p: Seq<char>) -> bool {
    file_name(p) matches Some(name) && has_suffix(name, DLL_SUFFIX@)
}

/// Whether the content begins as that of an executable binary does.
pub open spec fn smells_like_elf(s: SourceView, head: Option<[u8; 4]>) -> bool {
    let magic = seq![0x7Fu8, 69u8, 76u8, 70u8];
    match s {
        SourceView::Path(_) | SourceView::Manifested(_) => head matches Some(b) && b@ == magic,
        SourceView::Data(d) => d.len() >= 4 && d.take(4) == magic,
        SourceView::Virtual(_) => false,
    }
}

/// Whether the file is a binary that can be executed: not a shell script by its name, and either
/// built or found to be one by its first bytes.
pub open spec fn is_binary(a: AssetView, head: Option<[u8; 4]>) -> bool {
    &&& a.c.is_executable()
    &&& extension(a.c.target_path) != Some("sh"@)
    &&& (a.c.is_built() || smells_like_elf(a.source, head))
}

/// Where the debug symbols of a file go by default: below `debug` in the directory of libraries.
pub open spec fn debug_target(target: Seq<char>, lib_dir_base: Seq<char>) -> Seq<char> {
    let relative = match strip_path_prefix(target, "/"@) {
        Some(r) => r,
        None => target,
    };
    path_join(path_join(path_join("/"@, lib_dir_base), "debug"@), relative + ".debug"@)
}

impl Asset {
    /// Whether the file is a binary that can be executed, given the first bytes of the file at the
    /// path of its source.
    pub fn is_binary_executable(&self, head: Option<[u8; 4]>) -> (r: bool)
        ensures
            r == is_binary(self.deep_view(), head),
    {
        let not_a_script = match extension_of(self.c.target_path.as_str()) {
            None => true,
            Some(ext) => !crate::text::same(ext.as_str(), "sh"),
        };
        self.c.is_executable() && not_a_script && (self.c.is_built() || self.smells_like_elf(head))
    }

    fn smells_like_elf(&self, head: Option<[u8; 4]>) -> (r: bool)
        ensures
            r == smells_like_elf(self.source.deep_view(), head),
    {
        match self.source.magic_bytes(head) {
            Some(b) => {
                let r = b[0] == 0x7Fu8 && b[1] == 69u8 && b[2] == 76u8 && b[3] == 70u8;
                proof {
                    let magic = seq![0x7Fu8, 69u8, 76u8, 70u8];
                    if r {
                        assert(b@ =~= magic);
                    } else {
                        assert(b@[0] != magic[0] || b@[1] != magic[1] || b@[2] != magic[2] || b@[3]
                            != magic[3]);
                    }
                }
                r
            },
            None => false,
        }
    }
}

impl AssetCommon {
    pub fn is_executable(&self) -> (r: bool)
        ensures
            r == self.deep_view().is_executable(),
    {
        match self.chmod {
            Some(chmod) => 0 != chmod & 0o111,
            None => false,
        }
    }

    pub fn is_dynamic_library(&self) -> (r: bool)
        ensures
            r == self.deep_view().is_dynamic_library(),
    {
        is_dynamic_library_filename(self.target_path.as_str())
    }

    pub fn is_built(&self) -> (r: bool)
        ensures
            r == self.deep_view().is_built(),
    {
        self.is_built != IsBuilt::No
    }

    /// Returns the target path for the debug symbol file, which will be
    /// /usr/lib/debug/<path-to-executable>.debug
    #[must_use]
    pub fn default_debug_target_path(&self, lib_dir_base: &str) -> (r: String)
        ensures
            r@ == debug_target(self.target_path@, lib_dir_base@),
    {
        // Turn an absolute path into one relative to "/"
        let relative = match strip_prefix(self.target_path.as_str(), "/") {
            Some(p) => p,
            None => self.target_path.clone(),
        };
        // Prepend the debug location and add .debug
        let path = join("/", lib_dir_base);
        let path = join(path.as_str(), "debug");
        let name = debug_filename(relative.as_str());
        join(path.as_str(), name.as_str())
    }

    pub fn is_same_package(&self) -> (r: bool)
        ensures
            r == (self.is_built == IsBuilt::SamePackage),
    {
        self.is_built == IsBuilt::SamePackage
    }
}

/// Adds `.debug` to the end of a path to a filename
pub fn debug_filename(path: &str) -> (r: String)
    ensures
        r@ == path@ + ".debug"@,
{
    cat(path, ".debug")
}

pub fn is_dynamic_library_filename(path: &str) -> (r: bool)
    ensures
        r == is_library_name(path@),
{
    match file_name_of(path) {
        Some(name) => ends_with(name.as_str(), DLL_SUFFIX),
        None => false,
    }
}

// ---------------------------------------------------------------------------
// What is said of an asset
// ---------------------------------------------------------------------------
/// A path as it is shown: relative to the current directory where it is below it.
pub open spec fn shown_path(p: Seq<char>, cwd: Seq<char>) -> Seq<char> {
    match strip_path_prefix(p, cwd) {
        Some(r) => r,
        None => p,
    }
}

pub fn display_path(p: &str, cwd: &str) -> (r: String)
    ensures
        r@ == shown_path(p@, cwd@),
{
    match strip_prefix(p, cwd) {
        Some(r) => r,
        None => p.to_owned(),
    }
}

/// A line about a file: where it comes from, what has been done to it, and where it goes.
pub open spec fn asset_line(
    source: Option<Seq<char>>,
    processed: Option<ProcessedView>,
    c: CommonView,
    cwd: Seq<char>,
) -> Seq<char> {
    let src = match processed {
        Some(p) => if p.original_path is Some {
            p.original_path
        } else {
            source
        },
        None => source,
    };
    let from = match src {
        Some(p) => shown_path(p, cwd) + " "@,
        None => Seq::empty(),
    };
    let how = match processed {
        Some(p) => "("@ + p.action + (if c.is_built() {
            "; built"@
        } else {
            Seq::empty()
        }) + ") "@,
        None => if c.is_built() {
            "(built) "@
        } else {
            Seq::empty()
        },
    };
    from + how + "-> "@ + c.target_path
}

/// A line about a file, or about files that have not been looked up yet.
pub struct AssetFmt<'a> {
    pub c: &'a AssetCommon,
    pub cwd: &'a str,
    pub source: Option<&'a String>,
    pub processed_from: Option<&'a ProcessedFrom>,
}

impl<'a> AssetFmt<'a> {
    pub open spec fn line(self) -> Seq<char> {
        asset_line(
            match self.source {
                Some(p) => Some(p@),
                None => None,
            },
            match self.processed_from {
                Some(p) => Some(p.deep_view()),
                None => None,
            },
            self.c.deep_view(),
            self.cwd@,
        )
    }

    pub fn new(asset: &'a Asset, cwd: &'a str) -> (r: Self)
        ensures
            r.line() == asset_line(
                source_path(asset.source.deep_view()),
                asset.processed_from.deep_view(),
                asset.c.deep_view(),
                cwd@,
            ),
    {
        AssetFmt {
            c: &asset.c,
            source: asset.source.path(),
            processed_from: asset.processed_from.as_ref(),
            cwd,
        }
    }

    pub fn unresolved(asset: &'a UnresolvedAsset, cwd: &'a str) -> (r: Self)
        ensures
            r.line() == asset_line(Some(asset.source_path@), None, asset.c.deep_view(), cwd@),
    {
        AssetFmt { c: &asset.c, source: Some(&asset.source_path), processed_from: None, cwd }
    }

    /// The line.
    pub fn text(&self) -> (r: String)
        ensures
            r@ == self.line(),
    {
        let mut out = String::new();
        let mut src = self.source;
        let c = self.c;
        let cwd = self.cwd;
        if let Some(p) = self.processed_from {
            if let Some(original) = &p.original_path {
                src = Some(original);
            }
        }
        if let Some(p) = src {
            let shown = display_path(p.as_str(), cwd);
            out.append(shown.as_str());
            out.append(" ");
            assert(out@ =~= shown_path(p@, cwd@) + " "@);
        }
        let ghost from = out@;
        match self.processed_from {
            Some(p) => {
                out.append("(");
                out.append(p.action);
                if c.is_built() {
                    out.append("; built");
                }
                out.append(") ");
                assert(out@ =~= from + ("("@ + p.action@ + (if c.deep_view().is_built() {
                    "; built"@
                } else {
                    Seq::<char>::empty()
                }) + ") "@));
            },
            None => {
                if c.is_built() {
                    out.append("(built) ");
                } else {
                    assert(from + Seq::<char>::empty() =~= from);
                }
            },
        }
        out.append("-> ");
        out.append(c.target_path.as_str());
        out
    }
}

impl UnresolvedAsset {
    pub fn new(
        source_path: String,
        target_path: String,
        chmod: Option<u32>,
        is_built: IsBuilt,
        asset_kind: AssetKind,
    ) -> (r: Self)
        ensures
            r.deep_view() == (UnresolvedView {
                source_path: source_path@,
                c: CommonView { target_path: target_path@, chmod, asset_kind, is_built },
            }),
    {
        UnresolvedAsset {
            source_path,
            c: AssetCommon { target_path, chmod, asset_kind, is_built },
        }
    }
}

impl Assets {
    pub fn new(unresolved: Vec<UnresolvedAsset>, resolved: Vec<Asset>) -> (r: Self)
        ensures
            r.unresolved == unresolved,
            r.resolved == resolved,
    {
        Assets { unresolved, resolved }
    }
}

} // verus!
