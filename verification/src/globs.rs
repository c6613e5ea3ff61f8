//! From paths and patterns of a manifest to the files that they stand for.
use crate::assets::{knows_target, new_asset, normalized_target, processed_asset, source_path, target_is_known, Asset, AssetSource, AssetView, IsBuilt, SourceView, UnresolvedAsset, UnresolvedView};
use crate::deb::tar_blocks::component_text;
use crate::error::{CDResult, CargoDebError, Cause, CauseView, ErrorView};
use crate::paths::{components, components_of, file_name, file_name_of, join, parent, parent_of, path_join, Comp, Component};
use crate::text::{cat, chars_of};
use vstd::prelude::*;

verus! {

/// A character that only a pattern holds.
pub open spec fn is_glob_char(c: char) -> bool {
    c == '*' || c == '[' || c == ']' || c == '!'
}

/// Whether a path is a pattern.
pub open spec fn is_pattern(s: Seq<char>) -> bool {
    exists|i: int| 0 <= i < s.len() && is_glob_char(#[trigger] s[i])
}

pub fn is_glob_pattern(s: &str) -> (r: bool)
    ensures
        r == is_pattern(s@),
{
    let v = chars_of(s);
    let mut i: usize = 0;
    while i < v.len()
        invariant
            v@ == s@,
            i <= v.len(),
            forall|k: int| 0 <= k < i ==> !is_glob_char(#[trigger] s@[k]),
        decreases v.len() - i,
    {
        let c = v[i];
        if c == '*' || c == '[' || c == ']' || c == '!' {
            assert(is_glob_char(s@[i as int]));
            return true;
        }
        i += 1;
    }
    false
}

/// The place of the first component that is a pattern, or the number of components.
pub open spec fn first_pattern(comps: Seq<Comp>) -> int
    decreases comps.len(),
{
    if comps.len() == 0 {
        0
    } else {
        let i = first_pattern(comps.drop_last());
        if i < comps.len() - 1 {
            i
        } else if is_pattern(component_text(comps.last())) {
            i
        } else {
            i + 1
        }
    }
}

/// How many components of the files that a pattern matches are not taken over into the package:
/// those before the first directory of the pattern that is one itself, if the pattern ends with a
/// pattern; else all but the name of the file. None for a plain path.
pub open spec fn source_prefix_len(source: Seq<char>) -> Option<int> {
    let n = components(source).len() as int;
    if !is_pattern(source) {
        None
    } else if file_name(source) is Some && is_pattern(file_name(source)->0) {
        match parent(source) {
            Some(dir) => Some(
                if first_pattern(components(dir)) < components(dir).len() {
                    first_pattern(components(dir))
                } else {
                    n
                },
            ),
            None => Some(n),
        }
    } else {
        Some(
            if n > 0 {
                n - 1
            } else {
                0
            },
        )
    }
}

/// The path with these components.
pub open spec fn path_of(comps: Seq<Comp>) -> Seq<char>
    decreases comps.len(),
{
    if comps.len() == 0 {
        Seq::empty()
    } else {
        path_join(path_of(comps.drop_last()), component_text(comps.last()))
    }
}

/// The components of a path behind the first `n`.
pub open spec fn path_behind(p: Seq<char>, n: int) -> Seq<char> {
    if n <= components(p).len() {
        path_of(components(p).skip(n))
    } else {
        Seq::empty()
    }
}

/// What the file system says of a path that a pattern matched.
#[derive(Debug)]
pub enum GlobEntry {
    /// A file, a directory, or a link.
    Found {
        path: String,
        is_dir: bool,
        /// It exists (a link that leads nowhere does not).
        exists: bool,
        is_symlink: bool,
        /// Its mode, in which the permissions are.
        mode: ModeResult,
    },
    /// It could not be looked at.
    Failed(Cause),
}

/// The mode of a file, or why it could not be read.
#[derive(Debug)]
pub enum ModeResult {
    /// As the file system says it: the kind of the file, and its permissions.
    Mode(u32),
    Failed(Cause),
    /// Files have no modes on this system.
    Unsupported,
}

pub enum ModeView {
    Mode(u32),
    Failed(CauseView),
    Unsupported,
}

impl DeepView for ModeResult {
    type V = ModeView;

    open spec fn deep_view(&self) -> ModeView {
        match self {
            ModeResult::Mode(m) => ModeView::Mode(*m),
            ModeResult::Failed(e) => ModeView::Failed(e.deep_view()),
            ModeResult::Unsupported => ModeView::Unsupported,
        }
    }
}

/// The permissions of a file: those bits of its mode that are not its kind.
pub open spec fn file_mode(path: Seq<char>, mode: ModeView) -> Result<u32, ErrorView> {
    match mode {
        ModeView::Mode(m) => Ok(m & 0o7777),
        ModeView::Failed(c) => Err(
            ErrorView::IoFile("Unable to read file metadata for permissions"@, c, path),
        ),
        ModeView::Unsupported => Err(ErrorView::ImplicitFileModeFromPathNotSupported(path)),
    }
}

/// The permissions of a file.
pub fn get_file_mode(path: &String, mode: &ModeResult) -> (r: CDResult<u32>)
    ensures
        match file_mode(path@, mode.deep_view()) {
            Ok(m) => r is Ok && r->Ok_0 == m,
            Err(e) => r is Err && r->Err_0.deep_view() == e,
        },
{
    match mode {
        ModeResult::Mode(m) => Ok(*m & 0o7777),
        ModeResult::Failed(e) => Err(
            CargoDebError::IoFile(
                "Unable to read file metadata for permissions",
                e.clone(),
                path.clone(),
            ),
        ),
        ModeResult::Unsupported => Err(
            CargoDebError::ImplicitFileModeFromPathNotSupported(path.clone()),
        ),
    }
}

pub enum EntryView {
    Found {
        path: Seq<char>,
        is_dir: bool,
        exists: bool,
        is_symlink: bool,
        mode: ModeView,
    },
    Failed(CauseView),
}

impl DeepView for GlobEntry {
    type V = EntryView;

    open spec fn deep_view(&self) -> EntryView {
        match self {
            GlobEntry::Found { path, is_dir, exists, is_symlink, mode } => EntryView::Found {
                path: path@,
                is_dir: *is_dir,
                exists: *exists,
                is_symlink: *is_symlink,
                mode: mode.deep_view(),
            },
            GlobEntry::Failed(e) => EntryView::Failed(e.deep_view()),
        }
    }
}

/// What looking for the files of a pattern gave.
#[derive(Debug)]
pub enum GlobMatches {
    Matches(Vec<GlobEntry>),
    /// It is not a valid pattern.
    BadPattern(Cause),
}

pub enum MatchesView {
    Matches(Seq<EntryView>),
    BadPattern(CauseView),
}

impl DeepView for GlobMatches {
    type V = MatchesView;

    open spec fn deep_view(&self) -> MatchesView {
        match self {
            GlobMatches::Matches(es) => MatchesView::Matches(es.deep_view()),
            GlobMatches::BadPattern(e) => MatchesView::BadPattern(e.deep_view()),
        }
    }
}

/// Where a match of the pattern goes, as the manifest says it.
pub open spec fn entry_target(u: UnresolvedView, path: Seq<char>) -> Seq<char> {
    match source_prefix_len(u.source_path) {
        Some(n) => path_join(u.c.target_path, path_behind(path, n)),
        None => u.c.target_path,
    }
}

/// The permissions that a match of the pattern gets: those of the manifest, else those on disk.
pub open spec fn entry_mode(u: UnresolvedView, path: Seq<char>, mode: ModeView) -> Result<
    u32,
    ErrorView,
> {
    match u.c.chmod {
        Some(chmod) => Ok(chmod),
        None => file_mode(path, mode),
    }
}

/// What a match of the pattern becomes: nothing for a directory.
pub open spec fn entry_asset(u: UnresolvedView, preserve_symlinks: bool, e: EntryView) -> Result<
    Option<AssetView>,
    ErrorView,
> {
    match e {
        EntryView::Failed(c) => Err(ErrorView::AssetGlobError(c)),
        EntryView::Found { path, is_dir, exists, is_symlink, mode } => if is_dir {
            Ok(None)
        } else {
            let target = entry_target(u, path);
            let source = if (preserve_symlinks || !exists) && is_symlink {
                SourceView::Manifested(path)
            } else {
                SourceView::Path(path)
            };
            match entry_mode(u, path, mode) {
                Err(e) => Err(e),
                Ok(chmod) => {
                    let a = new_asset(
                        source,
                        target,
                        Some(chmod),
                        u.c.is_built,
                        u.c.asset_kind,
                    );
                    Ok(
                        Some(
                            if source_prefix_len(u.source_path) is Some {
                                processed_asset(a, "glob"@, None)
                            } else {
                                a
                            },
                        ),
                    )
                },
            }
        },
    }
}

/// What the matches become, or the first error among them.
pub open spec fn entry_assets(u: UnresolvedView, preserve_symlinks: bool, es: Seq<EntryView>) -> Result<
    Seq<AssetView>,
    ErrorView,
>
    decreases es.len(),
{
    if es.len() == 0 {
        Ok(Seq::empty())
    } else {
        match entry_assets(u, preserve_symlinks, es.drop_last()) {
            Err(e) => Err(e),
            Ok(before) => match entry_asset(u, preserve_symlinks, es.last()) {
                Err(e) => Err(e),
                Ok(None) => Ok(before),
                Ok(Some(a)) => Ok(before.push(a)),
            },
        }
    }
}

/// The assets that a path or a pattern stands for, given its matches. Without any that is a file,
/// that is an error.
pub open spec fn resolved_assets(u: UnresolvedView, preserve_symlinks: bool, found: MatchesView) -> Result<
    Seq<AssetView>,
    ErrorView,
> {
    match found {
        MatchesView::BadPattern(e) => Err(ErrorView::GlobPatternError(e)),
        MatchesView::Matches(es) => match entry_assets(u, preserve_symlinks, es) {
            Err(e) => Err(
                ErrorView::Context("Error while glob searching "@ + u.source_path, Box::new(e)),
            ),
            Ok(assets) => if assets.len() == 0 {
                Err(
                    ErrorView::AssetFileNotFound {
                        source_path: u.source_path,
                        target_path: normalized_target(u.c.target_path, Some(u.source_path)),
                        is_glob: source_prefix_len(u.source_path) is Some,
                        is_built: u.c.is_built(),
                    },
                )
            } else {
                Ok(assets)
            },
        },
    }
}

/// Where a match goes can be told, if it is a file with permissions.
pub open spec fn entry_is_placed(u: UnresolvedView, e: EntryView) -> bool {
    match e {
        EntryView::Found { path, is_dir, mode, .. } => !is_dir && entry_mode(u, path, mode) is Ok
            ==> target_is_known(entry_target(u, path), Some(path)),
        EntryView::Failed(_) => true,
    }
}

/// Where the matches go can be told, up to the first error among them.
pub open spec fn files_are_placed(
    u: UnresolvedView,
    preserve_symlinks: bool,
    es: Seq<EntryView>,
) -> bool {
    forall|i: int|
        0 <= i < es.len() && entry_assets(u, preserve_symlinks, es.take(i)) is Ok
            ==> entry_is_placed(u, #[trigger] es[i])
}

/// Where files go can be told: for every match that becomes one, and, if there is no file among the
/// matches, for the pattern.
pub open spec fn targets_are_known(
    u: UnresolvedView,
    preserve_symlinks: bool,
    found: MatchesView,
) -> bool {
    match found {
        MatchesView::BadPattern(_) => true,
        MatchesView::Matches(es) => {
            &&& files_are_placed(u, preserve_symlinks, es)
            &&& entry_assets(u, preserve_symlinks, es) == Ok::<Seq<AssetView>, ErrorView>(
                Seq::empty(),
            ) ==> target_is_known(u.c.target_path, Some(u.source_path))
        },
    }
}

fn text_of(c: &Component) -> (r: String)
    ensures
        r@ == component_text(c.deep_view()),
{
    proof {
        reveal_strlit("/");
        reveal_strlit(".");
        reveal_strlit("..");
        assert("/"@ =~= seq!['/']);
        assert("."@ =~= seq!['.']);
        assert(".."@ =~= seq!['.', '.']);
    }
    match c {
        Component::RootDir => "/".to_owned(),
        Component::CurDir => ".".to_owned(),
        Component::ParentDir => "..".to_owned(),
        Component::Normal(name) => name.clone(),
    }
}

fn first_pattern_of(comps: &Vec<Component>) -> (r: usize)
    ensures
        r == first_pattern(comps.deep_view()),
        r <= comps.len(),
{
    let ghost cs = comps.deep_view();
    let mut i: usize = 0;
    assert(cs.take(0) =~= Seq::<Comp>::empty());
    while i < comps.len()
        invariant
            i <= comps.len(),
            cs == comps.deep_view(),
            first_pattern(cs.take(i as int)) == i,
        decreases comps.len() - i,
    {
        assert(cs.take(i + 1).drop_last() =~= cs.take(i as int));
        assert(cs.take(i + 1).last() == comps[i as int].deep_view());
        let t = text_of(&comps[i]);
        if is_glob_pattern(t.as_str()) {
            proof {
                lemma_first_pattern(cs, i as int);
            }
            return i;
        }
        i += 1;
    }
    assert(cs.take(i as int) =~= cs);
    i
}

proof fn lemma_first_pattern(cs: Seq<Comp>, i: int)
    requires
        0 <= i < cs.len(),
        first_pattern(cs.take(i + 1)) == i,
    ensures
        first_pattern(cs) == i,
    decreases cs.len(),
{
    if cs.len() == i + 1 {
        assert(cs.take(i + 1) =~= cs);
    } else {
        assert(cs.drop_last().take(i + 1) =~= cs.take(i + 1));
        lemma_first_pattern(cs.drop_last(), i);
    }
}

fn source_prefix_len_of(source: &str) -> (r: Option<usize>)
    ensures
        r is Some <==> source_prefix_len(source@) is Some,
        r is Some ==> source_prefix_len(source@) == Some(r->0 as int),
{
    if !is_glob_pattern(source) {
        return None;
    }
    let n: usize = components_of(source).len();
    let name_is_pattern = match file_name_of(source) {
        Some(name) => is_glob_pattern(name.as_str()),
        None => false,
    };
    if name_is_pattern {
        // skip to the component before the glob
        match parent_of(source) {
            Some(dir) => {
                let comps = components_of(dir.as_str());
                let i = first_pattern_of(&comps);
                Some(
                    if i < comps.len() {
                        i
                    } else {
                        n
                    },
                )
            },
            None => Some(n),
        }
    } else {
        // extract the only file name component
        Some(
            if n > 0 {
                n - 1
            } else {
                0
            },
        )
    }
}

fn path_behind_of(p: &str, n: usize) -> (r: String)
    ensures
        r@ == path_behind(p@, n as int),
{
    let comps = components_of(p);
    let ghost cs = components(p@);
    let mut out = String::new();
    if n > comps.len() {
        return out;
    }
    let ghost rest = cs.skip(n as int);
    let mut i: usize = n;
    assert(rest.take(0) =~= Seq::<Comp>::empty());
    while i < comps.len()
        invariant
            n <= i <= comps.len(),
            comps.deep_view() == cs,
            rest == cs.skip(n as int),
            out@ == path_of(rest.take(i - n)),
        decreases comps.len() - i,
    {
        assert(rest.take(i - n + 1).drop_last() =~= rest.take(i - n));
        assert(cs[i as int] == comps[i as int].deep_view());
        assert(rest.take(i - n + 1).last() == comps[i as int].deep_view());
        let t = text_of(&comps[i]);
        out = join(out.as_str(), t.as_str());
        i += 1;
    }
    assert(rest.take(i - n) =~= rest);
    out
}

/// What is known of where a match goes.
enum Placed {
    /// It is a directory.
    Nowhere,
    Known,
    Unknown,
    /// It is an error.
    Failed,
}

impl UnresolvedAsset {
    fn resolve_entry(
        &self,
        preserve_symlinks: bool,
        source_prefix_len: Option<usize>,
        entry: &GlobEntry,
    ) -> (r: CDResult<Option<Asset>>)
        requires
            source_prefix_len is Some <==> self::source_prefix_len(self.source_path@) is Some,
            source_prefix_len is Some ==> self::source_prefix_len(self.source_path@) == Some(
                source_prefix_len->0 as int,
            ),
            entry_is_placed(self.deep_view(), entry.deep_view()),
        ensures
            match entry_asset(self.deep_view(), preserve_symlinks, entry.deep_view()) {
                Ok(a) => r is Ok && r->Ok_0.deep_view() == a,
                Err(e) => r is Err && r->Err_0.deep_view() == e,
            },
    {
        match entry {
            GlobEntry::Failed(e) => Err(CargoDebError::AssetGlobError(e.clone())),
            GlobEntry::Found { path, is_dir, exists, is_symlink, mode } => {
                // Remove dirs from globs without throwing away errors
                if *is_dir {
                    return Ok(None);
                }
                let target_file = match source_prefix_len {
                    Some(n) => {
                        let rest = path_behind_of(path.as_str(), n);
                        join(self.c.target_path.as_str(), rest.as_str())
                    },
                    None => self.c.target_path.clone(),
                };
                // Use provided chmod or read from filesystem
                let file_chmod: u32 = match self.c.chmod {
                    Some(chmod) => chmod,
                    None => match get_file_mode(path, mode) {
                        Ok(m) => m,
                        Err(e) => {
                            return Err(e);
                        },
                    },
                };
                let asset = Asset::new(
                    AssetSource::from_path(path.clone(), preserve_symlinks, *exists, *is_symlink),
                    target_file,
                    Some(file_chmod),
                    self.c.is_built,
                    self.c.asset_kind,
                );
                if source_prefix_len.is_some() {
                    Ok(Some(asset.processed("glob", None)))
                } else {
                    Ok(Some(asset))
                }
            },
        }
    }

    /// Whether it can be told where the files go.
    pub fn knows_targets(&self, preserve_symlinks: bool, found: &GlobMatches) -> (r: bool)
        ensures
            r == targets_are_known(self.deep_view(), preserve_symlinks, found.deep_view()),
    {
        let matches = match found {
            GlobMatches::Matches(es) => es,
            GlobMatches::BadPattern(_) => {
                return true;
            },
        };
        let ghost es = matches.deep_view();
        let ghost u = self.deep_view();
        let prefix_len = source_prefix_len_of(self.source_path.as_str());
        let mut is_empty = true;
        let mut i: usize = 0;
        assert(found.deep_view() == MatchesView::Matches(es));
        assert(es.take(0) =~= Seq::<EntryView>::empty());
        while i < matches.len()
            invariant
                i <= matches.len(),
                es == matches.deep_view(),
                found.deep_view() == MatchesView::Matches(es),
                u == self.deep_view(),
                prefix_len is Some <==> source_prefix_len(self.source_path@) is Some,
                prefix_len is Some ==> source_prefix_len(self.source_path@) == Some(
                    prefix_len->0 as int,
                ),
                forall|k: int| 0 <= k < i ==> entry_is_placed(u, #[trigger] es[k]),
                entry_assets(u, preserve_symlinks, es.take(i as int)) is Ok,
                is_empty == (entry_assets(u, preserve_symlinks, es.take(i as int))->Ok_0.len() == 0),
            decreases matches.len() - i,
        {
            proof {
                assert(es[i as int] == matches[i as int].deep_view());
                assert(es.take(i + 1).drop_last() =~= es.take(i as int));
                assert(es.take(i + 1).last() == es[i as int]);
            }
            match self.placed(prefix_len, &matches[i]) {
                Placed::Nowhere => {},
                Placed::Known => {
                    is_empty = false;
                },
                Placed::Unknown => {
                    assert(!entry_is_placed(u, es[i as int]));
                    return false;
                },
                Placed::Failed => {
                    proof {
                        lemma_first_error(u, preserve_symlinks, es, i + 1);
                        assert forall|k: int|
                            0 <= k < es.len() && entry_assets(u, preserve_symlinks, es.take(k))
                                is Ok implies entry_is_placed(u, #[trigger] es[k]) by {
                            if k > i {
                                let t = es.take(k);
                                assert(t.take(i + 1) =~= es.take(i + 1));
                                lemma_first_error(u, preserve_symlinks, t, i + 1);
                            }
                        }
                    }
                    return true;
                },
            }
            i += 1;
        }
        assert(es.take(i as int) =~= es);
        if is_empty {
            assert(entry_assets(u, preserve_symlinks, es)->Ok_0 =~= Seq::<AssetView>::empty());
            knows_target(self.c.target_path.as_str(), Some(&self.source_path))
        } else {
            true
        }
    }

    /// What is known of where a match goes.
    fn placed(&self, prefix_len: Option<usize>, entry: &GlobEntry) -> (r: Placed)
        requires
            prefix_len is Some <==> source_prefix_len(self.source_path@) is Some,
            prefix_len is Some ==> source_prefix_len(self.source_path@) == Some(
                prefix_len->0 as int,
            ),
        ensures
            ({
                let u = self.deep_view();
                let e = entry.deep_view();
                match r {
                    Placed::Nowhere => forall|preserve: bool| #[trigger]
                        entry_asset(u, preserve, e) == Ok::<Option<AssetView>, ErrorView>(None),
                    Placed::Failed => forall|preserve: bool| #[trigger]
                        entry_asset(u, preserve, e) is Err,
                    Placed::Known => entry_is_placed(u, e) && forall|preserve: bool|
                        (#[trigger] entry_asset(u, preserve, e)) matches Ok(Some(_)),
                    Placed::Unknown => !entry_is_placed(u, e),
                }
            }),
    {
        match entry {
            GlobEntry::Failed(_) => Placed::Failed,
            GlobEntry::Found { path, is_dir, mode, .. } => {
                if *is_dir {
                    return Placed::Nowhere;
                }
                if self.c.chmod.is_none() && get_file_mode(path, mode).is_err() {
                    return Placed::Failed;
                }
                let target = match prefix_len {
                    Some(n) => {
                        let rest = path_behind_of(path.as_str(), n);
                        join(self.c.target_path.as_str(), rest.as_str())
                    },
                    None => self.c.target_path.clone(),
                };
                if knows_target(target.as_str(), Some(path)) {
                    Placed::Known
                } else {
                    Placed::Unknown
                }
            },
        }
    }

    /// Convert `source_path` (with glob or dir) to actual path, given what matches it
    pub fn resolve(&self, preserve_symlinks: bool, found: &GlobMatches) -> (r: CDResult<Vec<Asset>>)
        requires
            targets_are_known(self.deep_view(), preserve_symlinks, found.deep_view()),
        ensures
            match resolved_assets(self.deep_view(), preserve_symlinks, found.deep_view()) {
                Ok(assets) => r is Ok && r->Ok_0.deep_view() == assets,
                Err(e) => r is Err && r->Err_0.deep_view() == e,
            },
    {
        let matches = match found {
            GlobMatches::Matches(es) => es,
            GlobMatches::BadPattern(e) => {
                return Err(CargoDebError::GlobPatternError(e.clone()));
            },
        };
        let source_prefix_len = source_prefix_len_of(self.source_path.as_str());
        let mut matched_assets: Vec<Asset> = Vec::new();
        let ghost es = matches.deep_view();
        let ghost u = self.deep_view();
        assert(found.deep_view() == MatchesView::Matches(es));
        let mut i: usize = 0;
        assert(es.take(0) =~= Seq::<EntryView>::empty());
        assert(matched_assets.deep_view() =~= Seq::<AssetView>::empty());
        while i < matches.len()
            invariant
                i <= matches.len(),
                es == matches.deep_view(),
                found.deep_view() == MatchesView::Matches(es),
                u == self.deep_view(),
                files_are_placed(u, preserve_symlinks, es),
                source_prefix_len is Some <==> self::source_prefix_len(self.source_path@) is Some,
                source_prefix_len is Some ==> self::source_prefix_len(self.source_path@) == Some(
                    source_prefix_len->0 as int,
                ),
                entry_assets(u, preserve_symlinks, es.take(i as int)) == Ok::<
                    Seq<AssetView>,
                    ErrorView,
                >(matched_assets.deep_view()),
            decreases matches.len() - i,
        {
            let ghost before = matched_assets.deep_view();
            assert(es[i as int] == matches[i as int].deep_view());
            assert(es.take(i + 1).drop_last() =~= es.take(i as int));
            assert(es.take(i + 1).last() == matches[i as int].deep_view());
            match self.resolve_entry(preserve_symlinks, source_prefix_len, &matches[i]) {
                Ok(Some(asset)) => {
                    let ghost a = asset.deep_view();
                    matched_assets.push(asset);
                    assert(matched_assets.deep_view() =~= before.push(a));
                },
                Ok(None) => {},
                Err(e) => {
                    proof {
                        lemma_first_error(u, preserve_symlinks, es, i + 1);
                    }
                    return Err(
                        e.context(cat("Error while glob searching ", self.source_path.as_str())),
                    );
                },
            }
            i += 1;
        }
        assert(es.take(i as int) =~= es);
        if matched_assets.len() == 0 {
            assert(matched_assets.deep_view() =~= Seq::<AssetView>::empty());
            return Err(
                CargoDebError::AssetFileNotFound {
                    source_path: self.source_path.clone(),
                    target_path: Asset::normalized_target_path(
                        self.c.target_path.clone(),
                        Some(&self.source_path),
                    ),
                    is_glob: source_prefix_len.is_some(),
                    is_built: self.c.is_built != IsBuilt::No,
                },
            );
        }
        Ok(matched_assets)
    }
}

proof fn lemma_first_error(u: UnresolvedView, preserve: bool, es: Seq<EntryView>, i: int)
    requires
        0 <= i <= es.len(),
        entry_assets(u, preserve, es.take(i)) is Err,
    ensures
        entry_assets(u, preserve, es) == entry_assets(u, preserve, es.take(i)),
    decreases es.len(),
{
    if i == es.len() {
        assert(es.take(i) =~= es);
    } else {
        assert(es.drop_last().take(i) =~= es.take(i));
        lemma_first_error(u, preserve, es.drop_last(), i);
    }
}

/// The asset is a match that is a file, with the permissions that it has on disk.
pub open spec fn has_mode_of(a: AssetView, e: EntryView) -> bool {
    match e {
        EntryView::Found { path, is_dir, mode: ModeView::Mode(m), .. } => {
            &&& !is_dir
            &&& source_path(a.source) == Some(path)
            &&& a.c.chmod == Some(m & 0o7777)
        },
        _ => false,
    }
}

/// The asset has the permissions that the manifest gives, whatever they are on disk; or where it
/// gives none, those on disk.
pub open spec fn has_permissions(u: UnresolvedView, es: Seq<EntryView>, a: AssetView) -> bool {
    match u.c.chmod {
        Some(m) => a.c.chmod == Some(m),
        None => exists|j: int| 0 <= j < es.len() && #[trigger] has_mode_of(a, es[j]),
    }
}

/// Permissions that the manifest gives are those of every file, whatever they are on disk. Where it
/// gives none, every file has those that it has on disk.
pub proof fn law_permissions(u: UnresolvedView, preserve_symlinks: bool, found: MatchesView)
    requires
        resolved_assets(u, preserve_symlinks, found) is Ok,
    ensures
        found is Matches,
        forall|i: int|
            0 <= i < resolved_assets(u, preserve_symlinks, found)->Ok_0.len() ==> has_permissions(
                u,
                found->Matches_0,
                #[trigger] resolved_assets(u, preserve_symlinks, found)->Ok_0[i],
            ),
{
    lemma_permissions(u, preserve_symlinks, found->Matches_0);
}

proof fn lemma_permissions(u: UnresolvedView, preserve_symlinks: bool, es: Seq<EntryView>)
    requires
        entry_assets(u, preserve_symlinks, es) is Ok,
    ensures
        forall|i: int|
            0 <= i < entry_assets(u, preserve_symlinks, es)->Ok_0.len() ==> has_permissions(
                u,
                es,
                #[trigger] entry_assets(u, preserve_symlinks, es)->Ok_0[i],
            ),
    decreases es.len(),
{
    if es.len() > 0 {
        let before = es.drop_last();
        let r = entry_assets(u, preserve_symlinks, es)->Ok_0;
        let r0 = entry_assets(u, preserve_symlinks, before)->Ok_0;
        lemma_permissions(u, preserve_symlinks, before);
        assert forall|i: int| 0 <= i < r.len() implies has_permissions(u, es, #[trigger] r[i]) by {
            if i < r0.len() {
                assert(r[i] == r0[i]);
                if u.c.chmod is None {
                    let j = choose|j: int|
                        0 <= j < before.len() && #[trigger] has_mode_of(r0[i], before[j]);
                    assert(has_mode_of(r[i], es[j]));
                }
            } else if u.c.chmod is None {
                assert(has_mode_of(r[i], es[es.len() - 1]));
            }
        }
    }
}

} // verus!
