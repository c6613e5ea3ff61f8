//! The files of a package in a tar archive.
use crate::assets::{display_path, shown_path, source_data, source_error, source_path, Asset, AssetSource, AssetView, ReadResult, SourceView, SymlinkKind};
use crate::compress::are_points;
use crate::deb::links::{is_link_place, normalize_link_name, normalized_link};
use crate::deb::tar_blocks::{link_fits, zeros};
use crate::deb::tarball::{directories, directory_entries, entries_bytes, is_file_error, missing_parents, well_ordered, Archived, Entry, EntryKind, Tarball};
use crate::error::{CDResult, CargoDebError, Cause, ErrorView};
use crate::listener::{Message, MessageView};
use crate::text::{decimal, decimal_of};
use vstd::prelude::*;
use vstd::string::StringExecFns;

verus! {

/// What the disk says of the path of a source.
#[derive(Debug)]
pub struct OnDisk {
    /// The size of the file.
    pub len: Option<u64>,
    /// Its content.
    pub content: ReadResult,
    /// Where it leads to, if it is a link.
    pub link: LinkResult,
}

/// Where a link leads to, or why that could not be read.
#[derive(Debug)]
pub enum LinkResult {
    To(String),
    Failed(Cause),
}

// ---------------------------------------------------------------------------
// Messages
// ---------------------------------------------------------------------------
/// The quotient, rounded up.
pub open spec fn div_up(n: nat, d: nat) -> nat {
    if n % d == 0 {
        n / d
    } else {
        n / d + 1
    }
}

/// A size in the greatest unit of which it has at least one, rounded up.
pub fn human_size(len: u64) -> (r: (u64, &'static str))
    ensures
        len < 1000 ==> r.0 == len && r.1@ == "B"@,
        1000 <= len < 1_000_000 ==> r.0 == div_up(len as nat, 1000) && r.1@ == "KB"@,
        1_000_000 <= len ==> r.0 == div_up(len as nat, 1_000_000) && r.1@ == "MB"@,
{
    if len < 1000 {
        return (len, "B");
    }
    if len < 1_000_000 {
        return (
            len / 1000 + (if len % 1000 == 0 {
                0
            } else {
                1
            }),
            "KB",
        );
    }
    (
        len / 1_000_000 + (if len % 1_000_000 == 0 {
            0
        } else {
            1
        }),
        "MB",
    )
}

/// A size as it is shown.
pub open spec fn size_text(len: nat) -> Seq<char> {
    if len < 1000 {
        decimal(len) + "B"@
    } else if len < 1_000_000 {
        decimal(div_up(len, 1000)) + "KB"@
    } else {
        decimal(div_up(len, 1_000_000)) + "MB"@
    }
}

/// The size of the content, where it is known.
pub open spec fn size_of(s: SourceView, len: Option<u64>) -> Option<nat> {
    match s {
        SourceView::Path(_) => match len {
            Some(n) => Some(n as nat),
            None => None,
        },
        SourceView::Data(d) => Some(d.len()),
        _ => None,
    }
}

/// The path that is shown for a file: that which it was made from, else that of its source.
pub open spec fn origin(a: AssetView) -> Option<Seq<char>> {
    match a.processed_from {
        Some(p) => if p.original_path is Some {
            p.original_path
        } else {
            source_path(a.source)
        },
        None => source_path(a.source),
    }
}

/// What a listener is told of a file that goes into an archive.
pub open spec fn asset_message(a: AssetView, len: Option<u64>, base_dir: Seq<char>) -> MessageView {
    let operation = if a.source is Manifested || a.source is Virtual {
        "Linking"@
    } else {
        "Adding"@
    };
    let from = match origin(a) {
        Some(p) => shown_path(p, base_dir),
        None => "-"@,
    };
    let action = match a.processed_from {
        Some(p) => p.action,
        None => Seq::empty(),
    };
    let size = match size_of(a.source, len) {
        Some(n) => " ("@ + size_text(n) + ")"@,
        None => Seq::empty(),
    };
    MessageView::Progress(
        operation,
        "'"@ + from + "' "@ + action + "-> "@ + a.c.target_path + size,
    )
}

/// What a listener is told of a file that goes into an archive.
pub fn log_asset(asset: &Asset, len: Option<u64>, log_display_base_dir: &str) -> (r: Message)
    ensures
        r.deep_view() == asset_message(asset.deep_view(), len, log_display_base_dir@),
{
    let operation = match asset.source {
        AssetSource::Symlink(_) => "Linking",
        _ => "Adding",
    };
    let mut shown = match asset.source.path() {
        Some(p) => display_path(p.as_str(), log_display_base_dir),
        None => "-".to_owned(),
    };
    let mut action = "";
    proof {
        reveal_strlit("");
        assert(""@ =~= Seq::<char>::empty());
    }
    if let Some(p) = &asset.processed_from {
        action = p.action;
        if let Some(original) = &p.original_path {
            shown = display_path(original.as_str(), log_display_base_dir);
        }
    }
    let mut s = "'".to_owned();
    s.append(shown.as_str());
    s.append("' ");
    s.append(action);
    s.append("-> ");
    s.append(asset.c.target_path.as_str());
    let ghost before = s@;
    match asset.source.file_size(len) {
        Some(n) => {
            let (size, unit) = human_size(n);
            let digits = decimal_of(size);
            s.append(" (");
            s.append(digits.as_str());
            s.append(unit);
            s.append(")");
            assert(s@ =~= before + (" ("@ + size_text(n as nat) + ")"@));
        },
        None => {
            assert(s@ =~= before + Seq::<char>::empty());
        },
    }
    Message::Progress(operation.to_owned(), s)
}

// ---------------------------------------------------------------------------
// The archive
// ---------------------------------------------------------------------------
/// How far archiving has come: the entries so far, the sizes of the archive when it was flushed,
/// how much data has come since, and whether the last file had been built.
pub struct Progress {
    pub entries: Seq<Entry>,
    pub points: Seq<usize>,
    pub added: int,
    pub prev_is_built: bool,
}

/// The destination of a link, where it is known.
pub open spec fn link_name(s: SourceView, d: OnDisk) -> Option<Seq<char>> {
    match s {
        SourceView::Virtual(p) => Some(p),
        _ => match d.link {
            LinkResult::To(p) => Some(p@),
            LinkResult::Failed(_) => None,
        },
    }
}

/// The entry that a file becomes.
pub open spec fn asset_entry(a: AssetView, d: OnDisk) -> Option<Entry> {
    if a.source is Manifested || a.source is Virtual {
        match link_name(a.source, d) {
            None => None,
            Some(link) => match normalized_link(a.c.target_path, link) {
                None => None,
                Some(to) => if link_fits(to) {
                    Some(
                        Entry {
                            path: a.c.target_path,
                            mode: 0o777,
                            kind: EntryKind::Symlink(to),
                        },
                    )
                } else {
                    None
                },
            },
        }
    } else {
        match source_data(a.source, d.content.content()) {
            None => None,
            Some(data) => Some(
                Entry {
                    path: a.c.target_path,
                    mode: match a.c.chmod {
                        Some(m) => m,
                        None => 0o644,
                    },
                    kind: EntryKind::File(data),
                },
            ),
        }
    }
}

/// Why a file becomes no entry.
pub open spec fn is_asset_error(a: AssetView, d: OnDisk, e: ErrorView) -> bool {
    if a.source is Manifested || a.source is Virtual {
        match link_name(a.source, d) {
            None => e == ErrorView::IoFile(
                "Symlink asset"@,
                d.link->Failed_0.deep_view(),
                a.source->Manifested_0,
            ),
            Some(link) => match normalized_link(a.c.target_path, link) {
                None => e == ErrorView::InvalidSymlink(a.c.target_path, link),
                Some(_) => is_file_error(e, "Can't set header link name"@, a.c.target_path),
            },
        }
    } else {
        e == source_error(a.source, d.content.error())
    }
}

/// Where the archive is flushed before a file: where much has been added since the last time, and
/// between files that have been built and others.
pub open spec fn flushes(p: Progress, a: AssetView) -> bool {
    p.added > 1_000_000 || p.prev_is_built != a.c.is_built()
}

/// Archiving one more file.
pub open spec fn archive_one(
    p: Progress,
    dest: Seq<u8>,
    time: u64,
    rsyncable: bool,
    a: AssetView,
    d: OnDisk,
) -> Option<Progress> {
    match asset_entry(a, d) {
        None => None,
        Some(e) => {
            let is_link = e.kind is Symlink;
            let size = (dest + entries_bytes(p.entries, time)).len() as usize;
            Some(
                Progress {
                    entries: p.entries + directory_entries(
                        missing_parents(a.c.target_path, directories(p.entries)),
                    ).push(e),
                    points: if rsyncable && !is_link && flushes(p, a) {
                        p.points.push(size)
                    } else {
                        p.points
                    },
                    added: if rsyncable && !is_link {
                        e.data().len() + (if flushes(p, a) {
                            0
                        } else {
                            p.added
                        })
                    } else {
                        p.added
                    },
                    prev_is_built: if rsyncable && !is_link {
                        a.c.is_built()
                    } else {
                        p.prev_is_built
                    },
                },
            )
        },
    }
}

/// Archiving the first `n` files.
pub open spec fn archive_first(
    dest: Seq<u8>,
    time: u64,
    rsyncable: bool,
    assets: Seq<AssetView>,
    disk: Seq<OnDisk>,
    n: int,
) -> Option<Progress>
    decreases n,
{
    if n <= 0 {
        Some(
            Progress {
                entries: Seq::empty(),
                points: Seq::empty(),
                added: 0,
                prev_is_built: false,
            },
        )
    } else {
        match archive_first(dest, time, rsyncable, assets, disk, n - 1) {
            None => None,
            Some(p) => archive_one(p, dest, time, rsyncable, assets[n - 1], disk[n - 1]),
        }
    }
}

/// The entries that are not directories.
pub open spec fn file_entries(entries: Seq<Entry>) -> Seq<Entry>
    decreases entries.len(),
{
    if entries.len() == 0 {
        Seq::empty()
    } else if entries.last().is_dir() {
        file_entries(entries.drop_last())
    } else {
        file_entries(entries.drop_last()).push(entries.last())
    }
}

proof fn lemma_file_entries(entries: Seq<Entry>, dirs: Seq<Seq<char>>)
    ensures
        file_entries(entries + directory_entries(dirs)) == file_entries(entries),
    decreases dirs.len(),
{
    let all = entries + directory_entries(dirs);
    if dirs.len() == 0 {
        assert(all =~= entries);
    } else {
        lemma_file_entries(entries, dirs.drop_last());
        assert(all.drop_last() =~= entries + directory_entries(dirs.drop_last()));
        assert(all.last().is_dir());
    }
}

/// An archive holds all the files, each with its content and permissions, in their order, and
/// nothing else but directories.
pub proof fn law_every_file_is_archived(
    dest: Seq<u8>,
    time: u64,
    rsyncable: bool,
    assets: Seq<AssetView>,
    disk: Seq<OnDisk>,
    n: int,
)
    requires
        0 <= n <= assets.len(),
        archive_first(dest, time, rsyncable, assets, disk, n) is Some,
    ensures
        forall|i: int| 0 <= i < n ==> asset_entry(#[trigger] assets[i], disk[i]) is Some,
        file_entries(archive_first(dest, time, rsyncable, assets, disk, n)->0.entries) == Seq::new(
            n as nat,
            |i: int| asset_entry(assets[i], disk[i])->0,
        ),
    decreases n,
{
    let done = archive_first(dest, time, rsyncable, assets, disk, n)->0.entries;
    let files = Seq::new(n as nat, |i: int| asset_entry(assets[i], disk[i])->0);
    if n == 0 {
        assert(file_entries(done) =~= files);
    } else {
        law_every_file_is_archived(dest, time, rsyncable, assets, disk, n - 1);
        let before = archive_first(dest, time, rsyncable, assets, disk, n - 1)->0.entries;
        let (a, e) = (assets[n - 1], asset_entry(assets[n - 1], disk[n - 1])->0);
        let dirs = missing_parents(a.c.target_path, directories(before));
        lemma_file_entries(before, dirs);
        assert(done.drop_last() =~= before + directory_entries(dirs));
        assert(done.last() == e && !e.is_dir());
        assert(file_entries(done) =~= files);
    }
}

/// What a listener is told of the files.
pub open spec fn asset_messages(
    assets: Seq<AssetView>,
    disk: Seq<OnDisk>,
    base_dir: Seq<char>,
) -> Seq<MessageView> {
    Seq::new(assets.len(), |i: int| asset_message(assets[i], disk[i].len, base_dir))
}

/// What archiving remembers from one file to the next.
#[derive(Debug)]
pub struct SyncState {
    /// How much data has been added since the archive was flushed.
    pub data_added: u128,
    /// Whether the last file had been built.
    pub prev_is_built: bool,
}

/// How far archiving has come.
pub open spec fn progress_of(t: Tarball, s: SyncState) -> Progress {
    Progress {
        entries: t.entries(),
        points: t.sync_points(),
        added: s.data_added as int,
        prev_is_built: s.prev_is_built,
    }
}

/// What becomes of the files of a package: an archive of all of them behind what the destination
/// held, or the error of the first one that cannot be archived; and what is said.
pub open spec fn is_archived(
    r: CDResult<Archived>,
    dest: Seq<u8>,
    time: u64,
    rsyncable: bool,
    assets: Seq<AssetView>,
    disk: Seq<OnDisk>,
    base_dir: Seq<char>,
    before: Seq<MessageView>,
    said: Seq<MessageView>,
) -> bool {
    let n = assets.len() as int;
    let told = asset_messages(assets, disk, base_dir);
    match r {
        Ok(a) => {
            let done = archive_first(dest, time, rsyncable, assets, disk, n);
            &&& done is Some
            &&& a.data@ == dest + entries_bytes(done->0.entries, time) + zeros(1024)
            &&& a.sync_points@ == done->0.points
            &&& are_points(a.sync_points@, a.data@.len())
            &&& well_ordered(done->0.entries)
            &&& said == before + told
        },
        Err(e) => exists|k: int|
            {
                &&& 0 <= k < n
                &&& archive_first(dest, time, rsyncable, assets, disk, k) is Some
                &&& archive_first(dest, time, rsyncable, assets, disk, k + 1) is None
                &&& #[trigger] is_asset_error(assets[k], disk[k], e.deep_view())
                &&& said == before + told.take(k + 1)
            },
    }
}

impl Tarball {
    /// Copies a symbolic link into the archive.
    fn archive_link(&mut self, asset: &Asset, kind: &SymlinkKind, on_disk: &OnDisk) -> (r: CDResult<
        (),
    >)
        requires
            old(self).wf(),
            asset.source == AssetSource::Symlink(*kind),
            is_link_place(asset.c.target_path@),
        ensures
            r is Ok <==> asset_entry(asset.deep_view(), *on_disk) is Some,
            r is Ok ==> final(self).extends(
                *old(self),
                directory_entries(
                    missing_parents(asset.c.target_path@, directories(old(self).entries())),
                ).push(asset_entry(asset.deep_view(), *on_disk)->0),
            ),
            r is Err ==> is_asset_error(asset.deep_view(), *on_disk, r->Err_0.deep_view()),
    {
        let link_name = match kind {
            SymlinkKind::Virtual(p) => p.clone(),
            SymlinkKind::Manifested(p) => match &on_disk.link {
                LinkResult::To(to) => to.clone(),
                LinkResult::Failed(e) => {
                    return Err(CargoDebError::IoFile("Symlink asset", e.clone(), p.clone()));
                },
            },
        };
        match normalize_link_name(asset.c.target_path.as_str(), link_name.as_str()) {
            Some(normalized) => self.symlink(
                asset.c.target_path.as_str(),
                normalized.as_str(),
            ),
            None => Err(CargoDebError::InvalidSymlink(asset.c.target_path.clone(), link_name)),
        }
    }

    /// Copies one more file into the archive.
    fn archive_asset(
        &mut self,
        asset: &Asset,
        on_disk: &OnDisk,
        rsyncable: bool,
        state: &mut SyncState,
    ) -> (r: CDResult<()>)
        requires
            old(self).wf(),
            old(state).data_added <= 1_000_000 + usize::MAX,
            asset.source is Symlink ==> is_link_place(asset.c.target_path@),
        ensures
            ({
                let next = archive_one(
                    progress_of(*old(self), *old(state)),
                    old(self).dest(),
                    old(self).time(),
                    rsyncable,
                    asset.deep_view(),
                    *on_disk,
                );
                match r {
                    Ok(_) => {
                        &&& next == Some(progress_of(*final(self), *final(state)))
                        &&& final(self).wf()
                        &&& final(self).dest() == old(self).dest()
                        &&& final(self).time() == old(self).time()
                        &&& final(state).data_added <= 1_000_000 + usize::MAX
                    },
                    Err(e) => next is None && is_asset_error(
                        asset.deep_view(),
                        *on_disk,
                        e.deep_view(),
                    ),
                }
            }),
    {
        if let AssetSource::Symlink(kind) = &asset.source {
            return self.archive_link(asset, kind, on_disk);
        }
        let out_data = match asset.source.data(&on_disk.content) {
            Ok(d) => d,
            Err(e) => {
                return Err(e);
            },
        };
        proof {
            self.law_entries();
        }
        if rsyncable {
            if state.data_added > 1_000_000 || state.prev_is_built != asset.c.is_built() {
                self.flush();
                state.data_added = 0;
                proof {
                    assert(self.sync_points() =~= old(self).sync_points().push(
                        self.sync_points().last(),
                    ));
                }
            }
            // puts synchronization point between non-code and code assets
            state.prev_is_built = asset.c.is_built();
            state.data_added = state.data_added + out_data.len() as u128;
        }
        let chmod: u32 = match asset.c.chmod {
            Some(m) => m,
            None => 0o644,
        };
        self.file(asset.c.target_path.as_str(), out_data.as_slice(), chmod)
    }

    /// Copies all the files to be packaged into the tar archive, given what is on disk. The first
    /// file that cannot be archived ends it.
    pub fn archive_files(
        self,
        assets: &Vec<Asset>,
        disk: &Vec<OnDisk>,
        rsyncable: bool,
        log_display_base_dir: &str,
        log: &mut Vec<Message>,
    ) -> (r: CDResult<Archived>)
        requires
            self.wf(),
            self.entries() == Seq::<Entry>::empty(),
            self.sync_points() == Seq::<usize>::empty(),
            disk@.len() == assets@.len(),
            forall|i: int|
                0 <= i < assets@.len() && ((#[trigger] assets@[i]).source is Symlink)
                    ==> is_link_place(assets@[i].c.target_path@),
        ensures
            is_archived(
                r,
                self.dest(),
                self.time(),
                rsyncable,
                assets.deep_view(),
                disk@,
                log_display_base_dir@,
                old(log).deep_view(),
                final(log).deep_view(),
            ),
    {
        let mut tarball = self;
        let mut state = SyncState { data_added: 0, prev_is_built: false };
        let ghost av = assets.deep_view();
        let ghost told = asset_messages(av, disk@, log_display_base_dir@);
        let ghost dest = self.dest();
        let ghost time = self.time();
        let ghost log0 = log.deep_view();
        let mut i: usize = 0;
        assert(log.deep_view() =~= log0 + told.take(0));
        while i < assets.len()
            invariant
                i <= assets.len(),
                disk@.len() == assets@.len(),
                av == assets.deep_view(),
                told == asset_messages(av, disk@, log_display_base_dir@),
                forall|i: int|
                    0 <= i < assets@.len() && ((#[trigger] assets@[i]).source is Symlink)
                        ==> is_link_place(assets@[i].c.target_path@),
                tarball.wf(),
                tarball.dest() == dest,
                tarball.time() == time,
                state.data_added <= 1_000_000 + usize::MAX,
                log.deep_view() == log0 + told.take(i as int),
                archive_first(dest, time, rsyncable, av, disk@, i as int) == Some(
                    progress_of(tarball, state),
                ),
                old(log).deep_view() == log0,
                dest == self.dest(),
                time == self.time(),
            decreases assets.len() - i,
        {
            let asset = &assets[i];
            let on_disk = &disk[i];
            assert(av[i as int] == asset.deep_view());
            let ghost logged = log.deep_view();
            let message = log_asset(asset, on_disk.len, log_display_base_dir);
            let ghost m = message.deep_view();
            log.push(message);
            proof {
                assert(log.deep_view() =~= logged.push(m));
                assert(told[i as int] == m);
                assert(told.take(i + 1) =~= told.take(i as int).push(m));
                assert(log.deep_view() =~= log0 + told.take(i + 1));
            }
            match tarball.archive_asset(asset, on_disk, rsyncable, &mut state) {
                Ok(()) => {},
                Err(err) => {
                    assert(is_asset_error(av[i as int], disk@[i as int], err.deep_view()));
                    return Err(err);
                },
            }
            i += 1;
        }
        proof {
            tarball.law_entries();
            assert(told.take(i as int) =~= told);
        }
        tarball.into_archived()
    }
}

} // verus!
