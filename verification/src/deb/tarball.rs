//! Tar archives for control and data files.
use crate::compress::are_points;
use crate::deb::tar_blocks::{append, block, checksum, describe, header_bytes, into_inner, is_block, lemma_field_lengths, lemma_new_headers, lemma_put_fields, lemma_put_texts, link_field, link_fits, long_number_field, new_writer, octal_field, padded, put, rest_field, set_entry_type, set_link_name, write_name, written, written_len, zero_filled, zeros, TarWriter};
use crate::error::{CDResult, CargoDebError, Cause, CauseView, ErrorView};
use crate::paths::{body_start, components, last_segment, law_parent_components, lemma_components_last, lemma_components_lead, lemma_trim_back_components, parent, parent_of, paths_equal, same_path, segment_before, trim_right, Comp};
use crate::util::pathbytes::AsUnixPathBytes;
use vstd::prelude::*;
use vstd::utf8::encode_utf8;

verus! {

// ---------------------------------------------------------------------------
// The layout of an archive
// ---------------------------------------------------------------------------
/// What an entry of an archive is.
pub enum EntryKind {
    Directory,
    File(Seq<u8>),
    Symlink(Seq<char>),
}

/// An entry of an archive.
pub struct Entry {
    pub path: Seq<char>,
    pub mode: u32,
    pub kind: EntryKind,
}

/// Whether a slash has to be put behind the path of an entry: behind that of a directory which does
/// not end with one.
pub open spec fn needs_slash(path: Seq<u8>, is_dir: bool) -> bool {
    is_dir && !(path.len() > 0 && path.last() == 47u8)
}

/// The name of an entry: the path behind `./`, with a slash behind that of a directory, and a zero
/// byte.
pub open spec fn full_name(path: Seq<u8>, is_dir: bool) -> Seq<u8> {
    seq![46u8, 47u8] + path + (if needs_slash(path, is_dir) {
        seq![47u8]
    } else {
        Seq::empty()
    }) + seq![0u8]
}

/// Whether the name of an entry has room in its header.
pub open spec fn name_fits(path: Seq<u8>, is_dir: bool) -> bool {
    full_name(path, is_dir).len() <= 100
}

/// What stands in the header of the entry for its name: the name, or as much of the path as there
/// is room for.
pub open spec fn name_field(path: Seq<u8>, is_dir: bool) -> Seq<u8> {
    if name_fits(path, is_dir) {
        full_name(path, is_dir)
    } else {
        seq![46u8, 47u8] + path.take(if path.len() < 98 {
            path.len() as int
        } else {
            98
        })
    }
}

/// A header with its checksum.
pub open spec fn summed(
    name: Seq<u8>,
    mode: Seq<u8>,
    owners: Seq<u8>,
    size: Seq<u8>,
    mtime: Seq<u8>,
    flag: u8,
    link: Seq<u8>,
    rest: Seq<u8>,
) -> Seq<u8> {
    let sum = checksum(block(name, mode, owners, size, mtime, zeros(8), flag, link, rest));
    block(name, mode, owners, size, mtime, octal_field(sum, 8), flag, link, rest)
}

/// The name of the record that holds a long name: `././@LongLink` and a zero byte.
pub open spec fn long_link() -> Seq<u8> {
    seq![
        46u8,
        47u8,
        46u8,
        47u8,
        64u8,
        76u8,
        111u8,
        110u8,
        103u8,
        76u8,
        105u8,
        110u8,
        107u8,
        0u8,
    ]
}

/// The record in front of an entry whose name has no room in its header: an entry of the type `L`
/// whose data is the name.
pub open spec fn long_name_record(path: Seq<u8>, is_dir: bool) -> Seq<u8> {
    if name_fits(path, is_dir) {
        Seq::empty()
    } else {
        let name = full_name(path, is_dir);
        summed(
            zero_filled(long_link(), 100),
            octal_field(0o644, 8),
            octal_field(0, 8) + octal_field(0, 8),
            long_number_field(name.len()),
            long_number_field(0),
            76u8,
            zeros(100),
            rest_field(true),
        ) + padded(name)
    }
}

impl Entry {
    pub open spec fn is_dir(self) -> bool {
        self.kind is Directory
    }

    /// What follows the header.
    pub open spec fn data(self) -> Seq<u8> {
        match self.kind {
            EntryKind::File(d) => d,
            _ => Seq::empty(),
        }
    }

    /// The type in the header: none for a file.
    pub open spec fn flag(self) -> u8 {
        match self.kind {
            EntryKind::Directory => 53u8,
            EntryKind::File(_) => 0u8,
            EntryKind::Symlink(_) => 50u8,
        }
    }

    /// The destination of a link in the header.
    pub open spec fn link(self) -> Seq<u8> {
        match self.kind {
            EntryKind::Symlink(to) => zero_filled(link_field(to), 100),
            _ => zeros(100),
        }
    }

    /// The header, in the GNU format if the path has no room in it.
    pub open spec fn header(self, time: u64) -> Seq<u8> {
        let path = encode_utf8(self.path);
        summed(
            zero_filled(name_field(path, self.is_dir()), 100),
            octal_field(self.mode as nat, 8),
            zeros(16),
            long_number_field(self.data().len()),
            long_number_field(time as nat),
            self.flag(),
            self.link(),
            rest_field(path.len() >= 98),
        )
    }

    /// The entry as it stands in an archive.
    pub open spec fn bytes(self, time: u64) -> Seq<u8> {
        long_name_record(encode_utf8(self.path), self.is_dir()) + self.header(time) + padded(
            self.data(),
        )
    }
}

/// The entries one after the other.
pub open spec fn entries_bytes(entries: Seq<Entry>, time: u64) -> Seq<u8>
    decreases entries.len(),
{
    if entries.len() == 0 {
        Seq::empty()
    } else {
        entries_bytes(entries.drop_last(), time) + entries.last().bytes(time)
    }
}

// ---------------------------------------------------------------------------
// Directories
// ---------------------------------------------------------------------------
pub open spec fn directory_entry(path: Seq<char>) -> Entry {
    Entry { path, mode: 0o755, kind: EntryKind::Directory }
}

pub open spec fn directory_entries(paths: Seq<Seq<char>>) -> Seq<Entry> {
    paths.map_values(|p: Seq<char>| directory_entry(p))
}

/// The paths of the directories among the entries.
pub open spec fn directories(entries: Seq<Entry>) -> Seq<Seq<char>>
    decreases entries.len(),
{
    if entries.len() == 0 {
        Seq::empty()
    } else if entries.last().is_dir() {
        directories(entries.drop_last()).push(entries.last().path)
    } else {
        directories(entries.drop_last())
    }
}

/// Whether the directory is among `dirs`, under the same components.
pub open spec fn known(dirs: Seq<Seq<char>>, p: Seq<char>) -> bool {
    exists|i: int| 0 <= i < dirs.len() && same_path(#[trigger] dirs[i], p)
}

/// The parents of a path that are missing among `dirs`, the outermost first, up to the first that
/// is not.
pub open spec fn missing_parents(p: Seq<char>, dirs: Seq<Seq<char>>) -> Seq<Seq<char>>
    decreases p.len(),
{
    match parent(p) {
        None => Seq::empty(),
        Some(d) => if known(dirs, d) {
            Seq::empty()
        } else {
            proof {
                law_parent_components(p);
            }
            let above = missing_parents(d, dirs);
            if d.len() == 0 {
                above
            } else {
                above.push(d)
            }
        },
    }
}

/// Every directory above the entry stands before it.
pub open spec fn parents_before(entries: Seq<Entry>, i: int) -> bool {
    let c = components(entries[i].path);
    forall|k: int| 1 <= k < c.len() ==> #[trigger] directory_before(entries, i, c.take(k))
}

/// The directory with these components stands before the place.
pub open spec fn directory_before(entries: Seq<Entry>, i: int, c: Seq<Comp>) -> bool {
    exists|j: int|
        0 <= j < i && #[trigger] entries[j].is_dir() && components(entries[j].path) == c
}

/// Every entry stands behind the directories above it, and no directory stands there twice.
pub open spec fn well_ordered(entries: Seq<Entry>) -> bool {
    &&& forall|i: int| 0 <= i < entries.len() ==> #[trigger] parents_before(entries, i)
    &&& forall|i: int, j: int|
        0 <= i < j < entries.len() && #[trigger] entries[i].is_dir()
            && #[trigger] entries[j].is_dir() ==> !same_path(entries[i].path, entries[j].path)
}

proof fn lemma_known(entries: Seq<Entry>, p: Seq<char>)
    ensures
        known(directories(entries), p) <==> directory_before(
            entries,
            entries.len() as int,
            components(p),
        ),
    decreases entries.len(),
{
    if entries.len() > 0 {
        let before = entries.drop_last();
        let n = before.len() as int;
        lemma_known(before, p);
        let dirs = directories(entries);
        if known(dirs, p) {
            let i = choose|i: int| 0 <= i < dirs.len() && same_path(#[trigger] dirs[i], p);
            if i < directories(before).len() {
                assert(same_path(directories(before)[i], p));
                let j = choose|j: int|
                    0 <= j < n && #[trigger] before[j].is_dir() && components(before[j].path)
                        == components(p);
                assert(entries[j].is_dir());
            } else {
                assert(entries[n].is_dir());
            }
        }
        if directory_before(entries, entries.len() as int, components(p)) {
            let j = choose|j: int|
                0 <= j < entries.len() && #[trigger] entries[j].is_dir() && components(
                    entries[j].path,
                ) == components(p);
            if j < n {
                assert(before[j].is_dir());
                assert(directory_before(before, n, components(p)));
                let i = choose|i: int|
                    0 <= i < directories(before).len() && same_path(
                        #[trigger] directories(before)[i],
                        p,
                    );
                assert(same_path(dirs[i], p));
            } else {
                assert(dirs[dirs.len() - 1] == entries[n].path);
                assert(same_path(dirs[dirs.len() - 1], p));
            }
        }
    }
}

proof fn lemma_directories_push(entries: Seq<Entry>, e: Entry)
    ensures
        directories(entries.push(e)) == if e.is_dir() {
            directories(entries).push(e.path)
        } else {
            directories(entries)
        },
        forall|time: u64| #[trigger]
            entries_bytes(entries.push(e), time) == entries_bytes(entries, time) + e.bytes(time),
{
    assert(entries.push(e).drop_last() =~= entries);
}

/// Where the parent of a path is known, or there is none, all directories above it are.
proof fn lemma_chain(entries: Seq<Entry>, p: Seq<char>)
    requires
        well_ordered(entries),
        parent(p) is Some && parent(p)->0.len() > 0 ==> known(directories(entries), parent(p)->0),
    ensures
        ({
            let c = components(p);
            forall|k: int|
                1 <= k < c.len() ==> #[trigger] directory_before(
                    entries,
                    entries.len() as int,
                    c.take(k),
                )
        }),
{
    let c = components(p);
    let n = entries.len() as int;
    law_parent_components(p);
    assert forall|k: int| 1 <= k < c.len() implies #[trigger] directory_before(
        entries,
        n,
        c.take(k),
    ) by {
        if parent(p) is None {
            assert(c.len() <= 1);
        }
        let d = parent(p)->0;
        let dc = components(d);
        assert(dc =~= c.take(c.len() - 1));
        if d.len() == 0 {
            lemma_components_lead(d);
            assert(dc.len() == 0);
        }
        lemma_known(entries, d);
        let j = choose|j: int|
            0 <= j < n && #[trigger] entries[j].is_dir() && components(entries[j].path) == dc;
        if k < c.len() - 1 {
            assert(parents_before(entries, j));
            assert(c.take(k) =~= dc.take(k));
            assert(directory_before(entries, j, dc.take(k)));
            let m = choose|m: int|
                0 <= m < j && #[trigger] entries[m].is_dir() && components(entries[m].path)
                    == dc.take(k);
            assert(entries[m].is_dir());
        } else {
            assert(c.take(k) =~= dc);
        }
    }
}

/// Adding an entry whose parents are all there.
proof fn lemma_push_ordered(entries: Seq<Entry>, e: Entry)
    requires
        well_ordered(entries),
        parent(e.path) is Some && parent(e.path)->0.len() > 0 ==> known(
            directories(entries),
            parent(e.path)->0,
        ),
        e.is_dir() ==> !known(directories(entries), e.path),
    ensures
        well_ordered(entries.push(e)),
{
    let next = entries.push(e);
    let n = entries.len() as int;
    lemma_chain(entries, e.path);
    assert forall|i: int| 0 <= i < next.len() implies #[trigger] parents_before(next, i) by {
        let c = components(next[i].path);
        assert forall|k: int| 1 <= k < c.len() implies #[trigger] directory_before(
            next,
            i,
            c.take(k),
        ) by {
            if i < n {
                assert(parents_before(entries, i));
            }
            assert(directory_before(entries, i, c.take(k)));
            let j = choose|j: int|
                0 <= j < i && #[trigger] entries[j].is_dir() && components(entries[j].path)
                    == c.take(k);
            assert(next[j].is_dir());
        }
    }
    assert forall|i: int, j: int|
        0 <= i < j < next.len() && #[trigger] next[i].is_dir()
            && #[trigger] next[j].is_dir() implies !same_path(next[i].path, next[j].path) by {
        assert(entries[i].is_dir());
        if j < n {
            assert(entries[j].is_dir());
        } else {
            lemma_known(entries, e.path);
        }
    }
}

/// Adding the missing parents of a path, the outermost first.
proof fn lemma_add_parents(entries: Seq<Entry>, p: Seq<char>)
    requires
        well_ordered(entries),
    ensures
        ({
            let all = entries + directory_entries(missing_parents(p, directories(entries)));
            &&& well_ordered(all)
            &&& parent(p) is Some && parent(p)->0.len() > 0 ==> known(
                directories(all),
                parent(p)->0,
            )
            &&& forall|i: int|
                0 <= i < missing_parents(p, directories(entries)).len() ==> (
                #[trigger] missing_parents(p, directories(entries))[i]).len() < p.len()
        }),
    decreases p.len(),
{
    let dirs = directories(entries);
    let missing = missing_parents(p, dirs);
    law_parent_components(p);
    let all = entries + directory_entries(missing);
    if parent(p) is None || known(dirs, parent(p)->0) {
        assert(all =~= entries);
    } else {
        let d = parent(p)->0;
        let above = missing_parents(d, dirs);
        lemma_add_parents(entries, d);
        let upper = entries + directory_entries(above);
        if d.len() == 0 {
            assert(all =~= upper);
        } else {
            let e = directory_entry(d);
            assert(all =~= upper.push(e));
            lemma_not_known_yet(entries, d);
            lemma_push_ordered(upper, e);
            lemma_directories_push(upper, e);
            let ds = directories(all);
            assert(same_path(ds[ds.len() - 1], d));
        }
    }
}

/// A directory that is missing is not among its own missing parents.
proof fn lemma_not_known_yet(entries: Seq<Entry>, d: Seq<char>)
    requires
        !known(directories(entries), d),
    ensures
        !known(
            directories(entries + directory_entries(missing_parents(d, directories(entries)))),
            d,
        ),
{
    let missing = missing_parents(d, directories(entries));
    lemma_missing_shorter(d, directories(entries));
    lemma_directories_append(entries, missing);
    let all = directories(entries + directory_entries(missing));
    if known(all, d) {
        let i = choose|i: int| 0 <= i < all.len() && same_path(#[trigger] all[i], d);
        if i < directories(entries).len() {
            assert(same_path(directories(entries)[i], d));
        } else {
            assert(all[i] == missing[i - directories(entries).len()]);
        }
    }
}

proof fn lemma_missing_shorter(p: Seq<char>, dirs: Seq<Seq<char>>)
    ensures
        forall|i: int|
            0 <= i < missing_parents(p, dirs).len() ==> components(
                #[trigger] missing_parents(p, dirs)[i],
            ).len() < components(p).len(),
    decreases p.len(),
{
    law_parent_components(p);
    if parent(p) is Some && !known(dirs, parent(p)->0) {
        let d = parent(p)->0;
        lemma_missing_shorter(d, dirs);
        let missing = missing_parents(p, dirs);
        assert forall|i: int| 0 <= i < missing.len() implies components(
            #[trigger] missing[i],
        ).len() < components(p).len() by {
            if i < missing_parents(d, dirs).len() {
                assert(missing[i] == missing_parents(d, dirs)[i]);
            }
        }
    }
}

proof fn lemma_directories_append(entries: Seq<Entry>, paths: Seq<Seq<char>>)
    ensures
        directories(entries + directory_entries(paths)) == directories(entries) + paths,
    decreases paths.len(),
{
    let all = entries + directory_entries(paths);
    if paths.len() == 0 {
        assert(all =~= entries);
        assert(directories(entries) + paths =~= directories(entries));
    } else {
        lemma_directories_append(entries, paths.drop_last());
        assert(all.drop_last() =~= entries + directory_entries(paths.drop_last()));
        assert(directories(all) =~= directories(entries) + paths);
    }
}

/// A parent that is not empty has components.
proof fn lemma_parent_nonempty(p: Seq<char>)
    requires
        parent(p) is Some,
        parent(p)->0.len() > 0,
    ensures
        components(parent(p)->0).len() > 0,
{
    let t = trim_right(p);
    let start = body_start(p);
    lemma_trim_back_components(p);
    if t.len() > start {
        lemma_components_last(t);
        let q = t.take(segment_before(last_segment(t, start), start));
        let d = trim_right(q);
        lemma_trim_back_components(q);
        if d.len() > start {
            lemma_components_last(d);
        } else {
            lemma_components_lead(d);
        }
    }
}

/// Which parents are missing: from some depth on all of them, and above it none.
proof fn lemma_missing(entries: Seq<Entry>, p: Seq<char>)
    requires
        well_ordered(entries),
    ensures
        ({
            let missing = missing_parents(p, directories(entries));
            let c = components(p);
            let there = c.len() - missing.len();
            &&& missing.len() > 0 ==> there >= 1
            &&& there >= 0
            &&& forall|i: int|
                0 <= i < missing.len() ==> (#[trigger] missing[i]).len() > 0 && components(
                    missing[i],
                ) == c.take(there + i)
            &&& forall|k: int|
                1 <= k < c.len() ==> (#[trigger] directory_before(
                    entries,
                    entries.len() as int,
                    c.take(k),
                ) <==> k < there)
        }),
    decreases p.len(),
{
    let dirs = directories(entries);
    let missing = missing_parents(p, dirs);
    let c = components(p);
    let n = entries.len() as int;
    law_parent_components(p);
    if parent(p) is None {
        assert(c.len() <= 1);
    } else if known(dirs, parent(p)->0) {
        lemma_chain(entries, p);
    } else {
        let d = parent(p)->0;
        let dc = components(d);
        let above = missing_parents(d, dirs);
        lemma_missing(entries, d);
        if d.len() == 0 {
            lemma_components_lead(d);
            law_parent_components(d);
        } else {
            lemma_parent_nonempty(p);
            lemma_known(entries, d);
            let there = c.len() - missing.len();
            assert forall|i: int| 0 <= i < missing.len() implies (#[trigger] missing[i]).len() > 0
                && components(missing[i]) == c.take(there + i) by {
                if i < above.len() {
                    assert(missing[i] == above[i]);
                    assert(dc.take(there + i) =~= c.take(there + i));
                } else {
                    assert(dc =~= c.take(there + i));
                }
            }
            assert forall|k: int| 1 <= k < c.len() implies (#[trigger] directory_before(
                entries,
                n,
                c.take(k),
            ) <==> k < there) by {
                assert(c.take(k) =~= dc.take(k));
                if k == dc.len() {
                    assert(dc.take(k) =~= dc);
                } else {
                    assert(directory_before(entries, n, dc.take(k)) <==> k < there);
                }
            }
        }
    }
}

/// Adding the missing directories above a path adds exactly those that are not there yet, with the
/// permissions 0755, each once, the outermost first, and every one behind the directories above it.
/// Afterwards all directories above the path are there, so adding them again adds none.
pub proof fn law_parent_directories(entries: Seq<Entry>, p: Seq<char>)
    requires
        well_ordered(entries),
    ensures
        ({
            let missing = missing_parents(p, directories(entries));
            let all = entries + directory_entries(missing);
            let c = components(p);
            let there = c.len() - missing.len();
            &&& missing.len() > 0 ==> there >= 1
            &&& all.len() == entries.len() + missing.len()
            &&& forall|i: int|
                0 <= i < missing.len() ==> {
                    let added = all[entries.len() + i];
                    &&& added == Entry {
                        path: #[trigger] missing[i],
                        mode: 0o755,
                        kind: EntryKind::Directory,
                    }
                    &&& added.path.len() > 0
                    &&& components(added.path) == c.take(there + i)
                }
            &&& forall|k: int|
                1 <= k < c.len() ==> (#[trigger] directory_before(
                    entries,
                    entries.len() as int,
                    c.take(k),
                ) <==> k < there)
            &&& well_ordered(all)
            &&& forall|k: int|
                1 <= k < c.len() ==> #[trigger] directory_before(all, all.len() as int, c.take(k))
            &&& missing_parents(p, directories(all)) == Seq::<Seq<char>>::empty()
        }),
{
    let all = entries + directory_entries(missing_parents(p, directories(entries)));
    lemma_missing(entries, p);
    lemma_add_parents(entries, p);
    lemma_chain(all, p);
    if parent(p) is Some && parent(p)->0.len() == 0 {
        lemma_components_lead(parent(p)->0);
        law_parent_components(parent(p)->0);
        reveal_with_fuel(missing_parents, 2);
        assert(missing_parents(p, directories(all)) =~= Seq::<Seq<char>>::empty());
    }
}

// ---------------------------------------------------------------------------
// The archive
// ---------------------------------------------------------------------------
/// Tarball for control and data files
pub struct Tarball {
    added_directories: Vec<String>,
    time: u64,
    tar: TarWriter,
    sync_points: Vec<usize>,
    entries: Ghost<Seq<Entry>>,
    dest: Ghost<Seq<u8>>,
}

/// Whether the directory is among `dirs`.
fn contains_path(dirs: &Vec<String>, p: &str) -> (r: bool)
    ensures
        r == known(dirs.deep_view(), p@),
{
    let ghost view = dirs.deep_view();
    let mut i: usize = 0;
    while i < dirs.len()
        invariant
            i <= dirs.len(),
            view == dirs.deep_view(),
            forall|k: int| 0 <= k < i ==> !same_path(#[trigger] view[k], p@),
        decreases dirs.len() - i,
    {
        assert(view[i as int] == dirs[i as int]@);
        if paths_equal(dirs[i].as_str(), p) {
            assert(same_path(view[i as int], p@));
            return true;
        }
        i += 1;
    }
    false
}

/// The bytes of the slice, at the end of the vector.
fn push_bytes(v: &mut Vec<u8>, bytes: &[u8])
    ensures
        final(v)@ == old(v)@ + bytes@,
{
    let mut i: usize = 0;
    assert(v@ =~= old(v)@ + bytes@.take(0));
    while i < bytes.len()
        invariant
            i <= bytes@.len(),
            v@ == old(v)@ + bytes@.take(i as int),
        decreases bytes@.len() - i,
    {
        v.push(bytes[i]);
        assert(v@ =~= old(v)@ + bytes@.take(i + 1));
        i += 1;
    }
    assert(bytes@.take(i as int) =~= bytes@);
}

/// An error of input or output as a cause, given its text. Nothing lies behind it.
fn cause_of(message: String) -> (r: Cause)
    ensures
        r.deep_view() == (CauseView { message: message@, sources: Seq::empty() }),
{
    let sources: Vec<String> = Vec::new();
    assert(sources.deep_view() =~= Seq::<Seq<char>>::empty());
    Cause { message, sources }
}

/// An error about a file, with some cause.
pub open spec fn is_file_error(e: ErrorView, msg: Seq<char>, file: Seq<char>) -> bool {
    e matches ErrorView::IoFile(m, _, f) && m == msg && f == file
}

impl Tarball {
    /// The entries of the archive.
    pub closed spec fn entries(self) -> Seq<Entry> {
        self.entries@
    }

    /// The time that every entry carries.
    pub closed spec fn time(self) -> u64 {
        self.time
    }

    /// What the destination held before.
    pub closed spec fn dest(self) -> Seq<u8> {
        self.dest@
    }

    /// How many bytes had been written each time that the archive was flushed.
    pub closed spec fn sync_points(self) -> Seq<usize> {
        self.sync_points@
    }

    /// The bytes written so far.
    pub closed spec fn written(self) -> Seq<u8> {
        written(self.tar)
    }

    /// The bytes written so far are those of the entries, and the directories are known that are
    /// among them. The entries are in order.
    pub closed spec fn wf(self) -> bool {
        &&& written(self.tar) == self.dest@ + entries_bytes(self.entries@, self.time)
        &&& self.added_directories.deep_view() == directories(self.entries@)
        &&& well_ordered(self.entries@)
        &&& are_points(self.sync_points@, written(self.tar).len())
    }

    /// Nothing but the entries has changed.
    pub open spec fn extends(self, before: Tarball, added: Seq<Entry>) -> bool {
        &&& self.wf()
        &&& self.entries() == before.entries() + added
        &&& self.time() == before.time()
        &&& self.dest() == before.dest()
        &&& self.sync_points() == before.sync_points()
    }

    /// Every entry of an archive stands behind the directories above it, and no directory stands
    /// there twice. What has been written are the entries, and every place where the archive was
    /// flushed is within it, in order.
    pub proof fn law_entries(self)
        requires
            self.wf(),
        ensures
            well_ordered(self.entries()),
            self.written() == self.dest() + entries_bytes(self.entries(), self.time()),
            are_points(self.sync_points(), self.written().len()),
    {
    }

    /// A new archive behind what the destination holds.
    pub fn new(dest: Vec<u8>, time: u64) -> (r: Self)
        ensures
            r.wf(),
            r.entries() == Seq::<Entry>::empty(),
            r.time() == time,
            r.dest() == dest@,
            r.sync_points() == Seq::<usize>::empty(),
    {
        let ghost d = dest@;
        let r = Tarball {
            added_directories: Vec::new(),
            time,
            tar: new_writer(dest),
            sync_points: Vec::new(),
            entries: Ghost(Seq::empty()),
            dest: Ghost(d),
        };
        assert(r.added_directories.deep_view() =~= Seq::<Seq<char>>::empty());
        assert(d + entries_bytes(Seq::<Entry>::empty(), time) =~= d);
        r
    }

    /// Puts the name of an entry into its header, and in front of the entry the record that holds
    /// a long name.
    fn set_header_path(&mut self, header: &mut ::tar::Header, path_bytes: &[u8], is_dir: bool) -> (r:
        Result<(), std::io::Error>)
        requires
            header_bytes(*old(header)) == block(
                zeros(100),
                zeros(8),
                zeros(16),
                zeros(12),
                octal_field(0, 12),
                zeros(8),
                0u8,
                zeros(100),
                rest_field(path_bytes@.len() >= 98),
            ),
        ensures
            r is Ok,
            header_bytes(*final(header)) == block(
                zero_filled(name_field(path_bytes@, is_dir), 100),
                zeros(8),
                zeros(16),
                zeros(12),
                octal_field(0, 12),
                zeros(8),
                0u8,
                zeros(100),
                rest_field(path_bytes@.len() >= 98),
            ),
            written(final(self).tar) == written(old(self).tar) + long_name_record(
                path_bytes@,
                is_dir,
            ),
            final(self).added_directories == old(self).added_directories,
            final(self).time == old(self).time,
            final(self).sync_points == old(self).sync_points,
            final(self).entries == old(self).entries,
            final(self).dest == old(self).dest,
    {
        let n: usize = path_bytes.len();
        let slash = is_dir && !(n > 0 && path_bytes[n - 1] == 47u8);
        let mut name: Vec<u8> = Vec::new();
        name.push(46u8);
        name.push(47u8);
        push_bytes(&mut name, path_bytes);
        if slash {
            name.push(47u8);
        }
        name.push(0u8);
        assert(name@ =~= full_name(path_bytes@, is_dir));
        let ghost rest = rest_field(path_bytes@.len() >= 98);
        proof {
            lemma_field_lengths(0);
            assert(zeros(100) =~= zero_filled(Seq::<u8>::empty(), 100));
        }
        if name.len() <= 100 {
            proof {
                lemma_put_texts(
                    Seq::empty(),
                    zeros(8),
                    zeros(16),
                    zeros(12),
                    octal_field(0, 12),
                    zeros(8),
                    0u8,
                    Seq::empty(),
                    rest,
                    name@,
                );
                assert(Seq::<u8>::empty() + name@ =~= name@);
            }
            write_name(header, 0, name.as_slice());
            assert(written(self.tar) + Seq::<u8>::empty() =~= written(self.tar));
            return Ok(());
        }
        let m: usize = if n < 98 {
            n
        } else {
            98
        };
        let start = vstd::slice::slice_subrange(name.as_slice(), 0, m + 2);
        proof {
            assert(start@ =~= name_field(path_bytes@, is_dir));
            lemma_put_texts(
                Seq::empty(),
                zeros(8),
                zeros(16),
                zeros(12),
                octal_field(0, 12),
                zeros(8),
                0u8,
                Seq::empty(),
                rest,
                start@,
            );
            assert(Seq::<u8>::empty() + start@ =~= start@);
        }
        write_name(header, 0, start);
        let record = long_name_header(name.len() as u64);
        let ghost before = written(self.tar);
        let r = append(&mut self.tar, &record, name.as_slice());
        assert(written(self.tar) =~= before + long_name_record(path_bytes@, is_dir));
        r
    }

    /// A header with the name of an entry in it.
    fn header_for_path(&mut self, path: &str, is_dir: bool) -> (r: Result<
        ::tar::Header,
        std::io::Error,
    >)
        ensures
            r is Ok,
            header_bytes(r->Ok_0) == block(
                zero_filled(name_field(encode_utf8(path@), is_dir), 100),
                zeros(8),
                zeros(16),
                zeros(12),
                octal_field(0, 12),
                zeros(8),
                0u8,
                zeros(100),
                rest_field(encode_utf8(path@).len() >= 98),
            ),
            written(final(self).tar) == written(old(self).tar) + long_name_record(
                encode_utf8(path@),
                is_dir,
            ),
            final(self).added_directories == old(self).added_directories,
            final(self).time == old(self).time,
            final(self).sync_points == old(self).sync_points,
            final(self).entries == old(self).entries,
            final(self).dest == old(self).dest,
    {
        let path_bytes = path.to_bytes();
        let mut header = if path_bytes.len() < 98 {
            ::tar::Header::new_old()
        } else {
            ::tar::Header::new_gnu()
        };
        proof {
            lemma_new_headers();
        }
        match self.set_header_path(&mut header, path_bytes, is_dir) {
            Ok(()) => Ok(header),
            Err(e) => Err(e),
        }
    }
}

/// The header of the record that holds a long name.
fn long_name_header(size: u64) -> (r: ::tar::Header)
    ensures
        header_bytes(r) == summed(
            zero_filled(long_link(), 100),
            octal_field(0o644, 8),
            octal_field(0, 8) + octal_field(0, 8),
            long_number_field(size as nat),
            long_number_field(0),
            76u8,
            zeros(100),
            rest_field(true),
        ),
{
    let mut header = ::tar::Header::new_gnu();
    let ghost name = zero_filled(long_link(), 100);
    let ghost mode = octal_field(0o644, 8);
    let ghost id = octal_field(0, 8);
    let ghost time = octal_field(0, 12);
    let ghost len = long_number_field(size as nat);
    let ghost rest = rest_field(true);
    proof {
        lemma_new_headers();
        lemma_field_lengths(0);
        lemma_field_lengths(0o644);
        lemma_field_lengths(size as nat);
        assert(zeros(100) =~= zero_filled(Seq::<u8>::empty(), 100));
        lemma_put_texts(
            Seq::empty(),
            zeros(8),
            zeros(16),
            zeros(12),
            time,
            zeros(8),
            0u8,
            Seq::empty(),
            rest,
            long_link(),
        );
        assert(Seq::<u8>::empty() + long_link() =~= long_link());
    }
    let text: Vec<u8> = vec![
        46u8,
        47u8,
        46u8,
        47u8,
        64u8,
        76u8,
        111u8,
        110u8,
        103u8,
        76u8,
        105u8,
        110u8,
        107u8,
        0u8,
    ];
    assert(text@ =~= long_link());
    write_name(&mut header, 0, text.as_slice());
    header.set_mode(0o644);
    header.set_uid(0);
    header.set_gid(0);
    header.set_mtime(0);
    header.set_size(size);
    set_entry_type(&mut header, 76u8);
    proof {
        let z8 = zeros(8);
        let z12 = zeros(12);
        let z16 = zeros(16);
        let no_link = zeros(100);
        lemma_put_fields(name, z8, z16, z12, time, z8, 0u8, no_link, rest, mode, z12, 0u8);
        lemma_put_fields(name, mode, z16, z12, time, z8, 0u8, no_link, rest, id, z12, 0u8);
        lemma_put_fields(
            name,
            mode,
            id + z16.skip(8),
            z12,
            time,
            z8,
            0u8,
            no_link,
            rest,
            id,
            z12,
            0u8,
        );
        let ids = id + id;
        assert((id + z16.skip(8)).take(8) + id =~= ids);
        lemma_put_fields(name, mode, ids, z12, time, z8, 0u8, no_link, rest, id, time, 0u8);
        lemma_put_fields(name, mode, ids, z12, time, z8, 0u8, no_link, rest, id, len, 0u8);
        lemma_put_fields(name, mode, ids, len, time, z8, 0u8, no_link, rest, id, len, 76u8);
        assert(header_bytes(header) == block(name, mode, ids, len, time, z8, 76u8, no_link, rest));
        let sum = octal_field(checksum(header_bytes(header)), 8);
        lemma_field_lengths(checksum(header_bytes(header)));
        lemma_put_fields(name, mode, ids, len, time, z8, 76u8, no_link, rest, sum, len, 76u8);
    }
    header.set_cksum();
    header
}

proof fn lemma_append(a: Seq<u8>, b: Seq<u8>, c: Seq<u8>, d: Seq<u8>, e: Seq<u8>)
    ensures
        a + b + c + d + e == a + (b + (c + d + e)),
{
    assert(a + b + c + d + e =~= a + (b + (c + d + e)));
}

/// A finished header: with time, mode, size, type and checksum.
fn complete_header(header: &mut ::tar::Header, time: u64, mode: u32, size: u64, flag: u8, Ghost(e): Ghost<Entry>)
    requires
        flag == e.flag(),
        mode == e.mode,
        size == e.data().len(),
        header_bytes(*old(header)) == block(
            zero_filled(name_field(encode_utf8(e.path), e.is_dir()), 100),
            zeros(8),
            zeros(16),
            zeros(12),
            octal_field(0, 12),
            zeros(8),
            0u8,
            e.link(),
            rest_field(encode_utf8(e.path).len() >= 98),
        ),
        e.link().len() == 100,
    ensures
        header_bytes(*final(header)) == e.header(time),
{
    let ghost name = zero_filled(name_field(encode_utf8(e.path), e.is_dir()), 100);
    let ghost z8 = zeros(8);
    let ghost z12 = zeros(12);
    let ghost z16 = zeros(16);
    let ghost m = octal_field(mode as nat, 8);
    let ghost t0 = octal_field(0, 12);
    let ghost t = long_number_field(time as nat);
    let ghost l = long_number_field(size as nat);
    let ghost link = e.link();
    let ghost rest = rest_field(encode_utf8(e.path).len() >= 98);
    proof {
        lemma_field_lengths(mode as nat);
        lemma_field_lengths(0);
        lemma_field_lengths(time as nat);
        lemma_field_lengths(size as nat);
        assert(name.len() == 100);
        lemma_put_fields(name, z8, z16, z12, t0, z8, 0u8, link, rest, z8, t, 0u8);
        lemma_put_fields(name, z8, z16, z12, t, z8, 0u8, link, rest, m, t, 0u8);
        lemma_put_fields(name, m, z16, z12, t, z8, 0u8, link, rest, m, l, 0u8);
        lemma_put_fields(name, m, z16, l, t, z8, 0u8, link, rest, m, l, flag);
    }
    header.set_mtime(time);
    header.set_mode(mode);
    header.set_size(size);
    if flag != 0u8 {
        set_entry_type(header, flag);
    }
    proof {
        assert(header_bytes(*header) == block(name, m, z16, l, t, z8, flag, link, rest));
        let sum = octal_field(checksum(header_bytes(*header)), 8);
        lemma_field_lengths(checksum(header_bytes(*header)));
        lemma_put_fields(name, m, z16, l, t, z8, flag, link, rest, sum, l, flag);
    }
    header.set_cksum();
}

impl Tarball {
    /// Writes an entry whose header has been made.
    fn append_entry(&mut self, header: &::tar::Header, data: &[u8], Ghost(e): Ghost<Entry>) -> (r:
        Result<(), std::io::Error>)
        requires
            header_bytes(*header) == e.header(old(self).time),
            data@ == e.data(),
            written(old(self).tar) == old(self).dest@ + entries_bytes(
                old(self).entries@,
                old(self).time,
            ) + long_name_record(encode_utf8(e.path), e.is_dir()),
        ensures
            r is Ok,
            written(final(self).tar) == old(self).dest@ + entries_bytes(
                final(self).entries@,
                old(self).time,
            ),
            final(self).entries@ == old(self).entries@.push(e),
            final(self).added_directories == old(self).added_directories,
            final(self).time == old(self).time,
            final(self).sync_points == old(self).sync_points,
            final(self).dest == old(self).dest,
    {
        let ghost before = self.entries@;
        let r = append(&mut self.tar, header, data);
        proof {
            lemma_directories_push(before, e);
            self.entries@ = before.push(e);
            lemma_append(
                self.dest@,
                entries_bytes(before, self.time),
                long_name_record(encode_utf8(e.path), e.is_dir()),
                e.header(self.time),
                padded(data@),
            );
        }
        r
    }

    /// Writes the entry of a directory.
    fn directory(&mut self, path: &str) -> (r: Result<(), std::io::Error>)
        requires
            old(self).wf(),
        ensures
            r is Ok,
            written(final(self).tar) == old(self).dest@ + entries_bytes(
                final(self).entries@,
                old(self).time,
            ),
            final(self).entries@ == old(self).entries@.push(directory_entry(path@)),
            final(self).added_directories == old(self).added_directories,
            final(self).time == old(self).time,
            final(self).sync_points == old(self).sync_points,
            final(self).dest == old(self).dest,
    {
        let mut header = match self.header_for_path(path, true) {
            Ok(header) => header,
            Err(e) => {
                return Err(e);
            },
        };
        let ghost e = directory_entry(path@);
        complete_header(&mut header, self.time, 0o755, 0, 53u8, Ghost(e));
        let nothing: Vec<u8> = Vec::new();
        self.append_entry(&header, nothing.as_slice(), Ghost(e))
    }

    /// Adds the directories above the path that are not there yet, the outermost first.
    pub fn add_parent_directories(&mut self, path: &str) -> (r: CDResult<()>)
        requires
            old(self).wf(),
        ensures
            r is Ok,
            final(self).extends(
                *old(self),
                directory_entries(missing_parents(path@, directories(old(self).entries()))),
            ),
            parent(path@) is Some && parent(path@)->0.len() > 0 ==> known(
                directories(final(self).entries()),
                parent(path@)->0,
            ),
            missing_parents(path@, directories(final(self).entries())) == Seq::<Seq<char>>::empty(),
    {
        let ghost dirs = directories(self.entries@);
        let ghost all = missing_parents(path@, dirs);
        let mut missing: Vec<String> = Vec::new();
        let mut cur = path.to_owned();
        assert(missing_parents(cur@, dirs) + missing.deep_view().reverse() =~= all);
        loop
            invariant
                self.added_directories.deep_view() == dirs,
                missing_parents(cur@, dirs) + missing.deep_view().reverse() == all,
            ensures
                missing.deep_view().reverse() == all,
            decreases cur@.len(),
        {
            proof {
                law_parent_components(cur@);
            }
            match parent_of(cur.as_str()) {
                None => {
                    assert(missing_parents(cur@, dirs) + missing.deep_view().reverse()
                        =~= missing.deep_view().reverse());
                    break ;
                },
                Some(d) => {
                    if contains_path(&self.added_directories, d.as_str()) {
                        assert(missing_parents(cur@, dirs) + missing.deep_view().reverse()
                            =~= missing.deep_view().reverse());
                        break ;
                    }
                    let ghost before = missing.deep_view();
                    if !d.as_str().is_empty() {
                        missing.push(d.clone());
                        assert(missing.deep_view() =~= before.push(d@));
                        assert(missing_parents(d@, dirs) + missing.deep_view().reverse()
                            =~= missing_parents(cur@, dirs) + before.reverse());
                    }
                    cur = d;
                },
            }
        }
        let ghost start = *self;
        let mut i: usize = missing.len();
        proof {
            lemma_add_parents(self.entries@, path@);
            law_parent_directories(self.entries@, path@);
            assert(self.entries@ + directory_entries(all.take(0)) =~= self.entries@);
        }
        while i > 0
            invariant
                start.wf(),
                i <= missing.len(),
                missing.deep_view().reverse() == all,
                all == missing_parents(path@, directories(start.entries@)),
                self.extends(start, directory_entries(all.take(missing.len() - i))),
            decreases i,
        {
            i -= 1;
            let ghost k = missing.len() - 1 - i;
            let ghost d = missing[i as int]@;
            proof {
                assert(missing.deep_view()[i as int] == d);
                assert(all[k] == d);
                assert(all.take(k + 1) =~= all.take(k).push(d));
            }
            let ghost before = self.entries@;
            match self.directory(missing[i].as_str()) {
                Err(e) => {
                    return Err(
                        CargoDebError::IoFile(
                            "Can't add directory to tarball",
                            cause_of(describe(&e)),
                            missing[i].clone(),
                        ),
                    );
                },
                Ok(()) => {},
            }
            let ghost added = self.added_directories.deep_view();
            self.added_directories.push(missing[i].clone());
            proof {
                assert(self.added_directories.deep_view() =~= added.push(d));
                lemma_directories_push(before, directory_entry(d));
                assert(self.entries@ =~= start.entries@ + directory_entries(all.take(k + 1)));
                lemma_prefix_ordered(start.entries@, path@, k + 1);
            }
        }
        proof {
            assert(all.len() == missing.len());
            assert(all.take(missing.len() as int) =~= all);
        }
        Ok(())
    }
}

/// The first of the missing parents can be added before the others are.
proof fn lemma_prefix_ordered(entries: Seq<Entry>, p: Seq<char>, k: int)
    requires
        well_ordered(entries),
        0 <= k <= missing_parents(p, directories(entries)).len(),
    ensures
        well_ordered(
            entries + directory_entries(missing_parents(p, directories(entries)).take(k)),
        ),
    decreases p.len(),
{
    let dirs = directories(entries);
    let missing = missing_parents(p, dirs);
    law_parent_components(p);
    if k == missing.len() {
        lemma_add_parents(entries, p);
        assert(missing.take(k) =~= missing);
    } else {
        let d = parent(p)->0;
        lemma_prefix_ordered(entries, d, k);
        assert(missing.take(k) =~= missing_parents(d, dirs).take(k));
    }
}

impl Tarball {
    /// Adds a file, behind the directories above it that are not there yet.
    pub fn file(&mut self, path: &str, out_data: &[u8], chmod: u32) -> (r: CDResult<()>)
        requires
            old(self).wf(),
        ensures
            r is Ok,
            final(self).extends(
                *old(self),
                directory_entries(missing_parents(path@, directories(old(self).entries()))).push(
                    Entry { path: path@, mode: chmod, kind: EntryKind::File(out_data@) },
                ),
            ),
    {
        self.file_(path, out_data, chmod)
    }

    fn file_(&mut self, path: &str, out_data: &[u8], chmod: u32) -> (r: CDResult<()>)
        requires
            old(self).wf(),
        ensures
            r is Ok,
            final(self).extends(
                *old(self),
                directory_entries(missing_parents(path@, directories(old(self).entries()))).push(
                    Entry { path: path@, mode: chmod, kind: EntryKind::File(out_data@) },
                ),
            ),
    {
        self.add_parent_directories(path)?;
        let ghost dirs = self.entries@;
        let mut header = match self.header_for_path(path, false) {
            Ok(header) => header,
            Err(e) => {
                return Err(
                    CargoDebError::IoFile(
                        "Can't set header path",
                        cause_of(describe(&e)),
                        path.to_owned(),
                    ),
                );
            },
        };
        let ghost e = Entry { path: path@, mode: chmod, kind: EntryKind::File(out_data@) };
        complete_header(&mut header, self.time, chmod, out_data.len() as u64, 0u8, Ghost(e));
        match self.append_entry(&header, out_data, Ghost(e)) {
            Ok(()) => {},
            Err(err) => {
                return Err(
                    CargoDebError::IoFile(
                        "Can't add file to tarball",
                        cause_of(describe(&err)),
                        path.to_owned(),
                    ),
                );
            },
        }
        proof {
            lemma_push_ordered(dirs, e);
            lemma_directories_push(dirs, e);
            assert(self.entries@ =~= old(self).entries@ + directory_entries(
                missing_parents(path@, directories(old(self).entries@)),
            ).push(e));
        }
        Ok(())
    }

    /// Adds a symbolic link, behind the directories above it that are not there yet. A destination
    /// that has no room in a header is an error; the archive is of no use then.
    #[verifier::rlimit(40)]
    pub fn symlink(&mut self, path: &str, link_name: &str) -> (r: CDResult<()>)
        requires
            old(self).wf(),
        ensures
            r is Ok <==> link_fits(link_name@),
            r is Ok ==> final(self).extends(
                *old(self),
                directory_entries(missing_parents(path@, directories(old(self).entries()))).push(
                    Entry { path: path@, mode: 0o777, kind: EntryKind::Symlink(link_name@) },
                ),
            ),
            r is Err ==> is_file_error(
                r->Err_0.deep_view(),
                "Can't set header link name"@,
                path@,
            ),
    {
        self.add_parent_directories(path)?;
        let ghost dirs = self.entries@;
        let mut header = match self.header_for_path(path, false) {
            Ok(header) => header,
            Err(e) => {
                return Err(
                    CargoDebError::IoFile(
                        "Can't set header path",
                        cause_of(describe(&e)),
                        path.to_owned(),
                    ),
                );
            },
        };
        let ghost e = Entry {
            path: path@,
            mode: 0o777,
            kind: EntryKind::Symlink(link_name@),
        };
        match set_link_name(&mut header, link_name) {
            Ok(()) => {},
            Err(err) => {
                return Err(
                    CargoDebError::IoFile(
                        "Can't set header link name",
                        cause_of(describe(&err)),
                        path.to_owned(),
                    ),
                );
            },
        }
        proof {
            let name = name_field(encode_utf8(path@), false);
            lemma_field_lengths(0);
            lemma_put_link(
                zero_filled(name, 100),
                zeros(8),
                zeros(16),
                zeros(12),
                octal_field(0, 12),
                zeros(8),
                0u8,
                rest_field(encode_utf8(path@).len() >= 98),
                link_field(link_name@),
            );
        }
        complete_header(&mut header, self.time, 0o777, 0, 50u8, Ghost(e));
        let nothing: Vec<u8> = Vec::new();
        match self.append_entry(&header, nothing.as_slice(), Ghost(e)) {
            Ok(()) => {},
            Err(err) => {
                return Err(
                    CargoDebError::IoFile(
                        "Can't add symlink to tarball",
                        cause_of(describe(&err)),
                        path.to_owned(),
                    ),
                );
            },
        }
        proof {
            lemma_push_ordered(dirs, e);
            lemma_directories_push(dirs, e);
            assert(self.entries@ =~= old(self).entries@ + directory_entries(
                missing_parents(path@, directories(old(self).entries@)),
            ).push(e));
        }
        Ok(())
    }

    /// Remembers that what has been written so far is to be readable on its own.
    pub fn flush(&mut self)
        requires
            old(self).wf(),
        ensures
            final(self).wf(),
            final(self).entries() == old(self).entries(),
            final(self).time() == old(self).time(),
            final(self).dest() == old(self).dest(),
            final(self).sync_points().len() == old(self).sync_points().len() + 1,
            final(self).sync_points().drop_last() == old(self).sync_points(),
            final(self).sync_points().last() == (old(self).dest() + entries_bytes(
                old(self).entries(),
                old(self).time(),
            )).len(),
    {
        let n = written_len(&self.tar);
        self.sync_points.push(n);
        assert(self.sync_points@.drop_last() =~= old(self).sync_points@);
    }

    /// The whole archive: the entries, and the two empty blocks that end it.
    pub fn into_inner(self) -> (r: CDResult<Vec<u8>>)
        requires
            self.wf(),
        ensures
            r is Ok,
            (r->Ok_0)@ == self.dest() + entries_bytes(self.entries(), self.time()) + zeros(1024),
    {
        match into_inner(self.tar) {
            Ok(bytes) => Ok(bytes),
            Err(e) => Err(CargoDebError::Io(cause_of(describe(&e)))),
        }
    }
}

/// An archive with the places where it was flushed.
pub struct Archived {
    pub data: Vec<u8>,
    pub sync_points: Vec<usize>,
}

impl Tarball {
    /// The whole archive, with the places where it was flushed.
    pub fn into_archived(self) -> (r: CDResult<Archived>)
        requires
            self.wf(),
        ensures
            r is Ok,
            (r->Ok_0).data@ == self.dest() + entries_bytes(self.entries(), self.time()) + zeros(
                1024,
            ),
            (r->Ok_0).sync_points@ == self.sync_points(),
            are_points((r->Ok_0).sync_points@, (r->Ok_0).data@.len()),
    {
        match into_inner(self.tar) {
            Ok(data) => Ok(Archived { data, sync_points: self.sync_points }),
            Err(e) => Err(
                CargoDebError::Io(cause_of(describe(&e))).context("error while finalizing tar archive".to_owned()),
            ),
        }
    }
}

/// Writing the destination of a link into an empty field.
proof fn lemma_put_link(
    name: Seq<u8>,
    mode: Seq<u8>,
    owners: Seq<u8>,
    size: Seq<u8>,
    mtime: Seq<u8>,
    sum: Seq<u8>,
    flag: u8,
    rest: Seq<u8>,
    text: Seq<u8>,
)
    requires
        text.len() <= 100,
        is_block(name, mode, owners, size, mtime, sum, zeros(100), rest),
    ensures
        put(block(name, mode, owners, size, mtime, sum, flag, zeros(100), rest), 157, text)
            == block(
            name,
            mode,
            owners,
            size,
            mtime,
            sum,
            flag,
            zero_filled(text, 100),
            rest,
        ),
{
    assert(put(block(name, mode, owners, size, mtime, sum, flag, zeros(100), rest), 157, text)
        =~= block(
        name,
        mode,
        owners,
        size,
        mtime,
        sum,
        flag,
        zero_filled(text, 100),
        rest,
    ));
}

} // verus!
