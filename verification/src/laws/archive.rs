//! What an archive of files holds.
use crate::assets::{AssetView, SourceView};
use crate::deb::archiving::{archive_first, asset_entry, link_name, LinkResult, OnDisk};
use crate::deb::links::{law_normalized_link_leads_to_same_place, normalized_link, resolve};
use crate::deb::tarball::{directories, directory_before, directory_entries, law_parent_directories, missing_parents, well_ordered, Entry, EntryKind};
use crate::paths::components;
use vstd::prelude::*;

verus! {

/// Where a link leads to that is packaged.
pub open spec fn link_of(a: AssetView, d: OnDisk) -> Option<Seq<char>> {
    match (a.source, d.link) {
        (SourceView::Virtual(to), _) => Some(to),
        (SourceView::Manifested(_), LinkResult::To(to)) => Some(to@),
        _ => None,
    }
}

/// The content of a file that is packaged.
pub open spec fn content_of(a: AssetView, d: OnDisk) -> Option<Seq<u8>> {
    match a.source {
        SourceView::Data(data) => Some(data),
        SourceView::Path(_) => d.content.content(),
        _ => None,
    }
}

/// The entry is that of the file: it has the path where the file is installed; the content of the
/// file, and the permissions that it is to have (those of ordinary files if none are asked for); or if
/// it is a link, it leads to where that leads to, from the directory that it is in.
pub open spec fn is_entry_of(e: Entry, a: AssetView, d: OnDisk) -> bool {
    &&& e.path == a.c.target_path
    &&& a.source is Data || a.source is Path ==> {
        &&& content_of(a, d) is Some
        &&& e.kind == EntryKind::File(content_of(a, d)->0)
        &&& a.c.chmod matches Some(m) ==> e.mode == m
        &&& a.c.chmod is None ==> e.mode == 0o644
    }
    &&& a.source is Manifested || a.source is Virtual ==> {
        &&& e.mode == 0o777
        &&& link_of(a, d) is Some
        &&& e.kind is Symlink
        &&& resolve(Seq::empty(), components(a.c.target_path)) is Some
        &&& ({
            let dir = resolve(Seq::empty(), components(a.c.target_path))->0.drop_last();
            resolve(dir, components(e.kind->Symlink_0)) == resolve(
                dir,
                components(link_of(a, d)->0),
            )
        })
    }
}

/// The entry is a directory above the path.
pub open spec fn is_directory_above(e: Entry, p: Seq<char>) -> bool {
    &&& e.kind == EntryKind::Directory
    &&& e.mode == 0o755
    &&& exists|k: int|
        1 <= k < components(p).len() && components(e.path) == #[trigger] components(p).take(k)
}

/// The entry is a directory above one of the first `n` files.
pub open spec fn is_directory_above_one(e: Entry, assets: Seq<AssetView>, n: int) -> bool {
    exists|i: int| 0 <= i < n && is_directory_above(e, (#[trigger] assets[i]).c.target_path)
}

proof fn lemma_is_entry(a: AssetView, d: OnDisk)
    requires
        asset_entry(a, d) is Some,
        a.source is Manifested || a.source is Virtual ==> crate::deb::links::is_link_place(
            a.c.target_path,
        ),
    ensures
        is_entry_of(asset_entry(a, d)->0, a, d),
{
    if a.source is Manifested || a.source is Virtual {
        let link = link_name(a.source, d)->0;
        assert(link_of(a, d) == Some(link));
        law_normalized_link_leads_to_same_place(a.c.target_path, link);
    }
}

/// An archive holds every file of the package: its entries are, in the order of the files, one entry
/// for each file, with its path, its content and its permissions; and besides them only directories
/// above those files, each before what is in it. `at` are the places of the files.
pub proof fn law_archive_holds_files(
    dest: Seq<u8>,
    time: u64,
    rsyncable: bool,
    assets: Seq<AssetView>,
    disk: Seq<OnDisk>,
    n: int,
) -> (at: Seq<int>)
    requires
        0 <= n <= assets.len(),
        archive_first(dest, time, rsyncable, assets, disk, n) is Some,
        forall|i: int|
            0 <= i < n && ((#[trigger] assets[i]).source is Manifested || assets[i].source is Virtual)
                ==> crate::deb::links::is_link_place(assets[i].c.target_path),
    ensures
        ({
            let entries = archive_first(dest, time, rsyncable, assets, disk, n)->0.entries;
            &&& at.len() == n
            &&& forall|i: int|
                0 <= i < n ==> 0 <= #[trigger] at[i] < entries.len() && is_entry_of(
                    entries[at[i]],
                    assets[i],
                    disk[i],
                )
            &&& forall|i: int, j: int| 0 <= i < j < n ==> #[trigger] at[i] < #[trigger] at[j]
            &&& forall|j: int|
                0 <= j < entries.len() && !at.contains(j) ==> is_directory_above_one(
                    #[trigger] entries[j],
                    assets,
                    n,
                )
            &&& forall|i: int, k: int|
                0 <= i < n && 1 <= k < components(assets[i].c.target_path).len()
                    ==> #[trigger] directory_before(
                    entries,
                    at[i],
                    components(assets[i].c.target_path).take(k),
                )
            &&& well_ordered(entries)
        }),
    decreases n,
{
    if n == 0 {
        Seq::empty()
    } else {
        let before_at = law_archive_holds_files(dest, time, rsyncable, assets, disk, n - 1);
        let p = archive_first(dest, time, rsyncable, assets, disk, n - 1)->0;
        let before = p.entries;
        let entries = archive_first(dest, time, rsyncable, assets, disk, n)->0.entries;
        let a = assets[n - 1];
        let e = asset_entry(a, disk[n - 1])->0;
        let path = a.c.target_path;
        let c = components(path);
        let missing = missing_parents(path, directories(before));
        let upper = before + directory_entries(missing);
        lemma_is_entry(a, disk[n - 1]);
        law_parent_directories(before, path);
        assert(entries =~= upper.push(e));
        let last = upper.len() as int;
        let at = before_at.push(last);
        assert forall|i: int| 0 <= i < n implies 0 <= #[trigger] at[i] < entries.len() && is_entry_of(
            entries[at[i]],
            assets[i],
            disk[i],
        ) by {
            if i < n - 1 {
                assert(before_at[i] == at[i]);
                assert(entries[at[i]] == before[at[i]]);
            }
        }
        assert forall|i: int, j: int| 0 <= i < j < n implies #[trigger] at[i] < #[trigger] at[j] by {
            assert(before_at[i] == at[i]);
            if j < n - 1 {
                assert(before_at[j] == at[j]);
            }
        }
        assert forall|j: int| 0 <= j < entries.len() && !at.contains(j) implies
            is_directory_above_one(#[trigger] entries[j], assets, n) by {
            if j < before.len() {
                assert(entries[j] == before[j]);
                assert(!before_at.contains(j)) by {
                    if before_at.contains(j) {
                        let k = choose|k: int| 0 <= k < before_at.len() && before_at[k] == j;
                        assert(at[k] == j);
                    }
                }
                assert(is_directory_above_one(before[j], assets, n - 1));
                let i = choose|i: int|
                    0 <= i < n - 1 && is_directory_above(
                        before[j],
                        (#[trigger] assets[i]).c.target_path,
                    );
                assert(is_directory_above(entries[j], assets[i].c.target_path));
            } else {
                assert(at[n - 1] == last);
                let m = j - before.len();
                assert(entries[j] == upper[j]);
                assert(upper[before.len() + m].path == missing[m]);
                let k = c.len() - missing.len() + m;
                assert(components(entries[j].path) == c.take(k));
                assert(is_directory_above(entries[j], assets[n - 1].c.target_path));
            }
        }
        assert forall|i: int, k: int|
            0 <= i < n && 1 <= k < components(assets[i].c.target_path).len() implies
            #[trigger] directory_before(
            entries,
            at[i],
            components(assets[i].c.target_path).take(k),
        ) by {
            let cc = components(assets[i].c.target_path).take(k);
            if i < n - 1 {
                assert(before_at[i] == at[i]);
                assert(directory_before(before, at[i], cc));
                let j = choose|j: int|
                    0 <= j < at[i] && #[trigger] before[j].is_dir() && components(before[j].path)
                        == cc;
                assert(entries[j].is_dir());
            } else {
                assert(directory_before(upper, upper.len() as int, cc));
                let j = choose|j: int|
                    0 <= j < upper.len() && #[trigger] upper[j].is_dir() && components(
                        upper[j].path,
                    ) == cc;
                assert(entries[j].is_dir());
            }
        }
        assert(well_ordered(entries)) by {
            assert forall|i: int| 0 <= i < entries.len() implies
                #[trigger] crate::deb::tarball::parents_before(entries, i) by {
                let ic = components(entries[i].path);
                assert forall|k: int| 1 <= k < ic.len() implies #[trigger] directory_before(
                    entries,
                    i,
                    ic.take(k),
                ) by {
                    if i < upper.len() {
                        assert(crate::deb::tarball::parents_before(upper, i));
                        assert(directory_before(upper, i, ic.take(k)));
                        let j = choose|j: int|
                            0 <= j < i && #[trigger] upper[j].is_dir() && components(upper[j].path)
                                == ic.take(k);
                        assert(entries[j].is_dir());
                    } else {
                        assert(at[n - 1] == last);
                        assert(directory_before(entries, at[n - 1], c.take(k)));
                    }
                }
            }
            assert forall|i: int, j: int|
                0 <= i < j < entries.len() && #[trigger] entries[i].is_dir()
                    && #[trigger] entries[j].is_dir() implies !crate::paths::same_path(
                entries[i].path,
                entries[j].path,
            ) by {
                assert(upper[i].is_dir());
                assert(upper[j].is_dir());
            }
        }
        at
    }
}

/// Archiving fails exactly if a file cannot be read, or a link leads out of the package, or has a
/// destination that cannot be written into an archive.
pub proof fn law_archive_is_made(
    dest: Seq<u8>,
    time: u64,
    rsyncable: bool,
    assets: Seq<AssetView>,
    disk: Seq<OnDisk>,
    n: int,
)
    requires
        0 <= n <= assets.len(),
    ensures
        archive_first(dest, time, rsyncable, assets, disk, n) is Some <==> forall|i: int|
            0 <= i < n ==> {
                ||| content_of(#[trigger] assets[i], disk[i]) is Some
                ||| link_of(assets[i], disk[i]) matches Some(link) && normalized_link(
                    assets[i].c.target_path,
                    link,
                ) matches Some(to) && crate::deb::tar_blocks::link_fits(to)
            },
    decreases n,
{
    if n > 0 {
        law_archive_is_made(dest, time, rsyncable, assets, disk, n - 1);
        let a = assets[n - 1];
        let d = disk[n - 1];
        assert(asset_entry(a, d) is Some <==> {
            ||| content_of(a, d) is Some
            ||| link_of(a, d) matches Some(link) && normalized_link(
                a.c.target_path,
                link,
            ) matches Some(to) && crate::deb::tar_blocks::link_fits(to)
        });
    }
}

} // verus!
