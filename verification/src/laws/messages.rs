//! What is said of files, and descriptions that are read from files.
use crate::assets::{asset_line, shown_path, source_data, source_error, source_path, AssetView, CommonView, IsBuilt, ProcessedView, SourceView};
use crate::config::control::TextResult;
use crate::config::resolve::{duplicates, is_duplicate};
use crate::config::{BuildEnvironment, ExtendedDescription, PackageConfig};
use crate::deb::archiving::{asset_messages, size_of, size_text, OnDisk};
use crate::deb::data::{gz_messages, gz_path};
use crate::error::{CauseView, ErrorView};
use crate::listener::MessageView;
use crate::path_parts::law_strip_prefix;
use crate::paths::{components, path_join, path_starts_with};
use vstd::prelude::*;

verus! {

/// A path is shown from the current directory on if it is below that.
pub proof fn law_shown_path(p: Seq<char>, cwd: Seq<char>)
    ensures
        path_starts_with(p, cwd) ==> components(p) == components(cwd) + components(
            shown_path(p, cwd),
        ),
        !path_starts_with(p, cwd) ==> shown_path(p, cwd) == p,
{
    if path_starts_with(p, cwd) {
        law_strip_prefix(p, cwd);
    }
}

/// The line on a file says where it comes from, how it was made, and where it goes.
pub proof fn law_asset_line(source: Seq<char>, action: Seq<char>, c: CommonView, cwd: Seq<char>)
    ensures
        ({
            let end = "-> "@ + c.target_path;
            let from = shown_path(source, cwd) + " "@;
            let made = ProcessedView { original_path: Some(source), action };
            let built = c.is_built != IsBuilt::No;
            &&& asset_line(Some(source), None, c, cwd) == (if built {
                from + "(built) "@ + end
            } else {
                from + end
            })
            &&& asset_line(None, None, c, cwd) == (if built {
                "(built) "@ + end
            } else {
                end
            })
            &&& asset_line(None, Some(made), c, cwd) == (if built {
                from + "("@ + action + "; built) "@ + end
            } else {
                from + "("@ + action + ") "@ + end
            })
        }),
{
    let end = "-> "@ + c.target_path;
    let from = shown_path(source, cwd) + " "@;
    let built = c.is_built != IsBuilt::No;
    let made = ProcessedView { original_path: Some(source), action };
    let e = Seq::<char>::empty();
    reveal_strlit("; built");
    reveal_strlit("; built) ");
    reveal_strlit(") ");
    assert("; built"@ + ") "@ =~= "; built) "@);
    if built {
        assert(asset_line(Some(source), None, c, cwd) =~= from + "(built) "@ + end);
        assert(asset_line(None, None, c, cwd) =~= "(built) "@ + end);
        assert(asset_line(None, Some(made), c, cwd) =~= from + "("@ + action + "; built) "@ + end);
    } else {
        assert(asset_line(Some(source), None, c, cwd) =~= from + end);
        assert(asset_line(None, None, c, cwd) =~= end);
        assert(asset_line(None, Some(made), c, cwd) =~= from + "("@ + action + ") "@ + end);
    }
}

/// Every file that is archived is told of, once, in the order of the files: links as such, with where
/// they go.
pub proof fn law_archived_message(
    assets: Seq<AssetView>,
    disk: Seq<OnDisk>,
    base_dir: Seq<char>,
    i: int,
    path: Seq<char>,
)
    requires
        0 <= i < assets.len(),
        assets[i].processed_from is None,
        source_path(assets[i].source) == Some(path),
    ensures
        asset_messages(assets, disk, base_dir).len() == assets.len(),
        ({
            let a = assets[i];
            let where_to = "'"@ + shown_path(path, base_dir) + "' -> "@ + a.c.target_path;
            let m = asset_messages(assets, disk, base_dir)[i];
            &&& a.source is Manifested ==> m == MessageView::Progress("Linking"@, where_to)
            &&& a.source is Path && disk[i].len is None ==> m == MessageView::Progress(
                "Adding"@,
                where_to,
            )
            &&& a.source is Path && disk[i].len is Some ==> m == MessageView::Progress(
                "Adding"@,
                where_to + " ("@ + size_text(disk[i].len->0 as nat) + ")"@,
            )
        }),
{
    let a = assets[i];
    let e = Seq::<char>::empty();
    let from = shown_path(path, base_dir);
    let where_to = "'"@ + from + "' -> "@ + a.c.target_path;
    reveal_strlit("' ");
    reveal_strlit("-> ");
    reveal_strlit("' -> ");
    assert("' "@ + "-> "@ =~= "' -> "@);
    assert("'"@ + from + "' "@ + e + "-> "@ + a.c.target_path + e =~= where_to);
    if disk[i].len is Some {
        let size = " ("@ + size_text(disk[i].len->0 as nat) + ")"@;
        assert("'"@ + from + "' "@ + e + "-> "@ + a.c.target_path + size =~= where_to + " ("@
            + size_text(disk[i].len->0 as nat) + ")"@);
    }
}

/// Every file for a place that is already taken is warned of, and no other one is.
pub proof fn law_duplicates_are_told(paths: Seq<Seq<char>>, n: int)
    requires
        0 <= n <= paths.len(),
    ensures
        forall|i: int|
            0 <= i < n ==> (#[trigger] duplicates(paths, n).contains(i) <==> is_duplicate(paths, i)),
        forall|j: int| 0 <= j < duplicates(paths, n).len() ==> 0 <= #[trigger] duplicates(paths, n)[j] < n,
        forall|j: int, k: int|
            0 <= j < k < duplicates(paths, n).len() ==> #[trigger] duplicates(paths, n)[j]
                < #[trigger] duplicates(paths, n)[k],
    decreases n,
{
    if n > 0 {
        law_duplicates_are_told(paths, n - 1);
        let before = duplicates(paths, n - 1);
        let r = duplicates(paths, n);
        assert forall|i: int| 0 <= i < n implies (#[trigger] r.contains(i) <==> is_duplicate(
            paths,
            i,
        )) by {
            if i < n - 1 {
                if before.contains(i) {
                    let k = choose|k: int| 0 <= k < before.len() && before[k] == i;
                    assert(r[k] == i);
                }
                if r.contains(i) {
                    let k = choose|k: int| 0 <= k < r.len() && r[k] == i;
                    assert(before[k] == i);
                }
            } else if is_duplicate(paths, i) {
                assert(r[r.len() - 1] == i);
            } else if r.contains(i) {
                let k = choose|k: int| 0 <= k < r.len() && r[k] == i;
                assert(before[k] < n - 1);
            }
        }
        assert forall|j: int, k: int| 0 <= j < k < r.len() implies #[trigger] r[j] < #[trigger] r[k] by {
            assert(before[j] == r[j]);
            if k < before.len() {
                assert(before[k] == r[k]);
            }
        }
    }
}

/// The long description is the text that is given, or that of the file; the readme is looked for beside
/// the manifest.
pub proof fn law_long_description(p: PackageConfig, config: BuildEnvironment, read: TextResult)
    ensures
        p.extended_description is Absent ==> (p.long_description(config, read) matches Ok(None)),
        p.extended_description matches ExtendedDescription::Text(t) ==> (p.long_description(
            config,
            read,
        ) matches Ok(Some(d)) && d == t@),
        p.extended_description matches ExtendedDescription::File(f) ==> p.description_file(config)
            == Some(f@),
        p.extended_description matches ExtendedDescription::ReadmeFallback(f) ==> p.description_file(
            config,
        ) == Some(path_join(config.package_manifest_dir@, f@)),
        p.extended_description is File || p.extended_description is ReadmeFallback ==> match read {
            TextResult::Text(t) => p.long_description(config, read) matches Ok(Some(d)) && d == t@,
            TextResult::Failed(_) => p.long_description(config, read) is Err,
        },
{
}

/// The size of a file: that on disk, or that of its content. Links have none.
pub proof fn law_size_of(path: Seq<char>, data: Seq<u8>, len: u64)
    ensures
        size_of(SourceView::Path(path), Some(len)) == Some(len as nat),
        size_of(SourceView::Path(path), None) is None,
        size_of(SourceView::Data(data), Some(len)) == Some(data.len()),
        size_of(SourceView::Data(data), None) == Some(data.len()),
        size_of(SourceView::Manifested(path), Some(len)) is None,
        size_of(SourceView::Virtual(path), Some(len)) is None,
{
}

/// What is read of a file is its content, and of a link nothing without a file; what cannot be read
/// names the path and the cause.
pub proof fn law_content_of(path: Seq<char>, data: Seq<u8>, read: Option<Seq<u8>>, c: CauseView)
    ensures
        source_data(SourceView::Data(data), read) == Some(data),
        source_data(SourceView::Path(path), read) == read,
        source_data(SourceView::Virtual(path), read) is None,
        source_error(SourceView::Path(path), c) matches ErrorView::IoFile(_, cause, file) && cause == c
            && file == path,
        source_error(SourceView::Manifested(path), c) matches ErrorView::IoFile(_, cause, file) && cause
            == c && file == path,
        source_error(SourceView::Virtual(path), c) == ErrorView::CannotReadVirtualSymlink(path),
{
}

/// Every file that is compressed is told of, with its new path.
pub proof fn law_compressing_is_told(assets: Seq<AssetView>, places: Seq<int>, j: int)
    requires
        0 <= j < places.len(),
    ensures
        gz_messages(assets, places, true).len() == places.len(),
        gz_messages(assets, places, true)[j] == MessageView::Progress(
            "Compressing"@,
            "'"@ + gz_path(assets[places[j]].c.target_path, true) + "'"@,
        ),
        gz_messages(assets, places, false)[j] == MessageView::Info(
            "Compressing '"@ + gz_path(assets[places[j]].c.target_path, false) + "'"@,
        ),
{
}

} // verus!
