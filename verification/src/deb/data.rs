//! Compressing man pages and other files of a package, as Debian Policy asks for.
use crate::assets::{new_asset, normalized_target, processed_asset, source_data, source_error, source_path, Asset, AssetKind, AssetSource, AssetView, IsBuilt, ReadResult, SourceView};
use crate::compress::{gz_decoded, gz_stream, gzipped};
use crate::config::resolve::{are_places, places_of, remove_all, remove_places, swap_removed};
use crate::config::PackageConfig;
use crate::error::{CDResult, ErrorView};
use crate::listener::{say, Message, MessageView};
use crate::paths::{components, file_name, file_name_of, is_absolute, last_segment, law_file_name_component, lemma_component_names, lemma_trim_back, parent, path_join, path_starts_with, replace_file_name, segment_before, starts_with, trim_back, with_file_name, Comp};
use crate::text::{cat, cat3, ends_with, has_prefix, has_suffix};
use vstd::prelude::*;

verus! {

// ---------------------------------------------------------------------------
// Which files, and what becomes of them
// ---------------------------------------------------------------------------
/// Man pages, changelogs and info files that are not compressed yet.
pub open spec fn needs_compression(path: Seq<char>) -> bool {
    &&& !has_suffix(path, ".gz"@)
    &&& {
        ||| has_prefix(path, "usr/share/man/"@)
        ||| has_prefix(path, "usr/share/doc/"@) && (has_suffix(path, "/NEWS"@) || has_suffix(
            path,
            "/changelog"@,
        ))
        ||| has_prefix(path, "usr/share/info/"@) && has_suffix(path, ".info"@)
    }
}

/// Whether an asset is compressed. One that is replaced where it stands must not have been built.
pub open spec fn is_chosen(a: AssetView, in_place: bool) -> bool {
    &&& path_starts_with(a.c.target_path, "usr"@)
    &&& needs_compression(a.c.target_path)
    &&& in_place ==> !a.c.is_built()
}

/// The path of the compressed file.
pub open spec fn gz_path(target: Seq<char>, in_place: bool) -> Seq<char> {
    if in_place {
        with_file_name(
            target,
            (match file_name(target) {
                Some(name) => name,
                None => Seq::empty(),
            }) + ".gz"@,
        )
    } else {
        target + ".gz"@
    }
}

/// What is said of it.
pub open spec fn gz_message(path: Seq<char>, in_place: bool) -> MessageView {
    if in_place {
        MessageView::Progress("Compressing"@, "'"@ + path + "'"@)
    } else {
        MessageView::Info("Compressing '"@ + path + "'"@)
    }
}

/// The asset that takes the place of one, with the data of a compressed file.
pub open spec fn compressed_asset(a: AssetView, path: Seq<char>, gz: Seq<u8>) -> AssetView {
    processed_asset(
        new_asset(SourceView::Data(gz), path, a.c.chmod, IsBuilt::No, AssetKind::Any),
        "compressed"@,
        Some(
            match source_path(a.source) {
                Some(p) => p,
                None => a.c.target_path,
            },
        ),
    )
}

/// The asset that takes the place of one whose content is this.
pub open spec fn gz_asset(a: AssetView, content: Seq<u8>, in_place: bool) -> AssetView {
    compressed_asset(a, gz_path(a.c.target_path, in_place), gz_stream(9, seq![Some(content)]))
}

/// The places of the first `n` assets that are compressed.
pub open spec fn chosen_places(assets: Seq<AssetView>, in_place: bool, n: int) -> Seq<int>
    decreases n,
{
    if n <= 0 {
        Seq::empty()
    } else {
        let before = chosen_places(assets, in_place, n - 1);
        if is_chosen(assets[n - 1], in_place) {
            before.push(n - 1)
        } else {
            before
        }
    }
}

/// The compressed assets for these places.
pub open spec fn gz_assets(
    assets: Seq<AssetView>,
    reads: Seq<ReadResult>,
    places: Seq<int>,
    in_place: bool,
) -> Seq<AssetView> {
    places.map_values(
        |i: int|
            gz_asset(
                assets[i],
                source_data(assets[i].source, reads[i].content())->0,
                in_place,
            ),
    )
}

/// A gzip stream takes the place of a file with this content, and the content is read out of it.
pub open spec fn decodes_to(a: AssetView, content: Seq<u8>) -> bool {
    a.source matches SourceView::Data(gz) && gz_decoded(gz) == Some(content)
}

/// Out of each of these assets the content of the one at its place is read.
pub open spec fn decode_to_places(
    made: Seq<AssetView>,
    assets: Seq<AssetView>,
    reads: Seq<ReadResult>,
    places: Seq<int>,
) -> bool {
    forall|j: int|
        0 <= j < places.len() ==> decodes_to(
            #[trigger] made[j],
            source_data(assets[places[j]].source, reads[places[j]].content())->0,
        )
}

/// What is said of the assets at these places.
pub open spec fn gz_messages(assets: Seq<AssetView>, places: Seq<int>, in_place: bool) -> Seq<
    MessageView,
> {
    places.map_values(
        |i: int| gz_message(gz_path(assets[i].c.target_path, in_place), in_place),
    )
}

/// Whether the content of the asset can be read.
pub open spec fn is_readable(assets: Seq<AssetView>, reads: Seq<ReadResult>, i: int) -> bool {
    source_data(assets[i].source, reads[i].content()) is Some
}

/// All these places can be read.
pub open spec fn are_readable(
    assets: Seq<AssetView>,
    reads: Seq<ReadResult>,
    places: Seq<int>,
) -> bool {
    forall|j: int| 0 <= j < places.len() ==> #[trigger] is_readable(assets, reads, places[j])
}

/// The compression stops with this error at place `k`: the asset there cannot be read.
pub open spec fn stops_at(
    assets: Seq<AssetView>,
    reads: Seq<ReadResult>,
    in_place: bool,
    k: int,
    e: ErrorView,
) -> bool {
    &&& 0 <= k < assets.len()
    &&& is_chosen(assets[k], in_place)
    &&& are_readable(assets, reads, chosen_places(assets, in_place, k))
    &&& !is_readable(assets, reads, k)
    &&& e == source_error(assets[k].source, reads[k].error())
}

// ---------------------------------------------------------------------------
// Compressing
// ---------------------------------------------------------------------------
fn is_uncompressed(path: &str) -> (r: bool)
    ensures
        r == needs_compression(path@),
{
    !ends_with(path, ".gz") && (crate::text::starts_with(path, "usr/share/man/") || (
    crate::text::starts_with(path, "usr/share/doc/") && (ends_with(path, "/NEWS") || ends_with(
        path,
        "/changelog",
    ))) || (crate::text::starts_with(path, "usr/share/info/") && ends_with(path, ".info")))
}

fn gz_path_of(target: &str, in_place: bool) -> (r: String)
    ensures
        r@ == gz_path(target@, in_place),
        r@.len() > 0 && r@.last() != '/',
{
    proof {
        reveal_strlit(".gz");
        assert(".gz"@.len() == 3 && ".gz"@.last() == 'z');
        assert(forall|s: Seq<char>| (#[trigger] (s + ".gz"@)).last() == 'z');
    }
    if in_place {
        let name = match file_name_of(target) {
            Some(name) => cat(name.as_str(), ".gz"),
            None => cat("", ".gz"),
        };
        proof {
            reveal_strlit("");
            assert(""@ =~= Seq::<char>::empty());
        }
        let r = replace_file_name(target, name.as_str());
        assert(r@.last() == name@.last());
        r
    } else {
        cat(target, ".gz")
    }
}

/// The asset that takes the place of one, with the data of a compressed file.
pub fn make_compressed_asset(orig: &Asset, new_path: String, gzdata: Vec<u8>) -> (r: Asset)
    requires
        new_path@.len() > 0 ==> new_path@.last() != '/',
    ensures
        r.deep_view() == compressed_asset(orig.deep_view(), new_path@, gzdata@),
{
    let from = match orig.source.path() {
        Some(p) => p.clone(),
        None => orig.c.target_path.clone(),
    };
    Asset::new(
        AssetSource::Data(gzdata),
        new_path,
        orig.c.chmod,
        IsBuilt::No,
        AssetKind::Any,
    ).processed("compressed", Some(from))
}

fn compress_one(orig: &Asset, read: &ReadResult, new_path: String, in_place: bool) -> (r: CDResult<
    Asset,
>)
    requires
        new_path@ == gz_path(orig.c.target_path@, in_place),
        new_path@.len() > 0 && new_path@.last() != '/',
    ensures
        ({
            let content = source_data(orig.source.deep_view(), read.content());
            match r {
                Ok(a) => content is Some && a.deep_view() == gz_asset(
                    orig.deep_view(),
                    content->0,
                    in_place,
                ) && decodes_to(a.deep_view(), content->0),
                Err(e) => content is None && e.deep_view() == source_error(
                    orig.source.deep_view(),
                    read.error(),
                ),
            }
        }),
{
    let content = orig.source.data(read)?;
    match gzipped(content.as_slice()) {
        Ok(gzdata) => Ok(make_compressed_asset(orig, new_path, gzdata)),
        Err(e) => if in_place {
            Err(e.context("error while gzipping asset".to_owned()))
        } else {
            Err(e)
        },
    }
}

fn compress_chosen(
    resolved: &Vec<Asset>,
    contents: &Vec<ReadResult>,
    in_place: bool,
    log: &mut Vec<Message>,
) -> (r: CDResult<(Vec<usize>, Vec<Asset>)>)
    requires
        contents.len() == resolved.len(),
    ensures
        ({
            let assets = resolved.deep_view();
            let places = chosen_places(assets, in_place, assets.len() as int);
            match r {
                Ok((found, made)) => {
                    &&& are_readable(assets, contents@, places)
                    &&& places_of(found@) == places
                    &&& made.deep_view() == gz_assets(assets, contents@, places, in_place)
                    &&& decode_to_places(made.deep_view(), assets, contents@, places)
                    &&& final(log).deep_view() == old(log).deep_view() + gz_messages(
                        assets,
                        places,
                        in_place,
                    )
                },
                Err(e) => exists|k: int|
                    {
                        &&& #[trigger] stops_at(assets, contents@, in_place, k, e.deep_view())
                        &&& final(log).deep_view() == old(log).deep_view() + gz_messages(
                            assets,
                            chosen_places(assets, in_place, k + 1),
                            in_place,
                        )
                    },
            }
        }),
{
    let ghost assets = resolved.deep_view();
    let ghost start = log.deep_view();
    let mut found: Vec<usize> = Vec::new();
    let mut made: Vec<Asset> = Vec::new();
    let mut i: usize = 0;
    proof {
        assert(places_of(found@) =~= Seq::<int>::empty());
        assert(made.deep_view() =~= gz_assets(assets, contents@, Seq::empty(), in_place));
        assert(start + gz_messages(assets, Seq::empty(), in_place) =~= start);
    }
    while i < resolved.len()
        invariant
            i <= resolved.len() == contents.len(),
            assets == resolved.deep_view(),
            start == old(log).deep_view(),
            are_readable(assets, contents@, chosen_places(assets, in_place, i as int)),
            places_of(found@) == chosen_places(assets, in_place, i as int),
            made.deep_view() == gz_assets(
                assets,
                contents@,
                chosen_places(assets, in_place, i as int),
                in_place,
            ),
            decode_to_places(
                made.deep_view(),
                assets,
                contents@,
                chosen_places(assets, in_place, i as int),
            ),
            log.deep_view() == start + gz_messages(
                assets,
                chosen_places(assets, in_place, i as int),
                in_place,
            ),
        decreases resolved.len() - i,
    {
        assert(assets[i as int] == resolved[i as int].deep_view());
        let orig = &resolved[i];
        let target = orig.c.target_path.as_str();
        if starts_with(target, "usr") && is_uncompressed(target) && !(in_place
            && orig.c.is_built()) {
            let ghost places = chosen_places(assets, in_place, i as int);
            let ghost said = log.deep_view();
            let new_path = gz_path_of(target, in_place);
            let message = if in_place {
                Message::Progress("Compressing".to_owned(), cat3("'", new_path.as_str(), "'"))
            } else {
                Message::Info(cat3("Compressing '", new_path.as_str(), "'"))
            };
            let ghost m = message.deep_view();
            say(log, message);
            proof {
                assert(m == gz_message(gz_path(assets[i as int].c.target_path, in_place), in_place));
                assert(gz_messages(assets, places.push(i as int), in_place) =~= gz_messages(
                    assets,
                    places,
                    in_place,
                ).push(m));
                assert(log.deep_view() =~= start + gz_messages(
                    assets,
                    places.push(i as int),
                    in_place,
                ));
            }
            match compress_one(orig, &contents[i], new_path, in_place) {
                Ok(asset) => {
                    let ghost before = made.deep_view();
                    let ghost found_before = found@;
                    let ghost a = asset.deep_view();
                    made.push(asset);
                    found.push(i);
                    proof {
                        assert(made.deep_view() =~= before.push(a));
                        assert(gz_assets(assets, contents@, places.push(i as int), in_place)
                            =~= before.push(a));
                        assert(places_of(found@) =~= places_of(found_before).push(i as int));
                        assert(is_readable(assets, contents@, i as int));
                        assert(are_readable(assets, contents@, places.push(i as int)));
                        assert forall|j: int| 0 <= j <= places.len() implies decodes_to(
                            #[trigger] made.deep_view()[j],
                            source_data(
                                assets[places.push(i as int)[j]].source,
                                contents@[places.push(i as int)[j]].content(),
                            )->0,
                        ) by {
                            if j < places.len() {
                                assert(made.deep_view()[j] == before[j]);
                            }
                        }
                    }
                },
                Err(e) => {
                    assert(stops_at(assets, contents@, in_place, i as int, e.deep_view()));
                    return Err(e);
                },
            }
        }
        i += 1;
    }
    Ok((found, made))
}

/// Compress man pages and other assets per Debian Policy: each one chosen is taken away, and its
/// compressed form comes behind the other assets.
///
/// # References
///
/// <https://www.debian.org/doc/debian-policy/ch-docs.html>
/// <https://lintian.debian.org/tags/manpage-not-compressed.html>
pub fn compress_assets(
    package_deb: &mut PackageConfig,
    contents: &Vec<ReadResult>,
    log: &mut Vec<Message>,
) -> (r: CDResult<()>)
    requires
        contents.len() == old(package_deb).assets.resolved.len(),
    ensures
        *final(package_deb) == (PackageConfig {
            assets: final(package_deb).assets,
            ..*old(package_deb)
        }),
        final(package_deb).assets.unresolved == old(package_deb).assets.unresolved,
        ({
            let assets = old(package_deb).assets.resolved.deep_view();
            let places = chosen_places(assets, false, assets.len() as int);
            match r {
                Ok(_) => {
                    &&& are_readable(assets, contents@, places)
                    &&& final(package_deb).assets.resolved.deep_view() == remove_places(
                        assets,
                        places,
                    ) + gz_assets(assets, contents@, places, false)
                    &&& decode_to_places(
                        gz_assets(assets, contents@, places, false),
                        assets,
                        contents@,
                        places,
                    )
                    &&& final(log).deep_view() == old(log).deep_view() + gz_messages(
                        assets,
                        places,
                        false,
                    )
                },
                Err(e) => {
                    &&& final(package_deb).assets.resolved == old(package_deb).assets.resolved
                    &&& exists|k: int|
                        {
                            &&& #[trigger] stops_at(assets, contents@, false, k, e.deep_view())
                            &&& final(log).deep_view() == old(log).deep_view() + gz_messages(
                                assets,
                                chosen_places(assets, false, k + 1),
                                false,
                            )
                        }
                },
            }
        }),
{
    let (places, made) = compress_chosen(&package_deb.assets.resolved, contents, false, log)?;
    proof {
        let assets = package_deb.assets.resolved.deep_view();
        lemma_chosen_places(assets, false, assets.len() as int);
    }
    let mut made = made;
    let ghost m = made.deep_view();
    remove_all(&mut package_deb.assets.resolved, &places);
    let ghost kept = package_deb.assets.resolved.deep_view();
    package_deb.assets.resolved.append(&mut made);
    assert(package_deb.assets.resolved.deep_view() =~= kept + m);
    Ok(())
}

/// The places of numbered assets.
pub open spec fn numbers_of(numbered: Seq<(usize, Asset)>) -> Seq<int> {
    numbered.map_values(|p: (usize, Asset)| p.0 as int)
}

/// The assets that are numbered.
pub open spec fn assets_of(numbered: Seq<(usize, Asset)>) -> Seq<AssetView> {
    numbered.map_values(|p: (usize, Asset)| p.1.deep_view())
}

/// The compressed form of man pages and other assets, each with the place of the asset that it is
/// to replace.
pub fn compressed_assets(
    package_deb: &PackageConfig,
    contents: &Vec<ReadResult>,
    log: &mut Vec<Message>,
) -> (r: CDResult<Vec<(usize, Asset)>>)
    requires
        contents.len() == package_deb.assets.resolved.len(),
    ensures
        ({
            let assets = package_deb.assets.resolved.deep_view();
            let places = chosen_places(assets, true, assets.len() as int);
            match r {
                Ok(made) => {
                    &&& are_readable(assets, contents@, places)
                    &&& numbers_of(made@) == places
                    &&& assets_of(made@) == gz_assets(assets, contents@, places, true)
                    &&& decode_to_places(assets_of(made@), assets, contents@, places)
                    &&& are_places(places, assets.len())
                    &&& final(log).deep_view() == old(log).deep_view() + gz_messages(
                        assets,
                        places,
                        true,
                    )
                },
                Err(e) => exists|k: int|
                    {
                        &&& #[trigger] stops_at(assets, contents@, true, k, e.deep_view())
                        &&& final(log).deep_view() == old(log).deep_view() + gz_messages(
                            assets,
                            chosen_places(assets, true, k + 1),
                            true,
                        )
                    },
            }
        }),
{
    let (places, made) = compress_chosen(&package_deb.assets.resolved, contents, true, log)?;
    let mut out: Vec<(usize, Asset)> = Vec::new();
    let ghost all = places_of(places@);
    let ghost assets = made.deep_view();
    proof {
        let resolved = package_deb.assets.resolved.deep_view();
        lemma_chosen_places(resolved, true, resolved.len() as int);
        assert(numbers_of(out@) =~= all.take(0));
        assert(assets_of(out@) =~= assets.take(0));
        assert(all.len() == assets.len());
    }
    let mut i: usize = 0;
    for asset in it: made
        invariant
            it.seq() == made@,
            i == it.index(),
            places.len() == made.len(),
            all == places_of(places@),
            assets == made.deep_view(),
            numbers_of(out@) == all.take(i as int),
            assets_of(out@) == assets.take(i as int),
    {
        let ghost before = out@;
        let ghost a = asset.deep_view();
        out.push((places[i], asset));
        proof {
            assert(numbers_of(out@) =~= numbers_of(before).push(all[i as int]));
            assert(assets_of(out@) =~= assets_of(before).push(a));
            assert(assets[i as int] == a);
            assert(all.take(i + 1) =~= all.take(i as int).push(all[i as int]));
            assert(assets.take(i + 1) =~= assets.take(i as int).push(a));
        }
        i += 1;
    }
    assert(all.take(all.len() as int) =~= all);
    assert(assets.take(assets.len() as int) =~= assets);
    Ok(out)
}

/// The assets with others in their places.
pub open spec fn replaced(assets: Seq<AssetView>, places: Seq<int>, others: Seq<AssetView>) -> Seq<
    AssetView,
>
    decreases places.len(),
{
    if places.len() == 0 {
        assets
    } else {
        replaced(assets, places.drop_last(), others.drop_last()).update(
            places.last(),
            others.last(),
        )
    }
}

/// Puts the compressed assets where the others stood.
pub fn apply_compressed_assets(package_deb: &mut PackageConfig, new_assets: Vec<(usize, Asset)>)
    requires
        forall|j: int|
            0 <= j < new_assets.len() ==> (#[trigger] new_assets[j]).0 < old(
                package_deb,
            ).assets.resolved.len(),
    ensures
        *final(package_deb) == (PackageConfig {
            assets: final(package_deb).assets,
            ..*old(package_deb)
        }),
        final(package_deb).assets.unresolved == old(package_deb).assets.unresolved,
        final(package_deb).assets.resolved.deep_view() == replaced(
            old(package_deb).assets.resolved.deep_view(),
            numbers_of(new_assets@),
            assets_of(new_assets@),
        ),
{
    let ghost start = package_deb.assets.resolved.deep_view();
    let ghost all = numbers_of(new_assets@);
    let ghost others = assets_of(new_assets@);
    for numbered in it: new_assets
        invariant
            it.seq() == new_assets@,
            all == numbers_of(new_assets@),
            others == assets_of(new_assets@),
            package_deb.assets.resolved.len() == start.len(),
            package_deb.assets.resolved.deep_view() == replaced(
                start,
                all.take(it.index()),
                others.take(it.index()),
            ),
            forall|j: int|
                0 <= j < new_assets.len() ==> (#[trigger] new_assets[j]).0 < start.len(),
            *package_deb == (PackageConfig { assets: package_deb.assets, ..*old(package_deb) }),
            package_deb.assets.unresolved == old(package_deb).assets.unresolved,
    {
        let ghost before = package_deb.assets.resolved.deep_view();
        let ghost i = it.index();
        assert(numbered == new_assets[i]);
        let (place, asset) = numbered;
        let ghost a = asset.deep_view();
        package_deb.assets.resolved.set(place, asset);
        proof {
            assert(package_deb.assets.resolved.deep_view() =~= before.update(place as int, a));
            assert(all.take(i + 1).drop_last() =~= all.take(i));
            assert(others.take(i + 1).drop_last() =~= others.take(i));
            assert(all.take(i + 1).last() == place);
            assert(others.take(i + 1).last() == a);
        }
    }
    assert(all.take(all.len() as int) =~= all);
    assert(others.take(others.len() as int) =~= others);
}

proof fn lemma_chosen_places(assets: Seq<AssetView>, in_place: bool, n: int)
    requires
        0 <= n <= assets.len(),
    ensures
        ({
            let p = chosen_places(assets, in_place, n);
            &&& p.len() <= n
            &&& are_places(p, n as nat)
            &&& forall|j: int|
                0 <= j < p.len() ==> 0 <= #[trigger] p[j] < n && is_chosen(assets[p[j]], in_place)
        }),
    decreases n,
{
    if n > 0 {
        lemma_chosen_places(assets, in_place, n - 1);
    }
}

proof fn lemma_replaced(
    assets: Seq<AssetView>,
    reads: Seq<ReadResult>,
    n: int,
)
    requires
        0 <= n <= assets.len(),
    ensures
        ({
            let places = chosen_places(assets, true, n);
            let r = replaced(assets, places, gz_assets(assets, reads, places, true));
            &&& r.len() == assets.len()
            &&& forall|i: int|
                0 <= i < assets.len() ==> #[trigger] r[i] == (if i < n && is_chosen(
                    assets[i],
                    true,
                ) {
                    gz_asset(assets[i], source_data(assets[i].source, reads[i].content())->0, true)
                } else {
                    assets[i]
                })
        }),
    decreases n,
{
    if n > 0 {
        lemma_replaced(assets, reads, n - 1);
        let before = chosen_places(assets, true, n - 1);
        if is_chosen(assets[n - 1], true) {
            let places = before.push(n - 1);
            assert(places.drop_last() =~= before);
            assert(gz_assets(assets, reads, places, true).drop_last() =~= gz_assets(
                assets,
                reads,
                before,
                true,
            ));
        }
    }
}

/// Compressing in place keeps every file: the assets stay as many and in their order, each one that
/// is chosen becomes its compressed form, and every other one stays as it is.
pub proof fn law_compressing_in_place(assets: Seq<AssetView>, reads: Seq<ReadResult>)
    ensures
        ({
            let places = chosen_places(assets, true, assets.len() as int);
            let r = replaced(assets, places, gz_assets(assets, reads, places, true));
            &&& r.len() == assets.len()
            &&& forall|i: int|
                0 <= i < assets.len() ==> #[trigger] r[i] == (if is_chosen(assets[i], true) {
                    gz_asset(assets[i], source_data(assets[i].source, reads[i].content())->0, true)
                } else {
                    assets[i]
                })
        }),
{
    lemma_replaced(assets, reads, assets.len() as int);
}

proof fn lemma_no_places(assets: Seq<AssetView>, in_place: bool, n: int)
    requires
        0 <= n <= assets.len(),
        forall|i: int| 0 <= i < n ==> !is_chosen(#[trigger] assets[i], in_place),
    ensures
        chosen_places(assets, in_place, n) == Seq::<int>::empty(),
    decreases n,
{
    if n > 0 {
        lemma_no_places(assets, in_place, n - 1);
    }
}

/// What has been compressed is not chosen again.
proof fn lemma_compressed_once(a: AssetView, content: Seq<u8>, in_place: bool)
    requires
        is_chosen(a, in_place),
    ensures
        !is_chosen(gz_asset(a, content, in_place), in_place),
{
    let target = a.c.target_path;
    let gz = ".gz"@;
    reveal_strlit(".gz");
    reveal_strlit("usr/share/man/");
    reveal_strlit("usr/share/doc/");
    reveal_strlit("usr/share/info/");
    assert(target[0] == 'u') by {
        assert(has_prefix(target, "usr/share/man/"@) ==> target.take(14)[0] == target[0]);
        assert(has_prefix(target, "usr/share/doc/"@) ==> target.take(14)[0] == target[0]);
        assert(has_prefix(target, "usr/share/info/"@) ==> target.take(15)[0] == target[0]);
    }
    let path = gz_path(target, in_place);
    if in_place {
        let stem = match file_name(target) {
            Some(name) => name,
            None => Seq::empty(),
        };
        let name = stem + gz;
        assert(!is_absolute(name)) by {
            law_file_name_component(target);
            lemma_component_names(target);
            let c = components(target);
            if file_name(target) is Some {
                assert(c[c.len() - 1] == Comp::Normal(stem));
                assert(stem.len() > 0 && name[0] == stem[0]);
                assert(stem.contains(stem[0]));
            } else {
                assert(name[0] == '.');
            }
        }
        let dir = match (file_name(target), parent(target)) {
            (Some(_), Some(dir)) => dir,
            _ => target,
        };
        assert(path == path_join(dir, name));
        assert(!is_absolute(dir)) by {
            if parent(target) is Some && dir == parent(target)->0 && dir.len() > 0 {
                let t = trim_back(target, 0);
                let q = t.take(segment_before(last_segment(t, 0), 0));
                lemma_trim_back(target, 0);
                crate::text::lemma_rfind(t, '/');
                if t.len() > 0 {
                    lemma_trim_back(q, 0);
                    assert(dir == q.take(dir.len() as int));
                    assert(dir[0] == target[0]);
                }
            }
        }
        assert(path.len() >= name.len() && path.skip(path.len() - name.len()) =~= name);
        assert(name.skip(name.len() - 3) =~= gz);
        assert(path.skip(path.len() - 3) =~= path.skip(path.len() - name.len()).skip(
            name.len() - 3,
        ));
        if dir.len() > 0 {
            assert(path[0] == dir[0]);
        } else {
            assert(path[0] == name[0]);
        }
    } else {
        assert(path.skip(path.len() - 3) =~= gz);
        assert(path[0] == target[0]);
    }
    assert(has_suffix(path, gz));
    assert(path.last() == gz.last()) by {
        assert(path.skip(path.len() - 3).last() == path.last());
    }
    assert(normalized_target(path, None) == path);
}

/// None of the assets that are left when the chosen ones among the first `n` are taken away is
/// chosen, if none of those behind them is.
proof fn lemma_left_assets(assets: Seq<AssetView>, t: Seq<AssetView>, n: int)
    requires
        0 <= n <= assets.len(),
        n <= t.len(),
        forall|k: int| 0 <= k < n ==> #[trigger] t[k] == assets[k],
        forall|k: int| n <= k < t.len() ==> !is_chosen(#[trigger] t[k], false),
    ensures
        ({
            let left = remove_places(t, chosen_places(assets, false, n));
            forall|k: int| 0 <= k < left.len() ==> !is_chosen(#[trigger] left[k], false)
        }),
    decreases n,
{
    if n > 0 {
        let places = chosen_places(assets, false, n);
        assert(t[n - 1] == assets[n - 1]);
        if is_chosen(assets[n - 1], false) {
            assert(places.drop_last() =~= chosen_places(assets, false, n - 1));
            assert(places.last() == n - 1);
            let u = swap_removed(t, n - 1);
            assert forall|k: int| n - 1 <= k < u.len() implies !is_chosen(#[trigger] u[k], false) by {
                if k == n - 1 {
                    assert(u[k] == t[t.len() - 1]);
                } else {
                    assert(u[k] == t[k]);
                }
            }
            assert forall|k: int| 0 <= k < n - 1 implies #[trigger] u[k] == assets[k] by {
                assert(u[k] == t[k]);
            }
            lemma_left_assets(assets, u, n - 1);
            assert(remove_places(t, places) == remove_places(u, places.drop_last()));
        } else {
            lemma_left_assets(assets, t, n - 1);
        }
    }
}

/// Once the assets have been compressed, none is left to compress: doing it again changes nothing,
/// whatever is read then.
pub proof fn law_compressing_twice(
    assets: Seq<AssetView>,
    reads: Seq<ReadResult>,
    more_reads: Seq<ReadResult>,
)
    ensures
        ({
            let places = chosen_places(assets, true, assets.len() as int);
            let r = replaced(assets, places, gz_assets(assets, reads, places, true));
            let again = chosen_places(r, true, r.len() as int);
            &&& again == Seq::<int>::empty()
            &&& replaced(r, again, gz_assets(r, more_reads, again, true)) == r
        }),
        ({
            let places = chosen_places(assets, false, assets.len() as int);
            let r = remove_places(assets, places) + gz_assets(assets, reads, places, false);
            let again = chosen_places(r, false, r.len() as int);
            &&& again == Seq::<int>::empty()
            &&& remove_places(r, again) + gz_assets(r, more_reads, again, false) == r
        }),
{
    let n = assets.len() as int;
    let in_place = chosen_places(assets, true, n);
    let r = replaced(assets, in_place, gz_assets(assets, reads, in_place, true));
    law_compressing_in_place(assets, reads);
    assert forall|i: int| 0 <= i < r.len() implies !is_chosen(#[trigger] r[i], true) by {
        if is_chosen(assets[i], true) {
            lemma_compressed_once(
                assets[i],
                source_data(assets[i].source, reads[i].content())->0,
                true,
            );
        }
    }
    lemma_no_places(r, true, r.len() as int);

    let places = chosen_places(assets, false, n);
    let left = remove_places(assets, places);
    let made = gz_assets(assets, reads, places, false);
    lemma_chosen_places(assets, false, n);
    lemma_left_assets(assets, assets, n);
    let q = left + made;
    assert forall|i: int| 0 <= i < q.len() implies !is_chosen(#[trigger] q[i], false) by {
        if i < left.len() {
            assert(q[i] == left[i]);
        } else {
            let a = assets[places[i - left.len()]];
            let read = reads[places[i - left.len()]];
            assert(q[i] == gz_asset(a, source_data(a.source, read.content())->0, false));
            lemma_compressed_once(a, source_data(a.source, read.content())->0, false);
        }
    }
    lemma_no_places(q, false, q.len() as int);
    let again = chosen_places(q, false, q.len() as int);
    assert(remove_places(q, again) + gz_assets(q, more_reads, again, false) =~= q);
}

} // verus!
