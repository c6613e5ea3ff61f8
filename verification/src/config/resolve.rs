//! From what is to be packaged to the files that are there.
use crate::assets::{asset_line, source_path, Asset, AssetFmt, AssetView, UnresolvedAsset, UnresolvedView};
use crate::config::PackageConfig;
use crate::error::{CDResult, ErrorView};
use crate::globs::{resolved_assets, targets_are_known, GlobMatches, MatchesView};
use crate::listener::{warn, Message, MessageView};
use crate::paths::{components, paths_equal, path_starts_with, same_path, starts_with, Comp};
use crate::text::{cat, cat3, chars_of, same, slice};
use vstd::prelude::*;
use vstd::string::StringExecFns;

verus! {

// ---------------------------------------------------------------------------
// Looking up paths and patterns
// ---------------------------------------------------------------------------
/// The files of the paths and patterns up to the first error, and that error.
pub open spec fn resolve_all(
    us: Seq<UnresolvedView>,
    found: Seq<MatchesView>,
    preserve_symlinks: bool,
    cwd: Seq<char>,
) -> (Seq<AssetView>, Option<ErrorView>)
    decreases us.len(),
{
    if us.len() == 0 {
        (Seq::empty(), None)
    } else {
        let before = resolve_all(us.drop_last(), found.drop_last(), preserve_symlinks, cwd);
        if before.1 is Some {
            before
        } else {
            match resolved_assets(us.last(), preserve_symlinks, found.last()) {
                Ok(assets) => (before.0 + assets, None),
                Err(e) => (
                    before.0,
                    Some(
                        ErrorView::Context(
                            "Can't resolve asset: "@ + asset_line(
                                Some(us.last().source_path),
                                None,
                                us.last().c,
                                cwd,
                            ),
                            Box::new(e),
                        ),
                    ),
                ),
            }
        }
    }
}

proof fn lemma_resolve_error(
    us: Seq<UnresolvedView>,
    found: Seq<MatchesView>,
    preserve_symlinks: bool,
    cwd: Seq<char>,
    i: int,
)
    requires
        0 <= i <= us.len(),
        us.len() == found.len(),
        resolve_all(us.take(i), found.take(i), preserve_symlinks, cwd).1 is Some,
    ensures
        resolve_all(us, found, preserve_symlinks, cwd) == resolve_all(
            us.take(i),
            found.take(i),
            preserve_symlinks,
            cwd,
        ),
    decreases us.len(),
{
    if i == us.len() {
        assert(us.take(i) =~= us);
        assert(found.take(i) =~= found);
    } else {
        assert(us.drop_last().take(i) =~= us.take(i));
        assert(found.drop_last().take(i) =~= found.take(i));
        lemma_resolve_error(us.drop_last(), found.drop_last(), preserve_symlinks, cwd, i);
    }
}

fn resolve_into(
    unresolved: &Vec<UnresolvedAsset>,
    found: &Vec<GlobMatches>,
    preserve_symlinks: bool,
    cwd: &str,
    resolved: &mut Vec<Asset>,
) -> (r: CDResult<()>)
    requires
        unresolved.len() == found.len(),
        forall|i: int|
            0 <= i < unresolved.len() ==> targets_are_known(
                #[trigger] unresolved.deep_view()[i],
                preserve_symlinks,
                found.deep_view()[i],
            ),
    ensures
        ({
            let all = resolve_all(
                unresolved.deep_view(),
                found.deep_view(),
                preserve_symlinks,
                cwd@,
            );
            &&& final(resolved).deep_view() == old(resolved).deep_view() + all.0
            &&& r is Ok <==> all.1 is None
            &&& r is Err ==> all.1 == Some(r->Err_0.deep_view())
        }),
{
    let ghost us = unresolved.deep_view();
    let ghost fs = found.deep_view();
    let ghost before = resolved.deep_view();
    let mut i: usize = 0;
    proof {
        assert(us.take(0) =~= Seq::<UnresolvedView>::empty());
        assert(before + Seq::<AssetView>::empty() =~= before);
    }
    while i < unresolved.len()
        invariant
            i <= unresolved.len(),
            unresolved.len() == found.len(),
            us == unresolved.deep_view(),
            fs == found.deep_view(),
            before == old(resolved).deep_view(),
            forall|i: int|
                0 <= i < unresolved.len() ==> targets_are_known(
                    #[trigger] unresolved.deep_view()[i],
                    preserve_symlinks,
                    found.deep_view()[i],
                ),
            resolve_all(us.take(i as int), fs.take(i as int), preserve_symlinks, cwd@).1 is None,
            resolved.deep_view() == before + resolve_all(
                us.take(i as int),
                fs.take(i as int),
                preserve_symlinks,
                cwd@,
            ).0,
        decreases unresolved.len() - i,
    {
        let ghost so_far = resolved.deep_view();
        proof {
            assert(us[i as int] == unresolved[i as int].deep_view());
            assert(fs[i as int] == found[i as int].deep_view());
            assert(us.take(i + 1).drop_last() =~= us.take(i as int));
            assert(fs.take(i + 1).drop_last() =~= fs.take(i as int));
            assert(us.take(i + 1).last() == us[i as int]);
            assert(fs.take(i + 1).last() == fs[i as int]);
            assert(targets_are_known(
                unresolved.deep_view()[i as int],
                preserve_symlinks,
                found.deep_view()[i as int],
            ));
        }
        match unresolved[i].resolve(preserve_symlinks, &found[i]) {
            Ok(assets) => {
                let mut assets = assets;
                let ghost added = assets.deep_view();
                resolved.append(&mut assets);
                assert(resolved.deep_view() =~= so_far + added);
                assert(resolved.deep_view() =~= before + (resolve_all(
                    us.take(i as int),
                    fs.take(i as int),
                    preserve_symlinks,
                    cwd@,
                ).0 + added));
            },
            Err(e) => {
                let line = AssetFmt::unresolved(&unresolved[i], cwd).text();
                assert(resolve_all(us.take(i + 1), fs.take(i + 1), preserve_symlinks, cwd@).1
                    is Some);
                proof {
                    lemma_resolve_error(us, fs, preserve_symlinks, cwd@, i + 1);
                }
                let msg = cat("Can't resolve asset: ", line.as_str());
                let ghost reason = e.deep_view();
                let err = e.context(msg);
                assert(resolved_assets(us[i as int], preserve_symlinks, fs[i as int]) == Err::<
                    Seq<AssetView>,
                    ErrorView,
                >(reason));
                assert(resolve_all(us, fs, preserve_symlinks, cwd@).1 == Some(err.deep_view()));
                return Err(err);
            },
        }
        i += 1;
    }
    proof {
        assert(us.take(i as int) =~= us);
        assert(fs.take(i as int) =~= fs);
    }
    Ok(())
}

// ---------------------------------------------------------------------------
// Files with the same target path
// ---------------------------------------------------------------------------
pub open spec fn targets(assets: Seq<AssetView>) -> Seq<Seq<char>> {
    assets.map_values(|a: AssetView| a.c.target_path)
}

/// The first place with the same path as place `i`.
pub open spec fn first_same(paths: Seq<Seq<char>>, i: int, j: int) -> int
    decreases i - j,
{
    if j >= i || same_path(paths[j], paths[i]) {
        j
    } else {
        first_same(paths, i, j + 1)
    }
}

/// Whether an earlier file has the same target path.
pub open spec fn is_duplicate(paths: Seq<Seq<char>>, i: int) -> bool {
    first_same(paths, i, 0) < i
}

/// The places among the first `n` of files whose target path an earlier one has.
pub open spec fn duplicates(paths: Seq<Seq<char>>, n: int) -> Seq<int>
    decreases n,
{
    if n <= 0 {
        Seq::empty()
    } else if is_duplicate(paths, n - 1) {
        duplicates(paths, n - 1).push(n - 1)
    } else {
        duplicates(paths, n - 1)
    }
}

pub open spec fn line_of(a: AssetView, cwd: Seq<char>) -> Seq<char> {
    asset_line(source_path(a.source), a.processed_from, a.c, cwd)
}

pub open spec fn duplicate_warning(assets: Seq<AssetView>, i: int, cwd: Seq<char>) -> MessageView {
    MessageView::Warning(
        "Duplicate assets: ["@ + line_of(assets[first_same(targets(assets), i, 0)], cwd)
            + "] and ["@ + line_of(assets[i], cwd)
            + "] have the same target path; first one wins"@,
    )
}

pub open spec fn duplicate_warnings(assets: Seq<AssetView>, places: Seq<int>, cwd: Seq<char>) -> Seq<
    MessageView,
> {
    places.map_values(|i: int| duplicate_warning(assets, i, cwd))
}

/// The last item in the place of item `i`.
pub open spec fn swap_removed<A>(s: Seq<A>, i: int) -> Seq<A> {
    s.update(i, s.last()).drop_last()
}

/// The items without those at the places, from the last place to the first.
pub open spec fn remove_places<A>(s: Seq<A>, places: Seq<int>) -> Seq<A>
    decreases places.len(),
{
    if places.len() == 0 {
        s
    } else {
        remove_places(swap_removed(s, places.last()), places.drop_last())
    }
}

/// The files without those whose target path an earlier one has.
pub open spec fn without_duplicates(assets: Seq<AssetView>) -> Seq<AssetView> {
    remove_places(assets, duplicates(targets(assets), assets.len() as int))
}

/// No two paths are the same.
pub open spec fn distinct_paths(paths: Seq<Seq<char>>) -> bool {
    forall|i: int, j: int|
        0 <= i < j < paths.len() ==> !same_path(#[trigger] paths[i], #[trigger] paths[j])
}

proof fn lemma_first_same(paths: Seq<Seq<char>>, i: int, j: int)
    requires
        0 <= j <= i < paths.len(),
    ensures
        j <= first_same(paths, i, j) <= i,
        same_path(paths[first_same(paths, i, j)], paths[i]),
        forall|k: int| j <= k < first_same(paths, i, j) ==> !same_path(#[trigger] paths[k], paths[i]),
    decreases i - j,
{
    if j < i && !same_path(paths[j], paths[i]) {
        lemma_first_same(paths, i, j + 1);
    }
}

proof fn lemma_duplicates(paths: Seq<Seq<char>>, n: int)
    requires
        0 <= n <= paths.len(),
    ensures
        forall|k: int|
            0 <= k < duplicates(paths, n).len() ==> 0 <= #[trigger] duplicates(paths, n)[k] < n
                && is_duplicate(paths, duplicates(paths, n)[k]),
    decreases n,
{
    if n > 0 {
        lemma_duplicates(paths, n - 1);
        let d = duplicates(paths, n - 1);
        let e = duplicates(paths, n);
        assert forall|k: int| 0 <= k < e.len() implies 0 <= #[trigger] e[k] < n && is_duplicate(
            paths,
            e[k],
        ) by {
            if k < d.len() {
                assert(e[k] == d[k]);
            }
        }
    }
}

proof fn lemma_remove_places_map<A, B>(s: Seq<A>, places: Seq<int>, f: spec_fn(A) -> B)
    requires
        forall|k: int| 0 <= k < places.len() ==> 0 <= #[trigger] places[k],
        forall|k: int| 0 <= k < places.len() ==> #[trigger] places[k] + places.len() - k <= s.len(),
    ensures
        remove_places(s.map_values(f), places) == remove_places(s, places).map_values(f),
    decreases places.len(),
{
    if places.len() > 0 {
        let i = places.last();
        assert(places[places.len() - 1] == i);
        let t = swap_removed(s, i);
        assert(swap_removed(s.map_values(f), i) =~= t.map_values(f));
        let rest = places.drop_last();
        assert forall|k: int| 0 <= k < rest.len() implies #[trigger] rest[k] + rest.len() - k
            <= t.len() by {
            assert(places[k] == rest[k]);
        }
        assert forall|k: int| 0 <= k < rest.len() implies 0 <= #[trigger] rest[k] by {
            assert(places[k] == rest[k]);
        }
        lemma_remove_places_map(t, rest, f);
    }
}

proof fn lemma_duplicates_room(paths: Seq<Seq<char>>, n: int)
    requires
        0 <= n <= paths.len(),
    ensures
        duplicates(paths, n).len() <= n,
        forall|k: int|
            0 <= k < duplicates(paths, n).len() ==> #[trigger] duplicates(paths, n)[k] + duplicates(
                paths,
                n,
            ).len() - k <= n,
    decreases n,
{
    if n > 0 {
        lemma_duplicates_room(paths, n - 1);
        lemma_duplicates(paths, n - 1);
        let d = duplicates(paths, n - 1);
        let e = duplicates(paths, n);
        assert forall|k: int| 0 <= k < e.len() implies #[trigger] e[k] + e.len() - k <= n by {
            if k < d.len() {
                assert(e[k] == d[k]);
            }
        }
    }
}

/// What is left of the numbers of `t` when the places of duplicates before `n` are taken away: `t`
/// has the first `n` numbers in front, and behind them numbers that are no duplicates.
proof fn lemma_kept_places(paths: Seq<Seq<char>>, n: int, t: Seq<int>)
    requires
        0 <= n <= t.len(),
        0 <= n <= paths.len(),
        forall|k: int| 0 <= k < n ==> #[trigger] t[k] == k,
        forall|k: int|
            n <= k < t.len() ==> n <= #[trigger] t[k] < paths.len() && !is_duplicate(paths, t[k]),
        t.no_duplicates(),
    ensures
        ({
            let r = remove_places(t, duplicates(paths, n));
            &&& r.no_duplicates()
            &&& forall|k: int|
                0 <= k < r.len() ==> 0 <= #[trigger] r[k] < paths.len() && !is_duplicate(paths, r[k])
            &&& forall|i: int|
                0 <= i < paths.len() && !is_duplicate(paths, i) && (i < n || t.contains(i))
                    ==> #[trigger] r.contains(i)
        }),
    decreases n,
{
    if n > 0 {
        if is_duplicate(paths, n - 1) {
            let d = duplicates(paths, n);
            assert(d.drop_last() =~= duplicates(paths, n - 1));
            let u = swap_removed(t, n - 1);
            let last = t.len() - 1;
            assert forall|k: int| n - 1 <= k < u.len() implies n - 1 <= #[trigger] u[k] < paths.len()
                && !is_duplicate(paths, u[k]) by {
                if k == n - 1 {
                    assert(u[k] == t[last]);
                    assert(n <= t[last]);
                } else {
                    assert(u[k] == t[k]);
                }
            }
            assert forall|k: int| 0 <= k < n - 1 implies #[trigger] u[k] == k by {
                assert(u[k] == t[k]);
            }
            assert(u.no_duplicates()) by {
                assert forall|i: int, j: int| 0 <= i < u.len() && 0 <= j < u.len() && i != j implies u[i]
                    != u[j] by {
                    let i2 = if i == n - 1 {
                        last
                    } else {
                        i
                    };
                    let j2 = if j == n - 1 {
                        last
                    } else {
                        j
                    };
                    assert(u[i] == t[i2] && u[j] == t[j2]);
                }
            }
            lemma_kept_places(paths, n - 1, u);
            let r = remove_places(t, d);
            assert forall|i: int|
                0 <= i < paths.len() && !is_duplicate(paths, i) && (i < n || t.contains(i)) implies #[trigger] r.contains(
            i) by {
                if i >= n - 1 {
                    let p = choose|p: int| 0 <= p < t.len() && t[p] == i;
                    if p == last {
                        assert(u[n - 1] == i);
                    } else {
                        assert(p != n - 1);
                        assert(u[p] == i);
                    }
                    assert(u.contains(i));
                }
            }
        } else {
            assert forall|k: int| n - 1 <= k < t.len() implies n - 1 <= #[trigger] t[k] < paths.len()
                && !is_duplicate(paths, t[k]) by {
                if k == n - 1 {
                    assert(t[k] == k);
                }
            }
            lemma_kept_places(paths, n - 1, t);
            let r = remove_places(t, duplicates(paths, n));
            assert forall|i: int|
                0 <= i < paths.len() && !is_duplicate(paths, i) && (i < n || t.contains(i)) implies #[trigger] r.contains(
            i) by {
                if i == n - 1 {
                    assert(t[n - 1] == i);
                    assert(t.contains(i));
                }
            }
        }
    }
}

/// When duplicates are gone, no two files have the same target path, nothing has been added, and of
/// the files with the same target path the first one is there.
pub proof fn law_first_asset_wins(assets: Seq<AssetView>)
    ensures
        distinct_paths(targets(without_duplicates(assets))),
        forall|a: AssetView| without_duplicates(assets).contains(a) ==> #[trigger] assets.contains(a),
        forall|i: int|
            0 <= i < assets.len() && !is_duplicate(targets(assets), i)
                ==> without_duplicates(assets).contains(#[trigger] assets[i]),
{
    let paths = targets(assets);
    let n = assets.len() as int;
    let d = duplicates(paths, n);
    let ident = Seq::new(assets.len(), |i: int| i);
    let f = |i: int| assets[i];
    assert(ident.map_values(f) =~= assets);
    lemma_duplicates(paths, n);
    lemma_duplicates_room(paths, n);
    lemma_remove_places_map(ident, d, f);
    lemma_kept_places(paths, n, ident);
    let r = remove_places(ident, d);
    let kept = without_duplicates(assets);
    assert(kept == r.map_values(f));
    assert forall|i: int, j: int| 0 <= i < j < targets(kept).len() implies !same_path(
        #[trigger] targets(kept)[i],
        #[trigger] targets(kept)[j],
    ) by {
        let x = r[i];
        let y = r[j];
        assert(x != y);
        assert(targets(kept)[i] == paths[x] && targets(kept)[j] == paths[y]);
        lemma_first_same(paths, x, 0);
        lemma_first_same(paths, y, 0);
    }
    assert forall|a: AssetView| kept.contains(a) implies #[trigger] assets.contains(a) by {
        let k = choose|k: int| 0 <= k < kept.len() && kept[k] == a;
        assert(kept[k] == assets[r[k]]);
    }
    assert forall|i: int| 0 <= i < assets.len() && !is_duplicate(paths, i) implies kept.contains(
        #[trigger] assets[i],
    ) by {
        assert(r.contains(i));
        let k = choose|k: int| 0 <= k < r.len() && r[k] == i;
        assert(kept[k] == assets[i]);
    }
}

fn find_same(resolved: &Vec<Asset>, i: usize) -> (r: usize)
    requires
        i < resolved.len(),
    ensures
        r == first_same(targets(resolved.deep_view()), i as int, 0),
        r <= i,
{
    let ghost paths = targets(resolved.deep_view());
    let mut j: usize = 0;
    while j < i
        invariant
            j <= i < resolved.len(),
            paths == targets(resolved.deep_view()),
            first_same(paths, i as int, 0) == first_same(paths, i as int, j as int),
        decreases i - j,
    {
        assert(paths[j as int] == resolved[j as int].c.target_path@);
        assert(paths[i as int] == resolved[i as int].c.target_path@);
        if paths_equal(resolved[j].c.target_path.as_str(), resolved[i].c.target_path.as_str()) {
            return j;
        }
        j += 1;
    }
    j
}

pub open spec fn places_of(v: Seq<usize>) -> Seq<int> {
    v.map_values(|i: usize| i as int)
}

fn find_duplicates(resolved: &Vec<Asset>, cwd: &str, log: &mut Vec<Message>) -> (r: Vec<usize>)
    ensures
        places_of(r@) == duplicates(targets(resolved.deep_view()), resolved.len() as int),
        final(log).deep_view() == old(log).deep_view() + duplicate_warnings(
            resolved.deep_view(),
            duplicates(targets(resolved.deep_view()), resolved.len() as int),
            cwd@,
        ),
{
    let ghost assets = resolved.deep_view();
    let ghost paths = targets(assets);
    let ghost before = log.deep_view();
    let mut out: Vec<usize> = Vec::new();
    let mut i: usize = 0;
    proof {
        assert(places_of(out@) =~= Seq::<int>::empty());
        assert(before + duplicate_warnings(assets, Seq::empty(), cwd@) =~= before);
    }
    while i < resolved.len()
        invariant
            i <= resolved.len(),
            assets == resolved.deep_view(),
            paths == targets(assets),
            places_of(out@) == duplicates(paths, i as int),
            log.deep_view() == before + duplicate_warnings(
                assets,
                duplicates(paths, i as int),
                cwd@,
            ),
        decreases resolved.len() - i,
    {
        let j = find_same(resolved, i);
        if j < i {
            let first = AssetFmt::new(&resolved[j], cwd).text();
            let second = AssetFmt::new(&resolved[i], cwd).text();
            let mut text = cat3("Duplicate assets: [", first.as_str(), "] and [");
            text.append(second.as_str());
            text.append("] have the same target path; first one wins");
            let ghost so_far = log.deep_view();
            let ghost d = duplicates(paths, i as int);
            let ghost w = MessageView::Warning(text@);
            warn(log, text);
            let ghost old_out = out@;
            out.push(i);
            proof {
                assert(assets[j as int] == resolved[j as int].deep_view());
                assert(assets[i as int] == resolved[i as int].deep_view());
                assert(w == duplicate_warning(assets, i as int, cwd@));
                assert(places_of(out@) =~= places_of(old_out).push(i as int));
                assert(duplicate_warnings(assets, d.push(i as int), cwd@) =~= duplicate_warnings(
                    assets,
                    d,
                    cwd@,
                ).push(w));
                assert(log.deep_view() =~= before + duplicate_warnings(
                    assets,
                    d.push(i as int),
                    cwd@,
                ));
            }
        }
        i += 1;
    }
    out
}

/// Places in ascending order, in a list of this length: behind each there is room for the later ones.
pub open spec fn are_places(places: Seq<int>, len: nat) -> bool {
    &&& forall|j: int| 0 <= j < places.len() ==> 0 <= #[trigger] places[j]
    &&& forall|j: int|
        0 <= j < places.len() ==> #[trigger] places[j] + places.len() - j <= len
}

/// Removes the assets at these places, the last one first.
pub(crate) fn remove_all(resolved: &mut Vec<Asset>, places: &Vec<usize>)
    requires
        are_places(places_of(places@), old(resolved).len() as nat),
    ensures
        final(resolved).deep_view() == remove_places(
            old(resolved).deep_view(),
            places_of(places@),
        ),
{
    let ghost all = places_of(places@);
    let ghost start = resolved.deep_view();
    let mut k: usize = places.len();
    assert(all.take(k as int) =~= all);
    while k > 0
        invariant
            k <= places.len(),
            all == places_of(places@),
            resolved.len() + (all.len() - k) == start.len(),
            remove_places(resolved.deep_view(), all.take(k as int)) == remove_places(start, all),
            forall|j: int| 0 <= j < all.len() ==> 0 <= #[trigger] all[j],
            forall|j: int| 0 <= j < all.len() ==> #[trigger] all[j] + all.len() - j <= start.len(),
        decreases k,
    {
        k -= 1;
        let ghost s = resolved.deep_view();
        assert(all[k as int] == places@[k as int]);
        let i = places[k];
        assert(i + all.len() - k <= start.len());
        resolved.swap_remove(i);
        proof {
            assert(resolved.deep_view() =~= swap_removed(s, i as int));
            assert(all.take(k + 1).drop_last() =~= all.take(k as int));
            assert(all.take(k + 1).last() == i);
        }
    }
    assert(all.take(0) =~= Seq::<int>::empty());
}

// ---------------------------------------------------------------------------
// Configuration files
// ---------------------------------------------------------------------------
/// `s` without the slashes that it begins with.
pub open spec fn trim_slashes(s: Seq<char>) -> Seq<char>
    decreases s.len(),
{
    if s.len() > 0 && s[0] == '/' {
        trim_slashes(s.skip(1))
    } else {
        s
    }
}

/// Whether a path is among the configuration files.
pub open spec fn is_conf_file(conf_files: Seq<Seq<char>>, path: Seq<char>) -> bool {
    exists|i: int| 0 <= i < conf_files.len() && trim_slashes(#[trigger] conf_files[i]) == path
}

/// The paths below `etc` that are not among the configuration files yet.
pub open spec fn new_conf_files(paths: Seq<Seq<char>>, conf_files: Seq<Seq<char>>) -> Seq<Seq<char>>
    decreases paths.len(),
{
    if paths.len() == 0 {
        Seq::empty()
    } else {
        let before = new_conf_files(paths.drop_last(), conf_files);
        if path_starts_with(paths.last(), "etc"@) && !is_conf_file(conf_files, paths.last()) {
            before.push("/"@ + paths.last())
        } else {
            before
        }
    }
}

/// `s` without the slashes that it begins with.
pub(crate) fn trimmed_slashes(s: &str) -> (r: String)
    ensures
        r@ == trim_slashes(s@),
{
    let v = chars_of(s);
    let mut i: usize = 0;
    assert(s@.skip(0) =~= s@);
    while i < v.len() && v[i] == '/'
        invariant
            v@ == s@,
            i <= v.len(),
            trim_slashes(s@) == trim_slashes(s@.skip(i as int)),
        decreases v.len() - i,
    {
        assert(s@.skip(i as int).skip(1) =~= s@.skip(i + 1));
        i += 1;
    }
    slice(&v, i, v.len())
}

fn conf_files_hold(conf_files: &Vec<String>, path: &str) -> (r: bool)
    ensures
        r == is_conf_file(conf_files.deep_view(), path@),
{
    let ghost all = conf_files.deep_view();
    let mut i: usize = 0;
    while i < conf_files.len()
        invariant
            i <= conf_files.len(),
            all == conf_files.deep_view(),
            forall|k: int| 0 <= k < i ==> trim_slashes(#[trigger] all[k]) != path@,
        decreases conf_files.len() - i,
    {
        assert(all[i as int] == conf_files[i as int]@);
        let t = trimmed_slashes(conf_files[i].as_str());
        if same(t.as_str(), path) {
            assert(trim_slashes(all[i as int]) == path@);
            return true;
        }
        i += 1;
    }
    false
}

proof fn lemma_trim_slashes_path(p: Seq<char>)
    requires
        path_starts_with(p, "etc"@),
    ensures
        trim_slashes("/"@ + p) == p,
{
    reveal_strlit("etc");
    reveal_strlit("/");
    assert("/"@ =~= seq!['/']);
    assert("etc"@ =~= seq!['e', 't', 'c']);
    crate::paths::lemma_components_single("etc"@);
    assert("etc"@.len() == 3);
    assert(components("etc"@)[0] == Comp::Normal("etc"@));
    assert(components(p).take(1)[0] == components(p)[0]);
    assert(("/"@ + p).skip(1) =~= p);
    if p.len() > 0 && p[0] == '/' {
        assert(components(p)[0] == Comp::Root);
    }
    assert(trim_slashes(p) == p);
    assert(("/"@ + p)[0] == '/');
}

/// Afterwards every file below `etc` is a configuration file.
pub proof fn law_etc_files_are_conf_files(paths: Seq<Seq<char>>, conf_files: Seq<Seq<char>>)
    ensures
        forall|i: int|
            0 <= i < paths.len() && path_starts_with(#[trigger] paths[i], "etc"@) ==> is_conf_file(
                conf_files + new_conf_files(paths, conf_files),
                paths[i],
            ),
    decreases paths.len(),
{
    if paths.len() > 0 {
        let before = new_conf_files(paths.drop_last(), conf_files);
        let after = new_conf_files(paths, conf_files);
        law_etc_files_are_conf_files(paths.drop_last(), conf_files);
        assert forall|i: int|
            0 <= i < paths.len() && path_starts_with(#[trigger] paths[i], "etc"@) implies is_conf_file(
        conf_files + after, paths[i]) by {
            if i < paths.len() - 1 {
                assert(paths.drop_last()[i] == paths[i]);
                let k = choose|k: int|
                    0 <= k < (conf_files + before).len() && trim_slashes(
                        #[trigger] (conf_files + before)[k],
                    ) == paths[i];
                assert((conf_files + after)[k] == (conf_files + before)[k]);
            } else if is_conf_file(conf_files, paths[i]) {
                let k = choose|k: int|
                    0 <= k < conf_files.len() && trim_slashes(#[trigger] conf_files[k]) == paths[i];
                assert((conf_files + after)[k] == conf_files[k]);
            } else {
                lemma_trim_slashes_path(paths[i]);
                assert((conf_files + after).last() == "/"@ + paths[i]);
                assert((conf_files + after)[(conf_files + after).len() - 1] == "/"@ + paths[i]);
            }
        }
    }
}

/// The text of the list of configuration files: each on a line of its own, behind a slash.
pub open spec fn conffiles_text(files: Seq<Seq<char>>) -> Seq<char>
    decreases files.len(),
{
    if files.len() == 0 {
        Seq::empty()
    } else {
        let f = files.last();
        conffiles_text(files.drop_last()) + (if f.len() > 0 && f[0] == '/' {
            Seq::empty()
        } else {
            seq!['/']
        }) + f + "\n"@
    }
}

/// Format conffiles section, ensuring each path has a leading slash
///
/// Starting with [dpkg 1.20.1](https://github.com/guillemj/dpkg/blob/68ab722604217d3ab836276acfc0ae1260b28f5f/debian/changelog#L393),
/// which is what Ubuntu 21.04 uses, relative conf-files are no longer
/// accepted (the deb-conffiles man page states that "they should be listed as
/// absolute pathnames"). So we prepend a leading slash to the given strings
/// as needed
pub fn format_conffiles(files: &Vec<String>) -> (r: String)
    ensures
        r@ == conffiles_text(files.deep_view()),
{
    let ghost all = files.deep_view();
    let mut out = String::new();
    let mut i: usize = 0;
    assert(all.take(0) =~= Seq::<Seq<char>>::empty());
    assert(out@ =~= Seq::<char>::empty());
    while i < files.len()
        invariant
            i <= files.len(),
            all == files.deep_view(),
            out@ == conffiles_text(all.take(i as int)),
        decreases files.len() - i,
    {
        let ghost before = out@;
        proof {
            assert(all.take(i + 1).drop_last() =~= all.take(i as int));
            assert(all.take(i + 1).last() == files[i as int]@);
            reveal_strlit("/");
            assert("/"@ =~= seq!['/']);
        }
        let f = files[i].as_str();
        if !crate::text::starts_with(f, "/") {
            out.push('/');
            assert(f@.len() > 0 && f@[0] == '/' ==> f@.take(1) =~= seq!['/']);
        } else {
            assert(f@.take(1)[0] == f@[0]);
        }
        out.append(f);
        out.append("\n");
        assert(out@ =~= conffiles_text(all.take(i + 1)));
        i += 1;
    }
    assert(all.take(i as int) =~= all);
    out
}

impl PackageConfig {
    /// Finds the files of the paths and patterns, given what matches them; drops all but the first
    /// of those with the same target path; and makes those below `etc` configuration files.
    pub fn resolve_assets(
        &mut self,
        found: &Vec<GlobMatches>,
        cwd: &str,
        log: &mut Vec<Message>,
    ) -> (r: CDResult<()>)
        requires
            found.len() == old(self).assets.unresolved.len(),
            forall|i: int|
                0 <= i < found.len() ==> targets_are_known(
                    #[trigger] old(self).assets.unresolved.deep_view()[i],
                    old(self).preserve_symlinks,
                    found.deep_view()[i],
                ),
        ensures
            *final(self) == (PackageConfig {
                assets: final(self).assets,
                conf_files: final(self).conf_files,
                ..*old(self)
            }),
            final(self).assets.unresolved@.len() == 0,
            ({
                let all = resolve_all(
                    old(self).assets.unresolved.deep_view(),
                    found.deep_view(),
                    old(self).preserve_symlinks,
                    cwd@,
                );
                let assets = old(self).assets.resolved.deep_view() + all.0;
                match all.1 {
                    Some(e) => {
                        &&& r is Err && r->Err_0.deep_view() == e
                        &&& final(self).assets.resolved.deep_view() == assets
                        &&& final(self).conf_files == old(self).conf_files
                        &&& final(log).deep_view() == old(log).deep_view()
                    },
                    None => {
                        &&& r is Ok
                        &&& final(self).assets.resolved.deep_view() == without_duplicates(assets)
                        &&& final(self).conf_files.deep_view() == old(self).conf_files.deep_view()
                            + new_conf_files(
                            targets(without_duplicates(assets)),
                            old(self).conf_files.deep_view(),
                        )
                        &&& final(log).deep_view() == old(log).deep_view() + duplicate_warnings(
                            assets,
                            duplicates(targets(assets), assets.len() as int),
                            cwd@,
                        )
                    },
                }
            }),
    {
        let mut unresolved: Vec<UnresolvedAsset> = Vec::new();
        std::mem::swap(&mut unresolved, &mut self.assets.unresolved);
        let preserve_symlinks = self.preserve_symlinks;
        resolve_into(&unresolved, found, preserve_symlinks, cwd, &mut self.assets.resolved)?;
        let places = find_duplicates(&self.assets.resolved, cwd, log);
        proof {
            let paths = targets(self.assets.resolved.deep_view());
            lemma_duplicates(paths, paths.len() as int);
            lemma_duplicates_room(paths, paths.len() as int);
        }
        remove_all(&mut self.assets.resolved, &places);
        self.add_conf_files();
        Ok(())
    }

    /// Debian defaults all /etc files to be conf files
    /// <https://www.debian.org/doc/manuals/maint-guide/dother.en.html#conffiles>
    fn add_conf_files(&mut self)
        ensures
            *final(self) == (PackageConfig { conf_files: final(self).conf_files, ..*old(self) }),
            final(self).conf_files.deep_view() == old(self).conf_files.deep_view() + new_conf_files(
                targets(old(self).assets.resolved.deep_view()),
                old(self).conf_files.deep_view(),
            ),
    {
        let ghost conf = self.conf_files.deep_view();
        let ghost paths = targets(self.assets.resolved.deep_view());
        let mut new_conf: Vec<String> = Vec::new();
        let mut i: usize = 0;
        assert(paths.take(0) =~= Seq::<Seq<char>>::empty());
        assert(new_conf.deep_view() =~= Seq::<Seq<char>>::empty());
        while i < self.assets.resolved.len()
            invariant
                i <= self.assets.resolved.len(),
                paths == targets(self.assets.resolved.deep_view()),
                conf == self.conf_files.deep_view(),
                *self == *old(self),
                new_conf.deep_view() == new_conf_files(paths.take(i as int), conf),
            decreases self.assets.resolved.len() - i,
        {
            let ghost before = new_conf.deep_view();
            proof {
                assert(paths[i as int] == self.assets.resolved[i as int].c.target_path@);
                assert(paths.take(i + 1).drop_last() =~= paths.take(i as int));
                assert(paths.take(i + 1).last() == paths[i as int]);
            }
            let path = self.assets.resolved[i].c.target_path.as_str();
            if starts_with(path, "etc") && !conf_files_hold(&self.conf_files, path) {
                new_conf.push(cat("/", path));
                assert(new_conf.deep_view() =~= before.push("/"@ + path@));
            }
            i += 1;
        }
        assert(paths.take(i as int) =~= paths);
        let ghost added = new_conf.deep_view();
        self.conf_files.append(&mut new_conf);
        assert(self.conf_files.deep_view() =~= conf + added);
    }

    /// The list of configuration files, if there are any.
    pub fn conf_files(&self) -> (r: Option<String>)
        ensures
            r.deep_view() == if self.conf_files@.len() == 0 {
                None
            } else {
                Some(conffiles_text(self.conf_files.deep_view()))
            },
    {
        if self.conf_files.len() == 0 {
            return None;
        }
        Some(format_conffiles(&self.conf_files))
    }
}

} // verus!
