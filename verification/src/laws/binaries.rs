//! Which files are binaries.
use crate::assets::{AssetView, IsBuilt, SourceView};
use crate::config::depends::binary_paths;
use crate::config::splitting::{binary_sources, built_places};
use crate::paths::file_name;
use vstd::prelude::*;

verus! {

/// A file is a binary if somebody may run it, or if its name says that it is a dynamic library.
pub open spec fn counts_as_binary(a: AssetView) -> bool {
    ||| a.c.chmod matches Some(m) && m & 0o111 != 0
    ||| exists|stem: Seq<char>| file_name(a.c.target_path) == Some(#[trigger] (stem + ".so"@))
}

proof fn lemma_counts(a: AssetView)
    ensures
        counts_as_binary(a) <==> (a.c.is_executable() || a.c.is_dynamic_library()),
{
    reveal_strlit(".so");
    if let Some(name) = file_name(a.c.target_path) {
        if a.c.is_dynamic_library() {
            let stem = name.take(name.len() - 3);
            assert(name =~= stem + ".so"@);
        }
        assert forall|stem: Seq<char>| name == #[trigger] (stem + ".so"@) implies
            a.c.is_dynamic_library() by {
            assert(name.skip(name.len() - 3) =~= ".so"@);
        }
    }
}

/// A place is among those to strip exactly if the file there has been built and is a binary, and the
/// places are in order, each once.
pub proof fn law_built_binaries(assets: Seq<AssetView>)
    ensures
        forall|i: int|
            0 <= i < assets.len() ==> (built_places(assets).contains(i) <==> (
            #[trigger] assets[i]).c.is_built != IsBuilt::No && counts_as_binary(assets[i])),
        forall|k: int|
            0 <= k < built_places(assets).len() ==> 0 <= #[trigger] built_places(assets)[k]
                < assets.len(),
        forall|j: int, k: int|
            0 <= j < k < built_places(assets).len() ==> #[trigger] built_places(assets)[j]
                < #[trigger] built_places(assets)[k],
    decreases assets.len(),
{
    if assets.len() > 0 {
        let t = assets.drop_last();
        let n = assets.len() - 1;
        let before = built_places(t);
        let all = built_places(assets);
        law_built_binaries(t);
        lemma_counts(assets.last());
        assert(!before.contains(n)) by {
            if before.contains(n) {
                let k = choose|k: int| 0 <= k < before.len() && before[k] == n;
                assert(before[k] < t.len());
            }
        }
        assert forall|i: int| 0 <= i < assets.len() implies (all.contains(i) <==> (
        #[trigger] assets[i]).c.is_built != IsBuilt::No && counts_as_binary(assets[i])) by {
            if i < n {
                assert(t[i] == assets[i]);
                if before.contains(i) {
                    let k = choose|k: int| 0 <= k < before.len() && before[k] == i;
                    assert(all[k] == i);
                }
                if all.contains(i) {
                    let k = choose|k: int| 0 <= k < all.len() && all[k] == i;
                    assert(before[k] == i);
                }
            } else if all.len() > before.len() {
                assert(all[all.len() - 1] == n);
            }
        }
    }
}

/// All binaries are found, in their order: each one that is a binary, and no other file. Those whose
/// libraries are looked up are the ones that are files on disk.
pub proof fn law_all_binaries(assets: Seq<AssetView>) -> (at: (Seq<int>, Seq<int>))
    ensures
        at.0.len() == binary_sources(assets).len(),
        forall|k: int|
            0 <= k < at.0.len() ==> 0 <= #[trigger] at.0[k] < assets.len() && binary_sources(
                assets,
            )[k] == assets[at.0[k]].source && counts_as_binary(assets[at.0[k]]),
        forall|j: int, k: int|
            0 <= j < k < at.0.len() ==> #[trigger] at.0[j] < #[trigger] at.0[k],
        forall|i: int|
            0 <= i < assets.len() && counts_as_binary(#[trigger] assets[i]) ==> at.0.contains(i),
        at.1.len() == binary_paths(assets).len(),
        forall|k: int|
            0 <= k < at.1.len() ==> 0 <= #[trigger] at.1[k] < assets.len() && assets[at.1[k]].source
                == SourceView::Path(binary_paths(assets)[k]) && counts_as_binary(assets[at.1[k]]),
        forall|j: int, k: int|
            0 <= j < k < at.1.len() ==> #[trigger] at.1[j] < #[trigger] at.1[k],
        forall|i: int|
            0 <= i < assets.len() && counts_as_binary(#[trigger] assets[i])
                && assets[i].source is Path ==> at.1.contains(i),
    decreases assets.len(),
{
    if assets.len() == 0 {
        (Seq::empty(), Seq::empty())
    } else {
        let t = assets.drop_last();
        let a = assets.last();
        let n = assets.len() - 1;
        let before = law_all_binaries(t);
        lemma_counts(a);
        let first = if counts_as_binary(a) {
            before.0.push(n)
        } else {
            before.0
        };
        let second = if counts_as_binary(a) && a.source is Path {
            before.1.push(n)
        } else {
            before.1
        };
        assert forall|k: int| 0 <= k < first.len() implies 0 <= #[trigger] first[k] < assets.len()
            && binary_sources(assets)[k] == assets[first[k]].source && counts_as_binary(
            assets[first[k]],
        ) by {
            if k < before.0.len() {
                assert(before.0[k] == first[k]);
                assert(t[first[k]] == assets[first[k]]);
            }
        }
        assert forall|k: int| 0 <= k < second.len() implies 0 <= #[trigger] second[k] < assets.len()
            && assets[second[k]].source == SourceView::Path(binary_paths(assets)[k])
            && counts_as_binary(assets[second[k]]) by {
            if k < before.1.len() {
                assert(before.1[k] == second[k]);
                assert(t[second[k]] == assets[second[k]]);
            }
        }
        assert forall|i: int| 0 <= i < assets.len() && counts_as_binary(#[trigger] assets[i]) implies
            first.contains(i) && (assets[i].source is Path ==> second.contains(i)) by {
            if i < n {
                assert(t[i] == assets[i]);
                let k = choose|k: int| 0 <= k < before.0.len() && before.0[k] == i;
                assert(first[k] == i);
                if assets[i].source is Path {
                    let k = choose|k: int| 0 <= k < before.1.len() && before.1[k] == i;
                    assert(second[k] == i);
                }
            } else {
                assert(first[first.len() - 1] == n);
                if a.source is Path {
                    assert(second[second.len() - 1] == n);
                }
            }
        }
        (first, second)
    }
}

} // verus!
