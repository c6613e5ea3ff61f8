//! The order of the files in a package.
use crate::assets::{Asset, AssetView};
use crate::config::PackageConfig;
use crate::order::{comps_less, comps_order, is_order, law_path_order, law_text_order, path_is_less, text_is_less, text_less, text_order};
use crate::paths::{components, extension, extension_of, Comp};
use crate::text::same;
use vstd::prelude::*;

verus! {

/// What a file is sorted by.
pub struct SortKey {
    pub executable: bool,
    pub library: bool,
    pub action: Option<Seq<char>>,
    pub extension: Option<Seq<char>>,
    pub target: Seq<Comp>,
}

pub open spec fn sort_key(a: AssetView) -> SortKey {
    SortKey {
        executable: a.c.is_executable(),
        library: a.c.is_dynamic_library(),
        action: match a.processed_from {
            Some(p) => Some(p.action),
            None => None,
        },
        extension: extension(a.c.target_path),
        target: components(a.c.target_path),
    }
}

/// Nothing comes before something.
pub open spec fn option_less(a: Option<Seq<char>>, b: Option<Seq<char>>) -> bool {
    match (a, b) {
        (None, Some(_)) => true,
        (Some(x), Some(y)) => text_less(x, y),
        _ => false,
    }
}

/// The order of the files: those that can be executed after those that cannot, libraries after
/// others, then by what has been done to them, by extension, and by path.
pub open spec fn key_less(a: SortKey, b: SortKey) -> bool {
    if a.executable != b.executable {
        b.executable
    } else if a.library != b.library {
        b.library
    } else if a.action != b.action {
        option_less(a.action, b.action)
    } else if a.extension != b.extension {
        option_less(a.extension, b.extension)
    } else {
        comps_less(a.target, b.target)
    }
}

pub open spec fn key_order() -> spec_fn(SortKey, SortKey) -> bool {
    |a: SortKey, b: SortKey| key_less(a, b)
}

proof fn lemma_option_order()
    ensures
        is_order(|a: Option<Seq<char>>, b: Option<Seq<char>>| option_less(a, b)),
{
    law_text_order();
    let t = text_order();
    let o = |a: Option<Seq<char>>, b: Option<Seq<char>>| option_less(a, b);
    assert forall|x: Option<Seq<char>>| !#[trigger] o(x, x) by {
        if let Some(s) = x {
            assert(!t(s, s));
        }
    }
    assert forall|x: Option<Seq<char>>, y: Option<Seq<char>>| x != y implies #[trigger] o(x, y) || o(
        y,
        x,
    ) by {
        if let (Some(s), Some(u)) = (x, y) {
            assert(t(s, u) || t(u, s));
        }
    }
    assert forall|x: Option<Seq<char>>, y: Option<Seq<char>>, z: Option<Seq<char>>| #[trigger]
        o(x, y) && #[trigger] o(y, z) implies o(x, z) by {
        if let (Some(s), Some(u), Some(v)) = (x, y, z) {
            assert(t(s, u) && t(u, v));
        }
    }
}

/// The order of the files is a strict total order of what they are sorted by.
pub proof fn law_sort_order()
    ensures
        is_order(key_order()),
{
    lemma_option_order();
    law_path_order();
    let o = |a: Option<Seq<char>>, b: Option<Seq<char>>| option_less(a, b);
    let c = comps_order();
    let k = key_order();
    assert forall|x: SortKey| !#[trigger] k(x, x) by {
        assert(!c(x.target, x.target));
    }
    assert forall|x: SortKey, y: SortKey| x != y implies #[trigger] k(x, y) || k(y, x) by {
        if x.action != y.action {
            assert(o(x.action, y.action) || o(y.action, x.action));
        } else if x.extension != y.extension {
            assert(o(x.extension, y.extension) || o(y.extension, x.extension));
        } else if x.target != y.target {
            assert(c(x.target, y.target) || c(y.target, x.target));
        }
    }
    assert forall|x: SortKey, y: SortKey, z: SortKey| #[trigger] k(x, y) && #[trigger] k(y, z) implies k(
        x,
        z,
    ) by {
        lemma_key_transitive(x, y, z);
    }
}

proof fn lemma_key_transitive(x: SortKey, y: SortKey, z: SortKey)
    requires
        key_less(x, y),
        key_less(y, z),
    ensures
        key_less(x, z),
{
    lemma_option_order();
    law_path_order();
    let o = |a: Option<Seq<char>>, b: Option<Seq<char>>| option_less(a, b);
    let c = comps_order();
    if x.executable == y.executable && y.executable == z.executable && x.library == y.library
        && y.library == z.library {
        if x.action != y.action && y.action != z.action {
            assert(o(x.action, y.action) && o(y.action, z.action));
            assert(o(x.action, z.action));
            assert(!o(x.action, x.action));
        } else if x.action == y.action && y.action == z.action {
            if x.extension != y.extension && y.extension != z.extension {
                assert(o(x.extension, y.extension) && o(y.extension, z.extension));
                assert(o(x.extension, z.extension));
                assert(!o(x.extension, x.extension));
            } else if x.extension == y.extension && y.extension == z.extension {
                assert(c(x.target, y.target) && c(y.target, z.target));
                assert(c(x.target, z.target));
            }
        }
    }
}

/// Nothing stands before something that comes before it.
pub open spec fn is_sorted(s: Seq<AssetView>) -> bool {
    forall|i: int, j: int|
        0 <= i < j < s.len() ==> !key_less(sort_key(#[trigger] s[j]), sort_key(#[trigger] s[i]))
}

/// The files that are sorted by the same key, in their order.
pub open spec fn with_key(s: Seq<AssetView>, k: SortKey) -> Seq<AssetView> {
    s.filter(|a: AssetView| sort_key(a) == k)
}

/// The same files, sorted; those with the same key stand in the order in which they stood before.
pub open spec fn is_sorted_form(old: Seq<AssetView>, new: Seq<AssetView>) -> bool {
    &&& is_sorted(new)
    &&& forall|k: SortKey| #[trigger] with_key(new, k) == with_key(old, k)
}

proof fn lemma_with_key_push(s: Seq<AssetView>, a: AssetView, k: SortKey)
    ensures
        with_key(s.push(a), k) == if sort_key(a) == k {
            with_key(s, k).push(a)
        } else {
            with_key(s, k)
        },
{
    reveal(Seq::filter);
    assert(s.push(a).drop_last() =~= s);
}

proof fn lemma_with_key_none(s: Seq<AssetView>, k: SortKey)
    requires
        forall|i: int| 0 <= i < s.len() ==> sort_key(#[trigger] s[i]) != k,
    ensures
        with_key(s, k) == Seq::<AssetView>::empty(),
    decreases s.len(),
{
    reveal(Seq::filter);
    if s.len() > 0 {
        assert(s.last() == s[s.len() - 1]);
        lemma_with_key_none(s.drop_last(), k);
    } else {
        assert(s =~= Seq::<AssetView>::empty());
    }
}

/// A file behind all that do not come after it: those of each key are as if it had been added last.
proof fn lemma_insert(s: Seq<AssetView>, a: AssetView, j: int)
    requires
        is_sorted(s),
        0 <= j <= s.len(),
        forall|i: int| j <= i < s.len() ==> key_less(sort_key(a), sort_key(#[trigger] s[i])),
        j > 0 ==> !key_less(sort_key(a), sort_key(s[j - 1])),
    ensures
        is_sorted(s.insert(j, a)),
        forall|k: SortKey| #[trigger] with_key(s.insert(j, a), k) == with_key(s.push(a), k),
{
    law_sort_order();
    let o = key_order();
    let t = s.insert(j, a);
    let front = s.take(j);
    let back = s.skip(j);
    assert(t =~= front.push(a) + back);
    assert(s =~= front + back);
    assert forall|x: int, y: int| 0 <= x < y < t.len() implies !key_less(
        sort_key(#[trigger] t[y]),
        sort_key(#[trigger] t[x]),
    ) by {
        if x < j && y == j {
            assert(t[x] == s[x]);
            if x < j - 1 {
                assert(!key_less(sort_key(s[j - 1]), sort_key(s[x])));
                let p = sort_key(a);
                let q = sort_key(s[j - 1]);
                let r = sort_key(s[x]);
                if o(p, r) {
                    if q != r {
                        assert(o(q, r) || o(r, q));
                        assert(o(r, q));
                        assert(o(p, q));
                    }
                }
            }
        } else if x == j {
            assert(t[y] == s[y - 1]);
            let p = sort_key(a);
            let q = sort_key(s[y - 1]);
            assert(o(p, q));
            if o(q, p) {
                assert(o(p, p));
            }
        } else {
            let x2 = if x < j {
                x
            } else {
                x - 1
            };
            let y2 = if y < j {
                y
            } else {
                y - 1
            };
            assert(t[x] == s[x2] && t[y] == s[y2]);
        }
    }
    assert forall|k: SortKey| #[trigger] with_key(t, k) == with_key(s.push(a), k) by {
        let pred = |x: AssetView| sort_key(x) == k;
        Seq::filter_distributes_over_add(front.push(a), back, pred);
        Seq::filter_distributes_over_add(front, back, pred);
        lemma_with_key_push(front, a, k);
        lemma_with_key_push(s, a, k);
        if sort_key(a) == k {
            assert forall|i: int| 0 <= i < back.len() implies sort_key(#[trigger] back[i]) != k by {
                assert(back[i] == s[j + i]);
                assert(!o(k, k));
            }
            lemma_with_key_none(back, k);
            assert(with_key(t, k) =~= with_key(front, k).push(a));
            assert(with_key(s, k) =~= with_key(front, k));
        }
    }
}

fn option_is_less(a: Option<&str>, b: Option<&str>) -> (r: bool)
    ensures
        r == option_less(
            match a {
                Some(x) => Some(x@),
                None => None,
            },
            match b {
                Some(x) => Some(x@),
                None => None,
            },
        ),
{
    match (a, b) {
        (None, Some(_)) => true,
        (Some(x), Some(y)) => text_is_less(x, y),
        _ => false,
    }
}

fn option_same(a: Option<&str>, b: Option<&str>) -> (r: bool)
    ensures
        r == (match a {
            Some(x) => Some(x@),
            None => None,
        } == match b {
            Some(x) => Some(x@),
            None => None,
        }),
{
    match (a, b) {
        (None, None) => true,
        (Some(x), Some(y)) => same(x, y),
        _ => false,
    }
}

fn text_in(o: &Option<String>) -> (r: Option<&str>)
    ensures
        o.deep_view() == match r {
            Some(x) => Some(x@),
            None => None,
        },
{
    match o {
        Some(s) => Some(s.as_str()),
        None => None,
    }
}

fn action_of(a: &Asset) -> (r: Option<&'static str>)
    ensures
        sort_key(a.deep_view()).action == match r {
            Some(x) => Some(x@),
            None => None,
        },
{
    match &a.processed_from {
        Some(p) => Some(p.action),
        None => None,
    }
}

fn comes_before(a: &Asset, b: &Asset) -> (r: bool)
    ensures
        r == key_less(sort_key(a.deep_view()), sort_key(b.deep_view())),
{
    let (ae, be) = (a.c.is_executable(), b.c.is_executable());
    if ae != be {
        return be;
    }
    let (al, bl) = (a.c.is_dynamic_library(), b.c.is_dynamic_library());
    if al != bl {
        return bl;
    }
    let (aa, ba) = (action_of(a), action_of(b));
    if !option_same(aa, ba) {
        return option_is_less(aa, ba);
    }
    let ax = extension_of(a.c.target_path.as_str());
    let bx = extension_of(b.c.target_path.as_str());
    if !option_same(text_in(&ax), text_in(&bx)) {
        return option_is_less(text_in(&ax), text_in(&bx));
    }
    path_is_less(a.c.target_path.as_str(), b.c.target_path.as_str())
}

fn insert_sorted(out: &mut Vec<Asset>, asset: Asset)
    requires
        is_sorted(old(out).deep_view()),
    ensures
        is_sorted(final(out).deep_view()),
        forall|k: SortKey| #[trigger]
            with_key(final(out).deep_view(), k) == with_key(
                old(out).deep_view().push(asset.deep_view()),
                k,
            ),
{
    let ghost s = out.deep_view();
    let ghost a = asset.deep_view();
    let mut j: usize = out.len();
    while j > 0 && comes_before(&asset, &out[j - 1])
        invariant
            j <= out.len(),
            s == out.deep_view(),
            a == asset.deep_view(),
            forall|i: int| j <= i < s.len() ==> key_less(sort_key(a), sort_key(#[trigger] s[i])),
        decreases j,
    {
        j -= 1;
    }
    proof {
        lemma_insert(s, a, j as int);
    }
    out.insert(j, asset);
    assert(out.deep_view() =~= s.insert(j as int, a));
}

impl PackageConfig {
    /// similar files next to each other improve tarball compression
    pub fn sort_assets_by_type(&mut self)
        ensures
            *final(self) == (PackageConfig { assets: final(self).assets, ..*old(self) }),
            final(self).assets.unresolved == old(self).assets.unresolved,
            is_sorted_form(
                old(self).assets.resolved.deep_view(),
                final(self).assets.resolved.deep_view(),
            ),
    {
        let mut assets: Vec<Asset> = Vec::new();
        std::mem::swap(&mut assets, &mut self.assets.resolved);
        let ghost all = assets.deep_view();
        let mut out: Vec<Asset> = Vec::new();
        assert(out.deep_view() =~= all.take(0));
        for asset in it: assets
            invariant
                it.seq() == assets@,
                all == assets.deep_view(),
                is_sorted(out.deep_view()),
                forall|k: SortKey| #[trigger]
                    with_key(out.deep_view(), k) == with_key(all.take(it.index()), k),
        {
            let ghost i = it.index();
            let ghost before = out.deep_view();
            let ghost a = asset.deep_view();
            insert_sorted(&mut out, asset);
            proof {
                assert(all[i] == a);
                assert(all.take(i + 1) =~= all.take(i).push(a));
                assert forall|k: SortKey| #[trigger]
                    with_key(out.deep_view(), k) == with_key(all.take(i + 1), k) by {
                    lemma_with_key_push(before, a, k);
                    lemma_with_key_push(all.take(i), a, k);
                }
            }
        }
        assert(all.take(all.len() as int) =~= all);
        self.assets.resolved = out;
    }
}

/// Sorting loses and adds no file.
pub proof fn law_sorting_keeps_files(old: Seq<AssetView>, new: Seq<AssetView>)
    requires
        is_sorted_form(old, new),
    ensures
        new.to_multiset() == old.to_multiset(),
{
    assert forall|a: AssetView| #[trigger]
        new.to_multiset().count(a) == old.to_multiset().count(a) by {
        lemma_count(new, a);
        lemma_count(old, a);
        assert(with_key(new, sort_key(a)) == with_key(old, sort_key(a)));
    }
    assert(new.to_multiset() =~= old.to_multiset());
}

proof fn lemma_count(s: Seq<AssetView>, a: AssetView)
    ensures
        s.to_multiset().count(a) == with_key(s, sort_key(a)).to_multiset().count(a),
    decreases s.len(),
{
    broadcast use vstd::seq_lib::group_to_multiset_ensures;

    let k = sort_key(a);
    if s.len() > 0 {
        let t = s.drop_last();
        assert(s =~= t.push(s.last()));
        lemma_count(t, a);
        lemma_with_key_push(t, s.last(), k);
    } else {
        assert(s =~= Seq::<AssetView>::empty());
        lemma_with_key_none(s, k);
    }
}

} // verus!
