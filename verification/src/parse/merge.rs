//! Merging the assets of a variant with those of the package.
use crate::assets::{RawAsset, RawAssetOrAuto, RawAssetOrAutoView, RawAssetView};
use crate::order::{comps_order, law_path_order, path_is_less, path_less};
use crate::paths::{components, paths_equal, same_path};
use vstd::prelude::*;

verus! {

/// Type-alias for list of assets
pub type RawAssetList = Vec<RawAssetOrAuto>;

/// Enumeration of merge by key strategies
#[derive(Debug)]
pub enum MergeByKey {
    Src(RawAssetList),
    Dest(RawAssetList),
}

/// Struct containing merge configuration
#[derive(Debug)]
pub struct MergeAssets {
    /// Merge assets by appending this list,
    pub append: Option<RawAssetList>,
    /// Merge assets using the src as the key,
    pub by: Option<MergeByKey>,
}

/// An asset under its key.
#[derive(Debug)]
pub struct MergeItem {
    pub key: String,
    pub other: String,
    pub chmod: Option<u32>,
}

pub struct MergeItemView {
    pub key: Seq<char>,
    pub other: Seq<char>,
    pub chmod: Option<u32>,
}

impl DeepView for MergeItem {
    type V = MergeItemView;

    open spec fn deep_view(&self) -> MergeItemView {
        MergeItemView { key: self.key@, other: self.other@, chmod: self.chmod }
    }
}

/// The items are in the order of their keys, each under a path of its own.
pub open spec fn is_sorted(m: Seq<MergeItemView>) -> bool {
    forall|i: int, j: int|
        0 <= i < j < m.len() ==> path_less(#[trigger] m[i].key, #[trigger] m[j].key)
}

/// The place of a key: behind all that are less.
pub open spec fn place_of(m: Seq<MergeItemView>, key: Seq<char>, from: int) -> int
    decreases m.len() - from,
{
    if from < 0 || from >= m.len() {
        m.len() as int
    } else if path_less(m[from].key, key) {
        place_of(m, key, from + 1)
    } else {
        from
    }
}

/// The items with one more under its key. Under a path that is there already, only the value
/// changes.
pub open spec fn insert_item(m: Seq<MergeItemView>, item: MergeItemView) -> Seq<MergeItemView> {
    let i = place_of(m, item.key, 0);
    if i < m.len() && same_path(m[i].key, item.key) {
        m.update(i, MergeItemView { key: m[i].key, other: item.other, chmod: item.chmod })
    } else {
        m.insert(i, item)
    }
}

/// An asset under its source or its destination.
pub open spec fn item_of(a: RawAssetView, by_src: bool) -> MergeItemView {
    if by_src {
        MergeItemView { key: a.source_path, other: a.target_path, chmod: a.chmod }
    } else {
        MergeItemView { key: a.target_path, other: a.source_path, chmod: a.chmod }
    }
}

pub open spec fn asset_of(m: MergeItemView, by_src: bool) -> RawAssetOrAutoView {
    RawAssetOrAutoView::RawAsset(
        if by_src {
            RawAssetView { source_path: m.key, target_path: m.other, chmod: m.chmod }
        } else {
            RawAssetView { source_path: m.other, target_path: m.key, chmod: m.chmod }
        },
    )
}

/// The items with those of a list.
pub open spec fn insert_all(
    m: Seq<MergeItemView>,
    list: Seq<RawAssetOrAutoView>,
    by_src: bool,
) -> Seq<MergeItemView>
    decreases list.len(),
{
    if list.len() == 0 {
        m
    } else {
        let before = insert_all(m, list.drop_last(), by_src);
        match list.last() {
            RawAssetOrAutoView::Auto => before,
            RawAssetOrAutoView::RawAsset(a) => insert_item(before, item_of(a, by_src)),
        }
    }
}

pub open spec fn has_auto(list: Seq<RawAssetOrAutoView>) -> bool {
    exists|i: int| 0 <= i < list.len() && (#[trigger] list[i]) is Auto
}

/// The assets of two lists, one for each key, those of the second in place of those of the first;
/// and `$auto` behind them if one of the lists has it.
pub open spec fn merged(
    by_src: bool,
    parent: Seq<RawAssetOrAutoView>,
    child: Seq<RawAssetOrAutoView>,
) -> Seq<RawAssetOrAutoView> {
    let items = insert_all(insert_all(Seq::empty(), parent, by_src), child, by_src);
    let assets = items.map_values(|m: MergeItemView| asset_of(m, by_src));
    if has_auto(parent) || has_auto(child) {
        assets.push(RawAssetOrAutoView::Auto)
    } else {
        assets
    }
}

/// What stands under a key.
pub open spec fn lookup(m: Seq<MergeItemView>, key: Seq<char>) -> Option<(Seq<char>, Option<u32>)>
    decreases m.len(),
{
    if m.len() == 0 {
        None
    } else if same_path(m.last().key, key) {
        Some((m.last().other, m.last().chmod))
    } else {
        lookup(m.drop_last(), key)
    }
}

/// The last asset of a list under a key.
pub open spec fn last_of(list: Seq<RawAssetOrAutoView>, by_src: bool, key: Seq<char>) -> Option<
    (Seq<char>, Option<u32>),
>
    decreases list.len(),
{
    if list.len() == 0 {
        None
    } else {
        match list.last() {
            RawAssetOrAutoView::RawAsset(a) if same_path(item_of(a, by_src).key, key) => Some(
                (item_of(a, by_src).other, a.chmod),
            ),
            _ => last_of(list.drop_last(), by_src, key),
        }
    }
}

proof fn lemma_place_of(m: Seq<MergeItemView>, key: Seq<char>, from: int)
    requires
        0 <= from <= m.len(),
    ensures
        from <= place_of(m, key, from) <= m.len(),
        forall|i: int| from <= i < place_of(m, key, from) ==> path_less(#[trigger] m[i].key, key),
        place_of(m, key, from) < m.len() ==> !path_less(m[place_of(m, key, from)].key, key),
    decreases m.len() - from,
{
    if from < m.len() && path_less(m[from].key, key) {
        lemma_place_of(m, key, from + 1);
    }
}

proof fn lemma_lookup_at(m: Seq<MergeItemView>, key: Seq<char>, i: int)
    requires
        0 <= i < m.len(),
        same_path(m[i].key, key),
        is_sorted(m),
    ensures
        lookup(m, key) == Some((m[i].other, m[i].chmod)),
    decreases m.len(),
{
    let n = m.len() - 1;
    if i < n {
        assert(path_less(m[i].key, m[n].key));
        law_path_order();
        assert(!comps_order()(components(key), components(key)));
        assert(m.drop_last()[i] == m[i]);
        assert(is_sorted(m.drop_last()));
        lemma_lookup_at(m.drop_last(), key, i);
    }
}

proof fn lemma_lookup_none(m: Seq<MergeItemView>, key: Seq<char>)
    requires
        forall|i: int| 0 <= i < m.len() ==> !same_path(#[trigger] m[i].key, key),
    ensures
        lookup(m, key) is None,
    decreases m.len(),
{
    if m.len() > 0 {
        assert(!same_path(m[m.len() - 1].key, key));
        assert forall|i: int| 0 <= i < m.drop_last().len() implies !same_path(
            #[trigger] m.drop_last()[i].key,
            key,
        ) by {
            assert(!same_path(m[i].key, key));
        }
        lemma_lookup_none(m.drop_last(), key);
    }
}

/// Inserting an item keeps the order, puts its value under its key, and changes nothing under other
/// keys.
pub proof fn law_insert_item(m: Seq<MergeItemView>, item: MergeItemView, key: Seq<char>)
    requires
        is_sorted(m),
    ensures
        is_sorted(insert_item(m, item)),
        lookup(insert_item(m, item), key) == if same_path(item.key, key) {
            Some((item.other, item.chmod))
        } else {
            lookup(m, key)
        },
{
    let k = item.key;
    let i = place_of(m, k, 0);
    lemma_place_of(m, k, 0);
    law_path_order();
    let o = comps_order();
    let next = insert_item(m, item);
    let replaces = i < m.len() && same_path(m[i].key, k);
    // behind the place, all keys are greater
    assert forall|j: int| i <= j < m.len() && !(replaces && j == i) implies path_less(
        k,
        #[trigger] m[j].key,
    ) by {
        let a = components(m[i].key);
        let b = components(k);
        assert(!o(a, b));
        if j == i {
            assert(a != b);
            assert(o(a, b) || o(b, a));
        } else {
            assert(path_less(m[i].key, m[j].key));
            assert(o(a, components(m[j].key)));
            if a != b {
                assert(o(a, b) || o(b, a));
                assert(o(b, a) && o(a, components(m[j].key)));
            }
        }
    }
    assert forall|x: int, y: int| 0 <= x < y < next.len() implies path_less(
        #[trigger] next[x].key,
        #[trigger] next[y].key,
    ) by {
        if replaces {
            assert(path_less(m[x].key, m[y].key));
        } else {
            if x < i && y < i {
                assert(path_less(m[x].key, m[y].key));
            } else if x < i && y == i {
                assert(path_less(m[x].key, k));
            } else if x < i {
                assert(path_less(m[x].key, m[y - 1].key));
            } else if x == i {
                assert(path_less(k, m[y - 1].key));
            } else {
                assert(path_less(m[x - 1].key, m[y - 1].key));
            }
        }
    }
    if same_path(k, key) {
        assert(same_path(next[i].key, key));
        lemma_lookup_at(next, key, i);
    } else {
        if exists|j: int| 0 <= j < m.len() && same_path(#[trigger] m[j].key, key) {
            let j = choose|j: int| 0 <= j < m.len() && same_path(#[trigger] m[j].key, key);
            lemma_lookup_at(m, key, j);
            let t = if replaces || j < i {
                j
            } else {
                j + 1
            };
            assert(next[t] == m[j]);
            lemma_lookup_at(next, key, t);
        } else {
            lemma_lookup_none(m, key);
            assert forall|j: int| 0 <= j < next.len() implies !same_path(
                #[trigger] next[j].key,
                key,
            ) by {
                if replaces {
                    assert(!same_path(m[j].key, key));
                } else if j < i {
                    assert(!same_path(m[j].key, key));
                } else if j > i {
                    assert(!same_path(m[j - 1].key, key));
                }
            }
            lemma_lookup_none(next, key);
        }
    }
}

proof fn lemma_insert_all(
    m: Seq<MergeItemView>,
    list: Seq<RawAssetOrAutoView>,
    by_src: bool,
    key: Seq<char>,
)
    requires
        is_sorted(m),
    ensures
        is_sorted(insert_all(m, list, by_src)),
        lookup(insert_all(m, list, by_src), key) == match last_of(list, by_src, key) {
            Some(v) => Some(v),
            None => lookup(m, key),
        },
    decreases list.len(),
{
    if list.len() > 0 {
        lemma_insert_all(m, list.drop_last(), by_src, key);
        if let RawAssetOrAutoView::RawAsset(a) = list.last() {
            law_insert_item(insert_all(m, list.drop_last(), by_src), item_of(a, by_src), key);
        }
    }
}

/// Merging keeps one asset for each key, in the order of the keys: the last of the second list under
/// that key, else the last of the first.
pub proof fn law_merge(
    by_src: bool,
    parent: Seq<RawAssetOrAutoView>,
    child: Seq<RawAssetOrAutoView>,
    key: Seq<char>,
)
    ensures
        ({
            let items = insert_all(insert_all(Seq::empty(), parent, by_src), child, by_src);
            &&& is_sorted(items)
            &&& lookup(items, key) == match last_of(child, by_src, key) {
                Some(v) => Some(v),
                None => last_of(parent, by_src, key),
            }
        }),
{
    let none = Seq::<MergeItemView>::empty();
    lemma_insert_all(none, parent, by_src, key);
    lemma_insert_all(insert_all(none, parent, by_src), child, by_src, key);
}

fn insert(m: &mut Vec<MergeItem>, item: MergeItem)
    ensures
        final(m).deep_view() == insert_item(old(m).deep_view(), item.deep_view()),
{
    let ghost v = m.deep_view();
    let ghost x = item.deep_view();
    let mut i: usize = 0;
    while i < m.len() && path_is_less(m[i].key.as_str(), item.key.as_str())
        invariant
            i <= m.len(),
            v == m.deep_view(),
            x == item.deep_view(),
            place_of(v, x.key, 0) == place_of(v, x.key, i as int),
            *m == *old(m),
        decreases m.len() - i,
    {
        assert(v[i as int] == m[i as int].deep_view());
        i += 1;
    }
    proof {
        if i < m.len() {
            assert(v[i as int] == m[i as int].deep_view());
        }
        assert(place_of(v, x.key, 0) == i);
    }
    if i < m.len() && paths_equal(m[i].key.as_str(), item.key.as_str()) {
        let key = m[i].key.clone();
        let new_item = MergeItem { key, other: item.other, chmod: item.chmod };
        m.set(i, new_item);
        assert(m.deep_view() =~= insert_item(v, x));
    } else {
        m.insert(i, item);
        assert(m.deep_view() =~= insert_item(v, x));
    }
}

/// Puts the assets of a list under their keys; returns whether `$auto` is among them.
fn insert_list(m: &mut Vec<MergeItem>, list: &RawAssetList, by_src: bool) -> (auto_found: bool)
    ensures
        final(m).deep_view() == insert_all(old(m).deep_view(), list.deep_view(), by_src),
        auto_found == has_auto(list.deep_view()),
{
    let ghost l = list.deep_view();
    let ghost start = m.deep_view();
    let mut auto_found = false;
    let mut i: usize = 0;
    assert(l.take(0) =~= Seq::<RawAssetOrAutoView>::empty());
    while i < list.len()
        invariant
            i <= list.len(),
            l == list.deep_view(),
            m.deep_view() == insert_all(start, l.take(i as int), by_src),
            auto_found == has_auto(l.take(i as int)),
        decreases list.len() - i,
    {
        assert(l.take(i + 1).drop_last() =~= l.take(i as int));
        assert(l.take(i + 1).last() == list[i as int].deep_view());
        proof {
            if has_auto(l.take(i as int)) {
                let k = choose|k: int|
                    0 <= k < l.take(i as int).len() && (#[trigger] l.take(i as int)[k]) is Auto;
                assert(l.take(i + 1)[k] is Auto);
            }
            if has_auto(l.take(i + 1)) && !(list[i as int].deep_view() is Auto) {
                let k = choose|k: int|
                    0 <= k < l.take(i + 1).len() && (#[trigger] l.take(i + 1)[k]) is Auto;
                assert(l.take(i as int)[k] is Auto);
            }
        }
        match &list[i] {
            RawAssetOrAuto::Auto => {
                auto_found = true;
                assert(l.take(i + 1)[i as int] is Auto);
            },
            RawAssetOrAuto::RawAsset(a) => {
                let item = if by_src {
                    MergeItem {
                        key: a.source_path.clone(),
                        other: a.target_path.clone(),
                        chmod: a.chmod,
                    }
                } else {
                    MergeItem {
                        key: a.target_path.clone(),
                        other: a.source_path.clone(),
                        chmod: a.chmod,
                    }
                };
                insert(m, item);
            },
        }
        i += 1;
    }
    assert(l.take(i as int) =~= l);
    auto_found
}

impl MergeByKey {
    pub open spec fn by_src(self) -> bool {
        self is Src
    }

    pub open spec fn list(self) -> Seq<RawAssetOrAutoView> {
        match self {
            MergeByKey::Src(l) | MergeByKey::Dest(l) => l.deep_view(),
        }
    }

    /// Merges w/ a parent asset list
    pub fn merge(self, parent: &RawAssetList) -> (r: RawAssetList)
        ensures
            r.deep_view() == merged(self.by_src(), parent.deep_view(), self.list()),
    {
        let (by_src, child) = match &self {
            MergeByKey::Src(l) => (true, l),
            MergeByKey::Dest(l) => (false, l),
        };
        let mut m: Vec<MergeItem> = Vec::new();
        assert(m.deep_view() =~= Seq::<MergeItemView>::empty());
        let parent_auto = insert_list(&mut m, parent, by_src);
        let child_auto = insert_list(&mut m, child, by_src);
        let ghost items = m.deep_view();
        let ghost assets = items.map_values(|m: MergeItemView| asset_of(m, by_src));
        let mut out: RawAssetList = Vec::new();
        let mut i: usize = 0;
        assert(out.deep_view() =~= assets.take(0));
        while i < m.len()
            invariant
                i <= m.len(),
                items == m.deep_view(),
                assets == items.map_values(|m: MergeItemView| asset_of(m, by_src)),
                out.deep_view() == assets.take(i as int),
            decreases m.len() - i,
        {
            let ghost before = out.deep_view();
            assert(items[i as int] == m[i as int].deep_view());
            let a = if by_src {
                RawAsset {
                    source_path: m[i].key.clone(),
                    target_path: m[i].other.clone(),
                    chmod: m[i].chmod,
                }
            } else {
                RawAsset {
                    source_path: m[i].other.clone(),
                    target_path: m[i].key.clone(),
                    chmod: m[i].chmod,
                }
            };
            let item = RawAssetOrAuto::RawAsset(a);
            assert(item.deep_view() == assets[i as int]);
            let ghost x = item.deep_view();
            out.push(item);
            assert(out.deep_view() =~= before.push(x));
            assert(assets.take(i + 1) =~= assets.take(i as int).push(assets[i as int]));
            i += 1;
        }
        assert(assets.take(i as int) =~= assets);
        if parent_auto || child_auto {
            let ghost before = out.deep_view();
            out.push(RawAssetOrAuto::Auto);
            assert(out.deep_view() =~= before.push(RawAssetOrAutoView::Auto));
        }
        out
    }
}

} // verus!
