//! Orders on texts and paths.
use crate::paths::{components, components_of, Comp, Component};
use crate::text::{chars_of, same};
use vstd::prelude::*;

verus! {

/// Whether a relation is a strict total order.
pub open spec fn is_order<A>(less: spec_fn(A, A) -> bool) -> bool {
    &&& forall|x: A| !#[trigger] less(x, x)
    &&& forall|x: A, y: A| x != y ==> #[trigger] less(x, y) || less(y, x)
    &&& forall|x: A, y: A, z: A| #[trigger] less(x, y) && #[trigger] less(y, z) ==> less(x, z)
}

/// The order of sequences by their first difference; a sequence comes after those that it begins
/// with.
pub open spec fn lex_less<A>(a: Seq<A>, b: Seq<A>, less: spec_fn(A, A) -> bool) -> bool
    decreases b.len(),
{
    if b.len() == 0 {
        false
    } else if a.len() == 0 {
        true
    } else if a[0] != b[0] {
        less(a[0], b[0])
    } else {
        lex_less(a.skip(1), b.skip(1), less)
    }
}

proof fn lemma_lex_irreflexive<A>(a: Seq<A>, less: spec_fn(A, A) -> bool)
    ensures
        !lex_less(a, a, less),
    decreases a.len(),
{
    if a.len() > 0 {
        lemma_lex_irreflexive(a.skip(1), less);
    }
}

proof fn lemma_lex_total<A>(a: Seq<A>, b: Seq<A>, less: spec_fn(A, A) -> bool)
    requires
        is_order(less),
    ensures
        a != b ==> lex_less(a, b, less) || lex_less(b, a, less),
    decreases a.len(),
{
    if a.len() == 0 || b.len() == 0 {
        if a.len() == 0 && b.len() == 0 {
            assert(a =~= b);
        }
    } else if a[0] != b[0] {
        assert(less(a[0], b[0]) || less(b[0], a[0]));
    } else {
        lemma_lex_total(a.skip(1), b.skip(1), less);
        if a.skip(1) == b.skip(1) {
            assert(a =~= seq![a[0]] + a.skip(1));
            assert(b =~= seq![b[0]] + b.skip(1));
        }
    }
}

proof fn lemma_lex_transitive<A>(a: Seq<A>, b: Seq<A>, c: Seq<A>, less: spec_fn(A, A) -> bool)
    requires
        is_order(less),
        lex_less(a, b, less),
        lex_less(b, c, less),
    ensures
        lex_less(a, c, less),
    decreases a.len(),
{
    if a.len() > 0 {
        if a[0] == b[0] && b[0] == c[0] {
            lemma_lex_transitive(a.skip(1), b.skip(1), c.skip(1), less);
        } else if a[0] != b[0] && b[0] != c[0] {
            assert(less(a[0], b[0]) && less(b[0], c[0]));
            assert(less(a[0], c[0]));
            assert(!less(a[0], a[0]));
        }
    }
}

/// The order of sequences is a strict total order if that of their items is.
pub proof fn lemma_lex_order<A>(less: spec_fn(A, A) -> bool)
    requires
        is_order(less),
    ensures
        is_order(|a: Seq<A>, b: Seq<A>| lex_less(a, b, less)),
{
    let l = |a: Seq<A>, b: Seq<A>| lex_less(a, b, less);
    assert forall|x: Seq<A>| !#[trigger] l(x, x) by {
        lemma_lex_irreflexive(x, less);
    }
    assert forall|x: Seq<A>, y: Seq<A>| x != y implies #[trigger] l(x, y) || l(y, x) by {
        lemma_lex_total(x, y, less);
    }
    assert forall|x: Seq<A>, y: Seq<A>, z: Seq<A>| #[trigger] l(x, y) && #[trigger] l(y, z) implies l(
        x,
        z,
    ) by {
        lemma_lex_transitive(x, y, z, less);
    }
}

// ---------------------------------------------------------------------------
// Texts
// ---------------------------------------------------------------------------
/// The order of texts: by their first difference.
pub open spec fn text_less(a: Seq<char>, b: Seq<char>) -> bool {
    lex_less(a, b, |x: char, y: char| x < y)
}

pub open spec fn text_order() -> spec_fn(Seq<char>, Seq<char>) -> bool {
    |a: Seq<char>, b: Seq<char>| text_less(a, b)
}

/// The order of texts is a strict total order.
pub proof fn law_text_order()
    ensures
        is_order(text_order()),
{
    let less = |x: char, y: char| x < y;
    assert(is_order(less));
    lemma_lex_order(less);
    let l = |a: Seq<char>, b: Seq<char>| lex_less(a, b, less);
    assert forall|x: Seq<char>, y: Seq<char>| #[trigger] text_order()(x, y) == l(x, y) by {}
    assert forall|x: Seq<char>| !#[trigger] text_order()(x, x) by {
        assert(!l(x, x));
    }
    assert forall|x: Seq<char>, y: Seq<char>| x != y implies #[trigger] text_order()(x, y)
        || text_order()(y, x) by {
        assert(l(x, y) || l(y, x));
    }
    assert forall|x: Seq<char>, y: Seq<char>, z: Seq<char>| #[trigger]
        text_order()(x, y) && #[trigger] text_order()(y, z) implies text_order()(x, z) by {
        assert(l(x, y) && l(y, z));
    }
}

pub fn text_is_less(a: &str, b: &str) -> (r: bool)
    ensures
        r == text_less(a@, b@),
{
    let av = chars_of(a);
    let bv = chars_of(b);
    let mut i: usize = 0;
    assert(a@.skip(0) =~= a@ && b@.skip(0) =~= b@);
    loop
        invariant
            av@ == a@,
            bv@ == b@,
            i <= av.len(),
            i <= bv.len(),
            text_less(a@, b@) == text_less(a@.skip(i as int), b@.skip(i as int)),
        decreases av.len() - i,
    {
        if i == bv.len() {
            return false;
        }
        if i == av.len() {
            return true;
        }
        assert(a@.skip(i as int)[0] == av@[i as int]);
        assert(b@.skip(i as int)[0] == bv@[i as int]);
        if av[i] != bv[i] {
            return av[i] < bv[i];
        }
        assert(a@.skip(i as int).skip(1) =~= a@.skip(i + 1));
        assert(b@.skip(i as int).skip(1) =~= b@.skip(i + 1));
        i += 1;
    }
}

// ---------------------------------------------------------------------------
// Sorting texts
// ---------------------------------------------------------------------------
/// The place behind all texts that do not come after `x`, in texts that are in order.
pub open spec fn place_in(s: Seq<Seq<char>>, x: Seq<char>) -> int
    decreases s.len(),
{
    if s.len() == 0 || !text_less(x, s.last()) {
        s.len() as int
    } else {
        place_in(s.drop_last(), x)
    }
}

/// The texts in their order.
pub open spec fn sorted_texts(s: Seq<Seq<char>>) -> Seq<Seq<char>>
    decreases s.len(),
{
    if s.len() == 0 {
        Seq::empty()
    } else {
        let before = sorted_texts(s.drop_last());
        before.insert(place_in(before, s.last()), s.last())
    }
}

pub open spec fn texts_are_sorted(s: Seq<Seq<char>>) -> bool {
    forall|i: int, j: int| 0 <= i < j < s.len() ==> !text_less(#[trigger] s[j], #[trigger] s[i])
}

proof fn lemma_place_in(s: Seq<Seq<char>>, x: Seq<char>)
    ensures
        0 <= place_in(s, x) <= s.len(),
        forall|i: int| place_in(s, x) <= i < s.len() ==> text_less(x, #[trigger] s[i]),
        place_in(s, x) > 0 ==> !text_less(x, s[place_in(s, x) - 1]),
    decreases s.len(),
{
    if s.len() > 0 && text_less(x, s.last()) {
        let t = s.drop_last();
        lemma_place_in(t, x);
        assert forall|i: int| place_in(s, x) <= i < s.len() implies text_less(x, #[trigger] s[i]) by {
            if i < t.len() {
                assert(t[i] == s[i]);
            }
        }
    }
}

proof fn lemma_insert_sorted(before: Seq<Seq<char>>, x: Seq<char>)
    requires
        texts_are_sorted(before),
    ensures
        texts_are_sorted(before.insert(place_in(before, x), x)),
{
    let j = place_in(before, x);
    let t = before.insert(j, x);
    lemma_place_in(before, x);
    law_text_order();
    let o = text_order();
    assert forall|a: int, b: int| 0 <= a < b < t.len() implies !text_less(
        #[trigger] t[b],
        #[trigger] t[a],
    ) by {
        if b == j {
            assert(t[a] == before[a]);
            if o(x, before[a]) && a < j - 1 {
                assert(!text_less(before[j - 1], before[a]));
                if before[j - 1] != before[a] {
                    assert(o(before[j - 1], before[a]) || o(before[a], before[j - 1]));
                    assert(o(before[a], before[j - 1]));
                    assert(o(x, before[j - 1]));
                }
            }
        } else if a == j {
            assert(t[b] == before[b - 1]);
            assert(o(x, before[b - 1]));
            if o(before[b - 1], x) {
                assert(o(x, x));
            }
        } else {
            let a2 = if a < j {
                a
            } else {
                a - 1
            };
            let b2 = if b < j {
                b
            } else {
                b - 1
            };
            assert(t[a] == before[a2] && t[b] == before[b2]);
        }
    }
}

/// Sorted texts are in order, and none is lost or added.
pub proof fn law_sorted_texts(s: Seq<Seq<char>>)
    ensures
        texts_are_sorted(sorted_texts(s)),
        sorted_texts(s).to_multiset() == s.to_multiset(),
        sorted_texts(s).len() == s.len(),
    decreases s.len(),
{
    broadcast use vstd::seq_lib::group_to_multiset_ensures;

    if s.len() == 0 {
        assert(s =~= Seq::<Seq<char>>::empty());
    } else {
        let before = sorted_texts(s.drop_last());
        let x = s.last();
        law_sorted_texts(s.drop_last());
        lemma_place_in(before, x);
        lemma_insert_sorted(before, x);
        assert(s =~= s.drop_last().push(x));
    }
}

fn insert_text(out: &mut Vec<String>, text: String)
    ensures
        final(out).deep_view() == old(out).deep_view().insert(
            place_in(old(out).deep_view(), text@),
            text@,
        ),
{
    let ghost s = out.deep_view();
    let ghost x = text@;
    let mut j: usize = out.len();
    proof {
        lemma_place_in(s, x);
        assert(s.take(j as int) =~= s);
    }
    while j > 0 && text_is_less(text.as_str(), out[j - 1].as_str())
        invariant
            j <= out.len(),
            s == out.deep_view(),
            x == text@,
            place_in(s, x) == place_in(s.take(j as int), x),
        decreases j,
    {
        proof {
            assert(s.take(j as int).last() == out[j - 1]@);
            assert(s.take(j as int).drop_last() =~= s.take(j - 1));
        }
        j -= 1;
    }
    proof {
        if j > 0 {
            assert(s.take(j as int).last() == out[j - 1]@);
        }
        assert(place_in(s, x) == j);
    }
    out.insert(j, text);
    assert(out.deep_view() =~= s.insert(j as int, x));
}

/// The texts in their order.
pub(crate) fn sort_texts(texts: Vec<String>) -> (r: Vec<String>)
    ensures
        r.deep_view() == sorted_texts(texts.deep_view()),
{
    let ghost all = texts.deep_view();
    let mut out: Vec<String> = Vec::new();
    assert(all.take(0) =~= Seq::<Seq<char>>::empty());
    assert(out.deep_view() =~= Seq::<Seq<char>>::empty());
    for text in it: texts
        invariant
            it.seq() == texts@,
            all == texts.deep_view(),
            out.deep_view() == sorted_texts(all.take(it.index())),
    {
        let ghost i = it.index();
        proof {
            assert(all[i] == text@);
            assert(all.take(i + 1).drop_last() =~= all.take(i));
            assert(all.take(i + 1).last() == text@);
        }
        insert_text(&mut out, text);
    }
    assert(all.take(all.len() as int) =~= all);
    out
}

/// The texts in their order, with one more unless it is there already.
pub open spec fn with_text(s: Seq<Seq<char>>, x: Seq<char>) -> Seq<Seq<char>> {
    if s.contains(x) {
        s
    } else {
        s.insert(place_in(s, x), x)
    }
}

/// The texts in their order, each once.
pub open spec fn distinct_texts(s: Seq<Seq<char>>) -> Seq<Seq<char>>
    decreases s.len(),
{
    if s.len() == 0 {
        Seq::empty()
    } else {
        with_text(distinct_texts(s.drop_last()), s.last())
    }
}

/// Distinct texts are in order, each is there once, and they are those that were there before.
pub proof fn law_distinct_texts(s: Seq<Seq<char>>)
    ensures
        texts_are_sorted(distinct_texts(s)),
        distinct_texts(s).no_duplicates(),
        forall|x: Seq<char>| #[trigger] distinct_texts(s).contains(x) <==> s.contains(x),
    decreases s.len(),
{
    if s.len() > 0 {
        let before = distinct_texts(s.drop_last());
        let y = s.last();
        law_distinct_texts(s.drop_last());
        let t = with_text(before, y);
        let j = place_in(before, y);
        lemma_place_in(before, y);
        if !before.contains(y) {
            lemma_insert_sorted(before, y);
            assert(t.no_duplicates()) by {
                assert forall|a: int, b: int| 0 <= a < t.len() && 0 <= b < t.len() && a != b implies t[a]
                    != t[b] by {
                    if a == j {
                        assert(t[b] == before[if b < j { b } else { b - 1 }]);
                    } else if b == j {
                        assert(t[a] == before[if a < j { a } else { a - 1 }]);
                    } else {
                        assert(t[b] == before[if b < j { b } else { b - 1 }]);
                        assert(t[a] == before[if a < j { a } else { a - 1 }]);
                    }
                }
            }
        }
        assert forall|x: Seq<char>| #[trigger] t.contains(x) <==> s.contains(x) by {
            assert(s =~= s.drop_last().push(y));
            if s.contains(x) {
                let k = choose|k: int| 0 <= k < s.len() && s[k] == x;
                if k < s.len() - 1 {
                    assert(s.drop_last()[k] == x);
                    assert(s.drop_last().contains(x));
                    assert(before.contains(x));
                    let m = choose|m: int| 0 <= m < before.len() && before[m] == x;
                    if !before.contains(y) {
                        assert(t[if m < j { m } else { m + 1 }] == x);
                    }
                } else if !before.contains(y) {
                    assert(t[j] == x);
                }
            }
            if t.contains(x) {
                let k = choose|k: int| 0 <= k < t.len() && t[k] == x;
                if x == y {
                    assert(s[s.len() - 1] == x);
                } else {
                    if !before.contains(y) {
                        assert(before[if k < j { k } else { k - 1 }] == x);
                    }
                    assert(before.contains(x));
                    assert(s.drop_last().contains(x));
                    let m = choose|m: int| 0 <= m < s.drop_last().len() && s.drop_last()[m] == x;
                    assert(s[m] == x);
                }
            }
        }
    }
}

/// Adds a text to texts that are in order, unless it is there already.
pub(crate) fn add_text(out: &mut Vec<String>, text: String)
    ensures
        final(out).deep_view() == with_text(old(out).deep_view(), text@),
{
    let ghost s = out.deep_view();
    let mut i: usize = 0;
    while i < out.len()
        invariant
            i <= out.len(),
            s == out.deep_view(),
            *out == *old(out),
            forall|k: int| 0 <= k < i ==> #[trigger] s[k] != text@,
        decreases out.len() - i,
    {
        assert(s[i as int] == out[i as int]@);
        if same(out[i].as_str(), text.as_str()) {
            assert(s.contains(text@));
            return;
        }
        i += 1;
    }
    assert(!s.contains(text@));
    insert_text(out, text);
}

// ---------------------------------------------------------------------------
// Paths
// ---------------------------------------------------------------------------
/// The kinds of components in their order.
pub open spec fn component_rank(c: Comp) -> int {
    match c {
        Comp::Root => 0,
        Comp::Cur => 1,
        Comp::Parent => 2,
        Comp::Normal(_) => 3,
    }
}

/// The order of components: by their kind, names as texts.
pub open spec fn component_less(a: Comp, b: Comp) -> bool {
    match (a, b) {
        (Comp::Normal(s), Comp::Normal(t)) => text_less(s, t),
        _ => component_rank(a) < component_rank(b),
    }
}

/// The order of paths: by their first different component.
pub open spec fn path_less(p: Seq<char>, q: Seq<char>) -> bool {
    comps_less(components(p), components(q))
}

pub open spec fn comps_less(a: Seq<Comp>, b: Seq<Comp>) -> bool {
    lex_less(a, b, |x: Comp, y: Comp| component_less(x, y))
}

pub open spec fn comps_order() -> spec_fn(Seq<Comp>, Seq<Comp>) -> bool {
    |a: Seq<Comp>, b: Seq<Comp>| comps_less(a, b)
}

/// The order of paths is a strict total order of their components.
pub proof fn law_path_order()
    ensures
        is_order(comps_order()),
{
    let less = |x: Comp, y: Comp| component_less(x, y);
    law_text_order();
    let t = text_order();
    assert forall|x: Comp| !#[trigger] less(x, x) by {
        if let Comp::Normal(s) = x {
            assert(!t(s, s));
        }
    }
    assert forall|x: Comp, y: Comp| x != y implies #[trigger] less(x, y) || less(y, x) by {
        if let (Comp::Normal(s), Comp::Normal(u)) = (x, y) {
            assert(t(s, u) || t(u, s));
        }
    }
    assert forall|x: Comp, y: Comp, z: Comp| #[trigger] less(x, y) && #[trigger] less(y, z) implies less(
        x,
        z,
    ) by {
        if let (Comp::Normal(s), Comp::Normal(u), Comp::Normal(v)) = (x, y, z) {
            assert(t(s, u) && t(u, v));
        }
    }
    lemma_lex_order(less);
    let l = |a: Seq<Comp>, b: Seq<Comp>| lex_less(a, b, less);
    let o = comps_order();
    assert forall|x: Seq<Comp>| !#[trigger] o(x, x) by {
        assert(!l(x, x));
    }
    assert forall|x: Seq<Comp>, y: Seq<Comp>| x != y implies #[trigger] o(x, y) || o(y, x) by {
        assert(l(x, y) || l(y, x));
    }
    assert forall|x: Seq<Comp>, y: Seq<Comp>, z: Seq<Comp>| #[trigger] o(x, y) && #[trigger] o(
        y,
        z,
    ) implies o(x, z) by {
        assert(l(x, y) && l(y, z));
    }
}

fn rank_of(c: &Component) -> (r: u8)
    ensures
        r == component_rank(c.deep_view()),
{
    match c {
        Component::RootDir => 0,
        Component::CurDir => 1,
        Component::ParentDir => 2,
        Component::Normal(_) => 3,
    }
}

fn component_is_less(a: &Component, b: &Component) -> (r: bool)
    ensures
        r == component_less(a.deep_view(), b.deep_view()),
{
    match (a, b) {
        (Component::Normal(s), Component::Normal(t)) => text_is_less(s.as_str(), t.as_str()),
        _ => rank_of(a) < rank_of(b),
    }
}

pub fn path_is_less(p: &str, q: &str) -> (r: bool)
    ensures
        r == path_less(p@, q@),
{
    let av = components_of(p);
    let bv = components_of(q);
    let ghost a = components(p@);
    let ghost b = components(q@);
    let mut i: usize = 0;
    assert(a.skip(0) =~= a && b.skip(0) =~= b);
    loop
        invariant
            av.deep_view() == a,
            bv.deep_view() == b,
            i <= av.len(),
            i <= bv.len(),
            comps_less(a, b) == comps_less(a.skip(i as int), b.skip(i as int)),
            a == components(p@),
            b == components(q@),
        decreases av.len() - i,
    {
        if i == bv.len() {
            return false;
        }
        if i == av.len() {
            return true;
        }
        let ghost x = av[i as int].deep_view();
        let ghost y = bv[i as int].deep_view();
        assert(a[i as int] == x && b[i as int] == y);
        assert(a.skip(i as int)[0] == x);
        assert(b.skip(i as int)[0] == y);
        if component_is_less(&av[i], &bv[i]) {
            proof {
                law_text_order();
                if x == y {
                    if let Comp::Normal(s) = x {
                        assert(!text_order()(s, s));
                    }
                }
            }
            return true;
        }
        if component_is_less(&bv[i], &av[i]) {
            proof {
                law_text_order();
                if x == y {
                    if let Comp::Normal(s) = x {
                        assert(!text_order()(s, s));
                    }
                }
            }
            return false;
        }
        proof {
            law_text_order();
            if x != y {
                if let (Comp::Normal(s), Comp::Normal(t)) = (x, y) {
                    assert(text_order()(s, t) || text_order()(t, s));
                }
            }
        }
        assert(a.skip(i as int).skip(1) =~= a.skip(i + 1));
        assert(b.skip(i as int).skip(1) =~= b.skip(i + 1));
        i += 1;
    }
}

} // verus!
