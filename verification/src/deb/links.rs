//! Symbolic links as the Debian policy wants them: relative within a top-level directory, absolute
//! from one to another.
use crate::path_parts::{law_join_components, law_join_dot};
use crate::paths::{body_start, components, components_of, is_absolute, is_name, lemma_component_names, lemma_components_lead, lemma_components_name, lemma_components_single, lemma_components_slash, path_join, Comp, Component};
use crate::text::{join, join_strings};
use vstd::prelude::*;
use vstd::string::StringExecFns;

verus! {

/// Where the components lead to from the directory below the root that `base` names: the names of
/// the directories on the way from the root, or none where the way leads above the root.
pub open spec fn resolve(base: Seq<Seq<char>>, comps: Seq<Comp>) -> Option<Seq<Seq<char>>>
    decreases comps.len(),
{
    if comps.len() == 0 {
        Some(base)
    } else {
        match resolve(base, comps.drop_last()) {
            None => None,
            Some(names) => match comps.last() {
                Comp::Root => Some(Seq::empty()),
                Comp::Cur => Some(names),
                Comp::Parent => if names.len() == 0 {
                    None
                } else {
                    Some(names.drop_last())
                },
                Comp::Normal(name) => Some(names.push(name)),
            },
        }
    }
}

/// How many names the two sequences begin with alike.
pub open spec fn common(a: Seq<Seq<char>>, b: Seq<Seq<char>>) -> int
    decreases a.len(),
{
    if a.len() == 0 || b.len() == 0 || a[0] != b[0] {
        0
    } else {
        1 + common(a.skip(1), b.skip(1))
    }
}

/// `../` as many times.
pub open spec fn ascend(n: nat) -> Seq<char>
    decreases n,
{
    if n == 0 {
        Seq::empty()
    } else {
        ascend((n - 1) as nat) + seq!['.', '.', '/']
    }
}

/// The path that leads from one directory to a place: absolute where they are not below the same
/// top-level directory, else up to the last directory that they share, and down from there.
pub open spec fn link_between(from: Seq<Seq<char>>, to: Seq<Seq<char>>) -> Seq<char> {
    if from.len() == 0 && to.len() == 0 {
        Seq::empty()
    } else if from.len() == 0 || to.len() == 0 || from[0] != to[0] {
        seq!['/'] + join(to, seq!['/'])
    } else {
        let c = common(from, to);
        ascend((from.len() - c) as nat) + join(to.skip(c), seq!['/'])
    }
}

/// The normalized destination of a link at `target` that leads to `link`: none where one of them
/// leads above the root.
pub open spec fn normalized_link(target: Seq<char>, link: Seq<char>) -> Option<Seq<char>> {
    match resolve(Seq::empty(), components(target)) {
        None => None,
        Some(place) => match resolve(place.drop_last(), components(link)) {
            None => None,
            Some(dest) => Some(link_between(place.drop_last(), dest)),
        },
    }
}

/// Whether a path can be the place of a link: it does not lead to the root.
pub open spec fn is_link_place(target: Seq<char>) -> bool {
    resolve(Seq::empty(), components(target)) matches Some(place) ==> place.len() > 0
}

/// Join the two paths while normalizing them lexically, so that the final path contains no `.` or
/// `..` components. Returns none if at some point the way leads above the root.
pub fn join_lexically(base: &Vec<String>, adjoint_path: &str) -> (r: Option<Vec<String>>)
    ensures
        r.deep_view() == resolve(base.deep_view(), components(adjoint_path@)),
{
    let comps = components_of(adjoint_path);
    let mut names: Vec<String> = Vec::new();
    let mut k: usize = 0;
    assert(names.deep_view() =~= base.deep_view().take(0));
    while k < base.len()
        invariant
            k <= base.len(),
            names.deep_view() == base.deep_view().take(k as int),
        decreases base.len() - k,
    {
        let ghost before = names.deep_view();
        names.push(base[k].clone());
        assert(names.deep_view() =~= before.push(base[k as int]@));
        assert(base.deep_view().take(k + 1) =~= before.push(base[k as int]@));
        k += 1;
    }
    assert(base.deep_view().take(k as int) =~= base.deep_view());
    let ghost cs = comps.deep_view();
    let mut i: usize = 0;
    assert(cs.take(0) =~= Seq::<Comp>::empty());
    while i < comps.len()
        invariant
            i <= comps.len(),
            cs == comps.deep_view(),
            cs == components(adjoint_path@),
            resolve(base.deep_view(), cs.take(i as int)) == Some(names.deep_view()),
        decreases comps.len() - i,
    {
        let ghost before = names.deep_view();
        assert(cs.take(i + 1).drop_last() =~= cs.take(i as int));
        assert(cs.take(i + 1).last() == comps[i as int].deep_view());
        match &comps[i] {
            Component::RootDir => {
                names.clear();
                assert(names.deep_view() =~= Seq::<Seq<char>>::empty());
            },
            Component::CurDir => {},
            Component::ParentDir => {
                if names.len() == 0 {
                    proof {
                        lemma_lost(base.deep_view(), cs, i + 1);
                    }
                    return None;
                }
                names.pop();
                assert(names.deep_view() =~= before.drop_last());
            },
            Component::Normal(name) => {
                names.push(name.clone());
                assert(names.deep_view() =~= before.push(name@));
            },
        }
        i += 1;
    }
    assert(cs.take(i as int) =~= cs);
    Some(names)
}

/// Where a part of the way leads above the root, so does the way.
proof fn lemma_lost(base: Seq<Seq<char>>, cs: Seq<Comp>, i: int)
    requires
        0 <= i <= cs.len(),
        resolve(base, cs.take(i)) is None,
    ensures
        resolve(base, cs) is None,
    decreases cs.len(),
{
    if i == cs.len() {
        assert(cs.take(i) =~= cs);
    } else {
        assert(cs.drop_last().take(i) =~= cs.take(i));
        lemma_lost(base, cs.drop_last(), i);
    }
}

/// Normalizes symlinks like `dh_link`, according to the Debian policy. A link that leads above the
/// root has no normalized form.
pub fn normalize_link_name(target_path: &str, link_name: &str) -> (r: Option<String>)
    requires
        is_link_place(target_path@),
    ensures
        r.deep_view() == normalized_link(target_path@, link_name@),
{
    let root: Vec<String> = Vec::new();
    assert(root.deep_view() =~= Seq::<Seq<char>>::empty());
    let mut from = match join_lexically(&root, target_path) {
        Some(names) => names,
        None => {
            return None;
        },
    };
    let ghost place = from.deep_view();
    from.pop();
    assert(from.deep_view() =~= place.drop_last());
    let to = match join_lexically(&from, link_name) {
        Some(names) => names,
        None => {
            return None;
        },
    };
    Some(link_text(&from, &to))
}

/// The path that leads from one directory to a place.
fn link_text(from: &Vec<String>, to: &Vec<String>) -> (r: String)
    ensures
        r@ == link_between(from.deep_view(), to.deep_view()),
{
    let ghost f = from.deep_view();
    let ghost t = to.deep_view();
    proof {
        reveal_strlit("/");
        reveal_strlit("../");
        assert("/"@ =~= seq!['/']);
        assert("../"@ =~= seq!['.', '.', '/']);
    }
    if from.len() == 0 && to.len() == 0 {
        return String::new();
    }
    if from.len() == 0 || to.len() == 0 || from[0] != to[0] {
        let mut link = "/".to_owned();
        let rest = join_strings(to, "/");
        link.append(rest.as_str());
        return link;
    }
    let mut c: usize = 0;
    assert(f.skip(0) =~= f && t.skip(0) =~= t);
    while c < from.len() && c < to.len() && from[c] == to[c]
        invariant
            c <= from.len(),
            c <= to.len(),
            f == from.deep_view(),
            t == to.deep_view(),
            common(f, t) == c + common(f.skip(c as int), t.skip(c as int)),
        decreases from.len() - c,
    {
        assert(f.skip(c as int)[0] == from[c as int]@);
        assert(t.skip(c as int)[0] == to[c as int]@);
        assert(f.skip(c as int).skip(1) =~= f.skip(c + 1));
        assert(t.skip(c as int).skip(1) =~= t.skip(c + 1));
        c += 1;
    }
    proof {
        if c < from.len() && c < to.len() {
            assert(f.skip(c as int)[0] == from[c as int]@);
            assert(t.skip(c as int)[0] == to[c as int]@);
        }
    }
    let mut link = String::new();
    let mut i: usize = c;
    while i < from.len()
        invariant
            c <= i <= from.len(),
            link@ == ascend((i - c) as nat),
            "../"@ == seq!['.', '.', '/'],
        decreases from.len() - i,
    {
        link.append("../");
        i += 1;
    }
    let mut rest: Vec<String> = Vec::new();
    let mut j: usize = c;
    assert(rest.deep_view() =~= t.subrange(c as int, c as int));
    while j < to.len()
        invariant
            c <= j <= to.len(),
            t == to.deep_view(),
            rest.deep_view() == t.subrange(c as int, j as int),
        decreases to.len() - j,
    {
        let ghost before = rest.deep_view();
        rest.push(to[j].clone());
        assert(rest.deep_view() =~= before.push(to[j as int]@));
        assert(t.subrange(c as int, j + 1) =~= before.push(to[j as int]@));
        j += 1;
    }
    assert(t.subrange(c as int, j as int) =~= t.skip(c as int));
    let down = join_strings(&rest, "/");
    link.append(down.as_str());
    link
}

// ---------------------------------------------------------------------------
// What a normalized link is
// ---------------------------------------------------------------------------
spec fn all_names(names: Seq<Seq<char>>) -> bool {
    forall|i: int| 0 <= i < names.len() ==> is_name(#[trigger] names[i])
}

proof fn lemma_resolve_names(base: Seq<Seq<char>>, comps: Seq<Comp>)
    requires
        all_names(base),
        forall|i: int|
            0 <= i < comps.len() ==> ((#[trigger] comps[i]) matches Comp::Normal(n) ==> is_name(n)),
    ensures
        resolve(base, comps) matches Some(names) ==> all_names(names),
    decreases comps.len(),
{
    if comps.len() > 0 {
        lemma_resolve_names(base, comps.drop_last());
        assert(comps[comps.len() - 1] == comps.last());
    }
}

proof fn lemma_common(a: Seq<Seq<char>>, b: Seq<Seq<char>>)
    ensures
        0 <= common(a, b) <= a.len(),
        common(a, b) <= b.len(),
        a.take(common(a, b)) == b.take(common(a, b)),
    decreases a.len(),
{
    if a.len() == 0 || b.len() == 0 || a[0] != b[0] {
        assert(a.take(0) =~= b.take(0));
    } else {
        lemma_common(a.skip(1), b.skip(1));
        let c = common(a, b);
        assert forall|i: int| 0 <= i < c implies a[i] == b[i] by {
            if i > 0 {
                assert(a.skip(1).take(c - 1)[i - 1] == a[i]);
                assert(b.skip(1).take(c - 1)[i - 1] == b[i]);
            }
        }
        assert(a.take(c) =~= b.take(c));
    }
}

/// The two dots, as many times.
pub open spec fn parents(n: nat) -> Seq<Comp> {
    Seq::new(n, |i: int| Comp::Parent)
}

/// The names as components.
pub open spec fn normals(names: Seq<Seq<char>>) -> Seq<Comp> {
    names.map_values(|n: Seq<char>| Comp::Normal(n))
}

proof fn lemma_ascend(n: nat)
    ensures
        ascend(n).len() == 3 * n,
        n > 0 ==> ascend(n).last() == '/',
        n > 0 ==> ascend(n)[0] == '.' && ascend(n)[1] == '.',
        components(ascend(n)) == parents(n),
        n > 0 ==> components(ascend(n).drop_last()) == parents(n),
    decreases n,
{
    if n == 0 {
        lemma_components_lead(Seq::<char>::empty());
        assert(components(ascend(0)) =~= parents(0));
    } else {
        let m = (n - 1) as nat;
        lemma_ascend(m);
        let dots = seq!['.', '.'];
        let before = ascend(m);
        let s = before + dots;
        assert(ascend(n) =~= s.push('/'));
        assert(ascend(n).drop_last() =~= s);
        // the last segment of `s` is the two dots
        if m == 0 {
            assert(s =~= dots);
            assert forall|k: int| 0 <= k < s.len() implies s[k] != '/' by {}
            crate::text::lemma_rfind_is(s, '/', -1);
            crate::paths::lemma_components_last(s);
            assert(s.skip(0) =~= dots);
            assert(s.take(0) =~= Seq::<char>::empty());
            lemma_components_lead(Seq::<char>::empty());
            lemma_dots();
            assert(components(s) =~= parents(n));
        } else {
            let i = before.len() - 1;
            assert(s[i] == '/');
            crate::text::lemma_rfind_is(s, '/', i);
            assert(crate::paths::body_start(s) == 0);
            crate::paths::lemma_components_last(s);
            assert(s.skip(i + 1) =~= dots);
            assert(s.take(i) =~= before.drop_last());
            lemma_dots();
            assert(components(s) =~= parents(m) + seq![Comp::Parent]);
            assert(components(s) =~= parents(n));
        }
        lemma_components_slash(s);
    }
}

proof fn lemma_dots()
    ensures
        crate::paths::segment_component(seq!['.', '.']) == seq![Comp::Parent],
{
    let dots = seq!['.', '.'];
    if dots == seq!['.'] {
        assert(dots.len() == 1);
    }
}

/// The components of names that stand behind a path which ends with a slash, or behind nothing.
proof fn lemma_join_components(lead: Seq<char>, names: Seq<Seq<char>>)
    requires
        all_names(names),
        lead.len() > 0 ==> lead.last() == '/',
    ensures
        components(lead + join(names, seq!['/'])) == components(lead) + normals(names),
        names.len() > 0 ==> (lead + join(names, seq!['/'])).len() > 0,
    decreases names.len(),
{
    let sep = seq!['/'];
    if names.len() == 0 {
        assert(lead + join(names, sep) =~= lead);
        assert(components(lead) + normals(names) =~= components(lead));
    } else if names.len() == 1 {
        let n = names[0];
        assert(is_name(n));
        assert(normals(names) =~= seq![Comp::Normal(n)]);
        if lead.len() == 0 {
            assert(lead + join(names, sep) =~= n);
            lemma_components_single(n);
            lemma_components_lead(lead);
            assert(components(lead) + normals(names) =~= seq![Comp::Normal(n)]);
        } else {
            let q = lead.drop_last();
            assert(lead + join(names, sep) =~= q.push('/') + n);
            lemma_components_name(q, n);
            if q.len() == 0 {
                assert(lead =~= seq!['/']);
            } else {
                lemma_components_slash(q);
                assert(q.push('/') =~= lead);
            }
            assert(components(lead) + normals(names) =~= components(lead).push(Comp::Normal(n)));
        }
    } else {
        let before = names.drop_last();
        let n = names.last();
        assert(is_name(names[names.len() - 1]));
        assert forall|i: int| 0 <= i < before.len() implies is_name(#[trigger] before[i]) by {
            assert(is_name(names[i]));
        }
        lemma_join_components(lead, before);
        let q = lead + join(before, sep);
        assert(lead + join(names, sep) =~= q.push('/') + n);
        lemma_components_name(q, n);
        assert(components(lead) + normals(names) =~= (components(lead) + normals(before)).push(
            Comp::Normal(n),
        ));
    }
}

proof fn lemma_resolve_append(base: Seq<Seq<char>>, a: Seq<Comp>, names: Seq<Seq<char>>)
    ensures
        resolve(base, a) matches Some(mid) ==> resolve(base, a + normals(names)) == Some(
            mid + names,
        ),
    decreases names.len(),
{
    if resolve(base, a) is Some {
        let mid = resolve(base, a)->0;
        let all = a + normals(names);
        if names.len() == 0 {
            assert(all =~= a);
            assert(mid + names =~= mid);
        } else {
            lemma_resolve_append(base, a, names.drop_last());
            assert(all.drop_last() =~= a + normals(names.drop_last()));
            assert(all.last() == Comp::Normal(names.last()));
            assert((mid + names.drop_last()).push(names.last()) =~= mid + names);
        }
    }
}

proof fn lemma_resolve_parents(base: Seq<Seq<char>>, n: nat)
    requires
        n <= base.len(),
    ensures
        resolve(base, parents(n)) == Some(base.take(base.len() - n)),
    decreases n,
{
    if n == 0 {
        assert(base.take(base.len() as int) =~= base);
    } else {
        lemma_resolve_parents(base, (n - 1) as nat);
        assert(parents(n).drop_last() =~= parents((n - 1) as nat));
        assert(base.take(base.len() - (n - 1)).drop_last() =~= base.take(base.len() - n));
    }
}

/// Components behind others lead on from where those lead to.
proof fn lemma_resolve_cat(base: Seq<Seq<char>>, a: Seq<Comp>, b: Seq<Comp>)
    ensures
        resolve(base, a + b) == match resolve(base, a) {
            Some(mid) => resolve(mid, b),
            None => None,
        },
    decreases b.len(),
{
    if b.len() == 0 {
        assert(a + b =~= a);
    } else {
        lemma_resolve_cat(base, a, b.drop_last());
        assert((a + b).drop_last() =~= a + b.drop_last());
        assert((a + b).last() == b.last());
    }
}

/// A first component that is the root or a dot.
proof fn lemma_resolve_lead(base: Seq<Seq<char>>, lead: Comp, rest: Seq<Comp>)
    ensures
        lead is Root ==> resolve(base, seq![lead] + rest) == resolve(Seq::empty(), rest),
        lead is Cur ==> resolve(base, seq![lead] + rest) == resolve(base, rest),
{
    let one = seq![lead];
    assert(one.drop_last() =~= Seq::<Comp>::empty());
    assert(resolve(base, one.drop_last()) == Some(base));
    lemma_resolve_cat(base, one, rest);
}

/// Joining a path lexically is joining its parts one after the other: where two paths are joined to
/// one, that one leads to where the second leads from where the first leads to. An absolute path
/// takes the place of the one that it is joined to, and forgets whether that led above the root. The
/// empty path leads nowhere else.
pub proof fn law_join_lexically(base: Seq<Seq<char>>, first: Seq<char>, second: Seq<char>)
    requires
        !is_absolute(second) || resolve(base, components(first)) is Some || resolve(
            base,
            components(second),
        ) is None,
    ensures
        resolve(base, components(path_join(first, second))) == match resolve(
            base,
            components(first),
        ) {
            Some(mid) => resolve(mid, components(second)),
            None => None,
        },
        resolve(base, components(Seq::empty())) == Some(base),
{
    let c = components(second);
    lemma_components_lead(Seq::<char>::empty());
    if is_absolute(second) {
        let rest = crate::paths::segment_components(crate::text::split(second, '/'));
        lemma_resolve_lead(base, Comp::Root, rest);
        if let Some(mid) = resolve(base, components(first)) {
            lemma_resolve_lead(mid, Comp::Root, rest);
        }
    } else if first.len() == 0 {
        assert(first =~= Seq::<char>::empty());
        assert(path_join(first, second) =~= second);
    } else if body_start(second) == 0 {
        law_join_components(first, second);
        lemma_resolve_cat(base, components(first), c);
    } else {
        law_join_dot(first, second);
        lemma_resolve_cat(base, components(first), c.skip(1));
        assert(c =~= seq![Comp::Cur] + c.skip(1));
        if let Some(mid) = resolve(base, components(first)) {
            lemma_resolve_lead(mid, Comp::Cur, c.skip(1));
        }
    }
}

/// A normalized link leads to the place that the link leads to.
pub proof fn law_normalized_link_leads_to_same_place(target: Seq<char>, link: Seq<char>)
    requires
        is_link_place(target),
        normalized_link(target, link) is Some,
    ensures
        ({
            let dir = resolve(Seq::empty(), components(target))->0.drop_last();
            resolve(dir, components(normalized_link(target, link)->0)) == resolve(
                dir,
                components(link),
            )
        }),
{
    lemma_component_names(target);
    lemma_component_names(link);
    lemma_resolve_names(Seq::empty(), components(target));
    let place = resolve(Seq::empty(), components(target))->0;
    let dir = place.drop_last();
    assert forall|i: int| 0 <= i < dir.len() implies is_name(#[trigger] dir[i]) by {
        assert(is_name(place[i]));
    }
    lemma_resolve_names(dir, components(link));
    let dest = resolve(dir, components(link))->0;
    lemma_link_between(dir, dest);
}

proof fn lemma_link_between(dir: Seq<Seq<char>>, dest: Seq<Seq<char>>)
    requires
        all_names(dir),
        all_names(dest),
    ensures
        resolve(dir, components(link_between(dir, dest))) == Some(dest),
{
    let text = link_between(dir, dest);
    let sep = seq!['/'];
    if dir.len() == 0 && dest.len() == 0 {
        lemma_components_lead(text);
        assert(dir =~= dest);
    } else if dir.len() == 0 || dest.len() == 0 || dir[0] != dest[0] {
        let root = seq!['/'];
        lemma_join_components(root, dest);
        lemma_components_lead(root);
        let c = components(root);
        assert(c =~= seq![Comp::Root]);
        assert(c.drop_last() =~= Seq::<Comp>::empty());
        assert(resolve(dir, c.drop_last()) == Some(dir));
        assert(resolve(dir, c) == Some(Seq::<Seq<char>>::empty()));
        lemma_resolve_append(dir, c, dest);
        assert(Seq::<Seq<char>>::empty() + dest =~= dest);
    } else {
        let c = common(dir, dest);
        lemma_common(dir, dest);
        let n = (dir.len() - c) as nat;
        let rest = dest.skip(c);
        assert forall|i: int| 0 <= i < rest.len() implies is_name(#[trigger] rest[i]) by {
            assert(is_name(dest[i + c]));
        }
        lemma_ascend(n);
        lemma_join_components(ascend(n), rest);
        lemma_resolve_parents(dir, n);
        lemma_resolve_append(dir, parents(n), rest);
        assert(dir.take(c) + rest =~= dest);
    }
}

/// A normalized link is absolute, unless it leads to a place below the same top-level directory
/// (or from the root to the root). An absolute one holds names only; a relative one leads up to the
/// last directory that it shares with the place, never above the top-level directory, and holds
/// names only from there on.
pub proof fn law_normalized_link_form(target: Seq<char>, link: Seq<char>)
    requires
        is_link_place(target),
        normalized_link(target, link) is Some,
    ensures
        ({
            let dir = resolve(Seq::empty(), components(target))->0.drop_last();
            let dest = resolve(dir, components(link))->0;
            let c = components(normalized_link(target, link)->0);
            if dir.len() == 0 && dest.len() == 0 {
                c == Seq::<Comp>::empty()
            } else if dir.len() == 0 || dest.len() == 0 || dir[0] != dest[0] {
                c == seq![Comp::Root] + normals(dest)
            } else {
                &&& 1 <= common(dir, dest) <= dir.len()
                &&& c == parents((dir.len() - common(dir, dest)) as nat) + normals(
                    dest.skip(common(dir, dest)),
                )
            }
        }),
{
    lemma_component_names(target);
    lemma_component_names(link);
    lemma_resolve_names(Seq::empty(), components(target));
    let place = resolve(Seq::empty(), components(target))->0;
    let dir = place.drop_last();
    assert forall|i: int| 0 <= i < dir.len() implies is_name(#[trigger] dir[i]) by {
        assert(is_name(place[i]));
    }
    lemma_resolve_names(dir, components(link));
    let dest = resolve(dir, components(link))->0;
    let text = link_between(dir, dest);
    if dir.len() == 0 && dest.len() == 0 {
        lemma_components_lead(text);
    } else if dir.len() == 0 || dest.len() == 0 || dir[0] != dest[0] {
        lemma_join_components(seq!['/'], dest);
        lemma_components_lead(seq!['/']);
    } else {
        let k = common(dir, dest);
        lemma_common(dir, dest);
        assert(k >= 1) by {
            lemma_common(dir.skip(1), dest.skip(1));
        }
        let n = (dir.len() - k) as nat;
        let rest = dest.skip(k);
        assert forall|i: int| 0 <= i < rest.len() implies is_name(#[trigger] rest[i]) by {
            assert(is_name(dest[i + k]));
        }
        lemma_ascend(n);
        lemma_join_components(ascend(n), rest);
    }
}

} // verus!
