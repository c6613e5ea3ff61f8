//! What the parts of a path are.
use crate::deb::links::{common, resolve};
use crate::path_parts::law_join_components;
use crate::paths::{body_start, components, extension, file_name, file_stem, is_absolute, is_name, last_segment, law_file_name_component, law_parent_components, lemma_component_names, lemma_components_last, lemma_components_lead, lemma_components_name, lemma_components_single, lemma_components_slash, parent, path_join, path_starts_with, same_path, segment_component, trim_back, with_extension, with_file_name, Comp};
use crate::text::{lemma_rfind, lemma_rfind_is, rfind};
use vstd::prelude::*;

verus! {

/// The components of a path that consists of one segment. The empty path has none.
pub proof fn law_single_components(name: Seq<char>)
    ensures
        components(Seq::empty()) == Seq::<Comp>::empty(),
        components(seq!['/']) == seq![Comp::Root],
        components(seq!['.']) == seq![Comp::Cur],
        components(seq!['.', '.']) == seq![Comp::Parent],
        is_name(name) ==> components(name) == seq![Comp::Normal(name)],
{
    let e = Seq::<char>::empty();
    lemma_components_lead(e);
    lemma_components_lead(seq!['/']);
    lemma_components_lead(seq!['.']);
    let dots = seq!['.', '.'];
    lemma_rfind_is(dots, '/', -1);
    lemma_components_last(dots);
    assert(dots.skip(0) =~= dots);
    assert(dots.take(0) =~= e);
    assert(components(dots) =~= seq![Comp::Parent]);
    if is_name(name) {
        lemma_components_single(name);
    }
}

/// What a slash and one more segment add to a path: a name or two dots are one more component, a
/// single dot or nothing is none.
pub proof fn law_more_components(p: Seq<char>, name: Seq<char>)
    requires
        p.len() > 0,
    ensures
        is_name(name) ==> components(p.push('/') + name) == components(p).push(Comp::Normal(name)),
        components(p + seq!['/', '.', '.']) == components(p).push(Comp::Parent),
        components(p + seq!['/', '.']) == components(p),
        components(p.push('/')) == components(p),
{
    if is_name(name) {
        lemma_components_name(p, name);
    }
    lemma_components_slash(p);
    let n = p.len() as int;
    let up = p + seq!['/', '.', '.'];
    assert(up[n] == '/');
    lemma_rfind_is(up, '/', n);
    lemma_components_last(up);
    assert(up.skip(n + 1) =~= seq!['.', '.']);
    assert(up.take(n) =~= p);
    assert(up.len() > body_start(up));
    assert(segment_component(seq!['.', '.']) == seq![Comp::Parent]) by {
        let dots = seq!['.', '.'];
        if dots == seq!['.'] {
            assert(dots.len() == 1);
        }
    }
    assert(components(up) =~= components(p).push(Comp::Parent));
    let here = p + seq!['/', '.'];
    assert(here[n] == '/');
    lemma_rfind_is(here, '/', n);
    lemma_components_last(here);
    assert(here.skip(n + 1) =~= seq!['.']);
    assert(here.take(n) =~= p);
    assert(components(here) =~= components(p));
}

/// Where a path leads to, one component after the other: a name leads into a directory, two dots out
/// of it (but not above the root), and the root back to the beginning.
pub proof fn law_resolve(base: Seq<Seq<char>>, comps: Seq<Comp>, c: Comp)
    ensures
        resolve(base, Seq::empty()) == Some(base),
        resolve(base, comps) is None ==> resolve(base, comps.push(c)) is None,
        resolve(base, comps) matches Some(dir) ==> {
            &&& c matches Comp::Normal(name) ==> resolve(base, comps.push(c)) == Some(
                dir.push(name),
            )
            &&& c is Cur ==> resolve(base, comps.push(c)) == Some(dir)
            &&& c is Root ==> resolve(base, comps.push(c)) == Some(Seq::<Seq<char>>::empty())
            &&& c is Parent ==> resolve(base, comps.push(c)) == if dir.len() == 0 {
                None
            } else {
                Some(dir.drop_last())
            }
        },
{
    assert(comps.push(c).drop_last() =~= comps);
}

/// The extension of a file name is what stands behind its last dot, unless that is where the name
/// begins. With its stem it makes up the name.
pub proof fn law_extension(p: Seq<char>)
    ensures
        extension(p) is Some ==> file_name(p) is Some && file_stem(p) is Some,
        extension(p) matches Some(ext) ==> file_name(p)->0 == file_stem(p)->0.push('.') + ext
            && !ext.contains('.') && file_stem(p)->0.len() > 0,
        file_name(p) is Some && extension(p) is None ==> file_stem(p) == file_name(p) && !(
        file_name(p)->0.skip(1).contains('.')),
        file_name(p) is None ==> extension(p) is None && file_stem(p) is None,
{
    if let Some(name) = file_name(p) {
        lemma_rfind(name, '.');
        let d = rfind(name, '.');
        if d >= 1 {
            assert(name =~= name.take(d).push('.') + name.skip(d + 1));
            let ext = name.skip(d + 1);
            assert forall|k: int| 0 <= k < ext.len() implies ext[k] != '.' by {
                assert(ext[k] == name[d + 1 + k]);
            }
        } else {
            let rest = name.skip(1);
            assert(name.len() > 0) by {
                law_file_name_component(p);
                lemma_component_names(p);
                assert(components(p)[components(p).len() - 1] == Comp::Normal(name));
            }
            assert forall|k: int| 0 <= k < rest.len() implies rest[k] != '.' by {
                assert(rest[k] == name[k + 1]);
            }
        }
    }
}

/// Changing the file name of a path changes its last component, and nothing else.
pub proof fn law_with_file_name(p: Seq<char>, name: Seq<char>)
    requires
        file_name(p) is Some,
        is_name(name),
    ensures
        components(with_file_name(p, name)) == components(p).drop_last().push(Comp::Normal(name)),
{
    law_parent_components(p);
    law_file_name_component(p);
    let dir = parent(p)->0;
    assert(parent(p) is Some) by {
        if components(p) == seq![Comp::Root] {
            assert(components(p).last() == Comp::Root);
        }
    }
    assert(body_start(name) == 0) by {
        if body_start(name) == 1 {
            if name[0] == '/' {
                assert(name.contains('/'));
            } else if name.len() == 1 {
                assert(name =~= seq!['.']);
            } else {
                assert(name[1] == '/');
                assert(name.contains('/'));
            }
        }
    }
    law_join_components(dir, name);
    lemma_components_single(name);
    assert(components(p).drop_last() + seq![Comp::Normal(name)] =~= components(p).drop_last().push(
        Comp::Normal(name),
    ));
}

/// A path starts with another one if it continues it by whole components. Two paths are the same if
/// they have the same components.
pub proof fn law_starts_with(p: Seq<char>, base: Seq<char>)
    ensures
        path_starts_with(p, base) <==> exists|rest: Seq<Comp>| components(p) == #[trigger] (
        components(base) + rest),
        same_path(p, base) <==> components(p) == components(base),
{
    let n = components(base).len() as int;
    if path_starts_with(p, base) {
        let rest = components(p).skip(n);
        assert(components(p) =~= components(base) + rest);
    }
    if exists|rest: Seq<Comp>| components(p) == #[trigger] (components(base) + rest) {
        let rest = choose|rest: Seq<Comp>| components(p) == #[trigger] (components(base) + rest);
        assert((components(base) + rest).take(n) =~= components(base));
    }
}

/// Joining paths: an absolute one replaces the first, a relative one goes on from it.
pub proof fn law_path_join(p: Seq<char>, q: Seq<char>)
    ensures
        is_absolute(q) ==> path_join(p, q) == q,
        !is_absolute(q) && p.len() == 0 ==> path_join(p, q) == q,
        !is_absolute(q) && p.len() > 0 ==> {
            &&& path_join(p, q).take(p.len() as int) == p
            &&& path_join(p, q).skip(path_join(p, q).len() - q.len()) == q
            &&& path_join(p, q).len() - q.len() - p.len() == (if p.last() == '/' {
                0int
            } else {
                1
            })
        },
{
    let r = path_join(p, q);
    if !is_absolute(q) {
        assert(r.skip(r.len() - q.len()) =~= q);
        if p.len() == 0 {
            assert(r =~= q);
        } else {
            assert(r.take(p.len() as int) =~= p);
        }
    }
}

/// Two directories share as many names from the root as they can.
pub proof fn law_common(a: Seq<Seq<char>>, b: Seq<Seq<char>>)
    ensures
        0 <= common(a, b) <= a.len(),
        common(a, b) <= b.len(),
        forall|k: int| 0 <= k < common(a, b) ==> #[trigger] a[k] == b[k],
        common(a, b) == a.len() || common(a, b) == b.len() || a[common(a, b)] != b[common(a, b)],
    decreases a.len(),
{
    if a.len() > 0 && b.len() > 0 && a[0] == b[0] {
        let s = a.skip(1);
        let t = b.skip(1);
        law_common(s, t);
        let n = common(a, b);
        assert forall|k: int| 0 <= k < n implies #[trigger] a[k] == b[k] by {
            if k > 0 {
                assert(s[k - 1] == a[k]);
                assert(t[k - 1] == b[k]);
            }
        }
        if n < a.len() && n < b.len() {
            assert(s[n - 1] == a[n]);
            assert(t[n - 1] == b[n]);
        }
    }
}

/// The extension of a file in a directory is exchanged, or added if there is none.
pub proof fn law_with_extension(dir: Seq<char>, name: Seq<char>, ext: Seq<char>)
    requires
        dir.len() > 0,
        is_name(name),
        ext.len() > 0,
        !name.contains('.'),
        !ext.contains('.') && !ext.contains('/'),
    ensures
        with_extension(dir.push('/') + name, ext) == dir.push('/') + name.push('.') + ext,
        file_name(dir.push('/') + name) == Some(name),
{
    let p = dir.push('/') + name;
    let n = dir.len() as int;
    let start = body_start(p);
    assert(p[n] == '/');
    assert forall|k: int| n < k < p.len() implies p[k] != '/' by {
        assert(name.contains(name[k - n - 1]));
    }
    lemma_rfind_is(p, '/', n);
    assert(start <= n);
    assert(start == 1 ==> p.len() > 1);
    assert(last_segment(p, start) == n + 1);
    assert(p.skip(n + 1) =~= name);
    assert(trim_back(p, start) == p);
    assert(file_name(p) == Some(name));
    assert forall|k: int| 0 <= k < name.len() implies name[k] != '.' by {
        assert(name.contains(name[k]));
    }
    lemma_rfind_is(name, '.', -1);
    assert(extension(p) is None);
    assert(file_stem(p) == Some(name));
    assert(p.take(n + 1 + name.len()) =~= p);
    assert(p.push('.') + ext =~= dir.push('/') + name.push('.') + ext);
}

} // verus!
