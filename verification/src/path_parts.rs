//! What joining paths, and taking their beginnings away, does to their components.
use crate::paths::{behind_slash, body_start, components, drop_components, drop_segments, is_absolute, is_skipped, lemma_trim_back_components, path_join, path_starts_with, segment_component, segment_components, strip_path_prefix, trim_back, trim_front, trim_right, Comp};
use crate::text::{find_from, lemma_find_from, lemma_rfind_is, lemma_split_last, lemma_split_nonempty, split};
use vstd::prelude::*;

verus! {

/// The components of segments that stand behind a slash.
spec fn flat(segs: Seq<Seq<char>>) -> Seq<Comp>
    decreases segs.len(),
{
    if segs.len() == 0 {
        Seq::empty()
    } else {
        flat(segs.drop_last()) + segment_component(segs.last())
    }
}

/// The components of a text that stands behind a slash.
spec fn tail_components(p: Seq<char>) -> Seq<Comp> {
    flat(split(p, '/'))
}

proof fn lemma_flat_cat(a: Seq<Seq<char>>, b: Seq<Seq<char>>)
    ensures
        flat(a + b) == flat(a) + flat(b),
    decreases b.len(),
{
    if b.len() == 0 {
        assert(a + b =~= a);
        assert(flat(a) + flat(b) =~= flat(a));
    } else {
        lemma_flat_cat(a, b.drop_last());
        assert((a + b).drop_last() =~= a + b.drop_last());
        assert((a + b).last() == b.last());
        assert(flat(a + b) =~= flat(a) + flat(b));
    }
}

proof fn lemma_flat_one(seg: Seq<char>)
    ensures
        flat(seq![seg]) == segment_component(seg),
{
    reveal_with_fuel(flat, 2);
    assert(seq![seg].drop_last() =~= Seq::<Seq<char>>::empty());
    assert(flat(seq![seg]) =~= segment_component(seg));
}

/// A slash separates the segments before it from those behind it.
proof fn lemma_split_cat(a: Seq<char>, b: Seq<char>)
    ensures
        split(a.push('/') + b, '/') == split(a, '/') + split(b, '/'),
    decreases b.len(),
{
    let s = a.push('/') + b;
    if b.len() == 0 {
        assert(s =~= a.push('/'));
        assert(s.drop_last() =~= a);
        assert(split(b, '/') =~= seq![Seq::<char>::empty()]);
        assert(split(s, '/') =~= split(a, '/') + split(b, '/'));
    } else {
        let t = b.drop_last();
        lemma_split_cat(a, t);
        lemma_split_nonempty(t, '/');
        assert(s.drop_last() =~= a.push('/') + t);
        assert(s.last() == b.last());
        assert(split(s, '/') =~= split(a, '/') + split(b, '/'));
    }
}

proof fn lemma_tail_cat(a: Seq<char>, b: Seq<char>)
    ensures
        tail_components(a.push('/') + b) == tail_components(a) + tail_components(b),
{
    lemma_split_cat(a, b);
    lemma_flat_cat(split(a, '/'), split(b, '/'));
}

proof fn lemma_no_components()
    ensures
        tail_components(Seq::empty()) == Seq::<Comp>::empty(),
{
    let e = Seq::<char>::empty();
    assert(split(e, '/') =~= seq![e]);
    lemma_flat_one(e);
}

/// The first segment may be the dot that a relative path begins with.
proof fn lemma_first_segment(segs: Seq<Seq<char>>)
    requires
        segs.len() > 0,
    ensures
        segs[0] != seq!['.'] ==> segment_components(segs) == flat(segs),
        segs[0] == seq!['.'] ==> segment_components(segs) == seq![Comp::Cur] + flat(segs.skip(1)),
    decreases segs.len(),
{
    let before = segs.drop_last();
    if segs.len() == 1 {
        reveal_with_fuel(flat, 2);
        reveal_with_fuel(segment_components, 2);
        assert(before =~= Seq::<Seq<char>>::empty());
        assert(segs.skip(1) =~= Seq::<Seq<char>>::empty());
        if segs[0] == seq!['.'] {
            assert(segment_components(segs) =~= seq![Comp::Cur] + flat(segs.skip(1)));
        } else {
            assert(segment_components(segs) =~= flat(segs));
        }
    } else {
        lemma_first_segment(before);
        assert(before[0] == segs[0]);
        assert(segs.skip(1).drop_last() =~= before.skip(1));
        assert(segs.skip(1).last() == segs.last());
        if segs[0] == seq!['.'] {
            assert(segment_components(segs) =~= seq![Comp::Cur] + flat(segs.skip(1)));
        } else {
            assert(segment_components(segs) =~= flat(segs));
        }
    }
}

/// The components of a path: what it begins with, and those of its segments.
proof fn lemma_components(p: Seq<char>)
    ensures
        body_start(p) == 0 ==> components(p) == tail_components(p),
        body_start(p) == 1 && p[0] == '/' ==> components(p) == seq![Comp::Root] + tail_components(
            p.skip(1),
        ),
        body_start(p) == 1 && p[0] == '.' ==> components(p) == seq![Comp::Cur] + tail_components(
            p.skip(1),
        ),
{
    let e = Seq::<char>::empty();
    let segs = split(p, '/');
    lemma_split_nonempty(p, '/');
    lemma_first_segment(segs);
    assert(split(e, '/') =~= seq![e]);
    lemma_flat_one(e);
    if is_absolute(p) {
        lemma_split_cat(e, p.skip(1));
        assert(e.push('/') + p.skip(1) =~= p);
        lemma_flat_cat(seq![e], split(p.skip(1), '/'));
        assert(segs[0] == e);
        assert(components(p) =~= seq![Comp::Root] + tail_components(p.skip(1)));
    } else {
        let j = find_from(p, '/', 0);
        lemma_find_from(p, '/', 0);
        let first = p.take(j);
        lemma_rfind_is(first, '/', -1);
        lemma_split_last(first, '/');
        if j < p.len() {
            lemma_split_cat(first, p.skip(j + 1));
            assert(first.push('/') + p.skip(j + 1) =~= p);
            assert(segs.skip(1) =~= split(p.skip(j + 1), '/'));
        } else {
            assert(first =~= p);
            assert(segs.skip(1) =~= Seq::<Seq<char>>::empty());
        }
        assert(segs[0] == first);
        if body_start(p) == 1 {
            assert(p.len() > 1 ==> p[1] == '/');
            assert(first =~= seq!['.']);
            let rest = p.skip(1);
            if p.len() > 1 {
                assert(j == 1);
                lemma_split_cat(e, p.skip(2));
                assert(e.push('/') + p.skip(2) =~= rest);
                lemma_flat_cat(seq![e], split(p.skip(2), '/'));
            } else {
                assert(rest =~= e);
            }
            assert(components(p) =~= seq![Comp::Cur] + tail_components(rest));
        } else if first == seq!['.'] {
            assert(first[0] == '.');
        }
    }
}

/// The components behind a slash are that of the first segment and those behind it.
proof fn lemma_tail_first(p: Seq<char>)
    ensures
        tail_components(p) == segment_component(p.take(find_from(p, '/', 0))) + tail_components(
            p.skip(behind_slash(p)),
        ),
{
    let j = find_from(p, '/', 0);
    lemma_find_from(p, '/', 0);
    let first = p.take(j);
    lemma_rfind_is(first, '/', -1);
    lemma_split_last(first, '/');
    lemma_flat_one(first);
    if j < p.len() {
        lemma_split_cat(first, p.skip(j + 1));
        assert(first.push('/') + p.skip(j + 1) =~= p);
        lemma_flat_cat(seq![first], split(p.skip(j + 1), '/'));
    } else {
        let e = Seq::<char>::empty();
        assert(first =~= p);
        assert(p.skip(behind_slash(p)) =~= e);
        assert(split(e, '/') =~= seq![e]);
        lemma_flat_one(e);
        assert(tail_components(p) =~= segment_component(first) + tail_components(e));
    }
}

/// Segments that are no components may be taken away at the beginning.
proof fn lemma_trim_front(p: Seq<char>)
    ensures
        tail_components(trim_front(p)) == tail_components(p),
        body_start(trim_front(p)) == 0,
        trim_front(p).len() > 0 ==> !is_skipped(
            trim_front(p).take(find_from(trim_front(p), '/', 0)),
        ),
    decreases p.len(),
{
    lemma_find_from(p, '/', 0);
    let first = p.take(find_from(p, '/', 0));
    if p.len() > 0 && is_skipped(first) {
        lemma_tail_first(p);
        lemma_trim_front(p.skip(behind_slash(p)));
        assert(tail_components(p) =~= tail_components(p.skip(behind_slash(p))));
    } else if body_start(p) == 1 {
        if p[0] == '/' {
            assert(first =~= Seq::<char>::empty());
        } else {
            assert(find_from(p, '/', 0) == 1) by {
                if p.len() > 1 {
                    assert(p[1] == '/');
                }
            }
            assert(first =~= seq!['.']);
        }
    }
}

proof fn lemma_drop_segments(p: Seq<char>, k: int)
    requires
        0 <= k <= tail_components(p).len(),
    ensures
        tail_components(drop_segments(p, k)) == tail_components(p).skip(k),
    decreases k,
{
    if k == 0 {
        assert(tail_components(p).skip(0) =~= tail_components(p));
    } else {
        let t = trim_front(p);
        let e = Seq::<char>::empty();
        lemma_trim_front(p);
        lemma_tail_first(t);
        if t.len() == 0 {
            assert(t =~= e);
            assert(split(e, '/') =~= seq![e]);
            lemma_flat_one(e);
        }
        let rest = t.skip(behind_slash(t));
        assert(tail_components(p).skip(1) =~= tail_components(rest));
        lemma_drop_segments(rest, k - 1);
        assert(tail_components(p).skip(k) =~= tail_components(rest).skip(k - 1));
    }
}

/// Taking the first components away leaves the others.
pub proof fn law_drop_components(p: Seq<char>, k: int)
    requires
        0 <= k <= components(p).len(),
    ensures
        components(drop_components(p, k)) == components(p).skip(k),
{
    lemma_components(p);
    if k == 0 {
        lemma_trim_back_components(p);
        assert(components(p).skip(0) =~= components(p));
    } else {
        let rest = if body_start(p) == 1 {
            lemma_drop_segments(p.skip(1), k - 1);
            drop_segments(p.skip(1), k - 1)
        } else {
            lemma_drop_segments(p, k);
            drop_segments(p, k)
        };
        let t = trim_front(rest);
        lemma_trim_front(rest);
        lemma_components(t);
        lemma_trim_back_components(t);
        assert(trim_back(t, 0) == trim_right(t));
        assert(tail_components(rest) =~= components(p).skip(k));
    }
}

/// A path that starts with another one consists of it and of what is left when it is taken away.
pub proof fn law_strip_prefix(p: Seq<char>, base: Seq<char>)
    requires
        path_starts_with(p, base),
    ensures
        strip_path_prefix(p, base) is Some,
        components(p) == components(base) + components(strip_path_prefix(p, base)->0),
{
    let k = components(base).len() as int;
    law_drop_components(p, k);
    assert(components(p) =~= components(p).take(k) + components(p).skip(k));
}

/// Behind another path, the dot that a relative path may begin with is no component.
proof fn lemma_join_tail(p: Seq<char>, q: Seq<char>)
    requires
        p.len() > 0,
        !is_absolute(q),
    ensures
        components(path_join(p, q)) == components(p) + tail_components(q),
{
    lemma_components(p);
    lemma_no_components();
    let r = path_join(p, q);
    let start = body_start(p);
    let slash = p.last() == '/';
    let a = if slash {
        p.drop_last()
    } else {
        p
    };
    assert(r =~= a.push('/') + q);
    assert(r[0] == p[0]);
    assert(p.len() > 1 ==> r[1] == p[1]);
    assert(a.len() < start ==> r.skip(1) =~= q);
    assert(body_start(r) == start);
    lemma_components(r);
    assert(tail_components(r.skip(start)) == tail_components(p.skip(start)) + tail_components(q)) by {
        if a.len() < start {
            assert(p.skip(1) =~= Seq::<char>::empty());
            assert(tail_components(p.skip(1)) + tail_components(q) =~= tail_components(q));
        } else {
            let b = a.skip(start);
            assert(r.skip(start) =~= b.push('/') + q);
            lemma_tail_cat(b, q);
            if slash {
                assert(p.skip(start) =~= b.push('/') + Seq::<char>::empty());
                lemma_tail_cat(b, Seq::empty());
                assert(tail_components(p.skip(start)) =~= tail_components(b));
            } else {
                assert(p.skip(start) == b);
            }
        }
    }
    if start == 0 {
        assert(p.skip(0) =~= p);
        assert(r.skip(0) =~= r);
    }
    assert(components(r) =~= components(p) + tail_components(q));
}

/// The components of two paths that are joined are those of the first and those of the second, if
/// that is relative. The dot that it may begin with is none of them.
pub proof fn law_join_components(p: Seq<char>, q: Seq<char>)
    requires
        body_start(q) == 0,
    ensures
        components(path_join(p, q)) == components(p) + components(q),
{
    lemma_components(q);
    if p.len() == 0 {
        lemma_components(p);
        lemma_no_components();
        assert(path_join(p, q) =~= q);
        assert(p =~= Seq::<char>::empty());
        assert(components(p) + components(q) =~= components(q));
    } else {
        lemma_join_tail(p, q);
    }
}

/// Where a path is joined with one that begins with a dot, the dot is no component.
pub proof fn law_join_dot(p: Seq<char>, q: Seq<char>)
    requires
        p.len() > 0,
        body_start(q) == 1,
        q[0] == '.',
    ensures
        components(q).len() > 0 && components(q)[0] == Comp::Cur,
        components(path_join(p, q)) == components(p) + components(q).skip(1),
{
    let e = Seq::<char>::empty();
    let rest = q.skip(1);
    lemma_join_tail(p, q);
    lemma_components(q);
    lemma_no_components();
    lemma_find_from(q, '/', 0);
    lemma_tail_first(q);
    assert(find_from(q, '/', 0) == 1) by {
        if q.len() > 1 {
            assert(q[1] == '/');
        }
    }
    assert(q.take(1) =~= seq!['.']);
    assert(tail_components(q) =~= tail_components(q.skip(behind_slash(q))));
    if q.len() > 1 {
        assert(rest =~= e.push('/') + q.skip(2));
        lemma_tail_cat(e, q.skip(2));
        assert(tail_components(rest) =~= tail_components(q.skip(2)));
    } else {
        assert(rest =~= e);
        assert(q.skip(behind_slash(q)) =~= e);
    }
    assert(components(q).skip(1) =~= tail_components(rest));
}

/// What is taken away in front can be joined again.
pub proof fn law_strip_then_join(p: Seq<char>, base: Seq<char>)
    requires
        path_starts_with(p, base),
        components(base).len() > 0,
    ensures
        components(path_join(base, strip_path_prefix(p, base)->0)) == components(p),
{
    let k = components(base).len() as int;
    let rest = strip_path_prefix(p, base)->0;
    law_strip_prefix(p, base);
    assert(body_start(rest) == 0) by {
        let all = if body_start(p) == 1 {
            drop_segments(p.skip(1), k - 1)
        } else {
            drop_segments(p, k)
        };
        lemma_trim_front(all);
        lemma_trim_back_components(trim_front(all));
        assert(trim_back(trim_front(all), 0) == trim_right(trim_front(all)));
    }
    law_join_components(base, rest);
}

} // verus!
