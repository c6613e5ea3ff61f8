//! Unix paths as text: components, parents, file names, extensions, joining.
use crate::text::{chars_of, find_from, lemma_find_from, lemma_rfind, lemma_rfind_is, lemma_split_last, lemma_split_nonempty, lemma_split_pieces, rfind, slice, split, split_char};
use vstd::prelude::*;
use vstd::string::StringExecFns;

verus! {

// ---------------------------------------------------------------------------
// Components
// ---------------------------------------------------------------------------
/// What a path consists of.
#[verifier::ext_equal]
pub enum Comp {
    /// The slash that an absolute path begins with.
    Root,
    /// A dot at the beginning of a relative path.
    Cur,
    /// Two dots.
    Parent,
    /// A name.
    Normal(Seq<char>),
}

/// A component of a path.
#[derive(Debug)]
pub enum Component {
    RootDir,
    CurDir,
    ParentDir,
    Normal(String),
}

impl DeepView for Component {
    type V = Comp;

    open spec fn deep_view(&self) -> Comp {
        match self {
            Component::RootDir => Comp::Root,
            Component::CurDir => Comp::Cur,
            Component::ParentDir => Comp::Parent,
            Component::Normal(s) => Comp::Normal(s@),
        }
    }
}

/// Whether the path begins with a slash.
pub open spec fn is_absolute(p: Seq<char>) -> bool {
    p.len() > 0 && p[0] == '/'
}

/// A segment between two slashes that is no component: an empty one, or a single dot.
pub open spec fn is_skipped(seg: Seq<char>) -> bool {
    seg.len() == 0 || seg == seq!['.']
}

/// The components that the segments between the slashes stand for. A single dot counts only where
/// the path begins with it.
pub open spec fn segment_components(segs: Seq<Seq<char>>) -> Seq<Comp>
    decreases segs.len(),
{
    if segs.len() == 0 {
        Seq::empty()
    } else {
        let before = segment_components(segs.drop_last());
        let seg = segs.last();
        if seg == seq!['.'] && segs.len() == 1 {
            before.push(Comp::Cur)
        } else if is_skipped(seg) {
            before
        } else if seg == seq!['.', '.'] {
            before.push(Comp::Parent)
        } else {
            before.push(Comp::Normal(seg))
        }
    }
}

/// The components of a path.
pub open spec fn components(p: Seq<char>) -> Seq<Comp> {
    let rest = segment_components(split(p, '/'));
    if is_absolute(p) {
        seq![Comp::Root] + rest
    } else {
        rest
    }
}

/// Two paths with the same components are the same path.
pub open spec fn same_path(p: Seq<char>, q: Seq<char>) -> bool {
    components(p) == components(q)
}

/// The components of `base` are those that `p` begins with.
pub open spec fn path_starts_with(p: Seq<char>, base: Seq<char>) -> bool {
    components(base).len() <= components(p).len() && components(p).take(
        components(base).len() as int,
    ) == components(base)
}

/// Whether a segment is a single dot, two dots, or another one.
fn is_dots(seg: &str, n: usize) -> (r: bool)
    requires
        n == 1 || n == 2,
    ensures
        n == 1 ==> r == (seg@ == seq!['.']),
        n == 2 ==> r == (seg@ == seq!['.', '.']),
{
    let v = chars_of(seg);
    if v.len() != n {
        return false;
    }
    if n == 1 {
        if v[0] == '.' {
            assert(seg@ =~= seq!['.']);
            true
        } else {
            assert(seq!['.'][0] == '.');
            false
        }
    } else {
        if v[0] == '.' && v[1] == '.' {
            assert(seg@ =~= seq!['.', '.']);
            true
        } else {
            assert(seq!['.', '.'][0] == '.' && seq!['.', '.'][1] == '.');
            false
        }
    }
}

/// Whether the path is absolute.
pub fn has_root(p: &str) -> (r: bool)
    ensures
        r == is_absolute(p@),
{
    let v = chars_of(p);
    v.len() > 0 && v[0] == '/'
}

/// The components of a path.
pub fn components_of(p: &str) -> (r: Vec<Component>)
    ensures
        r.deep_view() == components(p@),
{
    let segs = split_char(p, '/');
    let absolute = has_root(p);
    let mut out: Vec<Component> = Vec::new();
    let ghost lead: Seq<Comp> = if absolute {
        seq![Comp::Root]
    } else {
        seq![]
    };
    if absolute {
        out.push(Component::RootDir);
    }
    let mut i: usize = 0;
    let ghost s = segs.deep_view();
    assert(out.deep_view() =~= lead + segment_components(s.take(0)));
    while i < segs.len()
        invariant
            i <= segs.len(),
            s == segs.deep_view(),
            out.deep_view() == lead + segment_components(s.take(i as int)),
        decreases segs.len() - i,
    {
        let ghost before = out.deep_view();
        let ghost seg = segs[i as int]@;
        assert(s.take(i + 1).drop_last() =~= s.take(i as int));
        assert(s.take(i + 1).last() == seg);
        if is_dots(segs[i].as_str(), 1) {
            if i == 0 {
                out.push(Component::CurDir);
                assert(out.deep_view() =~= before.push(Comp::Cur));
            }
        } else if segs[i].as_str().is_empty() {
        } else if is_dots(segs[i].as_str(), 2) {
            out.push(Component::ParentDir);
            assert(out.deep_view() =~= before.push(Comp::Parent));
        } else {
            out.push(Component::Normal(segs[i].clone()));
            assert(out.deep_view() =~= before.push(Comp::Normal(seg)));
        }
        assert(out.deep_view() =~= lead + segment_components(s.take(i + 1)));
        i += 1;
    }
    assert(s.take(segs.len() as int) =~= s);
    assert(out.deep_view() =~= components(p@));
    out
}

fn same_component(a: &Component, b: &Component) -> (r: bool)
    ensures
        r == (a.deep_view() == b.deep_view()),
{
    match (a, b) {
        (Component::RootDir, Component::RootDir) => true,
        (Component::CurDir, Component::CurDir) => true,
        (Component::ParentDir, Component::ParentDir) => true,
        (Component::Normal(s), Component::Normal(t)) => *s == *t,
        _ => false,
    }
}

/// Whether the components of `base` are those that `p` begins with.
pub fn starts_with(p: &str, base: &str) -> (r: bool)
    ensures
        r == path_starts_with(p@, base@),
{
    let pc = components_of(p);
    let bc = components_of(base);
    if bc.len() > pc.len() {
        return false;
    }
    let mut i: usize = 0;
    while i < bc.len()
        invariant
            i <= bc.len() <= pc.len(),
            pc.deep_view() == components(p@),
            bc.deep_view() == components(base@),
            forall|k: int| 0 <= k < i ==> components(p@)[k] == components(base@)[k],
        decreases bc.len() - i,
    {
        assert(pc.deep_view()[i as int] == pc[i as int].deep_view());
        assert(bc.deep_view()[i as int] == bc[i as int].deep_view());
        if !same_component(&pc[i], &bc[i]) {
            assert(components(p@).take(bc.len() as int)[i as int] != components(base@)[i as int]);
            return false;
        }
        i += 1;
    }
    assert(components(p@).take(bc.len() as int) =~= components(base@));
    true
}

/// Whether two paths have the same components.
pub fn paths_equal(p: &str, q: &str) -> (r: bool)
    ensures
        r == same_path(p@, q@),
{
    let a = components_of(p);
    let b = components_of(q);
    if a.len() != b.len() {
        assert(a.deep_view().len() != b.deep_view().len());
        return false;
    }
    let r = starts_with(p, q);
    assert(components(p@).take(components(p@).len() as int) =~= components(p@));
    r
}

// ---------------------------------------------------------------------------
// Parents and file names
// ---------------------------------------------------------------------------
/// How many characters at the beginning of the path are no part of its segments: a slash, or the
/// dot of a relative path that begins with one.
pub open spec fn body_start(p: Seq<char>) -> int {
    if p.len() > 0 && (p[0] == '/' || (p[0] == '.' && (p.len() == 1 || p[1] == '/'))) {
        1
    } else {
        0
    }
}

/// Where the last segment of the path begins.
pub open spec fn last_segment(p: Seq<char>, start: int) -> int {
    let i = rfind(p, '/');
    if i >= start {
        i + 1
    } else {
        start
    }
}

/// Where the path ends once the last segment, which begins at `k`, and the slash before it have
/// been taken away.
pub open spec fn segment_before(k: int, start: int) -> int {
    if k > start {
        k - 1
    } else {
        start
    }
}

/// The path without the segments at its end that are no components.
pub open spec fn trim_back(p: Seq<char>, start: int) -> Seq<char>
    decreases p.len(),
{
    if start < 0 || p.len() <= start {
        p
    } else {
        let k = last_segment(p, start);
        if is_skipped(p.skip(k)) {
            proof {
                lemma_rfind(p, '/');
            }
            trim_back(p.take(segment_before(k, start)), start)
        } else {
            p
        }
    }
}

/// The path up to its last component.
pub open spec fn trim_right(p: Seq<char>) -> Seq<char> {
    trim_back(p, body_start(p))
}

/// The path without its last component. A path without components, and the root, have no parent.
pub open spec fn parent(p: Seq<char>) -> Option<Seq<char>> {
    let start = body_start(p);
    let t = trim_back(p, start);
    if t.len() <= start {
        if t == seq!['.'] {
            Some(Seq::empty())
        } else {
            None
        }
    } else {
        Some(trim_back(t.take(segment_before(last_segment(t, start), start)), start))
    }
}

/// The last component of the path, where it is a name.
pub open spec fn file_name(p: Seq<char>) -> Option<Seq<char>> {
    let start = body_start(p);
    let t = trim_back(p, start);
    if t.len() <= start {
        None
    } else {
        let name = t.skip(last_segment(t, start));
        if name == seq!['.', '.'] {
            None
        } else {
            Some(name)
        }
    }
}

/// The place of the dot that separates the extension of a file name from its stem, or -1. A dot
/// at the beginning separates nothing.
pub open spec fn extension_dot(name: Seq<char>) -> int {
    if rfind(name, '.') >= 1 {
        rfind(name, '.')
    } else {
        -1
    }
}

/// The extension of the file name.
pub open spec fn extension(p: Seq<char>) -> Option<Seq<char>> {
    match file_name(p) {
        None => None,
        Some(name) => if extension_dot(name) >= 0 {
            Some(name.skip(extension_dot(name) + 1))
        } else {
            None
        },
    }
}

/// The file name without its extension.
pub open spec fn file_stem(p: Seq<char>) -> Option<Seq<char>> {
    match file_name(p) {
        None => None,
        Some(name) => if extension_dot(name) >= 0 {
            Some(name.take(extension_dot(name)))
        } else {
            Some(name)
        },
    }
}

/// `q` relative to `p`: an absolute path replaces, another one is appended behind a slash.
pub open spec fn path_join(p: Seq<char>, q: Seq<char>) -> Seq<char> {
    if is_absolute(q) {
        q
    } else if p.len() > 0 && p.last() != '/' {
        p.push('/') + q
    } else {
        p + q
    }
}

/// The path with another file name: in place of the one it has, or behind it where it has none.
pub open spec fn with_file_name(p: Seq<char>, name: Seq<char>) -> Seq<char> {
    match (file_name(p), parent(p)) {
        (Some(_), Some(dir)) => path_join(dir, name),
        _ => path_join(p, name),
    }
}

/// The path up to the end of its file stem, a dot and the extension (no dot where that is empty).
/// A path without a file name stays as it is.
pub open spec fn extended(p: Seq<char>, ext: Seq<char>) -> Seq<char> {
    let start = body_start(p);
    let t = trim_back(p, start);
    match file_stem(p) {
        None => p,
        Some(stem) => {
            let base = t.take(last_segment(t, start) + stem.len());
            if ext.len() == 0 {
                base
            } else {
                base.push('.') + ext
            }
        },
    }
}

/// The path with another extension. The one it has is taken away first, so a file name of which only
/// two dots are left becomes the parent directory, and stays that.
pub open spec fn with_extension(p: Seq<char>, ext: Seq<char>) -> Seq<char> {
    match extension(p) {
        Some(e) => extended(p.take(p.len() - e.len()), ext),
        None => extended(p, ext),
    }
}

/// `trim_back` only takes characters away, at the end.
pub proof fn lemma_trim_back(p: Seq<char>, start: int)
    requires
        0 <= start,
    ensures
        trim_back(p, start).len() <= p.len(),
        trim_back(p, start) == p.take(trim_back(p, start).len() as int),
        start <= p.len() ==> start <= trim_back(p, start).len(),
    decreases p.len(),
{
    if p.len() > start {
        let k = last_segment(p, start);
        lemma_rfind(p, '/');
        if is_skipped(p.skip(k)) {
            let q = p.take(segment_before(k, start));
            lemma_trim_back(q, start);
            assert(trim_back(p, start) =~= p.take(trim_back(p, start).len() as int));
        } else {
            assert(p =~= p.take(p.len() as int));
        }
    } else {
        assert(p =~= p.take(p.len() as int));
    }
}

/// The component that a segment behind a slash stands for, where it stands for one.
pub open spec fn segment_component(seg: Seq<char>) -> Seq<Comp> {
    if is_skipped(seg) {
        Seq::empty()
    } else if seg == seq!['.', '.'] {
        seq![Comp::Parent]
    } else {
        seq![Comp::Normal(seg)]
    }
}

/// The components of a path are those before its last slash and that of its last segment.
pub proof fn lemma_components_last(p: Seq<char>)
    requires
        p.len() > body_start(p),
    ensures
        ({
            let start = body_start(p);
            let k = last_segment(p, start);
            let q = p.take(segment_before(k, start));
            &&& start <= k <= p.len()
            &&& body_start(q) == start
            &&& components(p) == components(q) + segment_component(p.skip(k))
        }),
{
    let start = body_start(p);
    let i = rfind(p, '/');
    lemma_rfind(p, '/');
    lemma_split_last(p, '/');
    let k = last_segment(p, start);
    let q = p.take(segment_before(k, start));
    if i >= start {
        assert(q =~= p.take(i));
        let segs = split(p, '/');
        assert(segs.drop_last() =~= split(q, '/'));
        assert(segs.last() =~= p.skip(i + 1));
        lemma_split_nonempty(q, '/');
        assert(components(p) =~= components(q) + segment_component(p.skip(k)));
    } else if start == 1 {
        assert(i == 0 || p[0] == '.');
        if p[0] == '.' {
            assert(p[1] == '/');
            assert(false);
        }
        assert(q =~= seq!['/']);
        lemma_rfind_is(q, '/', 0);
        lemma_split_last(q, '/');
        assert(q.take(0) =~= Seq::<char>::empty());
        assert(p.take(0) =~= Seq::<char>::empty());
        assert(q.skip(1) =~= Seq::<char>::empty());
        let e = split(Seq::<char>::empty(), '/');
        assert(e =~= seq![Seq::<char>::empty()]);
        assert(split(q, '/') =~= e.push(Seq::empty()));
        assert(split(q, '/').drop_last() =~= e);
        assert(split(p, '/') =~= e.push(p.skip(1)));
        assert(split(p, '/').drop_last() =~= e);
        assert(e.drop_last() =~= Seq::<Seq<char>>::empty());
        assert(components(p) =~= components(q) + segment_component(p.skip(k)));
    } else {
        assert(q =~= Seq::<char>::empty());
        assert(p.skip(0) =~= p);
        assert(split(p, '/') =~= seq![p]);
        assert(seq![p].drop_last() =~= Seq::<Seq<char>>::empty());
        assert(split(q, '/') =~= seq![q]);
        assert(seq![q].drop_last() =~= Seq::<Seq<char>>::empty());
        if p == seq!['.'] {
            assert(p[0] == '.');
            assert(false);
        }
        assert(components(p) =~= components(q) + segment_component(p.skip(k)));
    }
}

/// Taking segments away that are no components changes no component.
pub proof fn lemma_trim_back_components(p: Seq<char>)
    ensures
        components(trim_right(p)) == components(p),
        body_start(trim_right(p)) == body_start(p),
        trim_right(p).len() > body_start(p) ==> !is_skipped(
            trim_right(p).skip(last_segment(trim_right(p), body_start(p))),
        ),
    decreases p.len(),
{
    let start = body_start(p);
    if p.len() > start {
        lemma_components_last(p);
        let k = last_segment(p, start);
        if is_skipped(p.skip(k)) {
            let q = p.take(segment_before(k, start));
            lemma_trim_back_components(q);
            assert(components(p) =~= components(q));
        }
    }
}

/// The components of a path that is all lead: the root, the dot, or none.
pub proof fn lemma_components_lead(p: Seq<char>)
    requires
        p.len() <= body_start(p),
    ensures
        p.len() == 0 ==> components(p) == Seq::<Comp>::empty(),
        p.len() == 1 && p[0] == '/' ==> components(p) == seq![Comp::Root],
        p.len() == 1 && p[0] == '.' ==> components(p) == seq![Comp::Cur],
{
    reveal_with_fuel(segment_components, 3);
    lemma_rfind(p, '/');
    lemma_split_last(p, '/');
    let e = Seq::<char>::empty();
    assert(split(e, '/') =~= seq![e]);
    assert(seq![e].drop_last() =~= Seq::<Seq<char>>::empty());
    if p.len() == 0 {
        assert(p =~= e);
        assert(components(p) =~= Seq::<Comp>::empty());
    } else if p[0] == '/' {
        lemma_rfind_is(p, '/', 0);
        assert(p.take(0) =~= e);
        assert(p.skip(1) =~= e);
        assert(split(p, '/') =~= seq![e].push(e));
        assert(split(p, '/').drop_last() =~= seq![e]);
        assert(components(p) =~= seq![Comp::Root]);
    } else {
        lemma_rfind_is(p, '/', -1);
        assert(p =~= seq!['.']);
        assert(seq![p].drop_last() =~= Seq::<Seq<char>>::empty());
        assert(components(p) =~= seq![Comp::Cur]);
    }
}

/// The parent of a path has all its components but the last. A path has no parent if it has no
/// components, or only the root.
pub proof fn law_parent_components(p: Seq<char>)
    ensures
        parent(p) is None <==> (components(p).len() == 0 || components(p) == seq![Comp::Root]),
        parent(p) is Some ==> components(p).len() > 0 && components(parent(p)->0) == components(
            p,
        ).drop_last(),
        parent(p) is Some ==> parent(p)->0.len() < p.len(),
{
    let start = body_start(p);
    let t = trim_right(p);
    lemma_trim_back(p, start);
    lemma_trim_back_components(p);
    if t.len() <= start {
        lemma_components_lead(t);
        if t.len() == 1 {
            if t[0] == '.' {
                assert(t =~= seq!['.']);
                assert(components(t).drop_last() =~= Seq::<Comp>::empty());
                lemma_components_lead(Seq::<char>::empty());
                assert(components(p)[0] != seq![Comp::Root][0]);
            }
        }
        if t == seq!['.'] {
            assert(t[0] == '.');
        }
    } else {
        lemma_components_last(t);
        let k = last_segment(t, start);
        let q = t.take(segment_before(k, start));
        lemma_trim_back_components(q);
        lemma_trim_back(q, start);
        let c = segment_component(t.skip(k));
        assert(c.len() == 1 && c[0] != Comp::Root);
        assert(components(p).drop_last() =~= components(q));
        assert(components(p).last() == c[0]);
        if components(p) == seq![Comp::Root] {
            assert(components(p).last() == Comp::Root);
        }
    }
}

/// The file name is the last component.
pub proof fn law_file_name_component(p: Seq<char>)
    ensures
        file_name(p) is Some <==> components(p).len() > 0 && components(p).last() is Normal,
        file_name(p) is Some ==> components(p).last() == Comp::Normal(file_name(p)->0),
{
    let start = body_start(p);
    let t = trim_right(p);
    lemma_trim_back(p, start);
    lemma_trim_back_components(p);
    if t.len() <= start {
        lemma_components_lead(t);
        if components(t).len() > 0 {
            assert(components(t).len() == 1);
            assert(components(t).last() == components(t)[0]);
        }
    } else {
        lemma_components_last(t);
        let k = last_segment(t, start);
        let c = segment_component(t.skip(k));
        assert(components(p).last() == c[0]);
    }
}

/// Whether a text can be a name in a path: it is neither empty nor dots, and holds no slash.
pub open spec fn is_name(n: Seq<char>) -> bool {
    !is_skipped(n) && n != seq!['.', '.'] && !n.contains('/')
}

/// The names that a path holds are names.
pub proof fn lemma_component_names(p: Seq<char>)
    ensures
        forall|i: int|
            0 <= i < components(p).len() ==> ((#[trigger] components(p)[i]) matches Comp::Normal(n)
                ==> is_name(n)),
        forall|i: int| 1 <= i < components(p).len() ==> !(#[trigger] components(p)[i] is Root),
{
    lemma_split_pieces(p, '/');
    lemma_segment_names(split(p, '/'));
    let rest = segment_components(split(p, '/'));
    if is_absolute(p) {
        assert forall|i: int| 0 <= i < components(p).len() implies ((
        #[trigger] components(p)[i]) matches Comp::Normal(n) ==> is_name(n)) && (i >= 1 ==> !(
        components(p)[i] is Root)) by {
            if i > 0 {
                assert(components(p)[i] == rest[i - 1]);
            }
        }
    }
}

proof fn lemma_segment_names(segs: Seq<Seq<char>>)
    requires
        forall|i: int| 0 <= i < segs.len() ==> !(#[trigger] segs[i]).contains('/'),
    ensures
        forall|i: int|
            0 <= i < segment_components(segs).len() ==> !(#[trigger] segment_components(
                segs,
            )[i] is Root),
        forall|i: int|
            0 <= i < segment_components(segs).len() ==> ((#[trigger] segment_components(
                segs,
            )[i]) matches Comp::Normal(n) ==> is_name(n)),
    decreases segs.len(),
{
    if segs.len() > 0 {
        lemma_segment_names(segs.drop_last());
        assert(!segs[segs.len() - 1].contains('/'));
    }
}

/// Behind a slash, a name is one more component.
pub proof fn lemma_components_name(q: Seq<char>, name: Seq<char>)
    requires
        is_name(name),
    ensures
        components(q.push('/') + name) == components(if q.len() == 0 {
            seq!['/']
        } else {
            q
        }).push(Comp::Normal(name)),
{
    let s = q.push('/') + name;
    assert(s[q.len() as int] == '/');
    assert forall|k: int| q.len() < k < s.len() implies s[k] != '/' by {
        assert(s[k] == name[k - q.len() - 1]);
    }
    lemma_rfind_is(s, '/', q.len() as int);
    assert(s.len() > body_start(s));
    lemma_components_last(s);
    let start = body_start(s);
    let k = last_segment(s, start);
    assert(s.skip(q.len() as int + 1) =~= name);
    assert(segment_component(name) == seq![Comp::Normal(name)]);
    if q.len() == 0 {
        assert(start == 1);
        assert(s.take(1) =~= seq!['/']);
    } else {
        assert(s.take(q.len() as int) =~= q);
    }
    assert(components(s) =~= components(s.take(segment_before(k, start))).push(
        Comp::Normal(name),
    ));
}

/// A name alone is one component.
pub proof fn lemma_components_single(name: Seq<char>)
    requires
        is_name(name),
    ensures
        components(name) == seq![Comp::Normal(name)],
{
    assert forall|k: int| 0 <= k < name.len() implies name[k] != '/' by {}
    lemma_rfind_is(name, '/', -1);
    if body_start(name) == 1 {
        if name.len() == 1 {
            assert(name =~= seq!['.']);
        } else {
            assert(name[1] == '/');
        }
    }
    lemma_components_last(name);
    assert(name.skip(0) =~= name);
    assert(name.take(0) =~= Seq::<char>::empty());
    lemma_components_lead(Seq::<char>::empty());
    assert(components(name) =~= seq![Comp::Normal(name)]);
}

/// A slash behind a component is no component.
pub proof fn lemma_components_slash(q: Seq<char>)
    requires
        q.len() > 0,
    ensures
        components(q.push('/')) == components(q),
{
    let s = q.push('/');
    lemma_rfind_is(s, '/', q.len() as int);
    assert(s.len() > body_start(s));
    lemma_components_last(s);
    assert(s.skip(q.len() as int + 1) =~= Seq::<char>::empty());
    assert(s.take(q.len() as int) =~= q);
    assert(components(s) =~= components(q));
}

fn body_start_of(v: &Vec<char>) -> (r: usize)
    ensures
        r == body_start(v@),
        r <= v.len(),
{
    if v.len() > 0 && (v[0] == '/' || (v[0] == '.' && (v.len() == 1 || v[1] == '/'))) {
        1
    } else {
        0
    }
}

/// Where the last segment of the first `n` characters begins.
fn last_segment_of(v: &Vec<char>, n: usize, start: usize) -> (k: usize)
    requires
        start <= n <= v.len(),
    ensures
        k == last_segment(v@.take(n as int), start as int),
        start <= k <= n,
{
    let ghost p = v@.take(n as int);
    let mut i: usize = n;
    while i > start && v[i - 1] != '/'
        invariant
            start <= i <= n <= v.len(),
            p == v@.take(n as int),
            forall|j: int| i <= j < n ==> v@[j] != '/',
        decreases i,
    {
        i -= 1;
    }
    proof {
        lemma_rfind(p, '/');
        if i > start {
            lemma_rfind_is(p, '/', i - 1);
        } else {
            if rfind(p, '/') >= start {
                assert(v@[rfind(p, '/')] == p[rfind(p, '/')]);
            }
        }
    }
    i
}

fn skipped(v: &Vec<char>, from: usize, to: usize) -> (r: bool)
    requires
        from <= to <= v.len(),
    ensures
        r == is_skipped(v@.subrange(from as int, to as int)),
{
    let ghost seg = v@.subrange(from as int, to as int);
    if from == to {
        true
    } else if to - from == 1 && v[from] == '.' {
        assert(seg =~= seq!['.']);
        true
    } else {
        proof {
            if seg == seq!['.'] {
                assert(seg.len() == 1);
                assert(seg[0] == v@[from as int]);
            }
        }
        false
    }
}

/// How long the first `n` characters are without the segments at their end that are no
/// components.
fn trim_back_len(v: &Vec<char>, n: usize, start: usize) -> (m: usize)
    requires
        start <= n <= v.len(),
    ensures
        v@.take(m as int) == trim_back(v@.take(n as int), start as int),
        start <= m <= n,
{
    let mut m: usize = n;
    while m > start
        invariant
            start <= m <= n <= v.len(),
            trim_back(v@.take(n as int), start as int) == trim_back(v@.take(m as int), start as int),
        ensures
            start <= m <= n,
            v@.take(m as int) == trim_back(v@.take(n as int), start as int),
        decreases m,
    {
        let k = last_segment_of(v, m, start);
        let ghost p = v@.take(m as int);
        assert(p.skip(k as int) =~= v@.subrange(k as int, m as int));
        if !skipped(v, k, m) {
            break;
        }
        let next: usize = if k > start {
            k - 1
        } else {
            start
        };
        assert(p.take(next as int) =~= v@.take(next as int));
        m = next;
    }
    m
}

/// The path without its last component.
pub fn parent_of(p: &str) -> (r: Option<String>)
    ensures
        r.deep_view() == parent(p@),
{
    let v = chars_of(p);
    let start = body_start_of(&v);
    assert(v@.take(v.len() as int) =~= p@);
    let n = trim_back_len(&v, v.len(), start);
    let ghost t = trim_back(p@, start as int);
    if n <= start {
        if n == 1 && v[0] == '.' {
            assert(t =~= seq!['.']);
            let r = Some(String::new());
            assert(r.deep_view() == Some(Seq::<char>::empty()));
            r
        } else {
            proof {
                if t == seq!['.'] {
                    assert(t.len() == 1);
                    assert(t[0] == v@[0]);
                }
            }
            None
        }
    } else {
        let k = last_segment_of(&v, n, start);
        let end: usize = if k > start {
            k - 1
        } else {
            start
        };
        assert(t.take(end as int) =~= v@.take(end as int));
        let m = trim_back_len(&v, end, start);
        let r = slice(&v, 0, m);
        assert(r@ =~= v@.take(m as int));
        Some(r)
    }
}

/// Where the file name of the path begins and ends.
fn file_name_range(v: &Vec<char>) -> (r: Option<(usize, usize)>)
    ensures
        r is Some == file_name(v@) is Some,
        r is Some ==> {
            &&& (r->0).0 <= (r->0).1 <= v.len()
            &&& file_name(v@) == Some(v@.subrange((r->0).0 as int, (r->0).1 as int))
            &&& v@.take((r->0).1 as int) == trim_back(v@, body_start(v@))
            &&& (r->0).0 == last_segment(trim_back(v@, body_start(v@)), body_start(v@))
        },
{
    let start = body_start_of(v);
    assert(v@.take(v.len() as int) =~= v@);
    let n = trim_back_len(v, v.len(), start);
    let ghost t = trim_back(v@, start as int);
    if n <= start {
        return None;
    }
    let k = last_segment_of(v, n, start);
    let ghost name = t.skip(k as int);
    assert(name =~= v@.subrange(k as int, n as int));
    if n - k == 2 && v[k] == '.' && v[k + 1] == '.' {
        assert(name =~= seq!['.', '.']);
        None
    } else {
        proof {
            if name == seq!['.', '.'] {
                assert(name.len() == 2);
                assert(name[0] == v@[k as int] && name[1] == v@[k + 1]);
            }
        }
        Some((k, n))
    }
}

/// The last component of the path, where it is a name.
pub fn file_name_of(p: &str) -> (r: Option<String>)
    ensures
        r.deep_view() == file_name(p@),
{
    let v = chars_of(p);
    match file_name_range(&v) {
        Some((from, to)) => Some(slice(&v, from, to)),
        None => None,
    }
}

/// Where the stem of the file name ends.
fn stem_end(v: &Vec<char>, from: usize, to: usize) -> (r: Option<usize>)
    requires
        from <= to <= v.len(),
    ensures
        r is Some ==> from < r->0 < to && r->0 - from == extension_dot(
            v@.subrange(from as int, to as int),
        ),
        r is None ==> extension_dot(v@.subrange(from as int, to as int)) == -1,
{
    let ghost name = v@.subrange(from as int, to as int);
    let mut i: usize = to;
    while i > from
        invariant
            from <= i <= to <= v.len(),
            name == v@.subrange(from as int, to as int),
            forall|j: int| i - from <= j < name.len() ==> name[j] != '.',
        decreases i,
    {
        i -= 1;
        if v[i] == '.' {
            proof {
                lemma_rfind_is(name, '.', i - from);
            }
            if i > from {
                return Some(i);
            }
            return None;
        }
    }
    proof {
        lemma_rfind_is(name, '.', -1);
    }
    None
}

/// The extension of the file name.
pub fn extension_of(p: &str) -> (r: Option<String>)
    ensures
        r.deep_view() == extension(p@),
{
    let v = chars_of(p);
    match file_name_range(&v) {
        None => None,
        Some((from, to)) => match stem_end(&v, from, to) {
            None => None,
            Some(dot) => {
                let s = slice(&v, dot + 1, to);
                assert(s@ =~= v@.subrange(from as int, to as int).skip(dot - from + 1));
                Some(s)
            },
        },
    }
}

/// The file name without its extension.
pub fn file_stem_of(p: &str) -> (r: Option<String>)
    ensures
        r.deep_view() == file_stem(p@),
{
    let v = chars_of(p);
    match file_name_range(&v) {
        None => None,
        Some((from, to)) => match stem_end(&v, from, to) {
            None => Some(slice(&v, from, to)),
            Some(dot) => {
                let s = slice(&v, from, dot);
                assert(s@ =~= v@.subrange(from as int, to as int).take(dot - from));
                Some(s)
            },
        },
    }
}

/// `q` relative to `p`.
pub fn join(p: &str, q: &str) -> (r: String)
    ensures
        r@ == path_join(p@, q@),
{
    if has_root(q) {
        return q.to_owned();
    }
    let v = chars_of(p);
    let mut s = p.to_owned();
    if v.len() > 0 && v[v.len() - 1] != '/' {
        s.push('/');
    }
    s.append(q);
    s
}

/// The path with another file name.
pub fn replace_file_name(p: &str, name: &str) -> (r: String)
    ensures
        r@ == with_file_name(p@, name@),
{
    match (file_name_of(p), parent_of(p)) {
        (Some(_), Some(dir)) => join(dir.as_str(), name),
        _ => join(p, name),
    }
}

/// The path with another extension.
pub fn replace_extension(p: &str, ext: &str) -> (r: String)
    ensures
        r@ == with_extension(p@, ext@),
{
    match extension_of(p) {
        Some(e) => {
            let v = chars_of(p);
            let n: usize = chars_of(e.as_str()).len();
            proof {
                lemma_trim_back(p@, body_start(p@));
                let t = trim_back(p@, body_start(p@));
                crate::text::lemma_rfind(t, '/');
                let name = file_name(p@)->0;
                crate::text::lemma_rfind(name, '.');
                assert(e@ == name.skip(extension_dot(name) + 1));
            }
            let rest = slice(&v, 0, v.len() - n);
            assert(rest@ =~= p@.take(p@.len() - e@.len()));
            extend_path(rest.as_str(), ext)
        },
        None => extend_path(p, ext),
    }
}

fn extend_path(p: &str, ext: &str) -> (r: String)
    ensures
        r@ == extended(p@, ext@),
{
    let v = chars_of(p);
    match file_name_range(&v) {
        None => p.to_owned(),
        Some((from, to)) => {
            let end: usize = match stem_end(&v, from, to) {
                None => to,
                Some(dot) => dot,
            };
            let mut s = slice(&v, 0, end);
            proof {
                let t = trim_back(p@, body_start(p@));
                assert(file_stem(p@) is Some);
                assert(file_stem(p@)->0.len() == end - from);
                assert(s@ =~= t.take(end as int));
            }
            if !ext.is_empty() {
                s.push('.');
                s.append(ext);
            }
            s
        },
    }
}

// ---------------------------------------------------------------------------
// Taking a prefix away
// ---------------------------------------------------------------------------
/// Behind the first slash, or behind everything where there is none.
pub open spec fn behind_slash(p: Seq<char>) -> int {
    let j = find_from(p, '/', 0);
    if j < p.len() {
        j + 1
    } else {
        p.len() as int
    }
}

/// The path without the segments at its beginning that are no components.
pub open spec fn trim_front(p: Seq<char>) -> Seq<char>
    decreases p.len(),
{
    if p.len() > 0 && is_skipped(p.take(find_from(p, '/', 0))) {
        proof {
            lemma_find_from(p, '/', 0);
        }
        trim_front(p.skip(behind_slash(p)))
    } else {
        p
    }
}

/// What is left of the segments when the first `k` components are gone.
pub open spec fn drop_segments(p: Seq<char>, k: int) -> Seq<char>
    decreases k,
{
    if k <= 0 {
        p
    } else {
        let t = trim_front(p);
        drop_segments(t.skip(behind_slash(t)), k - 1)
    }
}

/// What is left of a path when its first `k` components are gone.
pub open spec fn drop_components(p: Seq<char>, k: int) -> Seq<char> {
    if k <= 0 {
        trim_right(p)
    } else {
        let rest = if body_start(p) == 1 {
            drop_segments(p.skip(1), k - 1)
        } else {
            drop_segments(p, k)
        };
        trim_back(trim_front(rest), 0)
    }
}

/// The path relative to `base`, where it starts with the components of `base`.
pub open spec fn strip_path_prefix(p: Seq<char>, base: Seq<char>) -> Option<Seq<char>> {
    if path_starts_with(p, base) {
        Some(drop_components(p, components(base).len() as int))
    } else {
        None
    }
}

fn behind_slash_from(v: &Vec<char>, from: usize) -> (r: usize)
    requires
        from <= v.len(),
    ensures
        r == from + behind_slash(v@.skip(from as int)),
        from <= r <= v.len(),
        from < v.len() ==> from < r,
{
    let j = find_slash(v, from);
    if j < v.len() {
        j + 1
    } else {
        j
    }
}

fn find_slash(v: &Vec<char>, from: usize) -> (j: usize)
    requires
        from <= v.len(),
    ensures
        from <= j <= v.len(),
        j == from + find_from(v@.skip(from as int), '/', 0),
{
    let ghost p = v@.skip(from as int);
    let mut j: usize = from;
    while j < v.len() && v[j] != '/'
        invariant
            from <= j <= v.len(),
            p == v@.skip(from as int),
            find_from(p, '/', 0) == find_from(p, '/', j - from),
        decreases v.len() - j,
    {
        assert(p[j - from] == v@[j as int]);
        j += 1;
    }
    proof {
        if j < v.len() {
            assert(p[j - from] == v@[j as int]);
        }
    }
    j
}

fn trim_front_from(v: &Vec<char>, from: usize) -> (r: usize)
    requires
        from <= v.len(),
    ensures
        from <= r <= v.len(),
        v@.skip(r as int) == trim_front(v@.skip(from as int)),
{
    let mut i: usize = from;
    while i < v.len()
        invariant
            from <= i <= v.len(),
            trim_front(v@.skip(from as int)) == trim_front(v@.skip(i as int)),
        ensures
            from <= i <= v.len(),
            v@.skip(i as int) == trim_front(v@.skip(from as int)),
        decreases v.len() - i,
    {
        let j = find_slash(v, i);
        let ghost p = v@.skip(i as int);
        assert(p.take(j - i) =~= v@.subrange(i as int, j as int));
        if !skipped(v, i, j) {
            break;
        }
        let next = behind_slash_from(v, i);
        assert(p.skip(next - i) =~= v@.skip(next as int));
        i = next;
    }
    i
}

fn drop_segments_from(v: &Vec<char>, from: usize, k: usize) -> (r: usize)
    requires
        from <= v.len(),
    ensures
        from <= r <= v.len(),
        v@.skip(r as int) == drop_segments(v@.skip(from as int), k as int),
{
    let mut i: usize = from;
    let mut left: usize = k;
    while left > 0
        invariant
            from <= i <= v.len(),
            drop_segments(v@.skip(from as int), k as int) == drop_segments(
                v@.skip(i as int),
                left as int,
            ),
        decreases left,
    {
        let t = trim_front_from(v, i);
        let next = behind_slash_from(v, t);
        assert(v@.skip(t as int).skip(next - t) =~= v@.skip(next as int));
        i = next;
        left -= 1;
    }
    i
}

/// The path relative to `base`, where it starts with the components of `base`.
pub fn strip_prefix(p: &str, base: &str) -> (r: Option<String>)
    ensures
        r.deep_view() == strip_path_prefix(p@, base@),
{
    if !starts_with(p, base) {
        return None;
    }
    let k: usize = components_of(base).len();
    let v = chars_of(p);
    let start = body_start_of(&v);
    assert(v@.skip(0) =~= p@);
    assert(v@.take(v.len() as int) =~= p@);
    if k == 0 {
        let n = trim_back_len(&v, v.len(), start);
        let s = slice(&v, 0, n);
        assert(s@ =~= v@.take(n as int));
        return Some(s);
    }
    let i = if start == 1 {
        drop_segments_from(&v, 1, k - 1)
    } else {
        drop_segments_from(&v, 0, k)
    };
    let f = trim_front_from(&v, i);
    let rest = slice(&v, f, v.len());
    let w = chars_of(rest.as_str());
    assert(w@ =~= v@.skip(f as int));
    assert(w@.take(w.len() as int) =~= w@);
    let n = trim_back_len(&w, w.len(), 0);
    let s = slice(&w, 0, n);
    assert(s@ =~= w@.take(n as int));
    Some(s)
}

} // verus!
