//! Text as sequences of characters: splitting, joining, trimming, searching.
use vstd::prelude::*;
use vstd::string::StringExecFns;

verus! {

broadcast use vstd::seq_lib::group_seq_properties;

/// `String::push` appends the given character to the end of the string.
pub assume_specification[ std::string::String::push ](s: &mut String, c: char)
    ensures
        final(s)@ == old(s)@.push(c),
;

/// The characters of a string, in order.
pub fn chars_of(s: &str) -> (v: Vec<char>)
    ensures
        v@ == s@,
{
    let mut v: Vec<char> = Vec::new();
    for c in it: s.chars()
        invariant
            it.seq() == s@,
            v@ == s@.take(it.index()),
    {
        v.push(c);
    }
    v
}

/// Whether two strings hold the same characters.
pub fn same(a: &str, b: &str) -> (r: bool)
    ensures
        r == (a@ == b@),
{
    a.to_owned() == b.to_owned()
}

/// The characters of `v` from `from` (inclusive) to `to` (exclusive), as a string.
pub fn slice(v: &Vec<char>, from: usize, to: usize) -> (s: String)
    requires
        from <= to <= v.len(),
    ensures
        s@ == v@.subrange(from as int, to as int),
{
    let mut s = String::new();
    let mut i: usize = from;
    while i < to
        invariant
            from <= i <= to <= v.len(),
            s@ == v@.subrange(from as int, i as int),
        decreases to - i,
    {
        s.push(v[i]);
        i += 1;
    }
    s
}

/// Two strings, one after the other.
pub fn cat(a: &str, b: &str) -> (s: String)
    ensures
        s@ == a@ + b@,
{
    let mut s = a.to_owned();
    s.append(b);
    s
}

/// Three strings, one after the other.
pub fn cat3(a: &str, b: &str, c: &str) -> (s: String)
    ensures
        s@ == a@ + b@ + c@,
{
    let mut s = a.to_owned();
    s.append(b);
    s.append(c);
    s
}

/// Four strings, one after the other.
pub fn cat4(a: &str, b: &str, c: &str, d: &str) -> (s: String)
    ensures
        s@ == a@ + b@ + c@ + d@,
{
    let mut s = cat3(a, b, c);
    s.append(d);
    s
}

/// Five strings, one after the other.
pub fn cat5(a: &str, b: &str, c: &str, d: &str, e: &str) -> (s: String)
    ensures
        s@ == a@ + b@ + c@ + d@ + e@,
{
    let mut s = cat4(a, b, c, d);
    s.append(e);
    s
}

// ---------------------------------------------------------------------------
// Prefixes, suffixes, searching
// ---------------------------------------------------------------------------
/// `p` is how `s` begins.
pub open spec fn has_prefix(s: Seq<char>, p: Seq<char>) -> bool {
    p.len() <= s.len() && s.take(p.len() as int) == p
}

/// `p` is how `s` ends.
pub open spec fn has_suffix(s: Seq<char>, p: Seq<char>) -> bool {
    p.len() <= s.len() && s.skip(s.len() - p.len()) == p
}

/// `p` stands in `s` at position `i`.
pub open spec fn occurs_at(s: Seq<char>, p: Seq<char>, i: int) -> bool {
    0 <= i && i + p.len() <= s.len() && s.subrange(i, i + p.len()) == p
}

/// The first position from `i` on where `c` stands in `s`, or the length of `s`.
pub open spec fn find_from(s: Seq<char>, c: char, i: int) -> int
    decreases s.len() - i,
{
    if i < 0 || i >= s.len() {
        s.len() as int
    } else if s[i] == c {
        i
    } else {
        find_from(s, c, i + 1)
    }
}

/// The last position where `c` stands in `s`, or -1.
pub open spec fn rfind(s: Seq<char>, c: char) -> int
    decreases s.len(),
{
    if s.len() == 0 {
        -1
    } else if s.last() == c {
        s.len() - 1
    } else {
        rfind(s.drop_last(), c)
    }
}

pub proof fn lemma_find_from(s: Seq<char>, c: char, i: int)
    requires
        0 <= i <= s.len(),
    ensures
        i <= find_from(s, c, i) <= s.len(),
        find_from(s, c, i) < s.len() ==> s[find_from(s, c, i)] == c,
        forall|k: int| i <= k < find_from(s, c, i) ==> s[k] != c,
    decreases s.len() - i,
{
    if i < s.len() && s[i] != c {
        lemma_find_from(s, c, i + 1);
    }
}

pub proof fn lemma_rfind(s: Seq<char>, c: char)
    ensures
        -1 <= rfind(s, c) < s.len(),
        rfind(s, c) >= 0 ==> s[rfind(s, c)] == c,
        forall|k: int| rfind(s, c) < k < s.len() ==> s[k] != c,
    decreases s.len(),
{
    if s.len() > 0 && s.last() != c {
        let t = s.drop_last();
        lemma_rfind(t, c);
        assert forall|k: int| rfind(s, c) < k < s.len() implies s[k] != c by {
            if k < t.len() {
                assert(t[k] == s[k]);
            }
        }
    }
}

/// A position behind which `c` does not stand, and at which it does, is the last one.
pub proof fn lemma_rfind_is(s: Seq<char>, c: char, i: int)
    requires
        -1 <= i < s.len(),
        i >= 0 ==> s[i] == c,
        forall|k: int| i < k < s.len() ==> s[k] != c,
    ensures
        rfind(s, c) == i,
{
    lemma_rfind(s, c);
}

pub fn starts_with(s: &str, p: &str) -> (r: bool)
    ensures
        r == has_prefix(s@, p@),
{
    let sv = chars_of(s);
    let pv = chars_of(p);
    if pv.len() > sv.len() {
        return false;
    }
    let mut i: usize = 0;
    while i < pv.len()
        invariant
            sv@ == s@,
            pv@ == p@,
            i <= pv.len() <= sv.len(),
            forall|k: int| 0 <= k < i ==> s@[k] == p@[k],
        decreases pv.len() - i,
    {
        if sv[i] != pv[i] {
            assert(s@.take(p@.len() as int)[i as int] != p@[i as int]);
            return false;
        }
        i += 1;
    }
    assert(s@.take(p@.len() as int) =~= p@);
    true
}

pub fn ends_with(s: &str, p: &str) -> (r: bool)
    ensures
        r == has_suffix(s@, p@),
{
    let sv = chars_of(s);
    let pv = chars_of(p);
    if pv.len() > sv.len() {
        return false;
    }
    let d: usize = sv.len() - pv.len();
    let mut i: usize = 0;
    while i < pv.len()
        invariant
            sv@ == s@,
            pv@ == p@,
            i <= pv.len() <= sv.len(),
            d == sv.len() - pv.len(),
            forall|k: int| 0 <= k < i ==> s@[k + d] == p@[k],
        decreases pv.len() - i,
    {
        if sv[i + d] != pv[i] {
            assert(s@.skip(d as int)[i as int] != p@[i as int]);
            return false;
        }
        i += 1;
    }
    assert(s@.skip(d as int) =~= p@);
    true
}

pub fn contains_char(s: &str, c: char) -> (r: bool)
    ensures
        r == s@.contains(c),
{
    let v = chars_of(s);
    let mut i: usize = 0;
    while i < v.len()
        invariant
            v@ == s@,
            i <= v.len(),
            forall|k: int| 0 <= k < i ==> s@[k] != c,
        decreases v.len() - i,
    {
        if v[i] == c {
            assert(s@[i as int] == c);
            return true;
        }
        i += 1;
    }
    false
}

/// The first position from `from` on at which `c` stands, or the length.
pub fn index_from(v: &Vec<char>, c: char, from: usize) -> (r: usize)
    requires
        from <= v.len(),
    ensures
        r == find_from(v@, c, from as int),
        from <= r <= v.len(),
{
    let mut i: usize = from;
    while i < v.len()
        invariant
            from <= i <= v.len(),
            find_from(v@, c, from as int) == find_from(v@, c, i as int),
        decreases v.len() - i,
    {
        if v[i] == c {
            return i;
        }
        i += 1;
    }
    i
}

/// What follows the prefix, where there is one.
pub fn strip_prefix(s: &str, p: &str) -> (r: Option<String>)
    ensures
        r is Some == has_prefix(s@, p@),
        r is Some ==> r->0@ == s@.skip(p@.len() as int),
{
    if starts_with(s, p) {
        let sv = chars_of(s);
        let n: usize = chars_of(p).len();
        Some(slice(&sv, n, sv.len()))
    } else {
        None
    }
}

/// What precedes the suffix, where there is one.
pub fn strip_suffix(s: &str, p: &str) -> (r: Option<String>)
    ensures
        r is Some == has_suffix(s@, p@),
        r is Some ==> r->0@ == s@.take(s@.len() - p@.len()),
{
    if ends_with(s, p) {
        let sv = chars_of(s);
        let n: usize = chars_of(p).len();
        Some(slice(&sv, 0, sv.len() - n))
    } else {
        None
    }
}

// ---------------------------------------------------------------------------
// Splitting and joining
// ---------------------------------------------------------------------------
/// The pieces of `s` between the occurrences of `c`: one more than there are occurrences.
pub open spec fn split(s: Seq<char>, c: char) -> Seq<Seq<char>>
    decreases s.len(),
{
    if s.len() == 0 {
        seq![Seq::empty()]
    } else {
        let before = split(s.drop_last(), c);
        if s.last() == c {
            before.push(Seq::empty())
        } else {
            before.drop_last().push(before.last().push(s.last()))
        }
    }
}

/// The items of `parts`, each separated from the next by `sep`.
pub open spec fn join(parts: Seq<Seq<char>>, sep: Seq<char>) -> Seq<char>
    decreases parts.len(),
{
    if parts.len() == 0 {
        Seq::empty()
    } else if parts.len() == 1 {
        parts[0]
    } else {
        join(parts.drop_last(), sep) + sep + parts.last()
    }
}

pub proof fn lemma_split_nonempty(s: Seq<char>, c: char)
    ensures
        split(s, c).len() >= 1,
    decreases s.len(),
{
    if s.len() > 0 {
        lemma_split_nonempty(s.drop_last(), c);
    }
}

/// Joining the pieces with the separator gives the text back.
pub proof fn law_join_split(s: Seq<char>, c: char)
    ensures
        join(split(s, c), seq![c]) == s,
    decreases s.len(),
{
    if s.len() > 0 {
        let t = s.drop_last();
        let before = split(t, c);
        law_join_split(t, c);
        lemma_split_nonempty(t, c);
        assert(s =~= t.push(s.last()));
        if s.last() == c {
            let after = before.push(Seq::empty());
            assert(after.drop_last() =~= before);
            assert(join(after, seq![c]) =~= t + seq![c] + Seq::<char>::empty());
            assert(join(after, seq![c]) =~= s);
        } else {
            let after = before.drop_last().push(before.last().push(s.last()));
            assert(after.drop_last() =~= before.drop_last());
            if before.len() == 1 {
                assert(after =~= seq![before[0].push(s.last())]);
            } else {
                assert(join(after, seq![c]) =~= join(before.drop_last(), seq![c]) + seq![c]
                    + before.last().push(s.last()));
            }
            assert(join(after, seq![c]) =~= s);
        }
    }
}

/// No piece holds the separator.
pub proof fn lemma_split_pieces(s: Seq<char>, c: char)
    ensures
        forall|i: int| 0 <= i < split(s, c).len() ==> !(#[trigger] split(s, c)[i]).contains(c),
    decreases s.len(),
{
    if s.len() > 0 {
        let t = s.drop_last();
        lemma_split_pieces(t, c);
        lemma_split_nonempty(t, c);
        if s.last() != c {
            let before = split(t, c);
            let piece = before.last().push(s.last());
            assert(!before[before.len() - 1].contains(c));
            assert forall|k: int| 0 <= k < piece.len() implies piece[k] != c by {
                if k < before.last().len() {
                    assert(before.last()[k] == piece[k]);
                }
            }
        }
    }
}

/// Where the separator does not stand, there is one piece; else the last piece is what follows its
/// last occurrence.
pub proof fn lemma_split_last(s: Seq<char>, c: char)
    ensures
        rfind(s, c) < 0 ==> split(s, c) == seq![s],
        rfind(s, c) >= 0 ==> split(s, c) == split(s.take(rfind(s, c)), c).push(
            s.skip(rfind(s, c) + 1),
        ),
    decreases s.len(),
{
    lemma_rfind(s, c);
    if s.len() == 0 {
        assert(split(s, c) =~= seq![s]);
    } else {
        let t = s.drop_last();
        if s.last() == c {
            assert(s.take(s.len() - 1) =~= t);
            assert(s.skip(s.len() as int) =~= Seq::<char>::empty());
        } else {
            lemma_split_last(t, c);
            lemma_rfind(t, c);
            let i = rfind(t, c);
            if i < 0 {
                assert(t.push(s.last()) =~= s);
                assert(seq![t].drop_last().push(t.push(s.last())) =~= seq![s]);
            } else {
                let head = split(t.take(i), c);
                assert(t.take(i) =~= s.take(i));
                assert(head.push(t.skip(i + 1)).drop_last() =~= head);
                assert(t.skip(i + 1).push(s.last()) =~= s.skip(i + 1));
            }
        }
    }
}

/// The pieces of a text between the occurrences of a character.
pub fn split_char(s: &str, c: char) -> (r: Vec<String>)
    ensures
        r.deep_view() == split(s@, c),
        r.len() >= 1,
{
    let v = chars_of(s);
    let mut done: Vec<String> = Vec::new();
    let mut cur = String::new();
    let mut i: usize = 0;
    assert(done.deep_view().push(cur@) =~= split(s@.take(0), c));
    while i < v.len()
        invariant
            v@ == s@,
            i <= v.len(),
            done.deep_view().push(cur@) == split(s@.take(i as int), c),
        decreases v.len() - i,
    {
        let ghost before = split(s@.take(i as int), c);
        let ghost old_done = done.deep_view();
        let ghost old_cur = cur@;
        assert(s@.take(i + 1).drop_last() =~= s@.take(i as int));
        assert(s@.take(i + 1).last() == v@[i as int]);
        assert(before.last() == cur@);
        assert(before.drop_last() =~= old_done);
        if v[i] == c {
            done.push(cur);
            cur = String::new();
            assert(done.deep_view() =~= old_done.push(old_cur));
            assert(cur@ =~= Seq::<char>::empty());
        } else {
            cur.push(v[i]);
            assert(done.deep_view() =~= old_done);
        }
        assert(done.deep_view().push(cur@) =~= split(s@.take(i + 1), c));
        i += 1;
    }
    assert(s@.take(v.len() as int) =~= s@);
    let ghost old_done = done.deep_view();
    let ghost old_cur = cur@;
    done.push(cur);
    assert(done.deep_view() =~= old_done.push(old_cur));
    done
}

/// The items of `parts`, each separated from the next by `sep`.
pub fn join_strings(parts: &Vec<String>, sep: &str) -> (r: String)
    ensures
        r@ == join(parts.deep_view(), sep@),
{
    let mut out = String::new();
    let mut i: usize = 0;
    assert(parts.deep_view().take(0) =~= Seq::<Seq<char>>::empty());
    while i < parts.len()
        invariant
            i <= parts.len(),
            out@ == join(parts.deep_view().take(i as int), sep@),
        decreases parts.len() - i,
    {
        let ghost p = parts.deep_view();
        assert(p.take(i + 1).drop_last() =~= p.take(i as int));
        assert(p.take(i + 1).last() == parts[i as int]@);
        if i > 0 {
            out.append(sep);
        }
        out.append(parts[i].as_str());
        if i == 0 {
            assert(out@ =~= parts[0]@);
        }
        i += 1;
    }
    assert(parts.deep_view().take(parts.len() as int) =~= parts.deep_view());
    out
}

/// The first place from `i` on where `p` stands in `s`, or -1.
pub open spec fn find_text(s: Seq<char>, p: Seq<char>, i: int) -> int
    decreases s.len() - i + 1,
{
    if i < 0 || i + p.len() > s.len() {
        -1
    } else if occurs_at(s, p, i) {
        i
    } else {
        find_text(s, p, i + 1)
    }
}

pub proof fn lemma_find_text(s: Seq<char>, p: Seq<char>, i: int)
    requires
        0 <= i,
    ensures
        find_text(s, p, i) == -1 || (i <= find_text(s, p, i) && occurs_at(
            s,
            p,
            find_text(s, p, i),
        )),
        forall|k: int|
            i <= k && (find_text(s, p, i) == -1 || k < find_text(s, p, i)) ==> !occurs_at(
                s,
                p,
                k,
            ),
    decreases s.len() - i + 1,
{
    if i + p.len() <= s.len() && !occurs_at(s, p, i) {
        lemma_find_text(s, p, i + 1);
    }
}

/// The pieces of `s` between the occurrences of `sep`, found from left to right.
pub open spec fn split_text(s: Seq<char>, sep: Seq<char>) -> Seq<Seq<char>>
    decreases s.len(),
{
    let i = find_text(s, sep, 0);
    if sep.len() == 0 || i < 0 {
        seq![s]
    } else {
        proof {
            lemma_find_text(s, sep, 0);
        }
        seq![s.take(i)] + split_text(s.skip(i + sep.len()), sep)
    }
}

fn occurs(v: &Vec<char>, p: &Vec<char>, i: usize) -> (r: bool)
    requires
        i + p.len() <= v.len(),
    ensures
        r == occurs_at(v@, p@, i as int),
{
    let mut j: usize = 0;
    while j < p.len()
        invariant
            i + p.len() <= v.len(),
            j <= p.len(),
            forall|k: int| 0 <= k < j ==> v@[i + k] == p@[k],
        decreases p.len() - j,
    {
        if v[i + j] != p[j] {
            assert(v@.subrange(i as int, i + p.len())[j as int] != p@[j as int]);
            return false;
        }
        j += 1;
    }
    assert(v@.subrange(i as int, i + p.len()) =~= p@);
    true
}

/// The first place from `from` on where `p` stands.
pub fn find_from_text(v: &Vec<char>, p: &Vec<char>, from: usize) -> (r: Option<usize>)
    requires
        from <= v.len(),
    ensures
        r is Some ==> r->0 == find_text(v@, p@, from as int) && r->0 + p.len() <= v.len(),
        r is None ==> find_text(v@, p@, from as int) == -1,
        r is Some ==> from <= r->0,
{
    if p.len() > v.len() {
        return None;
    }
    let last: usize = v.len() - p.len();
    let mut i: usize = from;
    while i <= last
        invariant
            from <= i <= v.len(),
            last == v.len() - p.len(),
            p.len() <= v.len(),
            find_text(v@, p@, from as int) == find_text(v@, p@, i as int),
        decreases v.len() - i,
    {
        if occurs(v, p, i) {
            return Some(i);
        }
        if i == last {
            assert(find_text(v@, p@, i + 1) == -1);
            return None;
        }
        i += 1;
    }
    None
}

/// Whether `p` stands anywhere in `s`.
pub open spec fn contains_text(s: Seq<char>, p: Seq<char>) -> bool {
    exists|i: int| occurs_at(s, p, i)
}

pub fn has_text(s: &str, p: &str) -> (r: bool)
    ensures
        r == contains_text(s@, p@),
{
    let v = chars_of(s);
    let pv = chars_of(p);
    proof {
        lemma_find_text(s@, p@, 0);
    }
    match find_from_text(&v, &pv, 0) {
        Some(i) => true,
        None => {
            assert forall|i: int| !occurs_at(s@, p@, i) by {}
            false
        },
    }
}

/// Searching a text from a place on is searching what follows that place.
proof fn lemma_find_shift(s: Seq<char>, p: Seq<char>, from: int, i: int)
    requires
        0 <= from <= s.len(),
        0 <= i,
    ensures
        find_text(s, p, from + i) == if find_text(s.skip(from), p, i) < 0 {
            -1
        } else {
            from + find_text(s.skip(from), p, i)
        },
    decreases s.len() - from - i + 1,
{
    let t = s.skip(from);
    if from + i + p.len() <= s.len() {
        assert(s.subrange(from + i, from + i + p.len()) =~= t.subrange(i, i + p.len()));
        if !occurs_at(s, p, from + i) {
            lemma_find_shift(s, p, from, i + 1);
        } else {
            lemma_find_text(t, p, i);
        }
    }
}

/// The pieces of a text between the occurrences of a separator.
pub fn split_on(s: &str, sep: &str) -> (r: Vec<String>)
    requires
        sep@.len() > 0,
    ensures
        r.deep_view() == split_text(s@, sep@),
        r.len() >= 1,
{
    let v = chars_of(s);
    let p = chars_of(sep);
    let mut out: Vec<String> = Vec::new();
    let mut from: usize = 0;
    assert(s@.skip(0) =~= s@);
    assert(out.deep_view() + split_text(s@.skip(0), sep@) =~= split_text(s@, sep@));
    loop
        invariant_except_break
            out.deep_view() + split_text(s@.skip(from as int), sep@) == split_text(s@, sep@),
        invariant
            v@ == s@,
            p@ == sep@,
            p.len() > 0,
            from <= v.len(),
        ensures
            out.deep_view() == split_text(s@, sep@),
            out.len() >= 1,
        decreases v.len() - from,
    {
        let ghost rest = s@.skip(from as int);
        let ghost before = out.deep_view();
        proof {
            lemma_find_shift(s@, sep@, from as int, 0);
            assert(s@.skip(from as int + 0) == rest);
        }
        match find_from_text(&v, &p, from) {
            Some(i) => {
                let piece = slice(&v, from, i);
                assert(piece@ =~= rest.take(i - from));
                let ghost pv = piece@;
                out.push(piece);
                assert(out.deep_view() =~= before.push(pv));
                let ghost next = (i + p.len()) as int;
                assert(rest.skip(i - from + p.len()) =~= s@.skip(next));
                assert(before.push(pv) + split_text(s@.skip(next), sep@) =~= before + (seq![pv]
                    + split_text(s@.skip(next), sep@)));
                from = i + p.len();
            },
            None => {
                let piece = slice(&v, from, v.len());
                assert(piece@ =~= rest);
                let ghost pv = piece@;
                out.push(piece);
                assert(out.deep_view() =~= before.push(pv));
                assert(before + seq![rest] =~= before.push(rest));
                break ;
            },
        }
    }
    out
}

// ---------------------------------------------------------------------------
// White space and lines
// ---------------------------------------------------------------------------
/// The characters with the Unicode property `White_Space`.
pub open spec fn is_white_space(c: char) -> bool {
    ||| '\u{9}' <= c <= '\u{d}'
    ||| c == ' '
    ||| c == '\u{85}'
    ||| c == '\u{a0}'
    ||| c == '\u{1680}'
    ||| '\u{2000}' <= c <= '\u{200a}'
    ||| c == '\u{2028}'
    ||| c == '\u{2029}'
    ||| c == '\u{202f}'
    ||| c == '\u{205f}'
    ||| c == '\u{3000}'
}

pub fn white_space(c: char) -> (r: bool)
    ensures
        r == is_white_space(c),
{
    ('\u{9}' <= c && c <= '\u{d}') || c == ' ' || c == '\u{85}' || c == '\u{a0}' || c == '\u{1680}'
        || ('\u{2000}' <= c && c <= '\u{200a}') || c == '\u{2028}' || c == '\u{2029}' || c
        == '\u{202f}' || c == '\u{205f}' || c == '\u{3000}'
}

/// `s` without the white space that it begins with.
pub open spec fn trim_start(s: Seq<char>) -> Seq<char>
    decreases s.len(),
{
    if s.len() > 0 && is_white_space(s[0]) {
        trim_start(s.skip(1))
    } else {
        s
    }
}

/// `s` without the white space that it ends with.
pub open spec fn trim_end(s: Seq<char>) -> Seq<char>
    decreases s.len(),
{
    if s.len() > 0 && is_white_space(s.last()) {
        trim_end(s.drop_last())
    } else {
        s
    }
}

/// `s` without the white space that it begins or ends with.
pub open spec fn trim(s: Seq<char>) -> Seq<char> {
    trim_end(trim_start(s))
}

pub fn trimmed_start(s: &str) -> (r: String)
    ensures
        r@ == trim_start(s@),
{
    let v = chars_of(s);
    let mut i: usize = 0;
    assert(s@.skip(0) =~= s@);
    while i < v.len() && white_space(v[i])
        invariant
            v@ == s@,
            i <= v.len(),
            trim_start(s@) == trim_start(s@.skip(i as int)),
        decreases v.len() - i,
    {
        assert(s@.skip(i as int).skip(1) =~= s@.skip(i + 1));
        i += 1;
    }
    assert(s@.subrange(i as int, v.len() as int) =~= s@.skip(i as int));
    slice(&v, i, v.len())
}

pub fn trimmed_end(s: &str) -> (r: String)
    ensures
        r@ == trim_end(s@),
{
    let v = chars_of(s);
    let mut n: usize = v.len();
    assert(s@.take(v.len() as int) =~= s@);
    while n > 0 && white_space(v[n - 1])
        invariant
            v@ == s@,
            n <= v.len(),
            trim_end(s@) == trim_end(s@.take(n as int)),
        decreases n,
    {
        assert(s@.take(n as int).drop_last() =~= s@.take(n - 1));
        n -= 1;
    }
    assert(s@.subrange(0, n as int) =~= s@.take(n as int));
    slice(&v, 0, n)
}

pub fn trimmed(s: &str) -> (r: String)
    ensures
        r@ == trim(s@),
{
    let t = trimmed_start(s);
    trimmed_end(t.as_str())
}

/// A line without the carriage return in front of its line feed.
pub open spec fn strip_cr(line: Seq<char>) -> Seq<char> {
    if line.len() > 0 && line.last() == '\r' {
        line.drop_last()
    } else {
        line
    }
}

/// The lines of a text, without the line feeds (and the carriage returns before them) that end
/// them. What follows the last line feed is a line unless it is empty.
pub open spec fn lines(s: Seq<char>) -> Seq<Seq<char>> {
    let pieces = split(s, '\n');
    let ended = pieces.drop_last().map_values(|p: Seq<char>| strip_cr(p));
    if pieces.last().len() == 0 {
        ended
    } else {
        ended.push(pieces.last())
    }
}

pub fn lines_of(s: &str) -> (r: Vec<String>)
    ensures
        r.deep_view() == lines(s@),
{
    let pieces = split_char(s, '\n');
    let mut out: Vec<String> = Vec::new();
    let last: usize = pieces.len() - 1;
    let mut i: usize = 0;
    let ghost p = split(s@, '\n');
    let ghost ended = p.drop_last().map_values(|p: Seq<char>| strip_cr(p));
    assert(out.deep_view() =~= ended.take(0));
    while i < last
        invariant
            pieces.deep_view() == p,
            p == split(s@, '\n'),
            ended == p.drop_last().map_values(|p: Seq<char>| strip_cr(p)),
            last == pieces.len() - 1,
            i <= last,
            out.deep_view() == ended.take(i as int),
        decreases last - i,
    {
        assert(pieces[i as int]@ == p[i as int]);
        let line = match strip_suffix(pieces[i].as_str(), "\r") {
            Some(l) => l,
            None => pieces[i].clone(),
        };
        proof {
            reveal_strlit("\r");
            let q = pieces[i as int]@;
            if q.len() > 0 {
                assert(q.skip(q.len() - 1) =~= seq![q.last()]);
                assert("\r"@ =~= seq!['\r']);
                if has_suffix(q, "\r"@) {
                    assert(seq![q.last()][0] == "\r"@[0]);
                }
                assert(q.take(q.len() - 1) =~= q.drop_last());
            }
        }
        assert(line@ == strip_cr(p[i as int]));
        let ghost old_out = out.deep_view();
        out.push(line);
        assert(out.deep_view() =~= old_out.push(strip_cr(p[i as int])));
        assert(ended.take(i + 1) =~= ended.take(i as int).push(strip_cr(p[i as int])));
        i += 1;
    }
    assert(ended.take(last as int) =~= ended);
    assert(pieces[last as int]@ == p.last());
    if !pieces[last].as_str().is_empty() {
        let ghost old_out = out.deep_view();
        out.push(pieces[last].clone());
        assert(out.deep_view() =~= old_out.push(p.last()));
    }
    out
}

// ---------------------------------------------------------------------------
// Numbers
// ---------------------------------------------------------------------------
/// The digit.
pub open spec fn digit_char(d: int) -> char {
    if d == 0 {
        '0'
    } else if d == 1 {
        '1'
    } else if d == 2 {
        '2'
    } else if d == 3 {
        '3'
    } else if d == 4 {
        '4'
    } else if d == 5 {
        '5'
    } else if d == 6 {
        '6'
    } else if d == 7 {
        '7'
    } else if d == 8 {
        '8'
    } else if d == 9 {
        '9'
    } else if d == 10 {
        'a'
    } else if d == 11 {
        'b'
    } else if d == 12 {
        'c'
    } else if d == 13 {
        'd'
    } else if d == 14 {
        'e'
    } else {
        'f'
    }
}

/// The digits of a number.
pub open spec fn decimal(n: nat) -> Seq<char>
    decreases n,
{
    if n < 10 {
        seq![digit_char(n as int)]
    } else {
        decimal(n / 10).push(digit_char((n % 10) as int))
    }
}

/// The digit, in lower case.
pub fn digit(d: u8) -> (c: char)
    requires
        d < 16,
    ensures
        c == digit_char(d as int),
{
    match d {
        0 => '0',
        1 => '1',
        2 => '2',
        3 => '3',
        4 => '4',
        5 => '5',
        6 => '6',
        7 => '7',
        8 => '8',
        9 => '9',
        10 => 'a',
        11 => 'b',
        12 => 'c',
        13 => 'd',
        14 => 'e',
        _ => 'f',
    }
}

/// The digits of a number.
pub fn decimal_of(n: u64) -> (s: String)
    ensures
        s@ == decimal(n as nat),
    decreases n,
{
    let d = digit((n % 10) as u8);
    let mut s = if n < 10 {
        String::new()
    } else {
        decimal_of(n / 10)
    };
    s.push(d);
    if n < 10 {
        assert(s@ =~= seq![digit_char(n as int)]);
    }
    s
}

} // verus!
