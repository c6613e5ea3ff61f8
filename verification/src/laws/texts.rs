//! What taking texts apart gives.
use crate::text::{decimal, digit_char, has_prefix, has_suffix, is_white_space, join, law_join_split, lemma_split_nonempty, lemma_split_pieces, lines, split, strip_cr, trim, trim_end, trim_start};
use crate::util::wordsplit::{line_rows, word_end, word_start, words, words_from, wrapped};
use vstd::prelude::*;

verus! {

// ---------------------------------------------------------------------------
// White space
// ---------------------------------------------------------------------------
/// Blanks, tabs and line ends are white space; letters, digits and punctuation are not.
pub proof fn law_white_space(c: char)
    ensures
        c == ' ' || c == '\t' || c == '\n' || c == '\r' ==> is_white_space(c),
        '!' <= c <= '~' ==> !is_white_space(c),
{
}

proof fn lemma_trim_start(s: Seq<char>) -> (n: int)
    ensures
        0 <= n <= s.len(),
        trim_start(s) == s.skip(n),
        forall|i: int| 0 <= i < n ==> is_white_space(#[trigger] s[i]),
        n < s.len() ==> !is_white_space(s[n]),
    decreases s.len(),
{
    if s.len() > 0 && is_white_space(s[0]) {
        let t = s.skip(1);
        let m = lemma_trim_start(t);
        assert(s.skip(m + 1) =~= t.skip(m));
        assert forall|i: int| 0 <= i < m + 1 implies is_white_space(#[trigger] s[i]) by {
            if i > 0 {
                assert(t[i - 1] == s[i]);
            }
        }
        if m + 1 < s.len() {
            assert(t[m] == s[m + 1]);
        }
        m + 1
    } else {
        assert(s.skip(0) =~= s);
        0
    }
}

proof fn lemma_trim_end(s: Seq<char>) -> (n: int)
    ensures
        0 <= n <= s.len(),
        trim_end(s) == s.take(n),
        forall|i: int| n <= i < s.len() ==> is_white_space(#[trigger] s[i]),
        n > 0 ==> !is_white_space(s[n - 1]),
    decreases s.len(),
{
    if s.len() > 0 && is_white_space(s.last()) {
        let t = s.drop_last();
        let m = lemma_trim_end(t);
        assert(s.take(m) =~= t.take(m));
        assert forall|i: int| m <= i < s.len() implies is_white_space(#[trigger] s[i]) by {
            if i < t.len() {
                assert(t[i] == s[i]);
            }
        }
        if m > 0 {
            assert(t[m - 1] == s[m - 1]);
        }
        m
    } else {
        assert(s.take(s.len() as int) =~= s);
        s.len() as int
    }
}

/// Trimming takes exactly the white space at both ends away.
pub proof fn law_trim(s: Seq<char>) -> (r: (int, int))
    ensures
        0 <= r.0 <= r.1 <= s.len(),
        trim(s) == s.subrange(r.0, r.1),
        forall|i: int| 0 <= i < r.0 ==> is_white_space(#[trigger] s[i]),
        forall|i: int| r.1 <= i < s.len() ==> is_white_space(#[trigger] s[i]),
        trim(s).len() > 0 ==> !is_white_space(trim(s)[0]) && !is_white_space(trim(s).last()),
{
    let a = lemma_trim_start(s);
    let t = s.skip(a);
    let m = lemma_trim_end(t);
    let b = a + m;
    assert(trim(s) =~= s.subrange(a, b));
    assert forall|i: int| b <= i < s.len() implies is_white_space(#[trigger] s[i]) by {
        assert(t[i - a] == s[i]);
    }
    if m > 0 {
        assert(t[m - 1] == s[b - 1]);
    }
    (a, b)
}

// ---------------------------------------------------------------------------
// Lines
// ---------------------------------------------------------------------------
proof fn lemma_join_push(parts: Seq<Seq<char>>, x: Seq<char>, sep: Seq<char>)
    ensures
        join(parts.push(x), sep) == if parts.len() == 0 {
            x
        } else {
            join(parts, sep) + sep + x
        },
{
    assert(parts.push(x).drop_last() =~= parts);
}

/// No line holds a line feed. Of a text without carriage returns the lines are what stands between
/// its line feeds: with those behind each of them they are the text again, but for a line feed at the
/// end that may be missing.
pub proof fn law_lines(s: Seq<char>)
    ensures
        forall|i: int| 0 <= i < lines(s).len() ==> !(#[trigger] lines(s)[i]).contains('\n'),
        !s.contains('\r') ==> s == join(lines(s), seq!['\n']) + (if lines(s).len() > 0 && s.len()
            > 0 && s.last() == '\n' {
            seq!['\n']
        } else {
            Seq::empty()
        }),
        lines(s).len() == 0 <==> s.len() == 0,
{
    let sep = seq!['\n'];
    let pieces = split(s, '\n');
    let n = pieces.len() - 1;
    lemma_split_nonempty(s, '\n');
    lemma_split_pieces(s, '\n');
    law_join_split(s, '\n');
    assert(!pieces[n].contains('\n'));
    assert forall|i: int| 0 <= i < lines(s).len() implies !(#[trigger] lines(s)[i]).contains(
        '\n',
    ) by {
        if i < n {
            let p = pieces[i];
            assert(!p.contains('\n'));
            assert(lines(s)[i] == strip_cr(p));
            assert forall|k: int| 0 <= k < strip_cr(p).len() implies strip_cr(p)[k] != '\n' by {
                assert(p.contains(p[k]));
            }
        }
    }
    assert(s.len() == 0 ==> split(s, '\n') =~= seq![Seq::<char>::empty()]);
    if s.len() > 0 {
        lemma_last_piece(s);
        if pieces.last().len() == 0 && n == 0 {
            assert(pieces =~= seq![Seq::<char>::empty()]);
        }
    }
    if !s.contains('\r') {
        assert forall|i: int| 0 <= i <= n implies strip_cr(#[trigger] pieces[i]) == pieces[i] by {
            if pieces[i].len() > 0 && pieces[i].last() == '\r' {
                lemma_join_holds(pieces, sep, i, pieces[i].len() - 1);
            }
        }
        let ended = pieces.drop_last().map_values(|p: Seq<char>| strip_cr(p));
        assert(ended =~= pieces.drop_last());
        assert(pieces =~= pieces.drop_last().push(pieces.last()));
        if pieces.last().len() == 0 {
            lemma_join_push(pieces.drop_last(), pieces.last(), sep);
            if n > 0 {
                assert(s =~= join(lines(s), sep) + sep);
            } else {
                assert(s =~= join(lines(s), sep) + Seq::<char>::empty());
            }
        } else {
            assert(lines(s) =~= pieces);
            assert(s =~= join(lines(s), sep) + Seq::<char>::empty());
        }
    }
}

/// The last piece is empty exactly where the text ends with a line feed.
proof fn lemma_last_piece(s: Seq<char>)
    requires
        s.len() > 0,
    ensures
        split(s, '\n').last().len() == 0 <==> s.last() == '\n',
        s.last() == '\n' ==> split(s, '\n').len() > 1,
{
    lemma_split_nonempty(s.drop_last(), '\n');
}

/// What a piece holds, the joined text holds.
proof fn lemma_join_holds(parts: Seq<Seq<char>>, sep: Seq<char>, i: int, k: int)
    requires
        0 <= i < parts.len(),
        0 <= k < parts[i].len(),
    ensures
        join(parts, sep).contains(parts[i][k]),
    decreases parts.len(),
{
    let all = join(parts, sep);
    if parts.len() == 1 {
        assert(all[k] == parts[i][k]);
    } else {
        let before = join(parts.drop_last(), sep);
        if i == parts.len() - 1 {
            assert(all[before.len() + sep.len() + k] == parts[i][k]);
        } else {
            lemma_join_holds(parts.drop_last(), sep, i, k);
            let j = choose|j: int| 0 <= j < before.len() && before[j] == parts[i][k];
            assert(all[j] == parts[i][k]);
        }
    }
}

// ---------------------------------------------------------------------------
// Words
// ---------------------------------------------------------------------------
proof fn lemma_word_start(s: Seq<char>, i: int)
    requires
        0 <= i <= s.len(),
    ensures
        i <= word_start(s, i) <= s.len(),
        forall|k: int| i <= k < word_start(s, i) ==> is_white_space(#[trigger] s[k]),
        word_start(s, i) < s.len() ==> !is_white_space(s[word_start(s, i)]),
    decreases s.len() - i,
{
    if i < s.len() && is_white_space(s[i]) {
        lemma_word_start(s, i + 1);
    }
}

proof fn lemma_word_end(s: Seq<char>, i: int)
    requires
        0 <= i <= s.len(),
    ensures
        i <= word_end(s, i) <= s.len(),
        forall|k: int| i <= k < word_end(s, i) ==> !is_white_space(#[trigger] s[k]),
        word_end(s, i) < s.len() ==> is_white_space(s[word_end(s, i)]),
    decreases s.len() - i,
{
    if i < s.len() && !is_white_space(s[i]) {
        lemma_word_end(s, i + 1);
    }
}

/// Where words end depends only on what is in front of the next white space.
proof fn lemma_start_is(s: Seq<char>, i: int, j: int)
    requires
        0 <= i <= j <= s.len(),
        forall|k: int| i <= k < j ==> is_white_space(#[trigger] s[k]),
        j < s.len() ==> !is_white_space(s[j]),
    ensures
        word_start(s, i) == j,
    decreases j - i,
{
    if i < j {
        lemma_start_is(s, i + 1, j);
    }
}

proof fn lemma_end_is(s: Seq<char>, i: int, j: int)
    requires
        0 <= i <= j <= s.len(),
        forall|k: int| i <= k < j ==> !is_white_space(#[trigger] s[k]),
        j < s.len() ==> is_white_space(s[j]),
    ensures
        word_end(s, i) == j,
    decreases j - i,
{
    if i < j {
        lemma_end_is(s, i + 1, j);
    }
}

proof fn lemma_words_behind(a: Seq<char>, b: Seq<char>, i: int)
    requires
        0 <= i <= b.len(),
    ensures
        words_from(a + b, a.len() + i) == words_from(b, i),
    decreases b.len() - i,
{
    let s = a + b;
    let m = a.len() as int;
    lemma_word_start(b, i);
    let start = word_start(b, i);
    lemma_word_end(b, start);
    let end = word_end(b, start);
    assert forall|k: int| m + i <= k < m + start implies is_white_space(#[trigger] s[k]) by {
        assert(s[k] == b[k - m]);
    }
    lemma_start_is(s, m + i, m + start);
    assert forall|k: int| m + start <= k < m + end implies !is_white_space(#[trigger] s[k]) by {
        assert(s[k] == b[k - m]);
    }
    lemma_end_is(s, m + start, m + end);
    if start < b.len() {
        assert(end > start);
        assert(s.subrange(m + start, m + end) =~= b.subrange(start, end));
        lemma_words_behind(a, b, end);
    }
}

proof fn lemma_words_cat(a: Seq<char>, c: char, b: Seq<char>, i: int)
    requires
        is_white_space(c),
        0 <= i <= a.len(),
    ensures
        words_from(a.push(c) + b, i) == words_from(a, i) + words(b),
    decreases a.len() - i,
{
    let s = a.push(c) + b;
    let n = a.len() as int;
    lemma_word_start(a, i);
    let start = word_start(a, i);
    if start < a.len() {
        lemma_word_end(a, start);
        let end = word_end(a, start);
        assert forall|k: int| i <= k < start implies is_white_space(#[trigger] s[k]) by {
            assert(s[k] == a[k]);
        }
        assert(s[start] == a[start]);
        lemma_start_is(s, i, start);
        assert forall|k: int| start <= k < end implies !is_white_space(#[trigger] s[k]) by {
            assert(s[k] == a[k]);
        }
        assert(end < n ==> s[end] == a[end]);
        lemma_end_is(s, start, end);
        assert(s.subrange(start, end) =~= a.subrange(start, end));
        lemma_words_cat(a, c, b, end);
        assert(seq![a.subrange(start, end)] + (words_from(a, end) + words(b)) =~= seq![
            a.subrange(start, end),
        ] + words_from(a, end) + words(b));
    } else {
        assert(words_from(a, i) =~= Seq::<Seq<char>>::empty());
        lemma_words_behind(a.push(c), b, 0);
        lemma_word_start(b, 0);
        let j = word_start(b, 0);
        assert forall|k: int| i <= k < n + 1 + j implies is_white_space(#[trigger] s[k]) by {
            if k < n {
                assert(s[k] == a[k]);
            } else if k > n {
                assert(s[k] == b[k - n - 1]);
            }
        }
        assert forall|k: int| n + 1 <= k < n + 1 + j implies is_white_space(#[trigger] s[k]) by {
            assert(s[k] == b[k - n - 1]);
        }
        if j < b.len() {
            assert(s[n + 1 + j] == b[j]);
        }
        lemma_start_is(s, i, n + 1 + j);
        lemma_start_is(s, n + 1, n + 1 + j);
        let from = n + 1 + j;
        lemma_word_end(s, from);
        assert(words_from(s, i) =~= words_from(s, n + 1));
        assert(Seq::<Seq<char>>::empty() + words(b) =~= words(b));
    }
}

/// The words of a text: white space separates those before it from those behind it, a text without
/// white space is one word, and the empty text has none.
pub proof fn law_words(a: Seq<char>, c: char, b: Seq<char>)
    ensures
        is_white_space(c) ==> words(a.push(c) + b) == words(a) + words(b),
        a.len() > 0 && (forall|i: int| 0 <= i < a.len() ==> !is_white_space(#[trigger] a[i]))
            ==> words(a) == seq![a],
        words(Seq::<char>::empty()) == Seq::<Seq<char>>::empty(),
{
    if is_white_space(c) {
        lemma_words_cat(a, c, b, 0);
    }
    if a.len() > 0 && (forall|i: int| 0 <= i < a.len() ==> !is_white_space(#[trigger] a[i])) {
        lemma_start_is(a, 0, 0);
        lemma_end_is(a, 0, a.len() as int);
        assert(a.subrange(0, a.len() as int) =~= a);
        lemma_start_is(a, a.len() as int, a.len() as int);
        assert(words_from(a, a.len() as int) =~= Seq::<Seq<char>>::empty());
        assert(words(a) =~= seq![a]);
    }
    let e = Seq::<char>::empty();
    lemma_start_is(e, 0, 0);
    assert(words(e) =~= Seq::<Seq<char>>::empty());
}

// ---------------------------------------------------------------------------
// Numbers
// ---------------------------------------------------------------------------
/// The number that digits stand for.
pub open spec fn digits_value(s: Seq<char>) -> int
    decreases s.len(),
{
    if s.len() == 0 {
        0
    } else {
        10 * digits_value(s.drop_last()) + (s.last() as int - '0' as int)
    }
}

/// The digits of a number stand for it; they are decimal digits, and no zero stands in front.
pub proof fn law_decimal(n: nat)
    ensures
        digits_value(decimal(n)) == n,
        decimal(n).len() > 0,
        forall|i: int| 0 <= i < decimal(n).len() ==> '0' <= #[trigger] decimal(n)[i] <= '9',
        n > 0 ==> decimal(n)[0] != '0',
    decreases n,
{
    reveal_with_fuel(digits_value, 2);
    let d = (n % 10) as int;
    assert(digit_char(d) as int - '0' as int == d);
    if n < 10 {
        assert(decimal(n).drop_last() =~= Seq::<char>::empty());
        assert(digit_char(n as int) as int - '0' as int == n);
    } else {
        law_decimal(n / 10);
        assert(decimal(n).drop_last() =~= decimal(n / 10));
        assert(decimal(n)[0] == decimal(n / 10)[0]);
    }
}

/// A text begins with another if something can be put behind the other to get it, and ends with
/// another if something can be put in front.
pub proof fn law_begins_and_ends(s: Seq<char>, part: Seq<char>, rest: Seq<char>)
    ensures
        has_prefix(part + rest, part),
        has_suffix(rest + part, part),
        has_prefix(s, part) ==> s == part + s.skip(part.len() as int),
        has_suffix(s, part) ==> s == s.take(s.len() - part.len()) + part,
{
    assert((part + rest).take(part.len() as int) =~= part);
    assert((rest + part).skip(rest.len() as int) =~= part);
    if has_prefix(s, part) {
        assert(s =~= part + s.skip(part.len() as int));
    }
    if has_suffix(s, part) {
        assert(s =~= s.take(s.len() - part.len()) + part);
    }
}

/// Rows are filled: a word goes into the last row if it fits there, else into a new one.
pub proof fn law_rows_are_filled(ws: Seq<Seq<char>>, w: Seq<char>, n: nat)
    ensures
        wrapped(Seq::empty(), n).len() == 0,
        wrapped(seq![w], n) == seq![w],
        wrapped(ws, n).len() > 0 && wrapped(ws, n).last().len() + 1 + w.len() <= n ==> {
            &&& wrapped(ws.push(w), n).len() == wrapped(ws, n).len()
            &&& wrapped(ws.push(w), n).last() == wrapped(ws, n).last().push(' ') + w
            &&& wrapped(ws.push(w), n).drop_last() == wrapped(ws, n).drop_last()
        },
        wrapped(ws, n).len() > 0 && wrapped(ws, n).last().len() + 1 + w.len() > n ==> wrapped(
            ws.push(w),
            n,
        ) == wrapped(ws, n).push(w),
{
    reveal_strlit(" ");
    reveal_with_fuel(wrapped, 2);
    assert(seq![w].drop_last() =~= Seq::<Seq<char>>::empty());
    assert(ws.push(w).drop_last() =~= ws);
    let before = wrapped(ws, n);
    if before.len() > 0 {
        assert(before.last() + " "@ + w =~= before.last().push(' ') + w);
        assert(before.drop_last().push(before.last() + " "@ + w).drop_last() =~= before.drop_last());
    }
}

/// A line without words is a row with a dot.
pub proof fn law_blank_line(line: Seq<char>, n: nat)
    ensures
        words(line).len() == 0 ==> line_rows(line, n) == seq![seq!['.']],
        words(line).len() > 0 ==> line_rows(line, n) == wrapped(words(line), n),
{
    reveal_strlit(".");
    assert("."@ =~= seq!['.']);
}

} // verus!
