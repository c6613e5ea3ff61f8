//! Wrapping text by word boundaries.
use crate::text::{chars_of, is_white_space, join, lines, lines_of, slice, white_space};
use vstd::prelude::*;
use vstd::string::StringExecFns;

verus! {

/// Where the white space at or behind `i` ends.
pub open spec fn word_start(s: Seq<char>, i: int) -> int
    decreases s.len() - i,
{
    if 0 <= i < s.len() && is_white_space(s[i]) {
        word_start(s, i + 1)
    } else {
        i
    }
}

/// Where the word at `i` ends.
pub open spec fn word_end(s: Seq<char>, i: int) -> int
    decreases s.len() - i,
{
    if 0 <= i < s.len() && !is_white_space(s[i]) {
        word_end(s, i + 1)
    } else {
        i
    }
}

proof fn lemma_word_bounds(s: Seq<char>, i: int)
    requires
        0 <= i <= s.len(),
    ensures
        i <= word_start(s, i) <= s.len(),
        i <= word_end(s, i) <= s.len(),
        i < s.len() && !is_white_space(s[i]) ==> word_end(s, i) > i,
        word_start(s, i) < s.len() ==> !is_white_space(s[word_start(s, i)]),
    decreases s.len() - i,
{
    if i < s.len() {
        lemma_word_bounds(s, i + 1);
    }
}

/// The words at or behind `i`: what stands between white space.
pub open spec fn words_from(s: Seq<char>, i: int) -> Seq<Seq<char>>
    decreases s.len() - i,
{
    if i < 0 {
        Seq::empty()
    } else {
        let start = word_start(s, i);
        let end = word_end(s, start);
        if start >= s.len() || !(i < end <= s.len()) {
            Seq::empty()
        } else {
            seq![s.subrange(start, end)] + words_from(s, end)
        }
    }
}

pub open spec fn words(s: Seq<char>) -> Seq<Seq<char>> {
    words_from(s, 0)
}

fn words_of(s: &str) -> (r: Vec<String>)
    ensures
        r.deep_view() == words(s@),
{
    let v = chars_of(s);
    let mut out: Vec<String> = Vec::new();
    let mut i: usize = 0;
    assert(out.deep_view() + words_from(s@, 0) =~= words(s@));
    loop
        invariant
            v@ == s@,
            i <= v.len(),
            out.deep_view() + words_from(s@, i as int) == words(s@),
        decreases v.len() - i,
    {
        let ghost at = i;
        proof {
            lemma_word_bounds(s@, at as int);
        }
        while i < v.len() && white_space(v[i])
            invariant
                v@ == s@,
                at <= i <= v.len(),
                word_start(s@, at as int) == word_start(s@, i as int),
            decreases v.len() - i,
        {
            i += 1;
        }
        if i == v.len() {
            assert(words_from(s@, at as int) =~= Seq::<Seq<char>>::empty());
            assert(out.deep_view() =~= out.deep_view() + words_from(s@, at as int));
            return out;
        }
        let start = i;
        proof {
            lemma_word_bounds(s@, start as int);
        }
        while i < v.len() && !white_space(v[i])
            invariant
                v@ == s@,
                start <= i <= v.len(),
                word_end(s@, start as int) == word_end(s@, i as int),
            decreases v.len() - i,
        {
            i += 1;
        }
        let ghost before = out.deep_view();
        let word = slice(&v, start, i);
        let ghost w = word@;
        out.push(word);
        proof {
            assert(words_from(s@, at as int) == seq![w] + words_from(s@, i as int));
            assert(out.deep_view() =~= before.push(w));
            assert(out.deep_view() + words_from(s@, i as int) =~= before + words_from(
                s@,
                at as int,
            ));
        }
    }
}

/// The lines of words: as many words on a line as there is room for.
pub open spec fn wrapped(words: Seq<Seq<char>>, n: nat) -> Seq<Seq<char>>
    decreases words.len(),
{
    if words.len() == 0 {
        Seq::empty()
    } else {
        let before = wrapped(words.drop_last(), n);
        let w = words.last();
        if before.len() > 0 && before.last().len() + 1 + w.len() <= n {
            before.drop_last().push(before.last() + " "@ + w)
        } else {
            before.push(w)
        }
    }
}

/// The lines of a line of text: a dot for one that is blank.
pub open spec fn line_rows(line: Seq<char>, n: nat) -> Seq<Seq<char>> {
    if words(line).len() == 0 {
        seq!["."@]
    } else {
        wrapped(words(line), n)
    }
}

/// The lines of text with at most `n` characters each, where words are not longer than that.
pub open spec fn rows(text: Seq<Seq<char>>, n: nat) -> Seq<Seq<char>>
    decreases text.len(),
{
    if text.len() == 0 {
        Seq::empty()
    } else {
        rows(text.drop_last(), n) + line_rows(text.last(), n)
    }
}

/// Wrapping keeps all words, in their order.
pub proof fn law_wrapping_keeps_words(words: Seq<Seq<char>>, n: nat)
    ensures
        join(wrapped(words, n), " "@) == join(words, " "@),
        wrapped(words, n).len() > 0 <==> words.len() > 0,
    decreases words.len(),
{
    if words.len() > 0 {
        let before = wrapped(words.drop_last(), n);
        let w = words.last();
        let after = wrapped(words, n);
        law_wrapping_keeps_words(words.drop_last(), n);
        if before.len() > 0 && before.last().len() + 1 + w.len() <= n {
            assert(after.drop_last() =~= before.drop_last());
            assert(after.last() == before.last() + " "@ + w);
            if before.len() > 1 {
                assert(join(after, " "@) =~= join(before, " "@) + " "@ + w);
            } else {
                assert(join(after, " "@) =~= join(before, " "@) + " "@ + w);
            }
        } else {
            assert(after.drop_last() =~= before);
        }
        assert(words.drop_last().len() == 0 ==> before.len() == 0);
    }
}

/// A wrapped line is too long only if it is a single word that is.
pub proof fn law_wrapped_lines_fit(words: Seq<Seq<char>>, n: nat)
    ensures
        forall|i: int|
            0 <= i < wrapped(words, n).len() ==> (#[trigger] wrapped(words, n)[i]).len() <= n
                || words.contains(wrapped(words, n)[i]),
    decreases words.len(),
{
    if words.len() > 0 {
        let before = wrapped(words.drop_last(), n);
        let after = wrapped(words, n);
        let w = words.last();
        law_wrapped_lines_fit(words.drop_last(), n);
        assert forall|i: int| 0 <= i < after.len() implies (#[trigger] after[i]).len() <= n
            || words.contains(after[i]) by {
            if i < before.len() && after[i] == before[i] {
                if words.drop_last().contains(before[i]) {
                    let k = choose|k: int|
                        0 <= k < words.drop_last().len() && words.drop_last()[k] == before[i];
                    assert(words[k] == before[i]);
                }
            } else if i == before.len() {
                assert(after[i] == w);
                assert(words[words.len() - 1] == w);
            } else {
                reveal_strlit(" ");
                assert(i == before.len() - 1);
                assert(after[i] == before.last() + " "@ + w);
            }
        }
    }
}

fn char_count(s: &str) -> (r: usize)
    ensures
        r == s@.len(),
{
    chars_of(s).len()
}

fn push_wrapped(words: &Vec<String>, n: usize, out: &mut Vec<String>)
    ensures
        final(out).deep_view() == old(out).deep_view() + wrapped(words.deep_view(), n as nat),
{
    let ghost all = words.deep_view();
    let ghost before = out.deep_view();
    let mut rows: Vec<String> = Vec::new();
    let mut current = String::new();
    let mut len: usize = 0;
    let mut i: usize = 0;
    assert(all.take(0) =~= Seq::<Seq<char>>::empty());
    assert(rows.deep_view() =~= Seq::<Seq<char>>::empty());
    while i < words.len()
        invariant
            i <= words.len(),
            all == words.deep_view(),
            i == 0 ==> rows.deep_view() == wrapped(all.take(0), n as nat) && rows.deep_view().len()
                == 0,
            i > 0 ==> rows.deep_view().push(current@) == wrapped(all.take(i as int), n as nat),
            i > 0 ==> len == current@.len(),
        decreases words.len() - i,
    {
        let ghost so_far = rows.deep_view();
        proof {
            assert(all.take(i + 1).drop_last() =~= all.take(i as int));
            assert(all.take(i + 1).last() == words[i as int]@);
            if i > 0 {
                assert(so_far.push(current@).drop_last() =~= so_far);
                assert(so_far.push(current@).last() == current@);
            }
        }
        let w = words[i].as_str();
        let w_len = char_count(w);
        if i > 0 && len < n && w_len < n && len < n - w_len {
            proof {
                reveal_strlit(" ");
            }
            current.append(" ");
            current.append(w);
            len = len + 1 + w_len;
        } else {
            if i > 0 {
                let ghost c = current@;
                let mut row = w.to_owned();
                std::mem::swap(&mut row, &mut current);
                rows.push(row);
                assert(rows.deep_view() =~= so_far.push(c));
            } else {
                current = w.to_owned();
            }
            len = w_len;
        }
        i += 1;
    }
    assert(all.take(i as int) =~= all);
    if words.len() > 0 {
        let ghost so_far = rows.deep_view();
        let ghost c = current@;
        rows.push(current);
        assert(rows.deep_view() =~= so_far.push(c));
    }
    let ghost added = rows.deep_view();
    out.append(&mut rows);
    assert(out.deep_view() =~= before + added);
}

/// The lines of a text, wrapped so that they have at most `n` characters where words are not longer
/// than that; with a dot in the place of those that are blank.
pub fn split_by_chars(text: &str, n: usize) -> (r: Vec<String>)
    ensures
        r.deep_view() == rows(lines(text@), n as nat),
{
    let ls = lines_of(text);
    let ghost all = lines(text@);
    let mut out: Vec<String> = Vec::new();
    let mut i: usize = 0;
    assert(all.take(0) =~= Seq::<Seq<char>>::empty());
    assert(out.deep_view() =~= Seq::<Seq<char>>::empty());
    while i < ls.len()
        invariant
            i <= ls.len(),
            all == ls.deep_view(),
            out.deep_view() == rows(all.take(i as int), n as nat),
        decreases ls.len() - i,
    {
        let ghost before = out.deep_view();
        proof {
            assert(all.take(i + 1).drop_last() =~= all.take(i as int));
            assert(all.take(i + 1).last() == ls[i as int]@);
        }
        let ws = words_of(ls[i].as_str());
        if ws.len() == 0 {
            out.push(".".to_owned());
            assert(out.deep_view() =~= before + seq!["."@]);
        } else {
            push_wrapped(&ws, n, &mut out);
        }
        i += 1;
    }
    assert(all.take(i as int) =~= all);
    out
}

} // verus!
