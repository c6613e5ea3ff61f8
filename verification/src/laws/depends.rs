//! What a package depends on.
use crate::config::depends::{all_depends, arch_query, arch_specification, auto_depends, bracketed, bracketed_line, depend_words, depends_text, word_depends, ArchAnswerView, ArchView, AutoDependsView};
use crate::laws::texts::law_trim;
use crate::order::{distinct_texts, law_distinct_texts};
use crate::text::{is_white_space, join, lemma_rfind_is, lemma_split_last, split, trim};
use vstd::prelude::*;

verus! {

proof fn lemma_auto(found: Seq<AutoDependsView>, d: Seq<char>)
    ensures
        auto_depends(found).contains(d) <==> exists|i: int|
            0 <= i < found.len() && ((#[trigger] found[i]) matches AutoDependsView::Found(deps)
                && deps.contains(d)),
    decreases found.len(),
{
    if found.len() > 0 {
        let t = found.drop_last();
        let before = auto_depends(t);
        let more = match found.last() {
            AutoDependsView::Found(deps) => deps,
            AutoDependsView::Failed(_) => Seq::empty(),
        };
        lemma_auto(t, d);
        lemma_cat_contains(before, more, d);
        assert(auto_depends(found) =~= before + more);
        if before.contains(d) {
            let i = choose|i: int|
                0 <= i < t.len() && ((#[trigger] t[i]) matches AutoDependsView::Found(deps)
                    && deps.contains(d));
            assert(found[i] == t[i]);
        }
        if more.contains(d) {
            assert(found[found.len() - 1] is Found);
        }
        if exists|i: int|
            0 <= i < found.len() && ((#[trigger] found[i]) matches AutoDependsView::Found(deps)
                && deps.contains(d)) {
            let i = choose|i: int|
                0 <= i < found.len() && ((#[trigger] found[i]) matches AutoDependsView::Found(deps)
                    && deps.contains(d));
            if i < t.len() {
                assert(t[i] == found[i]);
            }
        }
    }
}

proof fn lemma_cat_contains(a: Seq<Seq<char>>, b: Seq<Seq<char>>, d: Seq<char>)
    ensures
        (a + b).contains(d) <==> a.contains(d) || b.contains(d),
{
    let s = a + b;
    if a.contains(d) {
        let i = choose|i: int| 0 <= i < a.len() && a[i] == d;
        assert(s[i] == d);
    }
    if b.contains(d) {
        let i = choose|i: int| 0 <= i < b.len() && b[i] == d;
        assert(s[a.len() + i] == d);
    }
    if s.contains(d) {
        let i = choose|i: int| 0 <= i < s.len() && s[i] == d;
        if i < a.len() {
            assert(a[i] == d);
        } else {
            assert(b[i - a.len()] == d);
        }
    }
}

proof fn lemma_all(
    words: Seq<Seq<char>>,
    found: Seq<AutoDependsView>,
    answers: Seq<Option<ArchAnswerView>>,
    d: Seq<char>,
)
    requires
        answers.len() == words.len(),
    ensures
        all_depends(words, found, answers).contains(d) <==> exists|i: int|
            0 <= i < words.len() && word_depends(#[trigger] words[i], found, answers[i]).contains(d),
    decreases words.len(),
{
    if words.len() > 0 {
        let t = words.drop_last();
        let a = answers.drop_last();
        let before = all_depends(t, found, a);
        let more = word_depends(words.last(), found, answers.last());
        lemma_all(t, found, a, d);
        lemma_cat_contains(before, more, d);
        if before.contains(d) {
            let i = choose|i: int|
                0 <= i < t.len() && word_depends(#[trigger] t[i], found, a[i]).contains(d);
            assert(words[i] == t[i] && answers[i] == a[i]);
        }
        if more.contains(d) {
            assert(word_depends(words[words.len() - 1], found, answers[words.len() - 1]).contains(d));
        }
        if exists|i: int|
            0 <= i < words.len() && word_depends(#[trigger] words[i], found, answers[i]).contains(
                d,
            ) {
            let i = choose|i: int|
                0 <= i < words.len() && word_depends(#[trigger] words[i], found, answers[i]).contains(d);
            if i < t.len() {
                assert(t[i] == words[i] && a[i] == answers[i]);
            }
        }
    }
}

/// Whether a listed dependency is wanted on this machine: one without architectures is; one for an
/// architecture is if that is the one of the package, and one for all others if it is not. Where that
/// could not be found out it is wanted.
pub open spec fn is_wanted(arch: Option<ArchView>, answer: Option<ArchAnswerView>) -> bool {
    match (arch, answer) {
        (Some(ArchView::Require(_)), Some(ArchAnswerView::Success(is_same))) => is_same,
        (Some(ArchView::NegRequire(_)), Some(ArchAnswerView::Success(is_same))) => !is_same,
        _ => true,
    }
}

/// A package depends on exactly these: the dependencies that are listed and wanted, under their names
/// without architectures; and, if `$auto` is listed, all libraries that were found for any of its
/// binaries.
pub proof fn law_dependencies(
    words: Seq<Seq<char>>,
    found: Seq<AutoDependsView>,
    answers: Seq<Option<ArchAnswerView>>,
    d: Seq<char>,
)
    requires
        answers.len() == words.len(),
    ensures
        distinct_texts(all_depends(words, found, answers)).contains(d) <==> {
            ||| words.contains("$auto"@) && exists|i: int|
                0 <= i < found.len() && ((#[trigger] found[i]) matches AutoDependsView::Found(deps)
                    && deps.contains(d))
            ||| exists|i: int|
                0 <= i < words.len() && #[trigger] words[i] != "$auto"@ && arch_specification(
                    words[i],
                ).0 == d && is_wanted(arch_specification(words[i]).1, answers[i])
        },
{
    law_distinct_texts(all_depends(words, found, answers));
    lemma_all(words, found, answers, d);
    lemma_auto(found, d);
    let all = all_depends(words, found, answers);
    assert(distinct_texts(all).contains(d) <==> all.contains(d));
    assert forall|i: int| 0 <= i < words.len() && #[trigger] words[i] != "$auto"@ implies (
    word_depends(words[i], found, answers[i]).contains(d) <==> arch_specification(words[i]).0 == d
        && is_wanted(arch_specification(words[i]).1, answers[i])) by {
        let name = arch_specification(words[i]).0;
        assert(seq![name][0] == name);
    }
    if words.contains("$auto"@) {
        let i = choose|i: int| 0 <= i < words.len() && words[i] == "$auto"@;
        assert(word_depends(words[i], found, answers[i]) == auto_depends(found));
    }
    if all.contains(d) {
        let i = choose|i: int|
            0 <= i < words.len() && word_depends(#[trigger] words[i], found, answers[i]).contains(d);
        if words[i] == "$auto"@ {
            assert(words.contains("$auto"@));
        }
    }
}

// ---------------------------------------------------------------------------
// Texts of dependencies
// ---------------------------------------------------------------------------
/// A list of dependencies is what stands between commas, without the white space around it.
pub proof fn law_listed_dependencies(a: Seq<char>, b: Seq<char>)
    ensures
        depend_words(a.push(',') + b) == depend_words(a) + depend_words(b),
        !a.contains(',') ==> depend_words(a) == seq![trim(a)],
{
    lemma_split_comma(a, b);
    assert(depend_words(a.push(',') + b) =~= depend_words(a) + depend_words(b));
    if !a.contains(',') {
        assert forall|k: int| 0 <= k < a.len() implies a[k] != ',' by {}
        lemma_rfind_is(a, ',', -1);
        lemma_split_last(a, ',');
        assert(depend_words(a) =~= seq![trim(a)]);
    }
}

proof fn lemma_split_comma(a: Seq<char>, b: Seq<char>)
    ensures
        split(a.push(',') + b, ',') == split(a, ',') + split(b, ','),
    decreases b.len(),
{
    let s = a.push(',') + b;
    if b.len() == 0 {
        assert(s =~= a.push(','));
        assert(s.drop_last() =~= a);
        assert(split(b, ',') =~= seq![Seq::<char>::empty()]);
        assert(split(s, ',') =~= split(a, ',') + split(b, ','));
    } else {
        let t = b.drop_last();
        lemma_split_comma(a, t);
        crate::text::lemma_split_nonempty(t, ',');
        assert(s.drop_last() =~= a.push(',') + t);
        assert(s.last() == b.last());
        assert(split(s, ',') =~= split(a, ',') + split(b, ','));
    }
}

/// A text without commas and without white space around it.
pub open spec fn is_entry(d: Seq<char>) -> bool {
    &&& d.len() > 0
    &&& !d.contains(',')
    &&& !is_white_space(d[0]) && !is_white_space(d.last())
}

proof fn lemma_trim_entry(lead: Seq<char>, d: Seq<char>)
    requires
        is_entry(d),
        lead == Seq::<char>::empty() || lead == seq![' '],
    ensures
        trim(lead + d) == d,
{
    let s = lead + d;
    let n = lead.len() as int;
    let (a, b) = law_trim(s);
    if a < n {
        assert(n == 1 && a == 0);
        if trim(s).len() > 0 {
            assert(trim(s)[0] == s[0]);
            assert(is_white_space(s[0]));
        } else {
            assert(s[b] == s[0]);
            assert(is_white_space(s[s.len() - 1]));
            assert(s[s.len() - 1] == d.last());
        }
    }
    if a > n {
        assert(is_white_space(s[n]));
        assert(s[n] == d[0]);
    }
    if b < s.len() {
        assert(is_white_space(s[s.len() - 1]));
        assert(s[s.len() - 1] == d.last());
    }
    assert(trim(s) =~= d);
}

proof fn lemma_joined_words(ds: Seq<Seq<char>>)
    requires
        ds.len() > 0,
        forall|i: int| 0 <= i < ds.len() ==> is_entry(#[trigger] ds[i]),
    ensures
        depend_words(join(ds, ", "@)) == ds,
    decreases ds.len(),
{
    reveal_strlit(", ");
    let sep = ", "@;
    let d = ds.last();
    assert(is_entry(ds[ds.len() - 1]));
    let e = Seq::<char>::empty();
    if ds.len() == 1 {
        assert(e + d =~= d);
        lemma_trim_entry(e, d);
        law_listed_dependencies(d, e);
        assert(join(ds, sep) =~= d);
        assert(depend_words(d) =~= ds);
    } else {
        let before = ds.drop_last();
        assert forall|i: int| 0 <= i < before.len() implies is_entry(#[trigger] before[i]) by {
            assert(ds[i] == before[i]);
        }
        lemma_joined_words(before);
        let a = join(before, sep);
        let b = seq![' '] + d;
        assert(join(ds, sep) =~= a.push(',') + b);
        law_listed_dependencies(a, b);
        assert(!b.contains(',')) by {
            assert forall|k: int| 0 <= k < b.len() implies b[k] != ',' by {
                if k > 0 {
                    assert(d.contains(d[k - 1]));
                }
            }
        }
        law_listed_dependencies(b, e);
        lemma_trim_entry(seq![' '], d);
        assert(depend_words(a.push(',') + b) =~= ds);
    }
}

/// The text of the dependencies is a list of them: reading it gives each one back, once, in order.
pub proof fn law_depends_text(
    words: Seq<Seq<char>>,
    found: Seq<AutoDependsView>,
    answers: Seq<Option<ArchAnswerView>>,
)
    requires
        forall|i: int|
            0 <= i < distinct_texts(all_depends(words, found, answers)).len() ==> is_entry(
                #[trigger] distinct_texts(all_depends(words, found, answers))[i],
            ),
    ensures
        distinct_texts(all_depends(words, found, answers)).len() > 0 ==> depend_words(
            depends_text(words, found, answers),
        ) == distinct_texts(all_depends(words, found, answers)),
        distinct_texts(all_depends(words, found, answers)).len() == 0 ==> depends_text(
            words,
            found,
            answers,
        ) == Seq::<char>::empty(),
{
    let ds = distinct_texts(all_depends(words, found, answers));
    if ds.len() > 0 {
        lemma_joined_words(ds);
    }
}

/// A dependency on one architecture is written with it in brackets behind its name, and one on all
/// others with an exclamation mark before that. Without brackets it is one on all architectures.
pub proof fn law_architectures(name: Seq<char>, arch: Seq<char>)
    requires
        !name.contains('[') && !name.contains(']') && !name.contains('\n'),
        !arch.contains('[') && !arch.contains(']') && !arch.contains('\n'),
    ensures
        arch_specification(name) == (name, None::<ArchView>),
        arch.len() == 0 || arch[0] != '!' ==> arch_specification(name.push('[') + arch.push(']'))
            == (trim(name), Some(ArchView::Require(arch))),
        arch_specification(name + seq!['[', '!'] + arch.push(']')) == (
            trim(name),
            Some(ArchView::NegRequire(arch)),
        ),
{
    let e = Seq::<char>::empty();
    // without brackets
    lemma_one_line(name);
    assert forall|k: int| 0 <= k < name.len() implies name[k] != ']' by {}
    lemma_rfind_is(name, ']', -1);
    assert(bracketed_line(name) is None);
    reveal_with_fuel(bracketed, 2);
    assert(seq![name].skip(1) =~= Seq::<Seq<char>>::empty());
    assert(bracketed(seq![name]) is None);
    // an architecture
    if arch.len() == 0 || arch[0] != '!' {
        let s = name.push('[') + arch.push(']');
        lemma_brackets(name, arch, s);
        assert(bracketed_line(s) == Some((name, e, arch)));
        if e == seq!['!'] {
            assert(e.len() == 1);
        }
    }
    // all others
    let inner = seq!['!'] + arch;
    let s = name + seq!['[', '!'] + arch.push(']');
    assert(!inner.contains('[') && !inner.contains(']') && !inner.contains('\n')) by {
        assert forall|k: int| 0 <= k < inner.len() implies inner[k] != '[' && inner[k] != ']'
            && inner[k] != '\n' by {
            if k > 0 {
                assert(arch.contains(arch[k - 1]));
            }
        }
    }
    assert(s =~= name.push('[') + inner.push(']'));
    lemma_brackets(name, inner, s);
    assert(inner.skip(1) =~= arch);
}

proof fn lemma_one_line(s: Seq<char>)
    requires
        !s.contains('\n'),
    ensures
        split(s, '\n') == seq![s],
{
    assert forall|k: int| 0 <= k < s.len() implies s[k] != '\n' by {}
    lemma_rfind_is(s, '\n', -1);
    lemma_split_last(s, '\n');
}

proof fn lemma_brackets(name: Seq<char>, inner: Seq<char>, s: Seq<char>)
    requires
        s == name.push('[') + inner.push(']'),
        !name.contains('\n'),
        !inner.contains('[') && !inner.contains(']') && !inner.contains('\n'),
    ensures
        bracketed(split(s, '\n')) == bracketed_line(s),
        bracketed_line(s) == if inner.len() > 0 && inner[0] == '!' {
            Some((name, seq!['!'], inner.skip(1)))
        } else {
            Some((name, Seq::<char>::empty(), inner))
        },
{
    let n = name.len() as int;
    let close = s.len() - 1;
    assert(!s.contains('\n')) by {
        assert forall|k: int| 0 <= k < s.len() implies s[k] != '\n' by {
            if k < n {
                assert(name.contains(name[k]));
            } else if n < k < close {
                assert(inner.contains(inner[k - n - 1]));
                assert(s[k] == inner[k - n - 1]);
            }
        }
    }
    lemma_one_line(s);
    assert(s[close] == ']');
    lemma_rfind_is(s, ']', close);
    let t = s.take(close);
    assert forall|k: int| n < k < t.len() implies t[k] != '[' by {
        assert(t[k] == inner[k - n - 1]);
        assert(inner.contains(inner[k - n - 1]));
    }
    assert(t[n] == '[');
    lemma_rfind_is(t, '[', n);
    assert(s.subrange(n + 1, close) =~= inner);
    assert(s.take(n) =~= name);
    reveal_with_fuel(bracketed, 2);
    assert(seq![s][0] == s);
}

/// A word that is for some machines only is asked of `dpkg-architecture`, whether it is for the machine
/// of the package; another one is not.
pub proof fn law_questions(name: Seq<char>, arch: Seq<char>, target: Seq<char>)
    requires
        !name.contains('[') && !name.contains(']') && !name.contains('\n'),
        !arch.contains('[') && !arch.contains(']') && !arch.contains('\n'),
        arch.len() == 0 || arch[0] != '!',
    ensures
        arch_query(name, target) is None,
        arch_query(name.push('[') + arch.push(']'), target) == Some(
            seq!["-a"@, target, "-i"@, arch],
        ),
        arch_query(name + seq!['[', '!'] + arch.push(']'), target) == Some(
            seq!["-a"@, target, "-i"@, arch],
        ),
{
    law_architectures(name, arch);
    reveal_strlit("$auto");
    let a = name.push('[') + arch.push(']');
    let b = name + seq!['[', '!'] + arch.push(']');
    assert("$auto"@.len() == 5 && "$auto"@[4] == 'o');
    assert(a.last() == ']' && b.last() == ']');
}

} // verus!
