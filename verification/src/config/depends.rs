//! The dependencies of a package.
use crate::assets::AssetView;
use crate::config::splitting::is_binary_file;
use crate::config::PackageConfig;
use crate::error::CDResult;
use crate::listener::{warn, Message, MessageView};
use crate::order::{add_text, distinct_texts, with_text};
use crate::text::{cat3, join, join_strings, rfind, same, split, split_char, trim, trimmed};
use vstd::prelude::*;
use vstd::string::StringExecFns;

verus! {

// ---------------------------------------------------------------------------
// Dependencies of some architectures
// ---------------------------------------------------------------------------
/// For which architectures a dependency is.
#[derive(Debug, PartialEq, Eq)]
pub enum ArchSpec {
    /// e.g. [armhf]
    Require(String),
    /// e.g. [!armhf]
    NegRequire(String),
}

pub enum ArchView {
    Require(Seq<char>),
    NegRequire(Seq<char>),
}

impl DeepView for ArchSpec {
    type V = ArchView;

    open spec fn deep_view(&self) -> ArchView {
        match self {
            ArchSpec::Require(s) => ArchView::Require(s@),
            ArchSpec::NegRequire(s) => ArchView::NegRequire(s@),
        }
    }
}

/// Text in front of brackets, an exclamation mark within them if there is one, and the rest within
/// them.
pub const ARCH_PATTERN: &'static str = r#"(.*)\[(!?)(.*)\]"#;

/// What the parts of the pattern are on a line: the last closing bracket, and the last opening one
/// before it.
pub open spec fn bracketed_line(s: Seq<char>) -> Option<(Seq<char>, Seq<char>, Seq<char>)> {
    let close = rfind(s, ']');
    let open = if close >= 0 {
        rfind(s.take(close), '[')
    } else {
        -1
    };
    if open >= 0 {
        let inner = s.subrange(open + 1, close);
        if inner.len() > 0 && inner[0] == '!' {
            Some((s.take(open), seq!['!'], inner.skip(1)))
        } else {
            Some((s.take(open), Seq::empty(), inner))
        }
    } else {
        None
    }
}

/// What the parts of the pattern are on the first line that has them.
pub open spec fn bracketed(lines: Seq<Seq<char>>) -> Option<(Seq<char>, Seq<char>, Seq<char>)>
    decreases lines.len(),
{
    if lines.len() == 0 {
        None
    } else if bracketed_line(lines[0]) is Some {
        bracketed_line(lines[0])
    } else {
        bracketed(lines.skip(1))
    }
}

/// `regex::Regex::captures` finds the leftmost match of a pattern. Where several matches begin there
/// it takes, as its documentation on syntax says of `x*` and `x?`, the one with each part as long as
/// it can be, from the first part on; and a dot of the pattern stands for any character but a line
/// feed. So the match is on the first line with a closing bracket behind an opening one; it
/// begins where that line begins, and ends with its last closing bracket; and its first part ends
/// before the last opening bracket in front of that.
#[verifier::external_body]
fn captures(pattern: &str, text: &str) -> (r: Option<(String, String, String)>)
    requires
        pattern@ == ARCH_PATTERN@,
    ensures
        match bracketed(split(text@, '\n')) {
            Some(b) => r is Some && (r->0).0@ == b.0 && (r->0).1@ == b.1 && (r->0).2@ == b.2,
            None => r is None,
        },
{
    let re = regex::Regex::new(pattern).unwrap();
    re.captures(text).map(|c| (c[1].to_string(), c[2].to_string(), c[3].to_string()))
}

/// A dependency, and for which architectures it is.
pub open spec fn arch_specification(depend: Seq<char>) -> (Seq<char>, Option<ArchView>) {
    match bracketed(split(depend, '\n')) {
        Some(b) => (
            trim(b.0),
            Some(
                if b.1 == seq!['!'] {
                    ArchView::NegRequire(b.2)
                } else {
                    ArchView::Require(b.2)
                },
            ),
        ),
        None => (depend, None),
    }
}

/// A dependency, and for which architectures it is.
pub fn get_architecture_specification(depend: &str) -> (r: CDResult<(String, Option<ArchSpec>)>)
    ensures
        r is Ok,
        ((r->Ok_0).0@, (r->Ok_0).1.deep_view()) == arch_specification(depend@),
{
    match captures(ARCH_PATTERN, depend) {
        Some((name, mark, arch)) => {
            proof {
                reveal_strlit("!");
                assert("!"@ =~= seq!['!']);
            }
            let spec = if same(mark.as_str(), "!") {
                ArchSpec::NegRequire(arch)
            } else {
                ArchSpec::Require(arch)
            };
            Ok((trimmed(name.as_str()), Some(spec)))
        },
        None => Ok((depend.to_owned(), None)),
    }
}

impl ArchView {
    pub open spec fn arch(self) -> Seq<char> {
        match self {
            ArchView::Require(a) | ArchView::NegRequire(a) => a,
        }
    }

    /// Whether the dependency is for an architecture, given whether that is the one of the
    /// specification.
    pub open spec fn holds(self, matches: bool) -> bool {
        match self {
            ArchView::Require(_) => matches,
            ArchView::NegRequire(_) => !matches,
        }
    }
}

impl ArchSpec {
    /// The arguments by which `dpkg-architecture` compares the architecture.
    /// <https://www.debian.org/doc/debian-policy/ch-customized-programs.html#s-arch-spec>
    pub fn match_args(&self, target_arch: &str) -> (r: Vec<String>)
        ensures
            r.deep_view() == seq!["-a"@, target_arch@, "-i"@, self.deep_view().arch()],
    {
        let arch = match self {
            ArchSpec::Require(a) => a,
            ArchSpec::NegRequire(a) => a,
        };
        let mut args: Vec<String> = Vec::new();
        args.push("-a".to_owned());
        args.push(target_arch.to_owned());
        args.push("-i".to_owned());
        args.push(arch.clone());
        assert(args.deep_view() =~= seq!["-a"@, target_arch@, "-i"@, self.deep_view().arch()]);
        args
    }

    /// Whether the dependency is for the architecture, given whether `dpkg-architecture` succeeded.
    pub fn match_architecture(&self, success: bool) -> (r: bool)
        ensures
            r == self.deep_view().holds(success),
    {
        match self {
            ArchSpec::NegRequire(_) => !success,
            ArchSpec::Require(_) => success,
        }
    }
}

// ---------------------------------------------------------------------------
// All dependencies
// ---------------------------------------------------------------------------
/// The libraries that a binary needs, or why they are not known.
#[derive(Debug)]
pub enum AutoDepends {
    Found(Vec<String>),
    Failed(String),
}

/// What `dpkg-architecture` said, or why it could not be asked.
#[derive(Debug)]
pub enum ArchAnswer {
    Success(bool),
    Failed(String),
}

pub enum AutoDependsView {
    Found(Seq<Seq<char>>),
    Failed(Seq<char>),
}

impl DeepView for AutoDepends {
    type V = AutoDependsView;

    open spec fn deep_view(&self) -> AutoDependsView {
        match self {
            AutoDepends::Found(v) => AutoDependsView::Found(v.deep_view()),
            AutoDepends::Failed(s) => AutoDependsView::Failed(s@),
        }
    }
}

pub enum ArchAnswerView {
    Success(bool),
    Failed(Seq<char>),
}

impl DeepView for ArchAnswer {
    type V = ArchAnswerView;

    open spec fn deep_view(&self) -> ArchAnswerView {
        match self {
            ArchAnswer::Success(b) => ArchAnswerView::Success(*b),
            ArchAnswer::Failed(s) => ArchAnswerView::Failed(s@),
        }
    }
}

/// The dependencies as they are listed.
pub open spec fn depend_words(depends: Seq<char>) -> Seq<Seq<char>> {
    split(depends, ',').map_values(|w: Seq<char>| trim(w))
}

/// The files whose libraries are looked up: binaries that are files.
pub open spec fn binary_paths(assets: Seq<AssetView>) -> Seq<Seq<char>>
    decreases assets.len(),
{
    if assets.len() == 0 {
        Seq::empty()
    } else {
        let before = binary_paths(assets.drop_last());
        let a = assets.last();
        if is_binary_file(a) && a.source is Path {
            before.push(a.source->Path_0)
        } else {
            before
        }
    }
}

/// The libraries of all binaries.
pub open spec fn auto_depends(found: Seq<AutoDependsView>) -> Seq<Seq<char>>
    decreases found.len(),
{
    if found.len() == 0 {
        Seq::empty()
    } else {
        auto_depends(found.drop_last()) + match found.last() {
            AutoDependsView::Found(deps) => deps,
            AutoDependsView::Failed(_) => Seq::empty(),
        }
    }
}

pub open spec fn auto_messages(paths: Seq<Seq<char>>, found: Seq<AutoDependsView>) -> Seq<MessageView>
    decreases found.len(),
{
    if found.len() == 0 {
        Seq::empty()
    } else {
        auto_messages(paths.drop_last(), found.drop_last()) + match found.last() {
            AutoDependsView::Found(_) => Seq::empty(),
            AutoDependsView::Failed(e) => seq![
                MessageView::Warning(e + "\nNo $auto deps for "@ + paths.last()),
            ],
        }
    }
}

/// Whether a word of the list is for some architectures only, so that it has to be asked for which.
pub open spec fn is_asked(word: Seq<char>) -> bool {
    word != "$auto"@ && arch_specification(word).1 is Some
}

/// What `dpkg-architecture` is asked of a word of the list.
pub open spec fn arch_query(word: Seq<char>, target_arch: Seq<char>) -> Option<Seq<Seq<char>>> {
    if is_asked(word) {
        Some(seq!["-a"@, target_arch, "-i"@, arch_specification(word).1->0.arch()])
    } else {
        None
    }
}

/// Every word that has to be asked for has an answer.
pub open spec fn are_answered(
    words: Seq<Seq<char>>,
    answers: Seq<Option<ArchAnswerView>>,
) -> bool {
    &&& answers.len() == words.len()
    &&& forall|i: int|
        0 <= i < words.len() && is_asked(words[i]) ==> (#[trigger] answers[i]) is Some
}

/// What a word of the list adds, given the libraries of the binaries and the answer on its
/// architecture. A dependency whose architecture cannot be compared is kept.
pub open spec fn word_depends(
    word: Seq<char>,
    found: Seq<AutoDependsView>,
    answer: Option<ArchAnswerView>,
) -> Seq<Seq<char>> {
    if word == "$auto"@ {
        auto_depends(found)
    } else {
        let spec = arch_specification(word);
        let wanted = match (spec.1, answer) {
            (Some(arch), Some(ArchAnswerView::Success(b))) => arch.holds(b),
            _ => true,
        };
        if wanted {
            seq![spec.0]
        } else {
            Seq::empty()
        }
    }
}

pub open spec fn word_messages(
    word: Seq<char>,
    paths: Seq<Seq<char>>,
    found: Seq<AutoDependsView>,
    answer: Option<ArchAnswerView>,
) -> Seq<MessageView> {
    if word == "$auto"@ {
        auto_messages(paths, found)
    } else {
        match (arch_specification(word).1, answer) {
            (Some(_), Some(ArchAnswerView::Failed(e))) => seq![
                MessageView::Warning("Can't get arch spec for '"@ + word + "'\n"@ + e),
            ],
            _ => Seq::empty(),
        }
    }
}

pub open spec fn all_depends(
    words: Seq<Seq<char>>,
    found: Seq<AutoDependsView>,
    answers: Seq<Option<ArchAnswerView>>,
) -> Seq<Seq<char>>
    decreases words.len(),
{
    if words.len() == 0 {
        Seq::empty()
    } else {
        all_depends(words.drop_last(), found, answers.drop_last()) + word_depends(
            words.last(),
            found,
            answers.last(),
        )
    }
}

pub open spec fn all_messages(
    words: Seq<Seq<char>>,
    paths: Seq<Seq<char>>,
    found: Seq<AutoDependsView>,
    answers: Seq<Option<ArchAnswerView>>,
) -> Seq<MessageView>
    decreases words.len(),
{
    if words.len() == 0 {
        Seq::empty()
    } else {
        all_messages(words.drop_last(), paths, found, answers.drop_last()) + word_messages(
            words.last(),
            paths,
            found,
            answers.last(),
        )
    }
}

/// The dependencies as they stand in the control file.
pub open spec fn depends_text(
    words: Seq<Seq<char>>,
    found: Seq<AutoDependsView>,
    answers: Seq<Option<ArchAnswerView>>,
) -> Seq<char> {
    join(distinct_texts(all_depends(words, found, answers)), ", "@)
}

proof fn lemma_distinct_extend(s: Seq<Seq<char>>, x: Seq<char>)
    ensures
        distinct_texts(s.push(x)) == with_text(distinct_texts(s), x),
{
    assert(s.push(x).drop_last() =~= s);
}

fn add_texts(deps: &mut Vec<String>, more: &Vec<String>, Ghost(so_far): Ghost<Seq<Seq<char>>>)
    requires
        old(deps).deep_view() == distinct_texts(so_far),
    ensures
        final(deps).deep_view() == distinct_texts(so_far + more.deep_view()),
{
    let ghost m = more.deep_view();
    let mut i: usize = 0;
    assert(so_far + m.take(0) =~= so_far);
    while i < more.len()
        invariant
            i <= more.len(),
            m == more.deep_view(),
            deps.deep_view() == distinct_texts(so_far + m.take(i as int)),
        decreases more.len() - i,
    {
        proof {
            assert(m[i as int] == more[i as int]@);
            assert(so_far + m.take(i + 1) =~= (so_far + m.take(i as int)).push(m[i as int]));
            lemma_distinct_extend(so_far + m.take(i as int), m[i as int]);
        }
        add_text(deps, more[i].clone());
        i += 1;
    }
    assert(m.take(i as int) =~= m);
}

fn add_auto(
    deps: &mut Vec<String>,
    paths: &Vec<String>,
    found: &Vec<AutoDepends>,
    log: &mut Vec<Message>,
    Ghost(so_far): Ghost<Seq<Seq<char>>>,
)
    requires
        old(deps).deep_view() == distinct_texts(so_far),
        paths.len() == found.len(),
    ensures
        final(deps).deep_view() == distinct_texts(so_far + auto_depends(found.deep_view())),
        final(log).deep_view() == old(log).deep_view() + auto_messages(
            paths.deep_view(),
            found.deep_view(),
        ),
{
    let ghost fs = found.deep_view();
    let ghost ps = paths.deep_view();
    let ghost log0 = log.deep_view();
    let mut i: usize = 0;
    proof {
        assert(fs.take(0) =~= Seq::<AutoDependsView>::empty());
        assert(so_far + Seq::<Seq<char>>::empty() =~= so_far);
        assert(log0 + Seq::<MessageView>::empty() =~= log0);
    }
    while i < found.len()
        invariant
            i <= found.len(),
            paths.len() == found.len(),
            fs == found.deep_view(),
            ps == paths.deep_view(),
            deps.deep_view() == distinct_texts(so_far + auto_depends(fs.take(i as int))),
            log.deep_view() == log0 + auto_messages(ps.take(i as int), fs.take(i as int)),
        decreases found.len() - i,
    {
        let ghost before = auto_depends(fs.take(i as int));
        let ghost before_log = auto_messages(ps.take(i as int), fs.take(i as int));
        proof {
            assert(fs.take(i + 1).drop_last() =~= fs.take(i as int));
            assert(ps.take(i + 1).drop_last() =~= ps.take(i as int));
            assert(fs.take(i + 1).last() == found[i as int].deep_view());
            assert(ps.take(i + 1).last() == paths[i as int]@);
            assert(so_far + (before + Seq::<Seq<char>>::empty()) =~= so_far + before);
            assert(log0 + (before_log + Seq::<MessageView>::empty()) =~= log0 + before_log);
        }
        match &found[i] {
            AutoDepends::Found(more) => {
                add_texts(deps, more, Ghost(so_far + before));
                assert(so_far + (before + more.deep_view()) =~= so_far + before
                    + more.deep_view());
            },
            AutoDepends::Failed(err) => {
                let text = cat3(err.as_str(), "\nNo $auto deps for ", paths[i].as_str());
                let ghost w = MessageView::Warning(text@);
                warn(log, text);
                assert(log0 + (before_log + seq![w]) =~= log0 + before_log + seq![w]);
            },
        }
        i += 1;
    }
    proof {
        assert(fs.take(i as int) =~= fs);
        assert(ps.take(i as int) =~= ps);
    }
}

impl PackageConfig {
    /// The dependencies as they are listed.
    pub fn depend_words(&self) -> (r: Vec<String>)
        ensures
            r.deep_view() == depend_words(self.wildcard_depends@),
    {
        let pieces = split_char(self.wildcard_depends.as_str(), ',');
        let ghost all = depend_words(self.wildcard_depends@);
        let mut out: Vec<String> = Vec::new();
        let mut i: usize = 0;
        assert(out.deep_view() =~= all.take(0));
        while i < pieces.len()
            invariant
                i <= pieces.len(),
                pieces.deep_view() == split(self.wildcard_depends@, ','),
                all == depend_words(self.wildcard_depends@),
                out.deep_view() == all.take(i as int),
            decreases pieces.len() - i,
        {
            let ghost before = out.deep_view();
            assert(pieces.deep_view()[i as int] == pieces[i as int]@);
            out.push(trimmed(pieces[i].as_str()));
            assert(out.deep_view() =~= before.push(all[i as int]));
            assert(all.take(i + 1) =~= all.take(i as int).push(all[i as int]));
            i += 1;
        }
        assert(all.take(i as int) =~= all);
        out
    }

    /// The arguments with which `dpkg-architecture` is to be asked, for each dependency that is
    /// listed.
    pub fn arch_queries(&self) -> (r: Vec<Option<Vec<String>>>)
        ensures
            r.deep_view() == depend_words(self.wildcard_depends@).map_values(
                |w: Seq<char>| arch_query(w, self.architecture@),
            ),
    {
        let words = self.depend_words();
        let ghost all = words.deep_view().map_values(
            |w: Seq<char>| arch_query(w, self.architecture@),
        );
        let mut out: Vec<Option<Vec<String>>> = Vec::new();
        let mut i: usize = 0;
        assert(out.deep_view() =~= all.take(0));
        while i < words.len()
            invariant
                i <= words.len(),
                all == words.deep_view().map_values(
                    |w: Seq<char>| arch_query(w, self.architecture@),
                ),
                out.deep_view() == all.take(i as int),
            decreases words.len() - i,
        {
            let ghost before = out.deep_view();
            let word = words[i].as_str();
            assert(words.deep_view()[i as int] == word@);
            let mut query: Option<Vec<String>> = None;
            if !same(word, "$auto") {
                if let Ok((_, Some(spec))) = get_architecture_specification(word) {
                    query = Some(spec.match_args(self.architecture.as_str()));
                }
            }
            assert(query.deep_view() == all[i as int]);
            out.push(query);
            assert(out.deep_view() =~= before.push(all[i as int]));
            assert(all.take(i + 1) =~= all.take(i as int).push(all[i as int]));
            i += 1;
        }
        assert(all.take(i as int) =~= all);
        out
    }

    /// The files whose libraries are looked up.
    pub fn auto_depend_paths(&self) -> (r: Vec<String>)
        ensures
            r.deep_view() == binary_paths(self.assets.resolved.deep_view()),
    {
        let ghost all = self.assets.resolved.deep_view();
        let mut out: Vec<String> = Vec::new();
        let mut i: usize = 0;
        assert(all.take(0) =~= Seq::<AssetView>::empty());
        assert(out.deep_view() =~= Seq::<Seq<char>>::empty());
        while i < self.assets.resolved.len()
            invariant
                i <= self.assets.resolved.len(),
                all == self.assets.resolved.deep_view(),
                out.deep_view() == binary_paths(all.take(i as int)),
            decreases self.assets.resolved.len() - i,
        {
            let ghost before = out.deep_view();
            proof {
                assert(all.take(i + 1).drop_last() =~= all.take(i as int));
                assert(all.take(i + 1).last() == self.assets.resolved[i as int].deep_view());
            }
            let asset = &self.assets.resolved[i];
            if (asset.c.is_dynamic_library() || asset.c.is_executable())
                && !asset.source.archive_as_symlink_only() {
                if let Some(path) = asset.source.path() {
                    out.push(path.clone());
                    assert(out.deep_view() =~= before.push(path@));
                }
            }
            i += 1;
        }
        assert(all.take(i as int) =~= all);
        out
    }

    /// The directories in which libraries of the target are looked for, of which there are those
    /// that exist.
    pub fn lib_search_paths(
        &self,
        rust_target_triple: Option<&str>,
        first_exists: bool,
        second_exists: bool,
    ) -> (r: Vec<String>)
        ensures
            r.deep_view() == match rust_target_triple {
                Some(triple) => {
                    let t = crate::arch::debian_triple(triple@);
                    crate::flag_if(first_exists, "usr/lib/"@ + t) + crate::flag_if(
                        second_exists,
                        "usr/"@ + t + "/lib"@,
                    )
                },
                None => Seq::empty(),
            },
    {
        let mut out: Vec<String> = Vec::new();
        assert(out.deep_view() =~= Seq::<Seq<char>>::empty());
        if let Some(triple) = rust_target_triple {
            let (first, second) = self.multiarch_lib_dirs(triple);
            let ghost f = first@;
            let ghost s = second@;
            if first_exists {
                out.push(first);
            }
            if second_exists {
                out.push(second);
            }
            assert(out.deep_view() =~= crate::flag_if(first_exists, f) + crate::flag_if(
                second_exists,
                s,
            ));
        }
        out
    }

    /// The dependencies, each once and sorted: those that are listed, and in the place of
    /// `$auto` the libraries that the binaries need. `found` are the libraries of each binary, and
    /// `answers` are what `dpkg-architecture` said of each word that has to be asked for.
    pub fn resolved_binary_dependencies(
        &self,
        found: &Vec<AutoDepends>,
        answers: &Vec<Option<ArchAnswer>>,
        log: &mut Vec<Message>,
    ) -> (r: CDResult<String>)
        requires
            found.len() == binary_paths(self.assets.resolved.deep_view()).len(),
            are_answered(depend_words(self.wildcard_depends@), answers.deep_view()),
        ensures
            r is Ok,
            (r->Ok_0)@ == depends_text(
                depend_words(self.wildcard_depends@),
                found.deep_view(),
                answers.deep_view(),
            ),
            final(log).deep_view() == old(log).deep_view() + all_messages(
                depend_words(self.wildcard_depends@),
                binary_paths(self.assets.resolved.deep_view()),
                found.deep_view(),
                answers.deep_view(),
            ),
    {
        let words = self.depend_words();
        let paths = self.auto_depend_paths();
        let ghost ws = words.deep_view();
        let ghost ps = paths.deep_view();
        let ghost fs = found.deep_view();
        let ghost ans = answers.deep_view();
        let ghost log0 = log.deep_view();
        let mut deps: Vec<String> = Vec::new();
        let mut i: usize = 0;
        proof {
            assert(ws.take(0) =~= Seq::<Seq<char>>::empty());
            assert(deps.deep_view() =~= Seq::<Seq<char>>::empty());
            assert(log0 + Seq::<MessageView>::empty() =~= log0);
        }
        while i < words.len()
            invariant
                i <= words.len(),
                words.len() == answers.len(),
                paths.len() == found.len(),
                ws == words.deep_view(),
                ps == paths.deep_view(),
                fs == found.deep_view(),
                ans == answers.deep_view(),
                deps.deep_view() == distinct_texts(
                    all_depends(ws.take(i as int), fs, ans.take(i as int)),
                ),
                log.deep_view() == log0 + all_messages(
                    ws.take(i as int),
                    ps,
                    fs,
                    ans.take(i as int),
                ),
            decreases words.len() - i,
        {
            let ghost before = all_depends(ws.take(i as int), fs, ans.take(i as int));
            let ghost before_log = all_messages(ws.take(i as int), ps, fs, ans.take(i as int));
            let word = words[i].as_str();
            proof {
                assert(ws.take(i + 1).drop_last() =~= ws.take(i as int));
                assert(ans.take(i + 1).drop_last() =~= ans.take(i as int));
                assert(ws.take(i + 1).last() == word@);
                assert(ans.take(i + 1).last() == answers[i as int].deep_view());
                assert(before + Seq::<Seq<char>>::empty() =~= before);
                assert(log0 + (before_log + Seq::<MessageView>::empty()) =~= log0 + before_log);
            }
            if same(word, "$auto") {
                add_auto(&mut deps, &paths, found, log, Ghost(before));
                assert(log.deep_view() =~= log0 + (before_log + auto_messages(ps, fs)));
            } else {
                let (dep, arch_spec) = get_architecture_specification(word)?;
                let mut wanted = true;
                if let Some(spec) = &arch_spec {
                    match &answers[i] {
                        Some(ArchAnswer::Success(b)) => {
                            wanted = spec.match_architecture(*b);
                        },
                        Some(ArchAnswer::Failed(e)) => {
                            let mut text = cat3("Can't get arch spec for '", word, "'\n");
                            text.append(e.as_str());
                            let ghost w = MessageView::Warning(text@);
                            warn(log, text);
                            assert(log.deep_view() =~= log0 + (before_log + seq![w]));
                        },
                        None => {},
                    }
                }
                if wanted {
                    let ghost d = dep@;
                    add_text(&mut deps, dep);
                    proof {
                        lemma_distinct_extend(before, d);
                        assert(before + seq![d] =~= before.push(d));
                    }
                }
            }
            i += 1;
        }
        proof {
            assert(ws.take(i as int) =~= ws);
            assert(ans.take(i as int) =~= ans);
        }
        Ok(join_strings(&deps, ", "))
    }
}

} // verus!
