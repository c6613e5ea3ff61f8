//! What the `debhelper` commands have in common: how the files of a package are named, and how pieces
//! of maintainer scripts get into the scripts.
use crate::error::{CDResult, CargoDebError, Cause, ErrorView};
use crate::text::{cat, cat3, cat5, contains_text, find_text, has_prefix, has_suffix, has_text, join, join_strings, lemma_find_text, occurs_at, split_on, split_text};
use vstd::prelude::*;

verus! {

// ---------------------------------------------------------------------------
// Names of files
// ---------------------------------------------------------------------------
/// The names of a file of a package, the preferred one first: with the name of the package, and for
/// the main package without it. Where a unit has a name, that stands in all of them.
pub open spec fn own_names(
    package: Seq<char>,
    is_main: bool,
    unit: Option<Seq<char>>,
    filename: Seq<char>,
) -> Seq<Seq<char>> {
    match unit {
        Some(u) => seq![package + "."@ + u + "."@ + filename] + crate::flag_if(
            is_main,
            u + "."@ + filename,
        ),
        None => seq![package + "."@ + filename] + crate::flag_if(is_main, filename),
    }
}

/// The names under which a file is looked for: those with the name of the unit, if it has one, and
/// then those without.
pub open spec fn pkgfile_names(
    package: Seq<char>,
    unit: Option<Seq<char>>,
    filename: Seq<char>,
) -> Seq<Seq<char>> {
    match unit {
        Some(_) => own_names(package, true, unit, filename) + own_names(
            package,
            true,
            None,
            filename,
        ),
        None => own_names(package, true, None, filename),
    }
}

/// The names of a file of a package, the preferred one first.
pub(crate) fn own_names_of(package: &str, is_main: bool, unit: Option<&str>, filename: &str) -> (r:
    Vec<String>)
    ensures
        r.deep_view() == own_names(
            package@,
            is_main,
            match unit {
                Some(u) => Some(u@),
                None => None,
            },
            filename@,
        ),
{
    let mut out: Vec<String> = Vec::new();
    match unit {
        Some(u) => {
            out.push(cat5(package, ".", u, ".", filename));
            if is_main {
                out.push(cat3(u, ".", filename));
            }
            assert(out.deep_view() =~= own_names(package@, is_main, Some(u@), filename@));
        },
        None => {
            out.push(cat3(package, ".", filename));
            if is_main {
                out.push(filename.to_owned());
            }
            assert(out.deep_view() =~= own_names(package@, is_main, None, filename@));
        },
    }
    out
}

/// The names under which a file of a package is looked for, the preferred one first.
pub fn pkgfile(package: &str, unit_name: Option<&str>, filename: &str) -> (r: Vec<String>)
    ensures
        r.deep_view() == pkgfile_names(
            package@,
            match unit_name {
                Some(u) => Some(u@),
                None => None,
            },
            filename@,
        ),
{
    let mut plain = own_names_of(package, true, None, filename);
    match unit_name {
        Some(_) => {
            let mut out = own_names_of(package, true, unit_name, filename);
            let ghost a = out.deep_view();
            let ghost b = plain.deep_view();
            out.append(&mut plain);
            assert(out.deep_view() =~= a + b);
            out
        },
        None => plain,
    }
}

// ---------------------------------------------------------------------------
// Replacing a placeholder
// ---------------------------------------------------------------------------
/// A text with another in the place of a placeholder.
pub open spec fn replaced(s: Seq<char>, placeholder: Seq<char>, with: Seq<char>) -> Seq<char> {
    join(split_text(s, placeholder), with)
}

/// Puts a text in the place of a placeholder, wherever that stands.
pub fn replace(s: &str, placeholder: &str, with: &str) -> (r: String)
    requires
        placeholder@.len() > 0,
    ensures
        r@ == replaced(s@, placeholder@, with@),
{
    let pieces = split_on(s, placeholder);
    join_strings(&pieces, with)
}

// ---------------------------------------------------------------------------
// Maintainer scripts
// ---------------------------------------------------------------------------
/// What stands in a maintainer script where pieces go.
pub const TOKEN: &'static str = "#DEBHELPER#";

/// What a script begins with that consists of pieces only.
pub const SCRIPT_HEAD: &'static str = "#!/bin/sh\nset -e\n";

/// A script of the user, if there is one.
#[derive(Debug)]
pub enum UserScript {
    Missing,
    Text { path: String, text: String },
    Unreadable(Cause),
}

/// A script of the user, and the pieces that go into it.
#[derive(Debug)]
pub struct ScriptPieces {
    pub user: UserScript,
    pub fragment: String,
}

/// The scripts that pieces go into.
#[derive(Debug)]
pub struct UnitScripts {
    pub preinst: ScriptPieces,
    pub postinst: ScriptPieces,
    pub prerm: ScriptPieces,
    pub postrm: ScriptPieces,
}

impl UnitScripts {
    /// The scripts in their order.
    pub open spec fn at(self, i: int) -> ScriptPieces {
        if i == 0 {
            self.preinst
        } else if i == 1 {
            self.postinst
        } else if i == 2 {
            self.prerm
        } else {
            self.postrm
        }
    }
}

/// A script of the user with the pieces in the place of the token, which has to be there.
pub open spec fn augmented(path: Seq<char>, text: Seq<char>, fragment: Seq<char>) -> Result<
    Seq<char>,
    ErrorView,
> {
    if contains_text(text, TOKEN@) {
        Ok(replaced(text, TOKEN@, fragment))
    } else {
        Err(ErrorView::DebHelperReplaceFailed(path))
    }
}

/// What becomes of a script: that of the user with the pieces in it, or where there is none, one of
/// the pieces alone. Without a script and without pieces there is none.
pub open spec fn script_made(p: ScriptPieces) -> Result<Option<Seq<char>>, ErrorView> {
    match p.user {
        UserScript::Missing => Ok(
            if p.fragment@.len() > 0 {
                Some(SCRIPT_HEAD@ + p.fragment@)
            } else {
                None
            },
        ),
        UserScript::Text { path, text } => match augmented(path@, text@, p.fragment@) {
            Ok(t) => Ok(Some(t)),
            Err(e) => Err(e),
        },
        UserScript::Unreadable(e) => Err(ErrorView::Io(e.deep_view())),
    }
}

/// What becomes of the first `n` scripts, or the first error among them.
pub open spec fn scripts_made(u: UnitScripts, n: int) -> Result<Seq<Option<Seq<char>>>, ErrorView>
    decreases n,
{
    if n <= 0 {
        Ok(Seq::empty())
    } else {
        match scripts_made(u, n - 1) {
            Err(e) => Err(e),
            Ok(before) => match script_made(u.at(n - 1)) {
                Err(e) => Err(e),
                Ok(s) => Ok(before.push(s)),
            },
        }
    }
}

/// What becomes of the scripts for the entries of the manifest on units: what the last of them makes,
/// unless there is an error before. Each one begins with the scripts of the user.
pub open spec fn unit_scripts_made(units: Seq<UnitScripts>) -> Result<
    Seq<Option<Seq<char>>>,
    ErrorView,
>
    decreases units.len(),
{
    if units.len() == 0 {
        Ok(seq![None, None, None, None])
    } else {
        match unit_scripts_made(units.drop_last()) {
            Err(e) => Err(e),
            Ok(_) => scripts_made(units.last(), 4),
        }
    }
}

/// Puts pieces in the place of the token in a script of the user.
pub fn augment(path: &str, text: &str, fragment: &str) -> (r: CDResult<String>)
    ensures
        match augmented(path@, text@, fragment@) {
            Ok(t) => r is Ok && (r->Ok_0)@ == t,
            Err(e) => r is Err && r->Err_0.deep_view() == e,
        },
{
    if !has_text(text, TOKEN) {
        return Err(CargoDebError::DebHelperReplaceFailed(path.to_owned()));
    }
    proof {
        reveal_strlit("#DEBHELPER#");
    }
    Ok(replace(text, TOKEN, fragment))
}

fn make_script(p: &ScriptPieces) -> (r: CDResult<Option<String>>)
    ensures
        match script_made(*p) {
            Ok(s) => r is Ok && r->Ok_0.deep_view() == s,
            Err(e) => r is Err && r->Err_0.deep_view() == e,
        },
{
    match &p.user {
        UserScript::Missing => if p.fragment.as_str().is_empty() {
            Ok(None)
        } else {
            Ok(Some(cat(SCRIPT_HEAD, p.fragment.as_str())))
        },
        UserScript::Text { path, text } => match augment(
            path.as_str(),
            text.as_str(),
            p.fragment.as_str(),
        ) {
            Ok(t) => Ok(Some(t)),
            Err(e) => Err(e),
        },
        UserScript::Unreadable(e) => Err(CargoDebError::Io(e.clone())),
    }
}

proof fn lemma_made_error(u: UnitScripts, n: int)
    requires
        0 <= n <= 4,
        scripts_made(u, n) is Err,
    ensures
        scripts_made(u, 4) == scripts_made(u, n),
    decreases 4 - n,
{
    if n < 4 {
        lemma_made_error(u, n + 1);
    }
}

/// Puts the pieces into the scripts of the user, and makes the scripts that are missing. The scripts
/// are preinst, postinst, prerm and postrm.
pub fn apply(scripts: &UnitScripts) -> (r: CDResult<Vec<Option<String>>>)
    ensures
        match scripts_made(*scripts, 4) {
            Ok(s) => r is Ok && r->Ok_0.deep_view() == s,
            Err(e) => r is Err && r->Err_0.deep_view() == e,
        },
        r is Ok ==> (r->Ok_0).len() == 4,
{
    let mut out: Vec<Option<String>> = Vec::new();
    let mut i: usize = 0;
    assert(out.deep_view() =~= Seq::<Option<Seq<char>>>::empty());
    while i < 4
        invariant
            i <= 4,
            out.len() == i,
            scripts_made(*scripts, i as int) is Ok,
            scripts_made(*scripts, i as int)->Ok_0 == out.deep_view(),
        decreases 4 - i,
    {
        let ghost before = out.deep_view();
        let pieces = match i {
            0 => &scripts.preinst,
            1 => &scripts.postinst,
            2 => &scripts.prerm,
            _ => &scripts.postrm,
        };
        match make_script(pieces) {
            Ok(s) => {
                let ghost sv = s.deep_view();
                out.push(s);
                assert(out.deep_view() =~= before.push(sv));
            },
            Err(e) => {
                proof {
                    lemma_made_error(*scripts, i + 1);
                }
                return Err(e);
            },
        }
        i += 1;
    }
    Ok(out)
}

proof fn lemma_unit_error(units: Seq<UnitScripts>, n: int)
    requires
        0 <= n <= units.len(),
        unit_scripts_made(units.take(n)) is Err,
    ensures
        unit_scripts_made(units) == unit_scripts_made(units.take(n)),
    decreases units.len(),
{
    if n == units.len() {
        assert(units.take(n) =~= units);
    } else {
        assert(units.drop_last().take(n) =~= units.take(n));
        lemma_unit_error(units.drop_last(), n);
    }
}

/// The scripts that are made for the entries of the manifest on units.
pub fn apply_all(units: &Vec<UnitScripts>) -> (r: CDResult<Vec<Option<String>>>)
    ensures
        match unit_scripts_made(units@) {
            Ok(s) => r is Ok && r->Ok_0.deep_view() == s,
            Err(e) => r is Err && r->Err_0.deep_view() == e,
        },
        r is Ok ==> (r->Ok_0).len() == 4,
{
    let mut made: Vec<Option<String>> = Vec::new();
    made.push(None);
    made.push(None);
    made.push(None);
    made.push(None);
    assert(made.deep_view() =~= seq![None, None, None, None]);
    assert(units@.take(0) =~= Seq::<UnitScripts>::empty());
    let mut i: usize = 0;
    while i < units.len()
        invariant
            i <= units.len(),
            made.len() == 4,
            unit_scripts_made(units@.take(i as int)) is Ok,
            unit_scripts_made(units@.take(i as int))->Ok_0 == made.deep_view(),
        decreases units.len() - i,
    {
        proof {
            assert(units@.take(i + 1).drop_last() =~= units@.take(i as int));
            assert(units@.take(i + 1).last() == units@[i as int]);
        }
        match apply(&units[i]) {
            Ok(m) => {
                made = m;
            },
            Err(e) => {
                proof {
                    lemma_unit_error(units@, i + 1);
                }
                return Err(e);
            },
        }
        i += 1;
    }
    assert(units@.take(i as int) =~= units@);
    Ok(made)
}

// ---------------------------------------------------------------------------
// No token is left
// ---------------------------------------------------------------------------
/// Pieces are whole lines, which begin with a comment, and the token does not stand in them.
pub open spec fn is_fragment(f: Seq<char>) -> bool {
    has_prefix(f, "# "@) && has_suffix(f, "\n"@) && !contains_text(f, TOKEN@)
}

/// Where the token stands in a text, it stands at the end of a line.
pub open spec fn tokens_end_lines(s: Seq<char>) -> bool {
    forall|i: int| #[trigger]
        occurs_at(s, TOKEN@, i) ==> i + TOKEN@.len() == s.len() || s[i + TOKEN@.len()] == '\n'
}

/// What is put in the place of the token cannot make up another one: it is whole lines, or it is
/// nothing and the token stands at the ends of lines.
pub open spec fn fits(s: Seq<char>, f: Seq<char>) -> bool {
    is_fragment(f) || (f.len() == 0 && tokens_end_lines(s))
}

proof fn lemma_join_first(a: Seq<char>, rest: Seq<Seq<char>>, sep: Seq<char>)
    requires
        rest.len() > 0,
    ensures
        join(seq![a] + rest, sep) == a + sep + join(rest, sep),
    decreases rest.len(),
{
    reveal_with_fuel(join, 2);
    let all = seq![a] + rest;
    assert(all.drop_last() =~= seq![a] + rest.drop_last());
    assert(all.last() == rest.last());
    if rest.len() == 1 {
        assert(seq![a] + rest.drop_last() =~= seq![a]);
        assert(join(all, sep) =~= a + sep + join(rest, sep));
    } else {
        lemma_join_first(a, rest.drop_last(), sep);
        assert(join(all, sep) =~= a + sep + join(rest, sep));
    }
}

/// What is in front of the first placeholder stays, and what is behind it is searched again.
pub proof fn lemma_replaced(s: Seq<char>, p: Seq<char>, f: Seq<char>)
    requires
        p.len() > 0,
    ensures
        ({
            let i = find_text(s, p, 0);
            &&& i == -1 || (0 <= i && i + p.len() <= s.len())
            &&& i < 0 ==> replaced(s, p, f) == s
            &&& i >= 0 ==> replaced(s, p, f) == s.take(i) + f + replaced(
                s.skip(i + p.len()),
                p,
                f,
            )
        }),
{
    let i = find_text(s, p, 0);
    lemma_find_text(s, p, 0);
    if i < 0 {
        reveal_with_fuel(join, 2);
        assert(join(seq![s], f) =~= s);
    } else {
        let rest = split_text(s.skip(i + p.len()), p);
        assert(rest.len() > 0);
        lemma_join_first(s.take(i), rest, f);
    }
}

proof fn lemma_token()
    ensures
        TOKEN@.len() == 11,
        TOKEN@[0] == '#' && TOKEN@[10] == '#',
        forall|j: int| 0 <= j < 11 ==> #[trigger] TOKEN@[j] != ' ' && TOKEN@[j] != '\n',
{
    reveal_strlit("#DEBHELPER#");
    let t = TOKEN@;
    assert forall|j: int| 0 <= j < 11 implies #[trigger] t[j] != ' ' && t[j] != '\n' by {
        assert(j == 0 || j == 1 || j == 2 || j == 3 || j == 4 || j == 5 || j == 6 || j == 7 || j == 8
            || j == 9 || j == 10);
    }
}

/// A character where the token would be is one of the token.
proof fn lemma_token_char(r: Seq<char>, k: int, at: int)
    requires
        occurs_at(r, TOKEN@, k),
        k <= at < k + 11,
    ensures
        r[at] == TOKEN@[at - k],
        r[at] != ' ' && r[at] != '\n',
{
    lemma_token();
    assert(r.subrange(k, k + 11)[at - k] == r[at]);
}

proof fn lemma_occurs_within(r: Seq<char>, from: int, part: Seq<char>, k: int)
    requires
        0 <= from,
        from + part.len() <= r.len(),
        r.subrange(from, from + part.len()) == part,
        from <= k,
        k + 11 <= from + part.len(),
    ensures
        occurs_at(r, TOKEN@, k) <==> occurs_at(part, TOKEN@, k - from),
{
    lemma_token();
    assert(part.subrange(k - from, k - from + 11) =~= r.subrange(k, k + 11));
}

proof fn lemma_first_char(s: Seq<char>, f: Seq<char>)
    requires
        s.len() > 0,
        s[0] == '\n',
    ensures
        replaced(s, TOKEN@, f).len() > 0,
        replaced(s, TOKEN@, f)[0] == '\n',
{
    lemma_token();
    lemma_replaced(s, TOKEN@, f);
    let i = find_text(s, TOKEN@, 0);
    lemma_find_text(s, TOKEN@, 0);
    if i == 0 {
        lemma_token_char(s, 0, 0);
    }
}

/// Once something that fits has been put in its place, the token is nowhere left.
pub proof fn law_no_token_left(s: Seq<char>, f: Seq<char>)
    requires
        fits(s, f),
    ensures
        !contains_text(replaced(s, TOKEN@, f), TOKEN@),
    decreases s.len(),
{
    let t = TOKEN@;
    let i = find_text(s, t, 0);
    let r = replaced(s, t, f);
    lemma_token();
    lemma_replaced(s, t, f);
    lemma_find_text(s, t, 0);
    if i >= 0 {
        let rest = s.skip(i + 11);
        let tail = replaced(rest, t, f);
        let n = i + f.len();
        assert(r =~= s.take(i) + f + tail);
        if f.len() == 0 {
            reveal_strlit("# ");
            assert(tokens_end_lines(s));
            assert(s.subrange(i + 11, i + 11 + rest.len()) =~= rest);
            assert forall|k: int| #[trigger] occurs_at(rest, t, k) implies k + t.len() == rest.len()
                || rest[k + t.len()] == '\n' by {
                lemma_occurs_within(s, i + 11, rest, i + 11 + k);
                assert(occurs_at(s, t, i + 11 + k));
                if k + 11 < rest.len() {
                    assert(rest[k + 11] == s[i + 11 + k + 11]);
                }
            }
        }
        law_no_token_left(rest, f);
        assert forall|k: int| !occurs_at(r, t, k) by {
            if occurs_at(r, t, k) {
                if k + 11 <= i {
                    assert(r.subrange(0, 0 + i) =~= s.take(i));
                    assert(s.subrange(0, 0 + i) =~= s.take(i));
                    lemma_occurs_within(r, 0, s.take(i), k);
                    lemma_occurs_within(s, 0, s.take(i), k);
                } else if k >= n {
                    assert(r.subrange(n as int, n + tail.len()) =~= tail);
                    lemma_occurs_within(r, n as int, tail, k);
                    assert(contains_text(tail, t));
                } else if f.len() == 0 {
                    assert(occurs_at(s, t, i));
                    if rest.len() == 0 {
                        lemma_replaced(rest, t, f);
                        lemma_find_text(rest, t, 0);
                        assert(tail.len() == 0);
                    } else {
                        assert(rest[0] == s[i + 11]);
                        lemma_first_char(rest, f);
                        assert(r[i] == tail[0]);
                        lemma_token_char(r, k, i);
                    }
                } else {
                    lemma_seam(s, f, tail, k);
                }
            }
        }
    }
}

/// The token does not stand where pieces are.
proof fn lemma_seam(s: Seq<char>, f: Seq<char>, tail: Seq<char>, k: int)
    requires
        is_fragment(f),
        find_text(s, TOKEN@, 0) >= 0,
        ({
            let i = find_text(s, TOKEN@, 0);
            &&& i < k + 11
            &&& k < i + f.len()
        }),
    ensures
        !occurs_at(s.take(find_text(s, TOKEN@, 0)) + f + tail, TOKEN@, k),
{
    let t = TOKEN@;
    let i = find_text(s, t, 0);
    let r = s.take(i) + f + tail;
    lemma_token();
    lemma_find_text(s, t, 0);
    reveal_strlit("# ");
    reveal_strlit("\n");
    assert(f.take(2)[0] == '#' && f.take(2)[1] == ' ');
    assert(f[0] == '#' && f[1] == ' ');
    assert(f.skip(f.len() - 1)[0] == '\n');
    assert(f.last() == '\n');
    if occurs_at(r, t, k) {
        if k < i {
            if k + 11 > i + 1 {
                assert(r[i + 1] == f[1]);
                lemma_token_char(r, k, i + 1);
            } else {
                assert(s.subrange(k, k + 11) =~= r.subrange(k, k + 11)) by {
                    lemma_token_char(s, i, i);
                    assert(r[i] == f[0]);
                }
                assert(occurs_at(s, t, k));
            }
        } else if k + 11 <= i + f.len() {
            assert(r.subrange(i, i + f.len()) =~= f);
            lemma_occurs_within(r, i, f, k);
            assert(contains_text(f, t));
        } else {
            assert(r[i + f.len() - 1] == f.last());
            lemma_token_char(r, k, i + f.len() - 1);
        }
    }
}

/// What is put into a script fits.
pub open spec fn pieces_fit(p: ScriptPieces) -> bool {
    match p.user {
        UserScript::Text { text, .. } => fits(text@, p.fragment@),
        _ => p.fragment@.len() == 0 || is_fragment(p.fragment@),
    }
}

proof fn lemma_head(f: Seq<char>)
    requires
        is_fragment(f),
    ensures
        !contains_text(SCRIPT_HEAD@ + f, TOKEN@),
{
    let h = SCRIPT_HEAD@;
    let r = h + f;
    reveal_strlit("#!/bin/sh\nset -e\n");
    assert(h.len() == 17 && h[9] == '\n' && h[16] == '\n');
    assert forall|k: int| !occurs_at(r, TOKEN@, k) by {
        lemma_token();
        if occurs_at(r, TOKEN@, k) {
            if k <= 9 {
                lemma_token_char(r, k, 9);
            } else if k <= 16 {
                lemma_token_char(r, k, 16);
            } else {
                assert(r.subrange(17, 17int + f.len()) =~= f);
                lemma_occurs_within(r, 17, f, k);
                assert(contains_text(f, TOKEN@));
            }
        }
    }
}

/// No script that is made holds the token, if what is put into the scripts fits.
pub proof fn law_made_scripts_hold_no_token(units: Seq<UnitScripts>)
    requires
        units.len() > 0,
        forall|i: int| 0 <= i < 4 ==> pieces_fit(#[trigger] units.last().at(i)),
        unit_scripts_made(units) is Ok,
    ensures
        unit_scripts_made(units)->Ok_0.len() == 4,
        forall|i: int|
            0 <= i < 4 ==> ((#[trigger] unit_scripts_made(units)->Ok_0[i]) matches Some(text)
                ==> !contains_text(text, TOKEN@)),
        forall|i: int|
            0 <= i < 4 && units.last().at(i).user is Text ==> (
            #[trigger] unit_scripts_made(units)->Ok_0[i]) is Some,
{
    let u = units.last();
    reveal_with_fuel(scripts_made, 5);
    let made = scripts_made(u, 4)->Ok_0;
    assert forall|i: int| 0 <= i < 4 implies #[trigger] made[i] == script_made(u.at(i))->Ok_0
        && script_made(u.at(i)) is Ok by {
        assert(i == 0 || i == 1 || i == 2 || i == 3);
    }
    assert forall|i: int| 0 <= i < 4 implies ((#[trigger] made[i]) matches Some(text)
        ==> !contains_text(text, TOKEN@)) by {
        let p = u.at(i);
        assert(pieces_fit(p));
        match p.user {
            UserScript::Text { text, .. } => {
                law_no_token_left(text@, p.fragment@);
            },
            _ => {
                if p.fragment@.len() > 0 {
                    lemma_head(p.fragment@);
                }
            },
        }
    }
}

} // verus!
