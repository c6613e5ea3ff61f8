//! The libraries that a binary needs, as `dpkg-shlibdeps` finds them.
use crate::error::{CDResult, CargoDebError, Cause, ErrorView};
use crate::text::{cat, chars_of, has_prefix, slice, starts_with};
use vstd::prelude::*;
use vstd::utf8::{decode_utf8, encode_utf8, valid_utf8};

verus! {

/// The command that finds the libraries.
pub const DPKG_SHLIBDEPS_COMMAND: &'static str = "dpkg-shlibdeps";

/// What running a command gave.
#[derive(Debug)]
pub enum CommandOutcome {
    /// It could not be run.
    NotRun(Cause),
    Done { success: bool, stdout: Vec<u8>, stderr: Vec<u8> },
}

// ---------------------------------------------------------------------------
// Bytes
// ---------------------------------------------------------------------------
/// The pieces between the bytes `c`.
pub open spec fn split_bytes(s: Seq<u8>, c: u8) -> Seq<Seq<u8>>
    decreases s.len(),
{
    if s.len() == 0 {
        seq![Seq::empty()]
    } else {
        let before = split_bytes(s.drop_last(), c);
        if s.last() == c {
            before.push(Seq::empty())
        } else {
            before.drop_last().push(before.last().push(s.last()))
        }
    }
}

pub open spec fn byte_views(v: Seq<Vec<u8>>) -> Seq<Seq<u8>> {
    v.map_values(|p: Vec<u8>| p@)
}

fn split_at_byte(s: &Vec<u8>, c: u8) -> (r: Vec<Vec<u8>>)
    ensures
        byte_views(r@) == split_bytes(s@, c),
        r.len() >= 1,
{
    let mut out: Vec<Vec<u8>> = Vec::new();
    let mut piece: Vec<u8> = Vec::new();
    let mut i: usize = 0;
    assert(s@.take(0) =~= Seq::<u8>::empty());
    assert(byte_views(out@).push(piece@) =~= seq![Seq::<u8>::empty()]);
    while i < s.len()
        invariant
            i <= s.len(),
            byte_views(out@).push(piece@) == split_bytes(s@.take(i as int), c),
        decreases s.len() - i,
    {
        let ghost before = byte_views(out@);
        let ghost p = piece@;
        proof {
            assert(s@.take(i + 1).drop_last() =~= s@.take(i as int));
            assert(s@.take(i + 1).last() == s@[i as int]);
            assert(before.push(p).drop_last() =~= before);
            assert(before.push(p).last() == p);
        }
        if s[i] == c {
            let mut done: Vec<u8> = Vec::new();
            std::mem::swap(&mut done, &mut piece);
            out.push(done);
            assert(byte_views(out@) =~= before.push(p));
            assert(piece@ =~= Seq::<u8>::empty());
        } else {
            piece.push(s[i]);
        }
        i += 1;
    }
    assert(s@.take(i as int) =~= s@);
    let ghost before = byte_views(out@);
    let ghost p = piece@;
    out.push(piece);
    assert(byte_views(out@) =~= before.push(p));
    out
}

/// `std::str::from_utf8` reads bytes as UTF-8, if they are.
#[verifier::external_body]
fn text_of(bytes: &[u8]) -> (r: Option<String>)
    ensures
        r is Some <==> valid_utf8(bytes@),
        r is Some ==> r->0@ == decode_utf8(bytes@),
{
    match std::str::from_utf8(bytes) {
        Ok(s) => Some(s.to_owned()),
        Err(_) => None,
    }
}

// ---------------------------------------------------------------------------
// The output of the command
// ---------------------------------------------------------------------------
pub open spec fn bytes_have_prefix(s: Seq<u8>, p: Seq<u8>) -> bool {
    p.len() <= s.len() && s.take(p.len() as int) == p
}

/// What follows the prefix on the first line that begins with it.
pub open spec fn first_with_prefix(lines: Seq<Seq<u8>>, p: Seq<u8>) -> Option<Seq<u8>>
    decreases lines.len(),
{
    if lines.len() == 0 {
        None
    } else if bytes_have_prefix(lines[0], p) {
        Some(lines[0].skip(p.len() as int))
    } else {
        first_with_prefix(lines.skip(1), p)
    }
}

/// The ASCII characters that are white space.
pub open spec fn is_ascii_space(c: char) -> bool {
    c == ' ' || c == '\t' || c == '\n' || c == '\u{c}' || c == '\r'
}

/// `s` without the ASCII white space that it begins with.
pub open spec fn ascii_trim_start(s: Seq<char>) -> Seq<char>
    decreases s.len(),
{
    if s.len() > 0 && is_ascii_space(s[0]) {
        ascii_trim_start(s.skip(1))
    } else {
        s
    }
}

/// `s` without the ASCII white space that it ends with.
pub open spec fn ascii_trim_end(s: Seq<char>) -> Seq<char>
    decreases s.len(),
{
    if s.len() > 0 && is_ascii_space(s.last()) {
        ascii_trim_end(s.drop_last())
    } else {
        s
    }
}

/// A dependency as it is written, if it is text, and is wanted: libgcc is guaranteed by LSB to
/// always be present.
pub open spec fn wanted_dependency(piece: Seq<u8>) -> Option<Seq<char>> {
    let dep = ascii_trim_end(ascii_trim_start(decode_utf8(piece)));
    if valid_utf8(piece) && !has_prefix(dep, "libgcc-"@) && !has_prefix(dep, "libgcc1"@) {
        Some(dep)
    } else {
        None
    }
}

pub open spec fn wanted_dependencies(pieces: Seq<Seq<u8>>) -> Seq<Seq<char>>
    decreases pieces.len(),
{
    if pieces.len() == 0 {
        Seq::empty()
    } else {
        match wanted_dependency(pieces.last()) {
            Some(d) => wanted_dependencies(pieces.drop_last()).push(d),
            None => wanted_dependencies(pieces.drop_last()),
        }
    }
}

/// The dependencies in the output of the command, if it has any.
pub open spec fn listed_dependencies(stdout: Seq<u8>) -> Option<Seq<Seq<char>>> {
    match first_with_prefix(split_bytes(stdout, 10), encode_utf8("shlibs:Depends="@)) {
        Some(list) => Some(wanted_dependencies(split_bytes(list, 44))),
        None => None,
    }
}

fn ascii_space(c: char) -> (r: bool)
    ensures
        r == is_ascii_space(c),
{
    c == ' ' || c == '\t' || c == '\n' || c == '\u{c}' || c == '\r'
}

fn ascii_trimmed(s: &str) -> (r: String)
    ensures
        r@ == ascii_trim_end(ascii_trim_start(s@)),
{
    let v = chars_of(s);
    let mut i: usize = 0;
    assert(s@.skip(0) =~= s@);
    while i < v.len() && ascii_space(v[i])
        invariant
            v@ == s@,
            i <= v.len(),
            ascii_trim_start(s@) == ascii_trim_start(s@.skip(i as int)),
        decreases v.len() - i,
    {
        assert(s@.skip(i as int).skip(1) =~= s@.skip(i + 1));
        i += 1;
    }
    let ghost t = s@.skip(i as int);
    assert(ascii_trim_start(s@) == t);
    let mut j: usize = v.len();
    assert(t =~= s@.subrange(i as int, j as int));
    while j > i && ascii_space(v[j - 1])
        invariant
            v@ == s@,
            i <= j <= v.len(),
            ascii_trim_end(t) == ascii_trim_end(s@.subrange(i as int, j as int)),
        decreases j,
    {
        assert(s@.subrange(i as int, j as int).drop_last() =~= s@.subrange(i as int, j - 1));
        j -= 1;
    }
    slice(&v, i, j)
}

fn strip_bytes(line: &Vec<u8>, prefix: &[u8]) -> (r: Option<Vec<u8>>)
    ensures
        r is Some <==> bytes_have_prefix(line@, prefix@),
        r is Some ==> r->0@ == line@.skip(prefix@.len() as int),
{
    if line.len() < prefix.len() {
        return None;
    }
    let mut i: usize = 0;
    while i < prefix.len()
        invariant
            prefix.len() <= line.len(),
            i <= prefix.len(),
            forall|k: int| 0 <= k < i ==> line@[k] == prefix@[k],
        decreases prefix.len() - i,
    {
        if line[i] != prefix[i] {
            assert(line@.take(prefix@.len() as int)[i as int] != prefix@[i as int]);
            return None;
        }
        i += 1;
    }
    assert(line@.take(prefix@.len() as int) =~= prefix@);
    let mut out: Vec<u8> = Vec::new();
    while i < line.len()
        invariant
            prefix.len() <= i <= line.len(),
            out@ == line@.subrange(prefix@.len() as int, i as int),
        decreases line.len() - i,
    {
        out.push(line[i]);
        assert(line@.subrange(prefix@.len() as int, i + 1) =~= out@);
        i += 1;
    }
    assert(out@ =~= line@.skip(prefix@.len() as int));
    Some(out)
}

fn find_list(lines: &Vec<Vec<u8>>, prefix: &[u8]) -> (r: Option<Vec<u8>>)
    ensures
        match first_with_prefix(byte_views(lines@), prefix@) {
            Some(rest) => r is Some && r->0@ == rest,
            None => r is None,
        },
{
    let ghost all = byte_views(lines@);
    let mut i: usize = 0;
    assert(all.skip(0) =~= all);
    while i < lines.len()
        invariant
            i <= lines.len(),
            all == byte_views(lines@),
            first_with_prefix(all, prefix@) == first_with_prefix(all.skip(i as int), prefix@),
        decreases lines.len() - i,
    {
        proof {
            assert(all.skip(i as int)[0] == lines[i as int]@);
            assert(all.skip(i as int).skip(1) =~= all.skip(i + 1));
        }
        if let Some(rest) = strip_bytes(&lines[i], prefix) {
            return Some(rest);
        }
        i += 1;
    }
    None
}

/// The dependencies in the output of the command.
pub fn parse_dependencies(stdout: &Vec<u8>) -> (r: CDResult<Vec<String>>)
    ensures
        match listed_dependencies(stdout@) {
            Some(deps) => r is Ok && r->Ok_0.deep_view() == deps,
            None => r is Err && r->Err_0.deep_view() == ErrorView::Str(
                "Failed to find dependency specification."@,
            ),
        },
{
    let lines = split_at_byte(stdout, 10);
    let list = match find_list(&lines, "shlibs:Depends=".as_bytes()) {
        Some(l) => l,
        None => {
            return Err(CargoDebError::Str("Failed to find dependency specification."));
        },
    };
    let pieces = split_at_byte(&list, 44);
    let ghost all = byte_views(pieces@);
    let mut deps: Vec<String> = Vec::new();
    let mut i: usize = 0;
    assert(all.take(0) =~= Seq::<Seq<u8>>::empty());
    assert(deps.deep_view() =~= Seq::<Seq<char>>::empty());
    while i < pieces.len()
        invariant
            i <= pieces.len(),
            all == byte_views(pieces@),
            deps.deep_view() == wanted_dependencies(all.take(i as int)),
        decreases pieces.len() - i,
    {
        let ghost before = deps.deep_view();
        proof {
            assert(all.take(i + 1).drop_last() =~= all.take(i as int));
            assert(all.take(i + 1).last() == pieces[i as int]@);
        }
        if let Some(text) = text_of(pieces[i].as_slice()) {
            let dep = ascii_trimmed(text.as_str());
            // libgcc guaranteed by LSB to always be present
            if !starts_with(dep.as_str(), "libgcc-") && !starts_with(dep.as_str(), "libgcc1") {
                let ghost d = dep@;
                deps.push(dep);
                assert(deps.deep_view() =~= before.push(d));
            }
        }
        i += 1;
    }
    assert(all.take(i as int) =~= all);
    Ok(deps)
}

// ---------------------------------------------------------------------------
// Running the command
// ---------------------------------------------------------------------------
pub open spec fn search_args(dirs: Seq<Seq<char>>) -> Seq<Seq<char>> {
    dirs.map_values(|d: Seq<char>| "-l"@ + d)
}

/// The arguments of the command: where libraries are, and that the result is not to go to a file.
pub open spec fn shlibdeps_args(path: Seq<char>, dirs: Seq<Seq<char>>) -> Seq<Seq<char>> {
    seq!["-xlibgcc"@] + search_args(dirs) + seq!["-O"@, path]
}

pub fn dpkg_shlibdeps_args(path: &str, lib_dir_search_paths: &Vec<String>) -> (r: Vec<String>)
    ensures
        r.deep_view() == shlibdeps_args(path@, lib_dir_search_paths.deep_view()),
{
    let ghost dirs = search_args(lib_dir_search_paths.deep_view());
    let mut args: Vec<String> = Vec::new();
    args.push("-xlibgcc".to_owned());
    let mut i: usize = 0;
    assert(args.deep_view() =~= seq!["-xlibgcc"@] + dirs.take(0));
    while i < lib_dir_search_paths.len()
        invariant
            i <= lib_dir_search_paths.len(),
            dirs == search_args(lib_dir_search_paths.deep_view()),
            args.deep_view() == seq!["-xlibgcc"@] + dirs.take(i as int),
        decreases lib_dir_search_paths.len() - i,
    {
        let ghost before = args.deep_view();
        args.push(cat("-l", lib_dir_search_paths[i].as_str()));
        proof {
            assert(dirs[i as int] == "-l"@ + lib_dir_search_paths[i as int]@);
            assert(args.deep_view() =~= before.push(dirs[i as int]));
            assert(dirs.take(i + 1) =~= dirs.take(i as int).push(dirs[i as int]));
        }
        i += 1;
    }
    let ghost before = args.deep_view();
    args.push("-O".to_owned());
    args.push(path.to_owned());
    assert(dirs.take(i as int) =~= dirs);
    assert(args.deep_view() =~= before + seq!["-O"@, path@]);
    args
}

/// Resolves the dependencies based on the output of dpkg-shlibdeps on the binary.
/// `command` is what was run.
pub fn resolve_with_dpkg(outcome: CommandOutcome, command: String) -> (r: CDResult<Vec<String>>)
    ensures
        match outcome {
            CommandOutcome::NotRun(e) => r is Err && r->Err_0.deep_view()
                == ErrorView::CommandFailed(e.deep_view(), DPKG_SHLIBDEPS_COMMAND@),
            CommandOutcome::Done { success, stdout, stderr } => if !success {
                r is Err && r->Err_0.deep_view() == ErrorView::CommandError(
                    DPKG_SHLIBDEPS_COMMAND@,
                    command@,
                    stderr@,
                )
            } else {
                match listed_dependencies(stdout@) {
                    Some(deps) => r is Ok && r->Ok_0.deep_view() == deps,
                    None => r is Err && r->Err_0.deep_view() == ErrorView::Str(
                        "Failed to find dependency specification."@,
                    ),
                }
            },
        },
{
    match outcome {
        CommandOutcome::NotRun(e) => Err(
            CargoDebError::CommandFailed(e, DPKG_SHLIBDEPS_COMMAND.to_owned()),
        ),
        CommandOutcome::Done { success, stdout, stderr } => {
            if !success {
                return Err(CargoDebError::CommandError(DPKG_SHLIBDEPS_COMMAND, command, stderr));
            }
            parse_dependencies(&stdout)
        },
    }
}

/// libgcc is never among the dependencies.
pub proof fn law_no_libgcc(stdout: Seq<u8>)
    requires
        listed_dependencies(stdout) is Some,
    ensures
        forall|i: int|
            0 <= i < listed_dependencies(stdout)->0.len() ==> !has_prefix(
                #[trigger] listed_dependencies(stdout)->0[i],
                "libgcc-"@,
            ) && !has_prefix(listed_dependencies(stdout)->0[i], "libgcc1"@),
{
    let list = first_with_prefix(split_bytes(stdout, 10), encode_utf8("shlibs:Depends="@))->0;
    lemma_no_libgcc(split_bytes(list, 44));
}

proof fn lemma_no_libgcc(pieces: Seq<Seq<u8>>)
    ensures
        forall|i: int|
            0 <= i < wanted_dependencies(pieces).len() ==> !has_prefix(
                #[trigger] wanted_dependencies(pieces)[i],
                "libgcc-"@,
            ) && !has_prefix(wanted_dependencies(pieces)[i], "libgcc1"@),
    decreases pieces.len(),
{
    if pieces.len() > 0 {
        lemma_no_libgcc(pieces.drop_last());
        let before = wanted_dependencies(pieces.drop_last());
        let all = wanted_dependencies(pieces);
        assert forall|i: int| 0 <= i < all.len() implies !has_prefix(
            #[trigger] all[i],
            "libgcc-"@,
        ) && !has_prefix(all[i], "libgcc1"@) by {
            if i < before.len() {
                assert(all[i] == before[i]);
            }
        }
    }
}

} // verus!
