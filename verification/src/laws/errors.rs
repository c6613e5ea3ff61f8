//! What is said of errors.
use crate::error::{cause_texts, message_text, path_candidates, trim_prefixes, CauseView, ErrorView, SurroundingsView};
use crate::paths::{is_absolute, parent};
use crate::text::{contains_text, has_prefix, occurs_at};
use vstd::prelude::*;

verus! {

/// A text that holds another one between two parts.
proof fn lemma_held(a: Seq<char>, b: Seq<char>, c: Seq<char>)
    ensures
        contains_text(a + b + c, b),
{
    let s = a + b + c;
    assert(s.subrange(a.len() as int, (a.len() + b.len()) as int) =~= b);
    assert(occurs_at(s, b, a.len() as int));
}

proof fn lemma_last(a: Seq<char>, b: Seq<char>)
    ensures
        contains_text(a + b, b),
{
    lemma_held(a, b, Seq::empty());
    assert(a + b + Seq::<char>::empty() =~= a + b);
}

/// What is said of an error with a name names it.
pub proof fn law_errors_name_things(m: SurroundingsView, a: Seq<char>, b: Seq<char>)
    ensures
        contains_text(message_text(ErrorView::InvalidVersion(a, b), m), b),
        contains_text(message_text(ErrorView::InvalidVersion(a, b), m), a),
        contains_text(message_text(ErrorView::InstallFailed(a), m), a),
        contains_text(message_text(ErrorView::DebHelperReplaceFailed(a), m), a),
        contains_text(message_text(ErrorView::StripFailed(a, b), m), a),
        contains_text(message_text(ErrorView::StripFailed(a, b), m), b),
        contains_text(message_text(ErrorView::BinariesNotFound(a), m), a),
        contains_text(message_text(ErrorView::PackageNotFoundInWorkspace(a, b), m), a),
        contains_text(message_text(ErrorView::PackageNotFoundInWorkspace(a, b), m), b),
        contains_text(message_text(ErrorView::NoRootFoundInWorkspace(a), m), a),
        contains_text(message_text(ErrorView::VariantNotFound(a), m), a),
        contains_text(message_text(ErrorView::InvalidSymlink(a, b), m), a),
        contains_text(message_text(ErrorView::InvalidSymlink(a, b), m), b),
        contains_text(message_text(ErrorView::CannotReadVirtualSymlink(a), m), a),
        contains_text(message_text(ErrorView::LzmaCompressionError(a), m), a),
        message_text(ErrorView::Str(a), m) == a,
{
    let e = Seq::<char>::empty();
    lemma_held("Version '"@, b, "' is invalid: "@ + a);
    assert("Version '"@ + b + ("' is invalid: "@ + a) =~= "Version '"@ + b + "' is invalid: "@ + a);
    lemma_last("Version '"@ + b + "' is invalid: "@, a);
    lemma_last("Installation failed, because `dpkg -i` returned error "@, a);
    lemma_held("Unable to replace #DEBHELPER# token in maintainer script '"@, a, "'"@);
    lemma_held("Unable to strip binary '"@, a, "': "@ + b);
    assert("Unable to strip binary '"@ + a + ("': "@ + b) =~= "Unable to strip binary '"@ + a + "': "@
        + b);
    lemma_last("Unable to strip binary '"@ + a + "': "@, b);
    lemma_held(
        "No binaries or cdylibs found. The package '"@,
        a,
        "' is empty. Please specify some assets to package in Cargo.toml"@,
    );
    let head = "The workspace doesn't have a package named "@;
    let mid = ".\nnote: Available packages are: "@;
    lemma_held(head, a, mid + b);
    assert(head + a + (mid + b) =~= head + a + mid + b);
    lemma_last(head + a + mid, b);
    lemma_last(
        "This is a workspace with multiple packages, and there is no single package at the root.\nPlease specify the package with `-p` or set one in the workspace's `default-members = []`.\nnote: Available packages are: "@,
        a,
    );
    lemma_held("[package.metadata.deb.variants."@, a, "] not found in Cargo.toml"@);
    let out = "' points outside of the package: '"@;
    lemma_held("Symlink '"@, a, out + b + "'"@);
    assert("Symlink '"@ + a + (out + b + "'"@) =~= "Symlink '"@ + a + out + b + "'"@);
    lemma_held("Symlink '"@ + a + out, b, "'"@);
    lemma_held("Symlink to '"@, a, "' has no file data to read"@);
    lemma_last("Lzma compression error: "@, a);
}

/// What is said of an error with a file names it; the current directory only if that matters.
pub proof fn law_file_error(m: SurroundingsView, msg: Seq<char>, c: CauseView, file: Seq<char>)
    requires
        m.existing is None,
    ensures
        m.current_dir is None || is_absolute(file) ==> message_text(ErrorView::IoFile(msg, c, file), m)
            == msg + ": "@ + file,
        !is_absolute(file) ==> (m.current_dir matches Some(dir) ==> message_text(
            ErrorView::IoFile(msg, c, file),
            m,
        ) == msg + ": "@ + file + "\nnote: The current dir is '"@ + dir + "'"@),
        cause_texts(ErrorView::IoFile(msg, c, file), m) == seq![c.message] + c.sources,
{
    let e = Seq::<char>::empty();
    assert(msg + ": "@ + file + e + e =~= msg + ": "@ + file);
    if let Some(dir) = m.current_dir {
        assert(msg + ": "@ + file + ("\nnote: The current dir is '"@ + dir + "'"@) + e =~= msg + ": "@
            + file + "\nnote: The current dir is '"@ + dir + "'"@);
    }
}

/// An error that is explained is a cause of the explanation, and its own causes follow.
pub proof fn law_causes(m: SurroundingsView, msg: Seq<char>, inner: ErrorView)
    ensures
        message_text(ErrorView::Context(msg, Box::new(inner)), m) == msg,
        cause_texts(ErrorView::Context(msg, Box::new(inner)), m).len() == cause_texts(inner, m).len()
            + 1,
        cause_texts(ErrorView::Context(msg, Box::new(inner)), m)[0] == message_text(inner, m),
        cause_texts(ErrorView::Context(msg, Box::new(inner)), m).skip(1) == cause_texts(inner, m),
{
    let all = cause_texts(ErrorView::Context(msg, Box::new(inner)), m);
    assert(all =~= seq![message_text(inner, m)] + cause_texts(inner, m));
    assert(all.skip(1) =~= cause_texts(inner, m));
}

/// The label of an error in what a command says is left out, however often it is there.
pub proof fn law_trimmed_label(s: Seq<char>, label: Seq<char>)
    requires
        label.len() > 0,
    ensures
        trim_prefixes(label + s, label) == trim_prefixes(s, label),
        !has_prefix(s, label) ==> trim_prefixes(s, label) == s,
{
    let all = label + s;
    assert(all.take(label.len() as int) =~= label);
    assert(all.skip(label.len() as int) =~= s);
}

/// Of a file that is not there, the directories above it are looked for, from below.
pub proof fn law_path_candidates(p: Seq<char>)
    ensures
        parent(p) is None ==> path_candidates(p).len() == 0,
        parent(p) matches Some(dir) ==> path_candidates(p).len() == path_candidates(dir).len() + 1
            && path_candidates(p)[0] == p && path_candidates(p).skip(1) == path_candidates(dir),
{
    if let Some(dir) = parent(p) {
        assert(path_candidates(p).skip(1) =~= path_candidates(dir));
    }
}

} // verus!
