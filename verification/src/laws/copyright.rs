//! The copyright file of a package.
use crate::config::control::TextResult;
use crate::config::generated::{license_lines, lines_behind, CopyrightView};
use crate::config::rules::is_copyright_file;
use crate::config::{BuildEnvironment, PackageConfig};
use crate::error::ErrorView;
use crate::laws::control::{copyright_fields, lemma_copyright_head, rendered};
use crate::laws::texts::law_lines;
use crate::text::{lines, split};
use vstd::prelude::*;

verus! {

/// How a line of the license is written: one of a single space would look like the end of a
/// paragraph, so it gets a dot.
pub open spec fn license_line(line: Seq<char>) -> Seq<char> {
    if line == seq![' '] {
        seq![' ', '.']
    } else {
        line
    }
}

proof fn lemma_license_lines(ls: Seq<Seq<char>>)
    requires
        forall|i: int| 0 <= i < ls.len() ==> !(#[trigger] ls[i]).contains('\n'),
    ensures
        split(license_lines(ls), '\n').len() == ls.len() + 1,
        forall|i: int|
            0 <= i < ls.len() ==> #[trigger] split(license_lines(ls), '\n')[i] == license_line(ls[i]),
        split(license_lines(ls), '\n').last() == Seq::<char>::empty(),
    decreases ls.len(),
{
    reveal_strlit(" ");
    reveal_strlit(" .\n");
    reveal_strlit("\n");
    let e = Seq::<char>::empty();
    if ls.len() == 0 {
        assert(split(license_lines(ls), '\n') =~= seq![e]);
    } else {
        let t = ls.drop_last();
        assert forall|i: int| 0 <= i < t.len() implies !(#[trigger] t[i]).contains('\n') by {
            assert(ls[i] == t[i]);
        }
        lemma_license_lines(t);
        let before = license_lines(t);
        let line = license_line(ls.last());
        assert(" "@ =~= seq![' ']);
        assert(!line.contains('\n')) by {
            assert(!ls[ls.len() - 1].contains('\n'));
            if ls.last() == seq![' '] {
                assert forall|k: int| 0 <= k < line.len() implies line[k] != '\n' by {}
            }
        }
        let all = license_lines(ls);
        assert(all =~= before + line.push('\n'));
        crate::laws::control::lemma_split_line(before, line);
        assert forall|i: int| 0 <= i < ls.len() implies #[trigger] split(all, '\n')[i]
            == license_line(ls[i]) by {
            if i < t.len() {
                assert(split(before, '\n')[i] == license_line(t[i]));
            }
        }
    }
}

/// The copyright file holds the license: behind a head (or behind nothing, if the license file has
/// one of its own) stand all lines of the license file but those that are skipped, each on a line of
/// its own.
pub proof fn law_copyright_file(config: BuildEnvironment, p: PackageConfig, license: TextResult)
    requires
        p.license_file_rel_path is Some,
        license is Text,
    ensures
        ({
            let c = config.copyright_file(p, license);
            let t = license->Text_0@;
            let head = if is_copyright_file(t) {
                Seq::empty()
            } else {
                rendered(copyright_fields(p, true))
            };
            &&& c is Ok
            &&& head.len() <= c->Ok_0.text.len()
            &&& c->Ok_0.text.take(head.len() as int) == head
            &&& ({
                let body = split(c->Ok_0.text.skip(head.len() as int), '\n');
                let n = p.license_file_skip_lines as int;
                let count = if n < lines(t).len() {
                    lines(t).len() - n
                } else {
                    0
                };
                &&& body.len() == count + 1
                &&& body.last() == Seq::<char>::empty()
                &&& forall|k: int|
                    0 <= k < count ==> #[trigger] body[k] == license_line(lines(t)[n + k])
            })
        }),
{
    let c = config.copyright_file(p, license)->Ok_0;
    let t = license->Text_0@;
    let n = p.license_file_skip_lines as int;
    let ls = lines_behind(lines(t), n);
    lemma_copyright_head(p, true);
    let head = if is_copyright_file(t) {
        Seq::empty()
    } else {
        rendered(copyright_fields(p, true))
    };
    law_lines(t);
    assert forall|i: int| 0 <= i < ls.len() implies !(#[trigger] ls[i]).contains('\n') by {
        assert(ls[i] == lines(t)[n + i]);
    }
    lemma_license_lines(ls);
    assert(c.text.take(head.len() as int) =~= head);
    assert(c.text.skip(head.len() as int) =~= license_lines(ls));
}

/// Without a license file the copyright file is the head alone. A license file that cannot be read
/// is an error.
pub proof fn law_copyright_without_file(
    config: BuildEnvironment,
    p: PackageConfig,
    license: TextResult,
)
    ensures
        p.license_file_rel_path is None ==> config.copyright_file(p, license) is Ok
            && config.copyright_file(p, license)->Ok_0.text == rendered(copyright_fields(p, false)),
        p.license_file_rel_path is Some && license is Failed ==> config.copyright_file(p, license)
            == Err::<CopyrightView, ErrorView>(
            ErrorView::IoFile(
                "unable to read license file"@,
                license->Failed_0.deep_view(),
                p.license_file_rel_path->0@,
            ),
        ),
        config.copyright_file(p, license) is Err <==> p.license_file_rel_path is Some
            && license is Failed,
{
    lemma_copyright_head(p, false);
}

} // verus!
