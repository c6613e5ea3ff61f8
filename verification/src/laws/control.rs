//! The control file of a package.
use crate::assets::{AssetView, SourceView};
use crate::config::control::{control_description, control_head, control_relations, control_text, copyright_head, copyright_is_incomplete, counted_size, field, indented, installed_size, optional_field, trimmed_field};
use crate::config::{Multiarch, PackageConfig};
use crate::laws::texts::{digits_value, law_decimal};
use crate::text::{decimal, has_prefix, join, lemma_rfind_is, lemma_split_last, lines, split, trim};
use crate::util::wordsplit::{law_wrapped_lines_fit, law_wrapping_keeps_words, line_rows, rows, words, wrapped};
use vstd::prelude::*;

verus! {

// ---------------------------------------------------------------------------
// Fields
// ---------------------------------------------------------------------------
/// A field with its value.
pub type Field = (Seq<char>, Seq<char>);

/// Fields, each on a line: the name, a colon and a space, and the value.
pub open spec fn rendered(fields: Seq<Field>) -> Seq<char>
    decreases fields.len(),
{
    if fields.len() == 0 {
        Seq::empty()
    } else {
        rendered(fields.drop_last()) + fields.last().0 + seq![':', ' '] + fields.last().1 + seq![
            '\n',
        ]
    }
}

/// A field that is there if it has a value.
pub open spec fn given(name: Seq<char>, value: Option<Seq<char>>) -> Seq<Field> {
    match value {
        Some(v) => seq![(name, v)],
        None => Seq::empty(),
    }
}

/// The value without white space around it, unless nothing is left of it.
pub open spec fn tidy(value: Option<Seq<char>>) -> Option<Seq<char>> {
    match value {
        Some(v) => if trim(v) == Seq::<char>::empty() {
            None
        } else {
            Some(trim(v))
        },
        None => None,
    }
}

proof fn lemma_rendered_cat(a: Seq<Field>, b: Seq<Field>)
    ensures
        rendered(a + b) == rendered(a) + rendered(b),
    decreases b.len(),
{
    if b.len() == 0 {
        assert(a + b =~= a);
        assert(rendered(a) + rendered(b) =~= rendered(a));
    } else {
        lemma_rendered_cat(a, b.drop_last());
        assert((a + b).drop_last() =~= a + b.drop_last());
        assert(rendered(a + b) =~= rendered(a) + rendered(b));
    }
}

proof fn lemma_field(name: Seq<char>, value: Seq<char>)
    ensures
        field(name, value) == rendered(seq![(name, value)]),
{
    reveal_strlit(": ");
    reveal_strlit("\n");
    reveal_with_fuel(rendered, 2);
    let one: Seq<Field> = seq![(name, value)];
    assert(one.drop_last() =~= Seq::<Field>::empty());
    assert(field(name, value) =~= rendered(one));
}

proof fn lemma_optional(name: Seq<char>, value: Option<Seq<char>>)
    ensures
        optional_field(name, value) == rendered(given(name, value)),
{
    if let Some(v) = value {
        lemma_field(name, v);
    }
}

proof fn lemma_trimmed(name: Seq<char>, value: Option<Seq<char>>)
    ensures
        trimmed_field(name, value) == rendered(given(name, tidy(value))),
{
    if let Some(v) = value {
        lemma_field(name, trim(v));
        if trim(v).len() == 0 {
            assert(trim(v) =~= Seq::<char>::empty());
        }
    }
}

// ---------------------------------------------------------------------------
// The fields of the control file
// ---------------------------------------------------------------------------
/// The fields that say what the package is.
pub open spec fn head_fields(p: PackageConfig) -> Seq<Field> {
    seq![("Package"@, p.deb_name@), ("Version"@, p.deb_version@), (
        "Architecture"@,
        p.architecture@,
    )] + given(
        "Multi-Arch"@,
        if p.multiarch == Multiarch::Same {
            Some("same"@)
        } else if p.multiarch == Multiarch::Foreign {
            Some("foreign"@)
        } else {
            None
        },
    ) + given(
        "Auto-Built-Package"@,
        if p.is_split_dbgsym_package {
            Some("debug-symbols"@)
        } else {
            None
        },
    ) + given(
        "Homepage"@,
        if p.homepage is Some {
            p.homepage.deep_view()
        } else if p.documentation is Some {
            p.documentation.deep_view()
        } else {
            p.repository.deep_view()
        },
    ) + given("Section"@, p.section.deep_view()) + seq![("Priority"@, p.priority@)] + given(
        "Maintainer"@,
        p.maintainer.deep_view(),
    )
}

/// The fields that say how the package relates to others, each with what the package has under its
/// name.
pub open spec fn relation_fields(p: PackageConfig) -> Seq<Field> {
    given("Depends"@, p.resolved_depends.deep_view()) + given(
        "Pre-Depends"@,
        tidy(p.pre_depends.deep_view()),
    ) + given("Recommends"@, tidy(p.recommends.deep_view())) + given(
        "Suggests"@,
        tidy(p.suggests.deep_view()),
    ) + given("Enhances"@, tidy(p.enhances.deep_view())) + given(
        "Conflicts"@,
        p.conflicts.deep_view(),
    ) + given("Breaks"@, p.breaks.deep_view()) + given("Replaces"@, p.replaces.deep_view()) + given(
        "Provides"@,
        p.provides.deep_view(),
    )
}

/// All fields in front of the description.
pub open spec fn control_fields(p: PackageConfig, size: nat) -> Seq<Field> {
    head_fields(p) + seq![("Installed-Size"@, decimal(size))] + relation_fields(p)
}

/// The fields of the head of a copyright file.
pub open spec fn copyright_fields(p: PackageConfig, has_full_text: bool) -> Seq<Field> {
    seq![
        ("Format"@, "https://www.debian.org/doc/packaging-manuals/copyright-format/1.0/"@),
        ("Upstream-Name"@, p.cargo_crate_name@),
    ] + given(
        "Source"@,
        if p.repository is Some {
            p.repository.deep_view()
        } else {
            p.homepage.deep_view()
        },
    ) + (if p.copyright is Some {
        given("Copyright"@, p.copyright.deep_view())
    } else {
        given(
            "Comment"@,
            match p.maintainer {
                Some(m) => Some("Copyright information missing (maintainer: "@ + m@ + ")"@),
                None => None,
            },
        )
    }) + given(
        "License"@,
        match p.license_identifier {
            Some(l) => Some(l@),
            None => if has_full_text {
                Some(Seq::empty())
            } else {
                None
            },
        },
    )
}

proof fn lemma_head(p: PackageConfig)
    ensures
        control_head(p) == rendered(head_fields(p)),
{
    lemma_field("Package"@, p.deb_name@);
    lemma_field("Version"@, p.deb_version@);
    lemma_field("Architecture"@, p.architecture@);
    lemma_field("Priority"@, p.priority@);
    lemma_field("Auto-Built-Package"@, "debug-symbols"@);
    let f1: Seq<Field> = seq![("Package"@, p.deb_name@)];
    let f2: Seq<Field> = seq![("Version"@, p.deb_version@)];
    let f3: Seq<Field> = seq![("Architecture"@, p.architecture@)];
    let multi = if p.multiarch == Multiarch::Same {
        Some("same"@)
    } else if p.multiarch == Multiarch::Foreign {
        Some("foreign"@)
    } else {
        None
    };
    let auto = if p.is_split_dbgsym_package {
        Some("debug-symbols"@)
    } else {
        None
    };
    let home = if p.homepage is Some {
        p.homepage.deep_view()
    } else if p.documentation is Some {
        p.documentation.deep_view()
    } else {
        p.repository.deep_view()
    };
    lemma_optional("Multi-Arch"@, multi);
    lemma_optional("Auto-Built-Package"@, auto);
    lemma_optional("Homepage"@, home);
    lemma_optional("Section"@, p.section.deep_view());
    lemma_optional("Maintainer"@, p.maintainer.deep_view());
    let first = f1 + f2 + f3;
    assert(first =~= seq![f1[0], f2[0], f3[0]]);
    lemma_rendered_cat(f1, f2);
    lemma_rendered_cat(f1 + f2, f3);
    let c1 = first + given("Multi-Arch"@, multi);
    lemma_rendered_cat(first, given("Multi-Arch"@, multi));
    let c2 = c1 + given("Auto-Built-Package"@, auto);
    lemma_rendered_cat(c1, given("Auto-Built-Package"@, auto));
    let c3 = c2 + given("Homepage"@, home);
    lemma_rendered_cat(c2, given("Homepage"@, home));
    let c4 = c3 + given("Section"@, p.section.deep_view());
    lemma_rendered_cat(c3, given("Section"@, p.section.deep_view()));
    let priority: Seq<Field> = seq![("Priority"@, p.priority@)];
    let c5 = c4 + priority;
    lemma_rendered_cat(c4, priority);
    lemma_rendered_cat(c5, given("Maintainer"@, p.maintainer.deep_view()));
}

proof fn lemma_relations(p: PackageConfig)
    ensures
        control_relations(p) == rendered(relation_fields(p)),
{
    let g1 = given("Depends"@, p.resolved_depends.deep_view());
    let g2 = given("Pre-Depends"@, tidy(p.pre_depends.deep_view()));
    let g3 = given("Recommends"@, tidy(p.recommends.deep_view()));
    let g4 = given("Suggests"@, tidy(p.suggests.deep_view()));
    let g5 = given("Enhances"@, tidy(p.enhances.deep_view()));
    let g6 = given("Conflicts"@, p.conflicts.deep_view());
    let g7 = given("Breaks"@, p.breaks.deep_view());
    let g8 = given("Replaces"@, p.replaces.deep_view());
    let g9 = given("Provides"@, p.provides.deep_view());
    lemma_optional("Depends"@, p.resolved_depends.deep_view());
    lemma_trimmed("Pre-Depends"@, p.pre_depends.deep_view());
    lemma_trimmed("Recommends"@, p.recommends.deep_view());
    lemma_trimmed("Suggests"@, p.suggests.deep_view());
    lemma_trimmed("Enhances"@, p.enhances.deep_view());
    lemma_optional("Conflicts"@, p.conflicts.deep_view());
    lemma_optional("Breaks"@, p.breaks.deep_view());
    lemma_optional("Replaces"@, p.replaces.deep_view());
    lemma_optional("Provides"@, p.provides.deep_view());
    lemma_rendered_cat(g1, g2);
    lemma_rendered_cat(g1 + g2, g3);
    lemma_rendered_cat(g1 + g2 + g3, g4);
    lemma_rendered_cat(g1 + g2 + g3 + g4, g5);
    lemma_rendered_cat(g1 + g2 + g3 + g4 + g5, g6);
    lemma_rendered_cat(g1 + g2 + g3 + g4 + g5 + g6, g7);
    lemma_rendered_cat(g1 + g2 + g3 + g4 + g5 + g6 + g7, g8);
    lemma_rendered_cat(g1 + g2 + g3 + g4 + g5 + g6 + g7 + g8, g9);
}

/// The head of a copyright file is its fields.
pub proof fn lemma_copyright_head(p: PackageConfig, has_full_text: bool)
    ensures
        copyright_head(p, has_full_text) == rendered(copyright_fields(p, has_full_text)),
{
    let format = "https://www.debian.org/doc/packaging-manuals/copyright-format/1.0/"@;
    let f1: Seq<Field> = seq![("Format"@, format)];
    let f2: Seq<Field> = seq![("Upstream-Name"@, p.cargo_crate_name@)];
    lemma_field("Format"@, format);
    lemma_field("Upstream-Name"@, p.cargo_crate_name@);
    lemma_rendered_cat(f1, f2);
    let first = f1 + f2;
    assert(first =~= seq![f1[0], f2[0]]);
    let source = if p.repository is Some {
        p.repository.deep_view()
    } else {
        p.homepage.deep_view()
    };
    lemma_optional("Source"@, source);
    let c1 = first + given("Source"@, source);
    lemma_rendered_cat(first, given("Source"@, source));
    let comment = match p.maintainer {
        Some(m) => Some("Copyright information missing (maintainer: "@ + m@ + ")"@),
        None => None,
    };
    lemma_optional("Copyright"@, p.copyright.deep_view());
    lemma_optional("Comment"@, comment);
    let owner = if p.copyright is Some {
        given("Copyright"@, p.copyright.deep_view())
    } else {
        given("Comment"@, comment)
    };
    lemma_rendered_cat(c1, owner);
    let license = match p.license_identifier {
        Some(l) => Some(l@),
        None => if has_full_text {
            Some(Seq::empty())
        } else {
            None
        },
    };
    reveal_strlit("");
    assert(""@ =~= Seq::<char>::empty());
    lemma_optional("License"@, license);
    lemma_rendered_cat(c1 + owner, given("License"@, license));
    assert(copyright_head(p, has_full_text) =~= rendered(copyright_fields(p, has_full_text)));
}

// ---------------------------------------------------------------------------
// Reading it
// ---------------------------------------------------------------------------
/// A line feed ends a line.
pub proof fn lemma_split_line(before: Seq<char>, line: Seq<char>)
    requires
        split(before, '\n').last() == Seq::<char>::empty(),
        !line.contains('\n'),
    ensures
        split(before + line.push('\n'), '\n') == split(before, '\n').drop_last().push(line).push(
            Seq::empty(),
        ),
{
    let s = before + line.push('\n');
    let t = before + line;
    assert(s.drop_last() =~= t);
    lemma_split_tail(before, line);
    assert(split(s, '\n') =~= split(before, '\n').drop_last().push(line).push(Seq::empty()));
}

proof fn lemma_split_tail(before: Seq<char>, line: Seq<char>)
    requires
        split(before, '\n').last() == Seq::<char>::empty(),
        !line.contains('\n'),
    ensures
        split(before + line, '\n') == split(before, '\n').drop_last().push(line),
    decreases line.len(),
{
    crate::text::lemma_split_nonempty(before, '\n');
    let b = split(before, '\n');
    if line.len() == 0 {
        assert(before + line =~= before);
        assert(line =~= Seq::<char>::empty());
        assert(b =~= b.drop_last().push(line));
    } else {
        let l = line.drop_last();
        assert(!l.contains('\n')) by {
            assert forall|k: int| 0 <= k < l.len() implies l[k] != '\n' by {
                assert(line.contains(line[k]));
            }
        }
        lemma_split_tail(before, l);
        assert((before + line).drop_last() =~= before + l);
        assert(line.contains(line.last()));
        assert(b.drop_last().push(l).drop_last() =~= b.drop_last());
        assert(l.push(line.last()) =~= line);
        assert(split(before + line, '\n') =~= b.drop_last().push(line));
    }
}

/// The names and values stand on one line each.
pub open spec fn are_lines(fields: Seq<Field>) -> bool {
    forall|i: int|
        0 <= i < fields.len() ==> !(#[trigger] fields[i]).0.contains('\n') && !fields[i].1.contains(
            '\n',
        )
}

/// The line of a field.
pub open spec fn field_line(f: Field) -> Seq<char> {
    f.0 + seq![':', ' '] + f.1
}

proof fn lemma_rendered_lines(fields: Seq<Field>)
    requires
        are_lines(fields),
    ensures
        split(rendered(fields), '\n').len() == fields.len() + 1,
        forall|i: int|
            0 <= i < fields.len() ==> #[trigger] split(rendered(fields), '\n')[i] == field_line(
                fields[i],
            ),
        split(rendered(fields), '\n').last() == Seq::<char>::empty(),
    decreases fields.len(),
{
    if fields.len() == 0 {
        assert(split(rendered(fields), '\n') =~= seq![Seq::<char>::empty()]);
    } else {
        let t = fields.drop_last();
        assert(are_lines(t)) by {
            assert forall|i: int| 0 <= i < t.len() implies !(#[trigger] t[i]).0.contains('\n')
                && !t[i].1.contains('\n') by {
                assert(fields[i] == t[i]);
            }
        }
        lemma_rendered_lines(t);
        let f = fields[fields.len() - 1];
        let line = field_line(f);
        assert(!f.0.contains('\n') && !f.1.contains('\n'));
        assert(!line.contains('\n')) by {
            assert forall|k: int| 0 <= k < line.len() implies line[k] != '\n' by {
                if k < f.0.len() {
                    assert(f.0.contains(f.0[k]));
                } else if k >= f.0.len() + 2 {
                    assert(f.1.contains(f.1[k - f.0.len() - 2]));
                }
            }
        }
        assert(rendered(fields) =~= rendered(t) + line.push('\n'));
        lemma_split_line(rendered(t), line);
        assert forall|i: int| 0 <= i < fields.len() implies #[trigger] split(
            rendered(fields),
            '\n',
        )[i] == field_line(fields[i]) by {
            if i < t.len() {
                assert(split(rendered(t), '\n')[i] == field_line(t[i]));
            }
        }
    }
}

proof fn lemma_split_more(before: Seq<char>, more: Seq<char>)
    requires
        split(before, '\n').last() == Seq::<char>::empty(),
    ensures
        split(before + more, '\n') == split(before, '\n').drop_last() + split(more, '\n'),
    decreases more.len(),
{
    crate::text::lemma_split_nonempty(before, '\n');
    let b = split(before, '\n');
    if more.len() == 0 {
        assert(before + more =~= before);
        assert(split(more, '\n') =~= seq![Seq::<char>::empty()]);
        assert(b =~= b.drop_last() + split(more, '\n'));
    } else {
        let m = more.drop_last();
        lemma_split_more(before, m);
        crate::text::lemma_split_nonempty(m, '\n');
        assert((before + more).drop_last() =~= before + m);
        assert((before + more).last() == more.last());
        assert(split(before + more, '\n') =~= b.drop_last() + split(more, '\n'));
    }
}

/// The control file has, in front of the line of its description, one line for each field: first what
/// the package is, then its size, then how it relates to other packages. Every field has the value
/// that the package has under its name, and one without a value is not there.
pub proof fn law_control_fields(p: PackageConfig, size: nat, extended: Option<Seq<char>>)
    requires
        are_lines(control_fields(p, size)),
    ensures
        ({
            let fields = control_fields(p, size);
            let text = split(control_text(p, size, extended), '\n');
            &&& text.len() > fields.len()
            &&& forall|i: int|
                0 <= i < fields.len() ==> #[trigger] text[i] == field_line(fields[i])
            &&& has_prefix(text[fields.len() as int], "Description:"@)
        }),
{
    let fields = control_fields(p, size);
    lemma_control_text(p, size, extended);
    lemma_rendered_lines(fields);
    let rest = control_description(p, extended) + "\n"@;
    lemma_split_more(rendered(fields), rest);
    let all = split(rendered(fields), '\n').drop_last() + split(rest, '\n');
    assert(all == split(control_text(p, size, extended), '\n'));
    assert forall|i: int| 0 <= i < fields.len() implies #[trigger] all[i] == field_line(
        fields[i],
    ) by {
        assert(split(rendered(fields), '\n')[i] == field_line(fields[i]));
    }
    reveal_strlit("Description:");
    let d = "Description:"@;
    assert(!d.contains('\n')) by {
        assert forall|k: int| 0 <= k < d.len() implies d[k] != '\n' by {
            assert(k == 0 || k == 1 || k == 2 || k == 3 || k == 4 || k == 5 || k == 6 || k == 7 || k
                == 8 || k == 9 || k == 10 || k == 11);
        }
    }
    let tail = rest.skip(d.len() as int);
    assert(rest =~= d + tail);
    lemma_first_line(d, tail);
    assert(all[fields.len() as int] == split(rest, '\n')[0]);
}

proof fn lemma_first_line(d: Seq<char>, tail: Seq<char>)
    requires
        !d.contains('\n'),
    ensures
        split(d + tail, '\n').len() > 0,
        has_prefix(split(d + tail, '\n')[0], d),
    decreases tail.len(),
{
    crate::text::lemma_split_nonempty(d + tail, '\n');
    if tail.len() == 0 {
        assert(d + tail =~= d);
        assert forall|k: int| 0 <= k < d.len() implies d[k] != '\n' by {}
        lemma_rfind_is(d, '\n', -1);
        lemma_split_last(d, '\n');
        assert(d.take(d.len() as int) =~= d);
    } else {
        let t = tail.drop_last();
        lemma_first_line(d, t);
        assert((d + tail).drop_last() =~= d + t);
        let before = split(d + t, '\n');
        if (d + tail).last() != '\n' && before.len() == 1 {
            let line = before[0].push((d + tail).last());
            assert(line.take(d.len() as int) =~= before[0].take(d.len() as int));
        }
    }
}

proof fn lemma_control_text(p: PackageConfig, size: nat, extended: Option<Seq<char>>)
    ensures
        control_text(p, size, extended) == rendered(control_fields(p, size)) + (
        control_description(p, extended) + "\n"@),
{
    lemma_head(p);
    lemma_relations(p);
    lemma_field("Installed-Size"@, decimal(size));
    let installed: Seq<Field> = seq![("Installed-Size"@, decimal(size))];
    lemma_rendered_cat(head_fields(p), installed);
    lemma_rendered_cat(head_fields(p) + installed, relation_fields(p));
    assert(control_text(p, size, extended) =~= rendered(control_fields(p, size)) + (
    control_description(p, extended) + "\n"@));
}

// ---------------------------------------------------------------------------
// The description
// ---------------------------------------------------------------------------
/// The rows that a line of the description is written in: one dot for a blank line, else all its
/// words in their order, in rows of at most 79 characters (or of one longer word).
pub open spec fn are_rows_of(rs: Seq<Seq<char>>, line: Seq<char>) -> bool {
    if words(line).len() == 0 {
        rs == seq![seq!['.']]
    } else {
        &&& join(rs, seq![' ']) == join(words(line), seq![' '])
        &&& forall|i: int|
            0 <= i < rs.len() ==> (#[trigger] rs[i]).len() <= 79 || words(line).contains(rs[i])
    }
}

/// Rows, each on a line behind a space.
pub open spec fn written(rs: Seq<Seq<char>>) -> Seq<char>
    decreases rs.len(),
{
    if rs.len() == 0 {
        Seq::empty()
    } else {
        written(rs.drop_last()) + seq![' '] + rs.last() + seq!['\n']
    }
}

/// Blocks of rows, one after the other.
pub open spec fn all_rows(blocks: Seq<Seq<Seq<char>>>) -> Seq<Seq<char>>
    decreases blocks.len(),
{
    if blocks.len() == 0 {
        Seq::empty()
    } else {
        all_rows(blocks.drop_last()) + blocks.last()
    }
}

proof fn lemma_written(rs: Seq<Seq<char>>)
    ensures
        indented(rs) == written(rs),
    decreases rs.len(),
{
    reveal_strlit(" ");
    reveal_strlit("\n");
    if rs.len() > 0 {
        lemma_written(rs.drop_last());
        assert(indented(rs) =~= written(rs));
    }
}

proof fn lemma_blocks(text: Seq<Seq<char>>) -> (blocks: Seq<Seq<Seq<char>>>)
    ensures
        blocks.len() == text.len(),
        forall|i: int| 0 <= i < text.len() ==> are_rows_of(#[trigger] blocks[i], text[i]),
        all_rows(blocks) == rows(text, 79),
    decreases text.len(),
{
    if text.len() == 0 {
        Seq::empty()
    } else {
        let before = lemma_blocks(text.drop_last());
        let line = text.last();
        let block = line_rows(line, 79);
        reveal_strlit(" ");
        reveal_strlit(".");
        assert(" "@ =~= seq![' ']);
        assert("."@ =~= seq!['.']);
        law_wrapping_keeps_words(words(line), 79);
        law_wrapped_lines_fit(words(line), 79);
        assert(are_rows_of(block, line)) by {
            if words(line).len() > 0 {
                assert forall|i: int| 0 <= i < block.len() implies (#[trigger] block[i]).len() <= 79
                    || words(line).contains(block[i]) by {
                    assert(wrapped(words(line), 79)[i] == block[i]);
                }
            }
        }
        let blocks = before.push(block);
        assert(blocks.drop_last() =~= before);
        assert forall|i: int| 0 <= i < text.len() implies are_rows_of(
            #[trigger] blocks[i],
            text[i],
        ) by {
            if i < before.len() {
                assert(are_rows_of(before[i], text.drop_last()[i]));
            }
        }
        blocks
    }
}

/// The control file ends with the description: the short one and then, if there is one, the long one,
/// line by line, and an empty line.
pub proof fn law_control_description(
    p: PackageConfig,
    size: nat,
    extended: Option<Seq<char>>,
) -> (blocks: (Seq<Seq<Seq<char>>>, Seq<Seq<Seq<char>>>))
    ensures
        blocks.0.len() == lines(p.description@).len(),
        forall|i: int|
            0 <= i < blocks.0.len() ==> are_rows_of(
                #[trigger] blocks.0[i],
                lines(p.description@)[i],
            ),
        blocks.1.len() == (match extended {
            Some(e) => lines(e).len(),
            None => 0,
        }),
        extended matches Some(e) ==> forall|i: int|
            0 <= i < blocks.1.len() ==> are_rows_of(#[trigger] blocks.1[i], lines(e)[i]),
        control_text(p, size, extended) == rendered(control_fields(p, size)) + "Description:"@
            + written(all_rows(blocks.0)) + written(all_rows(blocks.1)) + seq!['\n'],
{
    lemma_control_text(p, size, extended);
    reveal_strlit("\n");
    let a = lemma_blocks(lines(p.description@));
    lemma_written(all_rows(a));
    let b = match extended {
        Some(e) => lemma_blocks(lines(e)),
        None => Seq::empty(),
    };
    lemma_written(all_rows(b));
    assert(control_text(p, size, extended) =~= rendered(control_fields(p, size)) + "Description:"@
        + written(all_rows(a)) + written(all_rows(b)) + seq!['\n']);
    (a, b)
}

// ---------------------------------------------------------------------------
// The size
// ---------------------------------------------------------------------------
/// The size of a file with its overhead in kilobytes, rounded up: one of no bytes counts one, and
/// every further kilobyte that it begins one more. A link counts as one of no bytes.
pub proof fn law_counted_size(n: nat)
    ensures
        counted_size(None) == 1,
        counted_size(Some(0)) == 1,
        n > 0 ==> 1024 * (counted_size(Some(n)) - 2) < n <= 1024 * (counted_size(Some(n)) - 1),
{
}

/// Every file adds to the size of the package on its own, and only what is on disk or at hand counts.
pub proof fn law_installed_size(
    assets: Seq<AssetView>,
    sizes: Seq<Option<u64>>,
    a: AssetView,
    size: Option<u64>,
)
    requires
        sizes.len() == assets.len(),
    ensures
        installed_size(Seq::empty(), Seq::empty()) == 0,
        installed_size(assets.push(a), sizes.push(size)) == installed_size(assets, sizes)
            + counted_size(
            match a.source {
                SourceView::Path(_) => match size {
                    Some(n) => Some(n as nat),
                    None => None,
                },
                SourceView::Data(d) => Some(d.len()),
                _ => None,
            },
        ),
{
    assert(assets.push(a).drop_last() =~= assets);
    lemma_sizes_in_front(assets, sizes, sizes.push(size));
}

proof fn lemma_sizes_in_front(
    assets: Seq<AssetView>,
    sizes: Seq<Option<u64>>,
    more: Seq<Option<u64>>,
)
    requires
        assets.len() <= sizes.len(),
        assets.len() <= more.len(),
        forall|i: int| 0 <= i < assets.len() ==> #[trigger] sizes[i] == more[i],
    ensures
        installed_size(assets, sizes) == installed_size(assets, more),
    decreases assets.len(),
{
    if assets.len() > 0 {
        lemma_sizes_in_front(assets.drop_last(), sizes, more);
        assert(sizes[assets.len() - 1] == more[assets.len() - 1]);
    }
}

/// The size in the control file is the number that its digits stand for.
pub proof fn law_size_digits(size: nat)
    ensures
        digits_value(decimal(size)) == size,
{
    law_decimal(size);
}

/// The copyright is incomplete if nobody is named in it, unless the license makes that needless.
pub proof fn law_copyright_is_complete(p: PackageConfig)
    ensures
        p.copyright is Some || p.maintainer is Some ==> !copyright_is_incomplete(p),
        p.copyright is None && p.maintainer is None && p.license_identifier is None
            ==> copyright_is_incomplete(p),
{
}

} // verus!
