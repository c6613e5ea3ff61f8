//! The control file of a package, and the head of its copyright file.
use crate::assets::{Asset, AssetView};
use crate::config::rules::{license_doesnt_need_author_info, needs_no_author};
use crate::config::{BuildEnvironment, ExtendedDescription, Multiarch, PackageConfig};
use crate::deb::archiving::size_of;
use crate::error::{CDResult, CargoDebError, Cause, ErrorView};
use crate::parse::manifest::first_of;
use crate::paths::path_join;
use crate::text::{decimal, decimal_of, lines, trim, trimmed};
use crate::util::wordsplit::{rows, split_by_chars};
use vstd::prelude::*;
use vstd::string::StringExecFns;

verus! {

/// What reading a file of text gave.
#[derive(Debug)]
pub enum TextResult {
    Text(String),
    Failed(Cause),
}

// ---------------------------------------------------------------------------
// Fields
// ---------------------------------------------------------------------------
/// A field on a line of its own.
pub open spec fn field(name: Seq<char>, value: Seq<char>) -> Seq<char> {
    name + ": "@ + value + "\n"@
}

/// A field that may be missing.
pub open spec fn optional_field(name: Seq<char>, value: Option<Seq<char>>) -> Seq<char> {
    match value {
        Some(v) => field(name, v),
        None => Seq::empty(),
    }
}

/// A field that may be missing, without white space around its value; a blank one is missing too.
pub open spec fn trimmed_field(name: Seq<char>, value: Option<Seq<char>>) -> Seq<char> {
    match value {
        Some(v) => if trim(v).len() > 0 {
            field(name, trim(v))
        } else {
            Seq::empty()
        },
        None => Seq::empty(),
    }
}

fn push_field(out: &mut String, name: &str, value: &str)
    ensures
        final(out)@ == old(out)@ + field(name@, value@),
{
    let ghost before = out@;
    out.append(name);
    out.append(": ");
    out.append(value);
    out.append("\n");
    assert(out@ =~= before + field(name@, value@));
}

fn push_optional(out: &mut String, name: &str, value: &Option<String>)
    ensures
        final(out)@ == old(out)@ + optional_field(name@, value.deep_view()),
{
    match value {
        Some(v) => push_field(out, name, v.as_str()),
        None => {
            assert(out@ + Seq::<char>::empty() =~= out@);
        },
    }
}

fn push_trimmed(out: &mut String, name: &str, value: &Option<String>)
    ensures
        final(out)@ == old(out)@ + trimmed_field(name@, value.deep_view()),
{
    let ghost before = out@;
    assert(before + Seq::<char>::empty() =~= before);
    if let Some(v) = value {
        let t = trimmed(v.as_str());
        if !t.as_str().is_empty() {
            push_field(out, name, t.as_str());
        }
    }
}

/// Lines, each behind a space.
pub open spec fn indented(ls: Seq<Seq<char>>) -> Seq<char>
    decreases ls.len(),
{
    if ls.len() == 0 {
        Seq::empty()
    } else {
        indented(ls.drop_last()) + " "@ + ls.last() + "\n"@
    }
}

fn push_indented(out: &mut String, ls: &Vec<String>)
    ensures
        final(out)@ == old(out)@ + indented(ls.deep_view()),
{
    let ghost all = ls.deep_view();
    let ghost before = out@;
    let mut i: usize = 0;
    assert(all.take(0) =~= Seq::<Seq<char>>::empty());
    assert(out@ =~= before + Seq::<char>::empty());
    while i < ls.len()
        invariant
            i <= ls.len(),
            all == ls.deep_view(),
            out@ == before + indented(all.take(i as int)),
        decreases ls.len() - i,
    {
        proof {
            assert(all.take(i + 1).drop_last() =~= all.take(i as int));
            assert(all.take(i + 1).last() == ls[i as int]@);
        }
        out.append(" ");
        out.append(ls[i].as_str());
        out.append("\n");
        assert(out@ =~= before + indented(all.take(i + 1)));
        i += 1;
    }
    assert(all.take(i as int) =~= all);
}

// ---------------------------------------------------------------------------
// Size
// ---------------------------------------------------------------------------
/// How many kilobytes a file is counted as: its size, and one more for what it needs besides.
pub open spec fn counted_size(size: Option<nat>) -> nat {
    (match size {
        Some(n) => n,
        None => 0,
    } + 2047) / 1024
}

/// How many kilobytes the files have, given the sizes of those on disk.
pub open spec fn installed_size(assets: Seq<AssetView>, sizes: Seq<Option<u64>>) -> nat
    decreases assets.len(),
{
    if assets.len() == 0 {
        0
    } else {
        installed_size(assets.drop_last(), sizes) + counted_size(
            size_of(assets.last().source, sizes[assets.len() - 1]),
        )
    }
}

/// The size can be counted.
pub open spec fn size_fits(assets: Seq<AssetView>, sizes: Seq<Option<u64>>) -> bool {
    &&& installed_size(assets, sizes) <= u64::MAX
    &&& forall|i: int|
        0 <= i < assets.len() && size_of((#[trigger] assets[i]).source, sizes[i]) is Some ==> size_of(
            assets[i].source,
            sizes[i],
        )->0 + 2047 <= u64::MAX
}

proof fn lemma_size_grows(assets: Seq<AssetView>, sizes: Seq<Option<u64>>, i: int)
    requires
        0 <= i <= assets.len(),
    ensures
        installed_size(assets.take(i), sizes) <= installed_size(assets, sizes),
    decreases assets.len(),
{
    if i < assets.len() {
        assert(assets.drop_last().take(i) =~= assets.take(i));
        lemma_size_grows(assets.drop_last(), sizes, i);
    } else {
        assert(assets.take(i) =~= assets);
    }
}

fn size_in_kb(resolved: &Vec<Asset>, sizes: &Vec<Option<u64>>) -> (r: u64)
    requires
        sizes.len() == resolved.len(),
        size_fits(resolved.deep_view(), sizes@),
    ensures
        r == installed_size(resolved.deep_view(), sizes@),
{
    let ghost all = resolved.deep_view();
    let mut sum: u64 = 0;
    let mut i: usize = 0;
    assert(all.take(0) =~= Seq::<AssetView>::empty());
    while i < resolved.len()
        invariant
            i <= resolved.len(),
            all == resolved.deep_view(),
            sizes.len() == resolved.len(),
            size_fits(all, sizes@),
            sum == installed_size(all.take(i as int), sizes@),
        decreases resolved.len() - i,
    {
        proof {
            assert(all[i as int] == resolved[i as int].deep_view());
            assert(all.take(i + 1).drop_last() =~= all.take(i as int));
            assert(all.take(i + 1).last() == all[i as int]);
            lemma_size_grows(all, sizes@, i + 1);
        }
        let size = match resolved[i].source.file_size(sizes[i]) {
            Some(n) => n,
            None => 0,
        };
        // assume 1KB of fs overhead per file
        sum = sum + (size + 2047) / 1024;
        i += 1;
    }
    assert(all.take(i as int) =~= all);
    sum
}

// ---------------------------------------------------------------------------
// The control file
// ---------------------------------------------------------------------------
/// What the package is.
pub open spec fn control_head(p: PackageConfig) -> Seq<char> {
    field("Package"@, p.deb_name@) + field("Version"@, p.deb_version@) + field(
        "Architecture"@,
        p.architecture@,
    ) + optional_field(
        "Multi-Arch"@,
        match p.multiarch {
            Multiarch::Unsupported => None,
            Multiarch::Same => Some("same"@),
            Multiarch::Foreign => Some("foreign"@),
        },
    ) + (if p.is_split_dbgsym_package {
        field("Auto-Built-Package"@, "debug-symbols"@)
    } else {
        Seq::empty()
    }) + optional_field(
        "Homepage"@,
        first_of(
            first_of(p.homepage.deep_view(), p.documentation.deep_view()),
            p.repository.deep_view(),
        ),
    ) + optional_field("Section"@, p.section.deep_view()) + field("Priority"@, p.priority@)
        + optional_field("Maintainer"@, p.maintainer.deep_view())
}

/// How the package relates to others.
pub open spec fn control_relations(p: PackageConfig) -> Seq<char> {
    optional_field("Depends"@, p.resolved_depends.deep_view()) + trimmed_field(
        "Pre-Depends"@,
        p.pre_depends.deep_view(),
    ) + trimmed_field("Recommends"@, p.recommends.deep_view()) + trimmed_field(
        "Suggests"@,
        p.suggests.deep_view(),
    ) + trimmed_field("Enhances"@, p.enhances.deep_view()) + optional_field(
        "Conflicts"@,
        p.conflicts.deep_view(),
    ) + optional_field("Breaks"@, p.breaks.deep_view()) + optional_field(
        "Replaces"@,
        p.replaces.deep_view(),
    ) + optional_field("Provides"@, p.provides.deep_view())
}

/// The short description, and the long one if there is one.
pub open spec fn control_description(p: PackageConfig, extended: Option<Seq<char>>) -> Seq<char> {
    "Description:"@ + indented(rows(lines(p.description@), 79)) + (match extended {
        Some(desc) => indented(rows(lines(desc), 79)),
        None => Seq::empty(),
    })
}

/// The control file.
pub open spec fn control_text(p: PackageConfig, size: nat, extended: Option<Seq<char>>) -> Seq<char> {
    control_head(p) + field("Installed-Size"@, decimal(size)) + control_relations(p)
        + control_description(p, extended) + "\n"@
}

impl PackageConfig {
    fn push_head(&self, control: &mut String)
        ensures
            final(control)@ == old(control)@ + control_head(*self),
    {
        let ghost c0 = control@;
        let mut head = String::new();
        push_field(&mut head, "Package", self.deb_name.as_str());
        assert(head@ =~= field("Package"@, self.deb_name@));
        push_field(&mut head, "Version", self.deb_version.as_str());
        push_field(&mut head, "Architecture", self.architecture.as_str());
        let ma = match self.multiarch {
            Multiarch::Unsupported => None,
            Multiarch::Same => Some("same".to_owned()),
            Multiarch::Foreign => Some("foreign".to_owned()),
        };
        push_optional(&mut head, "Multi-Arch", &ma);
        let ghost h = head@;
        assert(h + Seq::<char>::empty() =~= h);
        if self.is_split_dbgsym_package {
            push_field(&mut head, "Auto-Built-Package", "debug-symbols");
        }
        if self.homepage.is_some() {
            push_optional(&mut head, "Homepage", &self.homepage);
        } else if self.documentation.is_some() {
            push_optional(&mut head, "Homepage", &self.documentation);
        } else {
            push_optional(&mut head, "Homepage", &self.repository);
        }
        push_optional(&mut head, "Section", &self.section);
        push_field(&mut head, "Priority", self.priority.as_str());
        push_optional(&mut head, "Maintainer", &self.maintainer);
        assert(head@ == control_head(*self));
        control.append(head.as_str());
    }

    fn push_relations(&self, control: &mut String)
        ensures
            final(control)@ == old(control)@ + control_relations(*self),
    {
        let mut text = String::new();
        push_optional(&mut text, "Depends", &self.resolved_depends);
        assert(text@ =~= optional_field("Depends"@, self.resolved_depends.deep_view()));
        push_trimmed(&mut text, "Pre-Depends", &self.pre_depends);
        push_trimmed(&mut text, "Recommends", &self.recommends);
        push_trimmed(&mut text, "Suggests", &self.suggests);
        push_trimmed(&mut text, "Enhances", &self.enhances);
        push_optional(&mut text, "Conflicts", &self.conflicts);
        push_optional(&mut text, "Breaks", &self.breaks);
        push_optional(&mut text, "Replaces", &self.replaces);
        push_optional(&mut text, "Provides", &self.provides);
        assert(text@ == control_relations(*self));
        control.append(text.as_str());
    }

    /// The file of the long description, if it is in one.
    pub open spec fn description_file(self, config: BuildEnvironment) -> Option<Seq<char>> {
        match self.extended_description {
            ExtendedDescription::Absent | ExtendedDescription::Text(_) => None,
            ExtendedDescription::File(p) => Some(p@),
            ExtendedDescription::ReadmeFallback(p) => Some(
                path_join(config.package_manifest_dir@, p@),
            ),
        }
    }

    /// The file of the long description, if it is in one.
    pub fn extended_description_path(&self, config: &BuildEnvironment) -> (r: Option<String>)
        ensures
            r.deep_view() == self.description_file(*config),
    {
        match &self.extended_description {
            ExtendedDescription::Absent | ExtendedDescription::Text(_) => None,
            ExtendedDescription::File(p) => Some(p.clone()),
            ExtendedDescription::ReadmeFallback(p) => Some(config.path_in_package(p.as_str())),
        }
    }

    /// The long description, given what reading its file gave.
    pub open spec fn long_description(self, config: BuildEnvironment, read: TextResult) -> Result<
        Option<Seq<char>>,
        ErrorView,
    > {
        match self.description_file(config) {
            Some(path) => match read {
                TextResult::Text(t) => Ok(Some(t@)),
                TextResult::Failed(e) => Err(
                    ErrorView::IoFile(
                        "unable to read extended description from file"@,
                        e.deep_view(),
                        path,
                    ),
                ),
            },
            None => match self.extended_description {
                ExtendedDescription::Text(t) => Ok(Some(t@)),
                _ => Ok(None),
            },
        }
    }

    /// The long description, given what reading its file gave.
    pub fn extended_description(&self, config: &BuildEnvironment, read: &TextResult) -> (r: CDResult<
        Option<String>,
    >)
        ensures
            match self.long_description(*config, *read) {
                Ok(d) => r is Ok && r->Ok_0.deep_view() == d,
                Err(e) => r is Err && r->Err_0.deep_view() == e,
            },
    {
        match self.extended_description_path(config) {
            Some(path) => match read {
                TextResult::Text(t) => Ok(Some(t.clone())),
                TextResult::Failed(e) => Err(
                    CargoDebError::IoFile(
                        "unable to read extended description from file",
                        e.clone(),
                        path,
                    ),
                ),
            },
            None => match &self.extended_description {
                ExtendedDescription::Text(t) => Ok(Some(t.clone())),
                _ => Ok(None),
            },
        }
    }

    /// Generates the control file that obtains all the important information about the package,
    /// given the sizes of the files on disk, and what reading the file of the long description gave.
    pub fn generate_control(
        &self,
        config: &BuildEnvironment,
        sizes: &Vec<Option<u64>>,
        read: &TextResult,
    ) -> (r: CDResult<String>)
        requires
            sizes.len() == self.assets.resolved.len(),
            size_fits(self.assets.resolved.deep_view(), sizes@),
        ensures
            match self.long_description(*config, *read) {
                Ok(d) => r is Ok && r->Ok_0@ == control_text(
                    *self,
                    installed_size(self.assets.resolved.deep_view(), sizes@),
                    d,
                ),
                Err(e) => r is Err && r->Err_0.deep_view() == e,
            },
    {
        let mut control = String::new();
        self.push_head(&mut control);
        assert(control@ =~= control_head(*self));
        let installed_size = size_in_kb(&self.assets.resolved, sizes);
        let size = decimal_of(installed_size);
        push_field(&mut control, "Installed-Size", size.as_str());
        self.push_relations(&mut control);
        let mut description = "Description:".to_owned();
        let short = split_by_chars(self.description.as_str(), 79);
        push_indented(&mut description, &short);
        let ghost d = description@;
        assert(d + Seq::<char>::empty() =~= d);
        let extended = self.extended_description(config, read)?;
        if let Some(desc) = &extended {
            let long = split_by_chars(desc.as_str(), 79);
            push_indented(&mut description, &long);
        }
        assert(description@ == control_description(*self, extended.deep_view()));
        control.append(description.as_str());
        control.append("\n");
        Ok(control)
    }
}

// ---------------------------------------------------------------------------
// The head of the copyright file
// ---------------------------------------------------------------------------
/// Whether the copyright file lacks something: neither the owners nor the maintainer are known, and
/// the license does not make it needless to name them.
pub open spec fn copyright_is_incomplete(p: PackageConfig) -> bool {
    &&& p.copyright is None
    &&& p.maintainer is None
    &&& !(p.license_identifier is Some && needs_no_author(p.license_identifier->0@))
}

/// The head of the copyright file.
pub open spec fn copyright_head(p: PackageConfig, has_full_text: bool) -> Seq<char> {
    field(
        "Format"@,
        "https://www.debian.org/doc/packaging-manuals/copyright-format/1.0/"@,
    ) + field("Upstream-Name"@, p.cargo_crate_name@) + optional_field(
        "Source"@,
        first_of(p.repository.deep_view(), p.homepage.deep_view()),
    ) + (match p.copyright {
        Some(c) => field("Copyright"@, c@),
        None => match p.maintainer {
            Some(m) => field(
                "Comment"@,
                "Copyright information missing (maintainer: "@ + m@ + ")"@,
            ),
            None => Seq::empty(),
        },
    }) + (match p.license_identifier {
        Some(l) => field("License"@, l@),
        None => if has_full_text {
            field("License"@, ""@)
        } else {
            Seq::empty()
        },
    })
}

impl PackageConfig {
    /// The head of the copyright file, and whether it lacks something.
    pub fn write_copyright_metadata(&self, has_full_text: bool) -> (r: (String, bool))
        ensures
            r.0@ == copyright_head(*self, has_full_text),
            r.1 == copyright_is_incomplete(*self),
    {
        let mut copyright = String::new();
        let mut incomplete = false;
        push_field(
            &mut copyright,
            "Format",
            "https://www.debian.org/doc/packaging-manuals/copyright-format/1.0/",
        );
        assert(copyright@ =~= field(
            "Format"@,
            "https://www.debian.org/doc/packaging-manuals/copyright-format/1.0/"@,
        ));
        push_field(&mut copyright, "Upstream-Name", self.cargo_crate_name.as_str());
        if self.repository.is_some() {
            push_optional(&mut copyright, "Source", &self.repository);
        } else {
            push_optional(&mut copyright, "Source", &self.homepage);
        }
        let ghost c = copyright@;
        assert(c + Seq::<char>::empty() =~= c);
        match (&self.copyright, &self.maintainer) {
            (Some(c), _) => push_field(&mut copyright, "Copyright", c.as_str()),
            (None, Some(m)) => {
                let text = crate::text::cat3(
                    "Copyright information missing (maintainer: ",
                    m.as_str(),
                    ")",
                );
                push_field(&mut copyright, "Comment", text.as_str());
            },
            (None, None) => {
                incomplete = match &self.license_identifier {
                    Some(l) => !license_doesnt_need_author_info(l.as_str()),
                    None => true,
                };
            },
        }
        let ghost c = copyright@;
        assert(c + Seq::<char>::empty() =~= c);
        match &self.license_identifier {
            Some(l) => push_field(&mut copyright, "License", l.as_str()),
            None => {
                if has_full_text {
                    push_field(&mut copyright, "License", "");
                }
            },
        }
        (copyright, incomplete)
    }
}

} // verus!
