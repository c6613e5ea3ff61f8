//! What names, versions and licenses have to look like.
use crate::error::{CDResult, CargoDebError, CauseView, ErrorView};
use crate::numbers::{number_value, parse_number};
use crate::parse::manifest::{debian_version, is_digit, is_pre_release, lower, lower_char, lower_of, LicenseFile};
use crate::text::{chars_of, find_from, has_prefix, index_from, lemma_find_from, lines, lines_of, starts_with, trim_start, trimmed_start};
use vstd::prelude::*;
use vstd::utf8::encode_utf8;

verus! {

// ---------------------------------------------------------------------------
// Names
// ---------------------------------------------------------------------------
/// What a byte of the name of a crate becomes in that of a package.
pub open spec fn name_char(b: u8) -> char {
    if b == 95 {
        '-'
    } else {
        lower_char(b as char)
    }
}

/// The name of the package of a crate.
pub open spec fn package_name(crate_name: Seq<char>) -> Seq<char> {
    encode_utf8(crate_name).map_values(|b: u8| name_char(b))
}

/// Debian doesn't like `_` in names
pub fn debian_package_name(crate_name: &str) -> (r: String)
    ensures
        r@ == package_name(crate_name@),
{
    // crate names are ASCII only
    let bytes = crate_name.as_bytes();
    let mut out = String::new();
    let mut i: usize = 0;
    let ghost all = package_name(crate_name@);
    assert(out@ =~= all.take(0));
    while i < bytes.len()
        invariant
            i <= bytes.len(),
            all == package_name(crate_name@),
            bytes@ == encode_utf8(crate_name@),
            out@ == all.take(i as int),
        decreases bytes.len() - i,
    {
        let b = bytes[i];
        let c = if b == 95 {
            '-'
        } else {
            lower_of(b as char)
        };
        out.push(c);
        assert(all.take(i + 1) =~= all.take(i as int).push(c));
        i += 1;
    }
    assert(all.take(i as int) =~= all);
    out
}

/// The name of a package has neither an underscore nor an upper case letter, whatever that of the
/// crate has.
pub proof fn law_package_name(crate_name: Seq<char>)
    ensures
        forall|i: int|
            0 <= i < package_name(crate_name).len() ==> (#[trigger] package_name(crate_name)[i]) != '_'
                && !('A' <= package_name(crate_name)[i] <= 'Z'),
{
    assert forall|i: int| 0 <= i < package_name(crate_name).len() implies (
    #[trigger] package_name(crate_name)[i]) != '_' && !('A' <= package_name(crate_name)[i] <= 'Z') by {
        let b = encode_utf8(crate_name)[i];
        assert(package_name(crate_name)[i] == name_char(b));
    }
}

// ---------------------------------------------------------------------------
// Versions
// ---------------------------------------------------------------------------
/// A character of a version.
pub open spec fn is_version_char(c: char) -> bool {
    is_digit(c) || 'a' <= c <= 'z' || 'A' <= c <= 'Z' || c == '.' || c == '+' || c == '-' || c == '~'
}

pub open spec fn all_digits(s: Seq<char>) -> bool {
    forall|i: int| 0 <= i < s.len() ==> is_digit(#[trigger] s[i])
}

pub open spec fn all_version_chars(s: Seq<char>) -> bool {
    forall|i: int| 0 <= i < s.len() ==> is_version_char(#[trigger] s[i])
}

/// The version without its epoch.
pub open spec fn behind_epoch(ver: Seq<char>) -> Seq<char> {
    let i = find_from(ver, ':', 0);
    if i < ver.len() {
        ver.skip(i + 1)
    } else {
        ver
    }
}

/// What is wrong with a version, if anything is.
pub open spec fn version_problem(ver: Seq<char>) -> Option<Seq<char>> {
    let i = find_from(ver, ':', 0);
    let rest = behind_epoch(ver);
    if trim_start(ver).len() == 0 {
        Some("empty string"@)
    } else if i < ver.len() && !(i > 0 && all_digits(ver.take(i))) {
        Some("version has unexpected ':' char"@)
    } else if !(rest.len() > 0 && is_digit(rest[0])) {
        Some("version must start with a digit"@)
    } else if !all_version_chars(rest) {
        Some("contains characters other than a-z 0-9 . + - ~"@)
    } else {
        None
    }
}

fn digits_before(v: &Vec<char>, end: usize) -> (r: bool)
    requires
        end <= v.len(),
    ensures
        r == all_digits(v@.take(end as int)),
{
    let ghost s = v@.take(end as int);
    let mut k: usize = 0;
    while k < end
        invariant
            k <= end <= v.len(),
            s == v@.take(end as int),
            forall|j: int| 0 <= j < k ==> is_digit(#[trigger] s[j]),
        decreases end - k,
    {
        assert(s[k as int] == v@[k as int]);
        if !('0' <= v[k] && v[k] <= '9') {
            assert(!is_digit(s[k as int]));
            return false;
        }
        k += 1;
    }
    true
}

fn version_chars_from(v: &Vec<char>, start: usize) -> (r: bool)
    requires
        start <= v.len(),
    ensures
        r == all_version_chars(v@.skip(start as int)),
{
    let ghost s = v@.skip(start as int);
    let mut k: usize = start;
    while k < v.len()
        invariant
            start <= k <= v.len(),
            s == v@.skip(start as int),
            forall|j: int| 0 <= j < k - start ==> is_version_char(#[trigger] s[j]),
        decreases v.len() - k,
    {
        let c = v[k];
        assert(s[k - start] == c);
        if !(('0' <= c && c <= '9') || ('a' <= c && c <= 'z') || ('A' <= c && c <= 'Z') || c == '.'
            || c == '+' || c == '-' || c == '~') {
            assert(!is_version_char(s[k - start]));
            return false;
        }
        k += 1;
    }
    true
}

/// Whether a package can have the version.
pub fn check_debian_version(ver: &str) -> (r: Result<(), &'static str>)
    ensures
        r is Ok <==> version_problem(ver@) is None,
        r is Err ==> version_problem(ver@) == Some(r->Err_0@),
{
    let t = trimmed_start(ver);
    if t.as_str().is_empty() {
        return Err("empty string");
    }
    let v = chars_of(ver);
    let colon = index_from(&v, ':', 0);
    let mut start: usize = 0;
    if colon < v.len() {
        if colon == 0 || !digits_before(&v, colon) {
            return Err("version has unexpected ':' char");
        }
        start = colon + 1;
    } else {
        assert(ver@.skip(0) =~= ver@);
    }
    assert(behind_epoch(ver@) == ver@.skip(start as int));
    if start >= v.len() || !('0' <= v[start] && v[start] <= '9') {
        return Err("version must start with a digit");
    }
    if !version_chars_from(&v, start) {
        return Err("contains characters other than a-z 0-9 . + - ~");
    }
    Ok(())
}

/// A version that a crate can have, with a revision of such characters, makes one that a package can
/// have.
pub proof fn law_version_is_accepted(version: Seq<char>, revision: Option<Seq<char>>)
    requires
        version.len() > 0,
        is_digit(version[0]),
        all_version_chars(version),
        revision is Some ==> all_version_chars(revision->0),
    ensures
        version_problem(debian_version(version, revision)) is None,
{
    let d = debian_version(version, revision);
    let i = find_from(version, '-', 0);
    lemma_find_from(version, '-', 0);
    let v = if i < version.len() && is_pre_release(version.skip(i + 1)) {
        version.take(i) + seq!['~'] + version.skip(i + 1)
    } else {
        version
    };
    assert(i > 0);
    assert(v.len() >= version.len());
    assert(v[0] == version[0]);
    assert forall|k: int| 0 <= k < v.len() implies is_version_char(#[trigger] v[k]) by {
        if v != version {
            if k < i {
                assert(v[k] == version[k]);
            } else if k > i {
                assert(v[k] == version[k]);
            }
        }
    }
    assert forall|k: int| 0 <= k < d.len() implies is_version_char(#[trigger] d[k]) by {
        if k < v.len() {
            assert(d[k] == v[k]);
        } else if k > v.len() {
            let rev = match revision {
                Some(r) => r,
                None => seq!['1'],
            };
            assert(d[k] == rev[k - v.len() - 1]);
        }
    }
    assert(d[0] == version[0]);
    lemma_find_from(d, ':', 0);
    if find_from(d, ':', 0) < d.len() {
        assert(is_version_char(d[find_from(d, ':', 0)]));
    }
    assert(behind_epoch(d) == d);
    assert(trim_start(d) == d);
}

// ---------------------------------------------------------------------------
// Licenses
// ---------------------------------------------------------------------------
/// A license under which it does not matter who the authors are.
pub open spec fn needs_no_author(license: Seq<char>) -> bool {
    let l = lower(license);
    l == lower("UNLICENSED"@) || l == lower("PROPRIETARY"@) || l == lower("CC-PDDC"@) || l
        == lower("CC0-1.0"@)
}

fn same_ignoring_case(a: &str, b: &str) -> (r: bool)
    ensures
        r == (lower(a@) == lower(b@)),
{
    let av = chars_of(a);
    let bv = chars_of(b);
    if av.len() != bv.len() {
        assert(lower(a@).len() != lower(b@).len());
        return false;
    }
    let mut i: usize = 0;
    while i < av.len()
        invariant
            av@ == a@,
            bv@ == b@,
            av.len() == bv.len(),
            i <= av.len(),
            forall|k: int| 0 <= k < i ==> lower(a@)[k] == lower(b@)[k],
        decreases av.len() - i,
    {
        if lower_of(av[i]) != lower_of(bv[i]) {
            assert(lower(a@)[i as int] != lower(b@)[i as int]);
            return false;
        }
        i += 1;
    }
    assert(lower(a@) =~= lower(b@));
    true
}

pub fn license_doesnt_need_author_info(license_identifier: &str) -> (r: bool)
    ensures
        r == needs_no_author(license_identifier@),
{
    same_ignoring_case("UNLICENSED", license_identifier) || same_ignoring_case(
        "PROPRIETARY",
        license_identifier,
    ) || same_ignoring_case("CC-PDDC", license_identifier) || same_ignoring_case(
        "CC0-1.0",
        license_identifier,
    )
}

/// Whether a line is a field of a copyright file.
pub open spec fn is_copyright_field(line: Seq<char>) -> bool {
    has_prefix(line, "Copyright: "@) || has_prefix(line, "License: "@) || has_prefix(
        line,
        "Source: "@,
    ) || has_prefix(line, "Upstream-Name: "@) || has_prefix(line, "Format: "@)
}

/// Whether one of the first ten lines of a file is a field of a copyright file.
pub open spec fn is_copyright_file(file: Seq<char>) -> bool {
    exists|i: int| 0 <= i < lines(file).len() && i < 10 && is_copyright_field(#[trigger] lines(file)[i])
}

pub fn has_copyright_metadata(file: &str) -> (r: bool)
    ensures
        r == is_copyright_file(file@),
{
    let ls = lines_of(file);
    let mut i: usize = 0;
    while i < ls.len() && i < 10
        invariant
            ls.deep_view() == lines(file@),
            i <= ls.len(),
            forall|k: int| 0 <= k < i ==> !is_copyright_field(#[trigger] lines(file@)[k]),
        decreases ls.len() - i,
    {
        let l = ls[i].as_str();
        assert(lines(file@)[i as int] == l@);
        if starts_with(l, "Copyright: ") || starts_with(l, "License: ") || starts_with(l, "Source: ")
            || starts_with(l, "Upstream-Name: ") || starts_with(l, "Format: ") {
            assert(is_copyright_field(lines(file@)[i as int]));
            return true;
        }
        i += 1;
    }
    false
}

/// The number of lines to skip that the second item of a license file gives.
pub open spec fn skipped_lines(args: Seq<Seq<char>>) -> Result<int, ErrorView> {
    if args.len() < 2 {
        Ok(0)
    } else {
        match number_value(args[1], 10, usize::MAX as int) {
            Ok(n) => Ok(n),
            Err(e) => Err(
                ErrorView::NumParse(
                    "invalid number of lines"@,
                    CauseView { message: e.text(), sources: Seq::empty() },
                ),
            ),
        }
    }
}

/// The license file of the `deb` table, else that of the package, and how many of its lines to skip.
pub open spec fn license_source(
    package_file: Option<Seq<char>>,
    license_file: Option<LicenseFile>,
) -> Result<(Option<Seq<char>>, int), ErrorView> {
    match license_file {
        Some(LicenseFile::Vec(args)) => match skipped_lines(args.deep_view()) {
            Ok(n) => Ok(
                (
                    if args@.len() > 0 {
                        Some(args@[0]@)
                    } else {
                        None
                    },
                    n,
                ),
            ),
            Err(e) => Err(e),
        },
        Some(LicenseFile::String(s)) => Ok((Some(s@), 0)),
        None => Ok((package_file, 0)),
    }
}

/// The license file of the `deb` table, else that of the package, and how many of its lines to skip.
pub fn parse_license_file(
    package_license_file: Option<&String>,
    license_file: Option<&LicenseFile>,
) -> (r: CDResult<(Option<String>, usize)>)
    ensures
        ({
            let source = license_source(
                match package_license_file {
                    Some(p) => Some(p@),
                    None => None,
                },
                match license_file {
                    Some(l) => Some(*l),
                    None => None,
                },
            );
            &&& r is Ok <==> source is Ok
            &&& r is Ok ==> ((r->Ok_0).0.deep_view(), (r->Ok_0).1 as int) == source->Ok_0
            &&& r is Err ==> r->Err_0.deep_view() == source->Err_0
        }),
{
    match license_file {
        Some(LicenseFile::Vec(args)) => {
            let file = if args.len() > 0 {
                Some(args[0].clone())
            } else {
                None
            };
            let mut n: usize = 0;
            if args.len() > 1 {
                assert(args.deep_view()[1] == args[1]@);
                match parse_number(args[1].as_str(), 10, usize::MAX as u64) {
                    Ok(number) => {
                        n = number as usize;
                    },
                    Err(e) => {
                        return Err(
                            CargoDebError::NumParse("invalid number of lines", e.cause()),
                        );
                    },
                }
            }
            Ok((file, n))
        },
        Some(LicenseFile::String(s)) => Ok((Some(s.clone()), 0)),
        None => match package_license_file {
            Some(p) => Ok((Some(p.clone()), 0)),
            None => Ok((None, 0)),
        },
    }
}

} // verus!
