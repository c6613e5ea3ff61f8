//! Rust's names of machines and Debian's.
use crate::text::{cat3, ends_with, has_prefix, has_suffix, same, split, split_char, starts_with};
use vstd::prelude::*;

verus! {

/// The first part of a triple.
pub open spec fn triple_arch(triple: Seq<char>) -> Seq<char> {
    split(triple, '-')[0]
}

/// The last part of a triple, where it has more than one.
pub open spec fn triple_abi(triple: Seq<char>, default: Seq<char>) -> Seq<char> {
    let parts = split(triple, '-');
    if parts.len() > 1 {
        parts.last()
    } else {
        default
    }
}

/// The machine and the ABI in Debian's names of machines.
pub open spec fn debian_parts(arch: Seq<char>, abi: Seq<char>) -> (Seq<char>, Seq<char>) {
    if arch == "i586"@ || arch == "i686"@ {
        ("i386"@, "gnu"@)
    } else if arch == "x86_64"@ {
        ("x86_64"@, "gnu"@)
    } else if arch == "aarch64"@ {
        ("aarch64"@, "gnu"@)
    } else if has_prefix(arch, "arm"@) || has_prefix(arch, "thumb"@) {
        (
            "arm"@,
            if has_suffix(abi, "hf"@) {
                "gnueabihf"@
            } else {
                "gnueabi"@
            },
        )
    } else if arch == "mipsel"@ {
        ("mipsel"@, "gnu"@)
    } else if (arch == "mips64"@ || arch == "mips64el"@) && (abi == "musl"@ || abi
        == "muslabi64"@) {
        (arch, "gnuabi64"@)
    } else if arch == "loongarch64"@ {
        ("loongarch64"@, "gnu"@)
    } else if has_prefix(arch, "riscv64"@) {
        ("riscv64"@, "gnu"@)
    } else if abi == "muslspe"@ {
        (arch, "gnuspe"@)
    } else if abi == "musl"@ || abi == "uclibc"@ {
        (arch, "gnu"@)
    } else {
        (arch, abi)
    }
}

/// Debian's name of a machine with its ABI.
pub open spec fn debian_triple(triple: Seq<char>) -> Seq<char> {
    let (arch, abi) = debian_parts(triple_arch(triple), triple_abi(triple, "gnu"@));
    arch + "-linux-"@ + abi
}

/// Debian's name of an architecture.
pub open spec fn debian_architecture(triple: Seq<char>) -> Seq<char> {
    let arch = triple_arch(triple);
    let abi = triple_abi(triple, ""@);
    if arch == "aarch64"@ || arch == "aarch64_be"@ {
        "arm64"@
    } else if arch == "mips64"@ && abi == "gnuabi32"@ {
        "mipsn32"@
    } else if arch == "mips64el"@ && abi == "gnuabi32"@ {
        "mipsn32el"@
    } else if arch == "mipsisa32r6"@ {
        "mipsr6"@
    } else if arch == "mipsisa32r6el"@ {
        "mipsr6el"@
    } else if arch == "mipsisa64r6"@ && abi == "gnuabi64"@ {
        "mips64r6"@
    } else if arch == "mipsisa64r6"@ && abi == "gnuabi32"@ {
        "mipsn32r6"@
    } else if arch == "mipsisa64r6el"@ && abi == "gnuabi64"@ {
        "mips64r6el"@
    } else if arch == "mipsisa64r6el"@ && abi == "gnuabi32"@ {
        "mipsn32r6el"@
    } else if arch == "powerpc"@ && (abi == "gnuspe"@ || abi == "muslspe"@) {
        "powerpcspe"@
    } else if arch == "powerpc64"@ {
        "ppc64"@
    } else if arch == "powerpc64le"@ {
        "ppc64el"@
    } else if arch == "riscv64gc"@ {
        "riscv64"@
    } else if arch == "i586"@ || arch == "i686"@ || arch == "x86"@ {
        "i386"@
    } else if arch == "x86_64"@ && abi == "gnux32"@ {
        "x32"@
    } else if arch == "x86_64"@ {
        "amd64"@
    } else if arch == "loongarch64"@ {
        "loong64"@
    } else if has_prefix(arch, "arm"@) && has_suffix(abi, "hf"@) {
        "armhf"@
    } else if has_prefix(arch, "arm"@) || has_prefix(arch, "thumb"@) {
        "armel"@
    } else {
        arch
    }
}

/// The first and the last part of a triple.
fn parts(triple: &str, default: &str) -> (r: (String, String))
    ensures
        r.0@ == triple_arch(triple@),
        r.1@ == triple_abi(triple@, default@),
{
    let p = split_char(triple, '-');
    assert(p.deep_view()[0] == p[0]@);
    let n: usize = p.len();
    assert(p.deep_view()[n - 1] == p[n - 1]@);
    if n > 1 {
        (p[0].clone(), p[n - 1].clone())
    } else {
        (p[0].clone(), default.to_owned())
    }
}

fn debian_parts_of(arch: &str, abi: &str) -> (r: (String, String))
    ensures
        r.0@ == debian_parts(arch@, abi@).0,
        r.1@ == debian_parts(arch@, abi@).1,
{
    if same(arch, "i586") || same(arch, "i686") {
        ("i386".to_owned(), "gnu".to_owned())
    } else if same(arch, "x86_64") {
        ("x86_64".to_owned(), "gnu".to_owned())
    } else if same(arch, "aarch64") {
        ("aarch64".to_owned(), "gnu".to_owned())
    } else if starts_with(arch, "arm") || starts_with(arch, "thumb") {
        if ends_with(abi, "hf") {
            ("arm".to_owned(), "gnueabihf".to_owned())
        } else {
            ("arm".to_owned(), "gnueabi".to_owned())
        }
    } else if same(arch, "mipsel") {
        ("mipsel".to_owned(), "gnu".to_owned())
    } else if (same(arch, "mips64") || same(arch, "mips64el")) && (same(abi, "musl") || same(
        abi,
        "muslabi64",
    )) {
        (arch.to_owned(), "gnuabi64".to_owned())
    } else if same(arch, "loongarch64") {
        // architecture is loong64, tuple is loongarch64!
        ("loongarch64".to_owned(), "gnu".to_owned())
    } else if starts_with(arch, "riscv64") {
        ("riscv64".to_owned(), "gnu".to_owned())
    } else if same(abi, "muslspe") {
        (arch.to_owned(), "gnuspe".to_owned())
    } else if same(abi, "musl") || same(abi, "uclibc") {
        (arch.to_owned(), "gnu".to_owned())
    } else {
        (arch.to_owned(), abi.to_owned())
    }
}

/// Maps Rust's blah-unknown-linux-blah to Debian's blah-linux-blah. This is debian's multiarch.
pub fn debian_triple_from_rust_triple(rust_target_triple: &str) -> (r: String)
    ensures
        r@ == debian_triple(rust_target_triple@),
{
    let (arch, abi) = parts(rust_target_triple, "gnu");
    let (darch, dabi) = debian_parts_of(arch.as_str(), abi.as_str());
    cat3(darch.as_str(), "-linux-", dabi.as_str())
}

/// Debianizes the architecture name. Weirdly, architecture and multiarch use different naming conventions in Debian!
pub fn debian_architecture_from_rust_triple(rust_target_triple: &str) -> (r: String)
    ensures
        r@ == debian_architecture(rust_target_triple@),
{
    let (arch_text, abi_text) = parts(rust_target_triple, "");
    let arch = arch_text.as_str();
    let abi = abi_text.as_str();
    // https://wiki.debian.org/Multiarch/Tuples
    // rustc --print target-list
    // https://doc.rust-lang.org/std/env/consts/constant.ARCH.html
    let name = if same(arch, "aarch64") || same(arch, "aarch64_be") {
        "arm64"
    } else if same(arch, "mips64") && same(abi, "gnuabi32") {
        "mipsn32"
    } else if same(arch, "mips64el") && same(abi, "gnuabi32") {
        "mipsn32el"
    } else if same(arch, "mipsisa32r6") {
        "mipsr6"
    } else if same(arch, "mipsisa32r6el") {
        "mipsr6el"
    } else if same(arch, "mipsisa64r6") && same(abi, "gnuabi64") {
        "mips64r6"
    } else if same(arch, "mipsisa64r6") && same(abi, "gnuabi32") {
        "mipsn32r6"
    } else if same(arch, "mipsisa64r6el") && same(abi, "gnuabi64") {
        "mips64r6el"
    } else if same(arch, "mipsisa64r6el") && same(abi, "gnuabi32") {
        "mipsn32r6el"
    } else if same(arch, "powerpc") && (same(abi, "gnuspe") || same(abi, "muslspe")) {
        "powerpcspe"
    } else if same(arch, "powerpc64") {
        "ppc64"
    } else if same(arch, "powerpc64le") {
        "ppc64el"
    } else if same(arch, "riscv64gc") {
        "riscv64"
    } else if same(arch, "i586") || same(arch, "i686") || same(arch, "x86") {
        "i386"
    } else if same(arch, "x86_64") && same(abi, "gnux32") {
        "x32"
    } else if same(arch, "x86_64") {
        "amd64"
    } else if same(arch, "loongarch64") {
        "loong64"
    } else if starts_with(arch, "arm") && ends_with(abi, "hf") {
        "armhf"
    } else if starts_with(arch, "arm") || starts_with(arch, "thumb") {
        "armel"
    } else {
        arch
    };
    name.to_owned()
}

/// What is said where a package is made on another system than Linux, for that system.
pub fn warn_if_not_linux(os: &str) -> (r: Option<String>)
    ensures
        r is Some <==> os@ != "linux"@,
        r is Some ==> r->0@ == "You're creating a package only for "@ + os@
            + ", and not for Linux.\nUse --target if you want to cross-compile."@,
{
    if same(os, "linux") {
        None
    } else {
        Some(
            cat3(
                "You're creating a package only for ",
                os,
                ", and not for Linux.\nUse --target if you want to cross-compile.",
            ),
        )
    }
}

} // verus!
