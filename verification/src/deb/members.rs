//! The members of an `ar` archive, as the `ar` crate writes them.
use crate::text::{decimal, digit_char};
use vstd::prelude::*;

verus! {

// ---------------------------------------------------------------------------
// Layout
// ---------------------------------------------------------------------------
/// The bytes of ASCII characters.
pub open spec fn ascii(s: Seq<char>) -> Seq<u8> {
    s.map_values(|c: char| c as u8)
}

/// Text, with spaces behind it up to a width.
pub open spec fn field(s: Seq<char>, width: nat) -> Seq<u8> {
    ascii(s) + Seq::new(
        if s.len() < width {
            (width - s.len()) as nat
        } else {
            0
        },
        |i: int| 32u8,
    )
}

/// The digits of a number in base 8.
pub open spec fn octal(n: nat) -> Seq<char>
    decreases n,
{
    if n < 8 {
        seq![digit_char(n as int)]
    } else {
        octal(n / 8).push(digit_char((n % 8) as int))
    }
}

/// What is said of a member.
pub struct MemberFields {
    pub identifier: Seq<u8>,
    pub mtime: u64,
    pub uid: u32,
    pub gid: u32,
    pub mode: u32,
    pub size: u64,
}

/// The fields of a header behind the name.
pub open spec fn header_tail(f: MemberFields, size: nat) -> Seq<u8> {
    field(decimal(f.mtime as nat), 12) + field(decimal(f.uid as nat), 6) + field(
        decimal(f.gid as nat),
        6,
    ) + field(octal(f.mode as nat), 8) + field(decimal(size), 10) + seq![96u8, 10u8]
}

/// A name that does not fit into a header.
pub open spec fn is_long(identifier: Seq<u8>) -> bool {
    identifier.len() > 16 || identifier.contains(32u8)
}

/// How long a name is behind a header: a multiple of four bytes.
pub open spec fn long_len(identifier: Seq<u8>) -> nat {
    (identifier.len() + (4 - identifier.len() % 4) % 4) as nat
}

/// The header of a member; a name that does not fit stands behind it, and counts as content.
pub open spec fn header_block(f: MemberFields) -> Seq<u8> {
    if is_long(f.identifier) {
        let n = long_len(f.identifier);
        ascii("#1/"@) + field(decimal(n), 13) + header_tail(f, f.size as nat + n) + f.identifier
            + Seq::new((n - f.identifier.len()) as nat, |i: int| 0u8)
    } else {
        f.identifier + Seq::new((16 - f.identifier.len()) as nat, |i: int| 32u8) + header_tail(
            f,
            f.size as nat,
        )
    }
}

/// A member with its content, which takes up an even number of bytes.
pub open spec fn member_block(f: MemberFields, data: Seq<u8>) -> Seq<u8> {
    header_block(f) + data + if data.len() % 2 == 1 {
        seq![10u8]
    } else {
        Seq::empty()
    }
}

/// What an archive begins with.
pub open spec fn archive_start() -> Seq<u8> {
    ascii("!<arch>\n"@)
}

// ---------------------------------------------------------------------------
// The `ar` crate
// ---------------------------------------------------------------------------
/// A header of the `ar` crate.
#[verifier::external_type_specification]
#[verifier::external_body]
pub struct ExArHeader(ar::Header);

/// A builder of the `ar` crate that writes to a vector. (`ar::Builder` is generic over a trait that
/// has no specification, which is why a type of this library holds it.)
#[verifier::external_body]
pub struct ArWriter {
    builder: ar::Builder<Vec<u8>>,
}

/// The fields of a header: the name, the time, the owner, the group, the permissions and the size.
pub uninterp spec fn ar_fields(header: ar::Header) -> (Seq<u8>, u64, u32, u32, u32, u64);

/// The bytes that have been written through a builder.
pub uninterp spec fn ar_written(writer: ArWriter) -> Seq<u8>;

/// The fields of a header.
pub open spec fn fields(header: ar::Header) -> MemberFields {
    let f = ar_fields(header);
    MemberFields { identifier: f.0, mtime: f.1, uid: f.2, gid: f.3, mode: f.4, size: f.5 }
}

/// `ar::Header::new` sets the name and the size, and all other fields to zero.
pub assume_specification[ ar::Header::new ](identifier: Vec<u8>, size: u64) -> (h: ar::Header)
    ensures
        ar_fields(h) == (identifier@, 0u64, 0u32, 0u32, 0u32, size),
;

/// `ar::Header::set_mtime` sets the time.
pub assume_specification[ ar::Header::set_mtime ](h: &mut ar::Header, mtime: u64)
    ensures
        fields(*final(h)) == (MemberFields { mtime, ..fields(*old(h)) }),
;

/// `ar::Header::set_uid` sets the owner.
pub assume_specification[ ar::Header::set_uid ](h: &mut ar::Header, uid: u32)
    ensures
        fields(*final(h)) == (MemberFields { uid, ..fields(*old(h)) }),
;

/// `ar::Header::set_gid` sets the group.
pub assume_specification[ ar::Header::set_gid ](h: &mut ar::Header, gid: u32)
    ensures
        fields(*final(h)) == (MemberFields { gid, ..fields(*old(h)) }),
;

/// `ar::Header::set_mode` sets the permissions.
pub assume_specification[ ar::Header::set_mode ](h: &mut ar::Header, mode: u32)
    ensures
        fields(*final(h)) == (MemberFields { mode, ..fields(*old(h)) }),
;

/// `ar::Builder::new` writes nothing yet.
#[verifier::external_body]
pub(crate) fn new_archive() -> (w: ArWriter)
    ensures
        ar_written(w) == Seq::<u8>::empty(),
{
    ArWriter { builder: ar::Builder::new(Vec::new()) }
}

/// `ar::Builder::append` writes what an archive begins with in front of the first member, the
/// header, the content, and a line feed if the content has an odd number of bytes. The content has
/// to have the size that the header says; nothing is said of what is written otherwise. Writing to a
/// vector and reading from a slice do not fail.
#[verifier::external_body]
pub(crate) fn append_member(w: &mut ArWriter, header: &ar::Header, data: &[u8]) -> (r: Result<
    (),
    std::io::Error,
>)
    requires
        is_long(fields(*header).identifier) ==> fields(*header).size + fields(
            *header,
        ).identifier.len() + 3 <= u64::MAX,
    ensures
        r is Ok <==> fields(*header).size == data@.len(),
        r is Ok ==> ar_written(*final(w)) == (if ar_written(*old(w)).len() == 0 {
            archive_start()
        } else {
            ar_written(*old(w))
        }) + member_block(fields(*header), data@),
{
    w.builder.append(header, data)
}

/// `ar::Builder::into_inner` returns the destination.
#[verifier::external_body]
pub(crate) fn archive_bytes_of(w: ArWriter) -> (r: Result<Vec<u8>, std::io::Error>)
    ensures
        r is Ok,
        (r->Ok_0)@ == ar_written(w),
{
    w.builder.into_inner()
}

} // verus!
