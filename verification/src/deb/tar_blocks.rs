//! Headers and blocks of a tar archive, as the `tar` crate writes them.
use crate::paths::{components, is_absolute, Comp};
use crate::text::join;
use vstd::prelude::*;
use vstd::utf8::encode_utf8;

verus! {

// ---------------------------------------------------------------------------
// Numbers in a header
// ---------------------------------------------------------------------------
/// The last `n` octal digits of `v`.
pub open spec fn octal_digits(v: nat, n: nat) -> Seq<u8>
    decreases n,
{
    if n == 0 {
        Seq::empty()
    } else {
        octal_digits(v / 8, (n - 1) as nat).push((48 + v % 8) as u8)
    }
}

/// A number as octal digits with a zero byte behind them, `n` bytes in all.
pub open spec fn octal_field(v: nat, n: nat) -> Seq<u8> {
    octal_digits(v, (n - 1) as nat).push(0u8)
}

/// The last `n` bytes of `v`, the highest first.
pub open spec fn be_bytes(v: nat, n: nat) -> Seq<u8>
    decreases n,
{
    if n == 0 {
        Seq::empty()
    } else {
        be_bytes(v / 256, (n - 1) as nat).push((v % 256) as u8)
    }
}

/// The twelve bytes of a size or a time: octal digits as long as eleven of them are enough, else
/// eight binary bytes behind four bytes of which the first has its highest bit set.
pub open spec fn long_number_field(v: nat) -> Seq<u8> {
    if v < 0o100000000000 {
        octal_field(v, 12)
    } else {
        seq![0x80u8, 0u8, 0u8, 0u8] + be_bytes(v, 8)
    }
}

/// `block` with `bytes` written over it from `at` on.
pub open spec fn put(block: Seq<u8>, at: int, bytes: Seq<u8>) -> Seq<u8> {
    block.take(at) + bytes + block.skip(at + bytes.len())
}

pub open spec fn zeros(n: nat) -> Seq<u8> {
    Seq::new(n, |i: int| 0u8)
}

/// The sum of the bytes.
pub open spec fn byte_sum(s: Seq<u8>) -> nat
    decreases s.len(),
{
    if s.len() == 0 {
        0
    } else {
        byte_sum(s.drop_last()) + s.last() as nat
    }
}

/// The sum of the bytes of a header, each byte of the checksum itself counted as a space.
pub open spec fn checksum(header: Seq<u8>) -> nat {
    byte_sum(put(header, 148, Seq::new(8, |i: int| 32u8)))
}

/// A header in the oldest format with nothing in it but the time 0.
pub open spec fn old_header() -> Seq<u8> {
    put(zeros(512), 136, octal_field(0, 12))
}

/// A header in the GNU format with nothing in it but the time 0.
pub open spec fn gnu_header() -> Seq<u8> {
    put(old_header(), 257, seq![117u8, 115u8, 116u8, 97u8, 114u8, 32u8, 32u8, 0u8])
}

/// The name of a component, for all but the root.
pub open spec fn component_text(c: Comp) -> Seq<char> {
    match c {
        Comp::Root => seq!['/'],
        Comp::Cur => seq!['.'],
        Comp::Parent => seq!['.', '.'],
        Comp::Normal(name) => name,
    }
}

/// A link's destination as it stands in a header: the components, each separated from the next by
/// one slash, and one more slash where the path ends with one.
pub open spec fn link_text(p: Seq<char>) -> Seq<char> {
    let texts = components(p).map_values(|c: Comp| component_text(c));
    let body = if is_absolute(p) {
        seq!['/'] + join(texts.skip(1), seq!['/'])
    } else {
        join(texts, seq!['/'])
    };
    if p.len() > 0 && p.last() == '/' {
        body.push('/')
    } else {
        body
    }
}

/// The bytes of a link's destination, with a zero byte behind them where the field has room.
pub open spec fn link_field(p: Seq<char>) -> Seq<u8> {
    let bytes = encode_utf8(link_text(p));
    if bytes.len() < 100 {
        bytes.push(0u8)
    } else {
        bytes
    }
}

/// Whether a path can stand in a header as the destination of a link.
pub open spec fn link_fits(p: Seq<char>) -> bool {
    let bytes = encode_utf8(link_text(p));
    components(p).len() > 0 && bytes.len() <= 100 && !bytes.contains(0u8)
}

/// `data` and the zero bytes that fill its last block.
pub open spec fn padded(data: Seq<u8>) -> Seq<u8> {
    if data.len() % 512 == 0 {
        data
    } else {
        data + zeros((512 - data.len() % 512) as nat)
    }
}

/// A header by its fields: name, mode, the two owners, size, time, checksum, type, link, the rest.
pub open spec fn block(
    name: Seq<u8>,
    mode: Seq<u8>,
    owners: Seq<u8>,
    size: Seq<u8>,
    mtime: Seq<u8>,
    sum: Seq<u8>,
    flag: u8,
    link: Seq<u8>,
    rest: Seq<u8>,
) -> Seq<u8> {
    name + mode + owners + size + mtime + sum + seq![flag] + link + rest
}

/// Each field has the length it has in a header.
pub open spec fn is_block(
    name: Seq<u8>,
    mode: Seq<u8>,
    owners: Seq<u8>,
    size: Seq<u8>,
    mtime: Seq<u8>,
    sum: Seq<u8>,
    link: Seq<u8>,
    rest: Seq<u8>,
) -> bool {
    &&& name.len() == 100
    &&& mode.len() == 8
    &&& owners.len() == 16
    &&& size.len() == 12
    &&& mtime.len() == 12
    &&& sum.len() == 8
    &&& link.len() == 100
    &&& rest.len() == 255
}

/// `s` followed by as many zero bytes as `n` bytes take in all.
pub open spec fn zero_filled(s: Seq<u8>, n: int) -> Seq<u8> {
    s + zeros((n - s.len()) as nat)
}

/// The last field of a header: nothing, or the magic and the version of the GNU format.
pub open spec fn rest_field(gnu: bool) -> Seq<u8> {
    if gnu {
        zero_filled(seq![117u8, 115u8, 116u8, 97u8, 114u8, 32u8, 32u8, 0u8], 255)
    } else {
        zeros(255)
    }
}

pub proof fn lemma_octal_len(v: nat, n: nat)
    ensures
        octal_digits(v, n).len() == n,
    decreases n,
{
    if n > 0 {
        lemma_octal_len(v / 8, (n - 1) as nat);
    }
}

pub proof fn lemma_be_len(v: nat, n: nat)
    ensures
        be_bytes(v, n).len() == n,
    decreases n,
{
    if n > 0 {
        lemma_be_len(v / 256, (n - 1) as nat);
    }
}

pub proof fn lemma_field_lengths(v: nat)
    ensures
        octal_field(v, 8).len() == 8,
        octal_field(v, 12).len() == 12,
        long_number_field(v).len() == 12,
{
    lemma_octal_len(v, 7);
    lemma_octal_len(v, 11);
    lemma_be_len(v, 8);
}

/// A new header by its fields.
pub proof fn lemma_new_headers()
    ensures
        old_header() == block(
            zeros(100),
            zeros(8),
            zeros(16),
            zeros(12),
            octal_field(0, 12),
            zeros(8),
            0u8,
            zeros(100),
            rest_field(false),
        ),
        gnu_header() == block(
            zeros(100),
            zeros(8),
            zeros(16),
            zeros(12),
            octal_field(0, 12),
            zeros(8),
            0u8,
            zeros(100),
            rest_field(true),
        ),
{
    lemma_field_lengths(0);
    assert(old_header() =~= block(
        zeros(100),
        zeros(8),
        zeros(16),
        zeros(12),
        octal_field(0, 12),
        zeros(8),
        0u8,
        zeros(100),
        rest_field(false),
    ));
    assert(gnu_header() =~= block(
        zeros(100),
        zeros(8),
        zeros(16),
        zeros(12),
        octal_field(0, 12),
        zeros(8),
        0u8,
        zeros(100),
        rest_field(true),
    ));
}

/// Writing over a field changes that field.
pub proof fn lemma_put_fields(
    name: Seq<u8>,
    mode: Seq<u8>,
    owners: Seq<u8>,
    size: Seq<u8>,
    mtime: Seq<u8>,
    sum: Seq<u8>,
    flag: u8,
    link: Seq<u8>,
    rest: Seq<u8>,
    n8: Seq<u8>,
    n12: Seq<u8>,
    f: u8,
)
    requires
        is_block(name, mode, owners, size, mtime, sum, link, rest),
        n8.len() == 8,
        n12.len() == 12,
    ensures
        ({
            let b = block(name, mode, owners, size, mtime, sum, flag, link, rest);
            &&& b.len() == 512
            &&& put(b, 100, n8) == block(name, n8, owners, size, mtime, sum, flag, link, rest)
            &&& put(b, 124, n12) == block(name, mode, owners, n12, mtime, sum, flag, link, rest)
            &&& put(b, 136, n12) == block(name, mode, owners, size, n12, sum, flag, link, rest)
            &&& put(b, 148, n8) == block(name, mode, owners, size, mtime, n8, flag, link, rest)
            &&& put(b, 156, seq![f]) == block(name, mode, owners, size, mtime, sum, f, link, rest)
            &&& put(b, 108, n8) == block(
                name,
                mode,
                n8 + owners.skip(8),
                size,
                mtime,
                sum,
                flag,
                link,
                rest,
            )
            &&& put(b, 116, n8) == block(
                name,
                mode,
                owners.take(8) + n8,
                size,
                mtime,
                sum,
                flag,
                link,
                rest,
            )
        }),
{
    let b = block(name, mode, owners, size, mtime, sum, flag, link, rest);
    assert(put(b, 100, n8) =~= block(name, n8, owners, size, mtime, sum, flag, link, rest));
    assert(put(b, 124, n12) =~= block(name, mode, owners, n12, mtime, sum, flag, link, rest));
    assert(put(b, 136, n12) =~= block(name, mode, owners, size, n12, sum, flag, link, rest));
    assert(put(b, 148, n8) =~= block(name, mode, owners, size, mtime, n8, flag, link, rest));
    assert(put(b, 156, seq![f]) =~= block(name, mode, owners, size, mtime, sum, f, link, rest));
    assert(put(b, 108, n8) =~= block(
        name,
        mode,
        n8 + owners.skip(8),
        size,
        mtime,
        sum,
        flag,
        link,
        rest,
    ));
    assert(put(b, 116, n8) =~= block(
        name,
        mode,
        owners.take(8) + n8,
        size,
        mtime,
        sum,
        flag,
        link,
        rest,
    ));
}

/// Writing at the beginning of an empty name or link, or behind what has been written there.
pub proof fn lemma_put_texts(
    name: Seq<u8>,
    mode: Seq<u8>,
    owners: Seq<u8>,
    size: Seq<u8>,
    mtime: Seq<u8>,
    sum: Seq<u8>,
    flag: u8,
    link: Seq<u8>,
    rest: Seq<u8>,
    text: Seq<u8>,
)
    requires
        name.len() + text.len() <= 100,
        link.len() + text.len() <= 100,
        is_block(
            zero_filled(name, 100),
            mode,
            owners,
            size,
            mtime,
            sum,
            zero_filled(link, 100),
            rest,
        ),
    ensures
        ({
            let b = block(
                zero_filled(name, 100),
                mode,
                owners,
                size,
                mtime,
                sum,
                flag,
                zero_filled(link, 100),
                rest,
            );
            &&& put(b, name.len() as int, text) == block(
                zero_filled(name + text, 100),
                mode,
                owners,
                size,
                mtime,
                sum,
                flag,
                zero_filled(link, 100),
                rest,
            )
            &&& put(b, (157 + link.len()) as int, text) == block(
                zero_filled(name, 100),
                mode,
                owners,
                size,
                mtime,
                sum,
                flag,
                zero_filled(link + text, 100),
                rest,
            )
        }),
{
    let b = block(
        zero_filled(name, 100),
        mode,
        owners,
        size,
        mtime,
        sum,
        flag,
        zero_filled(link, 100),
        rest,
    );
    assert(put(b, name.len() as int, text) =~= block(
        zero_filled(name + text, 100),
        mode,
        owners,
        size,
        mtime,
        sum,
        flag,
        zero_filled(link, 100),
        rest,
    ));
    assert(put(b, (157 + link.len()) as int, text) =~= block(
        zero_filled(name, 100),
        mode,
        owners,
        size,
        mtime,
        sum,
        flag,
        zero_filled(link + text, 100),
        rest,
    ));
}

// ---------------------------------------------------------------------------
// The `tar` crate
// ---------------------------------------------------------------------------
/// An error of input or output.
#[verifier::external_type_specification]
#[verifier::external_body]
pub struct ExIoError(std::io::Error);

/// A header of the `tar` crate: a block of 512 bytes.
#[verifier::external_type_specification]
#[verifier::external_body]
pub struct ExTarHeader(tar::Header);

/// A builder of the `tar` crate that writes to a vector. (`tar::Builder` is generic over a trait
/// that has no specification, which is why a type of this library holds it.)
#[verifier::external_body]
pub struct TarWriter {
    builder: tar::Builder<Vec<u8>>,
}

/// The bytes of a header, those that `tar::Header::as_bytes` returns.
pub uninterp spec fn header_bytes(header: tar::Header) -> Seq<u8>;

/// The bytes that have been written through a builder, with those that its destination held.
pub uninterp spec fn written(writer: TarWriter) -> Seq<u8>;

/// `tar::Header::new_old` gives a block of zero bytes with the time 0 in it.
pub assume_specification[ tar::Header::new_old ]() -> (h: tar::Header)
    ensures
        header_bytes(h) == old_header(),
;

/// `tar::Header::new_gnu` gives what `new_old` gives, with the magic and the version of the GNU
/// format.
pub assume_specification[ tar::Header::new_gnu ]() -> (h: tar::Header)
    ensures
        header_bytes(h) == gnu_header(),
;

/// `tar::Header::set_mode` writes the mode in octal into the bytes from 100 on.
pub assume_specification[ tar::Header::set_mode ](h: &mut tar::Header, mode: u32)
    ensures
        header_bytes(*final(h)) == put(header_bytes(*old(h)), 100, octal_field(mode as nat, 8)),
;

/// `tar::Header::set_uid` writes the number of the owner into the bytes from 108 on, in octal as
/// long as seven digits are enough. Nothing is said of greater numbers.
pub assume_specification[ tar::Header::set_uid ](h: &mut tar::Header, uid: u64)
    ensures
        uid < 0o10000000 ==> header_bytes(*final(h)) == put(
            header_bytes(*old(h)),
            108,
            octal_field(uid as nat, 8),
        ),
;

/// `tar::Header::set_gid` writes the number of the group into the bytes from 116 on, in octal as
/// long as seven digits are enough. Nothing is said of greater numbers.
pub assume_specification[ tar::Header::set_gid ](h: &mut tar::Header, gid: u64)
    ensures
        gid < 0o10000000 ==> header_bytes(*final(h)) == put(
            header_bytes(*old(h)),
            116,
            octal_field(gid as nat, 8),
        ),
;

/// `tar::Header::set_size` writes the size into the bytes from 124 on.
pub assume_specification[ tar::Header::set_size ](h: &mut tar::Header, size: u64)
    ensures
        header_bytes(*final(h)) == put(header_bytes(*old(h)), 124, long_number_field(size as nat)),
;

/// `tar::Header::set_mtime` writes the time into the bytes from 136 on.
pub assume_specification[ tar::Header::set_mtime ](h: &mut tar::Header, mtime: u64)
    ensures
        header_bytes(*final(h)) == put(header_bytes(*old(h)), 136, long_number_field(mtime as nat)),
;

/// `tar::Header::set_cksum` writes the checksum of the header in octal into the bytes from 148 on.
pub assume_specification[ tar::Header::set_cksum ](h: &mut tar::Header)
    ensures
        header_bytes(*final(h)) == put(
            header_bytes(*old(h)),
            148,
            octal_field(checksum(header_bytes(*old(h))), 8),
        ),
;

/// `tar::Header::set_entry_type`, with the type that `tar::EntryType::new` makes of a byte, writes
/// that byte at 156 (a zero byte would become the digit 0).
#[verifier::external_body]
pub(crate) fn set_entry_type(h: &mut tar::Header, flag: u8)
    requires
        flag != 0,
    ensures
        header_bytes(*final(h)) == put(header_bytes(*old(h)), 156, seq![flag]),
{
    h.set_entry_type(tar::EntryType::new(flag));
}

/// The name field that `tar::Header::as_old_mut` hands out is the first 100 bytes of the header;
/// `bytes` is copied into it from `at` on.
#[verifier::external_body]
pub(crate) fn write_name(h: &mut tar::Header, at: usize, bytes: &[u8])
    requires
        at + bytes@.len() <= 100,
    ensures
        header_bytes(*final(h)) == put(header_bytes(*old(h)), at as int, bytes@),
{
    h.as_old_mut().name[at..at + bytes.len()].copy_from_slice(bytes);
}

/// `tar::Header::set_link_name` writes the components of the path, separated by slashes, into the
/// bytes from 157 on, and a zero byte behind them where there is room. It fails if there are no
/// components, if they take more than 100 bytes, or if a zero byte is among them. Nothing is said
/// of the header where it fails.
#[verifier::external_body]
pub(crate) fn set_link_name(h: &mut tar::Header, link: &str) -> (r: Result<(), std::io::Error>)
    ensures
        r is Ok <==> link_fits(link@),
        r is Ok ==> header_bytes(*final(h)) == put(
            header_bytes(*old(h)),
            157,
            link_field(link@),
        ),
{
    h.set_link_name(link)
}

/// `tar::Builder::new` writes nothing yet.
#[verifier::external_body]
pub(crate) fn new_writer(dest: Vec<u8>) -> (w: TarWriter)
    ensures
        written(w) == dest@,
{
    TarWriter { builder: tar::Builder::new(dest) }
}

/// `tar::Builder::get_ref` shows the destination.
#[verifier::external_body]
pub(crate) fn written_len(w: &TarWriter) -> (n: usize)
    ensures
        n == written(*w).len(),
{
    w.builder.get_ref().len()
}

/// `tar::Builder::append` writes the header, the data, and zero bytes up to a whole number of
/// blocks. Writing to a vector and reading from a slice do not fail.
#[verifier::external_body]
pub(crate) fn append(w: &mut TarWriter, header: &tar::Header, data: &[u8]) -> (r: Result<
    (),
    std::io::Error,
>)
    ensures
        r is Ok,
        written(*final(w)) == written(*old(w)) + header_bytes(*header) + padded(data@),
{
    w.builder.append(header, data)
}

/// `tar::Builder::into_inner` writes two blocks of zero bytes, which end an archive, and returns
/// the destination. Writing to a vector does not fail.
#[verifier::external_body]
pub(crate) fn into_inner(w: TarWriter) -> (r: Result<Vec<u8>, std::io::Error>)
    ensures
        r is Ok,
        (r->Ok_0)@ == written(w) + zeros(1024),
{
    w.builder.into_inner()
}

/// `to_string` of `std::io::Error` gives the text of an error of input or output. What it says is left
/// open: some of these texts are those of the system.
#[verifier::external_body]
pub(crate) fn describe(e: &std::io::Error) -> String {
    e.to_string()
}

} // verus!
