//! What is read out of a tar archive.
use crate::deb::tar_blocks::{be_bytes, block, byte_sum, checksum, lemma_be_len, lemma_field_lengths, lemma_octal_len, link_fits, link_text, long_number_field, octal_digits, octal_field, padded, put, rest_field, zero_filled, zeros};
use crate::deb::tarball::{entries_bytes, full_name, long_link, long_name_record, name_field, name_fits, summed, Entry, EntryKind};
use vstd::prelude::*;
use vstd::utf8::encode_utf8;

verus! {

// ---------------------------------------------------------------------------
// Fields
// ---------------------------------------------------------------------------
/// The bytes in front of the first zero byte.
pub open spec fn until_zero(s: Seq<u8>) -> Seq<u8>
    decreases s.len(),
{
    if s.len() == 0 || s[0] == 0u8 {
        Seq::empty()
    } else {
        seq![s[0]] + until_zero(s.skip(1))
    }
}

/// The number that octal digits are.
pub open spec fn octal_value(s: Seq<u8>) -> int
    decreases s.len(),
{
    if s.len() == 0 {
        0
    } else {
        octal_value(s.drop_last()) * 8 + (s.last() - 48)
    }
}

/// The number that bytes are, the highest first.
pub open spec fn be_value(s: Seq<u8>) -> int
    decreases s.len(),
{
    if s.len() == 0 {
        0
    } else {
        be_value(s.drop_last()) * 256 + s.last()
    }
}

/// The number in a field of twelve bytes: octal digits, or, where the highest bit is set, bytes.
pub open spec fn number_at(s: Seq<u8>) -> int {
    if s[0] >= 0x80 {
        be_value(s.skip(4))
    } else {
        octal_value(s.take(11))
    }
}

/// The least number that has more than `n` octal digits.
pub open spec fn octal_limit(n: nat) -> nat
    decreases n,
{
    if n == 0 {
        1
    } else {
        8 * octal_limit((n - 1) as nat)
    }
}

/// The least number that has more than `n` bytes.
pub open spec fn byte_limit(n: nat) -> nat
    decreases n,
{
    if n == 0 {
        1
    } else {
        256 * byte_limit((n - 1) as nat)
    }
}

proof fn lemma_until_zero(t: Seq<u8>, z: Seq<u8>)
    requires
        !t.contains(0u8),
        z.len() == 0 || z[0] == 0u8,
    ensures
        until_zero(t + z) == t,
    decreases t.len(),
{
    if t.len() == 0 {
        assert(t + z =~= z);
    } else {
        let rest = t.skip(1);
        assert forall|i: int| 0 <= i < rest.len() implies rest[i] != 0u8 by {
            assert(rest[i] == t[i + 1]);
            assert(t.contains(t[i + 1]));
        }
        lemma_until_zero(rest, z);
        assert(t.contains(t[0]));
        assert((t + z).skip(1) =~= rest + z);
        assert(seq![t[0]] + rest =~= t);
    }
}

proof fn lemma_octal_value(v: nat, n: nat)
    requires
        v < octal_limit(n),
    ensures
        octal_value(octal_digits(v, n)) == v,
        forall|i: int| 0 <= i < n ==> 48 <= #[trigger] octal_digits(v, n)[i] < 56,
    decreases n,
{
    lemma_octal_len(v, n);
    if n > 0 {
        let m = (n - 1) as nat;
        lemma_octal_value(v / 8, m);
        lemma_octal_len(v / 8, m);
        let d = octal_digits(v, n);
        assert(d.drop_last() =~= octal_digits(v / 8, m));
        assert(d.last() == 48 + v % 8);
        assert forall|i: int| 0 <= i < n implies 48 <= #[trigger] d[i] < 56 by {
            if i < m {
                assert(d[i] == octal_digits(v / 8, m)[i]);
            }
        }
    }
}

proof fn lemma_be_value(v: nat, n: nat)
    requires
        v < byte_limit(n),
    ensures
        be_value(be_bytes(v, n)) == v,
    decreases n,
{
    lemma_be_len(v, n);
    if n > 0 {
        let m = (n - 1) as nat;
        lemma_be_value(v / 256, m);
        assert(be_bytes(v, n).drop_last() =~= be_bytes(v / 256, m));
    }
}

/// A size or a time is read back from its field.
proof fn lemma_number_at(v: nat)
    requires
        v <= u64::MAX,
    ensures
        number_at(long_number_field(v)) == v,
{
    reveal_with_fuel(octal_limit, 12);
    reveal_with_fuel(byte_limit, 9);
    lemma_field_lengths(v);
    let f = long_number_field(v);
    if v < 0o100000000000 {
        lemma_octal_value(v, 11);
        lemma_octal_len(v, 11);
        assert(f.take(11) =~= octal_digits(v, 11));
        assert(f[0] == octal_digits(v, 11)[0]);
    } else {
        lemma_be_value(v, 8);
        lemma_be_len(v, 8);
        assert(f.skip(4) =~= be_bytes(v, 8));
    }
}

/// A small number is read back from a field of eight bytes.
proof fn lemma_octal_at(v: nat)
    requires
        v < 0o10000000,
    ensures
        octal_value(octal_field(v, 8).take(7)) == v,
{
    reveal_with_fuel(octal_limit, 8);
    lemma_octal_value(v, 7);
    lemma_octal_len(v, 7);
    assert(octal_field(v, 8).take(7) =~= octal_digits(v, 7));
}

proof fn lemma_byte_sum(s: Seq<u8>)
    ensures
        byte_sum(s) <= 255 * s.len(),
    decreases s.len(),
{
    if s.len() > 0 {
        lemma_byte_sum(s.drop_last());
    }
}

// ---------------------------------------------------------------------------
// Headers
// ---------------------------------------------------------------------------
/// What a header says.
pub struct HeaderView {
    pub name: Seq<u8>,
    pub mode: int,
    pub size: int,
    pub mtime: int,
    pub checksum: int,
    pub flag: u8,
    pub link: Seq<u8>,
}

pub open spec fn read_header(b: Seq<u8>) -> HeaderView {
    HeaderView {
        name: until_zero(b.subrange(0, 100)),
        mode: octal_value(b.subrange(100, 107)),
        size: number_at(b.subrange(124, 136)),
        mtime: number_at(b.subrange(136, 148)),
        checksum: octal_value(b.subrange(148, 155)),
        flag: b[156],
        link: until_zero(b.subrange(157, 257)),
    }
}

/// A header with a checksum is read back, and the checksum is right.
proof fn lemma_header(
    name: Seq<u8>,
    mode: nat,
    owners: Seq<u8>,
    size: nat,
    mtime: nat,
    flag: u8,
    link: Seq<u8>,
    rest: Seq<u8>,
)
    requires
        name.len() == 100,
        mode < 0o10000000,
        owners.len() == 16,
        size <= u64::MAX,
        mtime <= u64::MAX,
        link.len() == 100,
        rest.len() == 255,
    ensures
        ({
            let h = summed(
                name,
                octal_field(mode, 8),
                owners,
                long_number_field(size),
                long_number_field(mtime),
                flag,
                link,
                rest,
            );
            &&& h.len() == 512
            &&& h[0] == name[0]
            &&& read_header(h) == (HeaderView {
                name: until_zero(name),
                mode: mode as int,
                size: size as int,
                mtime: mtime as int,
                checksum: checksum(h) as int,
                flag,
                link: until_zero(link),
            })
        }),
{
    let m = octal_field(mode, 8);
    let s = long_number_field(size);
    let t = long_number_field(mtime);
    lemma_field_lengths(mode);
    lemma_field_lengths(size);
    lemma_field_lengths(mtime);
    let unsummed = block(name, m, owners, s, t, zeros(8), flag, link, rest);
    let sum = checksum(unsummed);
    let c = octal_field(sum, 8);
    lemma_field_lengths(sum);
    let h = block(name, m, owners, s, t, c, flag, link, rest);
    let spaces = Seq::new(8, |i: int| 32u8);
    assert(put(unsummed, 148, spaces) =~= put(h, 148, spaces));
    lemma_byte_sum(put(h, 148, spaces));
    assert(h.subrange(0, 100) =~= name);
    assert(h.subrange(100, 107) =~= m.take(7));
    assert(h.subrange(124, 136) =~= s);
    assert(h.subrange(136, 148) =~= t);
    assert(h.subrange(148, 155) =~= c.take(7));
    assert(h.subrange(157, 257) =~= link);
    lemma_octal_at(mode);
    lemma_octal_at(sum);
    lemma_number_at(size);
    lemma_number_at(mtime);
}

// ---------------------------------------------------------------------------
// Entries
// ---------------------------------------------------------------------------
/// An entry as it is read.
pub struct ReadEntry {
    /// The name, which begins with `./`.
    pub name: Seq<u8>,
    pub mode: int,
    pub mtime: int,
    pub flag: u8,
    pub link: Seq<u8>,
    pub data: Seq<u8>,
}

/// How much room data takes in whole blocks.
pub open spec fn blocks_len(n: int) -> int {
    if n % 512 == 0 {
        n
    } else {
        n + (512 - n % 512)
    }
}

/// A record: what its header says, its data, and what is behind it. There is none where the archive
/// is too short, or a checksum is wrong.
#[verifier::opaque]
pub open spec fn read_record(b: Seq<u8>) -> Option<(HeaderView, Seq<u8>, Seq<u8>)> {
    if b.len() < 512 {
        None
    } else {
        let h = read_header(b);
        let end = 512 + blocks_len(h.size);
        if h.checksum != checksum(b.take(512)) || h.size < 0 || end > b.len() {
            None
        } else {
            Some((h, b.subrange(512, 512 + h.size), b.skip(end)))
        }
    }
}

/// An entry, whose name may stand in a record in front of it, and what is behind it.
#[verifier::opaque]
pub open spec fn read_entry(b: Seq<u8>) -> Option<(ReadEntry, Seq<u8>)> {
    match read_record(b) {
        None => None,
        Some((h, data, rest)) => if h.flag == 76u8 {
            match read_record(rest) {
                None => None,
                Some((h2, data2, rest2)) => Some(
                    (
                        ReadEntry {
                            name: until_zero(data),
                            mode: h2.mode,
                            mtime: h2.mtime,
                            flag: h2.flag,
                            link: h2.link,
                            data: data2,
                        },
                        rest2,
                    ),
                ),
            }
        } else {
            Some(
                (
                    ReadEntry {
                        name: h.name,
                        mode: h.mode,
                        mtime: h.mtime,
                        flag: h.flag,
                        link: h.link,
                        data,
                    },
                    rest,
                ),
            )
        },
    }
}

/// The entries of an archive, up to a block of zero bytes.
pub open spec fn read_archive(b: Seq<u8>) -> Seq<ReadEntry>
    decreases b.len(),
{
    if b.len() < 512 || b.take(512) == zeros(512) {
        Seq::empty()
    } else {
        match read_entry(b) {
            None => Seq::empty(),
            Some((e, rest)) => if rest.len() < b.len() {
                seq![e] + read_archive(rest)
            } else {
                Seq::empty()
            },
        }
    }
}

/// Whether an entry can be told from what stands in an archive: its path has no zero byte, and its
/// permissions, its size and the destination of a link have room in a header.
pub open spec fn is_plain(e: Entry) -> bool {
    &&& !encode_utf8(e.path).contains(0u8)
    &&& encode_utf8(e.path).len() + 4 <= u64::MAX
    &&& e.mode < 0o10000000
    &&& e.data().len() <= u64::MAX
    &&& e.kind matches EntryKind::Symlink(to) ==> link_fits(to)
}

/// An entry as it is read back.
pub open spec fn seen(e: Entry, time: u64) -> ReadEntry {
    ReadEntry {
        name: full_name(encode_utf8(e.path), e.is_dir()).drop_last(),
        mode: e.mode as int,
        mtime: time as int,
        flag: e.flag(),
        link: match e.kind {
            EntryKind::Symlink(to) => encode_utf8(link_text(to)),
            _ => Seq::empty(),
        },
        data: e.data(),
    }
}

proof fn lemma_record(h: Seq<u8>, data: Seq<u8>, rest: Seq<u8>)
    requires
        h.len() == 512,
        read_header(h).size == data.len(),
        read_header(h).checksum == checksum(h),
    ensures
        read_record(h + padded(data) + rest) == Some((read_header(h), data, rest)),
{
    reveal(read_record);
    let b = h + padded(data) + rest;
    assert(b.take(512) =~= h);
    assert(b.subrange(0, 100) =~= h.subrange(0, 100));
    assert(b.subrange(100, 107) =~= h.subrange(100, 107));
    assert(b.subrange(124, 136) =~= h.subrange(124, 136));
    assert(b.subrange(136, 148) =~= h.subrange(136, 148));
    assert(b.subrange(148, 155) =~= h.subrange(148, 155));
    assert(b.subrange(157, 257) =~= h.subrange(157, 257));
    assert(read_header(b) == read_header(h));
    let n = data.len() as int;
    assert(padded(data).len() == blocks_len(n));
    assert(b.subrange(512, 512 + n) =~= data);
    assert(b.skip(512 + blocks_len(n)) =~= rest);
}

/// The name of an entry has no zero byte but the last.
proof fn lemma_full_name(path: Seq<u8>, is_dir: bool)
    requires
        !path.contains(0u8),
    ensures
        !full_name(path, is_dir).drop_last().contains(0u8),
        full_name(path, is_dir).last() == 0u8,
        full_name(path, is_dir).len() <= path.len() + 4,
        full_name(path, is_dir).len() >= 3,
        full_name(path, is_dir)[0] == 46u8,
{
    let n = full_name(path, is_dir).drop_last();
    assert forall|i: int| 0 <= i < n.len() implies n[i] != 0u8 by {
        if 2 <= i < 2 + path.len() {
            assert(n[i] == path[i - 2]);
            assert(path.contains(path[i - 2]));
        }
    }
}

/// The header of an entry is read back, but for the name where that has no room in it.
proof fn lemma_entry_header(e: Entry, time: u64)
    requires
        is_plain(e),
    ensures
        ({
            let h = e.header(time);
            let path = encode_utf8(e.path);
            let s = seen(e, time);
            &&& h.len() == 512
            &&& h[0] == 46u8
            &&& read_header(h) == (HeaderView {
                name: until_zero(zero_filled(name_field(path, e.is_dir()), 100)),
                mode: s.mode,
                size: s.data.len() as int,
                mtime: s.mtime,
                checksum: checksum(h) as int,
                flag: s.flag,
                link: s.link,
            })
        }),
{
    let path = encode_utf8(e.path);
    let name = zero_filled(name_field(path, e.is_dir()), 100);
    lemma_full_name(path, e.is_dir());
    assert(name.len() == 100 && name[0] == 46u8);
    match e.kind {
        EntryKind::Symlink(to) => {
            let link = encode_utf8(link_text(to));
            let z = zeros((100 - link.len()) as nat);
            assert(e.link() =~= link + z);
            lemma_until_zero(link, z);
        },
        _ => {
            assert(zeros(100) =~= Seq::<u8>::empty() + zeros(100));
            lemma_until_zero(Seq::empty(), zeros(100));
        },
    }
    lemma_header(
        name,
        e.mode as nat,
        zeros(16),
        e.data().len(),
        time as nat,
        e.flag(),
        e.link(),
        rest_field(path.len() >= 98),
    );
}

/// The record in front of an entry with a long name is read back.
proof fn lemma_long_record(path: Seq<u8>, is_dir: bool, rest: Seq<u8>)
    requires
        !path.contains(0u8),
        path.len() + 4 <= u64::MAX,
        !name_fits(path, is_dir),
    ensures
        ({
            let r = long_name_record(path, is_dir);
            let full = full_name(path, is_dir);
            &&& r.len() >= 512
            &&& r[0] == 46u8
            &&& read_record(r + rest) matches Some((h, data, behind)) && h.flag == 76u8 && data
                == full && behind == rest
            &&& until_zero(full) == full.drop_last()
        }),
{
    let full = full_name(path, is_dir);
    let first = zero_filled(long_link(), 100);
    let owners = octal_field(0, 8) + octal_field(0, 8);
    lemma_full_name(path, is_dir);
    lemma_field_lengths(0);
    lemma_header(first, 0o644, owners, full.len(), 0, 76u8, zeros(100), rest_field(true));
    let long = summed(
        first,
        octal_field(0o644, 8),
        owners,
        long_number_field(full.len()),
        long_number_field(0),
        76u8,
        zeros(100),
        rest_field(true),
    );
    lemma_record(long, full, rest);
    assert(long_name_record(path, is_dir) == long + padded(full));
    assert(full =~= full.drop_last() + seq![0u8]);
    lemma_until_zero(full.drop_last(), seq![0u8]);
}

/// The entry is read back from its bytes, whatever is behind them.
proof fn lemma_entry(e: Entry, time: u64, rest: Seq<u8>)
    requires
        is_plain(e),
    ensures
        read_entry(e.bytes(time) + rest) == Some((seen(e, time), rest)),
        e.bytes(time).len() >= 512,
        e.bytes(time)[0] == 46u8,
{
    reveal(read_entry);
    let path = encode_utf8(e.path);
    let full = full_name(path, e.is_dir());
    let h = e.header(time);
    let behind = h + padded(e.data()) + rest;
    lemma_full_name(path, e.is_dir());
    lemma_entry_header(e, time);
    lemma_record(h, e.data(), rest);
    if name_fits(path, e.is_dir()) {
        let z = seq![0u8] + zeros((100 - full.len()) as nat);
        assert(zero_filled(name_field(path, e.is_dir()), 100) =~= full.drop_last() + z);
        lemma_until_zero(full.drop_last(), z);
        assert(e.bytes(time) + rest =~= behind);
    } else {
        lemma_long_record(path, e.is_dir(), behind);
        assert(e.bytes(time) + rest =~= long_name_record(path, e.is_dir()) + behind);
    }
}

proof fn lemma_entries_front(entries: Seq<Entry>, time: u64)
    requires
        entries.len() > 0,
    ensures
        entries_bytes(entries, time) == entries[0].bytes(time) + entries_bytes(
            entries.skip(1),
            time,
        ),
    decreases entries.len(),
{
    let rest = entries.skip(1);
    if entries.len() == 1 {
        assert(entries.drop_last() =~= Seq::<Entry>::empty());
        assert(rest =~= Seq::<Entry>::empty());
        assert(entries_bytes(entries, time) =~= entries[0].bytes(time) + entries_bytes(rest, time));
    } else {
        let before = entries.drop_last();
        lemma_entries_front(before, time);
        assert(before.skip(1) =~= rest.drop_last());
        assert(entries_bytes(entries, time) =~= entries[0].bytes(time) + entries_bytes(rest, time));
    }
}

proof fn lemma_step(first: Seq<u8>, e: ReadEntry, behind: Seq<u8>)
    requires
        read_entry(first + behind) == Some((e, behind)),
        first.len() >= 512,
        first[0] == 46u8,
    ensures
        read_archive(first + behind) == seq![e] + read_archive(behind),
{
    let b = first + behind;
    assert(b.take(512)[0] == 46u8);
    assert(zeros(512)[0] == 0u8);
}

/// Out of an archive its entries are read, each with its name behind `./`, its permissions, its time,
/// its type, the destination of a link, and its data; in their order, and nothing else.
pub proof fn law_archive_is_read_back(entries: Seq<Entry>, time: u64)
    requires
        forall|i: int| 0 <= i < entries.len() ==> is_plain(#[trigger] entries[i]),
    ensures
        read_archive(entries_bytes(entries, time) + zeros(1024)) == entries.map_values(
            |e: Entry| seen(e, time),
        ),
    decreases entries.len(),
{
    let b = entries_bytes(entries, time) + zeros(1024);
    let all = entries.map_values(|e: Entry| seen(e, time));
    if entries.len() == 0 {
        assert(b.take(512) =~= zeros(512));
        assert(all =~= Seq::<ReadEntry>::empty());
    } else {
        let rest = entries.skip(1);
        let behind = entries_bytes(rest, time) + zeros(1024);
        lemma_entries_front(entries, time);
        lemma_entry(entries[0], time, behind);
        lemma_step(entries[0].bytes(time), seen(entries[0], time), behind);
        assert(b =~= entries[0].bytes(time) + behind);
        assert forall|i: int| 0 <= i < rest.len() implies is_plain(#[trigger] rest[i]) by {
            assert(rest[i] == entries[i + 1]);
        }
        law_archive_is_read_back(rest, time);
        assert(all =~= seq![seen(entries[0], time)] + rest.map_values(|e: Entry| seen(e, time)));
    }
}

} // verus!
