//! What stands where in an archive of files.
use crate::deb::tar_blocks::{be_bytes, block, byte_sum, checksum, link_field, link_fits, long_number_field, octal_digits, octal_field, padded, put, rest_field, zero_filled, zeros};
use crate::deb::tarball::{entries_bytes, full_name, name_field, name_fits, Entry, EntryKind};
use vstd::prelude::*;
use vstd::utf8::encode_utf8;

verus! {

/// The value of octal digits.
pub open spec fn octal_value(s: Seq<u8>) -> nat
    decreases s.len(),
{
    if s.len() == 0 {
        0
    } else {
        octal_value(s.drop_last()) * 8 + (s.last() - 48) as nat
    }
}

/// A power of eight.
pub open spec fn eight_to(n: nat) -> nat
    decreases n,
{
    if n == 0 {
        1
    } else {
        8 * eight_to((n - 1) as nat)
    }
}

/// A number stands in a field as octal digits, with a zero byte behind them.
pub proof fn law_octal_field(v: nat, n: nat)
    requires
        n > 0,
        v < eight_to((n - 1) as nat),
    ensures
        octal_field(v, n).len() == n,
        octal_field(v, n).last() == 0u8,
        octal_value(octal_field(v, n).drop_last()) == v,
        forall|k: int| 0 <= k < n - 1 ==> 48 <= #[trigger] octal_field(v, n)[k] <= 55,
{
    lemma_octal(v, (n - 1) as nat);
    let d = octal_digits(v, (n - 1) as nat);
    let f = octal_field(v, n);
    assert(f.drop_last() =~= d);
    assert forall|k: int| 0 <= k < n - 1 implies 48 <= #[trigger] f[k] <= 55 by {
        assert(f[k] == d[k]);
    }
}

proof fn lemma_octal(v: nat, n: nat)
    requires
        v < eight_to(n),
    ensures
        octal_digits(v, n).len() == n,
        octal_value(octal_digits(v, n)) == v,
        forall|k: int| 0 <= k < n ==> 48 <= #[trigger] octal_digits(v, n)[k] <= 55,
    decreases n,
{
    if n > 0 {
        let m = (n - 1) as nat;
        lemma_octal(v / 8, m);
        let d = octal_digits(v, n);
        let before = octal_digits(v / 8, m);
        assert(d.drop_last() =~= before);
        assert(d.last() == 48 + v % 8);
        assert forall|k: int| 0 <= k < n implies 48 <= #[trigger] d[k] <= 55 by {
            if k < m {
                assert(d[k] == before[k]);
            }
        }
    }
}

/// Content fills whole blocks: zeros are added behind it, and nothing is changed.
pub proof fn law_padded(data: Seq<u8>)
    ensures
        padded(data).len() % 512 == 0,
        data.len() <= padded(data).len() < data.len() + 512,
        padded(data).take(data.len() as int) == data,
        forall|k: int| data.len() <= k < padded(data).len() ==> #[trigger] padded(data)[k] == 0u8,
{
    assert(padded(data).take(data.len() as int) =~= data);
}

/// The header of an entry is one block, with each field in its place: the name, the permissions, the
/// owners, the size, the date, the kind, and where a link leads to.
pub proof fn law_header(e: Entry, time: u64)
    requires
        e.kind matches EntryKind::Symlink(to) ==> link_fits(to),
    ensures
        ({
            let h = e.header(time);
            let path = encode_utf8(e.path);
            let name = name_field(path, e.is_dir());
            &&& h.len() == 512
            &&& h.subrange(0, 100) == zero_filled(name, 100)
            &&& h.subrange(100, 108) == octal_field(e.mode as nat, 8)
            &&& h.subrange(108, 124) == zeros(16)
            &&& h.subrange(124, 136) == long_number_field(e.data().len())
            &&& h.subrange(136, 148) == long_number_field(time as nat)
            &&& h[156] == match e.kind {
                EntryKind::Directory => 53u8,
                EntryKind::File(_) => 0u8,
                EntryKind::Symlink(_) => 50u8,
            }
            &&& h.subrange(157, 257) == match e.kind {
                EntryKind::Symlink(to) => zero_filled(link_field(to), 100),
                _ => zeros(100),
            }
        }),
{
    let path = encode_utf8(e.path);
    let name = zero_filled(name_field(path, e.is_dir()), 100);
    assert(name_field(path, e.is_dir()).len() <= 100);
    assert(name.len() == 100);
    let mode = octal_field(e.mode as nat, 8);
    lemma_octal_len(e.mode as nat, 7);
    let size = long_number_field(e.data().len());
    lemma_octal_len(e.data().len(), 11);
    lemma_be_len(e.data().len(), 8);
    let mtime = long_number_field(time as nat);
    lemma_octal_len(time as nat, 11);
    lemma_be_len(time as nat, 8);
    let link = e.link();
    assert(link.len() == 100) by {
        if let EntryKind::Symlink(to) = e.kind {
            assert(link_field(to).len() <= 100);
        }
    }
    let rest = rest_field(path.len() >= 98);
    assert(rest.len() == 255);
    let sum = checksum(block(name, mode, zeros(16), size, mtime, zeros(8), e.flag(), link, rest));
    let s = octal_field(sum, 8);
    lemma_octal_len(sum, 7);
    let h = e.header(time);
    assert(h == block(name, mode, zeros(16), size, mtime, s, e.flag(), link, rest));
    assert(h.subrange(0, 100) =~= name);
    assert(h.subrange(100, 108) =~= mode);
    assert(h.subrange(108, 124) =~= zeros(16));
    assert(h.subrange(124, 136) =~= size);
    assert(h.subrange(136, 148) =~= mtime);
    assert(h.subrange(157, 257) =~= link);
}

proof fn lemma_octal_len(v: nat, n: nat)
    ensures
        octal_digits(v, n).len() == n,
    decreases n,
{
    if n > 0 {
        lemma_octal_len(v / 8, (n - 1) as nat);
    }
}

proof fn lemma_be_len(v: nat, n: nat)
    ensures
        be_bytes(v, n).len() == n,
    decreases n,
{
    if n > 0 {
        lemma_be_len(v / 256, (n - 1) as nat);
    }
}

/// The checksum is the sum of the bytes of a header, with spaces in its own place.
pub proof fn law_checksum(e: Entry, time: u64)
    requires
        e.kind matches EntryKind::Symlink(to) ==> link_fits(to),
    ensures
        ({
            let h = e.header(time);
            let blank = Seq::new(512, |i: int| if 148 <= i < 156 { 32u8 } else { h[i] });
            h.subrange(148, 156) == octal_field(byte_sum(blank), 8)
        }),
{
    law_header(e, time);
    let path = encode_utf8(e.path);
    let name = zero_filled(name_field(path, e.is_dir()), 100);
    assert(name_field(path, e.is_dir()).len() <= 100);
    let mode = octal_field(e.mode as nat, 8);
    lemma_octal_len(e.mode as nat, 7);
    let size = long_number_field(e.data().len());
    lemma_octal_len(e.data().len(), 11);
    lemma_be_len(e.data().len(), 8);
    let mtime = long_number_field(time as nat);
    lemma_octal_len(time as nat, 11);
    lemma_be_len(time as nat, 8);
    let link = e.link();
    assert(link.len() == 100) by {
        if let EntryKind::Symlink(to) = e.kind {
            assert(link_field(to).len() <= 100);
        }
    }
    let rest = rest_field(path.len() >= 98);
    let open = block(name, mode, zeros(16), size, mtime, zeros(8), e.flag(), link, rest);
    let s = octal_field(checksum(open), 8);
    lemma_octal_len(checksum(open), 7);
    let h = e.header(time);
    assert(h == block(name, mode, zeros(16), size, mtime, s, e.flag(), link, rest));
    let blank = Seq::new(512, |i: int| if 148 <= i < 156 { 32u8 } else { h[i] });
    assert(put(open, 148, Seq::new(8, |i: int| 32u8)) =~= blank);
    assert(h.subrange(148, 156) =~= s);
}

/// A name begins with `./` and ends with a zero byte; that of a directory has one slash before it.
pub proof fn law_name(path: Seq<u8>, is_dir: bool)
    ensures
        ({
            let name = full_name(path, is_dir);
            &&& name.take(2) == encode_utf8("./"@)
            &&& name.last() == 0u8
            &&& name.skip(2).take(path.len() as int) == path
            &&& is_dir ==> name[name.len() - 2] == 47u8
            &&& !is_dir ==> name.len() == path.len() + 3
            &&& name.len() <= 100 ==> name_field(path, is_dir) == name
        }),
{
    reveal_strlit("./");
    vstd::utf8::is_ascii_chars_encode_utf8("./"@);
    let name = full_name(path, is_dir);
    assert(name.take(2) =~= encode_utf8("./"@));
    assert(name.skip(2).take(path.len() as int) =~= path);
}

/// Entries follow each other: the header, then the content.
pub proof fn law_entries_follow(entries: Seq<Entry>, e: Entry, time: u64)
    ensures
        entries_bytes(Seq::empty(), time).len() == 0,
        entries_bytes(entries, time).is_prefix_of(entries_bytes(entries.push(e), time)),
        name_fits(encode_utf8(e.path), e.is_dir()) ==> entries_bytes(entries.push(e), time)
            == entries_bytes(entries, time) + e.header(time) + padded(e.data()),
{
    let all = entries.push(e);
    assert(all.drop_last() =~= entries);
    let a = entries_bytes(entries, time);
    let b = entries_bytes(all, time);
    assert(a =~= b.take(a.len() as int));
    if name_fits(encode_utf8(e.path), e.is_dir()) {
        assert(b =~= a + e.header(time) + padded(e.data()));
    }
}

} // verus!
