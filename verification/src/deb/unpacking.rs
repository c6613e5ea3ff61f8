//! What is read out of an `ar` archive.
use crate::deb::archive::{archive_bytes, members_bytes, Member};
use crate::deb::members::{archive_start, ascii, field, header_block, is_long, octal};
use crate::text::{decimal, digit_char};
use vstd::prelude::*;
use vstd::utf8::encode_utf8;

verus! {

// ---------------------------------------------------------------------------
// Fields
// ---------------------------------------------------------------------------
/// The bytes without the spaces that they end with.
pub open spec fn without_spaces(s: Seq<u8>) -> Seq<u8>
    decreases s.len(),
{
    if s.len() > 0 && s.last() == 32u8 {
        without_spaces(s.drop_last())
    } else {
        s
    }
}

/// The number that digits are.
pub open spec fn decimal_value(s: Seq<u8>) -> int
    decreases s.len(),
{
    if s.len() == 0 {
        0
    } else {
        decimal_value(s.drop_last()) * 10 + (s.last() - 48)
    }
}

/// The least number that has more than `n` digits.
pub open spec fn decimal_limit(n: nat) -> nat
    decreases n,
{
    if n == 0 {
        1
    } else {
        10 * decimal_limit((n - 1) as nat)
    }
}

proof fn lemma_without_spaces(t: Seq<u8>, n: nat)
    requires
        t.len() == 0 || t.last() != 32u8,
    ensures
        without_spaces(t + Seq::new(n, |i: int| 32u8)) == t,
    decreases n,
{
    let s = t + Seq::new(n, |i: int| 32u8);
    if n == 0 {
        assert(s =~= t);
    } else {
        let m = (n - 1) as nat;
        lemma_without_spaces(t, m);
        assert(s.drop_last() =~= t + Seq::new(m, |i: int| 32u8));
    }
}

proof fn lemma_decimal(n: nat, k: nat)
    requires
        n < decimal_limit(k),
        k > 0,
    ensures
        decimal_value(ascii(decimal(n))) == n,
        0 < decimal(n).len() <= k,
        ascii(decimal(n)).last() != 32u8,
    decreases n,
{
    let d = decimal(n);
    let last = digit_char((n % 10) as int);
    assert(last as u8 == 48 + n % 10);
    if n < 10 {
        assert(ascii(d) =~= seq![last as u8]);
        assert(seq![last as u8].drop_last() =~= Seq::<u8>::empty());
        assert(decimal_value(seq![last as u8].drop_last()) == 0);
    } else {
        if k == 1 {
            assert(decimal_limit(0) == 1);
        }
        lemma_decimal(n / 10, (k - 1) as nat);
        assert(ascii(d).drop_last() =~= ascii(decimal(n / 10)));
        assert(ascii(d).last() == last as u8);
    }
}

/// A number is read back from a field that it has room in, which is as wide as it should be.
proof fn lemma_field(n: nat, width: nat)
    requires
        n < decimal_limit(width),
        width > 0,
    ensures
        field(decimal(n), width).len() == width,
        decimal_value(without_spaces(field(decimal(n), width))) == n,
{
    lemma_decimal(n, width);
    let d = decimal(n);
    lemma_without_spaces(ascii(d), (width - d.len()) as nat);
    assert(field(d, width) =~= ascii(d) + Seq::new((width - d.len()) as nat, |i: int| 32u8));
}

// ---------------------------------------------------------------------------
// Members
// ---------------------------------------------------------------------------
/// A member as it is read.
pub struct ReadMember {
    pub name: Seq<u8>,
    pub mtime: int,
    pub data: Seq<u8>,
}

/// The first member, and what is behind it: a header of sixty bytes, as much data as it says, and one
/// more byte where that is an odd number. There is none where the archive is too short, or the header
/// does not end as one does.
#[verifier::opaque]
pub open spec fn read_member(b: Seq<u8>) -> Option<(ReadMember, Seq<u8>)> {
    let size = decimal_value(without_spaces(b.subrange(48, 58)));
    let end = 60 + size + size % 2;
    if b.len() < 60 || b.subrange(58, 60) != seq![96u8, 10u8] || size < 0 || end > b.len() {
        None
    } else {
        Some(
            (
                ReadMember {
                    name: without_spaces(b.subrange(0, 16)),
                    mtime: decimal_value(without_spaces(b.subrange(16, 28))),
                    data: b.subrange(60, 60 + size),
                },
                b.skip(end),
            ),
        )
    }
}

/// All members.
pub open spec fn read_members(b: Seq<u8>) -> Seq<ReadMember>
    decreases b.len(),
{
    match read_member(b) {
        None => Seq::empty(),
        Some((m, rest)) => if rest.len() < b.len() {
            seq![m] + read_members(rest)
        } else {
            Seq::empty()
        },
    }
}

/// Whether a member can be told from what stands in an archive: its name, its time and its size have
/// room in a header.
pub open spec fn is_plain(m: Member) -> bool {
    &&& !is_long(encode_utf8(m.name))
    &&& m.time < 1_000_000_000_000
    &&& m.data.len() < 10_000_000_000
}

/// A member as it is read back.
pub open spec fn seen(m: Member) -> ReadMember {
    ReadMember { name: encode_utf8(m.name), mtime: m.time as int, data: m.data }
}

/// The header of such a member takes sixty bytes, and is read back.
proof fn lemma_header(m: Member)
    requires
        is_plain(m),
    ensures
        ({
            let h = header_block(m.fields());
            &&& h.len() == 60
            &&& without_spaces(h.subrange(0, 16)) == encode_utf8(m.name)
            &&& decimal_value(without_spaces(h.subrange(16, 28))) == m.time
            &&& decimal_value(without_spaces(h.subrange(48, 58))) == m.data.len()
            &&& h.subrange(58, 60) == seq![96u8, 10u8]
        }),
{
    reveal_with_fuel(decimal_limit, 13);
    let f = m.fields();
    let name = f.identifier;
    let n = (16 - name.len()) as nat;
    let spaces = Seq::new(n, |i: int| 32u8);
    let time = field(decimal(f.mtime as nat), 12);
    let uid = field(decimal(0), 6);
    let mode = field(octal(0o100644), 8);
    let size = field(decimal(f.size as nat), 10);
    lemma_field(f.mtime as nat, 12);
    lemma_field(0, 6);
    lemma_field(f.size as nat, 10);
    reveal_with_fuel(octal, 6);
    assert(octal(0o100644).len() == 6);
    assert(mode.len() == 8);
    if name.len() > 0 && name.last() == 32u8 {
        assert(name.contains(name.last()));
    }
    lemma_without_spaces(name, n);
    let h = header_block(f);
    assert(h =~= name + spaces + (time + uid + uid + mode + size + seq![96u8, 10u8]));
    assert(h.subrange(0, 16) =~= name + spaces);
    assert(h.subrange(16, 28) =~= time);
    assert(h.subrange(48, 58) =~= size);
    assert(h.subrange(58, 60) =~= seq![96u8, 10u8]);
}

/// The member is read back from its bytes, whatever is behind them.
proof fn lemma_member(m: Member, rest: Seq<u8>)
    requires
        is_plain(m),
    ensures
        read_member(m.bytes() + rest) == Some((seen(m), rest)),
        m.bytes().len() >= 60,
{
    reveal(read_member);
    lemma_header(m);
    let h = header_block(m.fields());
    let n = m.data.len() as int;
    let pad = if n % 2 == 1 {
        seq![10u8]
    } else {
        Seq::<u8>::empty()
    };
    let b = h + m.data + pad + rest;
    assert(m.bytes() + rest =~= b);
    assert(b.subrange(0, 16) =~= h.subrange(0, 16));
    assert(b.subrange(16, 28) =~= h.subrange(16, 28));
    assert(b.subrange(48, 58) =~= h.subrange(48, 58));
    assert(b.subrange(58, 60) =~= h.subrange(58, 60));
    assert(b.subrange(60, 60 + n) =~= m.data);
    assert(b.skip(60 + n + n % 2) =~= rest);
}

proof fn lemma_members_front(members: Seq<Member>)
    requires
        members.len() > 0,
    ensures
        members_bytes(members) == members[0].bytes() + members_bytes(members.skip(1)),
    decreases members.len(),
{
    let rest = members.skip(1);
    if members.len() == 1 {
        assert(members.drop_last() =~= Seq::<Member>::empty());
        assert(rest =~= Seq::<Member>::empty());
        assert(members_bytes(members) =~= members[0].bytes() + members_bytes(rest));
    } else {
        let before = members.drop_last();
        lemma_members_front(before);
        assert(before.skip(1) =~= rest.drop_last());
        assert(members_bytes(members) =~= members[0].bytes() + members_bytes(rest));
    }
}

proof fn lemma_read_members(members: Seq<Member>)
    requires
        forall|i: int| 0 <= i < members.len() ==> is_plain(#[trigger] members[i]),
    ensures
        read_members(members_bytes(members)) == members.map_values(|m: Member| seen(m)),
    decreases members.len(),
{
    let all = members.map_values(|m: Member| seen(m));
    let b = members_bytes(members);
    if members.len() == 0 {
        reveal(read_member);
        assert(all =~= Seq::<ReadMember>::empty());
    } else {
        let rest = members.skip(1);
        lemma_members_front(members);
        lemma_member(members[0], members_bytes(rest));
        assert forall|i: int| 0 <= i < rest.len() implies is_plain(#[trigger] rest[i]) by {
            assert(rest[i] == members[i + 1]);
        }
        lemma_read_members(rest);
        assert(all =~= seq![seen(members[0])] + rest.map_values(|m: Member| seen(m)));
    }
}

/// An archive begins with its mark. Behind it the members are read, each with its name, its time and
/// its data; in their order, and nothing else.
pub proof fn law_members_are_read_back(members: Seq<Member>)
    requires
        members.len() > 0,
        forall|i: int| 0 <= i < members.len() ==> is_plain(#[trigger] members[i]),
    ensures
        ({
            let b = archive_bytes(members);
            let n = archive_start().len() as int;
            &&& b.take(n) == archive_start()
            &&& read_members(b.skip(n)) == members.map_values(|m: Member| seen(m))
        }),
{
    let b = archive_bytes(members);
    let n = archive_start().len() as int;
    assert(b.take(n) =~= archive_start());
    assert(b.skip(n) =~= members_bytes(members));
    lemma_read_members(members);
}

} // verus!
